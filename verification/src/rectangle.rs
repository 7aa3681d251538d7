//! Axis-aligned rectangles given by two corner vectors.

use crate::vector::{Point2, Vector2};
use vstd::prelude::*;

verus! {

/// A rectangle from corner `a` (left, bottom) to corner `b` (right, top).
#[derive(Clone, Copy, Debug, PartialEq, Eq, Structural)]
pub struct Rectangle<T> {
    pub a: Vector2<T>,
    pub b: Vector2<T>,
}

impl<T> Rectangle<T> {
    /// The rectangle with corners `a` and `b`.
    pub fn new(a: Vector2<T>, b: Vector2<T>) -> (r: Rectangle<T>)
        ensures
            r == (Rectangle { a, b }),
    {
        Rectangle { a, b }
    }

    /// The `x` of corner `a`.
    pub fn left(self) -> (r: T)
        ensures
            r == self.a.x,
    {
        self.a.x
    }

    /// The `x` of corner `b`.
    pub fn right(self) -> (r: T)
        ensures
            r == self.b.x,
    {
        self.b.x
    }

    /// The `y` of corner `a`.
    pub fn bot(self) -> (r: T)
        ensures
            r == self.a.y,
    {
        self.a.y
    }

    /// The `y` of corner `b`.
    pub fn top(self) -> (r: T)
        ensures
            r == self.b.y,
    {
        self.b.y
    }
}

impl<T: Copy> Rectangle<T> {
    /// The corner `(left, top)`.
    pub fn left_top(self) -> (r: Vector2<T>)
        ensures
            r == (Vector2 { x: self.a.x, y: self.b.y }),
    {
        Vector2::new(self.left(), self.top())
    }

    /// The corner `(right, bot)`.
    pub fn right_bot(self) -> (r: Vector2<T>)
        ensures
            r == (Vector2 { x: self.b.x, y: self.a.y }),
    {
        Vector2::new(self.right(), self.bot())
    }

    /// The four corners: `a`, `(right, bot)`, `b`, `(left, top)`.
    pub fn rect_points(self) -> (r: [Vector2<T>; 4])
        ensures
            r@ == seq![self.a, self.right_bot_spec(), self.b, self.left_top_spec()],
    {
        [self.a, self.right_bot(), self.b, self.left_top()]
    }

    /// The corner `(right, bot)`.
    pub open spec fn right_bot_spec(self) -> Vector2<T> {
        Vector2 { x: self.b.x, y: self.a.y }
    }

    /// The corner `(left, top)`.
    pub open spec fn left_top_spec(self) -> Vector2<T> {
        Vector2 { x: self.a.x, y: self.b.y }
    }
}

impl Rectangle<i32> {
    /// The rectangle with `u32` corners; `None` when a coordinate is negative.
    pub fn cast(self) -> (r: Option<Rectangle<u32>>)
        ensures
            r is Some <==> (self.a.x >= 0 && self.a.y >= 0 && self.b.x >= 0 && self.b.y >= 0),
            r matches Some(q) ==> q.a.x == self.a.x && q.a.y == self.a.y && q.b.x == self.b.x
                && q.b.y == self.b.y,
    {
        if self.a.x < 0 || self.a.y < 0 || self.b.x < 0 || self.b.y < 0 {
            None
        } else {
            Some(
                Rectangle::new(
                    Vector2::new(self.a.x as u32, self.a.y as u32),
                    Vector2::new(self.b.x as u32, self.b.y as u32),
                ),
            )
        }
    }

    /// The extent `b - a`.
    pub fn size(self) -> (r: Vector2<i32>)
        requires
            i32::MIN <= self.b.x - self.a.x <= i32::MAX,
            i32::MIN <= self.b.y - self.a.y <= i32::MAX,
        ensures
            r.x == self.b.x - self.a.x,
            r.y == self.b.y - self.a.y,
    {
        Vector2::new(self.b.x - self.a.x, self.b.y - self.a.y)
    }

    /// The middle `a + (b - a) / 2`, the halving rounding toward zero.
    pub fn center(self) -> (r: Vector2<i32>)
        requires
            i32::MIN <= self.b.x - self.a.x <= i32::MAX,
            i32::MIN <= self.b.y - self.a.y <= i32::MAX,
        ensures
            r.x == self.a.x + half(self.b.x - self.a.x),
            r.y == self.a.y + half(self.b.y - self.a.y),
    {
        let s = self.size();
        Vector2::new(self.a.x + half_i32(s.x), self.a.y + half_i32(s.y))
    }

    /// Whether `pnt` lies within `left..=right` and `top..=bot`.
    pub fn intersects_point(self, pnt: Point2<i32>) -> (r: bool)
        ensures
            r == (self.a.x <= pnt.x <= self.b.x && self.b.y <= pnt.y <= self.a.y),
    {
        self.left() <= pnt.x && pnt.x <= self.right() && self.top() <= pnt.y && pnt.y <= self.bot()
    }
}

impl Rectangle<u32> {
    /// The rectangle with `i32` corners; `None` when a coordinate exceeds `i32::MAX`.
    pub fn cast(self) -> (r: Option<Rectangle<i32>>)
        ensures
            r is Some <==> (self.a.x <= i32::MAX && self.a.y <= i32::MAX && self.b.x <= i32::MAX
                && self.b.y <= i32::MAX),
            r matches Some(q) ==> q.a.x == self.a.x && q.a.y == self.a.y && q.b.x == self.b.x
                && q.b.y == self.b.y,
    {
        if self.a.x > 0x7fff_ffff || self.a.y > 0x7fff_ffff || self.b.x > 0x7fff_ffff || self.b.y
            > 0x7fff_ffff {
            None
        } else {
            Some(
                Rectangle::new(
                    Vector2::new(self.a.x as i32, self.a.y as i32),
                    Vector2::new(self.b.x as i32, self.b.y as i32),
                ),
            )
        }
    }

    /// The extent `b - a`.
    pub fn size(self) -> (r: Vector2<u32>)
        requires
            self.a.x <= self.b.x,
            self.a.y <= self.b.y,
        ensures
            r.x == self.b.x - self.a.x,
            r.y == self.b.y - self.a.y,
    {
        Vector2::new(self.b.x - self.a.x, self.b.y - self.a.y)
    }

    /// The middle `a + (b - a) / 2`, the halving rounding down.
    pub fn center(self) -> (r: Vector2<u32>)
        requires
            self.a.x <= self.b.x,
            self.a.y <= self.b.y,
        ensures
            r.x == self.a.x + (self.b.x - self.a.x) / 2,
            r.y == self.a.y + (self.b.y - self.a.y) / 2,
    {
        let s = self.size();
        Vector2::new(self.a.x + s.x / 2, self.a.y + s.y / 2)
    }

    /// Whether `pnt` lies within `left..=right` and `top..=bot`.
    pub fn intersects_point(self, pnt: Point2<u32>) -> (r: bool)
        ensures
            r == (self.a.x <= pnt.x <= self.b.x && self.b.y <= pnt.y <= self.a.y),
    {
        self.left() <= pnt.x && pnt.x <= self.right() && self.top() <= pnt.y && pnt.y <= self.bot()
    }
}

impl<T> From<(Vector2<T>, Vector2<T>)> for Rectangle<T> {
    /// The rectangle with the corners of the pair.
    fn from(ab: (Vector2<T>, Vector2<T>)) -> (r: Rectangle<T>)
        ensures
            r == (Rectangle { a: ab.0, b: ab.1 }),
    {
        let (a, b) = ab;
        Rectangle::new(a, b)
    }
}

impl<T> vstd::std_specs::convert::FromSpecImpl<(Vector2<T>, Vector2<T>)> for Rectangle<T> {
    open spec fn obeys_from_spec() -> bool {
        true
    }

    open spec fn from_spec(ab: (Vector2<T>, Vector2<T>)) -> Rectangle<T> {
        Rectangle { a: ab.0, b: ab.1 }
    }
}

/// Half of `v`, rounded toward zero.
pub open spec fn half(v: int) -> int {
    if v >= 0 {
        v / 2
    } else {
        -((-v) / 2)
    }
}

/// Half of `v`, rounded toward zero.
fn half_i32(v: i32) -> (r: i32)
    ensures
        r == half(v as int),
{
    if v >= 0 {
        v / 2
    } else {
        let m: i64 = -(v as i64);
        let h: i64 = m / 2;
        -(h as i32)
    }
}

} // verus!

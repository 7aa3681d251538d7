//! Small fixed-size vectors of integers, and the GLSL names of their types.

use vstd::prelude::*;

verus! {

/// A two-component vector.
#[derive(Clone, Copy, Debug, PartialEq, Eq, Structural)]
pub struct Vector2<T> {
    pub x: T,
    pub y: T,
}

impl<T> Vector2<T> {
    /// The vector `(x, y)`.
    pub fn new(x: T, y: T) -> (r: Vector2<T>)
        ensures
            r == (Vector2 { x, y }),
    {
        Vector2 { x, y }
    }
}

/// A point of the plane.
#[derive(Clone, Copy, Debug, PartialEq, Eq, Structural)]
pub struct Point2<T> {
    pub x: T,
    pub y: T,
}

/// A three-component vector.
#[derive(Clone, Copy, Debug, PartialEq, Eq, Structural)]
pub struct Vector3<T> {
    pub x: T,
    pub y: T,
    pub z: T,
}

/// A four-component vector.
#[derive(Clone, Copy, Debug, PartialEq, Eq, Structural)]
pub struct Vector4<T> {
    pub x: T,
    pub y: T,
    pub z: T,
    pub w: T,
}

pub type IVec2 = Vector2<i32>;

pub type IVec3 = Vector3<i32>;

pub type IVec4 = Vector4<i32>;

pub type UVec2 = Vector2<u32>;

pub type UVec3 = Vector3<u32>;

pub type UVec4 = Vector4<u32>;

} // verus!

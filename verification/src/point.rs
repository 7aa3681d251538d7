//! Positions in the world: a world point is a cluster point (which chunk)
//! plus a chunk point (which cell of that chunk).
//!
//! A chunk is `CHUNK` cells along each axis; the world is `LAYERS` chunks
//! tall and unbounded (within `i32`) horizontally. `y` points up.

use vstd::prelude::*;

verus! {

/// Cells along each axis of a chunk.
pub const CHUNK: u8 = 32;

/// Cells in a chunk.
pub const CHUNK_CELLS: usize = 32768;

/// Chunks stacked vertically in the world.
pub const LAYERS: i32 = 16;

/// A vertical direction.
#[derive(Clone, Copy, Debug, PartialEq, Eq, Structural)]
pub enum Side {
    Up,
    Down,
}

/// Whether `(x, y, z)` lies in the world.
pub open spec fn in_world(p: (int, int, int)) -> bool {
    &&& i32::MIN <= p.0 <= i32::MAX
    &&& 0 <= p.1 < 32 * 16
    &&& i32::MIN <= p.2 <= i32::MAX
}

/// The cluster that holds world position `p`.
pub open spec fn cluster_of(p: (int, int, int)) -> (int, int, int) {
    (p.0 / 32, p.1 / 32, p.2 / 32)
}

/// The cell of its chunk that holds world position `p`.
pub open spec fn cell_of(p: (int, int, int)) -> (int, int, int) {
    (p.0 % 32, p.1 % 32, p.2 % 32)
}

/// The offset in a chunk's cell array of cell `c`: `y` runs fastest, so
/// the cells of a column inside one chunk are contiguous.
pub open spec fn cell_index(c: (int, int, int)) -> int {
    c.0 * 1024 + c.2 * 32 + c.1
}

/// The position `k` cells above `p`.
pub open spec fn above(p: (int, int, int), k: int) -> (int, int, int) {
    (p.0, p.1 + k, p.2)
}

/// A cell of a chunk.
#[derive(Clone, Copy, Debug, PartialEq, Eq, Structural)]
pub struct ChunkPoint {
    x: u8,
    y: u8,
    z: u8,
}

impl View for ChunkPoint {
    type V = (int, int, int);

    closed spec fn view(&self) -> (int, int, int) {
        (self.x as int, self.y as int, self.z as int)
    }
}

impl ChunkPoint {
    /// Each coordinate of a chunk point lies in `0..CHUNK`.
    #[verifier::type_invariant]
    pub open spec fn inside(self) -> bool {
        &&& 0 <= self@.0 < 32
        &&& 0 <= self@.1 < 32
        &&& 0 <= self@.2 < 32
    }

    /// The cell `(x, y, z)`; `None` when a coordinate is not below `CHUNK`.
    pub fn new(x: u8, y: u8, z: u8) -> (r: Option<ChunkPoint>)
        ensures
            r is Some <==> (x < 32 && y < 32 && z < 32),
            r matches Some(c) ==> c@ == (x as int, y as int, z as int),
    {
        if x < CHUNK && y < CHUNK && z < CHUNK {
            Some(ChunkPoint { x, y, z })
        } else {
            None
        }
    }

    /// The bottom cell `(x, 0, z)` of this cell's column.
    pub fn bottom(self) -> (r: ChunkPoint)
        ensures
            r@ == (self@.0, 0int, self@.2),
    {
        proof {
            use_type_invariant(&self);
        }
        ChunkPoint { x: self.x, y: 0, z: self.z }
    }

    pub fn y(self) -> (r: u8)
        ensures
            r == self@.1,
            r < 32,
    {
        proof {
            use_type_invariant(&self);
        }
        self.y
    }

    /// The offset of this cell in a chunk's cell array.
    pub fn index(self) -> (r: usize)
        ensures
            r == cell_index(self@),
            r < 32768,
            r + 32 - self@.1 <= 32768,
    {
        proof {
            use_type_invariant(&self);
        }
        self.x as usize * 1024 + self.z as usize * 32 + self.y as usize
    }

    /// The cell `n` cells toward `side`: `Ok` while it stays in this chunk,
    /// else `Err` with the cell it reaches in the neighbouring chunk.
    pub fn to(self, side: Side, n: u8) -> (r: Result<ChunkPoint, ChunkPoint>)
        requires
            n < 32,
        ensures
            match side {
                Side::Down => match r {
                    Ok(c) => self@.1 >= n && c@ == (self@.0, self@.1 - n, self@.2),
                    Err(c) => self@.1 < n && c@ == (self@.0, self@.1 + 32 - n, self@.2),
                },
                Side::Up => match r {
                    Ok(c) => self@.1 + n < 32 && c@ == (self@.0, self@.1 + n, self@.2),
                    Err(c) => self@.1 + n >= 32 && c@ == (self@.0, self@.1 + n - 32, self@.2),
                },
            },
    {
        proof {
            use_type_invariant(&self);
        }
        match side {
            Side::Down => {
                if self.y >= n {
                    Ok(ChunkPoint { x: self.x, y: self.y - n, z: self.z })
                } else {
                    Err(ChunkPoint { x: self.x, y: self.y + CHUNK - n, z: self.z })
                }
            },
            Side::Up => {
                if self.y + n < CHUNK {
                    Ok(ChunkPoint { x: self.x, y: self.y + n, z: self.z })
                } else {
                    Err(ChunkPoint { x: self.x, y: self.y + n - CHUNK, z: self.z })
                }
            },
        }
    }
}

/// A chunk of the world, named by its position in chunks.
#[derive(Clone, Copy, Debug, PartialEq, Eq, Structural)]
pub struct ClusterPoint {
    x: i32,
    y: i32,
    z: i32,
}

impl View for ClusterPoint {
    type V = (int, int, int);

    closed spec fn view(&self) -> (int, int, int) {
        (self.x as int, self.y as int, self.z as int)
    }
}

impl ClusterPoint {
    /// Two cluster points are equal exactly when their coordinates are.
    pub proof fn lemma_view_eq(a: ClusterPoint, b: ClusterPoint)
        ensures
            (a@ == b@) <==> a == b,
    {
    }

    /// A cluster lies within the world: `y` in `0..LAYERS`, and every cell of
    /// it has `i32` coordinates.
    #[verifier::type_invariant]
    pub open spec fn inside(self) -> bool {
        &&& i32::MIN / 32 <= self@.0 <= i32::MAX / 32
        &&& 0 <= self@.1 < 16
        &&& i32::MIN / 32 <= self@.2 <= i32::MAX / 32
    }

    /// The neighbouring chunk toward `side`; `None` at the top or bottom of the world.
    pub fn to(self, side: Side) -> (r: Option<ClusterPoint>)
        ensures
            match side {
                Side::Up => (r is Some <==> self@.1 + 1 < 16) && (r matches Some(c)
                    ==> c@ == (self@.0, self@.1 + 1, self@.2)),
                Side::Down => (r is Some <==> self@.1 > 0) && (r matches Some(c)
                    ==> c@ == (self@.0, self@.1 - 1, self@.2)),
            },
    {
        proof {
            use_type_invariant(&self);
        }
        match side {
            Side::Up => {
                if self.y + 1 < LAYERS {
                    Some(ClusterPoint { x: self.x, y: self.y + 1, z: self.z })
                } else {
                    None
                }
            },
            Side::Down => {
                if self.y > 0 {
                    Some(ClusterPoint { x: self.x, y: self.y - 1, z: self.z })
                } else {
                    None
                }
            },
        }
    }
}

/// A cell of the world.
#[derive(Clone, Copy, Debug, PartialEq, Eq, Structural)]
pub struct Point {
    ch: ChunkPoint,
    cl: ClusterPoint,
}

impl View for Point {
    type V = (int, int, int);

    /// The absolute coordinates of the cell.
    closed spec fn view(&self) -> (int, int, int) {
        (
            self.cl@.0 * 32 + self.ch@.0,
            self.cl@.1 * 32 + self.ch@.1,
            self.cl@.2 * 32 + self.ch@.2,
        )
    }
}

/// Splits `c` into the chunk that holds it and its offset in that chunk.
fn split(c: i32) -> (r: (i32, u8))
    ensures
        r.0 == c as int / 32,
        r.1 == c as int % 32,
{
    if c >= 0 {
        (c / 32, (c % 32) as u8)
    } else {
        let m: i32 = -(c + 1);
        let q: i32 = -(m / 32) - 1;
        let r: u8 = (31 - m % 32) as u8;
        assert(c == q * 32 + r);
        (q, r)
    }
}

/// A cell is found again from its absolute coordinates: the position
/// `q * 32 + r` with `0 <= r < 32` lies in chunk `q` at offset `r`.
pub proof fn lemma_split(x: int, q: int, r: int)
    requires
        0 <= r < 32,
        x == q * 32 + r,
    ensures
        x / 32 == q,
        x % 32 == r,
{
    vstd::arithmetic::div_mod::lemma_fundamental_div_mod_converse(x, 32, q, r);
}

/// Two positions of the world with the same chunk and the same cell
/// offset are the same position.
pub proof fn lemma_cell_unique(p: (int, int, int), q: (int, int, int))
    requires
        cluster_of(p) == cluster_of(q),
        cell_index(cell_of(p)) == cell_index(cell_of(q)),
    ensures
        p == q,
{
    vstd::arithmetic::div_mod::lemma_fundamental_div_mod(p.0, 32);
    vstd::arithmetic::div_mod::lemma_fundamental_div_mod(p.1, 32);
    vstd::arithmetic::div_mod::lemma_fundamental_div_mod(p.2, 32);
    vstd::arithmetic::div_mod::lemma_fundamental_div_mod(q.0, 32);
    vstd::arithmetic::div_mod::lemma_fundamental_div_mod(q.1, 32);
    vstd::arithmetic::div_mod::lemma_fundamental_div_mod(q.2, 32);
    let a = cell_of(p);
    let b = cell_of(q);
    assert(a.0 == b.0 && a.1 == b.1 && a.2 == b.2);
}

/// A column shorter than a chunk reaches at most one chunk above its base:
/// each of its cells lies in the chunk of the bottom or of the top.
pub proof fn lemma_split_column(pn: (int, int, int), k: int, n: int)
    requires
        0 <= k <= n < 32,
    ensures
        cluster_of(above(pn, k)) == cluster_of(pn) || cluster_of(above(pn, k)) == cluster_of(
            above(pn, n),
        ),
{
    vstd::arithmetic::div_mod::lemma_fundamental_div_mod(pn.1, 32);
    let q = pn.1 / 32;
    let r = pn.1 % 32;
    if r + k < 32 {
        lemma_split(pn.1 + k, q, r + k);
    } else {
        lemma_split(pn.1 + k, q + 1, r + k - 32);
        lemma_split(pn.1 + n, q + 1, r + n - 32);
    }
}

impl Point {
    /// The chunk point and cluster point of a point are well formed.
    #[verifier::type_invariant]
    pub open spec fn wf(self) -> bool {
        self.chunk_point().inside() && self.cluster_point().inside()
    }

    /// A well-formed point lies in the world, and its chunk and cell are
    /// those of its absolute coordinates.
    pub proof fn lemma_parts(self)
        requires
            self.wf(),
        ensures
            in_world(self@),
            cluster_of(self@) == self.cluster_point()@,
            cell_of(self@) == self.chunk_point()@,
    {
        lemma_split(self@.0, self.cl@.0, self.ch@.0);
        lemma_split(self@.1, self.cl@.1, self.ch@.1);
        lemma_split(self@.2, self.cl@.2, self.ch@.2);
    }

    /// The cell at chunk point `ch` of cluster `cl`.
    pub fn new(ch: ChunkPoint, cl: ClusterPoint) -> (r: Point)
        ensures
            r@ == (cl@.0 * 32 + ch@.0, cl@.1 * 32 + ch@.1, cl@.2 * 32 + ch@.2),
            r.chunk_point() == ch,
            r.cluster_point() == cl,
    {
        proof {
            use_type_invariant(&ch);
            use_type_invariant(&cl);
        }
        Point { ch, cl }
    }

    /// The cell at absolute coordinates `(x, y, z)`; `None` when `y` lies
    /// outside the world.
    pub fn from_absolute(x: i32, y: i32, z: i32) -> (r: Option<Point>)
        ensures
            r is Some <==> in_world((x as int, y as int, z as int)),
            r matches Some(p) ==> p@ == (x as int, y as int, z as int),
    {
        if y < 0 || y >= LAYERS * 32 {
            return None;
        }
        let (qx, rx) = split(x);
        let (qy, ry) = split(y);
        let (qz, rz) = split(z);
        proof {
            vstd::arithmetic::div_mod::lemma_fundamental_div_mod(x as int, 32);
            vstd::arithmetic::div_mod::lemma_fundamental_div_mod(y as int, 32);
            vstd::arithmetic::div_mod::lemma_fundamental_div_mod(z as int, 32);
        }
        let ch = ChunkPoint { x: rx, y: ry, z: rz };
        let cl = ClusterPoint { x: qx, y: qy, z: qz };
        Some(Point { ch, cl })
    }

    /// The cell of its chunk.
    pub closed spec fn spec_chunk_point(self) -> ChunkPoint {
        self.ch
    }

    /// The chunk that holds the cell.
    pub closed spec fn spec_cluster_point(self) -> ClusterPoint {
        self.cl
    }

    /// The cell of its chunk.
    #[verifier::when_used_as_spec(spec_chunk_point)]
    pub fn chunk_point(self) -> (r: ChunkPoint)
        ensures
            r == self.spec_chunk_point(),
    {
        self.ch
    }

    /// The chunk that holds the cell.
    #[verifier::when_used_as_spec(spec_cluster_point)]
    pub fn cluster_point(self) -> (r: ClusterPoint)
        ensures
            r == self.spec_cluster_point(),
    {
        self.cl
    }
}

/// The cell with offset `i` in a chunk's cell array.
pub open spec fn cell_at(i: int) -> (int, int, int) {
    (i / 1024, i % 32, (i / 32) % 32)
}

/// Going `j` cells up a column inside a chunk adds `j` to the cell's offset.
pub proof fn lemma_cell_at(c: (int, int, int), j: int)
    requires
        0 <= c.0 < 32,
        0 <= c.2 < 32,
        0 <= c.1 + j < 32,
    ensures
        cell_at(cell_index(c) + j) == (c.0, c.1 + j, c.2),
{
    let i = cell_index(c) + j;
    vstd::arithmetic::div_mod::lemma_fundamental_div_mod_converse(i, 32, c.0 * 32 + c.2, c.1 + j);
    vstd::arithmetic::div_mod::lemma_fundamental_div_mod_converse(c.0 * 32 + c.2, 32, c.0, c.2);
    vstd::arithmetic::div_mod::lemma_fundamental_div_mod_converse(i, 1024, c.0, c.2 * 32 + c.1 + j);
}

/// The world position of the cell with offset `i` in chunk `cl`.
pub open spec fn point_of(cl: (int, int, int), i: int) -> (int, int, int) {
    let c = cell_at(i);
    (cl.0 * 32 + c.0, cl.1 * 32 + c.1, cl.2 * 32 + c.2)
}

/// The cells of a chunk in cell-array order: `y` fastest, then `z`, then `x`.
pub struct ChunkPoints {
    next: usize,
}

impl ChunkPoints {
    /// The offset of the next cell to hand out.
    pub closed spec fn cursor(self) -> int {
        self.next as int
    }

    /// Cells from the first one on.
    pub fn new() -> (r: ChunkPoints)
        ensures
            r.cursor() == 0,
    {
        ChunkPoints { next: 0 }
    }

    /// The next cell; `None` once all cells were handed out.
    pub fn next(&mut self) -> (r: Option<ChunkPoint>)
        ensures
            old(self).cursor() < 32768 ==> (r matches Some(c) && c@ == cell_at(old(self).cursor())
                && cell_index(c@) == old(self).cursor() && final(self).cursor() == old(self).cursor()
                + 1),
            old(self).cursor() >= 32768 ==> r is None && final(self).cursor() == old(self).cursor(),
    {
        if self.next >= CHUNK_CELLS {
            return None;
        }
        let i = self.next;
        let x = (i / 1024) as u8;
        let z = ((i / 32) % 32) as u8;
        let y = (i % 32) as u8;
        proof {
            vstd::arithmetic::div_mod::lemma_fundamental_div_mod(i as int, 32);
            vstd::arithmetic::div_mod::lemma_fundamental_div_mod(i as int / 32, 32);
            vstd::arithmetic::div_mod::lemma_div_denominator(i as int, 32, 32);
            assert(i as int / 1024 < 32);
        }
        self.next = i + 1;
        ChunkPoint::new(x, y, z)
    }
}

} // verus!

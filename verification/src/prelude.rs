//! Small index types shared by the world code.

use vstd::prelude::*;

verus! {

/// The index of a tile in a tile set. Zero is reserved for "no tile",
/// so a tile index is never zero.
#[derive(Clone, Copy, Debug, PartialEq, Eq, Structural)]
pub struct TileIndex(u16);

impl View for TileIndex {
    type V = u16;

    closed spec fn view(&self) -> u16 {
        self.0
    }
}

impl TileIndex {
    /// A tile index is never zero.
    #[verifier::type_invariant]
    pub open spec fn nonzero(self) -> bool {
        self@ != 0
    }

    /// Makes an index of `idx`; `None` exactly when `idx` is zero.
    pub fn new(idx: u16) -> (r: Option<TileIndex>)
        ensures
            r is None <==> idx == 0,
            r matches Some(t) ==> t@ == idx,
    {
        if idx == 0 {
            None
        } else {
            Some(TileIndex(idx))
        }
    }

    /// The index as a number; never zero.
    pub fn get(self) -> (r: u16)
        ensures
            r == self@,
            r != 0,
    {
        proof {
            use_type_invariant(&self);
        }
        self.0
    }
}

/// The index of a variant of a tile.
#[derive(Clone, Copy, Debug, PartialEq, Eq, Structural)]
pub struct VariantIndex(pub u8);

/// The height of a tile's column, in slabs: from 1 to `Height::MAX`.
#[derive(Clone, Copy, Debug, PartialEq, Eq, Structural)]
pub struct Height(u8);

impl View for Height {
    type V = u8;

    closed spec fn view(&self) -> u8 {
        self.0
    }
}

impl Height {
    /// The tallest column a slab can describe (three bits hold `height - 1`).
    pub const MAX: u8 = 8;

    /// A height lies in 1..=8.
    #[verifier::type_invariant]
    pub open spec fn in_range(self) -> bool {
        1 <= self@ <= 8
    }

    /// Makes a height of `h`; `None` exactly when `h` is 0 or above `MAX`.
    pub fn new(h: u8) -> (r: Option<Height>)
        ensures
            r is Some <==> 1 <= h <= 8,
            r matches Some(x) ==> x@ == h,
    {
        if h == 0 || h > Self::MAX {
            None
        } else {
            Some(Height(h))
        }
    }

    /// The height as a number, from 1 to 8.
    pub fn get(self) -> (r: u8)
        ensures
            r == self@,
            1 <= r <= 8,
    {
        proof {
            use_type_invariant(&self);
        }
        self.0
    }
}

} // verus!

//! The built-in tiles.

use crate::layout::Data;
use crate::point::Point;
use crate::prelude::VariantIndex;
use crate::tile::{Placement, Tile};
use vstd::prelude::*;

verus! {

/// A plain tile: a column of a given height with nothing at its levels.
pub struct Base<O> {
    height: u8,
    variants: Vec<&'static str>,
    nothing: Vec<Data<O>>,
}

impl<O> Base<O> {
    /// The column's height.
    pub closed spec fn spec_height(&self) -> u8 {
        self.height
    }

    /// The names of the variants.
    pub closed spec fn spec_variants(&self) -> Seq<&'static str> {
        self.variants@
    }

    /// A tile `height` cells tall with the given variants.
    pub fn new(height: u8, variants: Vec<&'static str>) -> (r: Base<O>)
        ensures
            r.spec_height() == height,
            r.spec_variants() == variants@,
    {
        let mut nothing: Vec<Data<O>> = Vec::new();
        let mut i: usize = 0;
        while i < 8
            invariant
                i <= 8,
                nothing@.len() == i,
                forall|j: int| 0 <= j < i ==> nothing@[j] is Nothing,
            decreases 8 - i,
        {
            nothing.push(Data::Nothing);
            i += 1;
        }
        Base { height, variants, nothing }
    }
}

impl<O> Tile<O> for Base<O> {
    /// A base tile can be placed when `height - 1` data fit in its eight blanks.
    open spec fn placeable(&self) -> bool {
        1 <= self.spec_height() <= 9
    }

    fn height(&self) -> (r: u8)
        ensures
            r == self.spec_height(),
    {
        self.height
    }

    fn variants(&self) -> (r: &[&'static str])
        ensures
            r@ == self.spec_variants(),
    {
        self.variants.as_slice()
    }

    fn place(&self, pn: Point) -> (r: Placement<'_, O>)
        ensures
            r.variant == VariantIndex(0),
            r.data@.len() + 1 == self.spec_height(),
            forall|i: int| 0 <= i < r.data@.len() ==> #[trigger] r.data@[i] is Nothing,
    {
        proof {
            use_type_invariant(self);
        }
        let n = (self.height - 1) as usize;
        Placement { variant: VariantIndex(0), data: &self.nothing.as_slice()[0..n] }
    }
}

impl<O> Base<O> {
    /// A base tile holds the eight blank data it hands out.
    #[verifier::type_invariant]
    closed spec fn nothing_ok(&self) -> bool {
        &&& self.nothing@.len() == 8
        &&& forall|j: int| 0 <= j < 8 ==> #[trigger] self.nothing@[j] is Nothing
    }
}

/// The filler of slot 0 of a tile set; it is never placed.
pub struct Empty;

impl<O> Tile<O> for Empty {
    open spec fn known(&self) -> bool {
        false
    }

    open spec fn placeable(&self) -> bool {
        false
    }

    fn height(&self) -> u8 {
        vstd::pervasive::unreached()
    }

    fn variants(&self) -> &[&'static str] {
        vstd::pervasive::unreached()
    }

    fn place(&self, pn: Point) -> Placement<'_, O> {
        vstd::pervasive::unreached()
    }
}

} // verus!

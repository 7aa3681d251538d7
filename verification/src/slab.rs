//! A slab: one cell of a chunk, packed into two `u16` words.
//!
//! The first word is the tile index (zero for an empty slab). The second
//! word depends on the kind of slab:
//!
//! * base:  `00000hhh_vvvvvvvv`, `h` is the tile height minus one and `v` the variant;
//! * trunk: `lllodddd_dddddddd`, `l` is the level above the base (never 0),
//!   `o` says whether `d` indexes a stored object, and `d` is the data.

use crate::prelude::{Height, TileIndex, VariantIndex};
use vstd::prelude::*;

verus! {

/// What a slab means, decoded from its two words.
pub enum SlabView {
    Empty,
    Base { tile: u16, variant: u8, height: u8 },
    Trunk { tile: u16, data: u16, obj: bool, level: u8 },
}

/// The meaning of the two words `(a, b)` of a slab.
pub open spec fn decode(a: u16, b: u16) -> SlabView {
    if a == 0 {
        SlabView::Empty
    } else if (b >> 13u16) & 7 == 0 {
        SlabView::Base { tile: a, variant: (b & 0xff) as u8, height: (((b >> 8u16) & 7) + 1) as u8 }
    } else {
        SlabView::Trunk {
            tile: a,
            data: b & 0xfff,
            obj: b & 0x1000 != 0,
            level: ((b >> 13u16) & 7) as u8,
        }
    }
}

/// One packed cell of a chunk.
#[derive(Clone, Copy)]
pub struct Slab(u16, u16);

impl View for Slab {
    type V = SlabView;

    closed spec fn view(&self) -> SlabView {
        decode(self.0, self.1)
    }
}

/// The filler slab of an empty cell.
#[derive(Clone, Copy)]
pub struct Empty;

/// The bottom slab of a tile's column.
#[derive(Clone, Copy)]
pub struct Base(u16, u16);

/// A slab above the bottom of a tile's column.
#[derive(Clone, Copy)]
pub struct Trunk(u16, u16);

/// A slab sorted by its kind.
pub enum Typed {
    Empty(Empty),
    Base(Base),
    Trunk(Trunk),
}

impl Slab {
    /// The slab's two words.
    pub closed spec fn words(self) -> (u16, u16) {
        (self.0, self.1)
    }

    /// A slab means what its words decode to.
    pub proof fn lemma_view(self)
        ensures
            self@ == decode(self.words().0, self.words().1),
    {
    }

    /// Whether the slab is empty: whether its first word is 0.
    pub fn is_empty(self) -> (r: bool)
        ensures
            r <==> self@ is Empty,
            r <==> self.words().0 == 0,
    {
        self.0 == 0
    }

    /// The slab sorted by kind; the kind decided here is the one the view names.
    pub fn typed(self) -> (r: Typed)
        ensures
            match r {
                Typed::Empty(_) => self@ is Empty,
                Typed::Base(base) => self@ == base.spec_slab() && self@ is Base && base.words()
                    == self.words(),
                Typed::Trunk(trunk) => self@ == trunk.spec_slab() && self@ is Trunk && trunk.words()
                    == self.words(),
            },
    {
        if self.0 == 0 {
            Typed::Empty(Empty)
        } else if (self.1 >> 13u16) & 7 == 0 {
            proof {
                let b = self.1;
                assert(b >> 13u16 == 0) by (bit_vector)
                    requires (b >> 13u16) & 7 == 0;
            }
            Typed::Base(Base(self.0, self.1))
        } else {
            proof {
                let b = self.1;
                assert(b >> 13u16 != 0) by (bit_vector)
                    requires (b >> 13u16) & 7 != 0;
            }
            Typed::Trunk(Trunk(self.0, self.1))
        }
    }

    /// The slab of an empty cell.
    fn from_empty(e: Empty) -> (r: Slab)
        ensures
            r@ is Empty,
            r == Slab(0, 0),
    {
        Slab(0, 0)
    }

    /// The slab that holds `base`.
    fn from_base(base: Base) -> (r: Slab)
        ensures
            r@ == base.spec_slab(),
            r == Slab(base.0, base.1),
    {
        proof {
            use_type_invariant(&base);
            let b = base.1;
            assert((b >> 13u16) & 7 == 0) by (bit_vector)
                requires b >> 13u16 == 0;
        }
        Slab(base.0, base.1)
    }

    /// The slab that holds `trunk`.
    fn from_trunk(trunk: Trunk) -> (r: Slab)
        ensures
            r@ == trunk.spec_slab(),
            r == Slab(trunk.0, trunk.1),
    {
        proof {
            use_type_invariant(&trunk);
            let b = trunk.1;
            assert((b >> 13u16) & 7 != 0) by (bit_vector)
                requires b >> 13u16 != 0;
        }
        Slab(trunk.0, trunk.1)
    }
}

impl Base {
    #[verifier::type_invariant]
    spec fn inv(self) -> bool {
        self.0 != 0 && self.1 >> 13u16 == 0
    }

    /// The base's two words.
    pub closed spec fn words(self) -> (u16, u16) {
        (self.0, self.1)
    }

    /// A base always means a base slab, of a column 1 to 8 cells tall.
    pub broadcast proof fn lemma_is_base(self)
        ensures
            #[trigger] self.spec_slab() is Base,
            1 <= self.spec_slab()->Base_height <= 8,
    {
        let b = self.1;
        assert((b >> 8u16) & 7 <= 7) by (bit_vector);
    }

    /// The decoded meaning of this base.
    pub closed spec fn spec_slab(self) -> SlabView {
        SlabView::Base {
            tile: self.0,
            variant: (self.1 & 0xff) as u8,
            height: (((self.1 >> 8u16) & 7) + 1) as u8,
        }
    }

    /// The base slab of a tile `tile` of variant `variant` whose column is `height` tall.
    pub fn new(tile: TileIndex, variant: VariantIndex, height: Height) -> (r: Base)
        ensures
            r.spec_slab() == (SlabView::Base { tile: tile@, variant: variant.0, height: height@ }),
            r.words() == (tile@, (variant.0 as u16 | ((height@ - 1) as u16) << 8u16) as u16),
    {
        let t = tile.get();
        let h = height.get();
        let v = variant.0;
        let x: u16 = (h - 1) as u16;
        let b: u16 = v as u16 | x << 8u16;
        proof {
            assert(b >> 13u16 == 0 && b & 0xff == v as u16 && ((b >> 8u16) & 7) == x) by (bit_vector)
                requires
                    b == (v as u16 | x << 8u16),
                    v < 256,
                    x <= 7,
            ;
        }
        Base(t, b)
    }

    /// The tile this base belongs to.
    pub fn tile(self) -> (r: TileIndex)
        ensures
            self.spec_slab()->Base_tile == r@,
    {
        proof {
            use_type_invariant(&self);
        }
        match TileIndex::new(self.0) {
            Some(t) => t,
            None => {
                proof {
                    assert(false);
                }
                vstd::pervasive::unreached()
            },
        }
    }

    /// The variant of the tile.
    pub fn variant(self) -> (r: VariantIndex)
        ensures
            self.spec_slab()->Base_variant == r.0,
    {
        let b = self.1;
        let v = b as u8;
        proof {
            assert(v == (b & 0xff) as u8) by (bit_vector)
                requires v == b as u8;
        }
        VariantIndex(v)
    }

    /// The height of the tile's column.
    pub fn height(self) -> (r: Height)
        ensures
            self.spec_slab()->Base_height == r@,
    {
        let b = self.1;
        let x: u8 = (b >> 8u16) as u8 & 0b111;
        proof {
            assert(x == (b >> 8u16) & 7 && x <= 7) by (bit_vector)
                requires x == (b >> 8u16) as u8 & 7u8;
        }
        match Height::new(x + 1) {
            Some(h) => h,
            None => {
                proof {
                    assert(false);
                }
                vstd::pervasive::unreached()
            },
        }
    }
}

impl Trunk {
    #[verifier::type_invariant]
    spec fn inv(self) -> bool {
        self.0 != 0 && self.1 >> 13u16 != 0
    }

    /// The trunk's two words.
    pub closed spec fn words(self) -> (u16, u16) {
        (self.0, self.1)
    }

    /// A trunk always means a trunk slab.
    pub broadcast proof fn lemma_is_trunk(self)
        ensures
            #[trigger] self.spec_slab() is Trunk,
    {
    }

    /// The decoded meaning of this trunk.
    pub closed spec fn spec_slab(self) -> SlabView {
        SlabView::Trunk {
            tile: self.0,
            data: self.1 & 0xfff,
            obj: self.1 & 0x1000 != 0,
            level: ((self.1 >> 13u16) & 7) as u8,
        }
    }

    /// A trunk slab of tile `tile` at `level` above its base, holding `data`,
    /// which indexes a stored object when `obj` is set.
    pub fn new(tile: TileIndex, data: u16, obj: bool, level: u8) -> (r: Trunk)
        requires
            data < 0x1000,
            1 <= level <= 7,
        ensures
            r.spec_slab() == (SlabView::Trunk { tile: tile@, data, obj, level }),
            r.words() == (
                tile@,
                (data | (level as u16) << 13u16 | if obj {
                    0x1000u16
                } else {
                    0u16
                }) as u16,
            ),
    {
        let t = tile.get();
        let l: u16 = level as u16;
        let mut b: u16 = data | l << 13u16;
        let b0 = b;
        if obj {
            b = b | 1u16 << 12u16;
        }
        proof {
            assert(b0 >> 13u16 != 0 && b0 & 0xfff == data && b0 & 0x1000 == 0
                && (b0 >> 13u16) & 7 == l) by (bit_vector)
                requires
                    b0 == (data | l << 13u16),
                    data < 0x1000,
                    1 <= l <= 7,
            ;
            let b1 = b0 | 1u16 << 12u16;
            assert(b1 >> 13u16 != 0 && b1 & 0xfff == data && b1 & 0x1000 != 0
                && (b1 >> 13u16) & 7 == l) by (bit_vector)
                requires
                    b0 >> 13u16 != 0 && b0 & 0xfff == data && (b0 >> 13u16) & 7 == l,
                    b1 == b0 | 1u16 << 12u16,
            ;
            assert(b1 == (b0 | 0x1000u16) && b0 == (b0 | 0u16)) by (bit_vector)
                requires b1 == b0 | 1u16 << 12u16;
        }
        Trunk(t, b)
    }

    /// Whether the data indexes a stored object.
    pub fn is_obj(self) -> (r: bool)
        ensures
            r == self.spec_slab()->Trunk_obj,
    {
        let b = self.1;
        proof {
            assert(b & (1u16 << 12u16) == b & 0x1000) by (bit_vector);
        }
        b & 1u16 << 12u16 != 0
    }

    /// The data held by the trunk, below 4096.
    pub fn data(self) -> (r: u16)
        ensures
            r == self.spec_slab()->Trunk_data,
            r < 0x1000,
    {
        let b = self.1;
        proof {
            assert(b & 0xfff < 0x1000) by (bit_vector);
        }
        b & 0b111111111111
    }

    /// The level of this slab above its base, from 1 to 7.
    pub fn level(self) -> (r: u8)
        ensures
            r == self.spec_slab()->Trunk_level,
            1 <= r <= 7,
    {
        proof {
            use_type_invariant(&self);
        }
        let b = self.1;
        let r: u8 = (b >> 13u16) as u8 & 0b111;
        proof {
            assert(r == (b >> 13u16) & 7 && 1 <= r <= 7) by (bit_vector)
                requires
                    r == (b >> 13u16) as u8 & 7u8,
                    b >> 13u16 != 0,
            ;
        }
        r
    }

    /// Ors `data` into the data bits; on a trunk whose data is 0 this sets the data.
    pub fn set_data(&mut self, data: u16)
        requires
            data < 0x1000,
        ensures
            final(self).spec_slab()->Trunk_tile == old(self).spec_slab()->Trunk_tile,
            final(self).spec_slab()->Trunk_obj == old(self).spec_slab()->Trunk_obj,
            final(self).spec_slab()->Trunk_level == old(self).spec_slab()->Trunk_level,
            final(self).spec_slab()->Trunk_data == old(self).spec_slab()->Trunk_data | data,
            final(self).words() == (old(self).words().0, old(self).words().1 | data),
    {
        proof {
            use_type_invariant(&*self);
        }
        let b = self.1;
        let nb = b | data;
        proof {
            assert(nb >> 13u16 == b >> 13u16 && nb & 0x1000 == b & 0x1000
                && nb & 0xfff == (b & 0xfff) | data) by (bit_vector)
                requires
                    nb == b | data,
                    data < 0x1000,
            ;
        }
        self.1 = nb;
    }
}

impl From<Empty> for Slab {
    fn from(e: Empty) -> (r: Slab)
        ensures
            r@ is Empty,
            r.words() == (0u16, 0u16),
    {
        Slab::from_empty(e)
    }
}

impl vstd::std_specs::convert::FromSpecImpl<Empty> for Slab {
    open spec fn obeys_from_spec() -> bool {
        true
    }

    closed spec fn from_spec(e: Empty) -> Slab {
        Slab(0, 0)
    }
}

impl From<Base> for Slab {
    fn from(base: Base) -> (r: Slab)
        ensures
            r@ == base.spec_slab(),
            r.words() == base.words(),
    {
        Slab::from_base(base)
    }
}

impl vstd::std_specs::convert::FromSpecImpl<Base> for Slab {
    open spec fn obeys_from_spec() -> bool {
        true
    }

    closed spec fn from_spec(base: Base) -> Slab {
        Slab(base.0, base.1)
    }
}

impl From<Trunk> for Slab {
    fn from(trunk: Trunk) -> (r: Slab)
        ensures
            r@ == trunk.spec_slab(),
            r.words() == trunk.words(),
    {
        Slab::from_trunk(trunk)
    }
}

impl vstd::std_specs::convert::FromSpecImpl<Trunk> for Slab {
    open spec fn obeys_from_spec() -> bool {
        true
    }

    closed spec fn from_spec(trunk: Trunk) -> Slab {
        Slab(trunk.0, trunk.1)
    }
}

} // verus!

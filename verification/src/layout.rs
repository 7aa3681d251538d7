//! What a tile puts at each level of its column, and how a column is laid out.

use crate::prelude::{Height, TileIndex, VariantIndex};
use crate::slab::{Base, SlabView, Trunk};
use std::rc::Rc;
use vstd::prelude::*;

verus! {

/// A number small enough to be packed into a trunk slab (below 4096).
#[derive(Clone, Copy, Debug, PartialEq, Eq, Structural)]
pub struct Num(u16);

impl View for Num {
    type V = u16;

    closed spec fn view(&self) -> u16 {
        self.0
    }
}

impl Num {
    /// A number is below 4096.
    #[verifier::type_invariant]
    pub open spec fn fits(self) -> bool {
        self@ < 0x1000
    }

    /// The number `num`; `None` exactly when it does not fit in 12 bits.
    pub fn new(num: u16) -> (r: Option<Num>)
        ensures
            r is Some <==> num < 0x1000,
            r matches Some(n) ==> n@ == num,
    {
        assert(1u16 << 12u16 == 0x1000) by (bit_vector);
        if num >= 1u16 << 12u16 {
            None
        } else {
            Some(Num(num))
        }
    }

    /// The number, below 4096.
    pub fn get(self) -> (r: u16)
        ensures
            r == self@,
            r < 0x1000,
    {
        proof {
            use_type_invariant(&self);
        }
        self.0
    }
}

/// What a level of a tile's column holds: nothing, a small number, or a
/// shared object.
pub enum Data<O> {
    Nothing,
    Num(Num),
    Obj(Rc<O>),
}

/// What a datum means: nothing, a number, or the object it shares.
pub enum DataView<O> {
    Nothing,
    Num(u16),
    Obj(O),
}

impl<O> View for Data<O> {
    type V = DataView<O>;

    open spec fn view(&self) -> DataView<O> {
        match self {
            Data::Nothing => DataView::Nothing,
            Data::Num(n) => DataView::Num(n@),
            Data::Obj(o) => DataView::Obj(**o),
        }
    }
}

impl<O> Data<O> {
    /// The number held; the data must be a number.
    pub fn as_num(self) -> (r: Num)
        requires
            self is Num,
        ensures
            self == Data::<O>::Num(r),
    {
        match self {
            Data::Num(num) => num,
            _ => vstd::pervasive::unreached(),
        }
    }

    /// The object held; the data must be an object.
    pub fn as_obj(self) -> (r: Rc<O>)
        requires
            self is Obj,
        ensures
            self == Data::<O>::Obj(r),
    {
        match self {
            Data::Obj(obj) => obj,
            _ => vstd::pervasive::unreached(),
        }
    }
}

/// The objects among `d`, in order.
pub open spec fn objs_of<O>(d: Seq<Data<O>>) -> Seq<Rc<O>>
    decreases d.len(),
{
    if d.len() == 0 {
        Seq::empty()
    } else {
        let rest = objs_of(d.drop_last());
        match d.last() {
            Data::Obj(o) => rest.push(o),
            _ => rest,
        }
    }
}

/// Taking one more datum adds its object, if it is one.
pub proof fn lemma_objs_step<O>(d: Seq<Data<O>>, i: int)
    requires
        0 <= i < d.len(),
    ensures
        objs_of(d.subrange(0, i + 1)) == match d[i] {
            Data::Obj(o) => objs_of(d.subrange(0, i)).push(o),
            _ => objs_of(d.subrange(0, i)),
        },
{
    assert(d.subrange(0, i + 1).drop_last() =~= d.subrange(0, i));
}

/// The objects among the first `i` data are the first objects among the
/// first `j >= i` data.
pub proof fn lemma_objs_prefix<O>(d: Seq<Data<O>>, i: int, j: int)
    requires
        0 <= i <= j <= d.len(),
    ensures
        objs_of(d.subrange(0, i)).len() <= objs_of(d.subrange(0, j)).len(),
        forall|m: int|
            0 <= m < objs_of(d.subrange(0, i)).len() ==> #[trigger] objs_of(d.subrange(0, j))[m]
                == objs_of(d.subrange(0, i))[m],
    decreases j - i,
{
    if i < j {
        lemma_objs_prefix(d, i, j - 1);
        lemma_objs_step(d, j - 1);
    }
}

/// What reading back a level placed with datum `d` gives: a number for
/// nothing (zero) and for a number, the object for an object.
pub open spec fn read_back<O>(d: Data<O>) -> DataView<O> {
    match d {
        Data::Nothing => DataView::Num(0),
        Data::Num(n) => DataView::Num(n@),
        Data::Obj(o) => DataView::Obj(*o),
    }
}

/// The value packed into the data bits of a trunk that holds `d`
/// (objects get their storage index later).
pub open spec fn packed_data<O>(d: Data<O>) -> u16 {
    match d {
        Data::Num(n) => n@,
        _ => 0,
    }
}

/// The trunk slab at `level` of a column of tile `tile` that holds `d`.
pub open spec fn trunk_of<O>(tile: u16, level: int, d: Data<O>) -> SlabView {
    SlabView::Trunk { tile, data: packed_data(d), obj: d is Obj, level: level as u8 }
}

/// A tile's column about to be written: the tile, its variant, and the
/// data of each level above the base.
pub struct Layout<'a, O> {
    pub tile: TileIndex,
    pub variant: VariantIndex,
    pub data: &'a [Data<O>],
}

impl<'a, O> Layout<'a, O> {
    /// The height of the column: one base slab plus one slab per datum
    /// (as a `u8`, so it wraps past 255 data).
    pub fn height(&self) -> (r: u8)
        ensures
            r == (self.data@.len() + 1) % 256,
    {
        let n = self.data.len();
        let low: u8 = (n % 256) as u8;
        proof {
            vstd::arithmetic::div_mod::lemma_add_mod_noop(n as int, 1, 256);
        }
        low.wrapping_add(1)
    }

    /// The base slab of the column.
    pub fn base(&self) -> (r: Base)
        requires
            self.data@.len() < 8,
        ensures
            r.spec_slab() == (SlabView::Base {
                tile: self.tile@,
                variant: self.variant.0,
                height: (self.data@.len() + 1) as u8,
            }),
    {
        let h = self.height();
        match Height::new(h) {
            Some(height) => Base::new(self.tile, self.variant, height),
            None => vstd::pervasive::unreached(),
        }
    }

    /// The trunk slabs of the column, from level 1 up, each with the object
    /// it has to store when its datum is an object.
    pub fn trunks(&self) -> (r: Vec<(Trunk, Option<Rc<O>>)>)
        requires
            self.data@.len() < 8,
        ensures
            r@.len() == self.data@.len(),
            forall|i: int|
                #![trigger r@[i]]
                0 <= i < r@.len() ==> {
                    &&& r@[i].0.spec_slab() == trunk_of(self.tile@, i + 1, self.data@[i])
                    &&& match self.data@[i] {
                        Data::Obj(o) => r@[i].1 == Some(o),
                        _ => r@[i].1 is None,
                    }
                },
    {
        let mut r: Vec<(Trunk, Option<Rc<O>>)> = Vec::new();
        let mut i: usize = 0;
        while i < self.data.len()
            invariant
                i <= self.data@.len() < 8,
                r@.len() == i,
                forall|j: int|
                    #![trigger r@[j]]
                    0 <= j < i ==> {
                        &&& r@[j].0.spec_slab() == trunk_of(self.tile@, j + 1, self.data@[j])
                        &&& match self.data@[j] {
                            Data::Obj(o) => r@[j].1 == Some(o),
                            _ => r@[j].1 is None,
                        }
                    },
            decreases self.data@.len() - i,
        {
            let level: u8 = i as u8 + 1;
            let item = match &self.data[i] {
                Data::Nothing => (Trunk::new(self.tile, 0, false, level), None),
                Data::Num(num) => (Trunk::new(self.tile, num.get(), false, level), None),
                Data::Obj(obj) => (Trunk::new(self.tile, 0, true, level), Some(obj.clone())),
            };
            r.push(item);
            i += 1;
        }
        r
    }
}

} // verus!

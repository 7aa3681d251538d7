//! Tiles and the set of tiles known to the world.

use crate::layout::Data;
use crate::point::Point;
use crate::prelude::{TileIndex, VariantIndex};
use crate::tiles;
use vstd::prelude::*;

verus! {

/// What a tile decided when placed: its variant and the data of each
/// level of its column above the base.
pub struct Placement<'a, O> {
    pub variant: VariantIndex,
    pub data: &'a [Data<O>],
}

/// A kind of tile that can be placed in the world.
pub trait Tile<O> {
    /// Whether the tile has a height and variants (the filler tile of
    /// slot 0 has none); tiles have them unless they say otherwise.
    open spec fn known(&self) -> bool {
        true
    }

    /// Whether the tile can be placed (the filler cannot, nor a base tile
    /// whose column does not fit its blanks); tiles can be placed unless
    /// they say otherwise.
    open spec fn placeable(&self) -> bool {
        true
    }

    /// The height of the tile's column.
    fn height(&self) -> u8
        requires
            self.known(),
    ;

    /// The names of the tile's variants.
    fn variants(&self) -> &[&'static str]
        requires
            self.known(),
    ;

    /// Decides the variant and data of a tile about to be placed at `pn`.
    fn place(&self, pn: Point) -> Placement<'_, O>
        requires
            self.placeable(),
    ;
}

/// A description of a tile to register, by name.
pub struct TileInfo {
    pub name: String,
}

impl TileInfo {
    /// The tile's name.
    pub fn name(&self) -> (r: &str)
        ensures
            r@ == self.name@,
    {
        self.name.as_str()
    }
}

/// A tile of a tile set: the filler, a built-in base tile, or a tile of
/// the user's kind `T`.
pub enum AnyTile<O, T> {
    Empty(tiles::Empty),
    Base(tiles::Base<O>),
    Custom(T),
}

impl<O, T: Tile<O>> Tile<O> for AnyTile<O, T> {
    open spec fn known(&self) -> bool {
        match self {
            AnyTile::Empty(t) => Tile::<O>::known(t),
            AnyTile::Base(t) => t.known(),
            AnyTile::Custom(t) => t.known(),
        }
    }

    open spec fn placeable(&self) -> bool {
        match self {
            AnyTile::Empty(t) => Tile::<O>::placeable(t),
            AnyTile::Base(t) => t.placeable(),
            AnyTile::Custom(t) => t.placeable(),
        }
    }

    fn height(&self) -> (r: u8)
        ensures
            self matches AnyTile::Base(t) ==> r == t.spec_height(),
            self matches AnyTile::Custom(t) ==> call_ensures(<T as Tile<O>>::height, (&t,), r),
    {
        match self {
            AnyTile::Empty(t) => Tile::<O>::height(t),
            AnyTile::Base(t) => t.height(),
            AnyTile::Custom(t) => {
                let height_fn = <T as Tile<O>>::height;
                height_fn(t)
            },
        }
    }

    fn variants(&self) -> (r: &[&'static str])
        ensures
            self matches AnyTile::Base(t) ==> r@ == t.spec_variants(),
            self matches AnyTile::Custom(t) ==> call_ensures(<T as Tile<O>>::variants, (&t,), r),
    {
        match self {
            AnyTile::Empty(t) => Tile::<O>::variants(t),
            AnyTile::Base(t) => t.variants(),
            AnyTile::Custom(t) => {
                let variants_fn = <T as Tile<O>>::variants;
                variants_fn(t)
            },
        }
    }

    fn place(&self, pn: Point) -> (r: Placement<'_, O>)
        ensures
            self matches AnyTile::Base(t) ==> {
                &&& r.variant == VariantIndex(0)
                &&& r.data@.len() + 1 == t.spec_height()
                &&& forall|i: int| 0 <= i < r.data@.len() ==> #[trigger] r.data@[i] is Nothing
            },
            self matches AnyTile::Custom(t) ==> call_ensures(<T as Tile<O>>::place, (&t, pn), r),
    {
        match self {
            AnyTile::Empty(t) => Tile::<O>::place(t, pn),
            AnyTile::Base(t) => t.place(pn),
            AnyTile::Custom(t) => {
                let place_fn = <T as Tile<O>>::place;
                place_fn(t, pn)
            },
        }
    }
}

/// The tiles of the world, by index and by name. Slot 0 holds the filler
/// tile, so every tile index names a real tile.
pub struct TileSet<O, T> {
    names: Vec<String>,
    vec: Vec<AnyTile<O, T>>,
}

impl<O, T: Tile<O>> TileSet<O, T> {
    /// The number of slots, the filler slot included.
    pub closed spec fn len(&self) -> nat {
        self.vec@.len()
    }

    /// The name of the tile in slot `i`.
    pub closed spec fn name(&self, i: int) -> Seq<char> {
        self.names@[i]@
    }

    /// The number of named slots (the same as `len` in a well-formed set).
    pub closed spec fn name_count(&self) -> nat {
        self.names@.len()
    }

    /// The tile in slot `i`.
    pub closed spec fn tile(&self, i: int) -> AnyTile<O, T> {
        self.vec@[i]
    }

    /// Slot 0 is the filler, the other slots hold tiles with distinct
    /// names, and every slot has an index that fits in a `u16`.
    pub closed spec fn wf(&self) -> bool {
        &&& self.names@.len() == self.vec@.len()
        &&& 1 <= self.vec@.len() <= 65536
        &&& self.tile(0) is Empty
        &&& forall|i: int| 1 <= i < self.len() ==> !(#[trigger] self.tile(i) is Empty)
        &&& forall|i: int, j: int|
            1 <= i < self.len() && 1 <= j < self.len() && i != j ==> #[trigger] self.name(i)
                != #[trigger] self.name(j)
    }

    /// In a well-formed set only slot 0 holds the filler.
    pub proof fn lemma_filler(&self, i: int)
        requires
            self.wf(),
            0 <= i < self.len(),
        ensures
            self.tile(i) is Empty <==> i == 0,
    {
    }

    /// A name finds one tile: in a well-formed set, the tile added under a
    /// name is the only one found by it.
    pub proof fn lemma_name_unique(&self, i: int, j: int)
        requires
            self.wf(),
            1 <= i < self.len(),
            1 <= j < self.len(),
            self.name(i) == self.name(j),
        ensures
            i == j,
    {
    }

    /// Getting a tile by name finds the slot of that name: in a
    /// well-formed set, the name of slot `i` finds the tile of slot `i` (so
    /// the tile of the index `get_index` gives), and a name no slot has
    /// finds nothing.
    pub proof fn lemma_get_by_name<'k>(&self, key: &'k str)
        requires
            self.wf(),
        ensures
            forall|i: int|
                1 <= i < self.len() && #[trigger] self.name(i) == key@ ==> self.spec_get_tile(key)
                    == Some(&self.tile(i)),
            (forall|i: int| 1 <= i < self.len() ==> #[trigger] self.name(i) != key@)
                ==> self.spec_get_tile(key) is None,
    {
        assert forall|i: int|
            1 <= i < self.len() && #[trigger] self.name(i) == key@ implies self.spec_get_tile(key)
                == Some(&self.tile(i)) by {
            assert forall|j: int| 1 <= j < i implies #[trigger] self.name(j) != key@ by {
                assert(self.name(j) != self.name(i));
            }
            assert(first_named(self, key@, i));
            let c = choose|c: int| #[trigger] first_named(self, key@, c);
            if c != i {
                assert(self.name(c) != self.name(i));
            }
        }
        if forall|i: int| 1 <= i < self.len() ==> #[trigger] self.name(i) != key@ {
            if exists|c: int| #[trigger] first_named(self, key@, c) {
                let c = choose|c: int| #[trigger] first_named(self, key@, c);
                assert(self.name(c) == key@);
            }
        }
    }

    /// A tile set holding the filler slot and, for each of `tiles`, a
    /// two-cell base tile with one variant, in the given order.
    pub fn new(tiles: &[TileInfo]) -> (r: TileSet<O, T>)
        requires
            tiles@.len() < 65536,
            forall|i: int, j: int|
                0 <= i < tiles@.len() && 0 <= j < tiles@.len() && i != j ==> #[trigger] tiles@[i].name@
                    != #[trigger] tiles@[j].name@,
        ensures
            r.wf(),
            r.len() == tiles@.len() + 1,
            forall|i: int| 0 <= i < tiles@.len() ==> #[trigger] r.name(i + 1) == tiles@[i].name@,
            forall|i: int|
                1 <= i < r.len() ==> {
                    &&& #[trigger] r.tile(i) is Base
                    &&& r.tile(i)->Base_0.spec_height() == 2
                    &&& r.tile(i)->Base_0.spec_variants() == seq!["cube"]
                },
    {
        let mut names: Vec<String> = Vec::new();
        names.push(String::new());
        let mut vec: Vec<AnyTile<O, T>> = Vec::new();
        vec.push(AnyTile::Empty(tiles::Empty));
        let mut tile_set = TileSet { names, vec };
        let mut i: usize = 0;
        while i < tiles.len()
            invariant
                tile_set.wf(),
                i <= tiles@.len() < 65536,
                tile_set.len() == i + 1,
                forall|a: int, b: int|
                    0 <= a < tiles@.len() && 0 <= b < tiles@.len() && a != b ==> #[trigger] tiles@[a].name@
                        != #[trigger] tiles@[b].name@,
                forall|j: int| 0 <= j < i ==> #[trigger] tile_set.name(j + 1) == tiles@[j].name@,
                forall|j: int|
                    1 <= j < tile_set.len() ==> {
                        &&& #[trigger] tile_set.tile(j) is Base
                        &&& tile_set.tile(j)->Base_0.spec_height() == 2
                        &&& tile_set.tile(j)->Base_0.spec_variants() == seq!["cube"]
                    },
            decreases tiles@.len() - i,
        {
            let name = tiles[i].name();
            let mut variants: Vec<&'static str> = Vec::new();
            variants.push("cube");
            let tile = tiles::Base::new(2, variants);
            proof {
                assert forall|j: int| 1 <= j < tile_set.len() implies #[trigger] tile_set.name(j) != name@ by {
                    assert(tile_set.name((j - 1) + 1) == tiles@[j - 1].name@);
                    assert(tiles@[j - 1].name@ != tiles@[i as int].name@);
                }
            }
            tile_set.add_any(name, AnyTile::Base(tile));
            i += 1;
        }
        tile_set
    }

    /// The tile `index` names, if any.
    pub fn get<I>(&self, index: I) -> (r: Option<&AnyTile<O, T>>)
        where Self: GetTile<O, T, I>
        ensures
            r == self.spec_get_tile(index),
    {
        self.get_tile(index)
    }

    /// The index of the tile named `key`, if any.
    pub fn get_index(&self, key: &str) -> (r: Option<TileIndex>)
        requires
            self.wf(),
        ensures
            r is Some <==> exists|i: int| 1 <= i < self.len() && #[trigger] self.name(i) == key@,
            r matches Some(t) ==> 1 <= t@ < self.len() && self.name(t@ as int) == key@,
    {
        let k = key.to_owned();
        let mut i: usize = 1;
        while i < self.names.len()
            invariant
                self.wf(),
                1 <= i <= self.len(),
                k@ == key@,
                forall|j: int| 1 <= j < i ==> #[trigger] self.name(j) != key@,
            decreases self.len() - i,
        {
            let eq = self.names[i] == k;
            if eq {
                assert(self.name(i as int) == key@);
                return TileIndex::new(i as u16);
            }
            i += 1;
        }
        None
    }

    /// The tiles with their indices, from index 1 up (the filler is skipped).
    pub fn tiles(&self) -> (r: Tiles<'_, O, T>)
        ensures
            r.set() == self,
            r.index() == 1,
    {
        Tiles { tile_set: self, idx: 1 }
    }

    /// Adds `tile` under the name `key` and returns its index.
    pub fn add(&mut self, key: &str, tile: T) -> (r: TileIndex)
        requires
            old(self).wf(),
            old(self).len() < 65536,
            forall|j: int| 1 <= j < old(self).len() ==> #[trigger] old(self).name(j) != key@,
        ensures
            final(self).wf(),
            r@ == old(self).len(),
            final(self).len() == old(self).len() + 1,
            final(self).name(r@ as int) == key@,
            final(self).tile(r@ as int) == AnyTile::<O, T>::Custom(tile),
            forall|j: int| 0 <= j < old(self).len() ==> #[trigger] final(self).name(j) == old(self).name(j),
            forall|j: int| 0 <= j < old(self).len() ==> #[trigger] final(self).tile(j) == old(self).tile(j),
    {
        self.add_any(key, AnyTile::Custom(tile))
    }

    fn add_any(&mut self, key: &str, tile: AnyTile<O, T>) -> (r: TileIndex)
        requires
            old(self).wf(),
            !(tile is Empty),
            old(self).len() < 65536,
            forall|j: int| 1 <= j < old(self).len() ==> #[trigger] old(self).name(j) != key@,
        ensures
            final(self).wf(),
            r@ == old(self).len(),
            final(self).len() == old(self).len() + 1,
            final(self).name(r@ as int) == key@,
            final(self).tile(r@ as int) == tile,
            forall|j: int| 0 <= j < old(self).len() ==> #[trigger] final(self).name(j) == old(self).name(j),
            forall|j: int| 0 <= j < old(self).len() ==> #[trigger] final(self).tile(j) == old(self).tile(j),
    {
        let idx = self.vec.len();
        let ghost old_set = *self;
        self.names.push(key.to_owned());
        self.vec.push(tile);
        proof {
            assert(self.tile(0) == old_set.tile(0));
            assert forall|i: int| 1 <= i < self.len() implies !(#[trigger] self.tile(i) is Empty) by {
                if i < idx {
                    assert(self.tile(i) == old_set.tile(i));
                }
            }
            assert forall|i: int, j: int|
                1 <= i < self.len() && 1 <= j < self.len() && i != j implies #[trigger] self.name(i)
                    != #[trigger] self.name(j) by {
                if i < idx && j < idx {
                    assert(self.name(i) == old_set.name(i));
                    assert(self.name(j) == old_set.name(j));
                } else if i < idx {
                    assert(self.name(i) == old_set.name(i));
                } else {
                    assert(self.name(j) == old_set.name(j));
                }
            }
        }
        match TileIndex::new(idx as u16) {
            Some(t) => t,
            None => vstd::pervasive::unreached(),
        }
    }
}

/// Finding a tile by a kind of key.
pub trait GetTile<O, T, I> {
    /// The tile that `idx` names, if any.
    spec fn spec_get_tile(&self, idx: I) -> Option<&AnyTile<O, T>>;

    /// The tile that `idx` names, if any.
    fn get_tile(&self, idx: I) -> (r: Option<&AnyTile<O, T>>)
        ensures
            r == self.spec_get_tile(idx),
    ;
}

impl<O, T: Tile<O>> GetTile<O, T, TileIndex> for TileSet<O, T> {
    /// The tile in slot `idx`, when there is one.
    open spec fn spec_get_tile(&self, idx: TileIndex) -> Option<&AnyTile<O, T>> {
        if idx@ < self.len() {
            Some(&self.tile(idx@ as int))
        } else {
            None
        }
    }

    fn get_tile(&self, idx: TileIndex) -> (r: Option<&AnyTile<O, T>>) {
        let i = idx.get() as usize;
        if i < self.vec.len() {
            Some(&self.vec[i])
        } else {
            None
        }
    }
}

/// Whether slot `i` is the first slot from 1 up whose tile is named `key`.
pub open spec fn first_named<O, T: Tile<O>>(set: &TileSet<O, T>, key: Seq<char>, i: int) -> bool {
    &&& 1 <= i < set.len()
    &&& i < set.name_count()
    &&& set.name(i) == key
    &&& forall|j: int| 1 <= j < i ==> #[trigger] set.name(j) != key
}

/// The first slot from 1 up whose tile is named `key`, if any.
pub open spec fn slot_named<O, T: Tile<O>>(set: &TileSet<O, T>, key: Seq<char>) -> Option<int> {
    if exists|i: int| #[trigger] first_named(set, key, i) {
        Some(choose|i: int| #[trigger] first_named(set, key, i))
    } else {
        None
    }
}

impl<'k, O, T: Tile<O>> GetTile<O, T, &'k str> for TileSet<O, T> {
    /// The tile named `idx`, when there is one.
    open spec fn spec_get_tile(&self, idx: &'k str) -> Option<&AnyTile<O, T>> {
        match slot_named(self, idx@) {
            Some(i) => Some(&self.tile(i)),
            None => None,
        }
    }

    fn get_tile(&self, idx: &str) -> (r: Option<&AnyTile<O, T>>) {
        let k = idx.to_owned();
        let mut i: usize = 1;
        while i < self.names.len() && i < self.vec.len()
            invariant
                1 <= i,
                k@ == idx@,
                forall|j: int| 1 <= j < i ==> #[trigger] self.name(j) != idx@,
            decreases self.vec@.len() - i,
        {
            let eq = self.names[i] == k;
            if eq {
                proof {
                    assert(first_named(self, idx@, i as int));
                    let c = choose|c: int| #[trigger] first_named(self, idx@, c);
                    if c < i {
                        assert(self.name(c) != idx@);
                    }
                    if i < c {
                        assert(self.name(i as int) != idx@);
                    }
                }
                return Some(&self.vec[i]);
            }
            i += 1;
        }
        proof {
            if exists|c: int| #[trigger] first_named(self, idx@, c) {
                let c = choose|c: int| #[trigger] first_named(self, idx@, c);
                assert(self.name(c) == idx@);
            }
        }
        None
    }
}

/// The tiles of a tile set with their indices, from index 1 up.
pub struct Tiles<'a, O, T> {
    tile_set: &'a TileSet<O, T>,
    idx: u16,
}

impl<'a, O, T: Tile<O>> Tiles<'a, O, T> {
    /// The tile set walked.
    pub closed spec fn set(self) -> &'a TileSet<O, T> {
        self.tile_set
    }

    /// The index of the next tile to hand out.
    pub closed spec fn index(self) -> u16 {
        self.idx
    }

    /// Whether `after` is this walk after one call of `next` that gave
    /// `r`: the tile of the current slot and its index, the walk moved one
    /// slot on, or `None` at the end, the walk unmoved. The end is the slot
    /// count taken modulo 65536, as a `u16`.
    pub open spec fn steps_to(self, after: Self, r: Option<(TileIndex, &'a AnyTile<O, T>)>) -> bool {
        &&& after.set() == self.set()
        &&& r is Some <==> self.index() < self.set().len() % 65536 && self.index() != 0
        &&& r matches Some((t, tile)) ==> {
            &&& t@ == self.index()
            &&& *tile == self.set().tile(t@ as int)
            &&& after.index() == self.index() + 1
        }
        &&& r is None ==> after.index() == self.index()
    }

    /// The next tile and its index; `None` once past the last slot.
    pub fn next(&mut self) -> (r: Option<(TileIndex, &'a AnyTile<O, T>)>)
        ensures
            old(self).steps_to(*final(self), r),
    {
        let len = (self.tile_set.vec.len() % 65536) as u16;
        if self.idx < len {
            match TileIndex::new(self.idx) {
                Some(t) => {
                    let tile = &self.tile_set.vec[self.idx as usize];
                    self.idx = self.idx + 1;
                    Some((t, tile))
                },
                None => None,
            }
        } else {
            None
        }
    }
}

/// Where a walk from slot 1 stands after `i` steps: at slot `i + 1`, or at
/// its end once it got there.
pub open spec fn walk_index(len: int, i: int) -> int {
    let end = if len % 65536 == 0 {
        1
    } else {
        len % 65536
    };
    if i + 1 < end {
        i + 1
    } else {
        end
    }
}

/// A walk of a tile set from slot 1 stands, after `i` steps, at
/// `walk_index`.
proof fn lemma_walk_at<'a, O, T: Tile<O>>(
    states: Seq<Tiles<'a, O, T>>,
    results: Seq<Option<(TileIndex, &'a AnyTile<O, T>)>>,
    i: int,
)
    requires
        states.len() == results.len() + 1,
        states[0].index() == 1,
        forall|k: int| 0 <= k < results.len() ==> #[trigger] states[k].steps_to(states[k + 1], results[k]),
        0 <= i < states.len(),
    ensures
        states[i].set() == states[0].set(),
        states[i].index() == walk_index(states[0].set().len() as int, i),
    decreases i,
{
    if i > 0 {
        lemma_walk_at(states, results, i - 1);
        assert(states[i - 1].steps_to(states[i], results[i - 1]));
    }
}

/// A walk of a tile set from slot 1 hands out the slots 1, 2, 3, ... in
/// order, each with its tile, up to the last slot whose index the slot
/// count taken as a `u16` passes; after that it hands out nothing.
pub proof fn lemma_walk<'a, O, T: Tile<O>>(
    states: Seq<Tiles<'a, O, T>>,
    results: Seq<Option<(TileIndex, &'a AnyTile<O, T>)>>,
)
    requires
        states.len() == results.len() + 1,
        states[0].index() == 1,
        forall|k: int| 0 <= k < results.len() ==> #[trigger] states[k].steps_to(states[k + 1], results[k]),
    ensures
        forall|i: int|
            0 <= i < results.len() ==> {
                &&& (#[trigger] results[i] is Some <==> i + 1 < states[0].set().len() % 65536)
                &&& results[i] matches Some((t, tile)) ==> t@ == i + 1 && *tile == states[0].set().tile(i + 1)
            },
{
    assert forall|i: int| 0 <= i < results.len() implies {
        &&& (#[trigger] results[i] is Some <==> i + 1 < states[0].set().len() % 65536)
        &&& results[i] matches Some((t, tile)) ==> t@ == i + 1 && *tile == states[0].set().tile(i + 1)
    } by {
        lemma_walk_at(states, results, i);
        assert(states[i].steps_to(states[i + 1], results[i]));
    }
}

} // verus!

//! A cluster of the world: chunks of slabs, with the objects that tiles
//! store, and the placing and reading back of tiles' columns.

use crate::chunk::{Chunk, Column};
use crate::layout::{
    lemma_objs_prefix, lemma_objs_step, objs_of, packed_data, read_back, Data, DataView, Layout, Num,
};
use crate::point::{
    above, cell_index, cell_of, cluster_of, in_world, point_of, ChunkPoints, ClusterPoint, Point,
    Side,
};
use crate::prelude::{Height, TileIndex, VariantIndex};
use crate::slab::{Slab, SlabView, Typed};
use crate::tile::{AnyTile, Placement, Tile, TileSet};
use std::rc::Rc;
use vstd::prelude::*;

verus! {

broadcast use {crate::slab::Trunk::lemma_is_trunk, crate::slab::Base::lemma_is_base};

/// Where a cell `k` above `p` lies, relative to `p`'s chunk: in it, in the
/// chunk above, or in the chunk below.
pub proof fn lemma_above(p: Point, k: int)
    requires
        p.wf(),
    ensures
        ({
            let ch = p.chunk_point()@;
            let cl = p.cluster_point()@;
            let q = above(p@, k);
            &&& 0 <= ch.1 + k < 32 ==> cluster_of(q) == cl && cell_of(q) == (ch.0, ch.1 + k, ch.2)
            &&& 32 <= ch.1 + k < 64 ==> cluster_of(q) == (cl.0, cl.1 + 1, cl.2) && cell_of(q) == (
                ch.0,
                ch.1 + k - 32,
                ch.2,
            )
            &&& -32 <= ch.1 + k < 0 ==> cluster_of(q) == (cl.0, cl.1 - 1, cl.2) && cell_of(q) == (
                ch.0,
                ch.1 + k + 32,
                ch.2,
            )
        }),
{
    p.lemma_parts();
    let ch = p.chunk_point()@;
    let cl = p.cluster_point()@;
    let q = above(p@, k);
    if 0 <= ch.1 + k < 32 {
        crate::point::lemma_split(q.1, cl.1, ch.1 + k);
    } else if 32 <= ch.1 + k < 64 {
        crate::point::lemma_split(q.1, cl.1 + 1, ch.1 + k - 32);
    } else if -32 <= ch.1 + k < 0 {
        crate::point::lemma_split(q.1, cl.1 - 1, ch.1 + k + 32);
    }
}

/// The objects stored by the tiles of one chunk.
struct Storage<O> {
    data: Vec<Rc<O>>,
}

impl<O> Storage<O> {
    fn new() -> (r: Storage<O>)
        ensures
            r.data@ == Seq::<Rc<O>>::empty(),
    {
        Storage { data: Vec::new() }
    }

    /// The object at `idx`.
    fn get(&self, idx: u16) -> (r: Rc<O>)
        requires
            idx < self.data@.len(),
        ensures
            r == self.data@[idx as int],
    {
        self.data[idx as usize].clone()
    }

    /// Stores `obj` and returns its index.
    fn add(&mut self, obj: Rc<O>) -> (r: u16)
        requires
            old(self).data@.len() < 0x10000,
        ensures
            r == old(self).data@.len(),
            final(self).data@ == old(self).data@.push(obj),
    {
        let idx = self.data.len();
        self.data.push(obj);
        idx as u16
    }
}

/// A chunk of slabs with its storage.
struct SlabChunk<O> {
    slabs: Chunk<Slab>,
    storage: Storage<O>,
}

impl<O> SlabChunk<O> {
    /// A chunk of empty slabs with nothing stored.
    fn new() -> (r: SlabChunk<O>)
        ensures
            r.slabs.wf(),
            forall|i: int| 0 <= i < 32768 ==> (#[trigger] r.slabs@[i])@ is Empty,
            r.storage.data@.len() == 0,
    {
        let e = Slab::from(crate::slab::Empty);
        SlabChunk { slabs: Chunk::filled(e), storage: Storage::new() }
    }
}

/// The chunks of a cluster, by cluster point.
struct ChunkMap<O> {
    keys: Vec<ClusterPoint>,
    chunks: Vec<SlabChunk<O>>,
}

impl<O> ChunkMap<O> {
    spec fn has(self, c: (int, int, int)) -> bool {
        exists|i: int| 0 <= i < self.keys@.len() && #[trigger] self.keys@[i]@ == c
    }

    spec fn index_of(self, c: (int, int, int)) -> int {
        choose|i: int| 0 <= i < self.keys@.len() && #[trigger] self.keys@[i]@ == c
    }

    spec fn entry(self, c: (int, int, int)) -> SlabChunk<O> {
        self.chunks@[self.index_of(c)]
    }

    spec fn wf(self) -> bool {
        &&& self.keys@.len() == self.chunks@.len()
        &&& forall|i: int, j: int|
            0 <= i < self.keys@.len() && 0 <= j < self.keys@.len() && i != j
                ==> #[trigger] self.keys@[i]@ != #[trigger] self.keys@[j]@
        &&& forall|i: int| 0 <= i < self.chunks@.len() ==> (#[trigger] self.chunks@[i]).slabs.wf()
    }

    /// The slab stored for world position `p`, in the chunk that holds it.
    spec fn raw(self, p: (int, int, int)) -> Slab {
        self.entry(cluster_of(p)).slabs@[cell_index(cell_of(p))]
    }

    /// What the cell at world position `p` holds; empty outside the world
    /// and where no chunk is stored.
    spec fn slab(self, p: (int, int, int)) -> SlabView {
        if in_world(p) && self.has(cluster_of(p)) {
            self.raw(p)@
        } else {
            SlabView::Empty
        }
    }

    spec fn objects(self, c: (int, int, int)) -> Seq<Rc<O>> {
        if self.has(c) {
            self.entry(c).storage.data@
        } else {
            Seq::empty()
        }
    }

    /// Every base has the trunks of its column above it, every trunk has
    /// its base below it, and every trunk's object index is stored.
    #[verifier::opaque]
    spec fn columns_ok(self) -> bool {
        forall|p: (int, int, int)| #[trigger] self.slab(p) != SlabView::Empty ==> self.column_ok(p)
    }

    /// Every non-empty cell's column is whole.
    proof fn lemma_column_any(self, p: (int, int, int))
        requires
            self.columns_ok(),
            self.slab(p) != SlabView::Empty,
        ensures
            self.column_ok(p),
    {
        reveal(ChunkMap::columns_ok);
    }

    /// Above a base of height `h` lie the trunks of its levels 1 to `h - 1`.
    proof fn lemma_base_column(self, p: (int, int, int), k: int)
        requires
            self.columns_ok(),
            self.slab(p) is Base,
            1 <= k < self.slab(p)->Base_height,
        ensures
            in_world(above(p, k)),
            self.slab(above(p, k)) is Trunk,
            self.slab(above(p, k))->Trunk_tile == self.slab(p)->Base_tile,
            self.slab(above(p, k))->Trunk_level == k,
    {
        reveal(ChunkMap::columns_ok);
        assert(self.column_ok(p));
        assert(in_world(above(p, k)));
    }

    /// Below a trunk of level `l` lies, `l` cells down, the base of a taller
    /// column of the same tile; the trunk's object index is stored.
    proof fn lemma_trunk_base(self, p: (int, int, int))
        requires
            self.columns_ok(),
            self.slab(p) is Trunk,
        ensures
            ({
                let l = self.slab(p)->Trunk_level as int;
                let b = self.slab(above(p, -l));
                &&& in_world(above(p, -l))
                &&& b is Base
                &&& b->Base_tile == self.slab(p)->Trunk_tile
                &&& l < b->Base_height
                &&& self.slab(p)->Trunk_obj ==> self.slab(p)->Trunk_data < self.objects(
                    cluster_of(p),
                ).len()
            }),
    {
        reveal(ChunkMap::columns_ok);
        assert(self.column_ok(p));
    }

    spec fn column_ok(self, p: (int, int, int)) -> bool {
        match self.slab(p) {
            SlabView::Base { tile, height, .. } => forall|k: int|
                1 <= k < height ==> {
                    &&& in_world(#[trigger] above(p, k))
                    &&& self.slab(above(p, k)) is Trunk
                    &&& self.slab(above(p, k))->Trunk_tile == tile
                    &&& self.slab(above(p, k))->Trunk_level == k
                },
            SlabView::Trunk { tile, level, obj, data } => {
                &&& in_world(above(p, -level))
                &&& self.slab(above(p, -level)) is Base
                &&& self.slab(above(p, -level))->Base_tile == tile
                &&& level < self.slab(above(p, -level))->Base_height
                &&& obj ==> data < self.objects(cluster_of(p)).len()
            },
            SlabView::Empty => true,
        }
    }

    fn new() -> (r: ChunkMap<O>)
        ensures
            r.wf(),
            forall|c: (int, int, int)| !r.has(c),
    {
        ChunkMap { keys: Vec::new(), chunks: Vec::new() }
    }

    /// The position of chunk `cl` in the map.
    fn find(&self, cl: ClusterPoint) -> (r: Option<usize>)
        requires
            self.wf(),
        ensures
            r is Some <==> self.has(cl@),
            r matches Some(i) ==> i < self.keys@.len() && i == self.index_of(cl@),
    {
        let mut i: usize = 0;
        while i < self.keys.len()
            invariant
                self.wf(),
                i <= self.keys@.len(),
                forall|j: int| 0 <= j < i ==> self.keys@[j]@ != cl@,
            decreases self.keys@.len() - i,
        {
            proof {
                ClusterPoint::lemma_view_eq(self.keys@[i as int], cl);
            }
            if self.keys[i] == cl {
                assert(self.keys@[i as int]@ == cl@);
                return Some(i);
            }
            i += 1;
        }
        None
    }

    /// The chunk `cl`, if it is stored.
    fn chunk(&self, cl: ClusterPoint) -> (r: Option<&SlabChunk<O>>)
        requires
            self.wf(),
        ensures
            r is Some <==> self.has(cl@),
            r matches Some(c) ==> *c == self.entry(cl@),
    {
        match self.find(cl) {
            Some(i) => Some(&self.chunks[i]),
            None => None,
        }
    }

    /// The slab at `pn`, if its chunk is stored.
    fn get(&self, pn: Point) -> (r: Option<Slab>)
        requires
            self.wf(),
        ensures
            r is Some <==> self.has(cluster_of(pn@)),
            r matches Some(s) ==> s == self.raw(pn@) && s@ == self.slab(pn@),
    {
        proof {
            use_type_invariant(&pn);
            pn.lemma_parts();
        }
        match self.chunk(pn.cluster_point()) {
            Some(c) => {
                proof {
                    let i = self.index_of(pn.cluster_point()@);
                    assert(self.chunks@[i].slabs.wf());
                }
                Some(c.slabs.get(pn.chunk_point()))
            },
            None => None,
        }
    }

    /// The number of objects stored in chunk `cl`.
    fn objects_len(&self, cl: ClusterPoint) -> (r: usize)
        requires
            self.wf(),
        ensures
            r == self.objects(cl@).len(),
    {
        match self.chunk(cl) {
            Some(c) => c.storage.data.len(),
            None => 0,
        }
    }

    /// Makes sure chunk `cl` is stored (a new chunk is empty) and returns
    /// its position.
    fn ensure_chunk(&mut self, cl: ClusterPoint) -> (r: usize)
        requires
            old(self).wf(),
        ensures
            final(self).wf(),
            final(self).has(cl@),
            r < final(self).keys@.len() && r == final(self).index_of(cl@),
            forall|c: (int, int, int)| #[trigger] final(self).has(c) <==> old(self).has(c) || c == cl@,
            forall|p: (int, int, int)| #[trigger] final(self).slab(p) == old(self).slab(p),
            forall|c: (int, int, int)| #[trigger] final(self).objects(c) == old(self).objects(c),
    {
        match self.find(cl) {
            Some(i) => i,
            None => {
                let chunk = SlabChunk::new();
                let ghost old_map = *self;
                self.keys.push(cl);
                self.chunks.push(chunk);
                let r = self.keys.len() - 1;
                proof {
                    assert(self.keys@[r as int]@ == cl@);
                    assert forall|c: (int, int, int)| #[trigger] self.has(c) <==> old_map.has(c) || c == cl@ by {
                        if old_map.has(c) {
                            let j = old_map.index_of(c);
                            assert(self.keys@[j]@ == c);
                        }
                        if self.has(c) {
                            let j = self.index_of(c);
                            if j < r {
                                assert(old_map.keys@[j]@ == c);
                            }
                        }
                    }
                    assert forall|c: (int, int, int)| old_map.has(c) implies self.index_of(c) == old_map.index_of(c) by {
                        let j = old_map.index_of(c);
                        assert(self.keys@[j]@ == c);
                        let k = self.index_of(c);
                        if k != j {
                            assert(self.keys@[k]@ == self.keys@[j]@);
                        }
                    }
                    assert(self.index_of(cl@) == r) by {
                        let k = self.index_of(cl@);
                        if k != r {
                            assert(self.keys@[k]@ == self.keys@[r as int]@);
                        }
                    }
                    assert forall|p: (int, int, int)| #[trigger] self.slab(p) == old_map.slab(p) by {
                        if in_world(p) && old_map.has(cluster_of(p)) {
                            assert(self.index_of(cluster_of(p)) == old_map.index_of(cluster_of(p)));
                        }
                        if in_world(p) && self.has(cluster_of(p)) && !old_map.has(cluster_of(p)) {
                            assert(cluster_of(p) == cl@);
                            assert(0 <= cell_index(cell_of(p)) < 32768) by {
                                vstd::arithmetic::div_mod::lemma_mod_bound(p.0, 32);
                                vstd::arithmetic::div_mod::lemma_mod_bound(p.1, 32);
                                vstd::arithmetic::div_mod::lemma_mod_bound(p.2, 32);
                            }
                            assert(self.raw(p)@ is Empty);
                        }
                    }
                    assert forall|c: (int, int, int)| #[trigger] self.objects(c) == old_map.objects(c) by {
                        if old_map.has(c) {
                            assert(self.index_of(c) == old_map.index_of(c));
                        }
                    }
                }
                r
            },
        }
    }

    /// Puts slab `s` at `pn`, whose chunk is stored.
    fn set_slab(&mut self, pn: Point, s: Slab)
        requires
            old(self).wf(),
            old(self).has(cluster_of(pn@)),
        ensures
            final(self).wf(),
            final(self).keys@ == old(self).keys@,
            forall|c: (int, int, int)| #[trigger] final(self).has(c) == old(self).has(c),
            forall|c: (int, int, int)| #[trigger] final(self).objects(c) == old(self).objects(c),
            forall|p: (int, int, int)| #[trigger]
                final(self).slab(p) == if p == pn@ {
                    s@
                } else {
                    old(self).slab(p)
                },
    {
        proof {
            use_type_invariant(&pn);
            pn.lemma_parts();
        }
        let i = match self.find(pn.cluster_point()) {
            Some(i) => i,
            None => return,
        };
        let ghost old_map = *self;
        proof {
            assert(self.chunks@[i as int].slabs.wf());
        }
        self.chunks[i].slabs.set(pn.chunk_point(), s);
        proof {
            assert forall|c: (int, int, int)| #[trigger] self.has(c) == old_map.has(c) by {
                if old_map.has(c) {
                    let j = old_map.index_of(c);
                    assert(self.keys@[j]@ == c);
                }
            }
            assert forall|c: (int, int, int)| #[trigger] self.objects(c) == old_map.objects(c) by {}
            assert forall|p: (int, int, int)| #[trigger]
                self.slab(p) == if p == pn@ { s@ } else { old_map.slab(p) } by {
                if in_world(p) && self.has(cluster_of(p)) && p != pn@ {
                    if self.index_of(cluster_of(p)) == i {
                        let a = self.index_of(cluster_of(p));
                        if cluster_of(p) != cluster_of(pn@) {
                            assert(self.keys@[a]@ == self.keys@[i as int]@);
                        }
                        if cell_index(cell_of(p)) == cell_index(cell_of(pn@)) {
                            crate::point::lemma_cell_unique(p, pn@);
                        }
                    }
                }
            }
        }
    }

    /// Stores `obj` in chunk `cl` and returns its index there.
    fn add_object(&mut self, cl: ClusterPoint, obj: Rc<O>) -> (r: u16)
        requires
            old(self).wf(),
            old(self).has(cl@),
            old(self).objects(cl@).len() < 0x10000,
        ensures
            final(self).wf(),
            r == old(self).objects(cl@).len(),
            forall|c: (int, int, int)| #[trigger] final(self).has(c) == old(self).has(c),
            forall|p: (int, int, int)| #[trigger] final(self).slab(p) == old(self).slab(p),
            forall|c: (int, int, int)| #[trigger]
                final(self).objects(c) == if c == cl@ {
                    old(self).objects(c).push(obj)
                } else {
                    old(self).objects(c)
                },
    {
        let i = match self.find(cl) {
            Some(i) => i,
            None => return 0,
        };
        let ghost old_map = *self;
        let r = self.chunks[i].storage.add(obj);
        proof {
            assert forall|c: (int, int, int)| #[trigger] self.has(c) == old_map.has(c) by {
                if old_map.has(c) {
                    let j = old_map.index_of(c);
                    assert(self.keys@[j]@ == c);
                }
            }
            assert forall|p: (int, int, int)| #[trigger] self.slab(p) == old_map.slab(p) by {}
            assert forall|c: (int, int, int)| #[trigger]
                self.objects(c) == if c == cl@ { old_map.objects(c).push(obj) } else { old_map.objects(c) } by {
                if self.has(c) && c != cl@ {
                    let a = self.index_of(c);
                    if a == i {
                        assert(self.keys@[a]@ == self.keys@[i as int]@);
                    }
                }
            }
        }
        r
    }

    /// The `h` slabs of the column from `bp` up, with the chunk of its
    /// bottom and, when it reaches higher, the chunk above.
    fn column(&self, bp: Point, h: u8) -> (r: Option<(Column<'_, Slab>, &SlabChunk<O>, Option<&SlabChunk<O>>)>)
        requires
            self.wf(),
            1 <= h <= 8,
        ensures
            (forall|k: int| 0 <= k < h ==> #[trigger] self.slab(above(bp@, k)) != SlabView::Empty)
                ==> r is Some,
            r matches Some((col, lo, up)) ==> {
                &&& col.cells().len() == h
                &&& 1 <= col.0@.len()
                &&& col.0@.len() + bp.chunk_point()@.1 <= 32
                &&& (col.1@.len() > 0 ==> up is Some)
                &&& forall|k: int|
                    0 <= k < h ==> {
                        &&& in_world(above(bp@, k))
                        &&& #[trigger] col.cells()[k] == self.raw(above(bp@, k))
                        &&& self.has(cluster_of(above(bp@, k)))
                        &&& k < col.0@.len() ==> lo.storage.data@ == self.objects(
                            cluster_of(above(bp@, k)),
                        )
                        &&& k >= col.0@.len() ==> (up matches Some(u) && u.storage.data@
                            == self.objects(cluster_of(above(bp@, k))))
                    }
            },
    {
        proof {
            use_type_invariant(&bp);
            bp.lemma_parts();
        }
        let ch = bp.chunk_point();
        let cl = bp.cluster_point();
        let room: u8 = 32 - ch.y();
        let n0: u8 = if h < room { h } else { room };
        proof {
            lemma_above(bp, 0);
            assert(above(bp@, 0) == bp@);
        }
        let lower = match self.chunk(cl) {
            Some(c) => c,
            None => {
                assert(self.slab(above(bp@, 0)) == SlabView::Empty);
                return None;
            },
        };
        proof {
            assert(self.chunks@[self.index_of(cl@)].slabs.wf());
        }
        let col0 = lower.slabs.column(ch, n0 as usize);
        let (col1, upper) = if n0 < h {
            proof {
                lemma_above(bp, n0 as int);
            }
            let up = match cl.to(Side::Up) {
                Some(up) => up,
                None => {
                    assert(self.slab(above(bp@, n0 as int)) == SlabView::Empty);
                    return None;
                },
            };
            let upper = match self.chunk(up) {
                Some(c) => c,
                None => {
                    assert(self.slab(above(bp@, n0 as int)) == SlabView::Empty);
                    return None;
                },
            };
            proof {
                assert(self.chunks@[self.index_of(up@)].slabs.wf());
            }
            (upper.slabs.column(ch.bottom(), (h - n0) as usize), Some(upper))
        } else {
            (lower.slabs.column(ch, 0), None)
        };
        let col = Column(col0, col1);
        proof {
            assert forall|k: int| 0 <= k < h implies {
                &&& in_world(above(bp@, k))
                &&& #[trigger] col.cells()[k] == self.raw(above(bp@, k))
                &&& self.has(cluster_of(above(bp@, k)))
                &&& k < col.0@.len() ==> lower.storage.data@ == self.objects(cluster_of(above(bp@, k)))
                &&& k >= col.0@.len() ==> (upper matches Some(u) && u.storage.data@ == self.objects(
                    cluster_of(above(bp@, k)),
                ))
            } by {
                lemma_above(bp, k);
                if k < n0 {
                    assert(col.cells()[k] == col0@[k]);
                } else {
                    assert(col.cells()[k] == col1@[k - n0]);
                }
            }
        }
        Some((col, lower, upper))
    }
}

/// The column of one placed tile, read from a cluster.
pub struct ClusterSlice<'a, O> {
    pub column: Column<'a, Slab>,
    chunks: (&'a SlabChunk<O>, Option<&'a SlabChunk<O>>),
}

impl<'a, O> ClusterSlice<'a, O> {
    /// The slabs of the column, from the base up.
    pub closed spec fn slabs(self) -> Seq<SlabView> {
        self.column.cells().map_values(|s: Slab| s@)
    }

    /// The number of cells of the column in the chunk of its base.
    pub closed spec fn lower_len(self) -> nat {
        self.column.0@.len()
    }

    /// The objects that level `level` may refer to: those of the chunk that
    /// holds it.
    closed spec fn objects(self, level: int) -> Seq<Rc<O>> {
        if level < self.column.0@.len() {
            self.chunks.0.storage.data@
        } else {
            match self.chunks.1 {
                Some(c) => c.storage.data@,
                None => Seq::empty(),
            }
        }
    }

    /// What level `level` of the column holds.
    pub closed spec fn datum(self, level: int) -> DataView<O> {
        match self.slabs()[level] {
            SlabView::Trunk { obj: true, data, .. } => DataView::Obj(*self.objects(level)[data as int]),
            SlabView::Trunk { obj: false, data, .. } => DataView::Num(data),
            _ => DataView::Nothing,
        }
    }

    /// The column is a whole tile: a base as tall as the column, then
    /// trunks of the same tile at levels 1, 2, ..., whose objects are stored.
    pub closed spec fn wf(self) -> bool {
        let n = self.slabs().len();
        &&& 1 <= self.column.0@.len()
        &&& n <= 8
        &&& self.slabs()[0] is Base
        &&& self.slabs()[0]->Base_height == n
        &&& forall|k: int|
            1 <= k < n ==> {
                &&& (#[trigger] self.slabs()[k]) is Trunk
                &&& self.slabs()[k]->Trunk_level == k
                &&& self.slabs()[k]->Trunk_tile == self.slabs()[0]->Base_tile
            }
        &&& forall|k: int|
            0 <= k < n && (#[trigger] self.slabs()[k]) is Trunk && self.slabs()[k]->Trunk_obj
                ==> self.slabs()[k]->Trunk_data < self.objects(k).len()
        &&& self.column.1@.len() > 0 ==> self.chunks.1 is Some
    }

    /// The column's slabs, from the base up.
    pub fn column(&self) -> (r: &Column<'a, Slab>)
        ensures
            r.cells().map_values(|s: Slab| s@) == self.slabs(),
    {
        &self.column
    }

    /// The number of cells of the column.
    pub fn len(&self) -> (r: usize)
        requires
            self.wf(),
        ensures
            r == self.slabs().len(),
    {
        self.column.len()
    }

    /// The tile and variant of the column.
    pub fn index(&self) -> (r: (TileIndex, VariantIndex))
        requires
            self.wf(),
        ensures
            r.0@ == self.slabs()[0]->Base_tile,
            r.1.0 == self.slabs()[0]->Base_variant,
    {
        let s = self.column.get(0);
        assert(s@ == self.slabs()[0]);
        match s.typed() {
            Typed::Base(base) => (base.tile(), base.variant()),
            _ => vstd::pervasive::unreached(),
        }
    }

    /// What level `level` of the column holds.
    pub fn data(&self, level: u8) -> (r: Data<O>)
        requires
            self.wf(),
            level < self.slabs().len(),
        ensures
            r@ == self.datum(level as int),
    {
        let level = level as usize;
        let slab = self.column.get(level);
        assert(slab@ == self.slabs()[level as int]);
        match slab.typed() {
            Typed::Empty(_) => vstd::pervasive::unreached(),
            Typed::Base(_) => Data::Nothing,
            Typed::Trunk(trunk) => {
                let data = trunk.data();
                if trunk.is_obj() {
                    if level < self.column.0.len() {
                        Data::Obj(self.chunks.0.storage.get(data))
                    } else {
                        match self.chunks.1 {
                            Some(c) => Data::Obj(c.storage.get(data)),
                            None => vstd::pervasive::unreached(),
                        }
                    }
                } else {
                    match Num::new(data) {
                        Some(n) => Data::Num(n),
                        None => vstd::pervasive::unreached(),
                    }
                }
            },
        }
    }
}

/// The data of a column placed at `pn` that lie in chunk `c`, in level
/// order, with the data of levels in other chunks blanked out.
pub open spec fn masked<O>(pn: (int, int, int), d: Seq<Data<O>>, c: (int, int, int)) -> Seq<Data<O>> {
    Seq::new(
        d.len(),
        |i: int|
            if cluster_of(above(pn, i + 1)) == c {
                d[i]
            } else {
                Data::Nothing
            },
    )
}

/// Data that are all blank hold no objects.
proof fn lemma_no_objs<O>(d: Seq<Data<O>>)
    requires
        forall|i: int| 0 <= i < d.len() ==> #[trigger] d[i] is Nothing,
    ensures
        objs_of(d).len() == 0,
    decreases d.len(),
{
    if d.len() > 0 {
        let p = d.drop_last();
        assert forall|i: int| 0 <= i < p.len() implies #[trigger] p[i] is Nothing by {
            assert(p[i] == d[i]);
        }
        lemma_no_objs(p);
        assert(d[d.len() - 1] is Nothing);
    }
}

/// Blanking out some data of a column keeps at most its objects.
proof fn lemma_masked_objs_le<O>(pn: (int, int, int), d: Seq<Data<O>>, c: (int, int, int))
    ensures
        objs_of(masked(pn, d, c)).len() <= objs_of(d).len(),
    decreases d.len(),
{
    if d.len() > 0 {
        let p = d.drop_last();
        lemma_masked_objs_le(pn, p, c);
        assert(masked(pn, d, c).drop_last() =~= masked(pn, p, c));
    }
}

/// Whether `p` lies in the column of `n + 1` cells from `pn` up.
pub open spec fn in_column(pn: (int, int, int), n: int, p: (int, int, int)) -> bool {
    p.0 == pn.0 && p.2 == pn.2 && pn.1 <= p.1 <= pn.1 + n
}

/// What `Cluster::place` reports of a placed tile.
pub struct Placed {
    pub variant: VariantIndex,
    pub height: Height,
}

/// The chunks of the world, with the tiles that can be placed in them.
#[verifier::reject_recursive_types(O)]
pub struct Cluster<O, T: Tile<O>> {
    map: ChunkMap<O>,
    tile_set: Rc<TileSet<O, T>>,
}

impl<O, T: Tile<O>> Cluster<O, T> {
    /// The map of chunks is well formed, every column is whole, every
    /// chunk's storage holds at most 4096 objects (the most a trunk's 12
    /// data bits can index), and the tile set is well formed.
    #[verifier::type_invariant]
    closed spec fn inv(self) -> bool {
        &&& self.map.wf()
        &&& self.map.columns_ok()
        &&& forall|c: (int, int, int)| #[trigger] self.map.objects(c).len() <= 0x1000
        &&& self.tile_set.wf()
    }

    /// The slab at world position `p` (empty outside the world and where
    /// nothing was placed).
    pub closed spec fn slab(self, p: (int, int, int)) -> SlabView {
        self.map.slab(p)
    }

    /// The objects stored in chunk `c`, in the order they were stored.
    pub closed spec fn objects(self, c: (int, int, int)) -> Seq<Rc<O>> {
        self.map.objects(c)
    }

    /// The tiles that can be placed.
    pub closed spec fn tile_set(self) -> TileSet<O, T> {
        *self.tile_set
    }

    /// The base of the column that holds `p`.
    pub open spec fn base_of(self, p: (int, int, int)) -> (int, int, int) {
        match self.slab(p) {
            SlabView::Trunk { level, .. } => above(p, -level),
            _ => p,
        }
    }

    /// The level of `p` above the base of its column.
    pub open spec fn level_of(self, p: (int, int, int)) -> int {
        match self.slab(p) {
            SlabView::Trunk { level, .. } => level as int,
            _ => 0,
        }
    }

    /// What the slab at `p` holds: a trunk's number, or the object its
    /// index names in its chunk's storage.
    pub open spec fn datum(self, p: (int, int, int)) -> DataView<O> {
        match self.slab(p) {
            SlabView::Trunk { obj: true, data, .. } => DataView::Obj(
                *self.objects(cluster_of(p))[data as int],
            ),
            SlabView::Trunk { obj: false, data, .. } => DataView::Num(data),
            _ => DataView::Nothing,
        }
    }

    /// The slab at level `k` of a column of tile `tile` and variant `variant`
    /// with data `d`, placed at `pn` in this cluster: objects are stored in
    /// level order after those already in the chunk of their level.
    pub open spec fn placed_slab(
        self,
        pn: (int, int, int),
        tile: u16,
        variant: u8,
        d: Seq<Data<O>>,
        k: int,
    ) -> SlabView {
        if k == 0 {
            SlabView::Base { tile, variant, height: (d.len() + 1) as u8 }
        } else {
            let c = cluster_of(above(pn, k));
            let obj = d[k - 1] is Obj;
            SlabView::Trunk {
                tile,
                level: k as u8,
                obj,
                data: if obj {
                    (self.objects(c).len() + objs_of(masked(pn, d, c).subrange(0, k - 1)).len()) as u16
                } else {
                    packed_data(d[k - 1])
                },
            }
        }
    }

    /// Whether a column with data `d` can be placed at `pn`: it is at most
    /// `Height::MAX` tall, lies in the world, only covers empty cells, and
    /// the objects of each chunk it reaches keep fitting in 12-bit indices.
    pub open spec fn can_place(self, pn: (int, int, int), d: Seq<Data<O>>) -> bool {
        let n = d.len() as int;
        let lo = cluster_of(pn);
        let hi = cluster_of(above(pn, n));
        &&& n < 8
        &&& in_world(above(pn, n))
        &&& forall|k: int| 0 <= k <= n ==> #[trigger] self.slab(above(pn, k)) is Empty
        &&& self.objects(lo).len() + objs_of(masked(pn, d, lo)).len() <= 0x1000
        &&& self.objects(hi).len() + objs_of(masked(pn, d, hi)).len() <= 0x1000
    }

    /// Whether `new` is this cluster after the column of tile `tile` and
    /// variant `variant` with data `d` was written at `pn`: the column's
    /// cells hold its slabs, reading a level back gives its datum, no other
    /// cell changed, and each chunk's storage gained the objects of the
    /// column's levels in it, in level order.
    pub open spec fn placed_as(
        self,
        new: Cluster<O, T>,
        pn: (int, int, int),
        tile: u16,
        variant: u8,
        d: Seq<Data<O>>,
    ) -> bool {
        &&& self.can_place(pn, d)
        &&& new.tile_set() == self.tile_set()
        &&& forall|k: int|
            0 <= k <= d.len() ==> #[trigger] new.slab(above(pn, k)) == self.placed_slab(
                pn,
                tile,
                variant,
                d,
                k,
            )
        &&& forall|k: int|
            1 <= k <= d.len() ==> #[trigger] new.datum(above(pn, k)) == read_back(d[k - 1])
        &&& forall|p: (int, int, int)|
            !in_column(pn, d.len() as int, p) ==> #[trigger] new.slab(p) == self.slab(p)
        &&& forall|c: (int, int, int)| #[trigger]
            new.objects(c) == self.objects(c) + objs_of(masked(pn, d, c))
    }

    /// An empty world whose tiles are `tile_set`.
    pub fn new(tile_set: Rc<TileSet<O, T>>) -> (r: Cluster<O, T>)
        requires
            tile_set.wf(),
        ensures
            forall|p: (int, int, int)| r.slab(p) == SlabView::Empty,
            forall|c: (int, int, int)| r.objects(c).len() == 0,
            r.tile_set() == *tile_set,
    {
        let map = ChunkMap::new();
        proof {
            reveal(ChunkMap::columns_ok);
        }
        Cluster { map, tile_set }
    }

    /// Whether the `height` cells from `pn` up are all empty.
    pub fn is_empty(&self, pn: Point, height: Height) -> (r: bool)
        ensures
            r == forall|k: int| 0 <= k < height@ ==> self.slab(above(pn@, k)) is Empty,
    {
        proof {
            use_type_invariant(self);
        }
        let h = height.get();
        let mut k: u8 = 0;
        while k < h
            invariant
                self.map.wf(),
                h == height@,
                k <= h <= 8,
                forall|j: int| 0 <= j < k ==> self.slab(above(pn@, j)) is Empty,
            decreases h - k,
        {
            match above_point(pn, k) {
                Some(q) => {
                    match self.map.get(q) {
                        Some(s) => {
                            if !s.is_empty() {
                                return false;
                            }
                        },
                        None => {},
                    }
                },
                None => {},
            }
            k += 1;
        }
        true
    }

    /// The base of the column that holds `pn`, that base's slab, and the
    /// level of `pn`; `None` exactly when the cell is empty.
    fn find_base(&self, pn: Point) -> (r: Option<(Point, crate::slab::Base, u8)>)
        ensures
            r is None <==> self.slab(pn@) is Empty,
            r matches Some((bp, base, level)) ==> {
                &&& bp@ == self.base_of(pn@)
                &&& level == self.level_of(pn@)
                &&& level < self.slab(bp@)->Base_height
                &&& self.slab(bp@) == base.spec_slab()
                &&& self.slab(bp@) is Base
            },
    {
        proof {
            use_type_invariant(self);
        }
        let s = match self.map.get(pn) {
            Some(s) => s,
            None => return None,
        };
        match s.typed() {
            Typed::Empty(_) => None,
            Typed::Base(base) => Some((pn, base, 0u8)),
            Typed::Trunk(trunk) => {
                let level = trunk.level();
                proof {
                    self.map.lemma_trunk_base(pn@);
                }
                let bp = match above_point_down(pn, level) {
                    Some(bp) => bp,
                    None => return None,
                };
                let bs = match self.map.get(bp) {
                    Some(bs) => bs,
                    None => return None,
                };
                match bs.typed() {
                    Typed::Base(base) => Some((bp, base, level)),
                    _ => None,
                }
            },
        }
    }

    /// The column that holds `pn`, with the level of `pn` in it; `None`
    /// exactly when the cell is empty.
    pub fn get(&self, pn: Point) -> (r: Option<(ClusterSlice<'_, O>, u8)>)
        ensures
            r is None <==> self.slab(pn@) is Empty,
            r matches Some((slice, level)) ==> {
                let q = self.base_of(pn@);
                &&& level == self.level_of(pn@)
                &&& level < slice.slabs().len()
                &&& self.slab(q) is Base
                &&& slice.wf()
                &&& slice.slabs().len() == self.slab(q)->Base_height
                &&& slice.slabs()[0] is Base
                &&& forall|k: int|
                    1 <= k < slice.slabs().len() ==> {
                        &&& (#[trigger] slice.slabs()[k]) is Trunk
                        &&& slice.slabs()[k]->Trunk_level == k
                        &&& slice.slabs()[k]->Trunk_tile == slice.slabs()[0]->Base_tile
                    }
                &&& forall|k: int|
                    0 <= k < slice.slabs().len() ==> {
                        &&& self.base_of(#[trigger] above(q, k)) == q
                        &&& self.level_of(above(q, k)) == k
                    }
                &&& slice.lower_len() + cell_of(q).1 <= 32
                &&& forall|k: int|
                    0 <= k < slice.slabs().len() ==> #[trigger] slice.slabs()[k] == self.slab(
                        above(q, k),
                    )
                &&& forall|k: int|
                    0 <= k < slice.slabs().len() ==> #[trigger] slice.datum(k) == self.datum(
                        above(q, k),
                    )
            },
    {
        proof {
            use_type_invariant(self);
        }
        let (bp, base, level) = match self.find_base(pn) {
            Some(x) => x,
            None => return None,
        };
        let h = base.height().get();
        let ghost q = bp@;
        proof {
            assert(above(q, 0) == q);
            assert forall|k: int| 0 <= k < h implies #[trigger] self.map.slab(above(bp@, k)) != SlabView::Empty by {
                if k > 0 {
                    self.map.lemma_base_column(q, k);
                }
            }
        }
        let (column, lo, up) = match self.map.column(bp, h) {
            Some(x) => x,
            None => return None,
        };
        proof {
            use_type_invariant(&bp);
            bp.lemma_parts();
        }
        let slice = ClusterSlice { column, chunks: (lo, up) };
        proof {
            assert forall|k: int| 0 <= k < h implies #[trigger] slice.slabs()[k] == self.slab(above(q, k))
                && slice.objects(k) == self.objects(cluster_of(above(q, k))) by {
                assert(slice.slabs()[k] == column.cells()[k]@);
            }
            assert forall|k: int| 0 <= k < h implies #[trigger] slice.datum(k) == self.datum(above(q, k)) by {
                assert(slice.slabs()[k] == self.slab(above(q, k)));
            }
            assert forall|k: int| 1 <= k < h implies (#[trigger] slice.slabs()[k]) is Trunk
                && slice.slabs()[k]->Trunk_level == k
                && slice.slabs()[k]->Trunk_tile == slice.slabs()[0]->Base_tile by {
                assert(slice.slabs()[k] == self.slab(above(q, k)));
                assert(slice.slabs()[0] == self.slab(above(q, 0)));
                self.map.lemma_base_column(q, k);
            }
            assert forall|k: int| 0 <= k < h && (#[trigger] slice.slabs()[k]) is Trunk
                && slice.slabs()[k]->Trunk_obj implies slice.slabs()[k]->Trunk_data < slice.objects(k).len() by {
                assert(slice.slabs()[k] == self.slab(above(q, k)));
                self.map.lemma_trunk_base(above(q, k));
            }
            assert(slice.slabs()[0] == self.slab(above(q, 0)));
            assert forall|k: int| 0 <= k < h implies self.base_of(#[trigger] above(q, k)) == q
                && self.level_of(above(q, k)) == k by {
                if k > 0 {
                    self.map.lemma_base_column(q, k);
                    assert(above(above(q, k), -k) == q);
                }
            }
        }
        Some((slice, level))
    }

    /// Places the column `layout` at `pn`: its base at `pn` and one trunk
    /// per datum above it, storing objects in the storage of the chunk of
    /// their level. `None`, changing nothing, unless the column can be placed.
    #[verifier::rlimit(50)]
    pub fn place_layout(&mut self, pn: Point, layout: &Layout<'_, O>) -> (r: Option<Placed>)
        ensures
            r is Some <==> old(self).can_place(pn@, layout.data@),
            r is None ==> *final(self) == *old(self),
            r matches Some(placed) ==> {
                &&& placed.variant == layout.variant
                &&& placed.height@ == layout.data@.len() + 1
                &&& old(self).placed_as(*final(self), pn@, layout.tile@, layout.variant.0, layout.data@)
            },
            ({
                let d = layout.data@;
                &&& d.len() <= 7
                &&& in_world(above(pn@, d.len() as int))
                &&& forall|k: int| 0 <= k <= d.len() ==> #[trigger] old(self).slab(above(pn@, k)) is Empty
                &&& forall|k: int|
                    0 <= k <= d.len() ==> #[trigger] old(self).objects(cluster_of(above(pn@, k))).len()
                        + objs_of(d).len() <= 0x1000
            }) ==> (r matches Some(placed) && placed.height@ == layout.data@.len() + 1),
    {
        proof {
            let d = layout.data@;
            if {
                &&& d.len() <= 7
                &&& in_world(above(pn@, d.len() as int))
                &&& forall|k: int| 0 <= k <= d.len() ==> #[trigger] self.slab(above(pn@, k)) is Empty
                &&& forall|k: int|
                    0 <= k <= d.len() ==> #[trigger] self.objects(cluster_of(above(pn@, k))).len()
                        + objs_of(d).len() <= 0x1000
            } {
                lemma_place_complete(*self, pn@, d);
            }
            use_type_invariant(&*self);
            use_type_invariant(&pn);
            pn.lemma_parts();
        }
        let ghost d = layout.data@;
        let ghost tile = layout.tile@;
        let ghost variant = layout.variant.0;
        let n = layout.data.len();
        if n >= 8 {
            return None;
        }
        let nu: u8 = n as u8;
        let height = match Height::new(nu + 1) {
            Some(h) => h,
            None => return None,
        };
        if !self.is_empty(pn, height) {
            return None;
        }
        let top = match above_point(pn, nu) {
            Some(t) => t,
            None => return None,
        };
        proof {
            use_type_invariant(&top);
            top.lemma_parts();
        }
        let lo = pn.cluster_point();
        let hi = top.cluster_point();
        let mut c_lo: usize = 0;
        let mut c_hi: usize = 0;
        let mut i: usize = 0;
        while i < n
            invariant
                i <= n < 8,
                n == d.len(),
                d == layout.data@,
                in_world(above(pn@, n as int)),
                in_world(pn@),
                lo@ == cluster_of(pn@),
                hi@ == cluster_of(above(pn@, n as int)),
                c_lo == objs_of(masked(pn@, d, lo@).subrange(0, i as int)).len(),
                c_hi == objs_of(masked(pn@, d, hi@).subrange(0, i as int)).len(),
                c_lo <= i,
                c_hi <= i,
            decreases n - i,
        {
            let q = match above_point(pn, (i + 1) as u8) {
                Some(q) => q,
                None => return None,
            };
            proof {
                use_type_invariant(&q);
                q.lemma_parts();
                lemma_objs_step(masked(pn@, d, lo@), i as int);
                lemma_objs_step(masked(pn@, d, hi@), i as int);
                ClusterPoint::lemma_view_eq(q.cluster_point(), lo);
                ClusterPoint::lemma_view_eq(q.cluster_point(), hi);
            }
            let is_obj = match &layout.data[i] {
                Data::Obj(_) => true,
                _ => false,
            };
            if is_obj {
                if q.cluster_point() == lo {
                    c_lo += 1;
                }
                if q.cluster_point() == hi {
                    c_hi += 1;
                }
            }
            i += 1;
        }
        proof {
            assert(masked(pn@, d, lo@).subrange(0, n as int) =~= masked(pn@, d, lo@));
            assert(masked(pn@, d, hi@).subrange(0, n as int) =~= masked(pn@, d, hi@));
        }
        let len_lo = self.map.objects_len(lo);
        let len_hi = self.map.objects_len(hi);
        if len_lo > 0x1000 || c_lo > 0x1000 - len_lo || len_hi > 0x1000 || c_hi > 0x1000 - len_hi {
            return None;
        }
        assert(old(self).can_place(pn@, d));
        let ghost oldc = *self;
        let mut map = ChunkMap::new();
        proof {
            reveal(ChunkMap::columns_ok);
        }
        std::mem::swap(&mut self.map, &mut map);
        let ghost old_map = map;
        map.ensure_chunk(lo);
        map.ensure_chunk(hi);
        let base = layout.base();
        map.set_slab(pn, Slab::from(base));
        let trunks = layout.trunks();
        let mut k: usize = 0;
        while k < n
            invariant
                k <= n < 8,
                n == d.len(),
                d == layout.data@,
                tile == layout.tile@,
                variant == layout.variant.0,
                oldc.inv(),
                oldc.can_place(pn@, d),
                old_map == oldc.map,
                in_world(above(pn@, n as int)),
                in_world(pn@),
                lo@ == cluster_of(pn@),
                hi@ == cluster_of(above(pn@, n as int)),
                map.wf(),
                map.has(lo@),
                map.has(hi@),
                trunks@.len() == n,
                forall|j: int|
                    #![trigger trunks@[j]]
                    0 <= j < n ==> {
                        &&& trunks@[j].0.spec_slab() == crate::layout::trunk_of(tile, j + 1, d[j])
                        &&& match d[j] {
                            Data::Obj(o) => trunks@[j].1 == Some(o),
                            _ => trunks@[j].1 is None,
                        }
                    },
                forall|j: int|
                    0 <= j <= k ==> #[trigger] map.slab(above(pn@, j)) == oldc.placed_slab(
                        pn@,
                        tile,
                        variant,
                        d,
                        j,
                    ),
                forall|p: (int, int, int)|
                    !in_column(pn@, k as int, p) ==> #[trigger] map.slab(p) == old_map.slab(p),
                forall|c: (int, int, int)| #[trigger]
                    map.objects(c) == old_map.objects(c) + objs_of(
                        masked(pn@, d, c).subrange(0, k as int),
                    ),
            decreases n - k,
        {
            let q = match above_point(pn, (k + 1) as u8) {
                Some(q) => q,
                None => {
                    assert(false);
                    return None;
                },
            };
            proof {
                use_type_invariant(&q);
                q.lemma_parts();
                crate::point::lemma_split_column(pn@, k + 1, n as int);
            }
            let ghost c = cluster_of(q@);
            let mut t = trunks[k].0;
            let ghost want = oldc.placed_slab(pn@, tile, variant, d, k + 1);
            assert(q@ == above(pn@, k + 1));
            match &trunks[k].1 {
                Some(o) => {
                    let ghost m = masked(pn@, d, c);
                    proof {
                        assert(m[k as int] == d[k as int]);
                        lemma_objs_step(m, k as int);
                        lemma_objs_prefix(m, k + 1, n as int);
                        assert(m.subrange(0, n as int) =~= m);
                    }
                    let idx = map.add_object(q.cluster_point(), o.clone());
                    proof {
                        let z = t.spec_slab()->Trunk_data;
                        assert(z == 0);
                        assert(0u16 | idx == idx) by (bit_vector);
                    }
                    t.set_data(idx);
                    assert(t.spec_slab() == want);
                },
                None => {
                    assert(t.spec_slab() == want);
                },
            }
            map.set_slab(q, Slab::from(t));
            proof {
                assert forall|cc: (int, int, int)| #[trigger]
                    map.objects(cc) == old_map.objects(cc) + objs_of(
                        masked(pn@, d, cc).subrange(0, k + 1),
                    ) by {
                    lemma_objs_step(masked(pn@, d, cc), k as int);
                }
                assert forall|p: (int, int, int)|
                    !in_column(pn@, k + 1, p) implies #[trigger] map.slab(p) == old_map.slab(p) by {
                    assert(!in_column(pn@, k as int, p));
                }
                assert forall|j: int|
                    0 <= j <= k + 1 implies #[trigger] map.slab(above(pn@, j)) == oldc.placed_slab(
                        pn@,
                        tile,
                        variant,
                        d,
                        j,
                    ) by {
                    if j <= k {
                        assert(above(pn@, j) != q@);
                    }
                }
            }
            k += 1;
        }
        proof {
            assert(masked(pn@, d, lo@).subrange(0, n as int) =~= masked(pn@, d, lo@));
            assert forall|c: (int, int, int)| #[trigger] map.objects(c) == old_map.objects(c) + objs_of(masked(pn@, d, c)) by {
                assert(masked(pn@, d, c).subrange(0, n as int) =~= masked(pn@, d, c));
            }
            Self::lemma_place_keeps_columns(oldc, map, pn@, tile, variant, d);
            assert forall|c: (int, int, int)| #[trigger] map.objects(c).len() <= 0x1000 by {
                if c != lo@ && c != hi@ {
                    let m = masked(pn@, d, c);
                    assert forall|i: int| 0 <= i < m.len() implies #[trigger] m[i] is Nothing by {
                        crate::point::lemma_split_column(pn@, i + 1, n as int);
                    }
                    lemma_no_objs(m);
                    assert(oldc.objects(c).len() <= 0x1000);
                }
            }
        }
        std::mem::swap(&mut self.map, &mut map);
        proof {
            assert forall|k: int| 1 <= k <= n implies #[trigger] self.datum(above(pn@, k)) == read_back(d[k - 1]) by {
                assert(self.slab(above(pn@, k)) == oldc.placed_slab(pn@, tile, variant, d, k));
                crate::point::lemma_split_column(pn@, k, n as int);
                let c = cluster_of(above(pn@, k));
                let m = masked(pn@, d, c);
                if d[k - 1] is Obj {
                    assert(m[k - 1] == d[k - 1]);
                    lemma_objs_step(m, k - 1);
                    lemma_objs_prefix(m, k, n as int);
                    assert(m.subrange(0, n as int) =~= m);
                }
            }
        }
        Some(Placed { variant: layout.variant, height })
    }

    /// The columns whose base lies in chunk `cl`, in cell order.
    pub fn tiles(&self, cl: ClusterPoint) -> (r: Option<Tiles<'_, O, T>>)
        ensures
            r matches Some(t) && t.cluster() == self && t.chunk() == cl && t.cursor() == 0,
    {
        Some(Tiles { cluster: self, points: ChunkPoints::new(), cl })
    }

    /// Places a tile of kind `tile_idx` at `pn`: the tile's own `height`
    /// and `place` give its height, variant and data, and that column is
    /// written as `place_layout` does. The tile must answer a height of 1 to
    /// 8 and, when those cells are free, data that fill the column above the
    /// base. `None`, changing nothing, when a cell of that height is taken
    /// or the column cannot be placed (it leaves the world, or a chunk's
    /// storage would pass 4096 objects).
    pub fn place(&mut self, pn: Point, tile_idx: TileIndex) -> (r: Option<Placed>)
        requires
            tile_idx@ < old(self).tile_set().len(),
            old(self).tile_set().tile(tile_idx@ as int) matches AnyTile::Base(t) ==> 1 <= t.spec_height() <= 8,
            old(self).tile_set().tile(tile_idx@ as int) matches AnyTile::Custom(t) ==> {
                &&& t.known()
                &&& t.placeable()
                &&& forall|h: u8| #[trigger] call_ensures(<T as Tile<O>>::height, (&t,), h) ==> 1 <= h <= 8
                &&& forall|h: u8, pl: Placement<'_, O>|
                    #[trigger] call_ensures(<T as Tile<O>>::height, (&t,), h) && #[trigger] call_ensures(
                        <T as Tile<O>>::place,
                        (&t, pn),
                        pl,
                    ) && (forall|k: int| 0 <= k < h ==> #[trigger] old(self).slab(above(pn@, k)) is Empty)
                        ==> pl.data@.len() + 1 == h
            },
        ensures
            r is None ==> *final(self) == *old(self),
            r matches Some(placed) ==> {
                &&& call_ensures(
                    <AnyTile<O, T> as Tile<O>>::height,
                    (&old(self).tile_set().tile(tile_idx@ as int),),
                    placed.height@,
                )
                &&& exists|pl: Placement<'_, O>|
                    {
                        &&& #[trigger] call_ensures(
                            <AnyTile<O, T> as Tile<O>>::place,
                            (&old(self).tile_set().tile(tile_idx@ as int), pn),
                            pl,
                        )
                        &&& placed.variant == pl.variant
                        &&& placed.height@ == pl.data@.len() + 1
                        &&& old(self).placed_as(*final(self), pn@, tile_idx@, pl.variant.0, pl.data@)
                    }
            },
            r is None ==> exists|h: u8|
                {
                    &&& #[trigger] call_ensures(
                        <AnyTile<O, T> as Tile<O>>::height,
                        (&old(self).tile_set().tile(tile_idx@ as int),),
                        h,
                    )
                    &&& {
                        ||| exists|k: int| 0 <= k < h && !(#[trigger] old(self).slab(above(pn@, k)) is Empty)
                        ||| exists|pl: Placement<'_, O>|
                            {
                                &&& #[trigger] call_ensures(
                                    <AnyTile<O, T> as Tile<O>>::place,
                                    (&old(self).tile_set().tile(tile_idx@ as int), pn),
                                    pl,
                                )
                                &&& pl.data@.len() + 1 == h
                                &&& !old(self).can_place(pn@, pl.data@)
                            }
                    }
                },
            old(self).tile_set().tile(tile_idx@ as int) matches AnyTile::Base(t) ==> {
                let h = t.spec_height() as int;
                let blanks = Seq::new((h - 1) as nat, |i: int| Data::<O>::Nothing);
                &&& r is Some <==> old(self).can_place(pn@, blanks)
                &&& r matches Some(placed) ==> {
                    &&& placed.variant == VariantIndex(0)
                    &&& placed.height@ == h
                    &&& old(self).placed_as(*final(self), pn@, tile_idx@, 0, blanks)
                }
                &&& (in_world(above(pn@, h - 1)) && forall|k: int|
                    0 <= k < h ==> #[trigger] old(self).slab(above(pn@, k)) is Empty) ==> r is Some
            },
    {
        proof {
            use_type_invariant(&*self);
            use_type_invariant(&tile_idx);
        }
        let tile_set = self.tile_set.clone();
        let tile = match tile_set.get(tile_idx) {
            Some(t) => t,
            None => return None,
        };
        proof {
            tile_set.lemma_filler(tile_idx@ as int);
        }
        let height_fn = <AnyTile<O, T> as Tile<O>>::height;
        let h = height_fn(tile);
        let height = match Height::new(h) {
            Some(height) => height,
            None => return None,
        };
        if !self.is_empty(pn, height) {
            return None;
        }
        let place_fn = <AnyTile<O, T> as Tile<O>>::place;
        let placement = place_fn(tile, pn);
        if placement.data.len() != (h - 1) as usize {
            return None;
        }
        proof {
            if tile is Base {
                let t = tile->Base_0;
                let blanks = Seq::new((t.spec_height() - 1) as nat, |i: int| Data::<O>::Nothing);
                assert(placement.data@ =~= blanks);
                lemma_no_objs(blanks);
                if in_world(above(pn@, t.spec_height() - 1)) {
                    assert forall|k: int| 0 <= k <= blanks.len() implies #[trigger] self.objects(
                        cluster_of(above(pn@, k)),
                    ).len() + objs_of(blanks).len() <= 0x1000 by {
                        assert(self.map.objects(cluster_of(above(pn@, k))).len() <= 0x1000);
                    }
                    lemma_place_complete(*self, pn@, blanks);
                }
            }
        }
        let layout = Layout { tile: tile_idx, variant: placement.variant, data: placement.data };
        let r = self.place_layout(pn, &layout);
        proof {
            if r is Some {
                assert(old(self).placed_as(*self, pn@, tile_idx@, r->0.variant.0, layout.data@));
            }
        }
        r
    }

    /// Writing a column over empty cells, with its objects appended to
    /// the storages, keeps every column whole.
    proof fn lemma_place_keeps_columns(
        oldc: Cluster<O, T>,
        new: ChunkMap<O>,
        pn: (int, int, int),
        tile: u16,
        variant: u8,
        d: Seq<Data<O>>,
    )
        requires
            oldc.inv(),
            oldc.can_place(pn, d),
            in_world(pn),
            new.wf(),
            forall|k: int|
                0 <= k <= d.len() ==> #[trigger] new.slab(above(pn, k)) == oldc.placed_slab(
                    pn,
                    tile,
                    variant,
                    d,
                    k,
                ),
            forall|p: (int, int, int)|
                !in_column(pn, d.len() as int, p) ==> #[trigger] new.slab(p) == oldc.map.slab(p),
            forall|c: (int, int, int)|
                #[trigger] new.objects(c) == oldc.map.objects(c) + objs_of(masked(pn, d, c)),
        ensures
            new.columns_ok(),
    {
        reveal(ChunkMap::columns_ok);
        assert forall|p: (int, int, int)| #[trigger] new.slab(p) != SlabView::Empty implies new.column_ok(p) by {
            if in_column(pn, d.len() as int, p) {
                Self::lemma_placed_cell_ok(oldc, new, pn, tile, variant, d, p);
            } else {
                Self::lemma_kept_cell_ok(oldc, new, pn, tile, variant, d, p);
            }
        }
    }

    /// A cell of the written column is part of a whole column.
    proof fn lemma_placed_cell_ok(
        oldc: Cluster<O, T>,
        new: ChunkMap<O>,
        pn: (int, int, int),
        tile: u16,
        variant: u8,
        d: Seq<Data<O>>,
        p: (int, int, int),
    )
        requires
            oldc.inv(),
            oldc.can_place(pn, d),
            in_world(pn),
            new.wf(),
            forall|k: int|
                0 <= k <= d.len() ==> #[trigger] new.slab(above(pn, k)) == oldc.placed_slab(
                    pn,
                    tile,
                    variant,
                    d,
                    k,
                ),
            forall|p: (int, int, int)|
                !in_column(pn, d.len() as int, p) ==> #[trigger] new.slab(p) == oldc.map.slab(p),
            forall|c: (int, int, int)|
                #[trigger] new.objects(c) == oldc.map.objects(c) + objs_of(masked(pn, d, c)),
            in_column(pn, d.len() as int, p),
        ensures
            new.column_ok(p),
    {
        let old = oldc.map;
        let n = d.len() as int;
        let k = p.1 - pn.1;
        assert(p == above(pn, k));
        if k == 0 {
            assert forall|j: int| 1 <= j < n + 1 implies {
                &&& in_world(#[trigger] above(p, j))
                &&& new.slab(above(p, j)) is Trunk
                &&& new.slab(above(p, j))->Trunk_tile == tile
                &&& new.slab(above(p, j))->Trunk_level == j
            } by {
                assert(above(p, j) == above(pn, j));
                assert(new.slab(above(pn, j)) == oldc.placed_slab(pn, tile, variant, d, j));
            }
            assert(new.slab(above(pn, 0)) == oldc.placed_slab(pn, tile, variant, d, 0));
        } else {
            assert(above(p, -k) == above(pn, 0));
            assert(new.slab(above(pn, 0)) == oldc.placed_slab(pn, tile, variant, d, 0));
            assert(new.slab(above(pn, k)) == oldc.placed_slab(pn, tile, variant, d, k));
            let c = cluster_of(p);
            if d[k - 1] is Obj {
                let m = masked(pn, d, c);
                assert(m[k - 1] == d[k - 1]);
                lemma_objs_step(m, k - 1);
                lemma_objs_prefix(m, k, n);
                assert(m.subrange(0, n) =~= m);
                assert(oldc.objects(c) == old.objects(c));
                crate::point::lemma_split_column(pn, k, n);
                assert(new.objects(c) == old.objects(c) + objs_of(m));
            }
        }
    }

    /// A cell outside the written column keeps its whole column.
    proof fn lemma_kept_cell_ok(
        oldc: Cluster<O, T>,
        new: ChunkMap<O>,
        pn: (int, int, int),
        tile: u16,
        variant: u8,
        d: Seq<Data<O>>,
        p: (int, int, int),
    )
        requires
            oldc.inv(),
            oldc.can_place(pn, d),
            in_world(pn),
            new.wf(),
            forall|k: int|
                0 <= k <= d.len() ==> #[trigger] new.slab(above(pn, k)) == oldc.placed_slab(
                    pn,
                    tile,
                    variant,
                    d,
                    k,
                ),
            forall|p: (int, int, int)|
                !in_column(pn, d.len() as int, p) ==> #[trigger] new.slab(p) == oldc.map.slab(p),
            forall|c: (int, int, int)|
                #[trigger] new.objects(c) == oldc.map.objects(c) + objs_of(masked(pn, d, c)),
            !in_column(pn, d.len() as int, p),
            new.slab(p) != SlabView::Empty,
        ensures
            new.column_ok(p),
    {
        let old = oldc.map;
        let n = d.len() as int;
        assert(old.slab(p) == new.slab(p));
        old.lemma_column_any(p);
        match old.slab(p) {
            SlabView::Base { tile: bt, height: bh, .. } => {
                assert forall|j: int| 1 <= j < bh implies {
                    &&& in_world(#[trigger] above(p, j))
                    &&& new.slab(above(p, j)) is Trunk
                    &&& new.slab(above(p, j))->Trunk_tile == bt
                    &&& new.slab(above(p, j))->Trunk_level == j
                } by {
                    old.lemma_base_column(p, j);
                    if in_column(pn, n, above(p, j)) {
                        let kk = above(p, j).1 - pn.1;
                        assert(above(p, j) == above(pn, kk));
                        assert(oldc.slab(above(pn, kk)) is Empty);
                    } else {
                        assert(new.slab(above(p, j)) == old.slab(above(p, j)));
                    }
                }
            },
            SlabView::Trunk { level, obj, data, .. } => {
                old.lemma_trunk_base(p);
                if in_column(pn, n, above(p, -(level as int))) {
                    let kk = above(p, -(level as int)).1 - pn.1;
                    assert(above(p, -(level as int)) == above(pn, kk));
                    assert(oldc.slab(above(pn, kk)) is Empty);
                }
                assert(new.objects(cluster_of(p)) == old.objects(cluster_of(p)) + objs_of(
                    masked(pn, d, cluster_of(p)),
                ));
            },
            SlabView::Empty => {},
        }
    }
}

/// The cell `k` above `pn`; `None` when it lies above the world.
fn above_point(pn: Point, k: u8) -> (r: Option<Point>)
    requires
        k < 32,
    ensures
        r is Some <==> in_world(above(pn@, k as int)),
        r matches Some(q) ==> q@ == above(pn@, k as int),
{
    proof {
        use_type_invariant(&pn);
        pn.lemma_parts();
        lemma_above(pn, k as int);
    }
    let cl = pn.cluster_point();
    match pn.chunk_point().to(Side::Up, k) {
        Ok(c) => Some(Point::new(c, cl)),
        Err(c) => match cl.to(Side::Up) {
            Some(up) => Some(Point::new(c, up)),
            None => None,
        },
    }
}

/// The cell `k` below `pn`; `None` when it lies below the world.
fn above_point_down(pn: Point, k: u8) -> (r: Option<Point>)
    requires
        k < 32,
    ensures
        r is Some <==> in_world(above(pn@, -k)),
        r matches Some(q) ==> q@ == above(pn@, -k),
{
    proof {
        use_type_invariant(&pn);
        pn.lemma_parts();
        lemma_above(pn, -k);
    }
    let cl = pn.cluster_point();
    match pn.chunk_point().to(Side::Down, k) {
        Ok(c) => Some(Point::new(c, cl)),
        Err(c) => match cl.to(Side::Down) {
            Some(dw) => Some(Point::new(c, dw)),
            None => None,
        },
    }
}

/// What is placed is read back: after a column with data `d` was placed
/// at `pn`, the cell `k` cells up is level `k` of a column whose base is at
/// `pn` and holds the tile, the variant and the height placed, and reading
/// level `k >= 1` gives back what was placed there.
pub proof fn lemma_read_after_place<O, T: Tile<O>>(
    old: Cluster<O, T>,
    new: Cluster<O, T>,
    pn: (int, int, int),
    tile: u16,
    variant: u8,
    d: Seq<Data<O>>,
    k: int,
)
    requires
        old.placed_as(new, pn, tile, variant, d),
        0 <= k <= d.len(),
    ensures
        new.slab(above(pn, k)) != SlabView::Empty,
        new.base_of(above(pn, k)) == pn,
        new.level_of(above(pn, k)) == k,
        new.slab(pn) == (SlabView::Base { tile, variant, height: (d.len() + 1) as u8 }),
        1 <= k ==> new.datum(above(pn, k)) == read_back(d[k - 1]),
{
    assert(new.slab(above(pn, 0)) == old.placed_slab(pn, tile, variant, d, 0));
    assert(above(pn, 0) == pn);
    assert(new.slab(above(pn, k)) == old.placed_slab(pn, tile, variant, d, k));
    if k > 0 {
        assert(above(above(pn, k), -k) == pn);
    }
}

/// A placed column occupies its place: placing any column there again
/// is refused.
pub proof fn lemma_place_occupies<O, T: Tile<O>>(
    old: Cluster<O, T>,
    new: Cluster<O, T>,
    pn: (int, int, int),
    tile: u16,
    variant: u8,
    d: Seq<Data<O>>,
    d2: Seq<Data<O>>,
)
    requires
        old.placed_as(new, pn, tile, variant, d),
    ensures
        !new.can_place(pn, d2),
{
    assert(new.slab(above(pn, 0)) == old.placed_slab(pn, tile, variant, d, 0));
    assert(above(pn, 0) == pn);
}

/// Every column that fits is placed: a column of at most 8 cells (at most
/// 7 data above its base) whose cells lie in the world and are empty, and
/// whose objects all fit beside those already stored in each chunk it
/// reaches, can be placed, so `place_layout` answers `Some` for it.
pub proof fn lemma_place_complete<O, T: Tile<O>>(c: Cluster<O, T>, pn: (int, int, int), d: Seq<Data<O>>)
    requires
        d.len() <= 7,
        in_world(above(pn, d.len() as int)),
        forall|k: int| 0 <= k <= d.len() ==> #[trigger] c.slab(above(pn, k)) is Empty,
        forall|k: int|
            0 <= k <= d.len() ==> #[trigger] c.objects(cluster_of(above(pn, k))).len() + objs_of(d).len()
                <= 0x1000,
    ensures
        c.can_place(pn, d),
{
    let n = d.len() as int;
    lemma_masked_objs_le(pn, d, cluster_of(pn));
    lemma_masked_objs_le(pn, d, cluster_of(above(pn, n)));
    assert(above(pn, 0) == pn);
    assert(c.objects(cluster_of(above(pn, 0))).len() + objs_of(d).len() <= 0x1000);
    assert(c.objects(cluster_of(above(pn, n))).len() + objs_of(d).len() <= 0x1000);
}

/// A placed column takes every cell it covers: after a column with data
/// `d` was placed at `pn`, any `n` cells from `q` up that reach one of its
/// cells are not all empty, so `is_empty(q, n)` answers `false`.
pub proof fn lemma_placed_cells_taken<O, T: Tile<O>>(
    old: Cluster<O, T>,
    new: Cluster<O, T>,
    pn: (int, int, int),
    tile: u16,
    variant: u8,
    d: Seq<Data<O>>,
    q: (int, int, int),
    n: int,
    j: int,
)
    requires
        old.placed_as(new, pn, tile, variant, d),
        0 <= j < n,
        in_column(pn, d.len() as int, above(q, j)),
    ensures
        !(forall|k: int| 0 <= k < n ==> #[trigger] new.slab(above(q, k)) is Empty),
{
    let k = above(q, j).1 - pn.1;
    assert(above(pn, k) == above(q, j));
    assert(new.slab(above(pn, k)) == old.placed_slab(pn, tile, variant, d, k));
}

/// The columns whose base lies in one chunk, in cell order.
#[verifier::reject_recursive_types(O)]
pub struct Tiles<'a, O, T: Tile<O>> {
    cluster: &'a Cluster<O, T>,
    points: ChunkPoints,
    cl: ClusterPoint,
}

impl<'a, O, T: Tile<O>> Tiles<'a, O, T> {
    /// The cluster read.
    pub closed spec fn cluster(self) -> &'a Cluster<O, T> {
        self.cluster
    }

    /// The chunk walked.
    pub closed spec fn chunk(self) -> ClusterPoint {
        self.cl
    }

    /// The offset of the next cell to look at.
    pub closed spec fn cursor(self) -> int {
        self.points.cursor()
    }

    /// Whether `after` is this walk after one call of `next` that gave
    /// `r`: the next column whose base lies in the chunk at or after the
    /// cursor, with the position of its base, the cells passed over holding
    /// no base; or `None` when no base is left.
    pub open spec fn steps_to(self, after: Self, r: Option<(ClusterSlice<'a, O>, Point)>) -> bool {
        let c = self.cluster();
        &&& after.cluster() == c
        &&& after.chunk() == self.chunk()
        &&& self.cursor() <= after.cursor()
        &&& r is None ==> forall|j: int|
            self.cursor() <= j < 32768 ==> !(#[trigger] c.slab(point_of(self.chunk()@, j)) is Base)
        &&& r matches Some((slice, gl)) ==> {
            let i = cell_index(gl.chunk_point()@);
            &&& gl.cluster_point() == self.chunk()
            &&& gl@ == point_of(self.chunk()@, i)
            &&& self.cursor() <= i < after.cursor()
            &&& c.slab(gl@) is Base
            &&& slice.wf()
            &&& slice.slabs().len() == c.slab(gl@)->Base_height
            &&& forall|k: int|
                0 <= k < slice.slabs().len() ==> #[trigger] slice.slabs()[k] == c.slab(above(gl@, k))
            &&& forall|k: int|
                0 <= k < slice.slabs().len() ==> #[trigger] slice.datum(k) == c.datum(above(gl@, k))
            &&& forall|j: int|
                self.cursor() <= j < after.cursor() && j != i ==> !(#[trigger] c.slab(
                    point_of(self.chunk()@, j),
                ) is Base)
        }
    }

    /// The next column whose base lies in the chunk at or after the
    /// cursor, with the position of its base; `None` when no base is left.
    pub fn next(&mut self) -> (r: Option<(ClusterSlice<'a, O>, Point)>)
        requires
            0 <= old(self).cursor(),
        ensures
            old(self).steps_to(*final(self), r),
    {
        let ghost start = self.points.cursor();
        let ghost cl = self.cl@;
        loop
            invariant
                self.cluster == old(self).cluster,
                self.cl == old(self).cl,
                cl == self.cl@,
                start == old(self).cursor(),
                start <= self.points.cursor(),
                forall|j: int|
                    start <= j < self.points.cursor() ==> !(#[trigger] self.cluster.slab(point_of(cl, j)) is Base),
            decreases 32768 - self.points.cursor(),
        {
            let ghost i = self.points.cursor();
            let ch = match self.points.next() {
                Some(ch) => ch,
                None => return None,
            };
            let gl = Point::new(ch, self.cl);
            proof {
                use_type_invariant(&gl);
                use_type_invariant(&ch);
                crate::point::lemma_cell_at(ch@, 0);
                assert(gl@ == point_of(cl, i));
            }
            match self.cluster.get(gl) {
                Some((slice, level)) => {
                    if level == 0 {
                        let n = slice.column.0.len();
                        let mut j: usize = 1;
                        while j < n
                            invariant
                                self.cluster == old(self).cluster,
                                self.cl == old(self).cl,
                                1 <= j <= n,
                                n == slice.lower_len(),
                                n + ch@.1 <= 32,
                                i == cell_index(ch@),
                                0 <= ch@.0 < 32 && 0 <= ch@.1 < 32 && 0 <= ch@.2 < 32,
                                gl@ == point_of(cl, i),
                                slice.wf(),
                                self.points.cursor() == i + j,
                                forall|k: int|
                                    0 <= k < slice.slabs().len() ==> #[trigger] slice.slabs()[k]
                                        == self.cluster.slab(above(gl@, k)),
                                forall|jj: int|
                                    start <= jj < self.points.cursor() && jj != i ==> !(
                                    #[trigger] self.cluster.slab(point_of(cl, jj)) is Base),
                            decreases n - j,
                        {
                            proof {
                                crate::point::lemma_cell_at(ch@, j as int);
                                crate::point::lemma_cell_at(ch@, 0);
                                assert(point_of(cl, i + j) == above(gl@, j as int));
                                assert(slice.slabs()[j as int] is Trunk);
                            }
                            self.points.next();
                            j += 1;
                        }
                        return Some((slice, gl));
                    }
                },
                None => {},
            }
        }
    }
}

/// Whether step `i` of a walk handed out the column whose base is cell `j`
/// of the chunk `ch`.
pub open spec fn hands_out<'a, O>(
    results: Seq<Option<(ClusterSlice<'a, O>, Point)>>,
    ch: (int, int, int),
    i: int,
    j: int,
) -> bool {
    results[i] matches Some((_slice, gl)) && gl@ == point_of(ch, j)
}

/// The base of the column that step `i` of a walk handed out.
pub open spec fn handed_point<'a, O>(results: Seq<Option<(ClusterSlice<'a, O>, Point)>>, i: int) -> Point {
    match results[i] {
        Some((_slice, gl)) => gl,
        None => arbitrary(),
    }
}

/// The cell of the chunk whose column step `i` of a walk handed out.
pub open spec fn handed_cell<'a, O>(results: Seq<Option<(ClusterSlice<'a, O>, Point)>>, i: int) -> int {
    cell_index(handed_point(results, i).chunk_point()@)
}

/// Whether `states` and `results` are a walk: each state is the one before
/// after a call of `next` that gave the result between them.
pub open spec fn is_walk<'a, O, T: Tile<O>>(
    states: Seq<Tiles<'a, O, T>>,
    results: Seq<Option<(ClusterSlice<'a, O>, Point)>>,
) -> bool {
    &&& states.len() == results.len() + 1
    &&& forall|k: int| 0 <= k < results.len() ==> #[trigger] states[k].steps_to(states[k + 1], results[k])
}

/// Along a walk from the first cell, the cluster and chunk stay, the
/// cursor only moves on, and every base cell passed lies in a column that
/// an earlier step handed out.
proof fn lemma_walk_prefix<'a, O, T: Tile<O>>(
    states: Seq<Tiles<'a, O, T>>,
    results: Seq<Option<(ClusterSlice<'a, O>, Point)>>,
    k: int,
)
    requires
        is_walk(states, results),
        states[0].cursor() == 0,
        0 <= k < states.len(),
    ensures
        states[k].cluster() == states[0].cluster(),
        states[k].chunk() == states[0].chunk(),
        0 <= states[k].cursor(),
        forall|i: int| 0 <= i <= k ==> states[i].cursor() <= #[trigger] states[k].cursor(),
        forall|j: int|
            0 <= j < states[k].cursor() && j < 32768 && #[trigger] states[0].cluster().slab(
                point_of(states[0].chunk()@, j),
            ) is Base ==> exists|i: int| 0 <= i < k && #[trigger] hands_out(results, states[0].chunk()@, i, j),
    decreases k,
{
    if k > 0 {
        lemma_walk_prefix(states, results, k - 1);
        assert(states[k - 1].steps_to(states[(k - 1) + 1], results[k - 1]));
        let ch = states[0].chunk()@;
        let c = states[0].cluster();
        assert forall|j: int|
            0 <= j < states[k].cursor() && j < 32768 && #[trigger] c.slab(point_of(ch, j))
                is Base implies exists|i: int| 0 <= i < k && #[trigger] hands_out(results, ch, i, j) by {
            if j < states[k - 1].cursor() {
                let i = choose|i: int| 0 <= i < k - 1 && #[trigger] hands_out(results, ch, i, j);
                assert(hands_out(results, ch, i, j));
            } else {
                assert(hands_out(results, ch, k - 1, j));
            }
        }
    }
}

/// A walk of a chunk's columns from its first cell hands out each column
/// whose base lies in the chunk once, in cell order: every column handed
/// out has its base in the chunk, the bases come in increasing cell order,
/// every base passed was handed out, and the walk answers `None` only once
/// every base of the chunk was handed out.
pub proof fn lemma_walk<'a, O, T: Tile<O>>(
    states: Seq<Tiles<'a, O, T>>,
    results: Seq<Option<(ClusterSlice<'a, O>, Point)>>,
)
    requires
        is_walk(states, results),
        states[0].cursor() == 0,
    ensures
        forall|i: int|
            0 <= i < results.len() && #[trigger] results[i] is Some ==> {
                let gl = handed_point(results, i);
                &&& gl.cluster_point() == states[0].chunk()
                &&& gl@ == point_of(states[0].chunk()@, handed_cell(results, i))
                &&& states[0].cluster().slab(gl@) is Base
            },
        forall|i: int, k: int|
            0 <= i < k < results.len() && #[trigger] results[i] is Some && #[trigger] results[k] is Some
                ==> handed_cell(results, i) < handed_cell(results, k),
        forall|j: int|
            0 <= j < states.last().cursor() && j < 32768 && #[trigger] states[0].cluster().slab(
                point_of(states[0].chunk()@, j),
            ) is Base ==> exists|i: int| 0 <= i < results.len() && #[trigger] hands_out(results, states[0].chunk()@, i, j),
        forall|i: int, j: int|
            0 <= i < results.len() && #[trigger] results[i] is None && 0 <= j < 32768 && #[trigger] states[0].cluster().slab(
                point_of(states[0].chunk()@, j),
            ) is Base ==> exists|i2: int| 0 <= i2 < i && #[trigger] hands_out(results, states[0].chunk()@, i2, j),
{
    let n = results.len() as int;
    let ch = states[0].chunk()@;
    let c = states[0].cluster();
    lemma_walk_prefix(states, results, n);
    assert forall|i: int| 0 <= i < results.len() && #[trigger] results[i] is Some implies {
        let gl = handed_point(results, i);
        &&& gl.cluster_point() == states[0].chunk()
        &&& gl@ == point_of(states[0].chunk()@, handed_cell(results, i))
        &&& states[0].cluster().slab(gl@) is Base
    } by {
        lemma_walk_prefix(states, results, i);
        assert(states[i].steps_to(states[i + 1], results[i]));
    }
    assert forall|i: int, k: int|
        0 <= i < k < results.len() && #[trigger] results[i] is Some && #[trigger] results[k] is Some
            implies handed_cell(results, i) < handed_cell(results, k) by {
        lemma_walk_prefix(states, results, k);
        assert(states[i].steps_to(states[i + 1], results[i]));
        assert(states[k].steps_to(states[k + 1], results[k]));
        assert(states[i + 1].cursor() <= states[k].cursor());
    }
    assert forall|i: int, j: int|
        0 <= i < results.len() && #[trigger] results[i] is None && 0 <= j < 32768 && #[trigger] c.slab(
            point_of(ch, j),
        ) is Base implies exists|i2: int| 0 <= i2 < i && #[trigger] hands_out(results, ch, i2, j) by {
        lemma_walk_prefix(states, results, i);
        assert(states[i].steps_to(states[i + 1], results[i]));
    }
}

} // verus!

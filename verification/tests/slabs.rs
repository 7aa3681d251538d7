use server::layout::{Data, Layout, Num};
use server::point::{ChunkPoint, Point};
use server::prelude::{Height, TileIndex, VariantIndex};
use server::slab::{Base, Empty, Slab, Trunk, Typed};
use std::rc::Rc;

#[test]
fn base_round_trip() {
    let tile = TileIndex::new(513).unwrap();
    let base = Base::new(tile, VariantIndex(200), Height::new(8).unwrap());
    assert_eq!(base.tile(), tile);
    assert_eq!(base.variant(), VariantIndex(200));
    assert_eq!(base.height().get(), 8);
    let slab = Slab::from(base);
    assert!(!slab.is_empty());
    match slab.typed() {
        Typed::Base(b) => {
            assert_eq!(b.tile(), tile);
            assert_eq!(b.variant(), VariantIndex(200));
            assert_eq!(b.height().get(), 8);
        }
        _ => panic!("expected a base"),
    }
}

#[test]
fn trunk_round_trip() {
    let tile = TileIndex::new(7).unwrap();
    let trunk = Trunk::new(tile, 0xfff, true, 7);
    assert!(trunk.is_obj());
    assert_eq!(trunk.data(), 0xfff);
    assert_eq!(trunk.level(), 7);
    let plain = Trunk::new(tile, 5, false, 1);
    assert!(!plain.is_obj());
    assert_eq!(plain.data(), 5);
    assert_eq!(plain.level(), 1);
    match Slab::from(plain).typed() {
        Typed::Trunk(t) => {
            assert_eq!(t.data(), 5);
            assert_eq!(t.level(), 1);
            assert!(!t.is_obj());
        }
        _ => panic!("expected a trunk"),
    }
}

#[test]
fn set_data_ors_the_bits() {
    let tile = TileIndex::new(1).unwrap();
    let mut trunk = Trunk::new(tile, 0, true, 3);
    trunk.set_data(42);
    assert_eq!(trunk.data(), 42);
    assert!(trunk.is_obj());
    assert_eq!(trunk.level(), 3);
    trunk.set_data(1);
    assert_eq!(trunk.data(), 43);
}

#[test]
fn empty_slab() {
    let slab = Slab::from(Empty);
    assert!(slab.is_empty());
    assert!(matches!(slab.typed(), Typed::Empty(_)));
}

#[test]
fn index_types_reject_out_of_range() {
    assert!(TileIndex::new(0).is_none());
    assert_eq!(TileIndex::new(65535).unwrap().get(), 65535);
    assert!(Height::new(0).is_none());
    assert!(Height::new(9).is_none());
    assert_eq!(Height::new(1).unwrap().get(), 1);
    assert!(Num::new(4096).is_none());
    assert_eq!(Num::new(4095).unwrap().get(), 4095);
}

#[test]
fn data_accessors() {
    assert_eq!(Data::<u8>::Num(Num::new(9).unwrap()).as_num().get(), 9);
    assert_eq!(*Data::Obj(Rc::new(3u8)).as_obj(), 3);
}

#[test]
fn layout_height_base_and_trunks() {
    let tile = TileIndex::new(4).unwrap();
    let data = [Data::Nothing, Data::Num(Num::new(6).unwrap()), Data::Obj(Rc::new(1u8))];
    let layout = Layout {
        tile,
        variant: VariantIndex(2),
        data: &data,
    };
    assert_eq!(layout.height(), 4);
    let base = layout.base();
    assert_eq!(base.height().get(), 4);
    assert_eq!(base.variant(), VariantIndex(2));
    let trunks = layout.trunks();
    assert_eq!(trunks.len(), 3);
    assert_eq!(trunks[0].0.level(), 1);
    assert_eq!(trunks[0].0.data(), 0);
    assert!(trunks[0].1.is_none());
    assert_eq!(trunks[1].0.data(), 6);
    assert!(!trunks[1].0.is_obj());
    assert!(trunks[2].0.is_obj());
    assert_eq!(**trunks[2].1.as_ref().unwrap(), 1);
    assert_eq!(trunks[2].0.level(), 3);
}

#[test]
fn points_split_into_chunk_and_cell() {
    let p = Point::from_absolute(-1, 33, 64).unwrap();
    assert_eq!(p.chunk_point(), ChunkPoint::new(31, 1, 0).unwrap());
    assert!(Point::from_absolute(0, -1, 0).is_none());
    assert!(Point::from_absolute(0, 512, 0).is_none());
    assert!(Point::from_absolute(0, 511, 0).is_some());
    assert!(ChunkPoint::new(32, 0, 0).is_none());
}

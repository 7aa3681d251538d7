use server::cluster::Cluster;
use server::layout::{Data, Layout, Num};
use server::point::Point;
use server::prelude::{Height, TileIndex, VariantIndex};
use server::tile::{Placement, Tile, TileInfo, TileSet};
use std::rc::Rc;

struct TestTile {
    data: &'static [Data<i32>],
}

impl Tile<i32> for TestTile {
    fn height(&self) -> u8 {
        4
    }

    fn variants(&self) -> &[&'static str] {
        unreachable!()
    }

    fn place(&self, _: Point) -> Placement<'_, i32> {
        Placement {
            variant: VariantIndex(0),
            data: self.data,
        }
    }
}

fn cluster() -> (Cluster<i32, TestTile>, TileIndex) {
    let mut tile_set = TileSet::new(&[]);
    let index = tile_set.add(
        "test",
        TestTile {
            data: Box::leak(Box::new([
                Data::Nothing,
                Data::Num(Num::new(2).unwrap()),
                Data::Obj(Rc::new(2)),
            ])),
        },
    );
    (Cluster::new(Rc::new(tile_set)), index)
}

#[test]
fn place() {
    let (mut cluster, index) = cluster();
    let point = Point::from_absolute(0, 0, 0).unwrap();
    cluster.place(point, index);

    let (slice, level) = cluster.get(point).unwrap();
    assert_eq!(slice.column.len(), 4);
    assert_eq!(slice.index(), (index, VariantIndex(0)));
    assert_eq!(level, 0);

    let point = Point::from_absolute(0, 31, 0).unwrap();
    cluster.place(point, index);

    let (slice, level) = cluster.get(point).unwrap();
    assert_eq!(slice.column.len(), 4);
    assert_eq!(slice.index(), (index, VariantIndex(0)));
    assert_eq!(level, 0);
}

#[test]
fn get() {
    let (mut cluster, index) = cluster();
    cluster.place(Point::from_absolute(0, 0, 0).unwrap(), index);

    for i in 0..4 {
        let (slice, level) = cluster.get(Point::from_absolute(0, i, 0).unwrap()).unwrap();
        assert_eq!(slice.column.len(), 4);
        assert_eq!(slice.index(), (index, VariantIndex(0)));
        assert_eq!(level, i as u8);
    }

    assert!(cluster
        .get(Point::from_absolute(1, 0, 0).unwrap())
        .is_none());
}

#[test]
fn data() {
    let (mut cluster, index) = cluster();
    let point = Point::from_absolute(0, 0, 0).unwrap();
    cluster.place(point, index);

    let (slice, _) = cluster.get(point).unwrap();
    assert_eq!(slice.column.len(), 4);
    assert!(matches!(slice.data(0), Data::Nothing));
    assert_eq!(slice.data(1).as_num().get(), 0);
    assert_eq!(slice.data(2).as_num().get(), 2);
    assert_eq!(*slice.data(3).as_obj(), 2);
}

#[test]
fn place_reports_variant_and_height() {
    let (mut cluster, index) = cluster();
    let point = Point::from_absolute(5, 7, -3).unwrap();
    let placed = cluster.place(point, index).unwrap();
    assert_eq!(placed.variant, VariantIndex(0));
    assert_eq!(placed.height.get(), 4);
}

#[test]
fn place_on_occupied_cell_is_refused() {
    let (mut cluster, index) = cluster();
    let point = Point::from_absolute(0, 0, 0).unwrap();
    assert!(cluster.place(point, index).is_some());
    assert!(cluster.place(point, index).is_none());
    let above = Point::from_absolute(0, 2, 0).unwrap();
    assert!(cluster.place(above, index).is_none());
    let beside = Point::from_absolute(0, 4, 0).unwrap();
    assert!(cluster.place(beside, index).is_some());
}

#[test]
fn place_above_the_world_is_refused() {
    let (mut cluster, index) = cluster();
    let top = Point::from_absolute(0, 510, 0).unwrap();
    assert!(cluster.place(top, index).is_none());
    assert!(cluster.get(top).is_none());
    let fits = Point::from_absolute(0, 508, 0).unwrap();
    assert!(cluster.place(fits, index).is_some());
}

#[test]
fn is_empty_sees_placed_columns() {
    let (mut cluster, index) = cluster();
    let point = Point::from_absolute(-40, 60, 70).unwrap();
    let h4 = Height::new(4).unwrap();
    assert!(cluster.is_empty(point, h4));
    cluster.place(point, index);
    assert!(!cluster.is_empty(point, h4));
    let below = Point::from_absolute(-40, 57, 70).unwrap();
    assert!(cluster.is_empty(below, Height::new(3).unwrap()));
    assert!(!cluster.is_empty(below, h4));
}

#[test]
fn data_of_a_column_crossing_chunks() {
    let (mut cluster, index) = cluster();
    let point = Point::from_absolute(3, 30, 3).unwrap();
    cluster.place(point, index);
    let (slice, level) = cluster.get(Point::from_absolute(3, 33, 3).unwrap()).unwrap();
    assert_eq!(level, 3);
    assert_eq!(slice.column.0.len(), 2);
    assert_eq!(slice.column.len(), 4);
    assert_eq!(slice.data(2).as_num().get(), 2);
    assert_eq!(*slice.data(3).as_obj(), 2);
}

#[test]
fn place_layout_writes_the_given_data() {
    let tile_set: TileSet<u8, TestTileU8> = TileSet::new(&[TileInfo {
        name: "stone".to_string(),
    }]);
    let index = tile_set.get_index("stone").unwrap();
    let mut cluster = Cluster::new(Rc::new(tile_set));
    let data = [Data::Obj(Rc::new(7u8)), Data::Num(Num::new(4095).unwrap())];
    let layout = Layout {
        tile: index,
        variant: VariantIndex(3),
        data: &data,
    };
    let point = Point::from_absolute(1, 1, 1).unwrap();
    let placed = cluster.place_layout(point, &layout).unwrap();
    assert_eq!(placed.height.get(), 3);
    let (slice, level) = cluster.get(Point::from_absolute(1, 2, 1).unwrap()).unwrap();
    assert_eq!(level, 1);
    assert_eq!(slice.index(), (index, VariantIndex(3)));
    assert_eq!(*slice.data(1).as_obj(), 7);
    assert_eq!(slice.data(2).as_num().get(), 4095);
}

#[test]
fn built_in_tile_places_two_cells() {
    let tile_set: TileSet<u8, TestTileU8> = TileSet::new(&[TileInfo {
        name: "stone".to_string(),
    }]);
    let index = tile_set.get_index("stone").unwrap();
    let mut cluster = Cluster::new(Rc::new(tile_set));
    let point = Point::from_absolute(9, 0, 9).unwrap();
    let placed = cluster.place(point, index).unwrap();
    assert_eq!(placed.height.get(), 2);
    let (slice, level) = cluster.get(Point::from_absolute(9, 1, 9).unwrap()).unwrap();
    assert_eq!(level, 1);
    assert!(matches!(slice.data(0), Data::Nothing));
    assert_eq!(slice.data(1).as_num().get(), 0);
}

#[test]
fn tiles_walks_the_bases_of_a_chunk() {
    let (mut cluster, index) = cluster();
    cluster.place(Point::from_absolute(0, 0, 0).unwrap(), index);
    cluster.place(Point::from_absolute(0, 10, 0).unwrap(), index);
    cluster.place(Point::from_absolute(2, 29, 5).unwrap(), index);
    let cl = Point::from_absolute(0, 0, 0).unwrap().cluster_point();
    let mut tiles = cluster.tiles(cl).unwrap();
    let mut found = Vec::new();
    while let Some((slice, pn)) = tiles.next() {
        assert_eq!(slice.column.len(), 4);
        found.push(pn);
    }
    assert_eq!(
        found,
        vec![
            Point::from_absolute(0, 0, 0).unwrap(),
            Point::from_absolute(0, 10, 0).unwrap(),
            Point::from_absolute(2, 29, 5).unwrap(),
        ]
    );
    let upper = Point::from_absolute(0, 32, 0).unwrap().cluster_point();
    let mut tiles = cluster.tiles(upper).unwrap();
    assert!(tiles.next().is_none());
}

struct TestTileU8;

impl Tile<u8> for TestTileU8 {
    fn height(&self) -> u8 {
        1
    }

    fn variants(&self) -> &[&'static str] {
        &[]
    }

    fn place(&self, _: Point) -> Placement<'_, u8> {
        Placement {
            variant: VariantIndex(1),
            data: &[],
        }
    }
}

struct ChoosyTile {
    data: &'static [Data<i32>],
}

impl Tile<i32> for ChoosyTile {
    fn height(&self) -> u8 {
        2
    }

    fn variants(&self) -> &[&'static str] {
        &["plain", "mossy", "cracked"]
    }

    fn place(&self, _: Point) -> Placement<'_, i32> {
        Placement {
            variant: VariantIndex(2),
            data: self.data,
        }
    }
}

#[test]
fn place_writes_what_the_tile_chose() {
    let mut tile_set = TileSet::new(&[]);
    let data: &'static [Data<i32>] = Box::leak(Box::new([Data::Num(Num::new(5).unwrap())]));
    let index = tile_set.add("choosy", ChoosyTile { data });
    let mut cluster = Cluster::new(Rc::new(tile_set));
    let point = Point::from_absolute(3, 4, 5).unwrap();
    let placed = cluster.place(point, index).unwrap();
    assert_eq!(placed.variant, VariantIndex(2));
    assert_eq!(placed.height.get(), 2);
    let (slice, level) = cluster.get(Point::from_absolute(3, 5, 5).unwrap()).unwrap();
    assert_eq!(level, 1);
    assert_eq!(slice.index(), (index, VariantIndex(2)));
    assert_eq!(slice.data(1).as_num().get(), 5);
}

#[test]
fn tiles_hands_out_each_column_once() {
    let (mut cluster, index) = cluster();
    cluster.place(Point::from_absolute(4, 30, 4).unwrap(), index);
    cluster.place(Point::from_absolute(4, 3, 4).unwrap(), index);
    let lower = Point::from_absolute(0, 0, 0).unwrap().cluster_point();
    let mut tiles = cluster.tiles(lower).unwrap();
    let (_, first) = tiles.next().unwrap();
    let (_, second) = tiles.next().unwrap();
    assert_eq!(first, Point::from_absolute(4, 3, 4).unwrap());
    assert_eq!(second, Point::from_absolute(4, 30, 4).unwrap());
    assert!(tiles.next().is_none());
    assert!(tiles.next().is_none());
    let upper = Point::from_absolute(0, 32, 0).unwrap().cluster_point();
    assert!(cluster.tiles(upper).unwrap().next().is_none());
}

#[test]
fn get_reads_the_whole_column_of_every_cell() {
    let (mut cluster, index) = cluster();
    let base = Point::from_absolute(7, 30, 7).unwrap();
    let placed = cluster.place(base, index).unwrap();
    assert_eq!(placed.height.get(), 4);
    for i in 0..4 {
        let (slice, level) = cluster.get(Point::from_absolute(7, 30 + i, 7).unwrap()).unwrap();
        assert_eq!(level, i as u8);
        assert_eq!(slice.len(), 4);
        assert_eq!(slice.column().len(), 4);
        assert_eq!(slice.index(), (index, VariantIndex(0)));
    }
    assert!(!cluster.is_empty(Point::from_absolute(7, 27, 7).unwrap(), Height::new(4).unwrap()));
    assert!(cluster.is_empty(Point::from_absolute(7, 26, 7).unwrap(), Height::new(4).unwrap()));
}

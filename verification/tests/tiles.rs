use server::point::Point;
use server::tile::{Tile, TileInfo, TileSet};
use server::tiles::Base;

#[test]
fn new_registers_base_tiles_by_name() {
    let infos = vec![
        TileInfo { name: "dirt".to_string() },
        TileInfo { name: "rock".to_string() },
    ];
    let set: TileSet<u8, Base<u8>> = TileSet::new(&infos);
    let dirt = set.get_index("dirt").unwrap();
    let rock = set.get_index("rock").unwrap();
    assert_eq!(dirt.get(), 1);
    assert_eq!(rock.get(), 2);
    assert!(set.get_index("sand").is_none());
    let tile = set.get(rock).unwrap();
    assert_eq!(tile.height(), 2);
    assert_eq!(tile.variants(), &["cube"]);
    assert!(set.get("rock").is_some());
    assert!(set.get("sand").is_none());
}

#[test]
fn add_then_find() {
    let mut set: TileSet<u8, Base<u8>> = TileSet::new(&[]);
    let idx = set.add("tall", Base::new(5, vec!["a", "b"]));
    assert_eq!(idx.get(), 1);
    assert_eq!(set.get_index("tall"), Some(idx));
    assert_eq!(set.get(idx).unwrap().height(), 5);
    assert_eq!(set.get("tall").unwrap().variants(), &["a", "b"]);
}

#[test]
fn tiles_lists_from_index_one() {
    let infos = vec![
        TileInfo { name: "a".to_string() },
        TileInfo { name: "b".to_string() },
        TileInfo { name: "c".to_string() },
    ];
    let set: TileSet<u8, Base<u8>> = TileSet::new(&infos);
    let mut tiles = set.tiles();
    let mut seen = Vec::new();
    while let Some((idx, tile)) = tiles.next() {
        assert_eq!(tile.height(), 2);
        seen.push(idx.get());
    }
    assert_eq!(seen, vec![1, 2, 3]);
}

#[test]
fn base_tile_places_blank_levels() {
    let tile: Base<u8> = Base::new(4, vec!["x"]);
    let placement = tile.place(Point::from_absolute(0, 0, 0).unwrap());
    assert_eq!(placement.variant.0, 0);
    assert_eq!(placement.data.len(), 3);
    assert!(placement.data.iter().all(|d| matches!(d, server::layout::Data::Nothing)));
}

#[test]
fn add_accepts_base_tiles_of_any_height() {
    let mut set: TileSet<u8, Base<u8>> = TileSet::new(&[]);
    let flat = set.add("flat", Base::new(0, vec!["x"]));
    let tall = set.add("tall", Base::new(12, vec!["y"]));
    assert_eq!(flat.get(), 1);
    assert_eq!(tall.get(), 2);
    assert_eq!(set.get(flat).unwrap().height(), 0);
    assert_eq!(set.get("tall").unwrap().height(), 12);
}

#[test]
fn get_by_name_agrees_with_get_index() {
    let infos = vec![
        TileInfo { name: "dirt".to_string() },
        TileInfo { name: "rock".to_string() },
    ];
    let mut set: TileSet<u8, Base<u8>> = TileSet::new(&infos);
    set.add("tall", Base::new(5, vec!["a"]));
    for name in ["dirt", "rock", "tall"] {
        let idx = set.get_index(name).unwrap();
        let by_name = set.get(name).unwrap();
        let by_index = set.get(idx).unwrap();
        assert!(std::ptr::eq(by_name, by_index));
    }
    assert!(set.get("sand").is_none());
    assert!(set.get_index("sand").is_none());
}

#[test]
fn tiles_walk_stays_ended() {
    let set: TileSet<u8, Base<u8>> = TileSet::new(&[TileInfo { name: "a".to_string() }]);
    let mut tiles = set.tiles();
    let (idx, tile) = tiles.next().unwrap();
    assert_eq!(idx.get(), 1);
    assert!(std::ptr::eq(tile, set.get(idx).unwrap()));
    assert!(tiles.next().is_none());
    assert!(tiles.next().is_none());
    let empty: TileSet<u8, Base<u8>> = TileSet::new(&[]);
    assert!(empty.tiles().next().is_none());
}

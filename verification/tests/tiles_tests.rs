use panorama::tiles::TileStore;

#[test]
fn empty_store_has_no_tiles() {
    let store: TileStore<u64> = TileStore::new();
    assert!(store.get(50, 14).is_none());
    assert!(store.get(0, 0).is_none());
}

#[test]
fn stored_tile_is_found_under_its_cell() {
    let mut store: TileStore<u64> = TileStore::new();
    store.insert(50, 14, 111);
    store.insert(-33, -70, 222);
    assert_eq!(store.get(50, 14), Some(&111));
    assert_eq!(store.get(-33, -70), Some(&222));
}

#[test]
fn a_cell_without_a_tile_yields_nothing() {
    let mut store: TileStore<u64> = TileStore::new();
    store.insert(50, 14, 111);
    assert!(store.get(14, 50).is_none());
    assert!(store.get(50, 15).is_none());
    assert!(store.get(-50, 14).is_none());
    assert!(store.get(50, -14).is_none());
}

#[test]
fn inserting_again_replaces_the_tile() {
    let mut store: TileStore<u64> = TileStore::new();
    store.insert(1, 2, 10);
    store.insert(1, 2, 20);
    assert_eq!(store.get(1, 2), Some(&20));
}

#[test]
fn extreme_cells_do_not_collide() {
    let mut store: TileStore<u64> = TileStore::new();
    store.insert(i16::MIN, i16::MAX, 1);
    store.insert(i16::MAX, i16::MIN, 2);
    assert_eq!(store.get(i16::MIN, i16::MAX), Some(&1));
    assert_eq!(store.get(i16::MAX, i16::MIN), Some(&2));
}

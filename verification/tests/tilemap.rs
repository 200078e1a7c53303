use mypaint::tilemap::{
    tile_map_contains, tile_map_copy_to, tile_map_free, tile_map_get, tile_map_new, tile_map_set,
    tile_map_slot,
    TileIndex,
};

fn i(x: i32, y: i32) -> TileIndex {
    TileIndex { x, y }
}

#[test]
fn tile_map_reads_back_what_was_stored() {
    let mut m = tile_map_new(2, 8, 0u32);
    assert_eq!(m.size, 2);
    assert_eq!(m.item_size, 8);
    assert!(tile_map_contains(&m, i(-2, -2)));
    assert!(tile_map_contains(&m, i(1, 1)));
    assert!(!tile_map_contains(&m, i(2, 0)));
    assert!(!tile_map_contains(&m, i(0, -3)));
    tile_map_set(&mut m, i(-2, 1), 7);
    tile_map_set(&mut m, i(1, -2), 9);
    assert_eq!(*tile_map_get(&m, i(-2, 1)), 7);
    assert_eq!(*tile_map_get(&m, i(1, -2)), 9);
    assert_eq!(*tile_map_get(&m, i(0, 0)), 0);
    // Row by row from y = -2: slot (y + 2) * 4 + x + 2.
    assert_eq!(m.map[((1 + 2) * 4 + (-2 + 2)) as usize], 7);
    assert_eq!(m.map[((-2 + 2) * 4 + (1 + 2)) as usize], 9);
}

#[test]
fn tile_map_copy_into_larger_map() {
    let mut small = tile_map_new(1, 4, 0i64);
    tile_map_set(&mut small, i(-1, -1), 1);
    tile_map_set(&mut small, i(0, -1), 2);
    tile_map_set(&mut small, i(-1, 0), 3);
    tile_map_set(&mut small, i(0, 0), 4);
    let mut large = tile_map_new(2, 4, -9i64);
    tile_map_copy_to(&small, &mut large);
    assert_eq!(*tile_map_get(&large, i(-1, -1)), 1);
    assert_eq!(*tile_map_get(&large, i(0, -1)), 2);
    assert_eq!(*tile_map_get(&large, i(-1, 0)), 3);
    assert_eq!(*tile_map_get(&large, i(0, 0)), 4);
    assert_eq!(*tile_map_get(&large, i(1, 1)), -9);
    assert_eq!(*tile_map_get(&large, i(-2, 0)), -9);
}

#[test]
fn tile_map_free_hands_back_items_when_asked() {
    let mut m = tile_map_new(1, 1, 'x');
    tile_map_set(&mut m, i(0, 0), 'y');
    assert_eq!(tile_map_free(m, true), vec!['x', 'x', 'x', 'y']);
    let m = tile_map_new(3, 1, 0u8);
    assert!(tile_map_free(m, false).is_empty());
}

#[test]
fn tile_map_slots_row_by_row() {
    let m = tile_map_new(3, 0, 0u8);
    assert_eq!(m.map.len(), 36);
    assert_eq!(tile_map_slot(&m, i(-3, -3)), 0);
    assert_eq!(tile_map_slot(&m, i(2, -3)), 5);
    assert_eq!(tile_map_slot(&m, i(-3, -2)), 6);
    assert_eq!(tile_map_slot(&m, i(2, 2)), 35);
}

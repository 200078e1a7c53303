use mypaint::operationqueue::{
    operation_queue_add, operation_queue_clear_dirty_tiles, operation_queue_get_dirty_tiles,
    operation_queue_new, operation_queue_pop, OperationQueue, TileIndex,
};
use std::collections::HashSet;

#[derive(Debug, Copy, Clone, PartialEq)]
struct OperationDataDrawDab {
    x: f32,
    y: f32,
    radius: f32,
    color_r: u16,
    color_g: u16,
    color_b: u16,
    color_a: f32,
    opaque: f32,
    hardness: f32,
    aspect_ratio: f32,
    angle: f32,
    normal: f32,
    lock_alpha: f32,
    colorize: f32,
}

const DAB: OperationDataDrawDab = OperationDataDrawDab {
    x: 0.0,
    y: 0.0,
    radius: 1.0,
    color_r: 0,
    color_g: 0,
    color_b: 0,
    color_a: 0.0,
    opaque: 0.0,
    hardness: 0.0,
    aspect_ratio: 1.0,
    angle: 0.0,
    normal: 0.0,
    lock_alpha: 0.0,
    colorize: 0.0,
};

fn i(x: i32, y: i32) -> TileIndex {
    TileIndex { x: x, y: y }
}

// The order of the dirty tiles is undefined, so only the set is compared.
fn assert_dirty_tiles<T>(op_queue: &mut OperationQueue<T>, indices: &[TileIndex]) {
    let tiles = operation_queue_get_dirty_tiles(op_queue);
    let mut hashset = indices.iter().collect::<HashSet<_>>();
    println!("{:?}", hashset);
    for tile in tiles.iter() {
        assert!(hashset.remove(tile), "{:?}", tile);
    }
    assert!(hashset.is_empty());
    operation_queue_clear_dirty_tiles(op_queue);
}

#[test]
fn test_op_queue() {
    let dab = DAB;
    let mut op_queue = operation_queue_new();
    operation_queue_add(&mut op_queue, i(0, 0), dab);
    assert_dirty_tiles(&mut op_queue, &[i(0, 0)]);
    assert_eq!(operation_queue_pop(&mut op_queue, i(0, 0)).unwrap(), dab);
}

#[test]
fn test_op_queue_add() {
    let dab = DAB;
    let mut op_queue = operation_queue_new();
    operation_queue_add(&mut op_queue, i(1, 1), dab);
}

#[test]
fn test_op_queue_empty_pop() {
    let mut op_queue: OperationQueue<OperationDataDrawDab> = operation_queue_new();
    assert_eq!(operation_queue_pop(&mut op_queue, i(1, 1)), None);
    assert_eq!(operation_queue_pop(&mut op_queue, i(1, 1)), None);
    assert_eq!(operation_queue_pop(&mut op_queue, i(123, 1)), None);
    assert_eq!(operation_queue_pop(&mut op_queue, i(0, 0)), None);
}

#[test]
fn test_op_queue_many_add() {
    let mut op_queue = operation_queue_new();
    for x in 0..10000 {
        operation_queue_add(&mut op_queue, i(0, x), DAB);
    }
}

#[test]
fn test_op_queue_many_same_add() {
    let mut op_queue = operation_queue_new();
    for _ in 0..10000 {
        let dab = DAB;
        operation_queue_add(&mut op_queue, i(0, 0), dab);
    }
    for _ in 0..10 {
        let op = operation_queue_pop(&mut op_queue, i(0, 0));
        assert_eq!(op.unwrap(), DAB);
    }
}

#[test]
fn op_queue_pops_each_tile_in_push_order() {
    let mut q = operation_queue_new();
    operation_queue_add(&mut q, i(2, -3), 1u32);
    operation_queue_add(&mut q, i(-7, 9), 100u32);
    operation_queue_add(&mut q, i(2, -3), 2u32);
    operation_queue_add(&mut q, i(2, -3), 3u32);
    assert_eq!(operation_queue_pop(&mut q, i(2, -3)), Some(1));
    assert_eq!(operation_queue_pop(&mut q, i(-7, 9)), Some(100));
    assert_eq!(operation_queue_pop(&mut q, i(-7, 9)), None);
    assert_eq!(operation_queue_pop(&mut q, i(2, -3)), Some(2));
    assert_eq!(operation_queue_pop(&mut q, i(2, -3)), Some(3));
    assert_eq!(operation_queue_pop(&mut q, i(2, -3)), None);
}

#[test]
fn op_queue_dirty_tiles_each_once_until_cleared() {
    let mut q = operation_queue_new();
    operation_queue_add(&mut q, i(i32::MIN, i32::MAX), 'a');
    operation_queue_add(&mut q, i(0, 0), 'b');
    operation_queue_add(&mut q, i(0, 0), 'c');
    operation_queue_add(&mut q, i(-1, 0), 'd');
    let tiles = operation_queue_get_dirty_tiles(&q);
    assert_eq!(tiles.len(), 3);
    assert_dirty_tiles(&mut q, &[i(i32::MIN, i32::MAX), i(0, 0), i(-1, 0)]);
    assert_eq!(operation_queue_get_dirty_tiles(&q).len(), 0);
    // Clearing the dirty set keeps the operations.
    assert_eq!(operation_queue_pop(&mut q, i(0, 0)), Some('b'));
    assert_eq!(operation_queue_pop(&mut q, i(-1, 0)), Some('d'));
    // Popping does not mark a tile dirty.
    assert_eq!(operation_queue_get_dirty_tiles(&q).len(), 0);
}

#[test]
fn op_queue_dirty_tiles_since_last_clear() {
    let mut q = operation_queue_new();
    operation_queue_add(&mut q, i(1, 1), 'a');
    operation_queue_add(&mut q, i(2, 2), 'b');
    operation_queue_clear_dirty_tiles(&mut q);
    operation_queue_add(&mut q, i(3, 3), 'c');
    assert_eq!(operation_queue_pop(&mut q, i(3, 3)), Some('c'));
    assert_eq!(operation_queue_pop(&mut q, i(1, 1)), Some('a'));
    operation_queue_add(&mut q, i(4, 4), 'd');
    let tiles: HashSet<TileIndex> = operation_queue_get_dirty_tiles(&q).into_iter().collect();
    let expected: HashSet<TileIndex> = [i(3, 3), i(4, 4)].into_iter().collect();
    assert_eq!(tiles, expected);
}

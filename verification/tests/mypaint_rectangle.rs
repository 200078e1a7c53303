use mypaint::mypaint_rectangle::{
    mypaint_rectangle_expand_fits, mypaint_rectangle_expand_to_include_point, MyPaintRectangle,
};

const EMPTY_RECT: MyPaintRectangle = MyPaintRectangle { x: 0, y: 0, width: 0, height: 0 };

fn r(x: i32, y: i32, w: i32, h: i32) -> MyPaintRectangle {
    MyPaintRectangle { x: x, y: y, width: w, height: h }
}

#[test]
fn test_mypaint_rectangle() {
    let mut rect = EMPTY_RECT;
    rect.expand_to_include(5, 0);
    assert_eq!(rect, r(5, 0, 1, 1));
    rect.expand_to_include(0, 0);
    assert_eq!(rect, r(0, 0, 6, 1));
    rect.expand_to_include(100, 100);
    assert_eq!(rect, r(0, 0, 101, 101));
    rect.expand_to_include(-100, -100);
    assert_eq!(rect, r(-100, -100, 201, 201));
}

#[test]
fn test_mypaint_rectangle_ffi() {
    let mut rect = r(5, 2, 6, 6);
    mypaint_rectangle_expand_to_include_point(&mut rect, 100, 0);
    assert_eq!(rect, r(5, 0, 96, 8));
}

#[test]
fn rectangle_point_inside_keeps_rectangle() {
    let mut rect = r(-3, 4, 10, 2);
    rect.expand_to_include(0, 5);
    assert_eq!(rect, r(-3, 4, 10, 2));
}

#[test]
fn rectangle_with_zero_height_restarts_at_point() {
    let mut rect = r(7, 7, 5, 0);
    rect.expand_to_include(-2, 3);
    assert_eq!(rect, r(-2, 3, 1, 1));
}

#[test]
fn rectangle_grows_on_the_far_edges() {
    let mut rect = r(0, 0, 2, 2);
    rect.expand_to_include(2, 2);
    assert_eq!(rect, r(0, 0, 3, 3));
}

#[test]
fn rectangle_overflow_check() {
    assert!(mypaint_rectangle_expand_fits(&r(0, 0, 0, 0), i32::MAX, i32::MIN));
    assert!(mypaint_rectangle_expand_fits(&r(0, 0, 1, 1), 1000, -1000));
    assert!(!mypaint_rectangle_expand_fits(&r(0, 0, 1, 1), i32::MAX, 0));
    assert!(!mypaint_rectangle_expand_fits(&r(1, 0, 1, 1), i32::MIN, 0));
    assert!(!mypaint_rectangle_expand_fits(&r(0, i32::MAX, 1, 1), 0, 0));
}

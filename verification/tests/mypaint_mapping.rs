use mypaint::mypaint_mapping::{
    mypaint_mapping_get_base_value, mypaint_mapping_get_inputs_used_n, mypaint_mapping_get_n,
    mypaint_mapping_get_point, mypaint_mapping_is_constant, mypaint_mapping_new,
    mypaint_mapping_set_base_value, mypaint_mapping_set_n, mypaint_mapping_set_point, ControlPoints,
    MypaintMapping,
};

#[test]
fn test_mypaint_mapping_ffi() {
    let mut mapping = mypaint_mapping_new(9, 0.0f32);
    mypaint_mapping_set_base_value(&mut mapping, 0.35);
    mypaint_mapping_set_n(&mut mapping, 3, 2);
    mypaint_mapping_set_n(&mut mapping, 4, 3);
    mypaint_mapping_set_point(&mut mapping, 3, 1, 0.2, 0.4);
    assert_eq!(mypaint_mapping_get_base_value(&mapping), 0.35);
    assert_eq!(mypaint_mapping_get_n(&mapping, 3), 2);
    assert_eq!(mypaint_mapping_get_n(&mapping, 4), 3);
    println!("{:?}", mapping);
}

#[test]
fn mapping_counts_inputs_in_use() {
    let mut m = mypaint_mapping_new(5, 0i32);
    assert!(mypaint_mapping_is_constant(&m));
    assert_eq!(mypaint_mapping_get_inputs_used_n(&m), 0);
    mypaint_mapping_set_n(&mut m, 0, 2);
    mypaint_mapping_set_n(&mut m, 4, 8);
    assert_eq!(mypaint_mapping_get_inputs_used_n(&m), 2);
    assert!(!mypaint_mapping_is_constant(&m));
    // Setting a count again does not count the input twice.
    mypaint_mapping_set_n(&mut m, 4, 3);
    assert_eq!(mypaint_mapping_get_inputs_used_n(&m), 2);
    mypaint_mapping_set_n(&mut m, 0, 0);
    assert_eq!(mypaint_mapping_get_inputs_used_n(&m), 1);
    mypaint_mapping_set_n(&mut m, 4, 0);
    assert_eq!(mypaint_mapping_get_inputs_used_n(&m), 0);
    assert!(mypaint_mapping_is_constant(&m));
}

#[test]
fn mapping_points_read_back() {
    let mut m = mypaint_mapping_new(2, 0i32);
    mypaint_mapping_set_n(&mut m, 1, 3);
    mypaint_mapping_set_point(&mut m, 1, 0, -5, 7);
    mypaint_mapping_set_point(&mut m, 1, 2, 9, -1);
    assert_eq!(mypaint_mapping_get_point(&m, 1, 0), (-5, 7));
    assert_eq!(mypaint_mapping_get_point(&m, 1, 1), (0, 0));
    assert_eq!(mypaint_mapping_get_point(&m, 1, 2), (9, -1));
}

#[test]
fn mapping_methods() {
    let mut m: MypaintMapping<i64> = MypaintMapping::new(3, 0);
    assert_eq!(m.get_inputs(), 3);
    assert_eq!(m.get_n(2), Some(0));
    assert_eq!(m.get_n(3), None);
    m.set_n(2, 2);
    m.set_point(2, 1, (4, 5));
    assert_eq!(m.get_point(2, 1), (4, 5));
    m.set_base_value(-3);
    assert_eq!(m.get_base_value(), -3);
    assert_eq!(m.get_inputs_used(), 1);
    assert!(!m.is_constant());
}

#[test]
fn control_points_start_empty() {
    let c = ControlPoints::new(1u8);
    assert_eq!(c.n, 0);
    assert_eq!(c.points.len(), 8);
    assert!(c.points.iter().all(|p| *p == (1, 1)));
}

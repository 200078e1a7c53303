use mypaint::mypaint_brush::{
    mypaint_brush_from_defaults, mypaint_brush_from_string, mypaint_brush_get_base_value,
    mypaint_brush_get_inputs_used_n, mypaint_brush_get_mapping_n, mypaint_brush_get_mapping_point,
    mypaint_brush_get_state, mypaint_brush_get_total_stroke_painting_time,
    mypaint_brush_is_constant, mypaint_brush_new, mypaint_brush_new_stroke, mypaint_brush_ref,
    mypaint_brush_reset, mypaint_brush_set_base_value, mypaint_brush_set_mapping_n,
    mypaint_brush_set_mapping_point, mypaint_brush_set_print_inputs, mypaint_brush_set_state,
    mypaint_brush_unref, MYPAINT_BRUSH_STATE_PRESSURE,
};
use mypaint::mypaint_brush_settings_gen::{MyPaintBrushInput, MyPaintBrushSetting};

#[test]
fn test_base_minimum() {
    let _brush = mypaint_brush_new(0.0f32, 0.0f64);
}

#[test]
fn brush_starts_constant_with_one_reference() {
    let brush = mypaint_brush_new(0.0f32, 0.0f64);
    assert_eq!(brush.refcount, 1);
    assert!(brush.reset_requested);
    assert_eq!(brush.states.len(), 30);
    assert_eq!(brush.settings.len(), 45);
    assert_eq!((brush.rng.state, brush.rng.inc), (1000, 1000));
    for id in 0..45 {
        assert!(mypaint_brush_is_constant(&brush, id));
        assert_eq!(mypaint_brush_get_inputs_used_n(&brush, id), 0);
        assert_eq!(mypaint_brush_get_base_value(&brush, id), 0.0);
    }
    assert_eq!(mypaint_brush_get_total_stroke_painting_time(&brush), 0.0);
}

#[test]
fn brush_reference_counting() {
    let mut brush = mypaint_brush_new(0i32, 0i64);
    mypaint_brush_ref(&mut brush);
    assert!(!mypaint_brush_unref(&mut brush));
    assert!(mypaint_brush_unref(&mut brush));
    assert_eq!(brush.refcount, 0);
}

#[test]
fn brush_settings_and_states_read_back() {
    let mut brush = mypaint_brush_new(0i32, 0i64);
    mypaint_brush_set_base_value(&mut brush, 44, 12);
    assert_eq!(mypaint_brush_get_base_value(&brush, 44), 12);
    assert_eq!(mypaint_brush_get_base_value(&brush, 43), 0);
    mypaint_brush_set_mapping_n(&mut brush, 3, 8, 4);
    assert_eq!(mypaint_brush_get_mapping_n(&brush, 3, 8), 4);
    assert_eq!(mypaint_brush_get_inputs_used_n(&brush, 3), 1);
    assert!(!mypaint_brush_is_constant(&brush, 3));
    mypaint_brush_set_mapping_point(&mut brush, 3, 8, 3, -1, 2);
    assert_eq!(mypaint_brush_get_mapping_point(&brush, 3, 8, 3), (-1, 2));
    mypaint_brush_set_state(&mut brush, MYPAINT_BRUSH_STATE_PRESSURE as u32, 77);
    assert_eq!(mypaint_brush_get_state(&brush, 2), 77);
    assert_eq!(mypaint_brush_get_state(&brush, 3), 0);
    mypaint_brush_set_print_inputs(&mut brush, true);
    assert!(brush.print_inputs);
    brush.reset_requested = false;
    mypaint_brush_reset(&mut brush);
    assert!(brush.reset_requested);
    brush.stroke_total_painting_time = 5;
    brush.stroke_current_idling_time = 6;
    mypaint_brush_new_stroke(&mut brush, 0);
    assert_eq!((brush.stroke_total_painting_time, brush.stroke_current_idling_time), (0, 0));
    assert!(!mypaint_brush_from_string(&brush, b"{}"));
}

#[test]
fn brush_defaults() {
    let mut brush = mypaint_brush_new(0i32, 0i64);
    mypaint_brush_set_mapping_n(&mut brush, 10, 2, 5);
    let defaults: Vec<i32> = (0..45).map(|s| s * 10).collect();
    mypaint_brush_from_defaults(&mut brush, &defaults, 0, 1);
    let om = MyPaintBrushSetting::MYPAINT_BRUSH_SETTING_OPAQUE_MULTIPLY as u32;
    let pr = MyPaintBrushInput::MYPAINT_BRUSH_INPUT_PRESSURE as u32;
    assert_eq!((om, pr), (1, 0));
    for s in 0..45u32 {
        assert_eq!(mypaint_brush_get_base_value(&brush, s), s as i32 * 10);
        for i in 0..9u32 {
            let expected = if s == om && i == pr { 2 } else { 0 };
            assert_eq!(mypaint_brush_get_mapping_n(&brush, s, i), expected);
        }
    }
    assert_eq!(mypaint_brush_get_mapping_point(&brush, om, pr, 0), (0, 0));
    assert_eq!(mypaint_brush_get_mapping_point(&brush, om, pr, 1), (1, 1));
    assert_eq!(mypaint_brush_get_inputs_used_n(&brush, om), 1);
}

#[test]
fn setting_and_input_numbers() {
    assert_eq!(MyPaintBrushSetting::MYPAINT_BRUSH_SETTING_OPAQUE as u32, 0);
    assert_eq!(MyPaintBrushSetting::MYPAINT_BRUSH_SETTING_RADIUS_LOGARITHMIC as u32, 3);
    assert_eq!(MyPaintBrushSetting::MYPAINT_BRUSH_SETTING_SPEED1_GAMMA as u32, 12);
    assert_eq!(MyPaintBrushSetting::MYPAINT_BRUSH_SETTING_PRESSURE_GAIN_LOG as u32, 44);
    assert_eq!(MyPaintBrushInput::MYPAINT_BRUSH_INPUT_CUSTOM as u32, 8);
}

#[test]
fn brush_defaults_keep_hidden_points() {
    let mut brush = mypaint_brush_new(0i32, 0i64);
    mypaint_brush_set_mapping_n(&mut brush, 0, 0, 2);
    mypaint_brush_set_mapping_point(&mut brush, 0, 0, 0, 3, 4);
    mypaint_brush_set_mapping_point(&mut brush, 0, 0, 1, 5, 6);
    mypaint_brush_set_mapping_n(&mut brush, 1, 0, 3);
    mypaint_brush_set_mapping_point(&mut brush, 1, 0, 2, 7, 8);
    let defaults: Vec<i32> = vec![0; 45];
    mypaint_brush_from_defaults(&mut brush, &defaults, 0, 1);
    assert_eq!(mypaint_brush_get_mapping_n(&brush, 0, 0), 0);
    // Making the points visible again shows them as they were.
    mypaint_brush_set_mapping_n(&mut brush, 0, 0, 2);
    assert_eq!(mypaint_brush_get_mapping_point(&brush, 0, 0, 0), (3, 4));
    assert_eq!(mypaint_brush_get_mapping_point(&brush, 0, 0, 1), (5, 6));
    // Only the first two points of the opacity multiplier's pressure input change.
    mypaint_brush_set_mapping_n(&mut brush, 1, 0, 3);
    assert_eq!(mypaint_brush_get_mapping_point(&brush, 1, 0, 1), (1, 1));
    assert_eq!(mypaint_brush_get_mapping_point(&brush, 1, 0, 2), (7, 8));
}

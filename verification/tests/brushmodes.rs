use mypaint::brushmodes::{
    draw_dab_pixels_BlendMode_Color, draw_dab_pixels_BlendMode_LockAlpha,
    draw_dab_pixels_BlendMode_Normal, draw_dab_pixels_BlendMode_Normal_and_Eraser,
    color_sums_fit, dab_fits_check, dab_walk_ok, get_color_pixels_accumulate, luma,
    set_lum_runs_check, set_rgb16_lum_from_rgb16, ColorSums, DabOp,
};

// Two runs: two pixels, a skip of four slots (one pixel), then one pixel.
const MASK: [u16; 7] = [16384, 32768, 0, 4, 8000, 0, 0];

fn buffer() -> Vec<u16> {
    vec![100, 200, 300, 400, 1000, 1000, 1000, 20000, 7, 7, 7, 7, 5000, 6000, 7000, 30000]
}

#[test]
fn normal_dab_paints_the_masked_pixels_only() {
    let mut rgba = buffer();
    draw_dab_pixels_BlendMode_Normal(&MASK, &mut rgba, 32768, 16384, 0, 32768);
    assert_eq!(
        rgba,
        vec![16434, 8292, 150, 16584, 32768, 16384, 0, 32768, 7, 7, 7, 7, 11779, 8535, 5291, 30675]
    );
}

#[test]
fn normal_dab_half_mask_on_empty_pixel() {
    let mut rgba = vec![0u16; 4];
    draw_dab_pixels_BlendMode_Normal(&[16384, 0, 0], &mut rgba, 32768, 0, 0, 32768);
    assert_eq!(rgba, vec![16384, 0, 0, 16384]);
}

#[test]
fn empty_mask_changes_nothing() {
    let mut rgba = buffer();
    draw_dab_pixels_BlendMode_Normal(&[0, 0], &mut rgba, 32768, 32768, 32768, 32768);
    assert_eq!(rgba, buffer());
}

#[test]
fn eraser_with_zero_alpha_clears_the_pixel() {
    let mut rgba = vec![1000, 2000, 3000, 16384];
    draw_dab_pixels_BlendMode_Normal_and_Eraser(&[32768, 0, 0], &mut rgba, 32768, 0, 32768, 0, 32768);
    assert_eq!(rgba, vec![0, 0, 0, 0]);
}

#[test]
fn eraser_with_full_alpha_paints_half() {
    let mut rgba = vec![1000, 2000, 3000, 16384];
    draw_dab_pixels_BlendMode_Normal_and_Eraser(
        &[16384, 0, 0],
        &mut rgba,
        32768,
        0,
        32768,
        32768,
        32768,
    );
    assert_eq!(rgba, vec![16884, 1000, 17884, 24576]);
}

#[test]
fn lock_alpha_keeps_the_alpha() {
    let mut rgba = vec![1000, 2000, 3000, 16384];
    draw_dab_pixels_BlendMode_LockAlpha(&[32768, 0, 0], &mut rgba, 32768, 0, 32768, 32768);
    assert_eq!(rgba, vec![16384, 0, 16384, 16384]);
}

#[test]
fn lock_alpha_clamps_an_overfull_mask() {
    let mut rgba = vec![0, 0, 0, 32768];
    draw_dab_pixels_BlendMode_LockAlpha(&[65535, 0, 0], &mut rgba, 32768, 32768, 32768, 65535);
    assert_eq!(rgba, vec![32768, 32768, 32768, 32768]);
}

#[test]
fn color_dab_keeps_luminosity_and_alpha() {
    let mut rgba = vec![8192, 8192, 8192, 16384];
    draw_dab_pixels_BlendMode_Color(&[32768, 0, 0], &mut rgba, 32768, 0, 0, 32768);
    assert_eq!(rgba, vec![16384, 4680, 4680, 16384]);
    let mut rgba = vec![10000, 5000, 2000, 20000];
    draw_dab_pixels_BlendMode_Color(&[16384, 0, 0], &mut rgba, 0, 32768, 0, 32768);
    assert_eq!(rgba, vec![5000, 7728, 1000, 20000]);
}

#[test]
fn color_dab_on_transparent_pixel_leaves_it() {
    let mut rgba = vec![0, 0, 0, 0];
    draw_dab_pixels_BlendMode_Color(&[32768, 0, 0], &mut rgba, 32768, 16384, 0, 32768);
    assert_eq!(rgba, vec![0, 0, 0, 0]);
}

#[test]
fn set_lum_moves_colour_to_luminosity() {
    assert_eq!(set_rgb16_lum_from_rgb16(32768, 0, 0, 16384, 16384, 16384), (32768, 9361, 9361));
    assert_eq!(set_rgb16_lum_from_rgb16(0, 0, 32768, 32768, 32768, 32768), (32766, 32766, 32768));
    assert_eq!(set_rgb16_lum_from_rgb16(32768, 0, 0, 0, 0, 0), (0, 0, 0));
    assert_eq!(set_rgb16_lum_from_rgb16(0, 32768, 0, 32768, 32768, 0), (23974, 32768, 23974));
}

#[test]
fn luma_weights() {
    assert_eq!(luma(32768, 32768, 32768), 32767 * 32768);
    assert_eq!(luma(1, 0, 0), 9830);
    assert_eq!(luma(0, 1, 0), 19333);
    assert_eq!(luma(0, 0, 1), 3604);
}

#[test]
fn accumulate_sums_under_the_mask() {
    let sums = get_color_pixels_accumulate(&MASK, &buffer());
    assert_eq!(sums, ColorSums { weight: 57152, r: 2270, g: 2564, b: 2858, a: 27524 });
    let none = get_color_pixels_accumulate(&[0, 0], &buffer());
    assert_eq!(none, ColorSums { weight: 0, r: 0, g: 0, b: 0, a: 0 });
}

#[test]
fn mask_walk_checks() {
    assert!(dab_walk_ok(&MASK, 16));
    // The last pixel would end past a buffer of 15 slots.
    assert!(!dab_walk_ok(&MASK, 15));
    // A mask that ends before its terminating zero.
    assert!(!dab_walk_ok(&[100, 100], 16));
    assert!(!dab_walk_ok(&[0], 16));
    assert!(!dab_walk_ok(&[], 16));
    // A skip that jumps past the buffer.
    assert!(!dab_walk_ok(&[0, 20, 0, 0], 16));
    assert!(dab_walk_ok(&[0, 16, 0, 0], 16));
    assert!(dab_walk_ok(&[0, 0], 0));
}

#[test]
fn dab_overflow_checks() {
    let rgba = buffer();
    let normal = DabOp::Normal { color_r: 1, color_g: 2, color_b: 3, opacity: 32768 };
    assert!(dab_fits_check(&normal, &MASK, &rgba));
    let too_opaque = DabOp::Normal { color_r: 1, color_g: 2, color_b: 3, opacity: 65535 };
    assert!(!dab_fits_check(&too_opaque, &[65535, 0, 0], &rgba));
    let clamped = DabOp::LockAlpha { color_r: 1, color_g: 2, color_b: 3, opacity: 65535 };
    assert!(dab_fits_check(&clamped, &[65535, 0, 0], &rgba));
    // A colour above one still runs where the luma step lands in range.
    let bright = DabOp::Color { color_r: 40000, color_g: 0, color_b: 0, opacity: 32768 };
    assert!(dab_fits_check(&bright, &[32768, 0, 0], &rgba));
    // A premultiplied channel above its alpha still runs here...
    let color = DabOp::Color { color_r: 0, color_g: 0, color_b: 0, opacity: 32768 };
    assert!(dab_fits_check(&color, &[32768, 0, 0], &[500, 0, 0, 400]));
    // ...but not where the luma step divides by zero.
    assert!(!dab_fits_check(&color, &[32768, 0, 0], &[65535, 65535, 65535, 32768]));
    let eraser = DabOp::NormalAndEraser {
        color_r: 65535,
        color_g: 65535,
        color_b: 65535,
        color_a: 65535,
        opacity: 32768,
    };
    assert!(dab_fits_check(&eraser, &[32768, 0, 0], &[0, 0, 0, 0]));
    let strong_eraser = DabOp::NormalAndEraser {
        color_r: 0,
        color_g: 0,
        color_b: 0,
        color_a: 0,
        opacity: 65535,
    };
    assert!(!dab_fits_check(&strong_eraser, &[65535, 0, 0], &[0, 0, 0, 0]));
    let locked = DabOp::LockAlpha { color_r: 65535, color_g: 65535, color_b: 65535, opacity: 65535 };
    assert!(dab_fits_check(&locked, &[65535, 0, 0], &[65535, 65535, 65535, 65535]));
}

#[test]
fn colour_sum_checks() {
    assert!(color_sums_fit(&MASK, &buffer()));
    let mut mask = vec![65535u16; 70000];
    mask.push(0);
    mask.push(0);
    let rgba = vec![0u16; 70000 * 4];
    assert!(!color_sums_fit(&mask, &rgba));
}

#[test]
fn color_dab_with_a_colour_above_one() {
    let mut rgba = vec![100, 200, 300, 400];
    draw_dab_pixels_BlendMode_Color(&[32768, 0, 0], &mut rgba, 40000, 0, 0, 32768);
    assert_eq!(rgba, vec![400, 87, 87, 400]);
    let mut clear = vec![0u16; 4];
    draw_dab_pixels_BlendMode_Color(&[32768, 0, 0], &mut clear, 32769, 0, 0, 32768);
    assert_eq!(clear, vec![0, 0, 0, 0]);
}

#[test]
fn set_lum_on_channels_above_one() {
    assert!(set_lum_runs_check(32769, 0, 0, 0, 0, 0));
    assert_eq!(set_rgb16_lum_from_rgb16(32769, 0, 0, 0, 0, 0), (0, 0, 0));
    assert!(set_lum_runs_check(40000, 0, 0, 16384, 16384, 16384));
    assert_eq!(set_rgb16_lum_from_rgb16(40000, 0, 0, 16384, 16384, 16384), (32768, 9362, 9362));
    assert_eq!(set_rgb16_lum_from_rgb16(65535, 65535, 65535, 0, 0, 0), (32768, 32768, 32768));
    assert_eq!(set_rgb16_lum_from_rgb16(60000, 0, 60000, 1000, 1000, 1000), (2291, 103, 2291));
    // A zero divisor in the pull up.
    assert!(!set_lum_runs_check(0, 0, 0, 65535, 65535, 65535));
    // A channel that the pulls leave below zero.
    assert!(!set_lum_runs_check(65535, 0, 0, 65535, 65535, 65535));
    // A channel that the pulls leave above one.
    assert!(!set_lum_runs_check(50000, 40000, 0, 0, 0, 0));
    assert!(set_lum_runs_check(1000, 2000, 3000, 30000, 100, 5));
    assert_eq!(set_rgb16_lum_from_rgb16(1000, 2000, 3000, 30000, 100, 5), (8250, 9250, 10250));
}

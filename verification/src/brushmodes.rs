use vstd::prelude::*;

verus! {

// ---------------------------------------------------------------------------
// Fixed-point conventions
// ---------------------------------------------------------------------------
//
// Colours, alphas, opacities and mask values are "fix15" numbers: the integer
// `v` stands for `v / 2^15`, so `1 << 15` is full intensity. Pixel buffers
// hold premultiplied RGBA, four `u16` per pixel.
//
// A dab mask is a run-length coded stencil laid over a pixel buffer. It is a
// sequence of runs: each run is a series of non-zero mask values, one per
// pixel, for consecutive pixels; a run ends with a `0` that is followed by the
// number of `u16` slots to skip in the pixel buffer before the next run. The
// mask ends where that skip count is `0`.

/// One premultiplied pixel: red, green, blue, alpha.
pub type Pixel = (u16, u16, u16, u16);

/// `1 << 15`, full intensity in fix15.
pub const FIX15_ONE: u32 = 32768;

/// Red weight of the luma formula: `0.3 * (1 << 15)`, truncated.
pub const LUMA_RED_COEFF: u32 = 9830;

/// Green weight of the luma formula: `0.59 * (1 << 15)`, truncated.
pub const LUMA_GREEN_COEFF: u32 = 19333;

/// Blue weight of the luma formula: `0.11 * (1 << 15)`, truncated.
pub const LUMA_BLUE_COEFF: u32 = 3604;

/// The mask walk that starts at mask index `mi` and pixel-buffer slot `ri`
/// stays inside a mask of `mask.len()` values and a buffer of `len` slots:
/// every value it reads exists, every pixel it touches lies wholly in the
/// buffer, and every position it moves to is at most one past the end.
pub open spec fn walk_ok(mask: Seq<u16>, len: int, mi: int, ri: int) -> bool
    decreases mask.len() - mi,
{
    if 0 <= mi < mask.len() && 0 <= ri <= len {
        if mask[mi] != 0 {
            ri + 4 <= len && walk_ok(mask, len, mi + 1, ri + 4)
        } else {
            mi + 1 < mask.len() && (mask[mi + 1] != 0 ==> walk_ok(
                mask,
                len,
                mi + 2,
                ri + mask[mi + 1] as int,
            ))
        }
    } else {
        false
    }
}

/// The pixels that the mask walk from `(mi, ri)` visits, in order, each as
/// the pair (index of its mask value, first buffer slot of the pixel).
pub open spec fn dab_pixels(mask: Seq<u16>, mi: int, ri: int) -> Seq<(int, int)>
    decreases mask.len() - mi,
{
    if 0 <= mi < mask.len() {
        if mask[mi] != 0 {
            seq![(mi, ri)] + dab_pixels(mask, mi + 1, ri + 4)
        } else if mi + 1 < mask.len() && mask[mi + 1] != 0 {
            dab_pixels(mask, mi + 2, ri + mask[mi + 1] as int)
        } else {
            Seq::empty()
        }
    } else {
        Seq::empty()
    }
}

/// The pixels of a whole dab mask.
pub open spec fn mask_pixels(mask: Seq<u16>) -> Seq<(int, int)> {
    dab_pixels(mask, 0, 0)
}

/// The buffer slot `j` belongs to one of the pixels `px`.
pub open spec fn covered(px: Seq<(int, int)>, j: int) -> bool {
    exists|k: int| 0 <= k < px.len() && #[trigger] px[k].1 <= j < px[k].1 + 4
}

/// The four slots of the pixel that starts at slot `ri`.
pub open spec fn read_px(s: Seq<u16>, ri: int) -> Pixel {
    (s[ri], s[ri + 1], s[ri + 2], s[ri + 3])
}

/// Multiplication of a fix15 value by another, as the shift by 15 does it.
pub open spec fn fix15_mul(a: int, b: int) -> int {
    (a * b) / 32768
}

/// The fix15 weighted sum `(wa * a + wb * b) >> 15`, kept to 16 bits.
pub open spec fn mix(wa: int, a: int, wb: int, b: int) -> u16 {
    ((wa * a + wb * b) / 32768) as u16
}

/// What a dab does to one pixel, with its colour and opacity.
pub enum DabOp {
    /// Paint over the pixel.
    Normal { color_r: u16, color_g: u16, color_b: u16, opacity: u16 },
    /// Keep the pixel's luminosity and alpha, take the hue and saturation of
    /// the colour.
    Color { color_r: u16, color_g: u16, color_b: u16, opacity: u16 },
    /// Paint a colour with its own alpha; an alpha below one erases.
    NormalAndEraser { color_r: u16, color_g: u16, color_b: u16, color_a: u16, opacity: u16 },
    /// Paint over the pixel but keep its alpha.
    LockAlpha { color_r: u16, color_g: u16, color_b: u16, opacity: u16 },
}

/// The luma of a colour, scaled by `1 << 15`.
pub open spec fn luma_spec(r: int, g: int, b: int) -> int {
    r * 9830 + g * 19333 + b * 3604
}

/// Integer division rounding toward zero, as Rust's `/` on signed integers.
pub open spec fn tdiv(a: int, b: int) -> int {
    if a >= 0 {
        a / b
    } else {
        -((-a) / b)
    }
}

pub open spec fn min3(a: int, b: int, c: int) -> int {
    if a <= b && a <= c {
        a
    } else if b <= c {
        b
    } else {
        c
    }
}

pub open spec fn max3(a: int, b: int, c: int) -> int {
    if a >= b && a >= c {
        a
    } else if b >= c {
        b
    } else {
        c
    }
}

/// A channel `c` pulled toward the luma `lum` so that the lowest channel
/// `cmin`, below zero, lands on zero.
pub open spec fn pull_up(c: int, lum: int, cmin: int) -> int {
    lum + tdiv((c - lum) * lum, lum - cmin)
}

/// A channel `c` pulled toward the luma `lum` so that the highest channel
/// `cmax`, above `1 << 15`, lands on `1 << 15`.
pub open spec fn pull_down(c: int, lum: int, cmax: int) -> int {
    lum + tdiv((c - lum) * (32768 - lum), cmax - lum)
}

/// The colour `top` moved to the luminosity of `bot`: shift every channel of
/// `top` by the luma difference, then pull the channels toward the new luma
/// until they fit between `0` and `1 << 15`.
pub open spec fn set_lum(top: (int, int, int), bot: (int, int, int)) -> (int, int, int) {
    let diff = lum_diff(top, bot);
    let r = top.0 + diff;
    let g = top.1 + diff;
    let b = top.2 + diff;
    let lum = luma_spec(r, g, b) / 32768;
    let cmin = min3(r, g, b);
    let cmax = max3(r, g, b);
    let (r1, g1, b1) = if cmin < 0 {
        (pull_up(r, lum, cmin), pull_up(g, lum, cmin), pull_up(b, lum, cmin))
    } else {
        (r, g, b)
    };
    if cmax > 32768 {
        (pull_down(r1, lum, cmax), pull_down(g1, lum, cmax), pull_down(b1, lum, cmax))
    } else {
        (r1, g1, b1)
    }
}

/// A 16-bit pattern `v` read as a signed 16-bit integer, as `as i16` reads
/// it.
pub open spec fn as_i16(v: int) -> int {
    if v > 32767 {
        v - 65536
    } else {
        v
    }
}

/// The shift of `set_lum`: the luma of `bot` less that of `top`, each
/// scaled back to 16 bits and read as an `i16`.
pub open spec fn lum_diff(top: (int, int, int), bot: (int, int, int)) -> int {
    as_i16(luma_spec(bot.0, bot.1, bot.2) / 32768) - as_i16(luma_spec(top.0, top.1, top.2) / 32768)
}

/// `v` fits in an `i32`.
pub open spec fn in_i32(v: int) -> bool {
    -2147483648 <= v <= 2147483647
}

/// `pull_up(c, lum, cmin)` computed in `i32` meets no overflow and no zero
/// divisor.
pub open spec fn pull_up_runs(c: int, lum: int, cmin: int) -> bool {
    let p = (c - lum) * lum;
    let d = lum - cmin;
    &&& in_i32(c - lum)
    &&& in_i32(p)
    &&& in_i32(d)
    &&& d != 0
    &&& in_i32(tdiv(p, d))
    &&& in_i32(lum + tdiv(p, d))
}

/// `pull_down(c, lum, cmax)` computed in `i32` meets no overflow and no zero
/// divisor.
pub open spec fn pull_down_runs(c: int, lum: int, cmax: int) -> bool {
    let w = 32768 - lum;
    let p = (c - lum) * w;
    let d = cmax - lum;
    &&& in_i32(c - lum)
    &&& in_i32(w)
    &&& in_i32(p)
    &&& in_i32(d)
    &&& d != 0
    &&& in_i32(tdiv(p, d))
    &&& in_i32(lum + tdiv(p, d))
}

/// `set_lum(top, bot)` on 16-bit channels runs to its end: the `i16`
/// difference of the lumas does not overflow, the `i32` luma sums and both
/// pulls neither overflow nor divide by zero, and every channel of the
/// result lies between `0` and `1 << 15`, as the debug assertions ask.
pub open spec fn set_lum_runs(top: (int, int, int), bot: (int, int, int)) -> bool {
    let d = lum_diff(top, bot);
    let r = top.0 + d;
    let g = top.1 + d;
    let b = top.2 + d;
    let lum = luma_spec(r, g, b) / 32768;
    let cmin = min3(r, g, b);
    let cmax = max3(r, g, b);
    let (r1, g1, b1) = if cmin < 0 {
        (pull_up(r, lum, cmin), pull_up(g, lum, cmin), pull_up(b, lum, cmin))
    } else {
        (r, g, b)
    };
    let res = set_lum(top, bot);
    &&& -32768 <= d <= 32767
    &&& in_i32(r * 9830 + g * 19333)
    &&& in_i32(luma_spec(r, g, b))
    &&& (cmin < 0 ==> pull_up_runs(r, lum, cmin) && pull_up_runs(g, lum, cmin) && pull_up_runs(
        b,
        lum,
        cmin,
    ))
    &&& (cmax > 32768 ==> pull_down_runs(r1, lum, cmax) && pull_down_runs(g1, lum, cmax)
        && pull_down_runs(b1, lum, cmax))
    &&& 0 <= res.0 <= 32768
    &&& 0 <= res.1 <= 32768
    &&& 0 <= res.2 <= 32768
}

/// The colour of a premultiplied pixel, un-premultiplied: zero where the
/// alpha is zero.
pub open spec fn unpremul(p: Pixel) -> (int, int, int) {
    if p.3 == 0 {
        (0, 0, 0)
    } else {
        (
            ((p.0 as int * 32768) / p.3 as int) as u16 as int,
            ((p.1 as int * 32768) / p.3 as int) as u16 as int,
            ((p.2 as int * 32768) / p.3 as int) as u16 as int,
        )
    }
}

/// The result of a dab with mask value `m` on the pixel `p`.
pub open spec fn dab_op_px(op: DabOp, m: u16, p: Pixel) -> Pixel {
    match op {
        DabOp::Normal { color_r, color_g, color_b, opacity } => {
            let opa_a = fix15_mul(m as int, opacity as int);
            let opa_b = 32768 - opa_a;
            (
                mix(opa_a, color_r as int, opa_b, p.0 as int),
                mix(opa_a, color_g as int, opa_b, p.1 as int),
                mix(opa_a, color_b as int, opa_b, p.2 as int),
                (opa_a + fix15_mul(opa_b, p.3 as int)) as u16,
            )
        },
        DabOp::NormalAndEraser { color_r, color_g, color_b, color_a, opacity } => {
            let opa = fix15_mul(m as int, opacity as int);
            let opa_b = 32768 - opa;
            let opa_a = fix15_mul(opa, color_a as int);
            (
                mix(opa_a, color_r as int, opa_b, p.0 as int),
                mix(opa_a, color_g as int, opa_b, p.1 as int),
                mix(opa_a, color_b as int, opa_b, p.2 as int),
                (opa_a + fix15_mul(opa_b, p.3 as int)) as u16,
            )
        },
        DabOp::LockAlpha { color_r, color_g, color_b, opacity } => {
            let opa = fix15_mul(m as int, opacity as int);
            let opa_c = if opa > 32768 { 32768 } else { opa };
            let opa_b = 32768 - opa_c;
            let opa_a = fix15_mul(opa_c, p.3 as int);
            (
                mix(opa_a, color_r as int, opa_b, p.0 as int),
                mix(opa_a, color_g as int, opa_b, p.1 as int),
                mix(opa_a, color_b as int, opa_b, p.2 as int),
                p.3,
            )
        },
        DabOp::Color { color_r, color_g, color_b, opacity } => {
            let c = set_lum((color_r as int, color_g as int, color_b as int), unpremul(p));
            let r = fix15_mul(c.0, p.3 as int);
            let g = fix15_mul(c.1, p.3 as int);
            let b = fix15_mul(c.2, p.3 as int);
            let opa_a = fix15_mul(m as int, opacity as int);
            let opa_b = 32768 - opa_a;
            (
                mix(opa_a, r, opa_b, p.0 as int),
                mix(opa_a, g, opa_b, p.1 as int),
                mix(opa_a, b, opa_b, p.2 as int),
                p.3,
            )
        },
    }
}

/// The dab with mask value `m` runs on the pixel `p` to its end: no
/// overflow or underflow in the `u32`, `i16` and `i32` arithmetic it does,
/// no division by zero, and no failed debug assertion.
pub open spec fn dab_op_fits(op: DabOp, m: u16, p: Pixel) -> bool {
    match op {
        DabOp::Normal { opacity, .. } => fix15_mul(m as int, opacity as int) <= 32768,
        DabOp::NormalAndEraser { opacity, .. } => fix15_mul(m as int, opacity as int) <= 32768,
        DabOp::LockAlpha { .. } => true,
        DabOp::Color { color_r, color_g, color_b, opacity } => {
            &&& fix15_mul(m as int, opacity as int) <= 32768
            &&& set_lum_runs((color_r as int, color_g as int, color_b as int), unpremul(p))
        },
    }
}

/// Every pixel of the mask fits `dab_op_fits` with its old value.
pub open spec fn dab_fits(op: DabOp, mask: Seq<u16>, rgba: Seq<u16>) -> bool {
    forall|k: int|
        0 <= k < mask_pixels(mask).len() ==> dab_op_fits(
            op,
            mask[#[trigger] mask_pixels(mask)[k].0],
            read_px(rgba, mask_pixels(mask)[k].1),
        )
}

/// The buffer `new` is `old` with the dab applied: each pixel under the
/// mask becomes the dab's result on its old value, and every other slot
/// keeps its value.
pub open spec fn dab_applied(op: DabOp, mask: Seq<u16>, old: Seq<u16>, new: Seq<u16>) -> bool {
    let px = mask_pixels(mask);
    &&& new.len() == old.len()
    &&& forall|k: int|
        0 <= k < px.len() ==> read_px(new, #[trigger] px[k].1) == dab_op_px(
            op,
            mask[px[k].0],
            read_px(old, px[k].1),
        )
    &&& forall|j: int| 0 <= j < old.len() && !covered(px, j) ==> new[j] == old[j]
}

// ---------------------------------------------------------------------------
// Arithmetic facts
// ---------------------------------------------------------------------------

proof fn lemma_shr15(x: u32)
    by (bit_vector)
    ensures
        x >> 15 == x / 32768,
{
}

proof fn lemma_mul_u16(a: int, b: int)
    by (nonlinear_arith)
    requires
        0 <= a <= 65535,
        0 <= b <= 65535,
    ensures
        0 <= a * b <= 65535 * 65535,
{
}

/// A fix15 blend of two 16-bit values with weights that sum to at most one
/// stays below `2^31`.
proof fn lemma_mix_bound(wa: int, a: int, wb: int, b: int)
    by (nonlinear_arith)
    requires
        0 <= wa,
        0 <= wb,
        wa + wb <= 32768,
        0 <= a <= 65535,
        0 <= b <= 65535,
    ensures
        0 <= wa * a,
        0 <= wb * b,
        wa * a + wb * b <= 32768 * 65535,
{
}

/// A blend of two 16-bit values with weights that sum to at most `2^16`
/// stays within `u32`.
proof fn lemma_wide_mix_bound(wa: int, a: int, wb: int, b: int)
    by (nonlinear_arith)
    requires
        0 <= wa,
        0 <= wb,
        wa + wb <= 65536,
        0 <= a <= 65535,
        0 <= b <= 65535,
    ensures
        0 <= wa * a,
        0 <= wb * b,
        wa * a + wb * b <= 65536 * 65535,
{
}

/// A fix15 product of `x` with a 16-bit value is less than `2 * x + 1`.
proof fn lemma_fix15_mul_u16(x: int, c: int)
    by (nonlinear_arith)
    requires
        0 <= x,
        0 <= c <= 65535,
    ensures
        0 <= (x * c) / 32768 <= 2 * x,
        0 <= x * c,
{
}

/// Multiplying `a` by a fix15 weight `b` of at most one: the product is at
/// most `a * 32768`, and shifted back it is at most `a`.
proof fn lemma_fix15_mul_le(a: int, b: int)
    by (nonlinear_arith)
    requires
        0 <= a,
        0 <= b <= 32768,
    ensures
        0 <= (a * b) / 32768 <= a,
        0 <= a * b <= a * 32768,
        b * a == a * b,
{
}

// ---------------------------------------------------------------------------
// Per-pixel blends
// ---------------------------------------------------------------------------

/// `(m * opacity) >> 15`, in `u32`.
fn opa_of(m: u16, opacity: u16) -> (r: u32)
    ensures
        r == fix15_mul(m as int, opacity as int),
{
    proof {
        lemma_mul_u16(m as int, opacity as int);
    }
    let x = m as u32 * opacity as u32;
    proof {
        lemma_shr15(x);
    }
    x >> 15
}

/// `(wa * a + wb * b) >> 15` kept to 16 bits.
fn mix_exec(wa: u32, a: u32, wb: u32, b: u32) -> (r: u16)
    requires
        wa as int * a as int + wb as int * b as int <= u32::MAX,
    ensures
        r == mix(wa as int, a as int, wb as int, b as int),
{
    proof {
        assert(0 <= wa as int * a as int) by (nonlinear_arith);
        assert(0 <= wb as int * b as int) by (nonlinear_arith);
    }
    let x = wa * a + wb * b;
    proof {
        lemma_shr15(x);
    }
    (x >> 15) as u16
}

fn blend_pixel(op: &DabOp, m: u16, p: Pixel) -> (q: Pixel)
    requires
        dab_op_fits(*op, m, p),
    ensures
        q == dab_op_px(*op, m, p),
{
    match op {
        DabOp::Normal { color_r, color_g, color_b, opacity } => {
            let opa_a = opa_of(m, *opacity);
            let opa_b = FIX15_ONE - opa_a;
            proof {
                lemma_mix_bound(opa_a as int, *color_r as int, opa_b as int, p.0 as int);
                lemma_mix_bound(opa_a as int, *color_g as int, opa_b as int, p.1 as int);
                lemma_mix_bound(opa_a as int, *color_b as int, opa_b as int, p.2 as int);
                lemma_fix15_mul_le(p.3 as int, opa_b as int);
            }
            let pa = opa_b * p.3 as u32;
            proof {
                lemma_shr15(pa);
            }
            let a = (opa_a + (pa >> 15)) as u16;
            let r = mix_exec(opa_a, *color_r as u32, opa_b, p.0 as u32);
            let g = mix_exec(opa_a, *color_g as u32, opa_b, p.1 as u32);
            let b = mix_exec(opa_a, *color_b as u32, opa_b, p.2 as u32);
            (r, g, b, a)
        },
        DabOp::NormalAndEraser { color_r, color_g, color_b, color_a, opacity } => {
            let opa = opa_of(m, *opacity);
            let opa_b = FIX15_ONE - opa;
            proof {
                lemma_fix15_mul_le(*color_a as int, opa as int);
                lemma_fix15_mul_le(p.3 as int, opa_b as int);
            }
            let wa = opa * *color_a as u32;
            proof {
                lemma_shr15(wa);
            }
            let opa_a = wa >> 15;
            proof {
                lemma_fix15_mul_u16(opa as int, *color_a as int);
                lemma_wide_mix_bound(opa_a as int, *color_r as int, opa_b as int, p.0 as int);
                lemma_wide_mix_bound(opa_a as int, *color_g as int, opa_b as int, p.1 as int);
                lemma_wide_mix_bound(opa_a as int, *color_b as int, opa_b as int, p.2 as int);
            }
            let pa = opa_b * p.3 as u32;
            proof {
                lemma_shr15(pa);
            }
            let a = (opa_a + (pa >> 15)) as u16;
            let r = mix_exec(opa_a, *color_r as u32, opa_b, p.0 as u32);
            let g = mix_exec(opa_a, *color_g as u32, opa_b, p.1 as u32);
            let b = mix_exec(opa_a, *color_b as u32, opa_b, p.2 as u32);
            (r, g, b, a)
        },
        DabOp::LockAlpha { color_r, color_g, color_b, opacity } => {
            let opa = opa_of(m, *opacity);
            let opa_c = if opa > FIX15_ONE { FIX15_ONE } else { opa };
            let opa_b = FIX15_ONE - opa_c;
            proof {
                lemma_fix15_mul_le(p.3 as int, opa_c as int);
            }
            let wa = opa_c * p.3 as u32;
            proof {
                lemma_shr15(wa);
            }
            let opa_a = wa >> 15;
            proof {
                assert(opa_a + opa_b <= 65536) by (nonlinear_arith)
                    requires
                        opa_a == (opa_c * p.3) / 32768,
                        opa_b == 32768 - opa_c,
                        0 <= opa_c <= 32768,
                        0 <= p.3 <= 65535,
                ;
                lemma_wide_mix_bound(opa_a as int, *color_r as int, opa_b as int, p.0 as int);
                lemma_wide_mix_bound(opa_a as int, *color_g as int, opa_b as int, p.1 as int);
                lemma_wide_mix_bound(opa_a as int, *color_b as int, opa_b as int, p.2 as int);
            }
            let r = mix_exec(opa_a, *color_r as u32, opa_b, p.0 as u32);
            let g = mix_exec(opa_a, *color_g as u32, opa_b, p.1 as u32);
            let b = mix_exec(opa_a, *color_b as u32, opa_b, p.2 as u32);
            (r, g, b, p.3)
        },
        DabOp::Color { color_r, color_g, color_b, opacity } => {
            let a = p.3;
            let mut r: u16 = 0;
            let mut g: u16 = 0;
            let mut b: u16 = 0;
            if a != 0 {
                r = unpremul_channel(p.0, a);
                g = unpremul_channel(p.1, a);
                b = unpremul_channel(p.2, a);
            }
            let c = set_rgb16_lum_from_rgb16(*color_r, *color_g, *color_b, r, g, b);
            let r2 = premul_channel(c.0, a);
            let g2 = premul_channel(c.1, a);
            let b2 = premul_channel(c.2, a);
            let opa_a = opa_of(m, *opacity);
            let opa_b = FIX15_ONE - opa_a;
            proof {
                lemma_mix_bound(opa_a as int, r2 as int, opa_b as int, p.0 as int);
                lemma_mix_bound(opa_a as int, g2 as int, opa_b as int, p.1 as int);
                lemma_mix_bound(opa_a as int, b2 as int, opa_b as int, p.2 as int);
            }
            let nr = mix_exec(opa_a, r2 as u32, opa_b, p.0 as u32);
            let ng = mix_exec(opa_a, g2 as u32, opa_b, p.1 as u32);
            let nb = mix_exec(opa_a, b2 as u32, opa_b, p.2 as u32);
            (nr, ng, nb, a)
        },
    }
}

/// `((c << 15) / a) as u16`: a premultiplied channel over its alpha.
fn unpremul_channel(c: u16, a: u16) -> (r: u16)
    requires
        a != 0,
    ensures
        r == ((c as int * 32768) / a as int) as u16,
{
    let x = (c as u32) << 15;
    proof {
        assert(x == c as u32 * 32768) by (bit_vector)
            requires x == (c as u32) << 15, c <= 65535;
    }
    (x / a as u32) as u16
}

/// `(c * a >> 15) as u16` for a fix15 channel `c`.
fn premul_channel(c: u16, a: u16) -> (r: u16)
    requires
        c <= 32768,
    ensures
        r == fix15_mul(c as int, a as int) as u16,
        r as int == fix15_mul(c as int, a as int),
{
    proof {
        lemma_fix15_mul_le(a as int, c as int);
    }
    let x = c as u32 * a as u32;
    proof {
        lemma_shr15(x);
    }
    (x >> 15) as u16
}

// ---------------------------------------------------------------------------
// Luminosity
// ---------------------------------------------------------------------------

/// The luma of a colour, scaled by `1 << 15`.
pub fn luma(r: u32, g: u32, b: u32) -> (res: u32)
    requires
        luma_spec(r as int, g as int, b as int) <= u32::MAX,
    ensures
        res == luma_spec(r as int, g as int, b as int),
{
    r * LUMA_RED_COEFF + g * LUMA_GREEN_COEFF + b * LUMA_BLUE_COEFF
}


/// `tdiv(a * w, d)` for a weight `w` below the divisor `d`: the quotient
/// moves toward zero, by no more than `a` itself; where `|a| <= d`, by no
/// more than `w` either.
proof fn lemma_tdiv_shrink(a: int, w: int, d: int)
    requires
        0 <= w < d,
    ensures
        a >= 0 ==> 0 <= tdiv(a * w, d) <= a,
        a >= 0 && a <= d ==> tdiv(a * w, d) <= w,
        a < 0 ==> a <= tdiv(a * w, d) <= 0,
        a < 0 && -d <= a ==> -w <= tdiv(a * w, d),
{
    let na = if a >= 0 { a } else { -a };
    assert(0 <= na * w <= na * d) by (nonlinear_arith)
        requires
            0 <= na,
            0 <= w < d,
    ;
    assert((na * w) / d <= na) by (nonlinear_arith)
        requires
            0 <= na * w <= na * d,
            0 < d,
    ;
    assert(0 <= (na * w) / d) by (nonlinear_arith)
        requires
            0 <= na * w,
            0 < d,
    ;
    if na <= d {
        assert(na * w <= d * w) by (nonlinear_arith)
            requires
                0 <= na <= d,
                0 <= w,
        ;
        assert((na * w) / d <= w) by (nonlinear_arith)
            requires
                0 <= na * w <= d * w,
                0 < d,
        ;
    }
    if a < 0 {
        assert(-(a * w) == na * w) by (nonlinear_arith)
            requires
                na == -a,
        ;
    }
}

/// Bounds of a product whose first factor lies in `lo ..= hi` around zero
/// and whose second lies in `0 ..= wmax`.
proof fn lemma_mul_between(a: int, w: int, lo: int, hi: int, wmax: int)
    by (nonlinear_arith)
    requires
        lo <= 0 <= hi,
        lo <= a <= hi,
        0 <= w <= wmax,
    ensures
        lo * wmax <= a * w <= hi * wmax,
{
}

/// The luma step of `set_lum` on fix15 channels: both lumas fit in 15 bits,
/// the shifted colour has a luma between `0` and `32767`, and the two
/// clipping branches never meet a zero or negative divisor.
proof fn lemma_set_lum_ranges(tr: int, tg: int, tb: int, br: int, bg: int, bb: int)
    requires
        0 <= tr <= 32768,
        0 <= tg <= 32768,
        0 <= tb <= 32768,
        0 <= br <= 32768,
        0 <= bg <= 32768,
        0 <= bb <= 32768,
    ensures
        ({
            let tl = luma_spec(tr, tg, tb) / 32768;
            let bl = luma_spec(br, bg, bb) / 32768;
            let d = bl - tl;
            let s = luma_spec(tr + d, tg + d, tb + d);
            let lum = s / 32768;
            let cmin = min3(tr + d, tg + d, tb + d);
            let cmax = max3(tr + d, tg + d, tb + d);
            &&& 0 <= tl <= 32767
            &&& 0 <= bl <= 32767
            &&& lum_diff((tr, tg, tb), (br, bg, bb)) == d
            &&& 0 <= s
            &&& 0 <= lum <= 32767
            &&& cmin == min3(tr, tg, tb) + d
            &&& cmax == max3(tr, tg, tb) + d
            &&& cmin < 0 ==> lum > cmin && cmax <= 32767
            &&& cmax > 32768 ==> cmin >= 1
        }),
{
    let t = luma_spec(tr, tg, tb);
    let tl = t / 32768;
    let bl = luma_spec(br, bg, bb) / 32768;
    let d = bl - tl;
    let s = luma_spec(tr + d, tg + d, tb + d);
    assert(s == t + 32767 * d);
    assert(tl * 32768 <= t < tl * 32768 + 32768);
    let m = min3(tr, tg, tb);
    assert(t >= 32767 * m);
    if min3(tr + d, tg + d, tb + d) < 0 {
        assert(s >= 32768 * (m + d + 1));
    }
}

/// Pulling a channel up between the lowest channel `cmin`, below zero, and
/// the luma lands it between `0` and the larger of itself and the luma.
proof fn lemma_pull_up_range(c: int, lum: int, cmin: int)
    requires
        cmin < 0,
        cmin < lum,
        0 <= lum,
        cmin <= c,
    ensures
        0 <= pull_up(c, lum, cmin),
        pull_up(c, lum, cmin) <= if c > lum { c } else { lum },
{
    lemma_tdiv_shrink(c - lum, lum, lum - cmin);
}

/// Pulling a channel down between the luma and the highest channel `cmax`,
/// above `1 << 15`, lands it between the smaller of itself and the luma and
/// `1 << 15`.
proof fn lemma_pull_down_range(c: int, lum: int, cmax: int)
    requires
        32768 < cmax,
        0 <= lum <= 32767,
        c <= cmax,
    ensures
        pull_down(c, lum, cmax) <= 32768,
        pull_down(c, lum, cmax) >= if c < lum { c } else { lum },
{
    lemma_tdiv_shrink(c - lum, 32768 - lum, cmax - lum);
}

/// On fix15 colours, `set_lum` gives fix15 channels, between `0` and
/// `1 << 15`.
pub proof fn lemma_set_lum_bounded(top: (int, int, int), bot: (int, int, int))
    requires
        0 <= top.0 <= 32768,
        0 <= top.1 <= 32768,
        0 <= top.2 <= 32768,
        0 <= bot.0 <= 32768,
        0 <= bot.1 <= 32768,
        0 <= bot.2 <= 32768,
    ensures
        0 <= set_lum(top, bot).0 <= 32768,
        0 <= set_lum(top, bot).1 <= 32768,
        0 <= set_lum(top, bot).2 <= 32768,
{
    lemma_set_lum_ranges(top.0, top.1, top.2, bot.0, bot.1, bot.2);
    let diff = luma_spec(bot.0, bot.1, bot.2) / 32768 - luma_spec(top.0, top.1, top.2) / 32768;
    let r = top.0 + diff;
    let g = top.1 + diff;
    let b = top.2 + diff;
    let lum = luma_spec(r, g, b) / 32768;
    let cmin = min3(r, g, b);
    let cmax = max3(r, g, b);
    if cmin < 0 {
        lemma_pull_up_range(r, lum, cmin);
        lemma_pull_up_range(g, lum, cmin);
        lemma_pull_up_range(b, lum, cmin);
    }
    if cmax > 32768 {
        lemma_pull_down_range(r, lum, cmax);
        lemma_pull_down_range(g, lum, cmax);
        lemma_pull_down_range(b, lum, cmax);
    }
}

/// The luma of a colour lies between its lowest channel, where that is
/// below zero, and its highest, where that is above zero.
proof fn lemma_lum_between(r: int, g: int, b: int)
    ensures
        min3(r, g, b) < 0 ==> min3(r, g, b) <= luma_spec(r, g, b) / 32768,
        max3(r, g, b) > 0 ==> luma_spec(r, g, b) / 32768 < max3(r, g, b),
{
    let s = luma_spec(r, g, b);
    let lo = min3(r, g, b);
    let hi = max3(r, g, b);
    assert(32767 * lo <= s <= 32767 * hi);
    if lo < 0 {
        assert(32768 * lo < s);
        assert(lo <= s / 32768) by (nonlinear_arith)
            requires
                32768 * lo < s,
        ;
    }
    if hi > 0 {
        assert(s < 32768 * hi);
        assert(s / 32768 < hi) by (nonlinear_arith)
            requires
                s < 32768 * hi,
        ;
    }
}

/// The pull up of a fix15 colour runs in `i32`.
proof fn lemma_pull_up_runs(c: int, lum: int, cmin: int)
    requires
        -32767 <= cmin < 0,
        cmin < lum <= 32767,
        0 <= lum,
        cmin <= c <= 32767,
    ensures
        pull_up_runs(c, lum, cmin),
{
    lemma_pull_up_range(c, lum, cmin);
    lemma_mul_between(c - lum, lum, -65535, 32767, 32767);
    lemma_tdiv_shrink(c - lum, lum, lum - cmin);
}

/// The pull down of a fix15 colour runs in `i32`.
proof fn lemma_pull_down_runs(c: int, lum: int, cmax: int)
    requires
        32768 < cmax <= 65535,
        0 <= lum <= 32767,
        1 <= c <= cmax,
    ensures
        pull_down_runs(c, lum, cmax),
{
    lemma_pull_down_range(c, lum, cmax);
    lemma_mul_between(c - lum, 32768 - lum, -32767, 65535, 32768);
    lemma_tdiv_shrink(c - lum, 32768 - lum, cmax - lum);
}

/// On fix15 channels `set_lum` runs to its end.
pub proof fn lemma_set_lum_runs(top: (int, int, int), bot: (int, int, int))
    requires
        0 <= top.0 <= 32768,
        0 <= top.1 <= 32768,
        0 <= top.2 <= 32768,
        0 <= bot.0 <= 32768,
        0 <= bot.1 <= 32768,
        0 <= bot.2 <= 32768,
    ensures
        set_lum_runs(top, bot),
{
    lemma_set_lum_ranges(top.0, top.1, top.2, bot.0, bot.1, bot.2);
    lemma_set_lum_bounded(top, bot);
    let d = lum_diff(top, bot);
    let r = top.0 + d;
    let g = top.1 + d;
    let b = top.2 + d;
    let lum = luma_spec(r, g, b) / 32768;
    let cmin = min3(r, g, b);
    let cmax = max3(r, g, b);
    if cmin < 0 {
        lemma_pull_up_runs(r, lum, cmin);
        lemma_pull_up_runs(g, lum, cmin);
        lemma_pull_up_runs(b, lum, cmin);
    }
    if cmax > 32768 {
        lemma_pull_down_runs(r, lum, cmax);
        lemma_pull_down_runs(g, lum, cmax);
        lemma_pull_down_runs(b, lum, cmax);
    }
}

/// Dividing a multiple of `d` by `d`, rounding toward zero, gives the
/// factor back.
proof fn lemma_tdiv_exact(d: int, k: int)
    requires
        d > 0,
    ensures
        tdiv(d * k, d) == k,
        tdiv(-(d * k), d) == -k,
{
    if k >= 0 {
        assert((d * k) / d == k) by (nonlinear_arith)
            requires
                d > 0,
                k >= 0,
        ;
    } else {
        assert((d * (-k)) / d == -k) by (nonlinear_arith)
            requires
                d > 0,
                k < 0,
        ;
        assert(-(d * k) == d * (-k)) by (nonlinear_arith);
    }
}

/// Rounding toward zero keeps the order of the dividends.
proof fn lemma_tdiv_monotone(a1: int, a2: int, d: int)
    requires
        a1 <= a2,
        d > 0,
    ensures
        tdiv(a1, d) <= tdiv(a2, d),
{
    if a1 >= 0 {
        vstd::arithmetic::div_mod::lemma_div_is_ordered(a1, a2, d);
    } else if a2 >= 0 {
        assert(0 <= a2 / d) by (nonlinear_arith)
            requires
                a2 >= 0,
                d > 0,
        ;
        assert(0 <= (-a1) / d) by (nonlinear_arith)
            requires
                -a1 >= 0,
                d > 0,
        ;
    } else {
        vstd::arithmetic::div_mod::lemma_div_is_ordered(-a2, -a1, d);
    }
}

/// The luminosity transfer moves the colour by one luma difference `d`
/// and then clips. Where the moved colour lies between `0` and `1 << 15`,
/// it is the result: all three channels move by `d`. Where only its lowest
/// channel is below `0`, the lowest channel of the result is exactly `0`;
/// where only its highest is above `1 << 15`, the highest channel of the
/// result is exactly `1 << 15`.
pub proof fn lemma_set_lum_clips_to_the_edge(top: (int, int, int), bot: (int, int, int))
    requires
        set_lum_runs(top, bot),
    ensures
        ({
            let d = lum_diff(top, bot);
            let lo = min3(top.0, top.1, top.2) + d;
            let hi = max3(top.0, top.1, top.2) + d;
            let res = set_lum(top, bot);
            &&& (0 <= lo && hi <= 32768 ==> res == (top.0 + d, top.1 + d, top.2 + d))
            &&& (lo < 0 && hi <= 32768 ==> min3(res.0, res.1, res.2) == 0)
            &&& (0 <= lo && hi > 32768 ==> max3(res.0, res.1, res.2) == 32768)
        }),
{
    let d = lum_diff(top, bot);
    let r = top.0 + d;
    let g = top.1 + d;
    let b = top.2 + d;
    let lum = luma_spec(r, g, b) / 32768;
    let cmin = min3(r, g, b);
    let cmax = max3(r, g, b);
    assert(cmin == min3(top.0, top.1, top.2) + d);
    assert(cmax == max3(top.0, top.1, top.2) + d);
    lemma_lum_between(r, g, b);
    if cmin < 0 && cmax <= 32768 {
        lemma_tdiv_exact(lum - cmin, lum);
        assert((cmin - lum) * lum == -((lum - cmin) * lum)) by (nonlinear_arith);
        assert(pull_up(cmin, lum, cmin) == 0);
    }
    if cmin >= 0 && cmax > 32768 {
        lemma_tdiv_exact(cmax - lum, 32768 - lum);
        assert((cmax - lum) * (32768 - lum) == (cmax - lum) * (32768 - lum));
        assert(pull_down(cmax, lum, cmax) == 32768);
    }
}

/// Rounding toward zero misses the exact quotient by less than one.
proof fn lemma_tdiv_close(x: int, d: int)
    requires
        d > 0,
    ensures
        x - d < d * tdiv(x, d) < x + d,
{
    if x >= 0 {
        vstd::arithmetic::div_mod::lemma_fundamental_div_mod(x, d);
        assert(0 <= x % d < d) by {
            vstd::arithmetic::div_mod::lemma_mod_bound(x, d);
        }
    } else {
        vstd::arithmetic::div_mod::lemma_fundamental_div_mod(-x, d);
        assert(0 <= (-x) % d < d) by {
            vstd::arithmetic::div_mod::lemma_mod_bound(-x, d);
        }
        assert(d * (-((-x) / d)) == -(d * ((-x) / d))) by (nonlinear_arith);
    }
}

/// The luma of a colour pulled toward `lum` by the factor `k / d`, at most
/// one, lies close to the luma `32767 * lum` of the flat colour `lum`: it
/// misses it by less than one in `1 << 15` below, and by less than
/// `lum + 2` in `1 << 15` above, where the luma `s` of the colour before the
/// pull is at least `32767 * lum` and above it by at most `lum + 32767`.
proof fn lemma_pull_luma(r: int, g: int, b: int, lum: int, k: int, d: int)
    requires
        d > 0,
        0 <= k <= d,
        0 <= luma_spec(r, g, b) - 32767 * lum <= lum + 32767,
    ensures
        ({
            let pulled = luma_spec(
                lum + tdiv((r - lum) * k, d),
                lum + tdiv((g - lum) * k, d),
                lum + tdiv((b - lum) * k, d),
            );
            32767 * lum - 32767 < pulled < 32767 * lum + lum + 65534
        }),
{
    let xr = (r - lum) * k;
    let xg = (g - lum) * k;
    let xb = (b - lum) * k;
    let qr = tdiv(xr, d);
    let qg = tdiv(xg, d);
    let qb = tdiv(xb, d);
    lemma_tdiv_close(xr, d);
    lemma_tdiv_close(xg, d);
    lemma_tdiv_close(xb, d);
    let q = 9830 * qr + 19333 * qg + 3604 * qb;
    let x = 9830 * xr + 19333 * xg + 3604 * xb;
    let sp = luma_spec(r, g, b) - 32767 * lum;
    assert(d * q == 9830 * (d * qr) + 19333 * (d * qg) + 3604 * (d * qb)) by (nonlinear_arith)
        requires
            q == 9830 * qr + 19333 * qg + 3604 * qb,
    ;
    assert(x - 32767 * d < d * q < x + 32767 * d);
    assert(x == k * sp) by (nonlinear_arith)
        requires
            xr == (r - lum) * k,
            xg == (g - lum) * k,
            xb == (b - lum) * k,
            x == 9830 * xr + 19333 * xg + 3604 * xb,
            sp == r * 9830 + g * 19333 + b * 3604 - 32767 * lum,
    ;
    assert(0 <= k * sp <= d * (lum + 32767)) by (nonlinear_arith)
        requires
            0 <= k <= d,
            0 <= sp <= lum + 32767,
    ;
    assert(-32767 < q < lum + 65534) by (nonlinear_arith)
        requires
            d > 0,
            -32767 * d < d * q,
            d * q < d * (lum + 32767) + 32767 * d,
    ;
    assert(luma_spec(lum + qr, lum + qg, lum + qb) == 32767 * lum + q);
}

/// The luminosity transfer gives the colour the luma of `bot`, up to the
/// rounding of its fixed-point steps: on fix15 colours the lumas of the
/// result and of `bot` differ by less than 5 in `1 << 15`.
pub proof fn lemma_set_lum_matches_luma(top: (int, int, int), bot: (int, int, int))
    requires
        0 <= top.0 <= 32768,
        0 <= top.1 <= 32768,
        0 <= top.2 <= 32768,
        0 <= bot.0 <= 32768,
        0 <= bot.1 <= 32768,
        0 <= bot.2 <= 32768,
    ensures
        ({
            let res = set_lum(top, bot);
            let diff = luma_spec(res.0, res.1, res.2) - luma_spec(bot.0, bot.1, bot.2);
            -5 * 32768 < diff < 5 * 32768
        }),
{
    lemma_set_lum_ranges(top.0, top.1, top.2, bot.0, bot.1, bot.2);
    let lt = luma_spec(top.0, top.1, top.2);
    let lb = luma_spec(bot.0, bot.1, bot.2);
    let d = lum_diff(top, bot);
    let r = top.0 + d;
    let g = top.1 + d;
    let b = top.2 + d;
    let sum = luma_spec(r, g, b);
    let lum = sum / 32768;
    let cmin = min3(r, g, b);
    let cmax = max3(r, g, b);
    assert(sum == lt + 32767 * d);
    assert(32768 * (lt / 32768) <= lt < 32768 * (lt / 32768) + 32768);
    assert(32768 * (lb / 32768) <= lb < 32768 * (lb / 32768) + 32768);
    assert(32768 * lum <= sum < 32768 * lum + 32768);
    assert(-65535 < sum - lb < 65535);
    if cmin < 0 {
        lemma_pull_luma(r, g, b, lum, lum, lum - cmin);
    }
    if cmax > 32768 {
        lemma_pull_luma(r, g, b, lum, 32768 - lum, cmax - lum);
    }
}

/// A pull up with a luma of at least zero keeps the order of channels.
proof fn lemma_pull_up_monotone(c1: int, c2: int, lum: int, cmin: int)
    requires
        c1 <= c2,
        0 <= lum,
        cmin < lum,
    ensures
        pull_up(c1, lum, cmin) <= pull_up(c2, lum, cmin),
{
    assert((c1 - lum) * lum <= (c2 - lum) * lum) by (nonlinear_arith)
        requires
            c1 <= c2,
            0 <= lum,
    ;
    lemma_tdiv_monotone((c1 - lum) * lum, (c2 - lum) * lum, lum - cmin);
}

/// A pull down with a luma of at most `1 << 15` keeps the order of
/// channels.
proof fn lemma_pull_down_monotone(c1: int, c2: int, lum: int, cmax: int)
    requires
        c1 <= c2,
        lum <= 32768,
        lum < cmax,
    ensures
        pull_down(c1, lum, cmax) <= pull_down(c2, lum, cmax),
{
    assert((c1 - lum) * (32768 - lum) <= (c2 - lum) * (32768 - lum)) by (nonlinear_arith)
        requires
            c1 <= c2,
            lum <= 32768,
    ;
    lemma_tdiv_monotone((c1 - lum) * (32768 - lum), (c2 - lum) * (32768 - lum), cmax - lum);
}

/// One channel `c` of the moved colour through both clipping steps of
/// `set_lum`, with the luma `lum` and the lowest and highest channels
/// `cmin` and `cmax` of the moved colour.
spec fn clip_channel(c: int, lum: int, cmin: int, cmax: int) -> int {
    let x = if cmin < 0 {
        pull_up(c, lum, cmin)
    } else {
        c
    };
    if cmax > 32768 {
        pull_down(x, lum, cmax)
    } else {
        x
    }
}

/// With a luma below zero, a pull up leaves every channel at most zero,
/// and a channel above the luma at most the luma.
proof fn lemma_pull_up_negative_luma(c: int, lum: int, cmin: int)
    requires
        lum < 0,
        cmin < lum,
        cmin <= c,
    ensures
        pull_up(c, lum, cmin) <= 0,
        c > lum ==> pull_up(c, lum, cmin) <= lum,
{
    let dd = lum - cmin;
    if c > lum {
        assert((c - lum) * lum < 0) by (nonlinear_arith)
            requires
                c > lum,
                lum < 0,
        ;
        lemma_tdiv_monotone((c - lum) * lum, 0, dd);
    } else {
        assert(0 <= (c - lum) * lum <= dd * (-lum)) by (nonlinear_arith)
            requires
                c <= lum,
                lum < 0,
                cmin <= c,
                dd == lum - cmin,
        ;
        lemma_tdiv_monotone((c - lum) * lum, dd * (-lum), dd);
        lemma_tdiv_exact(dd, -lum);
    }
}

/// A pull down with a luma of at most `1 << 15` leaves a channel at most
/// the luma where it was.
proof fn lemma_pull_down_below_luma(x: int, lum: int, cmax: int)
    requires
        x <= lum,
        lum <= 32768,
        lum < cmax,
    ensures
        pull_down(x, lum, cmax) <= lum,
{
    assert((x - lum) * (32768 - lum) <= 0) by (nonlinear_arith)
        requires
            x <= lum,
            lum <= 32768,
    ;
    lemma_tdiv_monotone((x - lum) * (32768 - lum), 0, cmax - lum);
}

/// A pull down with a luma above `1 << 15` leaves a channel at most `cmax`
/// at least `1 << 15`, and one at most the luma at least the luma.
proof fn lemma_pull_down_high_luma(x: int, lum: int, cmax: int)
    requires
        32768 < lum < cmax,
        x <= cmax,
    ensures
        pull_down(x, lum, cmax) >= 32768,
        x <= lum ==> pull_down(x, lum, cmax) >= lum,
{
    let w = 32768 - lum;
    let dd = cmax - lum;
    if x <= lum {
        assert((x - lum) * w >= 0) by (nonlinear_arith)
            requires
                x <= lum,
                w < 0,
        ;
        lemma_tdiv_monotone(0, (x - lum) * w, dd);
    } else {
        assert(dd * w <= (x - lum) * w) by (nonlinear_arith)
            requires
                lum < x <= cmax,
                dd == cmax - lum,
                w < 0,
        ;
        lemma_tdiv_monotone(dd * w, (x - lum) * w, dd);
        lemma_tdiv_exact(dd, w);
    }
}

/// The two clipping steps keep the order of two channels, with a luma
/// between `0` and `1 << 15`.
proof fn lemma_clip_keeps_order(c1: int, c2: int, lum: int, cmin: int, cmax: int)
    requires
        c1 <= c2,
        0 <= lum <= 32768,
        cmin < 0 ==> cmin < lum,
        cmax > 32768 ==> lum < cmax,
    ensures
        clip_channel(c1, lum, cmin, cmax) <= clip_channel(c2, lum, cmin, cmax),
{
    let x1 = if cmin < 0 {
        pull_up(c1, lum, cmin)
    } else {
        c1
    };
    let x2 = if cmin < 0 {
        pull_up(c2, lum, cmin)
    } else {
        c2
    };
    if cmin < 0 {
        lemma_pull_up_monotone(c1, c2, lum, cmin);
    }
    if cmax > 32768 {
        lemma_pull_down_monotone(x1, x2, lum, cmax);
    }
}

/// The luminosity transfer keeps the order of the channels wherever it
/// runs to its end: a channel of `top` at most another stays at most it in
/// the result, so equal channels stay equal.
pub proof fn lemma_set_lum_keeps_order(top: (int, int, int), bot: (int, int, int))
    requires
        set_lum_runs(top, bot),
    ensures
        ({
            let res = set_lum(top, bot);
            &&& top.0 <= top.1 ==> res.0 <= res.1
            &&& top.1 <= top.0 ==> res.1 <= res.0
            &&& top.0 <= top.2 ==> res.0 <= res.2
            &&& top.2 <= top.0 ==> res.2 <= res.0
            &&& top.1 <= top.2 ==> res.1 <= res.2
            &&& top.2 <= top.1 ==> res.2 <= res.1
        }),
{
    let d = lum_diff(top, bot);
    let r = top.0 + d;
    let g = top.1 + d;
    let b = top.2 + d;
    let lum = luma_spec(r, g, b) / 32768;
    let cmin = min3(r, g, b);
    let cmax = max3(r, g, b);
    let res = set_lum(top, bot);
    assert(res == (
        clip_channel(r, lum, cmin, cmax),
        clip_channel(g, lum, cmin, cmax),
        clip_channel(b, lum, cmin, cmax),
    ));
    lemma_lum_between(r, g, b);
    if cmin >= 0 {
        assert(luma_spec(r, g, b) >= 0);
    }
    if lum < 0 {
        // Every channel is pulled up to at most zero; the result is at
        // least zero, so nothing is pulled down and every channel is zero.
        lemma_pull_up_negative_luma(r, lum, cmin);
        lemma_pull_up_negative_luma(g, lum, cmin);
        lemma_pull_up_negative_luma(b, lum, cmin);
        if cmax > 32768 {
            let x = pull_up(cmax, lum, cmin);
            lemma_pull_up_negative_luma(cmax, lum, cmin);
            lemma_pull_down_below_luma(x, lum, cmax);
            assert(clip_channel(cmax, lum, cmin, cmax) < 0);
            assert(false);
        }
    } else if lum <= 32768 {
        if r <= g {
            lemma_clip_keeps_order(r, g, lum, cmin, cmax);
        }
        if g <= r {
            lemma_clip_keeps_order(g, r, lum, cmin, cmax);
        }
        if r <= b {
            lemma_clip_keeps_order(r, b, lum, cmin, cmax);
        }
        if b <= r {
            lemma_clip_keeps_order(b, r, lum, cmin, cmax);
        }
        if g <= b {
            lemma_clip_keeps_order(g, b, lum, cmin, cmax);
        }
        if b <= g {
            lemma_clip_keeps_order(b, g, lum, cmin, cmax);
        }
    } else {
        // Every channel is pulled down to at least `1 << 15`; the result is
        // at most `1 << 15`, so every channel is `1 << 15`.
        let xr = if cmin < 0 { pull_up(r, lum, cmin) } else { r };
        let xg = if cmin < 0 { pull_up(g, lum, cmin) } else { g };
        let xb = if cmin < 0 { pull_up(b, lum, cmin) } else { b };
        if cmin < 0 {
            lemma_pull_up_range(r, lum, cmin);
            lemma_pull_up_range(g, lum, cmin);
            lemma_pull_up_range(b, lum, cmin);
        }
        lemma_pull_down_high_luma(xr, lum, cmax);
        lemma_pull_down_high_luma(xg, lum, cmax);
        lemma_pull_down_high_luma(xb, lum, cmax);
    }
}

/// `lum + ((c - lum) * lum) / (lum - cmin)` in `i32`.
fn pull_up_exec(c: i32, lum: i32, cmin: i32) -> (r: i32)
    requires
        pull_up_runs(c as int, lum as int, cmin as int),
        cmin < lum,
    ensures
        r == pull_up(c as int, lum as int, cmin as int),
{
    let dd = lum - cmin;
    lum + ((c - lum) * lum) / dd
}

/// `lum + ((c - lum) * ((1 << 15) - lum)) / (cmax - lum)` in `i32`.
fn pull_down_exec(c: i32, lum: i32, cmax: i32) -> (r: i32)
    requires
        pull_down_runs(c as int, lum as int, cmax as int),
        lum < cmax,
    ensures
        r == pull_down(c as int, lum as int, cmax as int),
{
    let w = 32768 - lum;
    let dd = cmax - lum;
    lum + ((c - lum) * w) / dd
}

/// `v as i16` reads the 16-bit pattern `v` as `as_i16` does.
proof fn lemma_as_i16(v: u16)
    ensures
        v as i16 == as_i16(v as int),
{
    assert(v > 32767 ==> (v as i16) as i32 == v as i32 - 65536) by (bit_vector);
    assert(v <= 32767 ==> (v as i16) as i32 == v as i32) by (bit_vector);
}

/// The luma of 16-bit channels fits in a `u32`, and shifted back it fits in
/// 16 bits.
proof fn lemma_luma_u16(r: u16, g: u16, b: u16)
    ensures
        0 <= luma_spec(r as int, g as int, b as int) <= 65535 * 32767,
        0 <= luma_spec(r as int, g as int, b as int) / 32768 <= 65533,
{
}

/// The products of the luma sum on shifted channels fit in an `i32`.
proof fn lemma_luma_terms(c: int)
    requires
        -32768 <= c <= 98302,
    ensures
        in_i32(c * 9830),
        in_i32(c * 19333),
        in_i32(c * 3604),
{
    lemma_mul_between(c, 9830, -32768, 98302, 9830);
    lemma_mul_between(c, 19333, -32768, 98302, 19333);
    lemma_mul_between(c, 3604, -32768, 98302, 3604);
}

/// Moves the colour `(topr, topg, topb)` to the luminosity of the colour
/// `(botr, botg, botb)`. It runs on the channels on which `set_lum` runs to
/// its end (on all fix15 channels among them, see `lemma_set_lum_runs`); the
/// channels of the result lie between `0` and `1 << 15`.
pub fn set_rgb16_lum_from_rgb16(
    topr: u16,
    topg: u16,
    topb: u16,
    botr: u16,
    botg: u16,
    botb: u16,
) -> (res: (u16, u16, u16))
    requires
        set_lum_runs((topr as int, topg as int, topb as int), (botr as int, botg as int, botb as int)),
    ensures
        ({
            let c = set_lum(
                (topr as int, topg as int, topb as int),
                (botr as int, botg as int, botb as int),
            );
            res.0 as int == c.0 && res.1 as int == c.1 && res.2 as int == c.2
        }),
        res.0 <= 32768,
        res.1 <= 32768,
        res.2 <= 32768,
{
    proof {
        lemma_luma_u16(botr, botg, botb);
        lemma_luma_u16(topr, topg, topb);
    }
    let botl = luma(botr as u32, botg as u32, botb as u32);
    let topl = luma(topr as u32, topg as u32, topb as u32);
    proof {
        lemma_shr15(botl);
        lemma_shr15(topl);
    }
    let botlum = (botl >> 15) as u16;
    let toplum = (topl >> 15) as u16;
    proof {
        lemma_as_i16(botlum);
        lemma_as_i16(toplum);
    }
    let diff = botlum as i16 - toplum as i16;
    let r0 = topr as i32 + diff as i32;
    let g0 = topg as i32 + diff as i32;
    let b0 = topb as i32 + diff as i32;
    proof {
        lemma_luma_terms(r0 as int);
        lemma_luma_terms(g0 as int);
        lemma_luma_terms(b0 as int);
        lemma_lum_between(r0 as int, g0 as int, b0 as int);
    }
    let sum = r0 * (LUMA_RED_COEFF as i32) + g0 * (LUMA_GREEN_COEFF as i32) + b0 * (
    LUMA_BLUE_COEFF as i32);
    assert(sum >> 15 == sum / 32768) by (bit_vector);
    let lum = sum >> 15;
    let cmin = if r0 <= g0 && r0 <= b0 {
        r0
    } else if g0 <= b0 {
        g0
    } else {
        b0
    };
    let cmax = if r0 >= g0 && r0 >= b0 {
        r0
    } else if g0 >= b0 {
        g0
    } else {
        b0
    };
    let mut r = r0;
    let mut g = g0;
    let mut b = b0;
    if cmin < 0 {
        r = pull_up_exec(r0, lum, cmin);
        g = pull_up_exec(g0, lum, cmin);
        b = pull_up_exec(b0, lum, cmin);
    }
    if cmax > 32768 {
        r = pull_down_exec(r, lum, cmax);
        g = pull_down_exec(g, lum, cmax);
        b = pull_down_exec(b, lum, cmax);
    }
    (r as u16, g as u16, b as u16)
}

// ---------------------------------------------------------------------------
// Valid pixels stay valid
// ---------------------------------------------------------------------------

/// A premultiplied fix15 pixel: an alpha of at most one, and colour
/// channels of at most the alpha.
pub open spec fn px_valid(p: Pixel) -> bool {
    &&& p.3 <= 32768
    &&& p.0 <= p.3
    &&& p.1 <= p.3
    &&& p.2 <= p.3
}

/// The dab's colour (and alpha) are fix15 values of at most one, and the
/// mask value times the opacity is at most one where the mode does not clamp
/// it.
pub open spec fn dab_inputs_valid(op: DabOp, m: u16) -> bool {
    match op {
        DabOp::Normal { color_r, color_g, color_b, opacity } => {
            &&& color_r <= 32768 && color_g <= 32768 && color_b <= 32768
            &&& fix15_mul(m as int, opacity as int) <= 32768
        },
        DabOp::Color { color_r, color_g, color_b, opacity } => {
            &&& color_r <= 32768 && color_g <= 32768 && color_b <= 32768
            &&& fix15_mul(m as int, opacity as int) <= 32768
        },
        DabOp::NormalAndEraser { color_r, color_g, color_b, color_a, opacity } => {
            &&& color_r <= 32768 && color_g <= 32768 && color_b <= 32768 && color_a <= 32768
            &&& fix15_mul(m as int, opacity as int) <= 32768
        },
        DabOp::LockAlpha { color_r, color_g, color_b, .. } => {
            color_r <= 32768 && color_g <= 32768 && color_b <= 32768
        },
    }
}

/// A blend of a colour channel `c` of at most one with a pixel channel `p`
/// of at most the alpha `a` is at most the blend's alpha.
proof fn lemma_mix_le(wa: int, c: int, wb: int, p: int, a: int)
    requires
        0 <= wa,
        0 <= wb,
        0 <= c <= 32768,
        0 <= p <= a,
    ensures
        0 <= wa * c + wb * p <= wa * 32768 + wb * a,
        (wa * c + wb * p) / 32768 <= wa + (wb * a) / 32768,
{
    assert(0 <= wa * c <= wa * 32768) by (nonlinear_arith)
        requires
            0 <= wa,
            0 <= c <= 32768,
    ;
    assert(0 <= wb * p <= wb * a) by (nonlinear_arith)
        requires
            0 <= wb,
            0 <= p <= a,
    ;
    vstd::arithmetic::div_mod::lemma_div_is_ordered(
        wa * c + wb * p,
        wa * 32768 + wb * a,
        32768,
    );
    assert((wa * 32768 + wb * a) / 32768 == wa + (wb * a) / 32768);
}

proof fn lemma_normal_keeps_pixel_valid(m: u16, p: Pixel, color_r: u16, color_g: u16, color_b: u16, opacity: u16)
    requires
        px_valid(p),
        dab_inputs_valid(DabOp::Normal { color_r, color_g, color_b, opacity }, m),
    ensures
        dab_op_fits(DabOp::Normal { color_r, color_g, color_b, opacity }, m, p),
        px_valid(dab_op_px(DabOp::Normal { color_r, color_g, color_b, opacity }, m, p)),
{
    let a = p.3 as int;
        let opa_a = fix15_mul(m as int, opacity as int);
        let opa_b = 32768 - opa_a;
        lemma_fix15_mul_le(a, opa_b);
        lemma_fix15_mul_le(opa_b, a);
        lemma_mix_le(opa_a, color_r as int, opa_b, p.0 as int, a);
        lemma_mix_le(opa_a, color_g as int, opa_b, p.1 as int, a);
        lemma_mix_le(opa_a, color_b as int, opa_b, p.2 as int, a);
}

proof fn lemma_eraser_keeps_pixel_valid(m: u16, p: Pixel, color_r: u16, color_g: u16, color_b: u16, color_a: u16, opacity: u16)
    requires
        px_valid(p),
        dab_inputs_valid(DabOp::NormalAndEraser { color_r, color_g, color_b, color_a, opacity }, m),
    ensures
        dab_op_fits(DabOp::NormalAndEraser { color_r, color_g, color_b, color_a, opacity }, m, p),
        px_valid(dab_op_px(DabOp::NormalAndEraser { color_r, color_g, color_b, color_a, opacity }, m, p)),
{
    let a = p.3 as int;
    let opa = fix15_mul(m as int, opacity as int);
    let opa_b = 32768 - opa;
    let opa_a = fix15_mul(opa, color_a as int);
    lemma_fix15_mul_le(opa, color_a as int);
    lemma_fix15_mul_le(a, opa_b);
    lemma_mix_le(opa_a, color_r as int, opa_b, p.0 as int, a);
    lemma_mix_le(opa_a, color_g as int, opa_b, p.1 as int, a);
    lemma_mix_le(opa_a, color_b as int, opa_b, p.2 as int, a);
    // The new alpha stays within one.
    assert(opa_a * 32768 + opa_b * a <= 32768 * 32768) by (nonlinear_arith)
        requires
            0 <= opa_a,
            0 <= opa_b,
            opa_a + opa_b <= 32768,
            0 <= a <= 32768,
    ;
}

proof fn lemma_lock_alpha_keeps_pixel_valid(m: u16, p: Pixel, color_r: u16, color_g: u16, color_b: u16, opacity: u16)
    requires
        px_valid(p),
        dab_inputs_valid(DabOp::LockAlpha { color_r, color_g, color_b, opacity }, m),
    ensures
        dab_op_fits(DabOp::LockAlpha { color_r, color_g, color_b, opacity }, m, p),
        px_valid(dab_op_px(DabOp::LockAlpha { color_r, color_g, color_b, opacity }, m, p)),
{
    let a = p.3 as int;
    let opa = fix15_mul(m as int, opacity as int);
    let opa_c = if opa > 32768 { 32768 } else { opa };
    let opa_b = 32768 - opa_c;
    let opa_a = fix15_mul(opa_c, a);
    lemma_fix15_mul_le(a, opa_c);
    lemma_fix15_mul_le(a, opa_b);
    lemma_mix_le(opa_a, color_r as int, opa_b, p.0 as int, a);
    lemma_mix_le(opa_a, color_g as int, opa_b, p.1 as int, a);
    lemma_mix_le(opa_a, color_b as int, opa_b, p.2 as int, a);
    // The two shifted parts of the alpha add up to at most the alpha.
    assert(opa_a + (opa_b * a) / 32768 <= a) by (nonlinear_arith)
        requires
            opa_a == (opa_c * a) / 32768,
            opa_c + opa_b == 32768,
            0 <= opa_c,
            0 <= opa_b,
            0 <= a,
    ;
}

proof fn lemma_color_keeps_pixel_valid(m: u16, p: Pixel, color_r: u16, color_g: u16, color_b: u16, opacity: u16)
    requires
        px_valid(p),
        dab_inputs_valid(DabOp::Color { color_r, color_g, color_b, opacity }, m),
    ensures
        dab_op_fits(DabOp::Color { color_r, color_g, color_b, opacity }, m, p),
        px_valid(dab_op_px(DabOp::Color { color_r, color_g, color_b, opacity }, m, p)),
{
    let a = p.3 as int;
        let u = unpremul(p);
        if p.3 != 0 {
            assert((p.0 as int * 32768) / a <= 32768) by (nonlinear_arith)
                requires
                    0 <= p.0 <= a,
                    0 < a,
            ;
            assert((p.1 as int * 32768) / a <= 32768) by (nonlinear_arith)
                requires
                    0 <= p.1 <= a,
                    0 < a,
            ;
            assert((p.2 as int * 32768) / a <= 32768) by (nonlinear_arith)
                requires
                    0 <= p.2 <= a,
                    0 < a,
            ;
        }
        lemma_set_lum_bounded((color_r as int, color_g as int, color_b as int), u);
        lemma_set_lum_runs((color_r as int, color_g as int, color_b as int), u);
        let c = set_lum((color_r as int, color_g as int, color_b as int), u);
        let opa_a = fix15_mul(m as int, opacity as int);
        let opa_b = 32768 - opa_a;
        lemma_fix15_mul_le(a, c.0);
        lemma_fix15_mul_le(a, c.1);
        lemma_fix15_mul_le(a, c.2);
        lemma_blend_le(opa_a, fix15_mul(c.0, a), opa_b, p.0 as int, a);
        lemma_blend_le(opa_a, fix15_mul(c.1, a), opa_b, p.1 as int, a);
        lemma_blend_le(opa_a, fix15_mul(c.2, a), opa_b, p.2 as int, a);
}

/// A blend, with weights that add up to one, of two values of at most `a`
/// is at most `a`.
proof fn lemma_blend_le(wa: int, x: int, wb: int, y: int, a: int)
    requires
        0 <= wa,
        0 <= wb,
        wa + wb == 32768,
        0 <= x <= a,
        0 <= y <= a,
    ensures
        0 <= wa * x + wb * y <= 32768 * a,
        (wa * x + wb * y) / 32768 <= a,
{
    assert(0 <= wa * x + wb * y <= 32768 * a) by (nonlinear_arith)
        requires
            0 <= wa,
            0 <= wb,
            wa + wb == 32768,
            0 <= x <= a,
            0 <= y <= a,
    ;
    vstd::arithmetic::div_mod::lemma_div_is_ordered(wa * x + wb * y, 32768 * a, 32768);
}

/// A dab with valid inputs runs on a valid pixel without overflow, and
/// leaves a valid pixel.
pub proof fn lemma_dab_keeps_pixel_valid(op: DabOp, m: u16, p: Pixel)
    requires
        px_valid(p),
        dab_inputs_valid(op, m),
    ensures
        dab_op_fits(op, m, p),
        px_valid(dab_op_px(op, m, p)),
{
    match op {
        DabOp::Normal { color_r, color_g, color_b, opacity } => {
            lemma_normal_keeps_pixel_valid(m, p, color_r, color_g, color_b, opacity);
        },
        DabOp::NormalAndEraser { color_r, color_g, color_b, color_a, opacity } => {
            lemma_eraser_keeps_pixel_valid(m, p, color_r, color_g, color_b, color_a, opacity);
        },
        DabOp::LockAlpha { color_r, color_g, color_b, opacity } => {
            lemma_lock_alpha_keeps_pixel_valid(m, p, color_r, color_g, color_b, opacity);
        },
        DabOp::Color { color_r, color_g, color_b, opacity } => {
            lemma_color_keeps_pixel_valid(m, p, color_r, color_g, color_b, opacity);
        },
    }
}

/// Over valid pixels and with valid inputs, every dab mode can run on the
/// whole mask, and every pixel under the mask is still valid afterwards.
pub proof fn lemma_dab_keeps_buffer_valid(op: DabOp, mask: Seq<u16>, old: Seq<u16>, new: Seq<u16>)
    requires
        forall|k: int|
            0 <= k < mask_pixels(mask).len() ==> px_valid(
                read_px(old, #[trigger] mask_pixels(mask)[k].1),
            ) && dab_inputs_valid(op, mask[mask_pixels(mask)[k].0]),
    ensures
        dab_fits(op, mask, old),
        dab_applied(op, mask, old, new) ==> forall|k: int|
            0 <= k < mask_pixels(mask).len() ==> px_valid(
                read_px(new, #[trigger] mask_pixels(mask)[k].1),
            ),
{
    let px = mask_pixels(mask);
    assert forall|k: int| 0 <= k < px.len() implies dab_op_fits(
        op,
        mask[#[trigger] px[k].0],
        read_px(old, px[k].1),
    ) && px_valid(dab_op_px(op, mask[px[k].0], read_px(old, px[k].1))) by {
        lemma_dab_keeps_pixel_valid(op, mask[px[k].0], read_px(old, px[k].1));
    }
}

/// The colour and lock-alpha modes leave the alpha of every pixel as it
/// was.
pub proof fn lemma_dab_keeps_alpha(op: DabOp, m: u16, p: Pixel)
    requires
        op is Color || op is LockAlpha,
    ensures
        dab_op_px(op, m, p).3 == p.3,
{
}

// ---------------------------------------------------------------------------
// What the blend modes do
// ---------------------------------------------------------------------------

/// The opacity of a dab.
pub open spec fn dab_opacity(op: DabOp) -> u16 {
    match op {
        DabOp::Normal { opacity, .. } => opacity,
        DabOp::Color { opacity, .. } => opacity,
        DabOp::NormalAndEraser { opacity, .. } => opacity,
        DabOp::LockAlpha { opacity, .. } => opacity,
    }
}

/// The weight of a dab at a pixel of mask value `m`: the mask value times
/// the opacity, in fix15.
pub open spec fn dab_weight(op: DabOp, m: u16) -> int {
    (m as int * dab_opacity(op) as int) / 32768
}

/// The same dab at full opacity.
pub open spec fn at_full_opacity(op: DabOp) -> DabOp {
    match op {
        DabOp::Normal { color_r, color_g, color_b, .. } => DabOp::Normal {
            color_r,
            color_g,
            color_b,
            opacity: 32768,
        },
        DabOp::Color { color_r, color_g, color_b, .. } => DabOp::Color {
            color_r,
            color_g,
            color_b,
            opacity: 32768,
        },
        DabOp::NormalAndEraser { color_r, color_g, color_b, color_a, .. } => DabOp::NormalAndEraser {
            color_r,
            color_g,
            color_b,
            color_a,
            opacity: 32768,
        },
        DabOp::LockAlpha { color_r, color_g, color_b, .. } => DabOp::LockAlpha {
            color_r,
            color_g,
            color_b,
            opacity: 32768,
        },
    }
}

/// The same dab with the colour `(r, g, b)`.
pub open spec fn recolored(op: DabOp, r: u16, g: u16, b: u16) -> DabOp {
    match op {
        DabOp::Normal { opacity, .. } => DabOp::Normal {
            color_r: r,
            color_g: g,
            color_b: b,
            opacity,
        },
        DabOp::Color { opacity, .. } => DabOp::Color { color_r: r, color_g: g, color_b: b, opacity },
        DabOp::NormalAndEraser { color_a, opacity, .. } => DabOp::NormalAndEraser {
            color_r: r,
            color_g: g,
            color_b: b,
            color_a,
            opacity,
        },
        DabOp::LockAlpha { opacity, .. } => DabOp::LockAlpha {
            color_r: r,
            color_g: g,
            color_b: b,
            opacity,
        },
    }
}

/// A dab of weight zero (its mask value times its opacity rounds to zero)
/// leaves the pixel as it was, in every mode.
pub proof fn lemma_dab_zero_weight_keeps_pixel(op: DabOp, m: u16, p: Pixel)
    requires
        dab_weight(op, m) == 0,
    ensures
        dab_op_px(op, m, p) == p,
{
    let a = p.3 as int;
    match op {
        DabOp::Normal { color_r, color_g, color_b, .. } => {
            lemma_keep_channel(p.0 as int, color_r as int);
            lemma_keep_channel(p.1 as int, color_g as int);
            lemma_keep_channel(p.2 as int, color_b as int);
            lemma_keep_channel(a, 0);
        },
        DabOp::NormalAndEraser { color_r, color_g, color_b, color_a, .. } => {
            assert(0 * color_a as int == 0);
            lemma_keep_channel(p.0 as int, color_r as int);
            lemma_keep_channel(p.1 as int, color_g as int);
            lemma_keep_channel(p.2 as int, color_b as int);
            lemma_keep_channel(a, 0);
        },
        DabOp::LockAlpha { color_r, color_g, color_b, .. } => {
            assert(0 * a == 0);
            lemma_keep_channel(p.0 as int, color_r as int);
            lemma_keep_channel(p.1 as int, color_g as int);
            lemma_keep_channel(p.2 as int, color_b as int);
        },
        DabOp::Color { color_r, color_g, color_b, .. } => {
            let c = set_lum((color_r as int, color_g as int, color_b as int), unpremul(p));
            lemma_keep_channel(p.0 as int, fix15_mul(c.0, a));
            lemma_keep_channel(p.1 as int, fix15_mul(c.1, a));
            lemma_keep_channel(p.2 as int, fix15_mul(c.2, a));
        },
    }
}

/// A channel `x` blended with weight zero toward `c` stays as it was.
proof fn lemma_keep_channel(x: int, c: int)
    requires
        0 <= x <= 65535,
    ensures
        ((0 * c + 32768 * x) / 32768) as u16 == x,
        (0 + (32768 * x) / 32768) as u16 == x,
{
    assert(0 * c + 32768 * x == 32768 * x);
}

/// In the normal and colour modes, a dab of weight `w` blends the pixel
/// with weight `w` toward what the dab gives at full strength (mask value
/// and opacity one): every channel, alpha included, becomes
/// `(w * full + (1 - w) * old) >> 15`.
pub proof fn lemma_dab_blends_toward_full_strength(op: DabOp, m: u16, p: Pixel)
    requires
        op is Normal || op is Color,
        dab_op_fits(op, m, p),
    ensures
        ({
            let w = dab_weight(op, m);
            let full = dab_op_px(at_full_opacity(op), 32768, p);
            let res = dab_op_px(op, m, p);
            &&& res.0 as int == (w * full.0 + (32768 - w) * p.0) / 32768
            &&& res.1 as int == (w * full.1 + (32768 - w) * p.1) / 32768
            &&& res.2 as int == (w * full.2 + (32768 - w) * p.2) / 32768
            &&& res.3 as int == (w * full.3 + (32768 - w) * p.3) / 32768
        }),
{
    match op {
        DabOp::Normal { color_r, color_g, color_b, opacity } => {
            lemma_normal_blend(m, p, color_r, color_g, color_b, opacity);
        },
        DabOp::Color { color_r, color_g, color_b, opacity } => {
            lemma_color_blend(m, p, color_r, color_g, color_b, opacity);
        },
        _ => {},
    }
}

proof fn lemma_normal_blend(m: u16, p: Pixel, color_r: u16, color_g: u16, color_b: u16, opacity: u16)
    requires
        fix15_mul(m as int, opacity as int) <= 32768,
    ensures
        ({
            let op = DabOp::Normal { color_r, color_g, color_b, opacity };
            let w = dab_weight(op, m);
            let full = dab_op_px(at_full_opacity(op), 32768, p);
            let res = dab_op_px(op, m, p);
            &&& res.0 as int == (w * full.0 + (32768 - w) * p.0) / 32768
            &&& res.1 as int == (w * full.1 + (32768 - w) * p.1) / 32768
            &&& res.2 as int == (w * full.2 + (32768 - w) * p.2) / 32768
            &&& res.3 as int == (w * full.3 + (32768 - w) * p.3) / 32768
        }),
{
    let op = DabOp::Normal { color_r, color_g, color_b, opacity };
    let w = dab_weight(op, m);
    assert(0 <= w) by (nonlinear_arith)
        requires
            w == (m as int * opacity as int) / 32768,
    ;
    let a = p.3 as int;
    lemma_mix_bound(w, color_r as int, 32768 - w, p.0 as int);
    lemma_mix_bound(w, color_g as int, 32768 - w, p.1 as int);
    lemma_mix_bound(w, color_b as int, 32768 - w, p.2 as int);
    lemma_mix_bound(32768, color_r as int, 0, p.0 as int);
    lemma_mix_bound(32768, color_g as int, 0, p.1 as int);
    lemma_mix_bound(32768, color_b as int, 0, p.2 as int);
    lemma_fix15_mul_le(a, 32768 - w);
    lemma_alpha_blend(w, a);
    assert(fix15_mul(32768, 32768) == 32768);
    assert(fix15_mul(0, a) == 0);
    let full = dab_op_px(at_full_opacity(op), 32768, p);
    assert(full.3 == 32768);
    let res = dab_op_px(op, m, p);
    assert(res.3 as int == w + ((32768 - w) * a) / 32768);
    assert(w * full.3 == w * 32768);
}

proof fn lemma_color_blend(m: u16, p: Pixel, color_r: u16, color_g: u16, color_b: u16, opacity: u16)
    requires
        dab_op_fits(DabOp::Color { color_r, color_g, color_b, opacity }, m, p),
    ensures
        ({
            let op = DabOp::Color { color_r, color_g, color_b, opacity };
            let w = dab_weight(op, m);
            let full = dab_op_px(at_full_opacity(op), 32768, p);
            let res = dab_op_px(op, m, p);
            &&& res.0 as int == (w * full.0 + (32768 - w) * p.0) / 32768
            &&& res.1 as int == (w * full.1 + (32768 - w) * p.1) / 32768
            &&& res.2 as int == (w * full.2 + (32768 - w) * p.2) / 32768
            &&& res.3 as int == (w * full.3 + (32768 - w) * p.3) / 32768
        }),
{
    let op = DabOp::Color { color_r, color_g, color_b, opacity };
    let w = dab_weight(op, m);
    assert(0 <= w) by (nonlinear_arith)
        requires
            w == (m as int * opacity as int) / 32768,
    ;
    let c = set_lum((color_r as int, color_g as int, color_b as int), unpremul(p));
    let a = p.3 as int;
    lemma_fix15_mul_le(a, c.0);
    lemma_fix15_mul_le(a, c.1);
    lemma_fix15_mul_le(a, c.2);
    let r = fix15_mul(c.0, a);
    let g = fix15_mul(c.1, a);
    let b = fix15_mul(c.2, a);
    lemma_mix_bound(w, r, 32768 - w, p.0 as int);
    lemma_mix_bound(w, g, 32768 - w, p.1 as int);
    lemma_mix_bound(w, b, 32768 - w, p.2 as int);
    lemma_mix_bound(32768, r, 0, p.0 as int);
    lemma_mix_bound(32768, g, 0, p.1 as int);
    lemma_mix_bound(32768, b, 0, p.2 as int);
    assert(fix15_mul(32768, 32768) == 32768);
    lemma_alpha_blend_same(w, a);
}

/// `w + ((1 - w) * a >> 15)` is the blend of one and `a` with weight `w`,
/// and fits in 16 bits.
proof fn lemma_alpha_blend(w: int, a: int)
    requires
        0 <= w <= 32768,
        0 <= a <= 65535,
    ensures
        w + ((32768 - w) * a) / 32768 == (w * 32768 + (32768 - w) * a) / 32768,
        w + ((32768 - w) * a) / 32768 <= 65535,
{
    assert(w + ((32768 - w) * a) / 32768 == (w * 32768 + (32768 - w) * a) / 32768)
        by (nonlinear_arith)
        requires
            0 <= w <= 32768,
            0 <= a,
    ;
    assert((32768 - w) * a <= (32768 - w) * 65535) by (nonlinear_arith)
        requires
            0 <= w <= 32768,
            0 <= a <= 65535,
    ;
    assert(w + ((32768 - w) * a) / 32768 <= 65535) by (nonlinear_arith)
        requires
            0 <= w <= 32768,
            0 <= (32768 - w) * a <= (32768 - w) * 65535,
    ;
}

/// The blend of `a` with itself is `a`.
proof fn lemma_alpha_blend_same(w: int, a: int)
    requires
        0 <= w <= 32768,
        0 <= a,
    ensures
        (w * a + (32768 - w) * a) / 32768 == a,
{
    assert(w * a + (32768 - w) * a == 32768 * a) by (nonlinear_arith);
}

/// In the normal, eraser and lock-alpha modes each colour channel of the
/// result depends on the same channel of the dab's colour alone: changing
/// the other two channels of the colour leaves it as it was.
pub proof fn lemma_dab_channels_independent(
    op: DabOp,
    m: u16,
    p: Pixel,
    r: u16,
    g: u16,
    b: u16,
    r2: u16,
    g2: u16,
    b2: u16,
)
    requires
        !(op is Color),
    ensures
        dab_op_px(recolored(op, r, g, b), m, p).0 == dab_op_px(recolored(op, r, g2, b2), m, p).0,
        dab_op_px(recolored(op, r, g, b), m, p).1 == dab_op_px(recolored(op, r2, g, b2), m, p).1,
        dab_op_px(recolored(op, r, g, b), m, p).2 == dab_op_px(recolored(op, r2, g2, b), m, p).2,
        dab_op_px(recolored(op, r, g, b), m, p).3 == dab_op_px(recolored(op, r2, g2, b2), m, p).3,
{
}

/// At full weight with fix15 colours on a valid pixel: the normal mode
/// paints the colour at alpha one; the eraser paints the colour at its own
/// alpha `color_a` (premultiplied by it); the lock-alpha mode paints the
/// colour premultiplied by the pixel's alpha, which it keeps.
pub proof fn lemma_dab_full_weight(op: DabOp, m: u16, p: Pixel)
    requires
        !(op is Color),
        dab_weight(op, m) == 32768,
        dab_inputs_valid(op, m),
        px_valid(p),
    ensures
        op matches DabOp::Normal { color_r, color_g, color_b, .. } ==> dab_op_px(op, m, p) == (
        color_r,
        color_g,
        color_b,
        32768u16,
        ),
        op matches DabOp::NormalAndEraser { color_r, color_g, color_b, color_a, .. } ==> {
            let res = dab_op_px(op, m, p);
            &&& res.0 as int == (color_a as int * color_r as int) / 32768
            &&& res.1 as int == (color_a as int * color_g as int) / 32768
            &&& res.2 as int == (color_a as int * color_b as int) / 32768
            &&& res.3 == color_a
        },
        op matches DabOp::LockAlpha { color_r, color_g, color_b, .. } ==> {
            let res = dab_op_px(op, m, p);
            &&& res.0 as int == (p.3 as int * color_r as int) / 32768
            &&& res.1 as int == (p.3 as int * color_g as int) / 32768
            &&& res.2 as int == (p.3 as int * color_b as int) / 32768
            &&& res.3 == p.3
        },
{
    match op {
        DabOp::Normal { color_r, color_g, color_b, opacity } => {
            lemma_mix_bound(32768, color_r as int, 0, p.0 as int);
            lemma_mix_bound(32768, color_g as int, 0, p.1 as int);
            lemma_mix_bound(32768, color_b as int, 0, p.2 as int);
        },
        DabOp::NormalAndEraser { color_r, color_g, color_b, color_a, opacity } => {
            lemma_fix15_mul_le(32768, color_a as int);
            assert((32768 * color_a as int) / 32768 == color_a);
            lemma_mix_bound(color_a as int, color_r as int, 0, p.0 as int);
            lemma_mix_bound(color_a as int, color_g as int, 0, p.1 as int);
            lemma_mix_bound(color_a as int, color_b as int, 0, p.2 as int);
        },
        DabOp::LockAlpha { color_r, color_g, color_b, opacity } => {
            assert((32768 * p.3 as int) / 32768 == p.3);
            lemma_mix_bound(p.3 as int, color_r as int, 0, p.0 as int);
            lemma_mix_bound(p.3 as int, color_g as int, 0, p.1 as int);
            lemma_mix_bound(p.3 as int, color_b as int, 0, p.2 as int);
        },
        _ => {},
    }
}

/// On an opaque pixel, a colour dab of full weight gives the pixel the
/// dab's colour moved to the pixel's luminosity, the luminosity transfer
/// `set_rgb16_lum_from_rgb16` computes, and keeps the alpha.
pub proof fn lemma_color_full_weight_on_opaque(
    m: u16,
    p: Pixel,
    color_r: u16,
    color_g: u16,
    color_b: u16,
    opacity: u16,
)
    requires
        p.3 == 32768,
        dab_weight(DabOp::Color { color_r, color_g, color_b, opacity }, m) == 32768,
        dab_op_fits(DabOp::Color { color_r, color_g, color_b, opacity }, m, p),
    ensures
        ({
            let c = set_lum(
                (color_r as int, color_g as int, color_b as int),
                (p.0 as int, p.1 as int, p.2 as int),
            );
            let res = dab_op_px(DabOp::Color { color_r, color_g, color_b, opacity }, m, p);
            &&& res.0 as int == c.0
            &&& res.1 as int == c.1
            &&& res.2 as int == c.2
            &&& res.3 == 32768
        }),
{
    assert((p.0 as int * 32768) / 32768 == p.0);
    assert((p.1 as int * 32768) / 32768 == p.1);
    assert((p.2 as int * 32768) / 32768 == p.2);
    assert(unpremul(p) == (p.0 as int, p.1 as int, p.2 as int));
    let c = set_lum(
        (color_r as int, color_g as int, color_b as int),
        (p.0 as int, p.1 as int, p.2 as int),
    );
    assert(fix15_mul(c.0, 32768) == c.0);
    assert(fix15_mul(c.1, 32768) == c.1);
    assert(fix15_mul(c.2, 32768) == c.2);
    lemma_mix_bound(32768, c.0, 0, p.0 as int);
    lemma_mix_bound(32768, c.1, 0, p.1 as int);
    lemma_mix_bound(32768, c.2, 0, p.2 as int);
}

/// An eraser dab whose colour has alpha one is a normal dab.
pub proof fn lemma_eraser_with_alpha_one_is_normal(
    m: u16,
    p: Pixel,
    color_r: u16,
    color_g: u16,
    color_b: u16,
    opacity: u16,
)
    ensures
        dab_op_px(
            DabOp::NormalAndEraser { color_r, color_g, color_b, color_a: 32768, opacity },
            m,
            p,
        ) == dab_op_px(DabOp::Normal { color_r, color_g, color_b, opacity }, m, p),
{
    let opa = fix15_mul(m as int, opacity as int);
    assert(opa >= 0) by (nonlinear_arith)
        requires
            opa == (m as int * opacity as int) / 32768,
    ;
    assert((opa * 32768) / 32768 == opa);
}

/// An eraser dab whose colour has alpha zero erases: every channel of the
/// pixel, alpha included, is scaled by one less the dab's weight `w`.
pub proof fn lemma_eraser_with_alpha_zero_erases(
    m: u16,
    p: Pixel,
    color_r: u16,
    color_g: u16,
    color_b: u16,
    opacity: u16,
)
    requires
        dab_weight(DabOp::Normal { color_r, color_g, color_b, opacity }, m) <= 32768,
    ensures
        ({
            let w = dab_weight(DabOp::Normal { color_r, color_g, color_b, opacity }, m);
            let res = dab_op_px(
                DabOp::NormalAndEraser { color_r, color_g, color_b, color_a: 0, opacity },
                m,
                p,
            );
            &&& res.0 as int == ((32768 - w) * p.0) / 32768
            &&& res.1 as int == ((32768 - w) * p.1) / 32768
            &&& res.2 as int == ((32768 - w) * p.2) / 32768
            &&& res.3 as int == ((32768 - w) * p.3) / 32768
        }),
{
    let w = dab_weight(DabOp::Normal { color_r, color_g, color_b, opacity }, m);
    assert(w >= 0) by (nonlinear_arith)
        requires
            w == (m as int * opacity as int) / 32768,
    ;
    let opa_a = fix15_mul(w, 0);
    assert(opa_a == 0);
    lemma_scale_channel(w, p.0 as int, color_r as int);
    lemma_scale_channel(w, p.1 as int, color_g as int);
    lemma_scale_channel(w, p.2 as int, color_b as int);
    lemma_fix15_mul_le(p.3 as int, 32768 - w);
}

/// A channel blended with weight zero toward `c` and `1 - w` toward `x` is
/// `x` scaled by `1 - w`.
proof fn lemma_scale_channel(w: int, x: int, c: int)
    requires
        0 <= w <= 32768,
        0 <= x <= 65535,
    ensures
        ((0 * c + (32768 - w) * x) / 32768) as u16 as int == ((32768 - w) * x) / 32768,
{
    lemma_fix15_mul_le(x, 32768 - w);
    assert(0 * c + (32768 - w) * x == (32768 - w) * x);
}

/// On an opaque pixel, a lock-alpha dab of weight at most one does what the
/// normal dab does.
pub proof fn lemma_lock_alpha_on_opaque_is_normal(
    m: u16,
    p: Pixel,
    color_r: u16,
    color_g: u16,
    color_b: u16,
    opacity: u16,
)
    requires
        p.3 == 32768,
        dab_weight(DabOp::Normal { color_r, color_g, color_b, opacity }, m) <= 32768,
    ensures
        dab_op_px(DabOp::LockAlpha { color_r, color_g, color_b, opacity }, m, p) == dab_op_px(
            DabOp::Normal { color_r, color_g, color_b, opacity },
            m,
            p,
        ),
{
    let w = dab_weight(DabOp::Normal { color_r, color_g, color_b, opacity }, m);
    assert(w >= 0) by (nonlinear_arith)
        requires
            w == (m as int * opacity as int) / 32768,
    ;
    assert((w * 32768) / 32768 == w);
    assert(((32768 - w) * 32768) / 32768 == 32768 - w);
}

/// A lock-alpha dab of weight above one does what the dab of weight one
/// does.
pub proof fn lemma_lock_alpha_clamps_weight(op: DabOp, m: u16, p: Pixel)
    requires
        op is LockAlpha,
        dab_weight(op, m) >= 32768,
    ensures
        dab_op_px(op, m, p) == dab_op_px(at_full_opacity(op), 32768, p),
{
}

// ---------------------------------------------------------------------------
// The mask walk
// ---------------------------------------------------------------------------

/// The pixel that starts at slot `ri`.
fn read_pixel(rgba: &[u16], ri: usize) -> (p: Pixel)
    requires
        ri + 4 <= rgba@.len(),
    ensures
        p == read_px(rgba@, ri as int),
{
    (rgba[ri], rgba[ri + 1], rgba[ri + 2], rgba[ri + 3])
}

/// Stores `q` in the pixel that starts at slot `ri`.
fn write_pixel(rgba: &mut [u16], ri: usize, q: Pixel)
    requires
        ri + 4 <= old(rgba)@.len(),
    ensures
        final(rgba)@.len() == old(rgba)@.len(),
        read_px(final(rgba)@, ri as int) == q,
        forall|j: int|
            0 <= j < old(rgba)@.len() && !(ri <= j < ri + 4) ==> final(rgba)@[j] == old(rgba)@[j],
{
    let n = rgba.len();
    assert(ri + 4 <= n);
    rgba[ri] = q.0;
    rgba[ri + 1] = q.1;
    rgba[ri + 2] = q.2;
    rgba[ri + 3] = q.3;
}

/// The state of the mask walk at buffer slot `ri`, with the pixels `done`
/// painted so far: they lie before `ri` and hold the dab's result on their
/// old value, and every slot from `ri` on or outside them holds its old
/// value.
#[verifier::opaque]
pub open spec fn walk_state(
    op: DabOp,
    mask: Seq<u16>,
    old_rgba: Seq<u16>,
    cur: Seq<u16>,
    done: Seq<(int, int)>,
    ri: int,
) -> bool {
    &&& cur.len() == old_rgba.len()
    &&& forall|k: int| 0 <= k < done.len() ==> 0 <= #[trigger] done[k].1 && done[k].1 + 4 <= ri
    &&& forall|k: int|
        0 <= k < done.len() ==> read_px(cur, #[trigger] done[k].1) == dab_op_px(
            op,
            mask[done[k].0],
            read_px(old_rgba, done[k].1),
        )
    &&& forall|j: int|
        0 <= j < cur.len() && (j >= ri || !covered(done, j)) ==> cur[j] == old_rgba[j]
}

/// Pushing the pixel at `ri`, painted, onto the pixels done keeps the walk
/// state.
proof fn lemma_walk_step(
    op: DabOp,
    mask: Seq<u16>,
    old_rgba: Seq<u16>,
    before: Seq<u16>,
    after: Seq<u16>,
    done: Seq<(int, int)>,
    mi: int,
    ri: int,
)
    requires
        walk_state(op, mask, old_rgba, before, done, ri),
        after.len() == old_rgba.len(),
        0 <= ri,
        ri + 4 <= old_rgba.len(),
        read_px(after, ri) == dab_op_px(op, mask[mi], read_px(old_rgba, ri)),
        forall|j: int| 0 <= j < before.len() && !(ri <= j < ri + 4) ==> after[j] == before[j],
    ensures
        walk_state(op, mask, old_rgba, after, done.push((mi, ri)), ri + 4),
{
    reveal(walk_state);
    let nd = done.push((mi, ri));
    let k = done.len() as int;
    assert forall|j: int|
        0 <= j < after.len() && (j >= ri + 4 || !covered(nd, j)) implies after[j]
        == old_rgba[j] by {
        if ri <= j < ri + 4 {
            assert(nd[k].1 <= j < nd[k].1 + 4);
            assert(covered(nd, j));
        }
        if !covered(nd, j) {
            assert forall|kk: int| 0 <= kk < done.len() implies !(#[trigger] done[kk].1 <= j
                < done[kk].1 + 4) by {
                assert(nd[kk] == done[kk]);
            }
        }
    }
    assert forall|kk: int| 0 <= kk < nd.len() implies read_px(after, #[trigger] nd[kk].1)
        == dab_op_px(op, mask[nd[kk].0], read_px(old_rgba, nd[kk].1)) by {
        if kk < k {
            assert(nd[kk] == done[kk]);
            assert(read_px(after, done[kk].1) == read_px(before, done[kk].1));
        }
    }
    assert forall|kk: int| 0 <= kk < nd.len() implies 0 <= #[trigger] nd[kk].1 && nd[kk].1 + 4
        <= ri + 4 by {
        if kk < k {
            assert(nd[kk] == done[kk]);
        }
    }
}

/// Skipping ahead in the buffer keeps the walk state.
proof fn lemma_walk_skip(
    op: DabOp,
    mask: Seq<u16>,
    old_rgba: Seq<u16>,
    cur: Seq<u16>,
    done: Seq<(int, int)>,
    ri: int,
    ri2: int,
)
    requires
        walk_state(op, mask, old_rgba, cur, done, ri),
        ri <= ri2,
    ensures
        walk_state(op, mask, old_rgba, cur, done, ri2),
{
    reveal(walk_state);
}

/// The walk's start and end: nothing is done at slot zero; at the end,
/// `dab_applied` holds.
proof fn lemma_walk_ends(op: DabOp, mask: Seq<u16>, old_rgba: Seq<u16>, cur: Seq<u16>, ri: int)
    ensures
        walk_state(op, mask, old_rgba, old_rgba, Seq::empty(), 0),
        walk_state(op, mask, old_rgba, cur, mask_pixels(mask), ri) ==> dab_applied(
            op,
            mask,
            old_rgba,
            cur,
        ),
{
    reveal(walk_state);
}

/// The pixel at the walk position is still untouched.
proof fn lemma_walk_unread(
    op: DabOp,
    mask: Seq<u16>,
    old_rgba: Seq<u16>,
    cur: Seq<u16>,
    done: Seq<(int, int)>,
    ri: int,
)
    requires
        walk_state(op, mask, old_rgba, cur, done, ri),
        0 <= ri,
        ri + 4 <= cur.len(),
    ensures
        read_px(cur, ri) == read_px(old_rgba, ri),
{
    reveal(walk_state);
}

/// Applies `op` to every pixel of `rgba` under the dab mask.
fn draw_dab_pixels(mask: &[u16], rgba: &mut [u16], op: DabOp)
    requires
        walk_ok(mask@, old(rgba)@.len() as int, 0, 0),
        dab_fits(op, mask@, old(rgba)@),
    ensures
        dab_applied(op, mask@, old(rgba)@, final(rgba)@),
{
    let ghost old_rgba = rgba@;
    let ghost px = mask_pixels(mask@);
    let ghost mut done: Seq<(int, int)> = Seq::empty();
    let n = rgba.len();
    let mut mi: usize = 0;
    let mut ri: usize = 0;
    assert(done + dab_pixels(mask@, 0, 0) =~= px);
    proof {
        lemma_walk_ends(op, mask@, old_rgba, rgba@, 0);
    }
    loop
        invariant
            rgba@.len() == n,
            old_rgba.len() == n,
            walk_ok(mask@, n as int, mi as int, ri as int),
            px == mask_pixels(mask@),
            done + dab_pixels(mask@, mi as int, ri as int) == px,
            dab_fits(op, mask@, old_rgba),
            walk_state(op, mask@, old_rgba, rgba@, done, ri as int),
        ensures
            done == px,
            walk_state(op, mask@, old_rgba, rgba@, done, ri as int),
        decreases mask.len() - mi,
    {
        if mask[mi] != 0 {
            let ghost sfx = dab_pixels(mask@, mi as int, ri as int);
            let ghost k = done.len() as int;
            assert(sfx == seq![(mi as int, ri as int)] + dab_pixels(mask@, mi + 1, ri + 4));
            assert(px[k] == sfx[0]);
            proof {
                lemma_walk_unread(op, mask@, old_rgba, rgba@, done, ri as int);
            }
            let p = read_pixel(rgba, ri);
            assert(dab_op_fits(op, mask@[px[k].0], read_px(old_rgba, px[k].1)));
            let q = blend_pixel(&op, mask[mi], p);
            let ghost before = rgba@;
            write_pixel(rgba, ri, q);
            proof {
                lemma_walk_step(op, mask@, old_rgba, before, rgba@, done, mi as int, ri as int);
                assert(done.push((mi as int, ri as int)) + dab_pixels(mask@, mi + 1, ri + 4)
                    =~= done + sfx);
                done = done.push((mi as int, ri as int));
            }
            mi = mi + 1;
            ri = ri + 4;
        } else {
            if mask[mi + 1] == 0 {
                assert(dab_pixels(mask@, mi as int, ri as int) =~= Seq::<(int, int)>::empty());
                assert(done =~= px);
                break ;
            }
            let skip = mask[mi + 1] as usize;
            assert(walk_ok(mask@, n as int, mi + 2, ri + skip));
            assert(ri + skip <= n);
            proof {
                lemma_walk_skip(op, mask@, old_rgba, rgba@, done, ri as int, ri + skip);
            }
            ri = ri + skip;
            mi = mi + 2;
        }
    }
    proof {
        lemma_walk_ends(op, mask@, old_rgba, rgba@, ri as int);
    }
}

/// Paints the colour over the pixels under the dab mask.
pub fn draw_dab_pixels_BlendMode_Normal(
    mask: &[u16],
    rgba: &mut [u16],
    color_r: u16,
    color_g: u16,
    color_b: u16,
    opacity: u16,
)
    requires
        walk_ok(mask@, old(rgba)@.len() as int, 0, 0),
        dab_fits(DabOp::Normal { color_r, color_g, color_b, opacity }, mask@, old(rgba)@),
    ensures
        dab_applied(
            DabOp::Normal { color_r, color_g, color_b, opacity },
            mask@,
            old(rgba)@,
            final(rgba)@,
        ),
{
    draw_dab_pixels(mask, rgba, DabOp::Normal { color_r, color_g, color_b, opacity });
}

/// Blends into each pixel under the dab mask the colour moved to the
/// pixel's luma (`set_lum`, with its rounding and clipping), weighted by
/// the mask and the opacity; the alpha stays as it was.
pub fn draw_dab_pixels_BlendMode_Color(
    mask: &[u16],
    rgba: &mut [u16],
    color_r: u16,
    color_g: u16,
    color_b: u16,
    opacity: u16,
)
    requires
        walk_ok(mask@, old(rgba)@.len() as int, 0, 0),
        dab_fits(DabOp::Color { color_r, color_g, color_b, opacity }, mask@, old(rgba)@),
    ensures
        dab_applied(
            DabOp::Color { color_r, color_g, color_b, opacity },
            mask@,
            old(rgba)@,
            final(rgba)@,
        ),
{
    draw_dab_pixels(mask, rgba, DabOp::Color { color_r, color_g, color_b, opacity });
}

/// Paints a colour with its own alpha over the pixels under the dab mask;
/// with an alpha below one it erases.
pub fn draw_dab_pixels_BlendMode_Normal_and_Eraser(
    mask: &[u16],
    rgba: &mut [u16],
    color_r: u16,
    color_g: u16,
    color_b: u16,
    color_a: u16,
    opacity: u16,
)
    requires
        walk_ok(mask@, old(rgba)@.len() as int, 0, 0),
        dab_fits(
            DabOp::NormalAndEraser { color_r, color_g, color_b, color_a, opacity },
            mask@,
            old(rgba)@,
        ),
    ensures
        dab_applied(
            DabOp::NormalAndEraser { color_r, color_g, color_b, color_a, opacity },
            mask@,
            old(rgba)@,
            final(rgba)@,
        ),
{
    draw_dab_pixels(
        mask,
        rgba,
        DabOp::NormalAndEraser { color_r, color_g, color_b, color_a, opacity },
    );
}

/// Paints the colour over the pixels under the dab mask, keeping their
/// alpha.
pub fn draw_dab_pixels_BlendMode_LockAlpha(
    mask: &[u16],
    rgba: &mut [u16],
    color_r: u16,
    color_g: u16,
    color_b: u16,
    opacity: u16,
)
    requires
        walk_ok(mask@, old(rgba)@.len() as int, 0, 0),
        dab_fits(DabOp::LockAlpha { color_r, color_g, color_b, opacity }, mask@, old(rgba)@),
    ensures
        dab_applied(
            DabOp::LockAlpha { color_r, color_g, color_b, opacity },
            mask@,
            old(rgba)@,
            final(rgba)@,
        ),
{
    draw_dab_pixels(mask, rgba, DabOp::LockAlpha { color_r, color_g, color_b, opacity });
}

// ---------------------------------------------------------------------------
// Sampling the colour under a dab
// ---------------------------------------------------------------------------

/// The sums that sampling under a dab mask gathers: the total mask weight,
/// and each channel weighted by the mask.
#[derive(Debug, Clone, Copy, PartialEq, Eq)]
pub struct ColorSums {
    pub weight: u32,
    pub r: u32,
    pub g: u32,
    pub b: u32,
    pub a: u32,
}

/// The sums over the pixels `px`: the mask values, and each channel
/// multiplied by its pixel's mask value and shifted back by 15.
pub open spec fn pixel_sums(mask: Seq<u16>, rgba: Seq<u16>, px: Seq<(int, int)>) -> (
    int,
    int,
    int,
    int,
    int,
)
    decreases px.len(),
{
    if px.len() == 0 {
        (0, 0, 0, 0, 0)
    } else {
        let mi = px[0].0;
        let ri = px[0].1;
        let opa = mask[mi] as int;
        let rest = pixel_sums(mask, rgba, px.drop_first());
        (
            opa + rest.0,
            fix15_mul(opa, rgba[ri] as int) + rest.1,
            fix15_mul(opa, rgba[ri + 1] as int) + rest.2,
            fix15_mul(opa, rgba[ri + 2] as int) + rest.3,
            fix15_mul(opa, rgba[ri + 3] as int) + rest.4,
        )
    }
}

/// The sums over the pixels of a whole mask.
pub open spec fn mask_sums(mask: Seq<u16>, rgba: Seq<u16>) -> (int, int, int, int, int) {
    pixel_sums(mask, rgba, mask_pixels(mask))
}

/// The sums fit in `u32`.
pub open spec fn sums_fit(t: (int, int, int, int, int)) -> bool {
    &&& t.0 <= u32::MAX
    &&& t.1 <= u32::MAX
    &&& t.2 <= u32::MAX
    &&& t.3 <= u32::MAX
    &&& t.4 <= u32::MAX
}

proof fn lemma_pixel_sums_nonneg(mask: Seq<u16>, rgba: Seq<u16>, px: Seq<(int, int)>)
    ensures
        ({
            let t = pixel_sums(mask, rgba, px);
            t.0 >= 0 && t.1 >= 0 && t.2 >= 0 && t.3 >= 0 && t.4 >= 0
        }),
    decreases px.len(),
{
    if px.len() > 0 {
        lemma_pixel_sums_nonneg(mask, rgba, px.drop_first());
        let mi = px[0].0;
        let ri = px[0].1;
        let opa = mask[mi] as int;
        assert(fix15_mul(opa, rgba[ri] as int) >= 0) by (nonlinear_arith)
            requires opa >= 0, rgba[ri] >= 0;
        assert(fix15_mul(opa, rgba[ri + 1] as int) >= 0) by (nonlinear_arith)
            requires opa >= 0, rgba[ri + 1] >= 0;
        assert(fix15_mul(opa, rgba[ri + 2] as int) >= 0) by (nonlinear_arith)
            requires opa >= 0, rgba[ri + 2] >= 0;
        assert(fix15_mul(opa, rgba[ri + 3] as int) >= 0) by (nonlinear_arith)
            requires opa >= 0, rgba[ri + 3] >= 0;
    }
}

/// `(m * c) >> 15` in `u32`.
fn weigh(m: u16, c: u16) -> (r: u32)
    ensures
        r == fix15_mul(m as int, c as int),
{
    proof {
        lemma_mul_u16(m as int, c as int);
    }
    let x = m as u32 * c as u32;
    proof {
        lemma_shr15(x);
    }
    x >> 15
}

/// Sums, over the pixels under the dab mask, the mask weights and the
/// channels weighted by the mask.
pub fn get_color_pixels_accumulate(mask: &[u16], rgba: &[u16]) -> (sums: ColorSums)
    requires
        walk_ok(mask@, rgba@.len() as int, 0, 0),
        sums_fit(mask_sums(mask@, rgba@)),
    ensures
        (sums.weight as int, sums.r as int, sums.g as int, sums.b as int, sums.a as int)
            == mask_sums(mask@, rgba@),
{
    let ghost total = mask_sums(mask@, rgba@);
    let n = rgba.len();
    let mut weight: u32 = 0;
    let mut r: u32 = 0;
    let mut g: u32 = 0;
    let mut b: u32 = 0;
    let mut a: u32 = 0;
    let mut mi: usize = 0;
    let mut ri: usize = 0;
    loop
        invariant
            rgba@.len() == n,
            walk_ok(mask@, n as int, mi as int, ri as int),
            total == mask_sums(mask@, rgba@),
            sums_fit(total),
            ({
                let rest = pixel_sums(mask@, rgba@, dab_pixels(mask@, mi as int, ri as int));
                &&& weight + rest.0 == total.0
                &&& r + rest.1 == total.1
                &&& g + rest.2 == total.2
                &&& b + rest.3 == total.3
                &&& a + rest.4 == total.4
            }),
        ensures
            weight == total.0 && r == total.1 && g == total.2 && b == total.3 && a == total.4,
        decreases mask.len() - mi,
    {
        if mask[mi] != 0 {
            let ghost sfx = dab_pixels(mask@, mi as int, ri as int);
            let ghost tail = dab_pixels(mask@, mi + 1, ri + 4);
            assert(sfx == seq![(mi as int, ri as int)] + tail);
            assert(sfx.drop_first() =~= tail);
            proof {
                lemma_pixel_sums_nonneg(mask@, rgba@, tail);
            }
            let opa = mask[mi];
            weight = weight + opa as u32;
            r = r + weigh(opa, rgba[ri]);
            g = g + weigh(opa, rgba[ri + 1]);
            b = b + weigh(opa, rgba[ri + 2]);
            a = a + weigh(opa, rgba[ri + 3]);
            mi = mi + 1;
            ri = ri + 4;
        } else {
            if mask[mi + 1] == 0 {
                assert(dab_pixels(mask@, mi as int, ri as int) =~= Seq::<(int, int)>::empty());
                break ;
            }
            let skip = mask[mi + 1] as usize;
            assert(walk_ok(mask@, n as int, mi + 2, ri + skip));
            assert(ri + skip <= n);
            ri = ri + skip;
            mi = mi + 2;
        }
    }
    ColorSums { weight, r, g, b, a }
}

// ---------------------------------------------------------------------------
// Checking a mask before a dab
// ---------------------------------------------------------------------------

/// The mask walk stays inside the mask and a buffer of `rgba_len` slots.
pub fn dab_walk_ok(mask: &[u16], rgba_len: usize) -> (ok: bool)
    ensures
        ok == walk_ok(mask@, rgba_len as int, 0, 0),
{
    let mut mi: usize = 0;
    let mut ri: usize = 0;
    loop
        invariant
            ri <= rgba_len,
            walk_ok(mask@, rgba_len as int, 0, 0) == walk_ok(
                mask@,
                rgba_len as int,
                mi as int,
                ri as int,
            ),
        decreases mask.len() - mi,
    {
        if mi >= mask.len() {
            return false;
        }
        if mask[mi] != 0 {
            if rgba_len - ri < 4 {
                return false;
            }
            mi = mi + 1;
            ri = ri + 4;
        } else {
            if mi + 1 >= mask.len() {
                return false;
            }
            let skip = mask[mi + 1] as usize;
            if skip == 0 {
                return true;
            }
            if rgba_len - ri < skip {
                assert(!walk_ok(mask@, rgba_len as int, mi + 2, ri + skip));
                return false;
            }
            mi = mi + 2;
            ri = ri + skip;
        }
    }
}

/// `v` fits in an `i32`.
fn in_i32_exec(v: i64) -> (ok: bool)
    ensures
        ok == in_i32(v as int),
{
    -2147483648 <= v && v <= 2147483647
}

/// `pull_up(c, lum, cmin)` where it runs in `i32`, computed in `i64`.
fn pull_up_checked(c: i64, lum: i64, cmin: i64) -> (res: Option<i64>)
    requires
        in_i32(c as int),
        in_i32(lum as int),
        in_i32(cmin as int),
        cmin <= lum,
    ensures
        res is Some <==> pull_up_runs(c as int, lum as int, cmin as int),
        res matches Some(v) ==> v == pull_up(c as int, lum as int, cmin as int),
{
    let x = c - lum;
    let d = lum - cmin;
    if !in_i32_exec(x) || !in_i32_exec(d) || d == 0 {
        return None;
    }
    assert(-0x4000_0000_0000_0000 <= x * lum <= 0x4000_0000_0000_0000) by (nonlinear_arith)
        requires
            in_i32(x as int),
            in_i32(lum as int),
    ;
    let p = x * lum;
    if !in_i32_exec(p) {
        return None;
    }
    let q = p / d;
    if !in_i32_exec(q) {
        return None;
    }
    let v = lum + q;
    if !in_i32_exec(v) {
        return None;
    }
    Some(v)
}

/// `pull_down(c, lum, cmax)` where it runs in `i32`, computed in `i64`.
fn pull_down_checked(c: i64, lum: i64, cmax: i64) -> (res: Option<i64>)
    requires
        in_i32(c as int),
        in_i32(lum as int),
        in_i32(cmax as int),
        lum < cmax,
    ensures
        res is Some <==> pull_down_runs(c as int, lum as int, cmax as int),
        res matches Some(v) ==> v == pull_down(c as int, lum as int, cmax as int),
{
    let x = c - lum;
    let w = 32768 - lum;
    let d = cmax - lum;
    if !in_i32_exec(x) || !in_i32_exec(w) || !in_i32_exec(d) || d == 0 {
        return None;
    }
    assert(-0x4000_0000_0000_0000 <= x * w <= 0x4000_0000_0000_0000) by (nonlinear_arith)
        requires
            in_i32(x as int),
            in_i32(w as int),
    ;
    let p = x * w;
    if !in_i32_exec(p) {
        return None;
    }
    let q = p / d;
    if !in_i32_exec(q) {
        return None;
    }
    let v = lum + q;
    if !in_i32_exec(v) {
        return None;
    }
    Some(v)
}

/// `set_lum_runs` in executable form, on 16-bit channels.
#[verifier::rlimit(60)]
pub fn set_lum_runs_check(topr: u16, topg: u16, topb: u16, botr: u16, botg: u16, botb: u16) -> (ok:
    bool)
    ensures
        ok == set_lum_runs(
            (topr as int, topg as int, topb as int),
            (botr as int, botg as int, botb as int),
        ),
{
    proof {
        lemma_luma_u16(botr, botg, botb);
        lemma_luma_u16(topr, topg, topb);
    }
    let botl = luma(botr as u32, botg as u32, botb as u32);
    let topl = luma(topr as u32, topg as u32, topb as u32);
    proof {
        lemma_shr15(botl);
        lemma_shr15(topl);
    }
    let botlum = (botl >> 15) as u16;
    let toplum = (topl >> 15) as u16;
    proof {
        lemma_as_i16(botlum);
        lemma_as_i16(toplum);
    }
    let d = botlum as i16 as i64 - toplum as i16 as i64;
    if d < -32768 || d > 32767 {
        return false;
    }
    let r = topr as i64 + d;
    let g = topg as i64 + d;
    let b = topb as i64 + d;
    proof {
        lemma_luma_terms(r as int);
        lemma_luma_terms(g as int);
        lemma_luma_terms(b as int);
        lemma_lum_between(r as int, g as int, b as int);
    }
    let s1 = r * 9830 + g * 19333;
    if !in_i32_exec(s1) {
        return false;
    }
    let s = s1 + b * 3604;
    if !in_i32_exec(s) {
        return false;
    }
    assert(s >> 15 == s / 32768) by (bit_vector);
    let lum = s >> 15;
    let cmin = if r <= g && r <= b {
        r
    } else if g <= b {
        g
    } else {
        b
    };
    let cmax = if r >= g && r >= b {
        r
    } else if g >= b {
        g
    } else {
        b
    };
    let mut r1 = r;
    let mut g1 = g;
    let mut b1 = b;
    if cmin < 0 {
        match pull_up_checked(r, lum, cmin) {
            Some(v) => r1 = v,
            None => return false,
        }
        match pull_up_checked(g, lum, cmin) {
            Some(v) => g1 = v,
            None => return false,
        }
        match pull_up_checked(b, lum, cmin) {
            Some(v) => b1 = v,
            None => return false,
        }
    }
    let mut r2 = r1;
    let mut g2 = g1;
    let mut b2 = b1;
    if cmax > 32768 {
        match pull_down_checked(r1, lum, cmax) {
            Some(v) => r2 = v,
            None => return false,
        }
        match pull_down_checked(g1, lum, cmax) {
            Some(v) => g2 = v,
            None => return false,
        }
        match pull_down_checked(b1, lum, cmax) {
            Some(v) => b2 = v,
            None => return false,
        }
    }
    0 <= r2 && r2 <= 32768 && 0 <= g2 && g2 <= 32768 && 0 <= b2 && b2 <= 32768
}

/// `dab_op_fits` in executable form.
fn dab_op_fits_exec(op: &DabOp, m: u16, p: Pixel) -> (ok: bool)
    ensures
        ok == dab_op_fits(*op, m, p),
{
    match op {
        DabOp::Normal { opacity, .. } => opa_of(m, *opacity) <= FIX15_ONE,
        DabOp::NormalAndEraser { opacity, .. } => opa_of(m, *opacity) <= FIX15_ONE,
        DabOp::LockAlpha { .. } => true,
        DabOp::Color { color_r, color_g, color_b, opacity } => {
            if opa_of(m, *opacity) > FIX15_ONE {
                return false;
            }
            let mut r: u16 = 0;
            let mut g: u16 = 0;
            let mut b: u16 = 0;
            if p.3 != 0 {
                r = unpremul_channel(p.0, p.3);
                g = unpremul_channel(p.1, p.3);
                b = unpremul_channel(p.2, p.3);
            }
            set_lum_runs_check(*color_r, *color_g, *color_b, r, g, b)
        },
    }
}

/// Every pixel under the mask fits `dab_op_fits` for `op`.
pub fn dab_fits_check(op: &DabOp, mask: &[u16], rgba: &[u16]) -> (ok: bool)
    requires
        walk_ok(mask@, rgba@.len() as int, 0, 0),
    ensures
        ok == dab_fits(*op, mask@, rgba@),
{
    let ghost px = mask_pixels(mask@);
    let ghost mut done: Seq<(int, int)> = Seq::empty();
    let n = rgba.len();
    let mut mi: usize = 0;
    let mut ri: usize = 0;
    assert(done + dab_pixels(mask@, 0, 0) =~= px);
    loop
        invariant
            rgba@.len() == n,
            walk_ok(mask@, n as int, mi as int, ri as int),
            px == mask_pixels(mask@),
            done + dab_pixels(mask@, mi as int, ri as int) == px,
            forall|k: int|
                0 <= k < done.len() ==> dab_op_fits(
                    *op,
                    mask@[#[trigger] px[k].0],
                    read_px(rgba@, px[k].1),
                ),
        decreases mask.len() - mi,
    {
        if mask[mi] != 0 {
            let ghost sfx = dab_pixels(mask@, mi as int, ri as int);
            let ghost k = done.len() as int;
            assert(sfx == seq![(mi as int, ri as int)] + dab_pixels(mask@, mi + 1, ri + 4));
            assert(px[k] == sfx[0]);
            let p = read_pixel(rgba, ri);
            if !dab_op_fits_exec(op, mask[mi], p) {
                assert(!dab_op_fits(*op, mask@[px[k].0], read_px(rgba@, px[k].1)));
                return false;
            }
            proof {
                assert(done.push((mi as int, ri as int)) + dab_pixels(mask@, mi + 1, ri + 4)
                    =~= done + sfx);
                assert forall|kk: int| 0 <= kk < done.len() + 1 implies dab_op_fits(
                    *op,
                    mask@[#[trigger] px[kk].0],
                    read_px(rgba@, px[kk].1),
                ) by {}
                done = done.push((mi as int, ri as int));
            }
            mi = mi + 1;
            ri = ri + 4;
        } else {
            if mask[mi + 1] == 0 {
                assert(dab_pixels(mask@, mi as int, ri as int) =~= Seq::<(int, int)>::empty());
                assert(done =~= px);
                return true;
            }
            let skip = mask[mi + 1] as usize;
            assert(walk_ok(mask@, n as int, mi + 2, ri + skip));
            assert(ri + skip <= n);
            ri = ri + skip;
            mi = mi + 2;
        }
    }
}

/// The sums that sampling under the mask gathers all fit in `u32`.
pub fn color_sums_fit(mask: &[u16], rgba: &[u16]) -> (ok: bool)
    requires
        walk_ok(mask@, rgba@.len() as int, 0, 0),
    ensures
        ok == sums_fit(mask_sums(mask@, rgba@)),
{
    let ghost total = mask_sums(mask@, rgba@);
    let n = rgba.len();
    let max: u64 = 0xFFFF_FFFF;
    let mut weight: u64 = 0;
    let mut r: u64 = 0;
    let mut g: u64 = 0;
    let mut b: u64 = 0;
    let mut a: u64 = 0;
    let mut mi: usize = 0;
    let mut ri: usize = 0;
    proof {
        lemma_pixel_sums_nonneg(mask@, rgba@, dab_pixels(mask@, 0, 0));
    }
    loop
        invariant
            rgba@.len() == n,
            walk_ok(mask@, n as int, mi as int, ri as int),
            total == mask_sums(mask@, rgba@),
            max == 0xFFFF_FFFF,
            weight <= max && r <= max && g <= max && b <= max && a <= max,
            ({
                let rest = pixel_sums(mask@, rgba@, dab_pixels(mask@, mi as int, ri as int));
                &&& weight + rest.0 == total.0
                &&& r + rest.1 == total.1
                &&& g + rest.2 == total.2
                &&& b + rest.3 == total.3
                &&& a + rest.4 == total.4
            }),
        decreases mask.len() - mi,
    {
        if mask[mi] != 0 {
            let ghost sfx = dab_pixels(mask@, mi as int, ri as int);
            let ghost tail = dab_pixels(mask@, mi + 1, ri + 4);
            assert(sfx == seq![(mi as int, ri as int)] + tail);
            assert(sfx.drop_first() =~= tail);
            proof {
                lemma_pixel_sums_nonneg(mask@, rgba@, tail);
            }
            let opa = mask[mi];
            weight = weight + opa as u64;
            r = r + weigh(opa, rgba[ri]) as u64;
            g = g + weigh(opa, rgba[ri + 1]) as u64;
            b = b + weigh(opa, rgba[ri + 2]) as u64;
            a = a + weigh(opa, rgba[ri + 3]) as u64;
            if weight > max || r > max || g > max || b > max || a > max {
                return false;
            }
            mi = mi + 1;
            ri = ri + 4;
        } else {
            if mask[mi + 1] == 0 {
                assert(dab_pixels(mask@, mi as int, ri as int) =~= Seq::<(int, int)>::empty());
                return true;
            }
            let skip = mask[mi + 1] as usize;
            assert(walk_ok(mask@, n as int, mi + 2, ri + skip));
            assert(ri + skip <= n);
            ri = ri + skip;
            mi = mi + 2;
        }
    }
}

} // verus!

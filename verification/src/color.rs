use vstd::arithmetic::div_mod::{
    lemma_div_is_ordered, lemma_div_multiples_vanish, lemma_div_pos_is_pos,
    lemma_fundamental_div_mod_converse_mod,
};
use vstd::arithmetic::mul::lemma_mul_nonnegative;
use vstd::prelude::*;

use crate::buffer::{lemma_index_decompose, lemma_px_index, ImgV, PixelBuffer};

verus! {

/// A color filter: a pure rule applied to the R, G, B channels of every pixel,
/// leaving any alpha channel unchanged.
#[derive(Clone, Copy, Debug, PartialEq, Eq, Structural)]
pub enum ColorOp {
    Grayscale,
    /// Sepia tone from the classic fixed coefficient matrix.
    Sepia,
    /// Each of R, G, B replaced by its distance from 255.
    Invert,
    /// Multiplicative contrast around the midpoint 128. The factor is given in
    /// thousandths, so 1000 is the identity.
    Contrast(u32),
    /// Additive brightness shift, clamped into the byte range.
    Brightness(i32),
}

/// Clamp an intermediate result into the byte domain.
pub open spec fn clamp255(v: int) -> int {
    if v < 0 {
        0
    } else if v > 255 {
        255
    } else {
        v
    }
}

/// The ITU-R BT.601 luma of a pixel, with integer weights in thousandths.
pub open spec fn luma_val(r: int, g: int, b: int) -> int {
    clamp255((299 * r + 587 * g + 114 * b) / 1000)
}

/// Channel `c` of the sepia matrix applied to one pixel.
pub open spec fn sepia_val(r: int, g: int, b: int, c: int) -> int {
    if c == 0 {
        clamp255((393 * r + 769 * g + 189 * b) / 1000)
    } else if c == 1 {
        clamp255((349 * r + 686 * g + 168 * b) / 1000)
    } else {
        clamp255((272 * r + 534 * g + 131 * b) / 1000)
    }
}

/// Contrast around the midpoint: `clamp((v - 128) * factor + 128)` with the
/// factor in thousandths, computed on magnitudes so the rounding always
/// truncates toward zero.
pub open spec fn contrast_val(v: int, milli: int) -> int {
    if v >= 128 {
        clamp255(128 + ((v - 128) * milli) / 1000)
    } else {
        let drop = ((128 - v) * milli) / 1000;
        if drop > 128 {
            0
        } else {
            128 - drop
        }
    }
}

/// Brightness shift: `clamp(v + delta)`.
pub open spec fn brightness_val(v: int, delta: int) -> int {
    clamp255(v + delta)
}

/// Selects channel `c` (0 = R, 1 = G, 2 = B) of a pixel.
pub open spec fn channel_sel(r: int, g: int, b: int, c: int) -> int {
    if c == 0 {
        r
    } else if c == 1 {
        g
    } else {
        b
    }
}

/// What a color filter writes into channel `c` of a pixel whose input
/// channels are `r`, `g`, `b`.
pub open spec fn op_val(op: ColorOp, r: int, g: int, b: int, c: int) -> int {
    match op {
        ColorOp::Grayscale => luma_val(r, g, b),
        ColorOp::Sepia => sepia_val(r, g, b, c),
        ColorOp::Invert => 255 - channel_sel(r, g, b, c),
        ColorOp::Contrast(milli) => contrast_val(channel_sel(r, g, b, c), milli as int),
        ColorOp::Brightness(delta) => brightness_val(channel_sel(r, g, b, c), delta as int),
    }
}

/// The byte contents after a color filter: R, G, B of every pixel transformed,
/// everything else (the alpha channel) copied.
pub open spec fn color_op_data(op: ColorOp, d: Seq<u8>, ch: int) -> Seq<u8> {
    Seq::new(
        d.len(),
        |j: int|
            {
                let c = j % ch;
                let base = j - c;
                if c < 3 {
                    op_val(op, d[base] as int, d[base + 1] as int, d[base + 2] as int, c) as u8
                } else {
                    d[j]
                }
            },
    )
}

/// A color filter keeps the geometry and maps the bytes by `color_op_data`.
pub open spec fn color_op_v(op: ColorOp, m: ImgV) -> ImgV {
    ImgV {
        width: m.width,
        height: m.height,
        channels: m.channels,
        data: color_op_data(op, m.data, m.channels as int),
    }
}

pub open spec fn grayscale_v(m: ImgV) -> ImgV {
    color_op_v(ColorOp::Grayscale, m)
}

pub open spec fn sepia_v(m: ImgV) -> ImgV {
    color_op_v(ColorOp::Sepia, m)
}

pub open spec fn invert_v(m: ImgV) -> ImgV {
    color_op_v(ColorOp::Invert, m)
}

pub open spec fn contrast_v(m: ImgV, milli: u32) -> ImgV {
    color_op_v(ColorOp::Contrast(milli), m)
}

pub open spec fn brightness_v(m: ImgV, delta: i32) -> ImgV {
    color_op_v(ColorOp::Brightness(delta), m)
}

/// Every color filter's output stays in the byte domain.
pub proof fn lemma_op_val_range(op: ColorOp, r: int, g: int, b: int, c: int)
    requires
        0 <= r <= 255,
        0 <= g <= 255,
        0 <= b <= 255,
    ensures
        0 <= op_val(op, r, g, b, c) <= 255,
{
    match op {
        ColorOp::Grayscale => {},
        ColorOp::Sepia => {},
        ColorOp::Invert => {},
        ColorOp::Contrast(milli) => {
            let v = channel_sel(r, g, b, c);
            if v < 128 {
                lemma_mul_nonnegative(128 - v, milli as int);
                lemma_div_pos_is_pos((128 - v) * (milli as int), 1000);
            }
        },
        ColorOp::Brightness(_) => {},
    }
}

/// Helper bound for truncating division.
proof fn lemma_div_bound(x: int, b: int, d: int)
    requires
        0 <= x <= b,
        0 < d,
    ensures
        0 <= x / d <= b / d,
{
    lemma_div_pos_is_pos(x, d);
    lemma_div_is_ordered(x, b, d);
}

/// Facts about the pixel holding byte `j` of a valid buffer: byte `k` of the
/// same pixel is in range and sits at channel offset `k`.
pub proof fn lemma_color_base(m: ImgV, j: int, k: int)
    requires
        m.valid(),
        0 <= j < m.data.len(),
        0 <= k < m.channels,
    ensures
        ({
            let ch = m.channels as int;
            let base = j - j % ch;
            0 <= j % ch < ch && 0 <= base + k < m.data.len() && (base + k) % ch == k
        }),
{
    let ch = m.channels as int;
    lemma_index_decompose(m, j);
    let c = j % ch;
    let x = (j / ch) % (m.width as int);
    let y = (j / ch) / (m.width as int);
    assert(j - c == (y * m.width + x) * ch);
    lemma_px_index(m, x, y, k);
}

/// Computes one output channel of a color filter. `c` is the channel index
/// inside the pixel; the caller passes the three input color bytes.
fn eval_color_op(op: &ColorOp, r: u8, g: u8, b: u8, c: usize) -> (v: u8)
    requires
        c < 3,
    ensures
        v as int == op_val(*op, r as int, g as int, b as int, c as int),
{
    match op {
        ColorOp::Grayscale => {
            let sum: u32 = 299 * (r as u32) + 587 * (g as u32) + 114 * (b as u32);
            let q: u32 = sum / 1000;
            proof {
                lemma_div_bound(sum as int, 255000, 1000);
            }
            q as u8
        },
        ColorOp::Sepia => {
            let sum: u32 = if c == 0 {
                393 * (r as u32) + 769 * (g as u32) + 189 * (b as u32)
            } else if c == 1 {
                349 * (r as u32) + 686 * (g as u32) + 168 * (b as u32)
            } else {
                272 * (r as u32) + 534 * (g as u32) + 131 * (b as u32)
            };
            let q: u32 = sum / 1000;
            proof {
                lemma_div_bound(sum as int, 344505, 1000);
            }
            if q > 255 {
                255
            } else {
                q as u8
            }
        },
        ColorOp::Invert => {
            let s: u8 = if c == 0 {
                r
            } else if c == 1 {
                g
            } else {
                b
            };
            255 - s
        },
        ColorOp::Contrast(milli) => {
            let s: u8 = if c == 0 {
                r
            } else if c == 1 {
                g
            } else {
                b
            };
            let mi: u64 = *milli as u64;
            if s >= 128 {
                let diff: u64 = (s - 128) as u64;
                proof {
                    assert(diff * mi <= 127u64 * 0xffff_ffffu64) by (nonlinear_arith)
                        requires
                            diff <= 127,
                            mi <= 0xffff_ffffu64,
                    ;
                }
                let q: u64 = (diff * mi) / 1000;
                if q > 127 {
                    255
                } else {
                    (128 + q) as u8
                }
            } else {
                let diff: u64 = (128 - s) as u64;
                proof {
                    assert(diff * mi <= 128u64 * 0xffff_ffffu64) by (nonlinear_arith)
                        requires
                            diff <= 128,
                            mi <= 0xffff_ffffu64,
                    ;
                }
                let q: u64 = (diff * mi) / 1000;
                if q > 128 {
                    0
                } else {
                    (128 - q) as u8
                }
            }
        },
        ColorOp::Brightness(delta) => {
            let s: u8 = if c == 0 {
                r
            } else if c == 1 {
                g
            } else {
                b
            };
            let t: i64 = s as i64 + (*delta as i64);
            if t < 0 {
                0
            } else if t > 255 {
                255
            } else {
                t as u8
            }
        },
    }
}

/// Applies a color filter to every pixel, producing a fresh buffer.
fn apply_color_op(b: &PixelBuffer, op: ColorOp) -> (r: PixelBuffer)
    requires
        b.wf(),
    ensures
        r.wf(),
        r@ == color_op_v(op, b@),
{
    let ghost m = b@;
    let ch: usize = b.channels as usize;
    let len: usize = b.data.len();
    let ghost wh: int = (m.width * m.height) as int;
    let ghost chi: int = m.channels as int;
    proof {
        assert(len as int == wh * chi);
        assert(wh * chi == chi * wh) by (nonlinear_arith);
        lemma_div_multiples_vanish(wh, chi);
    }
    let n_px: usize = len / ch;
    let mut out: Vec<u8> = Vec::new();
    let mut p: usize = 0;
    let mut base: usize = 0;
    while p < n_px
        invariant
            b.wf(),
            m == b@,
            ch as int == chi,
            3 <= chi <= 4,
            len == b.data.len(),
            wh == m.width * m.height,
            len as int == wh * chi,
            n_px as int == wh,
            p <= n_px,
            base as int == p as int * chi,
            out.len() == base,
            forall|j: int| 0 <= j < base ==> out[j] == color_op_data(op, m.data, chi)[j],
        decreases n_px - p,
    {
        proof {
            assert(base as int + chi <= len as int) by (nonlinear_arith)
                requires
                    base as int == p as int * chi,
                    (p as int) < wh,
                    len as int == wh * chi,
                    chi >= 1,
            ;
        }
        let cr = b.data[base];
        let cg = b.data[base + 1];
        let cb = b.data[base + 2];
        let v0 = eval_color_op(&op, cr, cg, cb, 0);
        let v1 = eval_color_op(&op, cr, cg, cb, 1);
        let v2 = eval_color_op(&op, cr, cg, cb, 2);
        out.push(v0);
        out.push(v1);
        out.push(v2);
        if ch == 4 {
            out.push(b.data[base + 3]);
        }
        proof {
            let bi = base as int;
            let d = m.data;
            let sd = color_op_data(op, d, chi);
            assert forall|j: int| bi <= j < bi + chi implies out@[j] == sd[j] by {
                let k = j - bi;
                lemma_fundamental_div_mod_converse_mod(j, chi, p as int, k);
                assert(j % chi == k);
                if k < 3 {
                    lemma_op_val_range(op, d[bi] as int, d[bi + 1] as int, d[bi + 2] as int, k);
                }
            }
            assert((p as int + 1) * chi == p as int * chi + chi) by (nonlinear_arith);
        }
        p = p + 1;
        base = base + ch;
    }
    proof {
        assert(base as int == wh * chi) by (nonlinear_arith)
            requires
                base as int == p as int * chi,
                p as int == wh,
        ;
        assert(out@ =~= color_op_data(op, m.data, chi));
    }
    let r = PixelBuffer { width: b.width, height: b.height, channels: b.channels, data: out };
    proof {
        assert(r@ =~= color_op_v(op, m));
    }
    r
}

/// A color filter never changes the buffer's geometry, so validity carries
/// over.
pub proof fn lemma_color_op_valid(op: ColorOp, m: ImgV)
    requires
        m.valid(),
    ensures
        color_op_v(op, m).valid(),
{
}

/// Sets each of R, G, B to the pixel's luma; alpha is untouched.
pub fn grayscale(b: &PixelBuffer) -> (r: PixelBuffer)
    requires
        b.wf(),
    ensures
        r.wf(),
        r@ == grayscale_v(b@),
{
    apply_color_op(b, ColorOp::Grayscale)
}

/// Applies the fixed sepia coefficient matrix to each pixel; alpha is
/// untouched.
pub fn sepia(b: &PixelBuffer) -> (r: PixelBuffer)
    requires
        b.wf(),
    ensures
        r.wf(),
        r@ == sepia_v(b@),
{
    apply_color_op(b, ColorOp::Sepia)
}

/// Replaces each of R, G, B with `255 - value`; alpha is untouched.
pub fn invert(b: &PixelBuffer) -> (r: PixelBuffer)
    requires
        b.wf(),
    ensures
        r.wf(),
        r@ == invert_v(b@),
{
    apply_color_op(b, ColorOp::Invert)
}

/// Scales each channel's distance from 128 by `factor_milli / 1000`;
/// `factor_milli == 1000` is the identity.
pub fn apply_contrast(b: &PixelBuffer, factor_milli: u32) -> (r: PixelBuffer)
    requires
        b.wf(),
    ensures
        r.wf(),
        r@ == contrast_v(b@, factor_milli),
{
    apply_color_op(b, ColorOp::Contrast(factor_milli))
}

/// Adds `delta` to each of R, G, B, clamped into the byte range; `delta == 0`
/// is the identity.
pub fn apply_brightness(b: &PixelBuffer, delta: i32) -> (r: PixelBuffer)
    requires
        b.wf(),
    ensures
        r.wf(),
        r@ == brightness_v(b@, delta),
{
    apply_color_op(b, ColorOp::Brightness(delta))
}

/// Grayscale is idempotent: a pixel that already carries its luma in all
/// three color channels keeps it.
pub proof fn lemma_grayscale_idempotent(m: ImgV)
    requires
        m.valid(),
    ensures
        grayscale_v(grayscale_v(m)) == grayscale_v(m),
{
    let m1 = grayscale_v(m);
    let m2 = grayscale_v(m1);
    lemma_color_op_valid(ColorOp::Grayscale, m);
    let chi = m.channels as int;
    assert forall|j: int| 0 <= j < m.data.len() implies m2.data[j] == m1.data[j] by {
        lemma_color_base(m, j, 0);
        lemma_color_base(m, j, 1);
        lemma_color_base(m, j, 2);
        let c = j % chi;
        let base = j - c;
        if c < 3 {
            let yv = luma_val(m.data[base] as int, m.data[base + 1] as int, m.data[base + 2] as int);
            assert(m1.data[base] == yv as u8 && m1.data[base + 1] == yv as u8 && m1.data[base + 2]
                == yv as u8);
            assert(m1.data[j] == yv as u8);
            let y = yv as u8 as int;
            assert(299 * y + 587 * y + 114 * y == 1000 * y);
            lemma_div_multiples_vanish(y, 1000);
            assert(luma_val(y, y, y) == y);
        }
    }
    assert(m2.data =~= m1.data);
    assert(m2 =~= m1);
}

/// Inversion is an exact involution: applying it twice returns the original
/// buffer, byte for byte.
pub proof fn lemma_invert_involutive(m: ImgV)
    requires
        m.valid(),
    ensures
        invert_v(invert_v(m)) == m,
{
    let m1 = invert_v(m);
    let m2 = invert_v(m1);
    lemma_color_op_valid(ColorOp::Invert, m);
    let chi = m.channels as int;
    assert forall|j: int| 0 <= j < m.data.len() implies m2.data[j] == m.data[j] by {
        lemma_color_base(m, j, 0);
        lemma_color_base(m, j, 1);
        lemma_color_base(m, j, 2);
        let c = j % chi;
        let base = j - c;
        if c < 3 {
            assert(m1.data[base + c] == (255 - m.data[base + c] as int) as u8);
        }
    }
    assert(m2.data =~= m.data);
    assert(m2 =~= m);
}

/// A contrast factor of exactly 1 changes nothing.
pub proof fn lemma_contrast_identity(m: ImgV)
    requires
        m.valid(),
    ensures
        contrast_v(m, 1000) == m,
{
    let m1 = contrast_v(m, 1000);
    let chi = m.channels as int;
    assert forall|j: int| 0 <= j < m.data.len() implies m1.data[j] == m.data[j] by {
        lemma_color_base(m, j, 0);
        lemma_color_base(m, j, 1);
        lemma_color_base(m, j, 2);
        let c = j % chi;
        let base = j - c;
        if c < 3 {
            let v = m.data[base + c] as int;
            if v >= 128 {
                assert((v - 128) * 1000 == 1000 * (v - 128));
                lemma_div_multiples_vanish(v - 128, 1000);
            } else {
                assert((128 - v) * 1000 == 1000 * (128 - v));
                lemma_div_multiples_vanish(128 - v, 1000);
            }
        }
    }
    assert(m1.data =~= m.data);
    assert(m1 =~= m);
}

/// A brightness delta of zero changes nothing.
pub proof fn lemma_brightness_identity(m: ImgV)
    requires
        m.valid(),
    ensures
        brightness_v(m, 0) == m,
{
    let m1 = brightness_v(m, 0);
    let chi = m.channels as int;
    assert forall|j: int| 0 <= j < m.data.len() implies m1.data[j] == m.data[j] by {
        lemma_color_base(m, j, 0);
        lemma_color_base(m, j, 1);
        lemma_color_base(m, j, 2);
    }
    assert(m1.data =~= m.data);
    assert(m1 =~= m);
}

} // verus!

use vstd::prelude::*;

use crate::buffer::{lemma_px_index, px_index, ImgV, PixelBuffer};
use crate::color::{clamp255, luma_val};

verus! {

/// Edge-clamped sampling coordinate: reads outside the image are pulled to
/// the nearest border pixel.
pub open spec fn clamp_coord(v: int, limit: int) -> int {
    if v < 0 {
        0
    } else if v >= limit {
        limit - 1
    } else {
        v
    }
}

/// The byte at channel `c` of the pixel sampled at `(x, y)` with edge
/// clamping.
pub open spec fn sample(m: ImgV, x: int, y: int, c: int) -> int {
    m.data[px_index(
        m,
        clamp_coord(x, m.width as int),
        clamp_coord(y, m.height as int),
        c,
    )] as int
}

/// One channel of the 3x3 sharpening kernel (center 5, cross -1) at `(x, y)`.
pub open spec fn sharpen_val(m: ImgV, x: int, y: int, c: int) -> int {
    clamp255(
        5 * sample(m, x, y, c) - sample(m, x - 1, y, c) - sample(m, x + 1, y, c) - sample(
            m,
            x,
            y - 1,
            c,
        ) - sample(m, x, y + 1, c),
    )
}

pub open spec fn abs_val(v: int) -> int {
    if v < 0 {
        -v
    } else {
        v
    }
}

/// The luma of the pixel sampled at `(x, y)` with edge clamping.
pub open spec fn luma_sample(m: ImgV, x: int, y: int) -> int {
    luma_val(sample(m, x, y, 0), sample(m, x, y, 1), sample(m, x, y, 2))
}

/// Horizontal Sobel response on the luma plane.
pub open spec fn grad_x(m: ImgV, x: int, y: int) -> int {
    (luma_sample(m, x + 1, y - 1) + 2 * luma_sample(m, x + 1, y) + luma_sample(m, x + 1, y + 1)) - (
    luma_sample(m, x - 1, y - 1) + 2 * luma_sample(m, x - 1, y) + luma_sample(m, x - 1, y + 1))
}

/// Vertical Sobel response on the luma plane.
pub open spec fn grad_y(m: ImgV, x: int, y: int) -> int {
    (luma_sample(m, x - 1, y + 1) + 2 * luma_sample(m, x, y + 1) + luma_sample(m, x + 1, y + 1)) - (
    luma_sample(m, x - 1, y - 1) + 2 * luma_sample(m, x, y - 1) + luma_sample(m, x + 1, y - 1))
}

/// Sobel gradient magnitude, in the one-norm, clamped into the byte range.
pub open spec fn edge_val(m: ImgV, x: int, y: int) -> int {
    let s = abs_val(grad_x(m, x, y)) + abs_val(grad_y(m, x, y));
    if s > 255 {
        255
    } else {
        s
    }
}

/// The bytes after sharpening: each color channel convolved, alpha copied.
pub open spec fn sharpen_data(m: ImgV) -> Seq<u8> {
    Seq::new(
        m.data.len(),
        |j: int|
            {
                let ch = m.channels as int;
                let c = j % ch;
                let q = j / ch;
                let x = q % (m.width as int);
                let y = q / (m.width as int);
                if c < 3 {
                    sharpen_val(m, x, y, c) as u8
                } else {
                    m.data[j]
                }
            },
    )
}

pub open spec fn sharpen_v(m: ImgV) -> ImgV {
    ImgV { width: m.width, height: m.height, channels: m.channels, data: sharpen_data(m) }
}

/// The bytes after edge detection: R, G and B all carry the gradient
/// magnitude of the luma plane, alpha is copied.
pub open spec fn edge_data(m: ImgV) -> Seq<u8> {
    Seq::new(
        m.data.len(),
        |j: int|
            {
                let ch = m.channels as int;
                let c = j % ch;
                let q = j / ch;
                let x = q % (m.width as int);
                let y = q / (m.width as int);
                if c < 3 {
                    edge_val(m, x, y) as u8
                } else {
                    m.data[j]
                }
            },
    )
}

pub open spec fn edge_v(m: ImgV) -> ImgV {
    ImgV { width: m.width, height: m.height, channels: m.channels, data: edge_data(m) }
}

/// Reads channel `c` of the pixel at `(x, y)`, clamping the coordinates to
/// the image borders.
fn sample_at(b: &PixelBuffer, x: i64, y: i64, c: usize) -> (v: u8)
    requires
        b.wf(),
        b@.width > 0,
        b@.height > 0,
        c < b@.channels,
        -3 <= x <= 0x1_0000_0002,
        -3 <= y <= 0x1_0000_0002,
    ensures
        v as int == sample(b@, x as int, y as int, c as int),
{
    let ghost m = b@;
    let w: u32 = b.width;
    let h: u32 = b.height;
    let xc: u32 = if x < 0 {
        0
    } else if x >= w as i64 {
        w - 1
    } else {
        x as u32
    };
    let yc: u32 = if y < 0 {
        0
    } else if y >= h as i64 {
        h - 1
    } else {
        y as u32
    };
    let len: usize = b.data.len();
    proof {
        assert(len == m.data.len());
        lemma_px_index(m, xc as int, yc as int, c as int);
        assert((yc as usize) as int * (w as usize) as int == (yc as int) * (m.width as int))
            by (nonlinear_arith)
            requires
                (yc as usize) as int == yc as int,
                (w as usize) as int == m.width as int,
        ;
        assert(((yc as usize) as int * (w as usize) as int + (xc as usize) as int) * ((
        b.channels as usize) as int) == ((yc as int) * (m.width as int) + xc as int) * (
        m.channels as int)) by (nonlinear_arith)
            requires
                (yc as usize) as int == yc as int,
                (xc as usize) as int == xc as int,
                (w as usize) as int == m.width as int,
                (b.channels as usize) as int == m.channels as int,
        ;
    }
    let idx: usize = ((yc as usize) * (w as usize) + (xc as usize)) * (b.channels as usize) + c;
    b.data[idx]
}

/// Reads the luma of the pixel at `(x, y)` with edge clamping.
fn luma_sample_at(b: &PixelBuffer, x: i64, y: i64) -> (v: u8)
    requires
        b.wf(),
        b@.width > 0,
        b@.height > 0,
        -3 <= x <= 0x1_0000_0002,
        -3 <= y <= 0x1_0000_0002,
    ensures
        v as int == luma_sample(b@, x as int, y as int),
{
    let cr = sample_at(b, x, y, 0);
    let cg = sample_at(b, x, y, 1);
    let cb = sample_at(b, x, y, 2);
    let sum: u32 = 299 * (cr as u32) + 587 * (cg as u32) + 114 * (cb as u32);
    let q: u32 = sum / 1000;
    proof {
        vstd::arithmetic::div_mod::lemma_div_pos_is_pos(sum as int, 1000);
        vstd::arithmetic::div_mod::lemma_div_is_ordered(sum as int, 255000, 1000);
    }
    q as u8
}

/// Sharpening keeps the buffer's geometry, so validity carries over.
pub proof fn lemma_sharpen_valid(m: ImgV)
    requires
        m.valid(),
    ensures
        sharpen_v(m).valid(),
{
}

/// Edge detection keeps the buffer's geometry, so validity carries over.
pub proof fn lemma_edge_valid(m: ImgV)
    requires
        m.valid(),
    ensures
        edge_v(m).valid(),
{
}

/// Sharpens with the fixed 3x3 kernel (center 5, cross -1), sampling past the
/// borders by edge clamping; alpha is untouched.
pub fn sharpen(b: &PixelBuffer) -> (r: PixelBuffer)
    requires
        b.wf(),
    ensures
        r.wf(),
        r@ == sharpen_v(b@),
{
    let ghost m = b@;
    let ghost sm = sharpen_v(m);
    let ghost chi = m.channels as int;
    proof {
        lemma_sharpen_valid(m);
    }
    let w: u32 = b.width;
    let h: u32 = b.height;
    let ch: usize = b.channels as usize;
    let len: usize = b.data.len();
    let mut out: Vec<u8> = Vec::new();
    let mut y: u32 = 0;
    proof {
        assert((y as int * w as int) * chi == 0) by (nonlinear_arith)
            requires
                y as int == 0,
        ;
    }
    while y < h
        invariant
            b.wf(),
            m == b@,
            sm == sharpen_v(m),
            sm.valid(),
            w == b.width,
            h == b.height,
            ch as int == chi,
            chi == m.channels as int,
            len == b.data.len(),
            y <= h,
            out.len() as int == (y as int * w as int) * chi,
            forall|j: int| 0 <= j < out.len() ==> out[j] == sm.data[j],
        decreases h - y,
    {
        let mut x: u32 = 0;
        proof {
            assert((y as int * w as int + x as int) * chi == (y as int * w as int) * chi)
                by (nonlinear_arith)
                requires
                    x as int == 0,
            ;
        }
        while x < w
            invariant
                b.wf(),
                m == b@,
                sm == sharpen_v(m),
                sm.valid(),
                w == b.width,
                h == b.height,
                ch as int == chi,
                chi == m.channels as int,
                len == b.data.len(),
                y < h,
                x <= w,
                out.len() as int == (y as int * w as int + x as int) * chi,
                forall|j: int| 0 <= j < out.len() ==> out[j] == sm.data[j],
            decreases w - x,
        {
            let xi: i64 = x as i64;
            let yi: i64 = y as i64;
            let mut k: usize = 0;
            while k < ch
                invariant
                    b.wf(),
                    m == b@,
                    sm == sharpen_v(m),
                    sm.valid(),
                    w == b.width,
                    h == b.height,
                    ch as int == chi,
                    chi == m.channels as int,
                    len == b.data.len(),
                    y < h,
                    x < w,
                    xi == x as i64,
                    yi == y as i64,
                    k <= ch,
                    out.len() as int == (y as int * w as int + x as int) * chi + k,
                    forall|j: int| 0 <= j < out.len() ==> out[j] == sm.data[j],
                decreases ch - k,
            {
                proof {
                    lemma_px_index(m, x as int, y as int, k as int);
                }
                if k < 3 {
                    let c0 = sample_at(b, xi, yi, k);
                    let cl = sample_at(b, xi - 1, yi, k);
                    let cr = sample_at(b, xi + 1, yi, k);
                    let cu = sample_at(b, xi, yi - 1, k);
                    let cd = sample_at(b, xi, yi + 1, k);
                    let s: i64 = 5 * (c0 as i64) - (cl as i64) - (cr as i64) - (cu as i64) - (
                    cd as i64);
                    let v: u8 = if s < 0 {
                        0
                    } else if s > 255 {
                        255
                    } else {
                        s as u8
                    };
                    out.push(v);
                } else {
                    let src: usize = out.len();
                    let v = b.data[src];
                    out.push(v);
                }
                k = k + 1;
            }
            proof {
                assert((y as int * w as int + x as int) * chi + chi == (y as int * w as int + (
                x as int + 1)) * chi) by (nonlinear_arith);
            }
            x = x + 1;
        }
        proof {
            assert((y as int * w as int + w as int) * chi == ((y as int + 1) * w as int) * chi)
                by (nonlinear_arith);
        }
        y = y + 1;
    }
    proof {
        assert((h as int * w as int) * chi == (m.width * m.height * m.channels) as int)
            by (nonlinear_arith)
            requires
                h as int == m.height as int,
                w as int == m.width as int,
                chi == m.channels as int,
        ;
        assert(out@ =~= sm.data);
    }
    let r = PixelBuffer { width: b.width, height: b.height, channels: b.channels, data: out };
    proof {
        assert(r@ =~= sm);
    }
    r
}

/// Sobel edge detection on the luma plane, with edge-clamped sampling: R, G
/// and B all receive the clamped gradient magnitude; alpha is untouched.
pub fn edge_detect(b: &PixelBuffer) -> (r: PixelBuffer)
    requires
        b.wf(),
    ensures
        r.wf(),
        r@ == edge_v(b@),
{
    let ghost m = b@;
    let ghost em = edge_v(m);
    let ghost chi = m.channels as int;
    proof {
        lemma_edge_valid(m);
    }
    let w: u32 = b.width;
    let h: u32 = b.height;
    let ch: usize = b.channels as usize;
    let len: usize = b.data.len();
    let mut out: Vec<u8> = Vec::new();
    let mut y: u32 = 0;
    proof {
        assert((y as int * w as int) * chi == 0) by (nonlinear_arith)
            requires
                y as int == 0,
        ;
    }
    while y < h
        invariant
            b.wf(),
            m == b@,
            em == edge_v(m),
            em.valid(),
            w == b.width,
            h == b.height,
            ch as int == chi,
            chi == m.channels as int,
            len == b.data.len(),
            y <= h,
            out.len() as int == (y as int * w as int) * chi,
            forall|j: int| 0 <= j < out.len() ==> out[j] == em.data[j],
        decreases h - y,
    {
        let mut x: u32 = 0;
        proof {
            assert((y as int * w as int + x as int) * chi == (y as int * w as int) * chi)
                by (nonlinear_arith)
                requires
                    x as int == 0,
            ;
        }
        while x < w
            invariant
                b.wf(),
                m == b@,
                em == edge_v(m),
                em.valid(),
                w == b.width,
                h == b.height,
                ch as int == chi,
                chi == m.channels as int,
                len == b.data.len(),
                y < h,
                x <= w,
                out.len() as int == (y as int * w as int + x as int) * chi,
                forall|j: int| 0 <= j < out.len() ==> out[j] == em.data[j],
            decreases w - x,
        {
            let xi: i64 = x as i64;
            let yi: i64 = y as i64;
            let l00 = luma_sample_at(b, xi - 1, yi - 1);
            let l10 = luma_sample_at(b, xi, yi - 1);
            let l20 = luma_sample_at(b, xi + 1, yi - 1);
            let l01 = luma_sample_at(b, xi - 1, yi);
            let l21 = luma_sample_at(b, xi + 1, yi);
            let l02 = luma_sample_at(b, xi - 1, yi + 1);
            let l12 = luma_sample_at(b, xi, yi + 1);
            let l22 = luma_sample_at(b, xi + 1, yi + 1);
            let gxv: i64 = (l20 as i64 + 2 * (l21 as i64) + l22 as i64) - (l00 as i64 + 2 * (
            l01 as i64) + l02 as i64);
            let gyv: i64 = (l02 as i64 + 2 * (l12 as i64) + l22 as i64) - (l00 as i64 + 2 * (
            l10 as i64) + l20 as i64);
            let ax: i64 = if gxv < 0 {
                -gxv
            } else {
                gxv
            };
            let ay: i64 = if gyv < 0 {
                -gyv
            } else {
                gyv
            };
            let ssum: i64 = ax + ay;
            let mag: u8 = if ssum > 255 {
                255
            } else {
                ssum as u8
            };
            proof {
                assert(mag as int == edge_val(m, x as int, y as int));
            }
            let mut k: usize = 0;
            while k < ch
                invariant
                    b.wf(),
                    m == b@,
                    em == edge_v(m),
                    em.valid(),
                    w == b.width,
                    h == b.height,
                    ch as int == chi,
                    chi == m.channels as int,
                    len == b.data.len(),
                    y < h,
                    x < w,
                    mag as int == edge_val(m, x as int, y as int),
                    k <= ch,
                    out.len() as int == (y as int * w as int + x as int) * chi + k,
                    forall|j: int| 0 <= j < out.len() ==> out[j] == em.data[j],
                decreases ch - k,
            {
                proof {
                    lemma_px_index(m, x as int, y as int, k as int);
                }
                if k < 3 {
                    out.push(mag);
                } else {
                    let src: usize = out.len();
                    let v = b.data[src];
                    out.push(v);
                }
                k = k + 1;
            }
            proof {
                assert((y as int * w as int + x as int) * chi + chi == (y as int * w as int + (
                x as int + 1)) * chi) by (nonlinear_arith);
            }
            x = x + 1;
        }
        proof {
            assert((y as int * w as int + w as int) * chi == ((y as int + 1) * w as int) * chi)
                by (nonlinear_arith);
        }
        y = y + 1;
    }
    proof {
        assert((h as int * w as int) * chi == (m.width * m.height * m.channels) as int)
            by (nonlinear_arith)
            requires
                h as int == m.height as int,
                w as int == m.width as int,
                chi == m.channels as int,
        ;
        assert(out@ =~= em.data);
    }
    let r = PixelBuffer { width: b.width, height: b.height, channels: b.channels, data: out };
    proof {
        assert(r@ =~= em);
    }
    r
}

} // verus!

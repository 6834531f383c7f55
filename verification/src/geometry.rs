use vstd::prelude::*;

use crate::buffer::{lemma_px_index, px_index, ImgV, PixelBuffer};

verus! {

/// The model after a 90 degree clockwise rotation: the output pixel at column
/// `x`, row `y` is the input pixel at column `y`, row `height - 1 - x`.
pub open spec fn rotate90_v(m: ImgV) -> ImgV {
    ImgV {
        width: m.height,
        height: m.width,
        channels: m.channels,
        data: Seq::new(
            m.data.len(),
            |j: int|
                {
                    let ch = m.channels as int;
                    let c = j % ch;
                    let q = j / ch;
                    let xo = q % (m.height as int);
                    let yo = q / (m.height as int);
                    m.data[px_index(m, yo, m.height - 1 - xo, c)]
                },
        ),
    }
}

/// Rotation keeps validity: the byte count is unchanged and the dimensions
/// swap.
pub proof fn lemma_rotate90_valid(m: ImgV)
    requires
        m.valid(),
    ensures
        rotate90_v(m).valid(),
{
    assert(m.height * m.width * m.channels == m.width * m.height * m.channels)
        by (nonlinear_arith);
}

/// Reading one channel of one pixel out of the rotated buffer reaches the
/// source pixel the rotation rule names.
pub proof fn lemma_rot_at(m: ImgV, xo: int, yo: int, c: int)
    requires
        m.valid(),
        0 <= xo < m.height,
        0 <= yo < m.width,
        0 <= c < m.channels,
    ensures
        rotate90_v(m).data[px_index(rotate90_v(m), xo, yo, c)] == m.data[px_index(
            m,
            yo,
            m.height - 1 - xo,
            c,
        )],
{
    let rm = rotate90_v(m);
    lemma_rotate90_valid(m);
    lemma_px_index(rm, xo, yo, c);
}

/// Four quarter turns restore the original buffer, dimensions and pixel
/// values alike.
pub proof fn lemma_rotate_cycle(m: ImgV)
    requires
        m.valid(),
    ensures
        rotate90_v(rotate90_v(rotate90_v(rotate90_v(m)))) == m,
{
    let r1 = rotate90_v(m);
    let r2 = rotate90_v(r1);
    let r3 = rotate90_v(r2);
    let r4 = rotate90_v(r3);
    lemma_rotate90_valid(m);
    lemma_rotate90_valid(r1);
    lemma_rotate90_valid(r2);
    lemma_rotate90_valid(r3);
    let w = m.width as int;
    let h = m.height as int;
    let ch = m.channels as int;
    assert forall|j: int| 0 <= j < m.data.len() implies r4.data[j] == m.data[j] by {
        crate::buffer::lemma_index_decompose(m, j);
        let c = j % ch;
        let x = (j / ch) % w;
        let y = (j / ch) / w;
        lemma_rot_at(r3, x, y, c);
        lemma_rot_at(r2, y, w - 1 - x, c);
        lemma_rot_at(r1, w - 1 - x, h - 1 - y, c);
        lemma_rot_at(m, h - 1 - y, x, c);
    }
    assert(r4.data =~= m.data);
    assert(r4 =~= m);
}

/// Rotates the buffer a quarter turn clockwise.
pub fn rotate90(b: &PixelBuffer) -> (r: PixelBuffer)
    requires
        b.wf(),
    ensures
        r.wf(),
        r@ == rotate90_v(b@),
{
    let ghost m = b@;
    let ghost rm = rotate90_v(m);
    let ghost chi = m.channels as int;
    proof {
        lemma_rotate90_valid(m);
    }
    let neww: u32 = b.height;
    let newh: u32 = b.width;
    let ch: usize = b.channels as usize;
    let w_us: usize = b.width as usize;
    let len: usize = b.data.len();
    let mut out: Vec<u8> = Vec::new();
    let mut yo: u32 = 0;
    proof {
        assert((yo as int * neww as int) * chi == 0) by (nonlinear_arith)
            requires
                yo as int == 0,
        ;
    }
    while yo < newh
        invariant
            b.wf(),
            m == b@,
            rm == rotate90_v(m),
            rm.valid(),
            neww == b.height,
            newh == b.width,
            ch as int == chi,
            chi == m.channels as int,
            w_us == b.width as usize,
            len == b.data.len(),
            yo <= newh,
            out.len() as int == (yo as int * neww as int) * chi,
            forall|j: int| 0 <= j < out.len() ==> out[j] == rm.data[j],
        decreases newh - yo,
    {
        let mut xo: u32 = 0;
        proof {
            assert((yo as int * neww as int + xo as int) * chi == (yo as int * neww as int) * chi)
                by (nonlinear_arith)
                requires
                    xo as int == 0,
            ;
        }
        while xo < neww
            invariant
                b.wf(),
                m == b@,
                rm == rotate90_v(m),
                rm.valid(),
                neww == b.height,
                newh == b.width,
                ch as int == chi,
                chi == m.channels as int,
                w_us == b.width as usize,
                len == b.data.len(),
                yo < newh,
                xo <= neww,
                out.len() as int == (yo as int * neww as int + xo as int) * chi,
                forall|j: int| 0 <= j < out.len() ==> out[j] == rm.data[j],
            decreases neww - xo,
        {
            let sy: u32 = b.height - 1 - xo;
            let mut k: usize = 0;
            while k < ch
                invariant
                    b.wf(),
                    m == b@,
                    rm == rotate90_v(m),
                    rm.valid(),
                    neww == b.height,
                    newh == b.width,
                    ch as int == chi,
                    chi == m.channels as int,
                    w_us == b.width as usize,
                    len == b.data.len(),
                    yo < newh,
                    xo < neww,
                    sy as int == m.height - 1 - xo,
                    k <= ch,
                    out.len() as int == (yo as int * neww as int + xo as int) * chi + k,
                    forall|j: int| 0 <= j < out.len() ==> out[j] == rm.data[j],
                decreases ch - k,
            {
                proof {
                    lemma_px_index(m, yo as int, sy as int, k as int);
                    lemma_px_index(rm, xo as int, yo as int, k as int);
                    assert((sy as usize) as int * (w_us as int) == (sy as int) * (
                    m.width as int)) by (nonlinear_arith)
                        requires
                            (sy as usize) as int == sy as int,
                            w_us as int == m.width as int,
                    ;
                    assert(((sy as usize) as int * (w_us as int) + (yo as usize) as int) * (
                    ch as int) == ((sy as int) * (m.width as int) + yo as int) * (
                    m.channels as int)) by (nonlinear_arith)
                        requires
                            (sy as usize) as int == sy as int,
                            (yo as usize) as int == yo as int,
                            w_us as int == m.width as int,
                            ch as int == m.channels as int,
                    ;
                }
                let src: usize = ((sy as usize) * w_us + (yo as usize)) * ch + k;
                let v = b.data[src];
                out.push(v);
                k = k + 1;
            }
            proof {
                assert((yo as int * neww as int + xo as int) * chi + chi == (yo as int
                    * neww as int + (xo as int + 1)) * chi) by (nonlinear_arith);
            }
            xo = xo + 1;
        }
        proof {
            assert((yo as int * neww as int + neww as int) * chi == ((yo as int + 1)
                * neww as int) * chi) by (nonlinear_arith);
        }
        yo = yo + 1;
    }
    proof {
        assert((newh as int * neww as int) * chi == (m.width * m.height * m.channels) as int)
            by (nonlinear_arith)
            requires
                newh as int == m.width as int,
                neww as int == m.height as int,
                chi == m.channels as int,
        ;
        assert(out@ =~= rm.data);
    }
    let r = PixelBuffer { width: neww, height: newh, channels: b.channels, data: out };
    proof {
        assert(r@ =~= rm);
    }
    r
}

/// Clamp a crop origin into `[0, limit)`; with an empty axis it stays 0.
pub open spec fn clamp_origin(v: int, limit: int) -> int {
    if limit == 0 {
        0
    } else if v >= limit {
        limit - 1
    } else {
        v
    }
}

/// A crop extent of zero, or one past the available room, degrades to the
/// whole remaining extent.
pub open spec fn clamp_extent(e: int, avail: int) -> int {
    if e == 0 || e > avail {
        avail
    } else {
        e
    }
}

/// The model after a crop: the sub-rectangle starting at the clamped origin,
/// with the clamped extents. Cropping never fails.
pub open spec fn crop_v(m: ImgV, x: int, y: int, w: int, h: int) -> ImgV {
    let x0 = clamp_origin(x, m.width as int);
    let y0 = clamp_origin(y, m.height as int);
    let cw = clamp_extent(w, m.width - x0);
    let chh = clamp_extent(h, m.height - y0);
    ImgV {
        width: cw as nat,
        height: chh as nat,
        channels: m.channels,
        data: Seq::new(
            (cw * chh * m.channels) as nat,
            |j: int|
                {
                    let ch = m.channels as int;
                    let c = j % ch;
                    let q = j / ch;
                    let xo = q % cw;
                    let yo = q / cw;
                    m.data[px_index(m, x0 + xo, y0 + yo, c)]
                },
        ),
    }
}

/// The cropped buffer is valid, and its extents never exceed the room left of
/// the clamped origin.
pub proof fn lemma_crop_valid(m: ImgV, x: int, y: int, w: int, h: int)
    requires
        m.valid(),
        0 <= x,
        0 <= y,
        0 <= w,
        0 <= h,
    ensures
        crop_v(m, x, y, w, h).valid(),
        crop_v(m, x, y, w, h).channels == m.channels,
        0 <= clamp_origin(x, m.width as int) <= m.width,
        0 <= clamp_origin(y, m.height as int) <= m.height,
        crop_v(m, x, y, w, h).width + clamp_origin(x, m.width as int) <= m.width,
        crop_v(m, x, y, w, h).height + clamp_origin(y, m.height as int) <= m.height,
{
    let cm = crop_v(m, x, y, w, h);
    let cw = cm.width as int;
    let chh = cm.height as int;
    let chi = m.channels as int;
    assert(cm.data.len() == (cw * chh * chi) as nat);
    assert((cw * chh * chi) as nat == cm.width * cm.height * cm.channels) by (nonlinear_arith)
        requires
            cw >= 0,
            chh >= 0,
            chi >= 0,
            cw == cm.width as int,
            chh == cm.height as int,
            chi == cm.channels as int,
    ;
}

/// Crops to the sub-rectangle `[x, x+w) x [y, y+h)` under the clamping
/// policy of `crop_v`: out-of-range origins are pulled inside the image, and
/// zero or oversized extents become the whole remaining extent.
pub fn crop(b: &PixelBuffer, x: u32, y: u32, w: u32, h: u32) -> (r: PixelBuffer)
    requires
        b.wf(),
    ensures
        r.wf(),
        r@ == crop_v(b@, x as int, y as int, w as int, h as int),
{
    let ghost m = b@;
    let ghost cm = crop_v(m, x as int, y as int, w as int, h as int);
    let ghost chi = m.channels as int;
    proof {
        lemma_crop_valid(m, x as int, y as int, w as int, h as int);
    }
    let x0: u32 = if b.width == 0 {
        0
    } else if x >= b.width {
        b.width - 1
    } else {
        x
    };
    let y0: u32 = if b.height == 0 {
        0
    } else if y >= b.height {
        b.height - 1
    } else {
        y
    };
    let availw: u32 = b.width - x0;
    let availh: u32 = b.height - y0;
    let cw: u32 = if w == 0 || w > availw {
        availw
    } else {
        w
    };
    let chh: u32 = if h == 0 || h > availh {
        availh
    } else {
        h
    };
    let ch: usize = b.channels as usize;
    let w_us: usize = b.width as usize;
    let len: usize = b.data.len();
    let mut out: Vec<u8> = Vec::new();
    let mut yo: u32 = 0;
    proof {
        assert((yo as int * cw as int) * chi == 0) by (nonlinear_arith)
            requires
                yo as int == 0,
        ;
    }
    while yo < chh
        invariant
            b.wf(),
            m == b@,
            cm == crop_v(m, x as int, y as int, w as int, h as int),
            cm.valid(),
            x0 as int == clamp_origin(x as int, m.width as int),
            y0 as int == clamp_origin(y as int, m.height as int),
            cw as int == cm.width as int,
            chh as int == cm.height as int,
            x0 as int + cw as int <= m.width as int,
            y0 as int + chh as int <= m.height as int,
            ch as int == chi,
            chi == m.channels as int,
            w_us == b.width as usize,
            len == b.data.len(),
            yo <= chh,
            out.len() as int == (yo as int * cw as int) * chi,
            forall|j: int| 0 <= j < out.len() ==> out[j] == cm.data[j],
        decreases chh - yo,
    {
        let mut xo: u32 = 0;
        proof {
            assert((yo as int * cw as int + xo as int) * chi == (yo as int * cw as int) * chi)
                by (nonlinear_arith)
                requires
                    xo as int == 0,
            ;
        }
        while xo < cw
            invariant
                b.wf(),
                m == b@,
                cm == crop_v(m, x as int, y as int, w as int, h as int),
                cm.valid(),
                x0 as int == clamp_origin(x as int, m.width as int),
                y0 as int == clamp_origin(y as int, m.height as int),
                cw as int == cm.width as int,
                chh as int == cm.height as int,
                x0 as int + cw as int <= m.width as int,
                y0 as int + chh as int <= m.height as int,
                ch as int == chi,
                chi == m.channels as int,
                w_us == b.width as usize,
                len == b.data.len(),
                yo < chh,
                xo <= cw,
                out.len() as int == (yo as int * cw as int + xo as int) * chi,
                forall|j: int| 0 <= j < out.len() ==> out[j] == cm.data[j],
            decreases cw - xo,
        {
            let sx: u32 = x0 + xo;
            let sy: u32 = y0 + yo;
            let mut k: usize = 0;
            while k < ch
                invariant
                    b.wf(),
                    m == b@,
                    cm == crop_v(m, x as int, y as int, w as int, h as int),
                    cm.valid(),
                    x0 as int == clamp_origin(x as int, m.width as int),
                    y0 as int == clamp_origin(y as int, m.height as int),
                    cw as int == cm.width as int,
                    chh as int == cm.height as int,
                    x0 as int + cw as int <= m.width as int,
                    y0 as int + chh as int <= m.height as int,
                    ch as int == chi,
                    chi == m.channels as int,
                    w_us == b.width as usize,
                    len == b.data.len(),
                    yo < chh,
                    xo < cw,
                    sx as int == x0 as int + xo as int,
                    sy as int == y0 as int + yo as int,
                    k <= ch,
                    out.len() as int == (yo as int * cw as int + xo as int) * chi + k,
                    forall|j: int| 0 <= j < out.len() ==> out[j] == cm.data[j],
                decreases ch - k,
            {
                proof {
                    lemma_px_index(m, sx as int, sy as int, k as int);
                    lemma_px_index(cm, xo as int, yo as int, k as int);
                    assert((sy as usize) as int * (w_us as int) == (sy as int) * (
                    m.width as int)) by (nonlinear_arith)
                        requires
                            (sy as usize) as int == sy as int,
                            w_us as int == m.width as int,
                    ;
                    assert(((sy as usize) as int * (w_us as int) + (sx as usize) as int) * (
                    ch as int) == ((sy as int) * (m.width as int) + sx as int) * (
                    m.channels as int)) by (nonlinear_arith)
                        requires
                            (sy as usize) as int == sy as int,
                            (sx as usize) as int == sx as int,
                            w_us as int == m.width as int,
                            ch as int == m.channels as int,
                    ;
                }
                let src: usize = ((sy as usize) * w_us + (sx as usize)) * ch + k;
                let v = b.data[src];
                out.push(v);
                k = k + 1;
            }
            proof {
                assert((yo as int * cw as int + xo as int) * chi + chi == (yo as int * cw as int + (
                xo as int + 1)) * chi) by (nonlinear_arith);
            }
            xo = xo + 1;
        }
        proof {
            assert((yo as int * cw as int + cw as int) * chi == ((yo as int + 1) * cw as int) * chi)
                by (nonlinear_arith);
        }
        yo = yo + 1;
    }
    proof {
        assert((chh as int * cw as int) * chi == (cm.width * cm.height * cm.channels) as int)
            by (nonlinear_arith)
            requires
                chh as int == cm.height as int,
                cw as int == cm.width as int,
                chi == cm.channels as int,
        ;
        assert(out@ =~= cm.data);
    }
    let r = PixelBuffer { width: cw, height: chh, channels: b.channels, data: out };
    proof {
        assert(r@ =~= cm);
    }
    r
}

} // verus!

use vstd::arithmetic::div_mod::{
    lemma_fundamental_div_mod, lemma_fundamental_div_mod_converse,
};
use vstd::prelude::*;

use crate::error::EditorError;

verus! {

/// The mathematical model of a raster image: dimensions, channel count and the
/// flat byte contents, row-major with the origin at the top left.
#[verifier::ext_equal]
pub ghost struct ImgV {
    pub width: nat,
    pub height: nat,
    pub channels: nat,
    pub data: Seq<u8>,
}

impl ImgV {
    /// The invariant every buffer keeps: 3 (RGB) or 4 (RGBA) channels, and
    /// exactly one byte per channel of every pixel.
    pub open spec fn valid(self) -> bool {
        (self.channels == 3 || self.channels == 4)
            && self.data.len() == self.width * self.height * self.channels
    }
}

/// Position of channel `c` of the pixel at column `x`, row `y` in the flat
/// byte sequence of `m`.
pub open spec fn px_index(m: ImgV, x: int, y: int, c: int) -> int {
    (y * m.width + x) * m.channels + c
}

/// A byte index inside a valid buffer decomposes uniquely into a pixel
/// coordinate and a channel; `px_index` is that decomposition's inverse.
pub proof fn lemma_px_index(m: ImgV, x: int, y: int, c: int)
    requires
        m.valid(),
        0 <= x < m.width,
        0 <= y < m.height,
        0 <= c < m.channels,
    ensures
        0 <= y * m.width + x < m.width * m.height,
        m.width * m.height <= m.data.len(),
        0 <= px_index(m, x, y, c) < m.data.len(),
        px_index(m, x, y, c) % (m.channels as int) == c,
        (px_index(m, x, y, c) / (m.channels as int)) % (m.width as int) == x,
        (px_index(m, x, y, c) / (m.channels as int)) / (m.width as int) == y,
{
    let w = m.width as int;
    let h = m.height as int;
    let ch = m.channels as int;
    let p = y * w + x;
    assert(0 <= p < w * h) by (nonlinear_arith)
        requires
            0 <= x < w,
            0 <= y < h,
            p == y * w + x,
    ;
    assert(w * h <= w * h * ch && 0 <= p * ch + c < w * h * ch) by (nonlinear_arith)
        requires
            0 <= p < w * h,
            0 <= c < ch,
            3 <= ch,
    ;
    lemma_fundamental_div_mod_converse(p * ch + c, ch, p, c);
    lemma_fundamental_div_mod_converse(p, w, y, x);
}

/// Reverse direction: any in-range byte index of a valid buffer is the
/// `px_index` of its own channel, column and row.
pub proof fn lemma_index_decompose(m: ImgV, j: int)
    requires
        m.valid(),
        0 <= j < m.data.len(),
    ensures
        ({
            let ch = m.channels as int;
            let w = m.width as int;
            let c = j % ch;
            let x = (j / ch) % w;
            let y = (j / ch) / w;
            0 <= c < ch && 0 <= x < w && 0 <= y < m.height && j == px_index(m, x, y, c)
        }),
{
    let w = m.width as int;
    let h = m.height as int;
    let ch = m.channels as int;
    assert(w * h * ch > 0);
    assert(w > 0 && h > 0) by (nonlinear_arith)
        requires
            w * h * ch > 0,
            w >= 0,
            h >= 0,
            ch >= 0,
    ;
    let c = j % ch;
    let q = j / ch;
    lemma_fundamental_div_mod(j, ch);
    assert(0 <= c < ch) by {
        vstd::arithmetic::div_mod::lemma_mod_division_less_than_divisor(j, ch);
    }
    assert(0 <= q) by {
        vstd::arithmetic::div_mod::lemma_div_pos_is_pos(j, ch);
    }
    assert(q < w * h) by {
        assert(j < ch * (w * h)) by (nonlinear_arith)
            requires
                j < (w * h) * ch,
        ;
        vstd::arithmetic::div_mod::lemma_multiply_divide_lt(j, ch, w * h);
    }
    let x = q % w;
    let y = q / w;
    lemma_fundamental_div_mod(q, w);
    assert(0 <= x < w) by {
        vstd::arithmetic::div_mod::lemma_mod_division_less_than_divisor(q, w);
    }
    assert(0 <= y) by {
        vstd::arithmetic::div_mod::lemma_div_pos_is_pos(q, w);
    }
    assert(y < h) by {
        vstd::arithmetic::div_mod::lemma_multiply_divide_lt(q, w, h);
    }
    assert(j == (y * w + x) * ch + c) by (nonlinear_arith)
        requires
            j == q * ch + c,
            q == y * w + x,
    ;
}

/// An in-memory raster image. Immutable by design: every transform in the
/// catalog returns a fresh buffer, so history snapshots never alias.
#[derive(Debug)]
pub struct PixelBuffer {
    pub width: u32,
    pub height: u32,
    pub channels: u32,
    pub data: Vec<u8>,
}

impl View for PixelBuffer {
    type V = ImgV;

    open spec fn view(&self) -> ImgV {
        ImgV {
            width: self.width as nat,
            height: self.height as nat,
            channels: self.channels as nat,
            data: self.data@,
        }
    }
}

impl PixelBuffer {
    /// Well-formedness of the concrete buffer: its model is valid.
    pub open spec fn wf(self) -> bool {
        self@.valid()
    }

    /// Builds a buffer from decoded raw bytes. Returns `FormatError` exactly
    /// when the channel count is not 3 or 4, or the byte length does not equal
    /// `width * height * channels`.
    pub fn from_decoded(width: u32, height: u32, channels: u32, data: Vec<u8>) -> (r: Result<
        PixelBuffer,
        EditorError,
    >)
        ensures
            ({
                let good = (channels == 3 || channels == 4) && data@.len() == width * height
                    * channels;
                match r {
                    Ok(b) => good && b@ == (ImgV {
                        width: width as nat,
                        height: height as nat,
                        channels: channels as nat,
                        data: data@,
                    }) && b.wf(),
                    Err(e) => !good && e == EditorError::FormatError,
                }
            }),
    {
        if !(channels == 3 || channels == 4) {
            return Err(EditorError::FormatError);
        }
        let w64: u64 = width as u64;
        let h64: u64 = height as u64;
        let ch64: u64 = channels as u64;
        proof {
            assert(w64 * h64 <= 0xffff_ffffu64 * 0xffff_ffffu64) by (nonlinear_arith)
                requires
                    w64 <= 0xffff_ffffu64,
                    h64 <= 0xffff_ffffu64,
            ;
        }
        let wh: u64 = w64 * h64;
        let len64: u64 = data.len() as u64;
        if wh == 0 {
            if len64 == 0 {
                let b = PixelBuffer { width, height, channels, data };
                return Ok(b);
            } else {
                return Err(EditorError::FormatError);
            }
        }
        if len64 % wh == 0 && len64 / wh == ch64 {
            proof {
                lemma_fundamental_div_mod(len64 as int, wh as int);
                assert(len64 == wh * ch64);
                assert(w64 * h64 * ch64 == width * height * channels) by (nonlinear_arith)
                    requires
                        w64 == width,
                        h64 == height,
                        ch64 == channels,
                ;
            }
            let b = PixelBuffer { width, height, channels, data };
            Ok(b)
        } else {
            proof {
                if data@.len() == width * height * channels {
                    assert(len64 == wh * ch64) by (nonlinear_arith)
                        requires
                            len64 == width * height * channels,
                            wh == width * height,
                            ch64 == channels,
                    ;
                    lemma_fundamental_div_mod_converse(len64 as int, wh as int, ch64 as int, 0);
                }
            }
            Err(EditorError::FormatError)
        }
    }

    /// Deep copy, for callers that must retain a snapshot independent of the
    /// original.
    pub fn clone_of(&self) -> (r: PixelBuffer)
        ensures
            r@ == self@,
    {
        let n: usize = self.data.len();
        let mut copied: Vec<u8> = Vec::new();
        let mut i: usize = 0;
        while i < n
            invariant
                i <= n,
                n == self.data.len(),
                copied.len() == i,
                forall|j: int| 0 <= j < i ==> copied[j] == self.data[j],
            decreases n - i,
        {
            copied.push(self.data[i]);
            i = i + 1;
        }
        let r = PixelBuffer {
            width: self.width,
            height: self.height,
            channels: self.channels,
            data: copied,
        };
        proof {
            assert(r.data@ =~= self.data@);
            assert(r@ =~= self@);
        }
        r
    }
}

} // verus!

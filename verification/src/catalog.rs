use vstd::prelude::*;
use vstd::string::StrSliceExecFns;

use crate::buffer::{ImgV, PixelBuffer};
use crate::color::{
    apply_brightness, apply_contrast, brightness_v, contrast_v, grayscale, grayscale_v, invert,
    invert_v, lemma_color_op_valid, sepia, sepia_v, ColorOp,
};
use crate::convolve::{edge_detect, edge_v, lemma_edge_valid, lemma_sharpen_valid, sharpen,
    sharpen_v};
use crate::geometry::{crop, crop_v, lemma_crop_valid, lemma_rotate90_valid, rotate90, rotate90_v};

verus! {

/// One entry of the transform catalog, with its parameters. Every transform
/// is a pure function from one buffer to a new buffer.
#[derive(Clone, Copy, Debug, PartialEq, Eq, Structural)]
pub enum Transform {
    Grayscale,
    Sepia,
    Invert,
    /// Contrast factor in thousandths; 1000 is the identity.
    Contrast(u32),
    /// Brightness shift in channel units; 0 is the identity.
    Brightness(i32),
    Sharpen,
    EdgeDetect,
    Rotate90,
    /// Crop origin and extents, clamped by the policy of `crop_v`.
    Crop(u32, u32, u32, u32),
}

/// What each catalog entry does to a buffer's model.
pub open spec fn transform_v(t: Transform, m: ImgV) -> ImgV {
    match t {
        Transform::Grayscale => grayscale_v(m),
        Transform::Sepia => sepia_v(m),
        Transform::Invert => invert_v(m),
        Transform::Contrast(milli) => contrast_v(m, milli),
        Transform::Brightness(delta) => brightness_v(m, delta),
        Transform::Sharpen => sharpen_v(m),
        Transform::EdgeDetect => edge_v(m),
        Transform::Rotate90 => rotate90_v(m),
        Transform::Crop(x, y, w, h) => crop_v(m, x as int, y as int, w as int, h as int),
    }
}

/// Every catalog entry maps valid buffers to valid buffers.
pub proof fn lemma_transform_valid(t: Transform, m: ImgV)
    requires
        m.valid(),
    ensures
        transform_v(t, m).valid(),
{
    match t {
        Transform::Grayscale => lemma_color_op_valid(ColorOp::Grayscale, m),
        Transform::Sepia => lemma_color_op_valid(ColorOp::Sepia, m),
        Transform::Invert => lemma_color_op_valid(ColorOp::Invert, m),
        Transform::Contrast(milli) => lemma_color_op_valid(ColorOp::Contrast(milli), m),
        Transform::Brightness(delta) => lemma_color_op_valid(ColorOp::Brightness(delta), m),
        Transform::Sharpen => lemma_sharpen_valid(m),
        Transform::EdgeDetect => lemma_edge_valid(m),
        Transform::Rotate90 => lemma_rotate90_valid(m),
        Transform::Crop(x, y, w, h) => lemma_crop_valid(
            m,
            x as int,
            y as int,
            w as int,
            h as int,
        ),
    }
}

/// Applies one catalog entry, producing a fresh buffer.
pub fn apply_transform(b: &PixelBuffer, t: &Transform) -> (r: PixelBuffer)
    requires
        b.wf(),
    ensures
        r.wf(),
        r@ == transform_v(*t, b@),
{
    match t {
        Transform::Grayscale => grayscale(b),
        Transform::Sepia => sepia(b),
        Transform::Invert => invert(b),
        Transform::Contrast(milli) => apply_contrast(b, *milli),
        Transform::Brightness(delta) => apply_brightness(b, *delta),
        Transform::Sharpen => sharpen(b),
        Transform::EdgeDetect => edge_detect(b),
        Transform::Rotate90 => rotate90(b),
        Transform::Crop(x, y, w, h) => crop(b, *x, *y, *w, *h),
    }
}

/// Character-by-character string equality, decided without any assumption on
/// the encoding.
fn str_eq(a: &str, pat: &str) -> (r: bool)
    ensures
        r == (a@ == pat@),
{
    let na = a.unicode_len();
    let np = pat.unicode_len();
    if na != np {
        return false;
    }
    let mut i: usize = 0;
    while i < na
        invariant
            na == a@.len(),
            na == pat@.len(),
            i <= na,
            forall|t: int| 0 <= t < i ==> a@[t] == pat@[t],
        decreases na - i,
    {
        let ca = a.get_char(i);
        let cp = pat.get_char(i);
        if ca != cp {
            return false;
        }
        i = i + 1;
    }
    proof {
        assert(a@ =~= pat@);
    }
    true
}

/// The parameterless filters, dispatched by name. An unknown name is an
/// explicit no-op: the input comes back unchanged, never an error. The
/// `"contrast"` entry uses the catalog's example factor of 1.5.
pub open spec fn filter_by_name_v(name: Seq<char>, m: ImgV) -> ImgV {
    if name == "grayscale"@ {
        grayscale_v(m)
    } else if name == "sepia"@ {
        sepia_v(m)
    } else if name == "invert"@ {
        invert_v(m)
    } else if name == "contrast"@ {
        contrast_v(m, 1500)
    } else if name == "edge_detect"@ {
        edge_v(m)
    } else if name == "sharpen"@ {
        sharpen_v(m)
    } else {
        m
    }
}

/// Applies the filter named `filter_type`, following `filter_by_name_v`:
/// unknown names pass the buffer through unchanged.
pub fn apply_filter(b: &PixelBuffer, filter_type: &str) -> (r: PixelBuffer)
    requires
        b.wf(),
    ensures
        r.wf(),
        r@ == filter_by_name_v(filter_type@, b@),
{
    if str_eq(filter_type, "grayscale") {
        grayscale(b)
    } else if str_eq(filter_type, "sepia") {
        sepia(b)
    } else if str_eq(filter_type, "invert") {
        invert(b)
    } else if str_eq(filter_type, "contrast") {
        apply_contrast(b, 1500)
    } else if str_eq(filter_type, "edge_detect") {
        edge_detect(b)
    } else if str_eq(filter_type, "sharpen") {
        sharpen(b)
    } else {
        b.clone_of()
    }
}

} // verus!

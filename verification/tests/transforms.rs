use image_editor::buffer::PixelBuffer;
use image_editor::catalog::apply_filter;
use image_editor::color::{apply_brightness, apply_contrast, grayscale, invert, sepia};
use image_editor::convolve::{edge_detect, sharpen};
use image_editor::error::EditorError;
use image_editor::geometry::{crop, rotate90};

fn buf(width: u32, height: u32, channels: u32, data: Vec<u8>) -> PixelBuffer {
    PixelBuffer::from_decoded(width, height, channels, data).unwrap()
}

fn same(a: &PixelBuffer, b: &PixelBuffer) -> bool {
    a.width == b.width && a.height == b.height && a.channels == b.channels && a.data == b.data
}

#[test]
fn from_decoded_accepts_exact_length() {
    let b = buf(2, 1, 3, vec![1, 2, 3, 4, 5, 6]);
    assert_eq!(b.width, 2);
    assert_eq!(b.height, 1);
    assert_eq!(b.channels, 3);
    assert_eq!(b.data, vec![1, 2, 3, 4, 5, 6]);
}

#[test]
fn from_decoded_rejects_wrong_length() {
    let r = PixelBuffer::from_decoded(2, 2, 3, vec![0; 11]);
    assert_eq!(r.unwrap_err(), EditorError::FormatError);
}

#[test]
fn from_decoded_rejects_bad_channel_count() {
    let r = PixelBuffer::from_decoded(1, 1, 2, vec![0, 0]);
    assert_eq!(r.unwrap_err(), EditorError::FormatError);
}

#[test]
fn from_decoded_accepts_empty_image() {
    let b = buf(0, 5, 4, vec![]);
    assert_eq!(b.data.len(), 0);
}

#[test]
fn clone_of_is_deep_and_equal() {
    let b = buf(1, 1, 4, vec![9, 8, 7, 6]);
    let c = b.clone_of();
    assert!(same(&b, &c));
}

#[test]
fn grayscale_uses_bt601_weights() {
    let b = buf(1, 1, 3, vec![100, 150, 200]);
    let g = grayscale(&b);
    // (299*100 + 587*150 + 114*200) / 1000 = 140750 / 1000 = 140
    assert_eq!(g.data, vec![140, 140, 140]);
}

#[test]
fn grayscale_preserves_alpha() {
    let b = buf(1, 1, 4, vec![100, 150, 200, 33]);
    let g = grayscale(&b);
    assert_eq!(g.data, vec![140, 140, 140, 33]);
}

#[test]
fn grayscale_is_idempotent() {
    let b = buf(2, 2, 4, vec![
        1, 2, 3, 4, 250, 120, 60, 255, 17, 200, 91, 0, 128, 128, 128, 7,
    ]);
    let once = grayscale(&b);
    let twice = grayscale(&once);
    assert!(same(&once, &twice));
}

#[test]
fn sepia_matrix_exact_values() {
    let b = buf(1, 1, 3, vec![100, 150, 200]);
    let s = sepia(&b);
    // R: (393*100 + 769*150 + 189*200) / 1000 = 192450 / 1000 = 192
    // G: (349*100 + 686*150 + 168*200) / 1000 = 171400 / 1000 = 171
    // B: (272*100 + 534*150 + 131*200) / 1000 = 133500 / 1000 = 133
    assert_eq!(s.data, vec![192, 171, 133]);
}

#[test]
fn sepia_clamps_bright_pixels() {
    let b = buf(1, 1, 4, vec![255, 255, 255, 200]);
    let s = sepia(&b);
    // R and G saturate (344, 306 before the clamp); B stays at 238.
    assert_eq!(s.data, vec![255, 255, 238, 200]);
}

#[test]
fn invert_round_trip_is_exact() {
    let b = buf(2, 2, 3, vec![0, 1, 2, 3, 127, 128, 129, 254, 255, 17, 91, 200]);
    let twice = invert(&invert(&b));
    assert!(same(&b, &twice));
}

#[test]
fn invert_two_by_two_rgba_scenario() {
    let b = buf(2, 2, 4, vec![
        255, 0, 0, 255, 0, 255, 0, 255, 0, 0, 255, 255, 255, 255, 255, 255,
    ]);
    let i = invert(&b);
    assert_eq!(i.data, vec![
        0, 255, 255, 255, 255, 0, 255, 255, 255, 255, 0, 255, 0, 0, 0, 255,
    ]);
}

#[test]
fn contrast_factor_one_is_identity() {
    let b = buf(2, 1, 4, vec![0, 64, 128, 9, 200, 255, 13, 250]);
    let c = apply_contrast(&b, 1000);
    assert!(same(&b, &c));
}

#[test]
fn contrast_scales_around_midpoint() {
    let b = buf(2, 1, 3, vec![100, 200, 128, 0, 255, 128]);
    let c = apply_contrast(&b, 2000);
    // 100 -> 128 - 56 = 72; 200 -> 128 + 144 = 272, clamped to 255; 128 stays.
    // 0 -> 128 - 256 drops below 0, clamped to 0; 255 -> clamped to 255.
    assert_eq!(c.data, vec![72, 255, 128, 0, 255, 128]);
}

#[test]
fn contrast_half_factor_flattens() {
    let b = buf(1, 1, 3, vec![200, 28, 128]);
    let c = apply_contrast(&b, 500);
    // 200 -> 128 + 36 = 164; 28 -> 128 - 50 = 78; 128 stays.
    assert_eq!(c.data, vec![164, 78, 128]);
}

#[test]
fn brightness_zero_is_identity() {
    let b = buf(2, 1, 4, vec![0, 64, 128, 9, 200, 255, 13, 250]);
    let c = apply_brightness(&b, 0);
    assert!(same(&b, &c));
}

#[test]
fn brightness_clamps_both_ends() {
    let b = buf(1, 1, 4, vec![230, 30, 128, 77]);
    let up = apply_brightness(&b, 50);
    assert_eq!(up.data, vec![255, 80, 178, 77]);
    let down = apply_brightness(&b, -60);
    assert_eq!(down.data, vec![170, 0, 68, 77]);
}

#[test]
fn rotate90_swaps_dimensions_and_maps_pixels() {
    // 2x1 image, pixels A then B; a clockwise quarter turn makes a 1x2
    // column with A on top.
    let b = buf(2, 1, 3, vec![10, 11, 12, 20, 21, 22]);
    let r = rotate90(&b);
    assert_eq!(r.width, 1);
    assert_eq!(r.height, 2);
    assert_eq!(r.data, vec![10, 11, 12, 20, 21, 22]);
}

#[test]
fn rotate90_two_by_two() {
    // Pixels by (x, y): P00 P10 / P01 P11. Clockwise: P01 P00 / P11 P10.
    let b = buf(2, 2, 3, vec![0, 0, 1, 1, 0, 1, 0, 1, 1, 1, 1, 0]);
    let r = rotate90(&b);
    assert_eq!(r.width, 2);
    assert_eq!(r.height, 2);
    assert_eq!(r.data, vec![0, 1, 1, 0, 0, 1, 1, 1, 0, 1, 0, 1]);
}

#[test]
fn rotate90_four_times_is_identity() {
    let b = buf(3, 2, 4, vec![
        1, 2, 3, 4, 5, 6, 7, 8, 9, 10, 11, 12, 13, 14, 15, 16, 17, 18, 19, 20, 21, 22, 23, 24,
    ]);
    let r = rotate90(&rotate90(&rotate90(&rotate90(&b))));
    assert!(same(&b, &r));
}

#[test]
fn crop_takes_inner_rectangle() {
    // 3x3 single-band values written into RGB gray pixels.
    let mut data = Vec::new();
    for v in [1u8, 2, 3, 4, 5, 6, 7, 8, 9] {
        data.extend_from_slice(&[v, v, v]);
    }
    let b = buf(3, 3, 3, data);
    let c = crop(&b, 1, 1, 2, 2);
    assert_eq!((c.width, c.height), (2, 2));
    assert_eq!(c.data, vec![5, 5, 5, 6, 6, 6, 8, 8, 8, 9, 9, 9]);
}

#[test]
fn crop_clamps_oversized_rectangle() {
    let b = buf(100, 100, 4, vec![7; 100 * 100 * 4]);
    let c = crop(&b, 90, 90, 50, 50);
    assert_eq!((c.width, c.height), (10, 10));
    assert_eq!(c.data.len(), 10 * 10 * 4);
}

#[test]
fn crop_zero_extent_means_remaining_extent() {
    let b = buf(4, 4, 3, vec![3; 48]);
    let c = crop(&b, 1, 2, 0, 0);
    assert_eq!((c.width, c.height), (3, 2));
}

#[test]
fn crop_origin_clamped_inside_image() {
    let b = buf(4, 4, 3, vec![3; 48]);
    let c = crop(&b, 400, 0, 2, 2);
    // The origin is pulled to the last column; one column is left.
    assert_eq!((c.width, c.height), (1, 2));
}

#[test]
fn sharpen_one_pixel_is_unchanged() {
    let b = buf(1, 1, 4, vec![40, 90, 160, 5]);
    let s = sharpen(&b);
    assert!(same(&b, &s));
}

#[test]
fn sharpen_row_uses_edge_clamped_samples() {
    // Gray pixels 10, 20, 30 in a 3x1 row. Vertical neighbours clamp to the
    // pixel itself, so each output is 3*center - left - right, clamped at 0.
    let b = buf(3, 1, 3, vec![10, 10, 10, 20, 20, 20, 30, 30, 30]);
    let s = sharpen(&b);
    assert_eq!(s.data, vec![0, 0, 0, 20, 20, 20, 40, 40, 40]);
}

#[test]
fn edge_detect_uniform_image_is_black() {
    let b = buf(3, 3, 4, vec![90; 3 * 3 * 4]);
    let e = edge_detect(&b);
    for y in 0..3 {
        for x in 0..3 {
            let base = (y * 3 + x) * 4;
            assert_eq!(&e.data[base..base + 4], &[0, 0, 0, 90]);
        }
    }
}

#[test]
fn edge_detect_saturates_on_hard_step() {
    let b = buf(2, 1, 3, vec![0, 0, 0, 255, 255, 255]);
    let e = edge_detect(&b);
    // The horizontal gradient is 4*255 at both pixels, clamped to 255.
    assert_eq!(e.data, vec![255, 255, 255, 255, 255, 255]);
}

#[test]
fn apply_filter_dispatches_by_name() {
    let b = buf(1, 1, 3, vec![100, 150, 200]);
    assert_eq!(apply_filter(&b, "grayscale").data, grayscale(&b).data);
    assert_eq!(apply_filter(&b, "sepia").data, sepia(&b).data);
    assert_eq!(apply_filter(&b, "invert").data, invert(&b).data);
    assert_eq!(apply_filter(&b, "contrast").data, apply_contrast(&b, 1500).data);
    assert_eq!(apply_filter(&b, "edge_detect").data, edge_detect(&b).data);
    assert_eq!(apply_filter(&b, "sharpen").data, sharpen(&b).data);
}

#[test]
fn apply_filter_unknown_name_is_passthrough() {
    let b = buf(1, 1, 3, vec![100, 150, 200]);
    let r = apply_filter(&b, "blur");
    assert!(same(&b, &r));
}

#[test]
fn transforms_accept_empty_buffers() {
    let b = buf(0, 0, 3, vec![]);
    assert_eq!(grayscale(&b).data.len(), 0);
    let r = rotate90(&b);
    assert_eq!((r.width, r.height), (0, 0));
    let c = crop(&b, 5, 5, 2, 2);
    assert_eq!((c.width, c.height, c.data.len()), (0, 0, 0));
}

use image_editor::buffer::PixelBuffer;
use image_editor::catalog::Transform;
use image_editor::error::EditorError;
use image_editor::session::EditorSession;

fn buf(width: u32, height: u32, channels: u32, data: Vec<u8>) -> PixelBuffer {
    PixelBuffer::from_decoded(width, height, channels, data).unwrap()
}

fn same(a: &PixelBuffer, b: &PixelBuffer) -> bool {
    a.width == b.width && a.height == b.height && a.channels == b.channels && a.data == b.data
}

#[test]
fn empty_session_has_no_current_image() {
    let s = EditorSession::new();
    assert!(s.current().is_none());
}

#[test]
fn apply_without_load_is_precondition_error() {
    let mut s = EditorSession::new();
    let r = s.apply(&Transform::Invert);
    assert_eq!(r.unwrap_err(), EditorError::PreconditionError);
    assert!(s.current().is_none());
}

#[test]
fn undo_without_load_is_precondition_error() {
    let mut s = EditorSession::new();
    assert_eq!(s.undo().unwrap_err(), EditorError::PreconditionError);
}

#[test]
fn redo_without_load_is_precondition_error() {
    let mut s = EditorSession::new();
    assert_eq!(s.redo().unwrap_err(), EditorError::PreconditionError);
}

#[test]
fn load_makes_the_buffer_current() {
    let b0 = buf(1, 1, 4, vec![10, 20, 30, 40]);
    let mut s = EditorSession::new();
    s.load(b0.clone_of());
    assert!(same(s.current().unwrap(), &b0));
}

#[test]
fn apply_returns_the_new_current_buffer() {
    let b0 = buf(1, 1, 3, vec![10, 20, 30]);
    let mut s = EditorSession::new();
    s.load(b0);
    let returned = s.apply(&Transform::Invert).unwrap();
    assert_eq!(returned.data, vec![245, 235, 225]);
    assert!(same(s.current().unwrap(), &returned));
}

#[test]
fn undo_then_redo_restores_both_images() {
    let b0 = buf(1, 1, 3, vec![10, 20, 30]);
    let mut s = EditorSession::new();
    s.load(b0.clone_of());
    let b1 = s.apply(&Transform::Brightness(5)).unwrap();

    assert_eq!(s.undo().unwrap(), true);
    assert!(same(s.current().unwrap(), &b0));

    assert_eq!(s.redo().unwrap(), true);
    assert!(same(s.current().unwrap(), &b1));
}

#[test]
fn undo_with_single_snapshot_is_a_noop() {
    let b0 = buf(1, 1, 3, vec![1, 2, 3]);
    let mut s = EditorSession::new();
    s.load(b0.clone_of());
    assert_eq!(s.undo().unwrap(), false);
    assert!(same(s.current().unwrap(), &b0));
}

#[test]
fn redo_with_nothing_undone_is_a_noop() {
    let b0 = buf(1, 1, 3, vec![1, 2, 3]);
    let mut s = EditorSession::new();
    s.load(b0.clone_of());
    s.apply(&Transform::Invert).unwrap();
    assert_eq!(s.redo().unwrap(), false);
}

#[test]
fn a_new_edit_invalidates_the_undone_future() {
    let b0 = buf(1, 1, 3, vec![10, 20, 30]);
    let mut s = EditorSession::new();
    s.load(b0.clone_of());
    s.apply(&Transform::Invert).unwrap();
    assert_eq!(s.undo().unwrap(), true);

    // Branch off with a different transform: the undone invert is gone.
    let b2 = s.apply(&Transform::Brightness(1)).unwrap();
    assert_eq!(b2.data, vec![11, 21, 31]);
    assert_eq!(s.redo().unwrap(), false);
    assert!(same(s.current().unwrap(), &b2));
}

#[test]
fn load_resets_history_and_redo() {
    let b0 = buf(1, 1, 3, vec![10, 20, 30]);
    let b_new = buf(1, 1, 3, vec![1, 1, 1]);
    let mut s = EditorSession::new();
    s.load(b0.clone_of());
    s.apply(&Transform::Invert).unwrap();
    s.undo().unwrap();
    s.load(b_new.clone_of());
    // Nothing to undo or redo after a fresh load.
    assert_eq!(s.undo().unwrap(), false);
    assert_eq!(s.redo().unwrap(), false);
    assert!(same(s.current().unwrap(), &b_new));
}

#[test]
fn session_crop_and_rotate_change_geometry() {
    let b0 = buf(4, 2, 4, vec![9; 4 * 2 * 4]);
    let mut s = EditorSession::new();
    s.load(b0);
    let cropped = s.apply(&Transform::Crop(1, 0, 2, 2)).unwrap();
    assert_eq!((cropped.width, cropped.height), (2, 2));
    let rotated = s.apply(&Transform::Rotate90).unwrap();
    assert_eq!((rotated.width, rotated.height), (2, 2));
    assert_eq!(s.undo().unwrap(), true);
    let cur = s.current().unwrap();
    assert_eq!((cur.width, cur.height), (2, 2));
    assert_eq!(s.undo().unwrap(), true);
    let cur2 = s.current().unwrap();
    assert_eq!((cur2.width, cur2.height), (4, 2));
}

#[test]
fn contrast_identity_through_the_session() {
    let b0 = buf(2, 1, 4, vec![5, 120, 200, 255, 0, 33, 128, 4]);
    let mut s = EditorSession::new();
    s.load(b0.clone_of());
    let c = s.apply(&Transform::Contrast(1000)).unwrap();
    assert!(same(&b0, &c));
}

use vstd::prelude::*;

verus! {

/// The failures the editing engine itself can report.
///
/// Decode and encode failures belong to the external codec and never reach
/// this type.
#[derive(Clone, Copy, Debug, PartialEq, Eq, Structural)]
pub enum EditorError {
    /// A pixel buffer was constructed with a byte length inconsistent with
    /// `width * height * channels`, or with a channel count other than 3 or 4.
    FormatError,
    /// `apply`, `undo` or `redo` was invoked while no image is loaded.
    PreconditionError,
}

} // verus!

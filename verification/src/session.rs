use vstd::prelude::*;

use crate::buffer::{ImgV, PixelBuffer};
use crate::catalog::{apply_transform, lemma_transform_valid, transform_v, Transform};
use crate::error::EditorError;
use crate::history::{hist_apply, hist_current, hist_load, hist_redo, hist_undo, EditHistory,
    HistV};

verus! {

/// The one object external callers touch: the current image and its edit
/// history. Its model is the history's stack pair.
pub struct EditorSession {
    history: EditHistory,
}

impl View for EditorSession {
    type V = HistV;

    closed spec fn view(&self) -> HistV {
        self.history@
    }
}

impl EditorSession {
    /// Every snapshot the session retains is a valid buffer.
    pub closed spec fn wf(self) -> bool {
        self.history.wf()
    }

    /// A session with nothing loaded.
    pub fn new() -> (s: EditorSession)
        ensures
            s.wf(),
            s@.undo == Seq::<ImgV>::empty(),
            s@.redo == Seq::<ImgV>::empty(),
    {
        EditorSession { history: EditHistory::new() }
    }

    /// Replaces the current image and resets the history around `b`.
    pub fn load(&mut self, b: PixelBuffer)
        requires
            b.wf(),
        ensures
            final(self).wf(),
            final(self)@ == hist_load(b@),
    {
        self.history.load(b);
    }

    /// Applies a catalog transform to the current image, records the result
    /// as the new current snapshot, clears the redo stack, and returns a copy
    /// of the new image. Fails with `PreconditionError`, changing nothing,
    /// exactly when nothing is loaded.
    pub fn apply(&mut self, t: &Transform) -> (r: Result<PixelBuffer, EditorError>)
        requires
            old(self).wf(),
        ensures
            final(self).wf(),
            match r {
                Ok(nb) => old(self)@.undo.len() > 0 && nb.wf() && nb@ == transform_v(
                    *t,
                    hist_current(old(self)@),
                ) && final(self)@ == hist_apply(old(self)@, nb@),
                Err(e) => e == EditorError::PreconditionError && old(self)@.undo.len() == 0
                    && final(self)@ == old(self)@,
            },
    {
        let nb = match self.history.current() {
            None => {
                return Err(EditorError::PreconditionError);
            },
            Some(cur) => apply_transform(cur, t),
        };
        proof {
            lemma_transform_valid(*t, hist_current(old(self)@));
        }
        let out = nb.clone_of();
        match self.history.apply(nb) {
            Ok(()) => Ok(out),
            Err(e) => Err(e),
        }
    }

    /// Steps one snapshot back; the previous image becomes current again.
    /// Returns whether anything changed; fails with `PreconditionError`
    /// exactly when nothing is loaded.
    pub fn undo(&mut self) -> (r: Result<bool, EditorError>)
        requires
            old(self).wf(),
        ensures
            final(self).wf(),
            match r {
                Ok(changed) => old(self)@.undo.len() > 0 && changed == (old(self)@.undo.len() > 1)
                    && final(self)@ == hist_undo(old(self)@),
                Err(e) => e == EditorError::PreconditionError && old(self)@.undo.len() == 0
                    && final(self)@ == old(self)@,
            },
    {
        self.history.undo()
    }

    /// Steps one snapshot forward again after an undo. Returns whether
    /// anything changed; fails with `PreconditionError` exactly when nothing
    /// is loaded.
    pub fn redo(&mut self) -> (r: Result<bool, EditorError>)
        requires
            old(self).wf(),
        ensures
            final(self).wf(),
            match r {
                Ok(changed) => old(self)@.undo.len() > 0 && changed == (old(self)@.redo.len() > 0)
                    && final(self)@ == hist_redo(old(self)@),
                Err(e) => e == EditorError::PreconditionError && old(self)@.undo.len() == 0
                    && final(self)@ == old(self)@,
            },
    {
        self.history.redo()
    }

    /// The image to render, preview or export; `None` while nothing is
    /// loaded.
    pub fn current(&self) -> (r: Option<&PixelBuffer>)
        ensures
            match r {
                Some(b) => self@.undo.len() > 0 && b@ == hist_current(self@),
                None => self@.undo.len() == 0,
            },
    {
        self.history.current()
    }
}

} // verus!

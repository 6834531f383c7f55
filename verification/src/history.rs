use vstd::prelude::*;

use crate::buffer::{ImgV, PixelBuffer};
use crate::error::EditorError;

verus! {

/// The model of the edit history: the two snapshot stacks, oldest first. The
/// last element of `undo` is the current image; an empty `undo` means nothing
/// is loaded yet.
#[verifier::ext_equal]
pub ghost struct HistV {
    pub undo: Seq<ImgV>,
    pub redo: Seq<ImgV>,
}

/// Loading resets the history: both stacks cleared, the fresh buffer becomes
/// the only snapshot. This holds from any previous state.
pub open spec fn hist_load(b: ImgV) -> HistV {
    HistV { undo: seq![b], redo: Seq::empty() }
}

/// A successful edit pushes the new snapshot and clears the redo stack: a new
/// edit branch invalidates the previously undone future.
pub open spec fn hist_apply(h: HistV, b: ImgV) -> HistV {
    HistV { undo: h.undo.push(b), redo: Seq::empty() }
}

/// Undo moves the newest snapshot onto the redo stack; with at most one
/// snapshot there is nothing to undo and the state is unchanged.
pub open spec fn hist_undo(h: HistV) -> HistV {
    if h.undo.len() <= 1 {
        h
    } else {
        HistV { undo: h.undo.drop_last(), redo: h.redo.push(h.undo.last()) }
    }
}

/// Redo moves the newest undone snapshot back; with an empty redo stack the
/// state is unchanged.
pub open spec fn hist_redo(h: HistV) -> HistV {
    if h.redo.len() == 0 {
        h
    } else {
        HistV { undo: h.undo.push(h.redo.last()), redo: h.redo.drop_last() }
    }
}

/// The current image: the newest snapshot of the undo stack.
pub open spec fn hist_current(h: HistV) -> ImgV {
    h.undo.last()
}

/// After `load(b0)` and one edit producing `b1`: undo makes `b0` current
/// again, and a redo right after makes `b1` current again.
pub proof fn lemma_history_round_trip(b0: ImgV, b1: ImgV)
    ensures
        ({
            let edited = hist_apply(hist_load(b0), b1);
            let undone = hist_undo(edited);
            hist_current(edited) == b1 && hist_current(undone) == b0 && hist_current(
                hist_redo(undone),
            ) == b1
        }),
{
    let edited = hist_apply(hist_load(b0), b1);
    let undone = hist_undo(edited);
    assert(edited.undo.len() == 2);
    assert(undone.undo =~= seq![b0]);
    assert(hist_current(hist_redo(undone)) == b1);
}

/// Any successful edit leaves the redo stack empty, whatever the state was.
pub proof fn lemma_apply_clears_redo(h: HistV, b: ImgV)
    ensures
        hist_apply(h, b).redo == Seq::<ImgV>::empty(),
{
}

/// After load, edit, undo, a second edit: the undone snapshot is gone for
/// good — the redo stack is empty and the new edit is current.
pub proof fn lemma_redo_invalidation(b0: ImgV, b1: ImgV, b2: ImgV)
    ensures
        ({
            let undone = hist_undo(hist_apply(hist_load(b0), b1));
            let branched = hist_apply(undone, b2);
            branched.redo == Seq::<ImgV>::empty() && hist_current(branched) == b2
        }),
{
}

/// The undo/redo stacks of snapshots. Methods mirror the transitions of the
/// `HistV` state machine exactly.
pub struct EditHistory {
    undo_stack: Vec<PixelBuffer>,
    redo_stack: Vec<PixelBuffer>,
}

impl View for EditHistory {
    type V = HistV;

    closed spec fn view(&self) -> HistV {
        HistV {
            undo: self.undo_stack@.map_values(|b: PixelBuffer| b@),
            redo: self.redo_stack@.map_values(|b: PixelBuffer| b@),
        }
    }
}

impl EditHistory {
    /// Every snapshot the history retains is a valid buffer.
    pub open spec fn wf(self) -> bool {
        (forall|i: int| 0 <= i < self@.undo.len() ==> (#[trigger] self@.undo[i]).valid()) && (
        forall|i: int| 0 <= i < self@.redo.len() ==> (#[trigger] self@.redo[i]).valid())
    }

    /// A history with nothing loaded.
    pub fn new() -> (h: EditHistory)
        ensures
            h.wf(),
            h@.undo == Seq::<ImgV>::empty(),
            h@.redo == Seq::<ImgV>::empty(),
    {
        let h = EditHistory { undo_stack: Vec::new(), redo_stack: Vec::new() };
        proof {
            assert(h@.undo =~= Seq::<ImgV>::empty());
            assert(h@.redo =~= Seq::<ImgV>::empty());
        }
        h
    }

    /// Resets the history around a freshly loaded buffer.
    pub fn load(&mut self, b: PixelBuffer)
        requires
            b.wf(),
        ensures
            final(self).wf(),
            final(self)@ == hist_load(b@),
    {
        let ghost bm = b@;
        self.undo_stack = Vec::new();
        self.redo_stack = Vec::new();
        self.undo_stack.push(b);
        proof {
            assert(self@.undo =~= seq![bm]);
            assert(self@.redo =~= Seq::<ImgV>::empty());
            assert(self@ =~= hist_load(bm));
        }
    }

    /// Records a new snapshot. Fails with `PreconditionError`, changing
    /// nothing, exactly when nothing is loaded.
    pub fn apply(&mut self, b: PixelBuffer) -> (r: Result<(), EditorError>)
        requires
            old(self).wf(),
            b.wf(),
        ensures
            final(self).wf(),
            match r {
                Ok(()) => old(self)@.undo.len() > 0 && final(self)@ == hist_apply(
                    old(self)@,
                    b@,
                ),
                Err(e) => e == EditorError::PreconditionError && old(self)@.undo.len() == 0
                    && final(self)@ == old(self)@,
            },
    {
        if self.undo_stack.len() == 0 {
            return Err(EditorError::PreconditionError);
        }
        let ghost bm = b@;
        self.undo_stack.push(b);
        self.redo_stack = Vec::new();
        proof {
            assert(self@.undo =~= old(self)@.undo.push(bm));
            assert(self@.redo =~= Seq::<ImgV>::empty());
            assert(self@ =~= hist_apply(old(self)@, bm));
        }
        Ok(())
    }

    /// Steps one snapshot back. Returns whether anything changed; fails with
    /// `PreconditionError` exactly when nothing is loaded.
    pub fn undo(&mut self) -> (r: Result<bool, EditorError>)
        requires
            old(self).wf(),
        ensures
            final(self).wf(),
            match r {
                Ok(changed) => old(self)@.undo.len() > 0 && changed == (old(self)@.undo.len() > 1)
                    && final(self)@ == hist_undo(old(self)@),
                Err(e) => e == EditorError::PreconditionError && old(self)@.undo.len() == 0
                    && final(self)@ == old(self)@,
            },
    {
        let n = self.undo_stack.len();
        if n == 0 {
            return Err(EditorError::PreconditionError);
        }
        if n == 1 {
            return Ok(false);
        }
        let top = self.undo_stack.pop().unwrap();
        self.redo_stack.push(top);
        proof {
            assert(self@.undo =~= hist_undo(old(self)@).undo);
            assert(self@.redo =~= hist_undo(old(self)@).redo);
            assert(self@ =~= hist_undo(old(self)@));
        }
        Ok(true)
    }

    /// Steps one snapshot forward again. Returns whether anything changed;
    /// fails with `PreconditionError` exactly when nothing is loaded.
    pub fn redo(&mut self) -> (r: Result<bool, EditorError>)
        requires
            old(self).wf(),
        ensures
            final(self).wf(),
            match r {
                Ok(changed) => old(self)@.undo.len() > 0 && changed == (old(self)@.redo.len() > 0)
                    && final(self)@ == hist_redo(old(self)@),
                Err(e) => e == EditorError::PreconditionError && old(self)@.undo.len() == 0
                    && final(self)@ == old(self)@,
            },
    {
        if self.undo_stack.len() == 0 {
            return Err(EditorError::PreconditionError);
        }
        if self.redo_stack.len() == 0 {
            return Ok(false);
        }
        let top = self.redo_stack.pop().unwrap();
        self.undo_stack.push(top);
        proof {
            assert(self@.undo =~= hist_redo(old(self)@).undo);
            assert(self@.redo =~= hist_redo(old(self)@).redo);
            assert(self@ =~= hist_redo(old(self)@));
        }
        Ok(true)
    }

    /// The current image, `None` while nothing is loaded.
    pub fn current(&self) -> (r: Option<&PixelBuffer>)
        ensures
            match r {
                Some(b) => self@.undo.len() > 0 && b@ == hist_current(self@),
                None => self@.undo.len() == 0,
            },
    {
        let n = self.undo_stack.len();
        if n == 0 {
            None
        } else {
            Some(&self.undo_stack[n - 1])
        }
    }
}

} // verus!

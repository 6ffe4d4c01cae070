use vstd::prelude::*;
use crate::cursor_set::CursorSet;
use crate::text::{Change, Text, changed_all, changed, changes_match, copy_changes};
use crate::cursor_set::{merged, sorted, edit_remap};

verus! {

/// One recorded edit: the text and the cursors on either side of it, and
/// the changes that lead forward and back.
#[derive(Debug)]
pub struct Edit {
    pub cursors_before: CursorSet,
    pub cursors_after: CursorSet,
    pub text_before: Text,
    pub text_after: Text,
    pub forward: Vec<Change>,
    pub backward: Vec<Change>,
}

impl Edit {
    pub open spec fn wf(&self) -> bool {
        self.text_before.wf() && self.text_after.wf() && self.cursors_before.wf()
            && self.cursors_after.wf()
    }
}

/// What an edit did: insert or delete text.
#[derive(Clone, Copy, Debug, PartialEq, Eq, Structural)]
pub enum EditKind {
    Insert,
    Delete,
}

/// A document with its history of edits.
#[derive(Debug)]
pub struct Buf {
    pub text: Text,
    pub undo_stack: Vec<Edit>,
    pub redo_stack: Vec<Edit>,
}

impl Buf {
    pub open spec fn wf(&self) -> bool {
        &&& self.text.wf()
        &&& forall|i: int| 0 <= i < self.undo_stack@.len() ==> (#[trigger] self.undo_stack@[i]).wf()
        &&& forall|i: int| 0 <= i < self.redo_stack@.len() ==> (#[trigger] self.redo_stack@[i]).wf()
    }

    /// A buffer holding `text`, with no history.
    pub fn new(text: Text) -> (r: Buf)
        requires
            text.wf(),
        ensures
            r.wf(),
            r.text == text,
            r.undo_stack@.len() == 0,
            r.redo_stack@.len() == 0,
    {
        Buf { text, undo_stack: Vec::new(), redo_stack: Vec::new() }
    }

    /// Applies the changes of `diff` in order and records them, with
    /// `cursors` as the cursor set to restore on undo. Clears what could be
    /// redone.
    pub fn edit(&mut self, kind: EditKind, cursors: &CursorSet, diff: Vec<Change>)
        requires
            old(self).wf(),
            cursors.wf(),
        ensures
            final(self).wf(),
            final(self).text.view() == changed_all(old(self).text.view(), diff@),
            final(self).undo_stack@.len() == old(self).undo_stack@.len() + 1,
            final(self).redo_stack@.len() == 0,
            final(self).undo_stack@.last().text_before.view() == old(self).text.view(),
            final(self).undo_stack@.last().text_after.view() == final(self).text.view(),
            final(self).undo_stack@.last().cursors_before.selections@ == cursors.selections@,
            final(self).undo_stack@.last().forward == diff,
            final(self).undo_stack@.last().cursors_after.selections@ == merged(sorted(cursors.selections@.map_values(
                |s: crate::selection::Selection| edit_remap(s, diff@, true),
            ))),
            forall|i: int| 0 <= i < old(self).undo_stack@.len() ==> final(self).undo_stack@[i] == old(self).undo_stack@[i],
    {
        let ghost undo = self.undo_stack@;
        let ghost redo = self.redo_stack@;
        let text_before = self.text.copy();
        let mut backward: Vec<Change> = Vec::new();
        let mut k: usize = 0;
        while k < diff.len()
            invariant
                k <= diff@.len(),
                self.text.wf(),
                self.undo_stack@ == undo,
                self.redo_stack@ == redo,
                self.text.view() == changed_all(text_before.view(), diff@.subrange(0, k as int)),
            decreases diff@.len() - k,
        {
            let ghost before = self.text.view();
            let inv = self.text.apply_change(&diff[k]);
            backward.insert(0, inv);
            k += 1;
            proof {
                let d = diff@.subrange(0, k as int);
                assert(d.drop_last() =~= diff@.subrange(0, k - 1));
                assert(d.last() == diff@[k - 1]);
            }
        }
        proof {
            assert(diff@.subrange(0, diff@.len() as int) =~= diff@);
        }
        let mut cursors_after = cursors.copy();
        cursors_after.apply_diff(&diff, true);
        let text_after = self.text.copy();
        proof {
            assert(text_before.view().len() == text_before.lines@.len());
            assert(text_after.view().len() == text_after.lines@.len());
            assert(self.text.view().len() == self.text.lines@.len());
        }
        self.undo_stack.push(Edit {
            cursors_before: cursors.copy(),
            cursors_after,
            text_before,
            text_after,
            forward: diff,
            backward,
        });
        self.redo_stack = Vec::new();
        proof {
            assert forall|i: int| 0 <= i < self.undo_stack@.len() implies (#[trigger] self.undo_stack@[i]).wf() by {
                if i < undo.len() {
                    assert(self.undo_stack@[i] == undo[i]);
                }
            }
        }
    }

    /// Steps back over the last edit: the text returns to what it was before
    /// it, and the cursors of that moment come back with the changes that
    /// undo it. `None`, with nothing changed, when there is nothing to undo.
    pub fn undo(&mut self) -> (r: Option<(CursorSet, Vec<Change>)>)
        requires
            old(self).wf(),
        ensures
            final(self).wf(),
            old(self).undo_stack@.len() == 0 ==> r is None && *final(self) == *old(self),
            old(self).undo_stack@.len() > 0 ==> r is Some && {
                let e = old(self).undo_stack@.last();
                &&& final(self).text.view() == e.text_before.view()
                &&& r->Some_0.0.selections@ == e.cursors_before.selections@
                &&& changes_match(r->Some_0.1@, e.backward@)
                &&& final(self).undo_stack@ == old(self).undo_stack@.drop_last()
                &&& final(self).redo_stack@ == old(self).redo_stack@.push(e)
            },
    {
        if self.undo_stack.len() == 0 {
            return None;
        }
        match self.undo_stack.pop() {
            None => None,
            Some(e) => {
                let text = e.text_before.copy();
                proof {
                    assert(e.text_before.view().len() == e.text_before.lines@.len());
                }
                let cursors = e.cursors_before.copy();
                let diff = copy_changes(&e.backward);
                self.text = text;
                self.redo_stack.push(e);
                Some((cursors, diff))
            },
        }
    }
    /// Steps forward over the last undone edit: the text becomes what it was
    /// after it, and the cursors of that moment come back with the changes
    /// that redo it. `None`, with nothing changed, when there is nothing to
    /// redo.
    pub fn redo(&mut self) -> (r: Option<(CursorSet, Vec<Change>)>)
        requires
            old(self).wf(),
        ensures
            final(self).wf(),
            old(self).redo_stack@.len() == 0 ==> r is None && *final(self) == *old(self),
            old(self).redo_stack@.len() > 0 ==> r is Some && {
                let e = old(self).redo_stack@.last();
                &&& final(self).text.view() == e.text_after.view()
                &&& r->Some_0.0.selections@ == e.cursors_after.selections@
                &&& changes_match(r->Some_0.1@, e.forward@)
                &&& final(self).redo_stack@ == old(self).redo_stack@.drop_last()
                &&& final(self).undo_stack@ == old(self).undo_stack@.push(e)
            },
    {
        if self.redo_stack.len() == 0 {
            return None;
        }
        match self.redo_stack.pop() {
            None => None,
            Some(e) => {
                let text = e.text_after.copy();
                proof {
                    assert(e.text_after.view().len() == e.text_after.lines@.len());
                }
                let cursors = e.cursors_after.copy();
                let diff = copy_changes(&e.forward);
                self.text = text;
                self.undo_stack.push(e);
                Some((cursors, diff))
            },
        }
    }
}

} // verus!

use vstd::prelude::*;
use crate::buf::{Buf, EditKind};
use crate::cursor_set::{
    CursorSet, selections_wf, change_selection_all, merged, sorted, lemma_matching_changes_remap_alike,
    all_carets, lemma_merged_keeps_carets, edit_remap,
};
use crate::edit_ops;
use crate::layout::{Layout, clusters_are_chars};
use crate::move_ops::{
    move_left, move_right, move_up, move_down, is_valid_point, point_valid, left_of, right_of, up_of,
    down_of,
};
use crate::selection::{Affinity, Selection};
use crate::text::{Change, Text, changed_all, joined, text_seq, changes_match, no_line_feeds};
use crate::edit_ops::{is_insert_diff, is_delete_diff};
use vstd::utf8::encode_utf8;

verus! {

/// Names a view of a `State`.
#[derive(Clone, Copy, Debug, PartialEq, Eq, Structural, Hash)]
pub struct ViewId {
    pub index: usize,
}

/// An editing context: the model it shows and its cursors.
#[derive(Debug)]
pub struct EditorView {
    pub model_id: usize,
    pub cursors: CursorSet,
}

/// A document shared by the views listed in `view_ids`.
#[derive(Debug)]
pub struct Model {
    pub view_ids: Vec<usize>,
    pub buf: Buf,
}

/// All models and views. Slots are never reused, so an id stays stable.
#[derive(Debug)]
pub struct State {
    pub views: Vec<Option<EditorView>>,
    pub models: Vec<Option<Model>>,
}

#[derive(Clone, Copy, Debug, PartialEq, Eq, Structural, Hash)]
pub enum KeyCode {
    Backspace,
    Enter,
    Left,
    Right,
    Up,
    Down,
    Z,
    Other,
}

#[derive(Clone, Copy, Debug, PartialEq, Eq, Structural, Hash, Default)]
pub struct KeyModifiers {
    pub shift: bool,
    pub command: bool,
}

/// An input event: a key press, or text typed in.
#[derive(Clone, Debug)]
pub enum Event {
    Key(KeyCode, KeyModifiers),
    Text(String),
}

/// Tab stops that vertical moves count with.
pub const TAB_COLUMN_COUNT: usize = 4;

impl State {
    pub open spec fn live_view(&self, i: int) -> bool {
        0 <= i < self.views@.len() && self.views@[i] is Some
    }

    pub open spec fn live_model(&self, m: int) -> bool {
        0 <= m < self.models@.len() && self.models@[m] is Some
    }

    pub open spec fn view_at(&self, i: int) -> EditorView {
        self.views@[i]->Some_0
    }

    pub open spec fn model_at(&self, m: int) -> Model {
        self.models@[m]->Some_0
    }

    /// Every view names a live model that lists it; every model is listed
    /// by at least one view, lists each of its views once, and only views
    /// that name it.
    pub open spec fn wf(&self) -> bool {
        &&& forall|i: int|
            #[trigger] self.live_view(i) ==> {
                let v = self.view_at(i);
                &&& self.live_model(v.model_id as int)
                &&& self.model_at(v.model_id as int).view_ids@.contains(i as usize)
                &&& v.cursors.wf()
            }
        &&& forall|m: int|
            #[trigger] self.live_model(m) ==> {
                let md = self.model_at(m);
                &&& md.view_ids@.len() > 0
                &&& md.view_ids@.no_duplicates()
                &&& md.buf.wf()
                &&& forall|k: int|
                    0 <= k < md.view_ids@.len() ==> self.live_view(#[trigger] md.view_ids@[k] as int)
                        && self.view_at(md.view_ids@[k] as int).model_id == m
            }
    }

    /// No views and no models.
    pub fn new() -> (r: State)
        ensures
            r.wf(),
            r.views@.len() == 0,
            r.models@.len() == 0,
    {
        State { views: Vec::new(), models: Vec::new() }
    }

    /// A new view on a new model holding an empty document.
    pub fn create_view(&mut self) -> (r: ViewId)
        requires
            old(self).wf(),
        ensures
            final(self).wf(),
            r.index == old(self).views@.len(),
            final(self).live_view(r.index as int),
            final(self).view_at(r.index as int).cursors.selections@ == seq![
                Selection::caret(crate::position::Point { line: 0, byte: 0 }),
            ],
            final(self).model_at(final(self).view_at(r.index as int).model_id as int).buf.text.view()
                == seq![Seq::<u8>::empty()],
            final(self).model_at(final(self).view_at(r.index as int).model_id as int).view_ids@
                == seq![r.index],
            forall|i: int| 0 <= i < old(self).views@.len() ==> final(self).views@[i] == old(self).views@[i],
            forall|m: int| 0 <= m < old(self).models@.len() ==> final(self).models@[m] == old(self).models@[m],
    {
        let model_id = self.models.len();
        let view_id = self.views.len();
        let mut view_ids: Vec<usize> = Vec::new();
        view_ids.push(view_id);
        let ghost old_state = *self;
        self.models.push(Some(Model { view_ids, buf: Buf::new(Text::new()) }));
        self.views.push(Some(EditorView { model_id, cursors: CursorSet::new() }));
        proof {
            assert forall|i: int| #[trigger] self.live_view(i) implies {
                let v = self.view_at(i);
                &&& self.live_model(v.model_id as int)
                &&& self.model_at(v.model_id as int).view_ids@.contains(i as usize)
                &&& v.cursors.wf()
            } by {
                if i < view_id {
                    assert(old_state.live_view(i));
                } else {
                    assert(self.model_at(model_id as int).view_ids@[0] == view_id);
                }
            }
            assert forall|m: int| #[trigger] self.live_model(m) implies {
                let md = self.model_at(m);
                &&& md.view_ids@.len() > 0
                &&& md.view_ids@.no_duplicates()
                &&& md.buf.wf()
                &&& forall|k: int|
                    0 <= k < md.view_ids@.len() ==> self.live_view(#[trigger] md.view_ids@[k] as int)
                        && self.view_at(md.view_ids@[k] as int).model_id == m
            } by {
                if m < model_id {
                    assert(old_state.live_model(m));
                    let md = self.model_at(m);
                    assert forall|k: int| 0 <= k < md.view_ids@.len() implies self.live_view(
                        #[trigger] md.view_ids@[k] as int,
                    ) && self.view_at(md.view_ids@[k] as int).model_id == m by {
                        assert(old_state.live_view(md.view_ids@[k] as int));
                    }
                }
            }
        }
        ViewId { index: view_id }
    }

    /// A new view on the model that view `of` shows, with one caret at the
    /// start of the document.
    pub fn create_sibling_view(&mut self, of: ViewId) -> (r: ViewId)
        requires
            old(self).wf(),
            old(self).live_view(of.index as int),
        ensures
            final(self).wf(),
            r.index == old(self).views@.len(),
            final(self).live_view(r.index as int),
            final(self).view_at(r.index as int).model_id == old(self).view_at(of.index as int).model_id,
            final(self).view_at(r.index as int).cursors.selections@ == seq![
                Selection::caret(crate::position::Point { line: 0, byte: 0 }),
            ],
            ({
                let m = old(self).view_at(of.index as int).model_id as int;
                &&& final(self).model_at(m).buf == old(self).model_at(m).buf
                &&& final(self).model_at(m).view_ids@ == old(self).model_at(m).view_ids@.push(r.index)
                &&& forall|k: int| 0 <= k < old(self).models@.len() && k != m ==> final(self).models@[k]
                    == old(self).models@[k]
            }),
            forall|i: int| 0 <= i < old(self).views@.len() ==> final(self).views@[i] == old(self).views@[i],
    {
        let ghost old_state = *self;
        let m = self.views[of.index].as_ref().unwrap().model_id;
        proof {
            assert(old_state.live_view(of.index as int));
            assert(old_state.live_model(m as int));
        }
        let view_id = self.views.len();
        let mut md = self.take_model(m);
        proof {
            assert forall|t: int| 0 <= t < md.view_ids@.len() implies md.view_ids@[t] != view_id by {
                assert(old_state.live_view(md.view_ids@[t] as int));
            }
        }
        let ghost old_ids = md.view_ids@;
        md.view_ids.push(view_id);
        self.models.set(m, Some(md));
        self.views.push(Some(EditorView { model_id: m, cursors: CursorSet::new() }));
        proof {
            assert forall|i: int| #[trigger] self.live_view(i) implies {
                let v = self.view_at(i);
                &&& self.live_model(v.model_id as int)
                &&& self.model_at(v.model_id as int).view_ids@.contains(i as usize)
                &&& v.cursors.wf()
            } by {
                if i < view_id {
                    assert(old_state.live_view(i));
                    let mm = old_state.view_at(i).model_id as int;
                    if mm == m {
                        let t = choose|t: int| 0 <= t < old_ids.len() && old_ids[t] == i as usize;
                        assert(self.model_at(m as int).view_ids@[t] == i as usize);
                    }
                } else {
                    assert(self.model_at(m as int).view_ids@[old_ids.len() as int] == view_id);
                }
            }
            assert forall|mm: int| #[trigger] self.live_model(mm) implies {
                let md = self.model_at(mm);
                &&& md.view_ids@.len() > 0
                &&& md.view_ids@.no_duplicates()
                &&& md.buf.wf()
                &&& forall|k: int|
                    0 <= k < md.view_ids@.len() ==> self.live_view(#[trigger] md.view_ids@[k] as int)
                        && self.view_at(md.view_ids@[k] as int).model_id == mm
            } by {
                assert(old_state.live_model(mm));
                let md = self.model_at(mm);
                assert forall|k: int| 0 <= k < md.view_ids@.len() implies self.live_view(
                    #[trigger] md.view_ids@[k] as int,
                ) && self.view_at(md.view_ids@[k] as int).model_id == mm by {
                    if mm == m && k == old_ids.len() {
                    } else {
                        assert(old_state.model_at(mm).view_ids@[k] == md.view_ids@[k]);
                        assert(old_state.live_view(md.view_ids@[k] as int));
                    }
                }
            }
        }
        ViewId { index: view_id }
    }

    /// Removes the view `id`; its model goes too when no other view shows it.
    pub fn destroy_view(&mut self, id: ViewId)
        requires
            old(self).wf(),
            old(self).live_view(id.index as int),
        ensures
            final(self).wf(),
            !final(self).live_view(id.index as int),
            final(self).views@.len() == old(self).views@.len(),
            final(self).models@.len() == old(self).models@.len(),
            ({
                let m = old(self).view_at(id.index as int).model_id as int;
                let ids = old(self).model_at(m).view_ids@;
                &&& ids.len() == 1 ==> !final(self).live_model(m)
                &&& ids.len() > 1 ==> final(self).live_model(m) && final(self).model_at(m).buf
                    == old(self).model_at(m).buf && forall|x: usize|
                    final(self).model_at(m).view_ids@.contains(x) <==> ids.contains(x) && x
                        != id.index
                &&& forall|k: int| 0 <= k < old(self).models@.len() && k != m ==> final(self).models@[k]
                    == old(self).models@[k]
            }),
            forall|i: int|
                0 <= i < old(self).views@.len() && i != id.index ==> final(self).views@[i]
                    == old(self).views@[i],
    {
        let ghost old_state = *self;
        let m = match &self.views[id.index] {
            Some(v) => v.model_id,
            None => 0,
        };
        let md = self.take_model(m);
        let ghost ids = md.view_ids@;
        proof {
            assert(ids.contains(id.index));
        }
        let mut rest: Vec<usize> = Vec::new();
        let mut k: usize = 0;
        while k < md.view_ids.len()
            invariant
                k <= ids.len(),
                ids == md.view_ids@,
                ids.no_duplicates(),
                rest@.no_duplicates(),
                forall|t: int|
                    0 <= t < rest@.len() ==> #[trigger] rest@[t] != id.index && exists|j: int|
                        0 <= j < k && ids[j] == rest@[t],
                forall|j: int| 0 <= j < k && #[trigger] ids[j] != id.index ==> rest@.contains(ids[j]),
            decreases ids.len() - k,
        {
            let x = md.view_ids[k];
            if x != id.index {
                let ghost before = rest@;
                proof {
                    assert forall|t: int| 0 <= t < before.len() implies before[t] != x by {
                        let j = choose|j: int| 0 <= j < k && ids[j] == before[t];
                        assert(ids[j] != ids[k as int]);
                    }
                }
                rest.push(x);
                proof {
                    assert(rest@[before.len() as int] == x);
                    assert forall|t: int| 0 <= t < rest@.len() implies #[trigger] rest@[t] != id.index
                        && exists|j: int| 0 <= j < k + 1 && ids[j] == rest@[t] by {
                        if t < before.len() {
                            assert(rest@[t] == before[t]);
                            let j = choose|j: int| 0 <= j < k && ids[j] == before[t];
                            assert(ids[j] == rest@[t]);
                        } else {
                            assert(ids[k as int] == rest@[t]);
                        }
                    }
                    assert forall|j: int| 0 <= j < k + 1 && #[trigger] ids[j] != id.index implies rest@.contains(
                        ids[j],
                    ) by {
                        if j < k {
                            assert(before.contains(ids[j]));
                            let t = choose|t: int| 0 <= t < before.len() && before[t] == ids[j];
                            assert(rest@[t] == ids[j]);
                        } else {
                            assert(rest@[before.len() as int] == ids[j]);
                        }
                    }
                }
            }
            k += 1;
        }
        let ghost rest_v = rest@;
        proof {
            assert forall|x: usize| rest_v.contains(x) <==> ids.contains(x) && x != id.index by {
                if rest_v.contains(x) {
                    let t = choose|t: int| 0 <= t < rest_v.len() && rest_v[t] == x;
                    let j = choose|j: int| 0 <= j < ids.len() && ids[j] == rest_v[t];
                    assert(ids[j] == x);
                }
                if ids.contains(x) && x != id.index {
                    let j = choose|j: int| 0 <= j < ids.len() && ids[j] == x;
                    assert(ids[j] != id.index);
                }
            }
            let p = choose|p: int| 0 <= p < ids.len() && ids[p] == id.index;
            if ids.len() > 1 {
                let q = if p == 0 { 1int } else { 0int };
                assert(ids[q] != ids[p]);
                assert(rest_v.contains(ids[q]));
            } else {
                if rest_v.len() > 0 {
                    assert(rest_v.contains(rest_v[0]));
                    assert(ids.contains(rest_v[0]));
                    assert(ids[0] == rest_v[0]);
                }
            }
        }
        if rest.len() > 0 {
            self.models.set(m, Some(Model { view_ids: rest, buf: md.buf }));
        }
        self.views.set(id.index, None);
        let view_count = self.views.len();
        proof {
            assert forall|i: int| #[trigger] self.live_view(i) implies {
                let v = self.view_at(i);
                &&& self.live_model(v.model_id as int)
                &&& self.model_at(v.model_id as int).view_ids@.contains(i as usize)
                &&& v.cursors.wf()
            } by {
                assert(old_state.live_view(i));
                assert(i != id.index);
                let v = self.view_at(i);
                if v.model_id == m {
                    assert(old_state.model_at(m as int).view_ids@.contains(i as usize));
                    assert(ids.contains(i as usize));
                    assert(i < view_count);
                    assert(i as usize != id.index);
                    assert(rest_v.contains(i as usize));
                }
            }
            assert forall|mm: int| #[trigger] self.live_model(mm) implies {
                let md = self.model_at(mm);
                &&& md.view_ids@.len() > 0
                &&& md.view_ids@.no_duplicates()
                &&& md.buf.wf()
                &&& forall|k: int|
                    0 <= k < md.view_ids@.len() ==> self.live_view(#[trigger] md.view_ids@[k] as int)
                        && self.view_at(md.view_ids@[k] as int).model_id == mm
            } by {
                assert(old_state.live_model(mm));
                let md = self.model_at(mm);
                assert forall|k: int| 0 <= k < md.view_ids@.len() implies self.live_view(
                    #[trigger] md.view_ids@[k] as int,
                ) && self.view_at(md.view_ids@[k] as int).model_id == mm by {
                    let x = md.view_ids@[k];
                    if mm == m {
                        assert(rest_v[k] == x);
                        assert(rest_v.contains(x));
                        let j = choose|j: int| 0 <= j < ids.len() && ids[j] == x;
                        assert(old_state.live_view(ids[j] as int));
                    } else {
                        assert(old_state.model_at(mm).view_ids@[k] == x);
                        assert(old_state.live_view(x as int));
                        assert(old_state.view_at(x as int).model_id == mm);
                        assert(x != id.index);
                    }
                }
            }
        }
    }

    /// Takes model `m` out of its slot, leaving `None` there.
    fn take_model(&mut self, m: usize) -> (r: Model)
        requires
            old(self).live_model(m as int),
        ensures
            r == old(self).model_at(m as int),
            final(self).models@ == old(self).models@.update(m as int, None),
            final(self).views == old(self).views,
    {
        self.models.push(None);
        let slot = self.models.swap_remove(m);
        match slot {
            Some(md) => md,
            None => {
                proof {
                    assert(false);
                }
                Model { view_ids: Vec::new(), buf: Buf::new(Text::new()) }
            },
        }
    }
    /// Read access to the text and the cursors of view `id`.
    pub fn draw(&self, id: ViewId) -> (r: (&Text, &CursorSet))
        requires
            self.wf(),
            self.live_view(id.index as int),
        ensures
            *r.1 == self.view_at(id.index as int).cursors,
            *r.0 == self.model_at(self.view_at(id.index as int).model_id as int).buf.text,
    {
        let v = self.views[id.index].as_ref().unwrap();
        let md = self.models[v.model_id].as_ref().unwrap();
        (&md.buf.text, &v.cursors)
    }

    /// `self` differs from `old` at most in the cursors of its views and in
    /// model `m`, which is taken out.
    pub open spec fn same_views(&self, old: &State) -> bool {
        &&& self.views@.len() == old.views@.len()
        &&& forall|i: int| #[trigger] self.live_view(i) <==> old.live_view(i)
        &&& forall|i: int|
            #[trigger] self.live_view(i) ==> self.view_at(i).model_id == old.view_at(i).model_id
                && self.view_at(i).cursors.wf()
    }

    /// Changing the cursors of views to well-formed ones, and the buffer
    /// of model `m` to a well-formed one, keeps the state well formed.
    proof fn lemma_wf_kept(&self, old: &State, m: int)
        requires
            old.wf(),
            self.same_views(old),
            old.live_model(m),
            self.models@.len() == old.models@.len(),
            forall|k: int| 0 <= k < old.models@.len() && k != m ==> self.models@[k] == old.models@[k],
            self.live_model(m),
            self.model_at(m).view_ids == old.model_at(m).view_ids,
            self.model_at(m).buf.wf(),
        ensures
            self.wf(),
    {
        assert forall|mm: int| #[trigger] self.live_model(mm) implies {
            let md = self.model_at(mm);
            &&& md.view_ids@.len() > 0
            &&& md.view_ids@.no_duplicates()
            &&& md.buf.wf()
            &&& forall|k: int|
                0 <= k < md.view_ids@.len() ==> self.live_view(#[trigger] md.view_ids@[k] as int)
                    && self.view_at(md.view_ids@[k] as int).model_id == mm
        } by {
            assert(old.live_model(mm));
            let md = self.model_at(mm);
            assert(md.view_ids@ == old.model_at(mm).view_ids@);
            assert forall|k: int| 0 <= k < md.view_ids@.len() implies self.live_view(
                #[trigger] md.view_ids@[k] as int,
            ) && self.view_at(md.view_ids@[k] as int).model_id == mm by {
                let x = md.view_ids@[k] as int;
                assert(old.model_at(mm).view_ids@[k] as int == x);
                assert(old.live_view(x));
                assert(self.live_view(x));
            }
        }
        assert forall|i: int| #[trigger] self.live_view(i) implies {
            let v = self.view_at(i);
            &&& self.live_model(v.model_id as int)
            &&& self.model_at(v.model_id as int).view_ids@.contains(i as usize)
            &&& v.cursors.wf()
        } by {
            assert(old.live_view(i));
            let mm = old.view_at(i).model_id as int;
            assert(old.live_model(mm));
            assert(self.model_at(mm).view_ids@ == old.model_at(mm).view_ids@);
        }
    }

    proof fn lemma_same_views_trans(&self, mid: &State, old: &State)
        requires
            self.same_views(mid),
            mid.same_views(old),
        ensures
            self.same_views(old),
    {
        assert forall|i: int| #[trigger] self.live_view(i) <==> old.live_view(i) by {
            assert(self.live_view(i) <==> mid.live_view(i));
            assert(mid.live_view(i) <==> old.live_view(i));
        }
        assert forall|i: int| #[trigger] self.live_view(i) implies self.view_at(i).model_id
            == old.view_at(i).model_id && self.view_at(i).cursors.wf() by {
            assert(mid.live_view(i));
        }
    }

    /// Sets the cursors of the live view `i`.
    fn set_cursors(&mut self, i: usize, cursors: CursorSet)
        requires
            old(self).live_view(i as int),
            cursors.wf(),
        ensures
            final(self).views@ == old(self).views@.update(
                i as int,
                Some(EditorView { model_id: old(self).view_at(i as int).model_id, cursors }),
            ),
            final(self).models == old(self).models,
            (forall|j: int| #[trigger] old(self).live_view(j) ==> old(self).view_at(j).cursors.wf())
                ==> final(self).same_views(old(self)),
    {
        let ghost before = *self;
        let model_id = self.views[i].as_ref().unwrap().model_id;
        self.views.set(i, Some(EditorView { model_id, cursors }));
        proof {
            assert forall|j: int| #[trigger] self.live_view(j) <==> before.live_view(j) by {}
            if forall|j: int| #[trigger] before.live_view(j) ==> before.view_at(j).cursors.wf() {
                assert forall|j: int| #[trigger] self.live_view(j) implies self.view_at(j).model_id
                    == before.view_at(j).model_id && self.view_at(j).cursors.wf() by {
                    assert(before.live_view(j));
                }
            }
        }
    }
    /// Remaps the cursors of every view in `ids` through `diff`: the view
    /// `acting` takes `replacement` when there is one and otherwise remaps as
    /// the one that made the edit; the others remap as bystanders.
    fn update_views(
        &mut self,
        ids: &Vec<usize>,
        acting: usize,
        replacement: Option<CursorSet>,
        diff: &Vec<Change>,
    )
        requires
            forall|k: int| 0 <= k < ids@.len() ==> old(self).live_view(#[trigger] ids@[k] as int),
            forall|i: int| #[trigger] old(self).live_view(i) ==> old(self).view_at(i).cursors.wf(),
        ensures
            final(self).same_views(old(self)),
            final(self).models == old(self).models,
            forall|i: int|
                0 <= i < old(self).views@.len() && !ids@.contains(i as usize) ==> final(self).views@[i]
                    == old(self).views@[i],
            ids@.contains(acting) && replacement is Some && replacement->Some_0.wf()
                ==> final(self).view_at(acting as int).cursors.selections@
                == replacement->Some_0.selections@,
            ids@.no_duplicates() ==> forall|k: int|
                0 <= k < ids@.len() && (ids@[k] != acting || replacement is None) ==> {
                    let i = #[trigger] ids@[k] as int;
                    let mapped = old(self).view_at(i).cursors.selections@.map_values(
                        |s: Selection| edit_remap(s, diff@, ids@[k] == acting),
                    );
                    final(self).view_at(i).cursors.selections@ == merged(sorted(mapped))
                },
    {
        let ghost start = *self;
        let mut k: usize = 0;
        while k < ids.len()
            invariant
                k <= ids@.len(),
                self.same_views(&start),
                self.models == start.models,
                forall|k: int| 0 <= k < ids@.len() ==> start.live_view(#[trigger] ids@[k] as int),
                forall|i: int| #[trigger] start.live_view(i) ==> start.view_at(i).cursors.wf(),
                forall|i: int|
                    0 <= i < start.views@.len() && !ids@.contains(i as usize) ==> self.views@[i]
                        == start.views@[i],
                ids@.subrange(0, k as int).contains(acting) && replacement is Some
                    && replacement->Some_0.wf() ==> self.view_at(acting as int).cursors.selections@
                    == replacement->Some_0.selections@,
                ids@.no_duplicates() ==> forall|j: int|
                    k <= j < ids@.len() ==> self.views@[#[trigger] ids@[j] as int] == start.views@[ids@[j] as int],
                ids@.no_duplicates() ==> forall|j: int|
                    0 <= j < k && (ids@[j] != acting || replacement is None) ==> {
                        let i = #[trigger] ids@[j] as int;
                        let mapped = start.view_at(i).cursors.selections@.map_values(
                            |s: Selection| edit_remap(s, diff@, ids@[j] == acting),
                        );
                        self.view_at(i).cursors.selections@ == merged(sorted(mapped))
                    },
            decreases ids@.len() - k,
        {
            let i = ids[k];
            proof {
                assert(start.live_view(i as int));
                assert(self.live_view(i as int));
            }
            let mut cursors = self.views[i].as_ref().unwrap().cursors.copy();
            let ghost orig = cursors.selections@;
            proof {
                if ids@.no_duplicates() {
                    assert(self.views@[ids@[k as int] as int] == start.views@[ids@[k as int] as int]);
                    assert(orig == start.view_at(i as int).cursors.selections@);
                }
            }
            if i == acting {
                match &replacement {
                    Some(c) => {
                        cursors = CursorSet::from_selections(c.copy().selections);
                    },
                    None => {
                        cursors.apply_diff(diff, true);
                    },
                }
            } else {
                cursors.apply_diff(diff, false);
            }
            let ghost before = *self;
            self.set_cursors(i, cursors);
            proof {
                assert(ids@.contains(i));
                assert forall|j: int| #[trigger] self.live_view(j) <==> start.live_view(j) by {
                    assert(before.live_view(j) <==> start.live_view(j));
                }
                assert forall|j: int| #[trigger] self.live_view(j) implies self.view_at(j).model_id
                    == start.view_at(j).model_id && self.view_at(j).cursors.wf() by {
                    assert(before.live_view(j));
                }
                if ids@.no_duplicates() {
                    assert forall|jj: int| k + 1 <= jj < ids@.len() implies self.views@[#[trigger] ids@[jj] as int]
                        == start.views@[ids@[jj] as int] by {
                        assert(ids@[jj] != ids@[k as int]);
                    }
                    assert forall|jj: int|
                        0 <= jj < k + 1 && (ids@[jj] != acting || replacement is None) implies {
                            let ii = #[trigger] ids@[jj] as int;
                            let mapped = start.view_at(ii).cursors.selections@.map_values(
                                |s: Selection| edit_remap(s, diff@, ids@[jj] == acting),
                            );
                            self.view_at(ii).cursors.selections@ == merged(sorted(mapped))
                        } by {
                        if jj < k {
                            assert(ids@[jj] != ids@[k as int]);
                        }
                    }
                }
                let sub = ids@.subrange(0, k + 1);
                if sub.contains(acting) && i != acting {
                    let t = choose|t: int| 0 <= t < sub.len() && #[trigger] sub[t] == acting;
                    assert(t != k);
                    assert(ids@.subrange(0, k as int)[t] == acting);
                }
            }
            k += 1;
        }
        proof {
            assert(ids@.subrange(0, ids@.len() as int) =~= ids@);
        }
    }

    /// Handles one event on view `id`, with the text's layout taken as
    /// each character a cluster and no soft wraps.
    pub fn handle_event(&mut self, id: ViewId, event: &Event)
        requires
            old(self).wf(),
            old(self).live_view(id.index as int),
        ensures
            final(self).wf(),
            exists|layout: Layout|
                #[trigger] plain_layout(
                    &old(self).model_at(old(self).view_at(id.index as int).model_id as int).buf.text.lines,
                    layout,
                ) && handled(*old(self), *final(self), id, *event, layout),
    {
        let m = self.views[id.index].as_ref().unwrap().model_id;
        proof {
            assert(old(self).live_model(m as int));
        }
        let layout = Layout::unwrapped(&self.models[m].as_ref().unwrap().buf.text.lines, TAB_COLUMN_COUNT);
        proof {
            assert(plain_layout(&self.model_at(m as int).buf.text.lines, layout));
        }
        self.handle_event_with_layout(id, event, &layout);
    }

    /// Handles one event on view `id`, moving and deleting by the grapheme
    /// clusters and soft-wrap rows of `layout`, which must fit the text of
    /// the view's model.
    pub fn handle_event_with_layout(&mut self, id: ViewId, event: &Event, layout: &Layout)
        requires
            old(self).wf(),
            old(self).live_view(id.index as int),
            layout.fits(&old(self).model_at(old(self).view_at(id.index as int).model_id as int).buf.text.lines),
        ensures
            final(self).wf(),
            handled(*old(self), *final(self), id, *event, *layout),
    {
        let ghost old_state = *self;
        let m = self.views[id.index].as_ref().unwrap().model_id;
        proof {
            assert(old_state.live_view(id.index as int));
        }
        match event {
            Event::Key(code, mods) => {
                if is_move_key(*code) {
                    let md = self.models[m].as_ref().unwrap();
                    let cursors = &self.views[id.index].as_ref().unwrap().cursors;
                    let moved = move_cursors(&md.buf.text, layout, cursors, mods.shift, *code);
                    self.set_cursors(id.index, moved);
                    proof {
                        assert(old_state.live_model(m as int));
                        assert(self.same_views(&old_state));
                        self.lemma_wf_kept(&old_state, m as int);
                    }
                    return;
                }
            },
            Event::Text(_) => {},
        }
        if !is_edit_or_history(event) {
            return;
        }
        let mut md = self.take_model(m);
        let ghost mid = *self;
        proof {
            assert(old_state.live_model(m as int));
            assert forall|k: int| 0 <= k < md.view_ids@.len() implies self.live_view(#[trigger] md.view_ids@[k] as int) by {
                assert(old_state.live_view(md.view_ids@[k] as int));
            }
            assert forall|i: int| #[trigger] self.live_view(i) implies self.view_at(i).cursors.wf() by {
                assert(old_state.live_view(i));
            }
            assert(self.views == old_state.views);
            assert(self.same_views(&old_state));
            assert(self.same_views(&mid));
        }
        let cursors = self.views[id.index].as_ref().unwrap().cursors.copy();
        let edit: Option<(EditKind, Vec<Change>)> = match event {
            Event::Key(KeyCode::Backspace, _) => {
                let diff = edit_ops::delete(&md.buf.text, layout, &cursors);
                Some((EditKind::Delete, diff))
            },
            Event::Key(KeyCode::Enter, _) => {
                let mut lines: Vec<Vec<u8>> = Vec::new();
                lines.push(Vec::new());
                lines.push(Vec::new());
                let split = Text { lines };
                proof {
                    assert(text_seq(split) =~= seq![Seq::<u8>::empty(), Seq::<u8>::empty()]);
                }
                Some((EditKind::Insert, edit_ops::insert(&md.buf.text, &cursors, &split)))
            },
            Event::Text(string) => {
                let inserted = Text::from_bytes(string.as_str().as_bytes());
                Some((EditKind::Insert, edit_ops::insert(&md.buf.text, &cursors, &inserted)))
            },
            _ => None,
        };
        match edit {
            Some((kind, diff)) => {
                let ghost ids = md.view_ids@;
                self.update_views(&md.view_ids, id.index, None, &diff);
                md.buf.edit(kind, &cursors, diff);
                let view_count = self.views.len();
                proof {
                    assert(ids.no_duplicates());
                    assert forall|i: int| #[trigger] old_state.live_view(i) && old_state.view_at(i).model_id == m
                        implies {
                        let mapped = old_state.view_at(i).cursors.selections@.map_values(
                            |s: Selection| edit_remap(s, md.buf.undo_stack@.last().forward@, i == id.index),
                        );
                        self.view_at(i).cursors.selections@ == merged(sorted(mapped))
                    } by {
                        assert(i < view_count);
                        assert(ids.contains(i as usize));
                        let k = choose|k: int| 0 <= k < ids.len() && ids[k] == i as usize;
                        assert(ids[k] as int == i);
                    }
                }
            },
            None => {
                let ghost ids = md.view_ids@;
                let ghost buf0 = md.buf;
                let step = if is_undo_key(event) {
                    md.buf.undo()
                } else if is_redo_key(event) {
                    md.buf.redo()
                } else {
                    None
                };
                if let Some((restored, diff)) = step {
                    let ghost d = diff@;
                    self.update_views(&md.view_ids, id.index, Some(restored), &diff);
                    let view_count = self.views.len();
                    proof {
                        let hist = if is_undo(*event) {
                            buf0.undo_stack@.last().backward@
                        } else {
                            buf0.redo_stack@.last().forward@
                        };
                        assert(changes_match(d, hist));
                        assert(ids.no_duplicates());
                        assert forall|i: int|
                            #[trigger] old_state.live_view(i) && old_state.view_at(i).model_id == m
                                && i != id.index implies self.view_at(i).cursors.selections@ == merged(
                            sorted(
                                old_state.view_at(i).cursors.selections@.map_values(
                                    |s: Selection| change_selection_all(s, hist, false),
                                ),
                            ),
                        ) by {
                            assert(i < view_count);
                            assert(ids.contains(i as usize));
                            let k = choose|k: int| 0 <= k < ids.len() && ids[k] == i as usize;
                            assert(ids[k] as int == i);
                            let before = old_state.view_at(i).cursors.selections@;
                            assert forall|t: int| 0 <= t < before.len() implies change_selection_all(
                                #[trigger] before[t],
                                d,
                                false,
                            ) == change_selection_all(before[t], hist, false) by {
                                lemma_matching_changes_remap_alike(before[t], d, hist, false);
                            }
                            assert(ids[k] != id.index);
                            assert(before.map_values(|s: Selection| edit_remap(s, d, false))
                                =~= before.map_values(|s: Selection| change_selection_all(s, hist, false)));
                        }
                    }
                }
            },
        }
        proof {
            self.lemma_same_views_trans(&mid, &old_state);
        }
        let ghost pre_set = *self;
        self.models.set(m, Some(md));
        proof {
            assert(self.views == pre_set.views);
            assert(pre_set.same_views(&old_state));
            assert forall|i: int| #[trigger] self.live_view(i) <==> old_state.live_view(i) by {
                assert(self.live_view(i) == pre_set.live_view(i));
            }
            assert forall|i: int| #[trigger] self.live_view(i) implies self.view_at(i).model_id
                == old_state.view_at(i).model_id && self.view_at(i).cursors.wf() by {
                assert(pre_set.live_view(i));
            }
            assert(self.same_views(&old_state));
            assert(self.model_at(m as int).view_ids == old_state.model_at(m as int).view_ids);
            self.lemma_wf_kept(&old_state, m as int);
        }
    }
}


/// What handling `event` on view `id` over `layout` leads to, from `s0`
/// to `s1`: edits change the text of the view's model and remap the cursors
/// of every view on it, moves change the cursors of `id` alone, undo and
/// redo step through the model's history; views and models elsewhere are
/// left alone.
pub open spec fn handled(s0: State, s1: State, id: ViewId, event: Event, layout: Layout) -> bool {
    &&& s1.wf()
    &&& s1.views@.len() == s0.views@.len()
    &&& s1.models@.len() == s0.models@.len()
    &&& forall|i: int| #[trigger] s1.live_view(i) <==> s0.live_view(i)
    &&& ({
        let m = s0.view_at(id.index as int).model_id as int;
        &&& forall|k: int| 0 <= k < s0.models@.len() && k != m ==> s1.models@[k]
            == s0.models@[k]
        &&& forall|i: int|
            #[trigger] s0.live_view(i) && s0.view_at(i).model_id != m
                ==> s1.views@[i] == s0.views@[i]
        &&& s1.model_at(m).view_ids == s0.model_at(m).view_ids
        &&& is_move(event) ==> s1.model_at(m).buf == s0.model_at(m).buf && forall|
            i: int,
        | #[trigger] s0.live_view(i) && i != id.index ==> s1.views@[i]
            == s0.views@[i]
        &&& is_move(event) ==> exists|moved: Seq<Selection>|
            #![trigger merged(sorted(moved))]
        {
            let before = s0.view_at(id.index as int).cursors.selections@;
            &&& moved.len() == before.len()
            &&& forall|i: int|
                0 <= i < moved.len() ==> moved_by(
                    &s0.model_at(m).buf.text.lines,
                    &layout,
                    #[trigger] before[i],
                    event->Key_1.shift,
                    event->Key_0,
                    moved[i],
                )
            &&& s1.view_at(id.index as int).cursors.selections@
                == merged(sorted(moved))
        }
        &&& is_undo(event) && s0.model_at(m).buf.undo_stack@.len() > 0 ==> {
            let e = s0.model_at(m).buf.undo_stack@.last();
            &&& s1.model_at(m).buf.undo_stack@ == s0.model_at(m).buf.undo_stack@.drop_last()
            &&& s1.model_at(m).buf.redo_stack@ == s0.model_at(m).buf.redo_stack@.push(e)
            &&& forall|i: int|
                #[trigger] s0.live_view(i) && s0.view_at(i).model_id == m && i
                    != id.index ==> s1.view_at(i).cursors.selections@ == merged(
                    sorted(
                        s0.view_at(i).cursors.selections@.map_values(
                            |s: Selection| change_selection_all(s, e.backward@, false),
                        ),
                    ),
                )
            &&& s1.model_at(m).buf.text.view() == e.text_before.view()
            &&& (s1.view_at(id.index as int).cursors.selections@
                == e.cursors_before.selections@)
        }
        &&& is_redo(event) && s0.model_at(m).buf.redo_stack@.len() > 0 ==> {
            let e = s0.model_at(m).buf.redo_stack@.last();
            &&& s1.model_at(m).buf.redo_stack@ == s0.model_at(m).buf.redo_stack@.drop_last()
            &&& s1.model_at(m).buf.undo_stack@ == s0.model_at(m).buf.undo_stack@.push(e)
            &&& forall|i: int|
                #[trigger] s0.live_view(i) && s0.view_at(i).model_id == m && i
                    != id.index ==> s1.view_at(i).cursors.selections@ == merged(
                    sorted(
                        s0.view_at(i).cursors.selections@.map_values(
                            |s: Selection| change_selection_all(s, e.forward@, false),
                        ),
                    ),
                )
            &&& s1.model_at(m).buf.text.view() == e.text_after.view()
            &&& (s1.view_at(id.index as int).cursors.selections@
                == e.cursors_after.selections@)
        }
        &&& (is_undo(event) && s0.model_at(m).buf.undo_stack@.len() == 0) || (is_redo(
            event,
        ) && s0.model_at(m).buf.redo_stack@.len() == 0) ==> s1.views
            == s0.views && s1.models@ =~= s0.models@
        &&& is_edit(event) ==> forall|i: int|
            #[trigger] s0.live_view(i) && s0.view_at(i).model_id == m ==> {
                let mapped = s0.view_at(i).cursors.selections@.map_values(
                    |s: Selection|
                        edit_remap(
                            s,
                            s1.model_at(m).buf.undo_stack@.last().forward@,
                            i == id.index,
                        ),
                );
                s1.view_at(i).cursors.selections@ == merged(sorted(mapped))
            }
        &&& is_edit(event) ==> {
            let d = s1.model_at(m).buf.undo_stack@.last().forward@;
            let before = s0.view_at(id.index as int).cursors.selections@;
            match event {
                Event::Key(KeyCode::Backspace, _) => is_delete_diff(
                        &s0.model_at(m).buf.text.lines,
                        &layout,
                        before,
                        d,
                    ),
                Event::Key(_, _) => is_insert_diff(
                    before,
                    seq![Seq::<u8>::empty(), Seq::<u8>::empty()],
                    d,
                ),
                Event::Text(string) => exists|t: Seq<Seq<u8>>|
                    #[trigger] joined(t) == encode_utf8(string@) && no_line_feeds(t) && is_insert_diff(
                        before,
                        t,
                        d,
                    ),
            }
        }
        &&& is_edit(event) ==> {
            let b = s1.model_at(m).buf;
            &&& b.text.view() == changed_all(s0.model_at(m).buf.text.view(), b.undo_stack@.last().forward@)
            &&& b.undo_stack@.len() == s0.model_at(m).buf.undo_stack@.len() + 1
            &&& b.undo_stack@.last().text_before.view() == s0.model_at(m).buf.text.view()
            &&& b.undo_stack@.last().cursors_before.selections@ == s0.view_at(
                id.index as int,
            ).cursors.selections@
        }
        &&& !is_move(event) && !is_edit(event) && !is_undo(event) && !is_redo(event)
            ==> s1.views == s0.views && s1.models == s0.models
    })
}

pub open spec fn is_move_code(code: KeyCode) -> bool {
    code == KeyCode::Left || code == KeyCode::Right || code == KeyCode::Up || code == KeyCode::Down
}

/// An arrow key.
pub open spec fn is_move(event: Event) -> bool {
    event matches Event::Key(code, _) && is_move_code(code)
}

/// Backspace, enter, or typed text.
pub open spec fn is_edit(event: Event) -> bool {
    match event {
        Event::Key(code, _) => code == KeyCode::Backspace || code == KeyCode::Enter,
        Event::Text(_) => true,
    }
}

/// The primary modifier with Z.
pub open spec fn is_undo(event: Event) -> bool {
    event matches Event::Key(KeyCode::Z, mods) && mods.command && !mods.shift
}

/// The primary modifier with shift and Z.
pub open spec fn is_redo(event: Event) -> bool {
    event matches Event::Key(KeyCode::Z, mods) && mods.command && mods.shift
}

fn is_move_key(code: KeyCode) -> (r: bool)
    ensures
        r == is_move_code(code),
{
    match code {
        KeyCode::Left | KeyCode::Right | KeyCode::Up | KeyCode::Down => true,
        _ => false,
    }
}

fn is_undo_key(event: &Event) -> (r: bool)
    ensures
        r == is_undo(*event),
{
    match event {
        Event::Key(KeyCode::Z, mods) => mods.command && !mods.shift,
        _ => false,
    }
}

fn is_redo_key(event: &Event) -> (r: bool)
    ensures
        r == is_redo(*event),
{
    match event {
        Event::Key(KeyCode::Z, mods) => mods.command && mods.shift,
        _ => false,
    }
}

fn is_edit_or_history(event: &Event) -> (r: bool)
    ensures
        r == (is_edit(*event) || is_undo(*event) || is_redo(*event)),
{
    match event {
        Event::Key(KeyCode::Backspace, _) | Event::Key(KeyCode::Enter, _) | Event::Text(_) => true,
        Event::Key(KeyCode::Z, mods) => mods.command,
        _ => false,
    }
}

/// The layout that the arrow keys move by: no soft wraps, tab stops every
/// `TAB_COLUMN_COUNT` columns.
pub open spec fn plain_layout(lines: &Vec<Vec<u8>>, layout: Layout) -> bool {
    &&& layout.fits(lines)
    &&& layout.tab_column_count == TAB_COLUMN_COUNT
    &&& forall|i: int| 0 <= i < lines@.len() ==> (#[trigger] layout.wraps@[i])@.len() == 0
    &&& forall|i: int| 0 <= i < lines@.len() ==> clusters_are_chars(#[trigger] lines@[i]@, layout.graphemes@[i]@)
}

/// `t` is `s` moved by the arrow key `code` on `layout`: the cursor moves
/// one grapheme cluster left or right (with affinity `Before` and no
/// preferred column), or one row up or down; the anchor stays when `select`
/// and follows the cursor otherwise. A selection whose cursor is not a
/// position of `lines` stays.
pub open spec fn moved_by(
    lines: &Vec<Vec<u8>>,
    layout: &Layout,
    s: Selection,
    select: bool,
    code: KeyCode,
    t: Selection,
) -> bool {
    if !point_valid(lines@, s.cursor) {
        t == s
    } else {
        &&& point_valid(lines@, t.cursor)
        &&& t.anchor == (if select { s.anchor } else { t.cursor })
        &&& code == KeyCode::Left ==> left_of(lines, layout, s.cursor, t.cursor) && t.affinity
            == Affinity::Before && t.preferred_column is None
        &&& code == KeyCode::Right ==> right_of(lines, layout, s.cursor, t.cursor) && t.affinity
            == Affinity::Before && t.preferred_column is None
        &&& code == KeyCode::Up ==> up_of(
            lines,
            layout,
            s.cursor,
            s.affinity,
            s.preferred_column,
            (t.cursor, t.affinity, t.preferred_column),
        )
        &&& code == KeyCode::Down ==> down_of(
            lines,
            layout,
            s.cursor,
            s.affinity,
            s.preferred_column,
            (t.cursor, t.affinity, t.preferred_column),
        )
    }
}

/// Each selection moved by an arrow key: the cursor goes, the anchor
/// follows it unless `select` extends the selection. A horizontal move
/// drops the preferred column; a vertical one keeps it.
fn move_cursors(text: &Text, layout: &Layout, cursors: &CursorSet, select: bool, code: KeyCode) -> (r: CursorSet)
    requires
        is_move_code(code),
        layout.fits(&text.lines),
    ensures
        r.wf(),
        cursors.selections@.len() > 0 ==> r.selections@.len() > 0,
        exists|moved: Seq<Selection>|
            #![trigger merged(sorted(moved))]
            moved.len() == cursors.selections@.len() && (forall|i: int|
                0 <= i < moved.len() ==> moved_by(
                    &text.lines,
                    layout,
                    #[trigger] cursors.selections@[i],
                    select,
                    code,
                    moved[i],
                )) && r.selections@ == merged(sorted(moved)),
{
    let n = cursors.selections.len();
    let mut moved: Vec<Selection> = Vec::new();
    let mut i: usize = 0;
    while i < n
        invariant
            i <= n,
            n == cursors.selections@.len(),
            moved@.len() == i,
            layout.fits(&text.lines),
            is_move_code(code),
            forall|k: int|
                0 <= k < i ==> moved_by(
                    &text.lines,
                    layout,
                    #[trigger] cursors.selections@[k],
                    select,
                    code,
                    moved@[k],
                ),
        decreases n - i,
    {
        let s = cursors.selections[i];
        let t = if !is_valid_point(&text.lines, s.cursor) {
            s
        } else {
            let to = match code {
                KeyCode::Left => (move_left(&text.lines, layout, s.cursor), Affinity::Before, None),
                KeyCode::Right => (move_right(&text.lines, layout, s.cursor), Affinity::Before, None),
                KeyCode::Up => move_up(&text.lines, layout, s.cursor, s.affinity, s.preferred_column),
                KeyCode::Down => move_down(&text.lines, layout, s.cursor, s.affinity, s.preferred_column),
                _ => (s.cursor, s.affinity, s.preferred_column),
            };
            let u = s.update_cursor(to);
            if select {
                u
            } else {
                u.reset_anchor()
            }
        };
        proof {
            assert(s == cursors.selections@[i as int]);
            assert(moved_by(&text.lines, layout, s, select, code, t));
        }
        let ghost before = moved@;
        moved.push(t);
        proof {
            assert(moved@[i as int] == t);
            assert(forall|k: int| 0 <= k < i ==> moved@[k] == before[k]);
        }
        i += 1;
    }
    let ghost mv = moved@;
    let r = CursorSet::from_selections(moved);
    proof {
        assert(forall|i: int|
            0 <= i < mv.len() ==> moved_by(&text.lines, layout, #[trigger] cursors.selections@[i], select, code, mv[i]));
        assert(r.selections@ == merged(sorted(mv)));
    }
    r
}

/// After a move that does not extend the selection, every selection whose
/// cursor was a position of the text is a caret, merging included.
pub proof fn lemma_plain_move_leaves_carets(
    lines: &Vec<Vec<u8>>,
    layout: &Layout,
    code: KeyCode,
    before: Seq<Selection>,
    moved: Seq<Selection>,
)
    requires
        moved.len() == before.len(),
        forall|i: int| 0 <= i < moved.len() ==> moved_by(lines, layout, #[trigger] before[i], false, code, moved[i]),
        forall|i: int| 0 <= i < before.len() ==> point_valid(lines@, (#[trigger] before[i]).cursor),
    ensures
        all_carets(merged(sorted(moved))),
{
    assert forall|i: int| 0 <= i < moved.len() implies (#[trigger] moved[i]).anchor == moved[i].cursor by {
        assert(moved_by(lines, layout, before[i], false, code, moved[i]));
        assert(point_valid(lines@, before[i].cursor));
    }
    lemma_merged_keeps_carets(moved);
}

} // verus!

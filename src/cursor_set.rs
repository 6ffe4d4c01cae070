use vstd::prelude::*;
use crate::position::{Point, point_le, point_lt};
use crate::selection::Selection;
use crate::text::{Change, change_point, changes_match, change_matches};

verus! {

/// Sorted by start, and no selection merges with the one after it.
pub open spec fn selections_wf(s: Seq<Selection>) -> bool {
    &&& forall|i: int, j: int|
        0 <= i < j < s.len() ==> point_le(#[trigger] s[i].spec_start(), #[trigger] s[j].spec_start())
    &&& forall|i: int| 0 <= i < s.len() - 1 ==> !(#[trigger] s[i]).spec_should_merge(s[i + 1])
}

pub open spec fn sorted_by_start(s: Seq<Selection>) -> bool {
    forall|i: int, j: int|
        0 <= i < j < s.len() ==> point_le(#[trigger] s[i].spec_start(), #[trigger] s[j].spec_start())
}

/// The selections of one view.
#[derive(Clone, Debug)]
pub struct CursorSet {
    pub selections: Vec<Selection>,
}

/// Each selection remapped through `change`.
pub open spec fn change_selection(s: Selection, c: Change, local: bool) -> Selection {
    Selection {
        anchor: change_point(s.anchor, c, local),
        cursor: change_point(s.cursor, c, local),
        ..s
    }
}

/// Where a stable insertion sort by start puts `s` among `r`: after every
/// selection that does not start later.
pub open spec fn insert_pos(r: Seq<Selection>, s: Selection) -> int
    decreases r.len(),
{
    if r.len() == 0 {
        0
    } else if point_lt(s.spec_start(), r.last().spec_start()) {
        insert_pos(r.drop_last(), s)
    } else {
        r.len() as int
    }
}

/// `v` stably sorted by start.
pub open spec fn sorted(v: Seq<Selection>) -> Seq<Selection>
    decreases v.len(),
{
    if v.len() == 0 {
        v
    } else {
        let r = sorted(v.drop_last());
        r.insert(insert_pos(r, v.last()), v.last())
    }
}

/// `s` added after `r`: merged into the last selection for as long as the
/// two should merge, else pushed.
pub open spec fn merge_into(r: Seq<Selection>, s: Selection) -> Seq<Selection>
    decreases r.len(),
{
    if r.len() == 0 {
        seq![s]
    } else {
        match r.last().spec_merge(s) {
            Some(m) => merge_into(r.drop_last(), m),
            None => r.push(s),
        }
    }
}

/// The selections of `v` merged from left to right.
pub open spec fn merged(v: Seq<Selection>) -> Seq<Selection>
    decreases v.len(),
{
    if v.len() == 0 {
        v
    } else {
        merge_into(merged(v.drop_last()), v.last())
    }
}

/// A selection remapped through each change of `diff` in turn.
pub open spec fn change_selection_all(s: Selection, diff: Seq<Change>, local: bool) -> Selection
    decreases diff.len(),
{
    if diff.len() == 0 {
        s
    } else {
        change_selection(change_selection_all(s, diff.drop_last(), local), diff.last(), local)
    }
}

/// Remapping through changes that make the same edits gives the same
/// selection.
pub proof fn lemma_matching_changes_remap_alike(s: Selection, a: Seq<Change>, b: Seq<Change>, local: bool)
    requires
        changes_match(a, b),
    ensures
        change_selection_all(s, a, local) == change_selection_all(s, b, local),
    decreases a.len(),
{
    if a.len() > 0 {
        assert(changes_match(a.drop_last(), b.drop_last()));
        lemma_matching_changes_remap_alike(s, a.drop_last(), b.drop_last(), local);
        assert(change_matches(a[a.len() - 1], b[b.len() - 1]));
    }
}

/// Every selection is a caret.
pub open spec fn all_carets(v: Seq<Selection>) -> bool {
    forall|i: int| 0 <= i < v.len() ==> (#[trigger] v[i]).anchor == v[i].cursor
}

proof fn lemma_sorted_keeps_carets(v: Seq<Selection>)
    requires
        all_carets(v),
    ensures
        all_carets(sorted(v)),
        sorted(v).len() == v.len(),
    decreases v.len(),
{
    if v.len() > 0 {
        let w = v.drop_last();
        assert(all_carets(w)) by {
            assert forall|i: int| 0 <= i < w.len() implies (#[trigger] w[i]).anchor == w[i].cursor by {
                assert(w[i] == v[i]);
            }
        }
        lemma_sorted_keeps_carets(w);
        let r = sorted(w);
        lemma_insert_pos_bound(r, v.last());
        let x = r.insert(insert_pos(r, v.last()), v.last());
        assert forall|i: int| 0 <= i < x.len() implies (#[trigger] x[i]).anchor == x[i].cursor by {
            let k = insert_pos(r, v.last());
            if i < k {
                assert(x[i] == r[i]);
            } else if i == k {
                assert(x[i] == v.last());
            } else {
                assert(x[i] == r[i - 1]);
            }
        }
    }
}

proof fn lemma_insert_pos_bound(r: Seq<Selection>, s: Selection)
    ensures
        0 <= insert_pos(r, s) <= r.len(),
    decreases r.len(),
{
    if r.len() > 0 {
        lemma_insert_pos_bound(r.drop_last(), s);
    }
}

proof fn lemma_merge_into_keeps_carets(r: Seq<Selection>, s: Selection)
    requires
        all_carets(r),
        s.anchor == s.cursor,
    ensures
        all_carets(merge_into(r, s)),
    decreases r.len(),
{
    if r.len() > 0 {
        let w = r.drop_last();
        assert(all_carets(w)) by {
            assert forall|i: int| 0 <= i < w.len() implies (#[trigger] w[i]).anchor == w[i].cursor by {
                assert(w[i] == r[i]);
            }
        }
        let a = r.last();
        assert(a.anchor == a.cursor);
        match a.spec_merge(s) {
            Some(m) => {
                lemma_merge_into_keeps_carets(w, m);
            },
            None => {
                let x = r.push(s);
                assert forall|i: int| 0 <= i < x.len() implies (#[trigger] x[i]).anchor == x[i].cursor by {
                    if i < r.len() {
                        assert(x[i] == r[i]);
                    }
                }
            },
        }
    } else {
        assert(seq![s][0] == s);
    }
}

/// Merging selections that are all carets leaves only carets.
pub proof fn lemma_merged_keeps_carets(v: Seq<Selection>)
    requires
        all_carets(v),
    ensures
        all_carets(merged(sorted(v))),
{
    lemma_sorted_keeps_carets(v);
    lemma_merged_keeps_carets_rec(sorted(v));
}

proof fn lemma_merged_keeps_carets_rec(v: Seq<Selection>)
    requires
        all_carets(v),
    ensures
        all_carets(merged(v)),
    decreases v.len(),
{
    if v.len() > 0 {
        let w = v.drop_last();
        assert(all_carets(w)) by {
            assert forall|i: int| 0 <= i < w.len() implies (#[trigger] w[i]).anchor == w[i].cursor by {
                assert(w[i] == v[i]);
            }
        }
        lemma_merged_keeps_carets_rec(w);
        lemma_merge_into_keeps_carets(merged(w), v.last());
    }
}

/// A selection after an edit: remapped through `diff`; an edit made from
/// it (`local`) also clears its preferred column.
pub open spec fn edit_remap(s: Selection, diff: Seq<Change>, local: bool) -> Selection {
    let t = change_selection_all(s, diff, local);
    if local {
        Selection { preferred_column: None, ..t }
    } else {
        t
    }
}

impl CursorSet {
    pub open spec fn wf(&self) -> bool {
        selections_wf(self.selections@)
    }

    /// A copy with the same selections.
    pub fn copy(&self) -> (r: CursorSet)
        ensures
            r.selections@ == self.selections@,
    {
        let mut v: Vec<Selection> = Vec::new();
        let mut i: usize = 0;
        while i < self.selections.len()
            invariant
                i <= self.selections@.len(),
                v@ == self.selections@.subrange(0, i as int),
            decreases self.selections@.len() - i,
        {
            v.push(self.selections[i]);
            i += 1;
            proof {
                assert(v@ =~= self.selections@.subrange(0, i as int));
            }
        }
        proof {
            assert(v@ =~= self.selections@);
        }
        CursorSet { selections: v }
    }

    /// One caret at the start of the document.
    pub fn new() -> (r: CursorSet)
        ensures
            r.wf(),
            r.selections@ == seq![Selection::caret(Point { line: 0, byte: 0 })],
    {
        let mut v: Vec<Selection> = Vec::new();
        v.push(Selection::default());
        CursorSet { selections: v }
    }

    /// A cursor set holding `selections`, sorted by start and with every
    /// pair that should merge merged. Selections that already meet that are
    /// kept as they are.
    pub fn from_selections(selections: Vec<Selection>) -> (r: CursorSet)
        ensures
            r.wf(),
            r.selections@.len() <= selections@.len(),
            selections@.len() > 0 ==> r.selections@.len() > 0,
            selections_wf(selections@) ==> r.selections@ == selections@,
            r.selections@ == merged(sorted(selections@)),
    {
        let sorted = sort_by_start(selections);
        let merged = merge_sorted(sorted);
        CursorSet { selections: merged }
    }

    /// Every selection remapped through the changes of `diff`, one after
    /// the other, and the set restored to sorted, merged order.
    pub fn apply_diff(&mut self, diff: &Vec<Change>, local: bool)
        ensures
            final(self).wf(),
            ({
                let mapped = old(self).selections@.map_values(
                    |s: Selection| edit_remap(s, diff@, local),
                );
                final(self).selections@ == merged(sorted(mapped))
            }),
            final(self).selections@.len() <= old(self).selections@.len(),
            old(self).selections@.len() > 0 ==> final(self).selections@.len() > 0,
    {
        let mut v: Vec<Selection> = Vec::new();
        let n = self.selections.len();
        let mut i: usize = 0;
        while i < n
            invariant
                i <= n,
                n == self.selections@.len(),
                v@ == self.selections@.subrange(0, i as int).map_values(
                    |s: Selection| edit_remap(s, diff@, local),
                ),
            decreases n - i,
        {
            let s0 = self.selections[i];
            let mut s = s0;
            let mut k: usize = 0;
            while k < diff.len()
                invariant
                    k <= diff@.len(),
                    s == change_selection_all(s0, diff@.subrange(0, k as int), local),
                decreases diff.len() - k,
            {
                s = s.apply_change(&diff[k], local);
                k += 1;
                proof {
                    let d = diff@.subrange(0, k as int);
                    assert(d.drop_last() =~= diff@.subrange(0, k - 1));
                }
            }
            proof {
                assert(diff@.subrange(0, diff@.len() as int) =~= diff@);
            }
            if local {
                s = Selection { preferred_column: None, ..s };
            }
            v.push(s);
            i += 1;
            proof {
                assert(v@ =~= self.selections@.subrange(0, i as int).map_values(
                    |s: Selection| edit_remap(s, diff@, local),
                ));
            }
        }
        proof {
            assert(self.selections@.subrange(0, n as int) =~= self.selections@);
        }
        *self = CursorSet::from_selections(v);
    }
}

proof fn lemma_merge_start(a: Selection, b: Selection)
    requires
        point_le(a.spec_start(), b.spec_start()),
        a.spec_should_merge(b),
    ensures
        a.spec_merge(b) is Some,
        a.spec_merge(b)->Some_0.spec_start() == a.spec_start(),
{
}

/// Folds a list sorted by start into one where no neighbours merge: each
/// selection is merged into the last kept one for as long as they overlap.
fn merge_sorted(v: Vec<Selection>) -> (r: Vec<Selection>)
    requires
        sorted_by_start(v@),
    ensures
        selections_wf(r@),
        r@.len() <= v@.len(),
        v@.len() > 0 ==> r@.len() > 0,
        selections_wf(v@) ==> r@ == v@,
        r@ == merged(v@),
{
    let mut r: Vec<Selection> = Vec::new();
    let n = v.len();
    let mut i: usize = 0;
    while i < n
        invariant
            i <= n,
            n == v@.len(),
            sorted_by_start(v@),
            r@ == merged(v@.subrange(0, i as int)),
            selections_wf(r@),
            r@.len() <= i,
            i > 0 ==> r@.len() > 0,
            forall|k: int, j: int|
                0 <= k < r@.len() && i <= j < n ==> point_le(
                    #[trigger] r@[k].spec_start(),
                    #[trigger] v@[j].spec_start(),
                ),
            selections_wf(v@) ==> r@ == v@.subrange(0, i as int),
        decreases n - i,
    {
        let mut s = v[i];
        proof {
            assert(v@.subrange(0, i + 1).drop_last() =~= v@.subrange(0, i as int));
        }
        while r.len() > 0 && r[r.len() - 1].should_merge(s)
            invariant
                i < n,
                merge_into(r@, s) == merged(v@.subrange(0, i + 1)),
                n == v@.len(),
                sorted_by_start(v@),
                selections_wf(r@),
                r@.len() <= i,
                forall|k: int| 0 <= k < r@.len() ==> point_le(#[trigger] r@[k].spec_start(), s.spec_start()),
                forall|j: int| i < j < n ==> point_le(s.spec_start(), #[trigger] v@[j].spec_start()),
                forall|k: int, j: int|
                    0 <= k < r@.len() && i < j < n ==> point_le(
                        #[trigger] r@[k].spec_start(),
                        #[trigger] v@[j].spec_start(),
                    ),
                selections_wf(v@) ==> r@ == v@.subrange(0, i as int) && s == v@[i as int],
            decreases r@.len(),
        {
            proof {
                if selections_wf(v@) {
                    assert(r@[r@.len() - 1] == v@[i - 1]);
                    assert(false);
                }
            }
            let ghost before = r@;
            let last = r.pop().unwrap();
            proof {
                lemma_merge_start(last, s);
                assert(r@ == before.drop_last());
            }
            s = last.merge(s).unwrap();
        }
        let ghost old_r = r@;
        r.push(s);
        proof {
            assert(r@ == old_r.push(s));
            assert forall|a: int, b: int| 0 <= a < b < r@.len() implies point_le(
                #[trigger] r@[a].spec_start(),
                #[trigger] r@[b].spec_start(),
            ) by {
                assert(r@[a] == old_r[a] || a == old_r.len());
                if b < old_r.len() {
                    assert(r@[a] == old_r[a] && r@[b] == old_r[b]);
                } else {
                    assert(r@[a] == old_r[a]);
                }
            }
            assert forall|a: int| 0 <= a < r@.len() - 1 implies !(#[trigger] r@[a]).spec_should_merge(r@[a + 1]) by {
                assert(r@[a] == old_r[a]);
                if a + 1 < old_r.len() {
                    assert(r@[a + 1] == old_r[a + 1]);
                }
            }
            if selections_wf(v@) {
                assert(r@ =~= v@.subrange(0, i + 1));
            }
        }
        i += 1;
    }
    proof {
        if selections_wf(v@) {
            assert(r@ =~= v@);
        }
        assert(v@.subrange(0, n as int) =~= v@);
    }
    r
}

/// Stable insertion sort by start point.
fn sort_by_start(v: Vec<Selection>) -> (r: Vec<Selection>)
    ensures
        sorted_by_start(r@),
        r@.len() == v@.len(),
        sorted_by_start(v@) ==> r@ == v@,
        r@ == sorted(v@),
{
    let mut r: Vec<Selection> = Vec::new();
    let n = v.len();
    let mut i: usize = 0;
    while i < n
        invariant
            i <= n,
            n == v@.len(),
            r@.len() == i,
            r@ == sorted(v@.subrange(0, i as int)),
            sorted_by_start(r@),
            sorted_by_start(v@) ==> r@ == v@.subrange(0, i as int),
        decreases n - i,
    {
        let s = v[i];
        let mut j: usize = r.len();
        proof {
            assert(r@.subrange(0, r@.len() as int) =~= r@);
        }
        while j > 0 && s.start().lt(r[j - 1].start())
            invariant
                j <= r@.len(),
                forall|k: int| j <= k < r@.len() ==> point_lt(s.spec_start(), #[trigger] r@[k].spec_start()),
                insert_pos(r@, s) == insert_pos(r@.subrange(0, j as int), s),
            decreases j,
        {
            proof {
                assert(r@.subrange(0, j as int).drop_last() =~= r@.subrange(0, j - 1));
            }
            j -= 1;
        }
        proof {
            assert(r@.subrange(0, r@.len() as int) =~= r@);
            if j > 0 {
                assert(r@.subrange(0, j as int).last() == r@[j - 1]);
            }
            assert(insert_pos(r@, s) == j);
            assert(v@.subrange(0, i + 1).drop_last() =~= v@.subrange(0, i as int));
        }
        proof {
            if sorted_by_start(v@) && i > 0 {
                assert(r@[i - 1] == v@[i - 1]);
                assert(point_le(v@[i - 1].spec_start(), v@[i as int].spec_start()));
                assert(j == i);
            }
        }
        let ghost old_r = r@;
        r.insert(j, s);
        proof {
            assert(r@ == old_r.insert(j as int, s));
            assert forall|a: int, b: int| 0 <= a < b < r@.len() implies point_le(
                #[trigger] r@[a].spec_start(),
                #[trigger] r@[b].spec_start(),
            ) by {
                if a < j && b < j {
                    assert(r@[a] == old_r[a] && r@[b] == old_r[b]);
                } else if a < j && b == j {
                    assert(r@[a] == old_r[a]);
                    if j > 0 {
                        assert(r@[j as int - 1] == old_r[j - 1]);
                    }
                } else if a < j {
                    assert(r@[a] == old_r[a] && r@[b] == old_r[b - 1]);
                } else if a == j {
                    assert(r@[b] == old_r[b - 1]);
                } else {
                    assert(r@[a] == old_r[a - 1] && r@[b] == old_r[b - 1]);
                }
            }
            if sorted_by_start(v@) {
                assert(r@ =~= v@.subrange(0, i + 1));
            }
        }
        i += 1;
    }
    proof {
        if sorted_by_start(v@) {
            assert(r@ =~= v@);
        }
        assert(v@.subrange(0, n as int) =~= v@);
    }
    r
}

} // verus!

use vstd::prelude::*;
use crate::position::{Point, Range, point_lt};
use crate::selection::Selection;
use crate::cursor_set::{CursorSet, edit_remap, change_selection, change_selection_all};
use crate::text::{Change, Text, text_seq, change_point};
use crate::move_ops::{move_left, is_valid_point, point_valid, left_of};
use crate::layout::Layout;

verus! {

/// `r` types the lines `t` over the selections `sels`: for each selection,
/// from the last to the first, it is deleted, and `t` inserted at its start.
pub open spec fn is_insert_diff(sels: Seq<Selection>, t: Seq<Seq<u8>>, r: Seq<Change>) -> bool {
    &&& r.len() == 2 * sels.len()
    &&& forall|i: int|
        0 <= i < sels.len() ==> {
            let s = #[trigger] sels[i];
            let k = 2 * (sels.len() - 1 - i);
            &&& r[k] == Change::Delete(Range { start: s.spec_start(), end: s.spec_end() })
            &&& r[k + 1] matches Change::Insert(p, u) && p == s.spec_start() && text_seq(u) == t
        }
}

/// `r` deletes backwards at the selections `sels` of `lines`, from the last
/// to the first: a selection that is not empty goes, a caret takes the
/// cluster before it along.
pub open spec fn is_delete_diff(lines: &Vec<Vec<u8>>, layout: &Layout, sels: Seq<Selection>, r: Seq<Change>) -> bool {
    &&& r.len() == sels.len()
    &&& forall|i: int|
        0 <= i < sels.len() ==> {
            let s = #[trigger] sels[i];
            let c = r[sels.len() - 1 - i];
            c is Delete && c->Delete_0.end == s.spec_end() && {
                let a = c->Delete_0.start;
                &&& !s.spec_is_empty() ==> a == s.spec_start()
                &&& s.spec_is_empty() && point_valid(lines@, s.cursor) ==> left_of(lines, layout, s.cursor, a)
                &&& s.spec_is_empty() && !point_valid(lines@, s.cursor) ==> a == s.cursor
            }
        }
}

/// The changes that type `inserted` over every selection: from the last
/// selection to the first, the selection is deleted and the text inserted
/// at its start, so that each change leaves the places of the ones still
/// to come alone.
pub fn insert(text: &Text, cursors: &CursorSet, inserted: &Text) -> (r: Vec<Change>)
    ensures
        is_insert_diff(cursors.selections@, text_seq(*inserted), r@),
{
    let n = cursors.selections.len();
    let mut r: Vec<Change> = Vec::new();
    let mut j: usize = n;
    while j > 0
        invariant
            j <= n,
            n == cursors.selections@.len(),
            r@.len() == 2 * (n - j),
            forall|i: int|
                j <= i < n ==> {
                    let s = #[trigger] cursors.selections@[i];
                    let k = 2 * (n - 1 - i);
                    &&& r@[k] == Change::Delete(Range { start: s.spec_start(), end: s.spec_end() })
                    &&& r@[k + 1] matches Change::Insert(p, t) && p == s.spec_start() && text_seq(
                        t,
                    ) == text_seq(*inserted)
                },
        decreases j,
    {
        j -= 1;
        let s = cursors.selections[j];
        r.push(Change::Delete(s.range()));
        r.push(Change::Insert(s.start(), inserted.copy()));
    }
    r
}

/// The changes that delete backwards at every selection, from the last to
/// the first: a selection that is not empty is deleted, a caret takes the
/// grapheme cluster before it with it.
pub fn delete(text: &Text, layout: &Layout, cursors: &CursorSet) -> (r: Vec<Change>)
    requires
        layout.fits(&text.lines),
    ensures
        is_delete_diff(&text.lines, layout, cursors.selections@, r@),
{
    let n = cursors.selections.len();
    let mut r: Vec<Change> = Vec::new();
    let mut j: usize = n;
    while j > 0
        invariant
            j <= n,
            n == cursors.selections@.len(),
            layout.fits(&text.lines),
            r@.len() == n - j,
            forall|i: int|
                j <= i < n ==> {
                    let s = #[trigger] cursors.selections@[i];
                    let c = r@[n - 1 - i];
                    c is Delete && c->Delete_0.end == s.spec_end() && {
                        let a = c->Delete_0.start;
                        &&& !s.spec_is_empty() ==> a == s.spec_start()
                        &&& s.spec_is_empty() && point_valid(text.lines@, s.cursor) ==> left_of(
                            &text.lines,
                            layout,
                            s.cursor,
                            a,
                        )
                        &&& s.spec_is_empty() && !point_valid(text.lines@, s.cursor) ==> a
                            == s.cursor
                    }
                },
        decreases j,
    {
        j -= 1;
        let s = cursors.selections[j];
        let start = if !s.is_empty() {
            s.start()
        } else if is_valid_point(&text.lines, s.cursor) {
            move_left(&text.lines, layout, s.cursor)
        } else {
            s.cursor
        };
        r.push(Change::Delete(Range { start, end: s.end() }));
    }
    r
}

/// Where a point of another view goes when one line of `n` bytes is typed
/// at `q`: on `q`'s line after `q` it moves on by `n`; anywhere else it
/// stays.
pub open spec fn shifted_by(x: Point, q: Point, n: int) -> Point {
    if point_lt(q, x) && x.line == q.line {
        Point { line: x.line, byte: (x.byte + n) as usize }
    } else {
        x
    }
}

/// Typing one line at a single caret `q` moves the selections of the other
/// views on the same document as follows: each end after `q` on its line
/// moves on by the typed length, every other end stays, and anchor and
/// cursor keep their roles.
pub proof fn lemma_sibling_after_typing(sel: Selection, q: Point, t: Seq<Seq<u8>>, d: Seq<Change>)
    requires
        is_insert_diff(seq![Selection::caret(q)], t, d),
        t.len() == 1,
        sel.anchor.byte + t[0].len() <= usize::MAX,
        sel.cursor.byte + t[0].len() <= usize::MAX,
    ensures
        edit_remap(sel, d, false) == (Selection {
            anchor: shifted_by(sel.anchor, q, t[0].len() as int),
            cursor: shifted_by(sel.cursor, q, t[0].len() as int),
            ..sel
        }),
{
    let c = Selection::caret(q);
    assert(seq![c][0] == c);
    assert(d[0] == Change::Delete(Range { start: q, end: q }));
    assert(d.drop_last().drop_last() =~= Seq::<Change>::empty());
    assert(d.drop_last().last() == d[0]);
    assert(d.last() == d[1]);
    let s1 = change_selection(sel, d[0], false);
    assert(s1 == sel);
    assert(change_selection_all(sel, d.drop_last().drop_last(), false) == sel);
    assert(change_selection_all(sel, d.drop_last(), false) == s1);
    let last = d[1];
    assert(change_selection_all(sel, d, false) == change_selection(sel, last, false));
    let u = last->Insert_1;
    assert(text_seq(u) == t);
    assert(change_point(sel.anchor, last, false) == shifted_by(sel.anchor, q, t[0].len() as int));
    assert(change_point(sel.cursor, last, false) == shifted_by(sel.cursor, q, t[0].len() as int));
}

} // verus!

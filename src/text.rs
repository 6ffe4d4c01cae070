use vstd::prelude::*;
use crate::position::{Point, Range, point_lt, point_le};

verus! {

/// A document: its lines, each held as UTF-8 bytes without the line break.
/// A text always has at least one line.
#[derive(Clone, Debug)]
pub struct Text {
    pub lines: Vec<Vec<u8>>,
}

/// One edit of a text: an insertion at a point, or the deletion of a range.
#[derive(Clone, Debug)]
pub enum Change {
    Insert(Point, Text),
    Delete(Range),
}

pub open spec fn sat_add(a: int, b: int) -> usize {
    if a + b > usize::MAX { usize::MAX } else { (a + b) as usize }
}

pub open spec fn text_seq(t: Text) -> Seq<Seq<u8>> {
    t.lines@.map_values(|l: Vec<u8>| l@)
}

/// Where `q` stands after `text` is inserted at `p`. A point at `p` itself
/// moves past the insertion when `local` (the edit was made from it) and
/// stays before it otherwise.
pub open spec fn insert_point(q: Point, p: Point, text: Seq<Seq<u8>>, local: bool) -> Point {
    let n = text.len();
    let last = if n == 0 { 0 } else { text[n - 1].len() as int };
    if point_lt(q, p) || (q == p && !local) || n == 0 {
        q
    } else if q.line == p.line {
        if n == 1 {
            Point { line: q.line, byte: sat_add(q.byte as int, last) }
        } else {
            Point { line: sat_add(q.line as int, n - 1), byte: sat_add(q.byte - p.byte, last) }
        }
    } else {
        Point { line: sat_add(q.line as int, n - 1), byte: q.byte }
    }
}

/// Where `q` stands after the range from `s` to `e` is deleted.
pub open spec fn delete_point(q: Point, s: Point, e: Point) -> Point {
    if point_le(q, s) || !point_le(s, e) {
        q
    } else if point_lt(q, e) {
        s
    } else if q.line == e.line {
        Point { line: s.line, byte: sat_add(s.byte as int, q.byte - e.byte) }
    } else {
        Point { line: (q.line - (e.line - s.line)) as usize, byte: q.byte }
    }
}

/// Under an insertion made from another view, a point before the insertion
/// point or at it stays where it is; a point after it on the same line
/// moves on by the inserted bytes when one line is inserted; a point on a
/// later line moves down by the inserted line breaks and keeps its byte.
pub proof fn lemma_foreign_insert(q: Point, p: Point, t: Seq<Seq<u8>>)
    requires
        t.len() > 0,
        q.byte + t.last().len() <= usize::MAX,
        q.line + t.len() - 1 <= usize::MAX,
    ensures
        point_le(q, p) ==> insert_point(q, p, t, false) == q,
        point_lt(p, q) && q.line == p.line && t.len() == 1 ==> insert_point(q, p, t, false) == (
        Point { line: q.line, byte: (q.byte + t[0].len()) as usize }),
        point_lt(p, q) && q.line > p.line ==> insert_point(q, p, t, false) == (Point {
            line: (q.line + t.len() - 1) as usize,
            byte: q.byte,
        }),
{
}

pub open spec fn change_point(q: Point, c: Change, local: bool) -> Point {
    match c {
        Change::Insert(p, t) => insert_point(q, p, text_seq(t), local),
        Change::Delete(r) => delete_point(q, r.start, r.end),
    }
}

fn add_sat(a: usize, b: usize) -> (r: usize)
    ensures
        r == sat_add(a as int, b as int),
{
    a.saturating_add(b)
}

impl Point {
    /// The position that this point takes after `change`.
    pub fn apply_change(self, change: &Change, local: bool) -> (r: Point)
        ensures
            r == change_point(self, *change, local),
    {
        match change {
            Change::Insert(p, t) => {
                let p = *p;
                let n = t.lines.len();
                proof {
                    assert(text_seq(*t).len() == n);
                }
                if self.lt(p) || (self == p && !local) || n == 0 {
                    self
                } else {
                    let last = t.lines[n - 1].len();
                    proof {
                        assert(text_seq(*t)[n - 1] == t.lines@[n - 1]@);
                    }
                    if self.line == p.line {
                        if n == 1 {
                            Point { line: self.line, byte: add_sat(self.byte, last) }
                        } else {
                            Point { line: add_sat(self.line, n - 1), byte: add_sat(self.byte - p.byte, last) }
                        }
                    } else {
                        Point { line: add_sat(self.line, n - 1), byte: self.byte }
                    }
                }
            },
            Change::Delete(r) => {
                let s = r.start;
                let e = r.end;
                if self.le(s) || !s.le(e) {
                    self
                } else if self.lt(e) {
                    s
                } else if self.line == e.line {
                    Point { line: s.line, byte: add_sat(s.byte, self.byte - e.byte) }
                } else {
                    Point { line: self.line - (e.line - s.line), byte: self.byte }
                }
            },
        }
    }
}

} // verus!

verus! {

/// The lines of `middle`, the first with `head` before it and the last
/// with `tail` after it.
pub open spec fn splice(head: Seq<u8>, middle: Seq<Seq<u8>>, tail: Seq<u8>) -> Seq<Seq<u8>> {
    Seq::new(
        middle.len(),
        |i: int|
            (if i == 0 { head } else { Seq::<u8>::empty() }) + middle[i] + (if i == middle.len()
                - 1 {
                tail
            } else {
                Seq::<u8>::empty()
            }),
    )
}

/// The lines from `a` up to `b` of `lines` replaced by the splice of
/// `head`, `middle` and `tail`.
pub open spec fn replace_lines(
    lines: Seq<Seq<u8>>,
    a: int,
    b: int,
    head: Seq<u8>,
    middle: Seq<Seq<u8>>,
    tail: Seq<u8>,
) -> Seq<Seq<u8>> {
    lines.subrange(0, a) + splice(head, middle, tail) + lines.subrange(b, lines.len() as int)
}

/// The point moved onto the text: its line at most the last line, its
/// byte at most the length of that line.
pub open spec fn clamp(lines: Seq<Seq<u8>>, p: Point) -> Point {
    let line = if p.line < lines.len() { p.line as int } else { lines.len() - 1 };
    let byte = if p.byte <= lines[line].len() { p.byte as int } else { lines[line].len() as int };
    Point { line: line as usize, byte: byte as usize }
}

/// The text after inserting `t` at `p`.
pub open spec fn inserted(lines: Seq<Seq<u8>>, p: Point, t: Seq<Seq<u8>>) -> Seq<Seq<u8>> {
    let q = clamp(lines, p);
    let l = lines[q.line as int];
    replace_lines(lines, q.line as int, q.line + 1, l.subrange(0, q.byte as int), t, l.subrange(q.byte as int, l.len() as int))
}

/// The text after deleting from `s` to `e`; nothing when `e` comes first.
pub open spec fn deleted(lines: Seq<Seq<u8>>, s: Point, e: Point) -> Seq<Seq<u8>> {
    let a = clamp(lines, s);
    let b = clamp(lines, e);
    if !point_le(a, b) {
        lines
    } else {
        let la = lines[a.line as int];
        let lb = lines[b.line as int];
        replace_lines(lines, a.line as int, b.line + 1, la.subrange(0, a.byte as int), seq![Seq::<u8>::empty()], lb.subrange(b.byte as int, lb.len() as int))
    }
}

pub open spec fn changed(lines: Seq<Seq<u8>>, c: Change) -> Seq<Seq<u8>> {
    match c {
        Change::Insert(p, t) => if text_seq(t).len() == 0 { lines } else { inserted(lines, p, text_seq(t)) },
        Change::Delete(r) => deleted(lines, r.start, r.end),
    }
}

pub open spec fn changed_all(lines: Seq<Seq<u8>>, diff: Seq<Change>) -> Seq<Seq<u8>>
    decreases diff.len(),
{
    if diff.len() == 0 {
        lines
    } else {
        changed(changed_all(lines, diff.drop_last()), diff.last())
    }
}

pub open spec fn views_are(lines: Seq<Vec<u8>>, s: Seq<Seq<u8>>) -> bool {
    lines.len() == s.len() && forall|i: int| 0 <= i < s.len() ==> (#[trigger] lines[i])@ == s[i]
}

/// The bytes of `v` from `a` to `b`.
fn sub_bytes(v: &Vec<u8>, a: usize, b: usize) -> (r: Vec<u8>)
    requires
        a <= b <= v@.len(),
    ensures
        r@ == v@.subrange(a as int, b as int),
{
    let mut r: Vec<u8> = Vec::new();
    let mut i: usize = a;
    while i < b
        invariant
            a <= i <= b <= v@.len(),
            r@ == v@.subrange(a as int, i as int),
        decreases b - i,
    {
        r.push(v[i]);
        i += 1;
        proof {
            assert(r@ =~= v@.subrange(a as int, i as int));
        }
    }
    r
}

fn push_bytes(r: &mut Vec<u8>, v: &Vec<u8>)
    ensures
        final(r)@ == old(r)@ + v@,
{
    let mut i: usize = 0;
    while i < v.len()
        invariant
            i <= v@.len(),
            r@ == old(r)@ + v@.subrange(0, i as int),
        decreases v@.len() - i,
    {
        r.push(v[i]);
        i += 1;
        proof {
            assert(r@ =~= old(r)@ + v@.subrange(0, i as int));
        }
    }
    proof {
        assert(v@.subrange(0, v@.len() as int) =~= v@);
    }
}

impl Text {
    pub open spec fn wf(&self) -> bool {
        self.lines@.len() > 0
    }

    pub open spec fn view(&self) -> Seq<Seq<u8>> {
        text_seq(*self)
    }

    /// A text of one empty line.
    pub fn new() -> (r: Text)
        ensures
            r.wf(),
            r.view() == seq![Seq::<u8>::empty()],
    {
        let mut lines: Vec<Vec<u8>> = Vec::new();
        lines.push(Vec::new());
        let r = Text { lines };
        proof {
            assert(r.view() =~= seq![Seq::<u8>::empty()]);
        }
        r
    }

    fn clamp_point(&self, p: Point) -> (r: Point)
        requires
            self.wf(),
        ensures
            r == clamp(self.view(), p),
            r.line < self.view().len(),
            r.byte <= self.view()[r.line as int].len(),
    {
        let line = if p.line < self.lines.len() { p.line } else { self.lines.len() - 1 };
        let n = self.lines[line].len();
        let byte = if p.byte <= n { p.byte } else { n };
        Point { line, byte }
    }

    /// Lines `a` up to `b` replaced, as `replace_lines` says.
    fn replace(&mut self, a: usize, b: usize, head: Vec<u8>, middle: &Vec<Vec<u8>>, tail: Vec<u8>)
        requires
            a < b <= old(self).view().len(),
            middle@.len() > 0,
        ensures
            final(self).view() == replace_lines(old(self).view(), a as int, b as int, head@, text_seq(Text { lines: *middle }), tail@),
            final(self).wf(),
    {
        let ghost old_view = self.view();
        let mut lines: Vec<Vec<u8>> = Vec::new();
        let mut i: usize = 0;
        while i < a
            invariant
                i <= a < b <= self.lines@.len(),
                self.view() == old_view,
                old_view.len() == self.lines@.len(),
                views_are(lines@, old_view.subrange(0, i as int)),
            decreases a - i,
        {
            let l = sub_bytes(&self.lines[i], 0, self.lines[i].len());
            proof {
                assert(l@ =~= old_view[i as int]);
            }
            lines.push(l);
            i += 1;
        }
        let ghost mid = text_seq(Text { lines: *middle });
        let ghost sp = splice(head@, mid, tail@);
        let m = middle.len();
        let mut j: usize = 0;
        while j < m
            invariant
                a < b <= self.lines@.len(),
                self.view() == old_view,
                old_view.len() == self.lines@.len(),
                m == middle@.len(),
                mid == text_seq(Text { lines: *middle }),
                sp == splice(head@, mid, tail@),
                j <= m,
                views_are(lines@, old_view.subrange(0, a as int) + sp.subrange(0, j as int)),
            decreases m - j,
        {
            let mut l: Vec<u8> = Vec::new();
            if j == 0 {
                push_bytes(&mut l, &head);
            }
            push_bytes(&mut l, &middle[j]);
            if j == m - 1 {
                push_bytes(&mut l, &tail);
            }
            proof {
                assert(mid[j as int] == middle@[j as int]@);
                assert(l@ =~= sp[j as int]);
            }
            lines.push(l);
            j += 1;
        }
        let n = self.lines.len();
        let mut k: usize = b;
        while k < n
            invariant
                b <= k <= n,
                n == self.lines@.len(),
                self.view() == old_view,
                old_view.len() == n,
                views_are(lines@, old_view.subrange(0, a as int) + sp + old_view.subrange(b as int, k as int)),
            decreases n - k,
        {
            let l = sub_bytes(&self.lines[k], 0, self.lines[k].len());
            proof {
                assert(l@ =~= old_view[k as int]);
            }
            lines.push(l);
            k += 1;
        }
        proof {
            assert(sp.subrange(0, m as int) =~= sp);
            assert(text_seq(Text { lines }) =~= old_view.subrange(0, a as int) + sp + old_view.subrange(b as int, n as int));
        }
        self.lines = lines;
    }
}


/// The text between `a` and `b`, which comes first, as lines.
pub open spec fn extracted(lines: Seq<Seq<u8>>, a: Point, b: Point) -> Seq<Seq<u8>> {
    let la = lines[a.line as int];
    let lb = lines[b.line as int];
    if a.line == b.line {
        seq![la.subrange(a.byte as int, b.byte as int)]
    } else {
        seq![la.subrange(a.byte as int, la.len() as int)] + lines.subrange(a.line + 1, b.line as int)
            + seq![lb.subrange(0, b.byte as int)]
    }
}

/// Where the text `t` ends once inserted at `q`.
pub open spec fn end_of_insert(q: Point, t: Seq<Seq<u8>>) -> Point {
    if t.len() <= 1 {
        Point { line: q.line, byte: sat_add(q.byte as int, if t.len() == 0 { 0 } else { t[0].len() as int }) }
    } else {
        Point { line: sat_add(q.line as int, t.len() - 1), byte: t[t.len() - 1].len() as usize }
    }
}

/// The change that undoes `c` on `lines`.
pub open spec fn inverse_of(lines: Seq<Seq<u8>>, c: Change, inv: Change) -> bool {
    match c {
        Change::Insert(p, t) => inv == Change::Delete(
            Range { start: clamp(lines, p), end: end_of_insert(clamp(lines, p), text_seq(t)) },
        ),
        Change::Delete(r) => {
            let a = clamp(lines, r.start);
            let b = clamp(lines, r.end);
            if point_le(a, b) {
                inv matches Change::Insert(q, t) && q == a && text_seq(t) == extracted(lines, a, b)
            } else {
                inv == Change::Delete(Range { start: a, end: a })
            }
        },
    }
}

impl Text {
    fn extract(&self, a: Point, b: Point) -> (r: Text)
        requires
            self.wf(),
            point_le(a, b),
            b.line < self.view().len(),
            a.byte <= self.view()[a.line as int].len(),
            b.byte <= self.view()[b.line as int].len(),
        ensures
            r.view() == extracted(self.view(), a, b),
            r.wf(),
    {
        let mut lines: Vec<Vec<u8>> = Vec::new();
        if a.line == b.line {
            lines.push(sub_bytes(&self.lines[a.line], a.byte, b.byte));
            let r = Text { lines };
            proof {
                assert(r.view() =~= extracted(self.view(), a, b));
            }
            return r;
        }
        let ghost v = self.view();
        let ghost target = extracted(v, a, b);
        lines.push(sub_bytes(&self.lines[a.line], a.byte, self.lines[a.line].len()));
        let mut i: usize = a.line + 1;
        while i < b.line
            invariant
                a.line < i <= b.line < self.lines@.len(),
                v == self.view(),
                v.len() == self.lines@.len(),
                target == extracted(v, a, b),
                views_are(lines@, target.subrange(0, i - a.line)),
            decreases b.line - i,
        {
            let l = sub_bytes(&self.lines[i], 0, self.lines[i].len());
            proof {
                assert(l@ =~= v[i as int]);
            }
            lines.push(l);
            i += 1;
        }
        lines.push(sub_bytes(&self.lines[b.line], 0, b.byte));
        let r = Text { lines };
        proof {
            assert(r.view() =~= target);
        }
        r
    }

    /// Applies `change`, and returns the change that undoes it. A position
    /// past the last line, or past the end of its line, is taken at that
    /// end (`clamp`); a deletion whose end comes first deletes nothing.
    pub fn apply_change(&mut self, change: &Change) -> (inv: Change)
        requires
            old(self).wf(),
        ensures
            final(self).wf(),
            final(self).view() == changed(old(self).view(), *change),
            inverse_of(old(self).view(), *change, inv),
    {
        match change {
            Change::Insert(p, t) => {
                let q = self.clamp_point(*p);
                let k = t.lines.len();
                proof {
                    assert(text_seq(*t).len() == k);
                }
                let end = if k <= 1 {
                    let w: usize = if k == 0 { 0 } else { t.lines[0].len() };
                    Point { line: q.line, byte: q.byte.saturating_add(w) }
                } else {
                    Point { line: q.line.saturating_add(k - 1), byte: t.lines[k - 1].len() }
                };
                if k > 0 {
                    let l = &self.lines[q.line];
                    let head = sub_bytes(l, 0, q.byte);
                    let tail = sub_bytes(l, q.byte, l.len());
                    let line_count = self.lines.len();
                    proof {
                        assert(q.line < line_count);
                    }
                    self.replace(q.line, q.line + 1, head, &t.lines, tail);
                }
                Change::Delete(Range { start: q, end })
            },
            Change::Delete(r) => {
                let a = self.clamp_point(r.start);
                let b = self.clamp_point(r.end);
                if !a.le(b) {
                    return Change::Delete(Range { start: a, end: a });
                }
                let removed = self.extract(a, b);
                let la = &self.lines[a.line];
                let lb = &self.lines[b.line];
                let head = sub_bytes(la, 0, a.byte);
                let tail = sub_bytes(lb, b.byte, lb.len());
                let mut middle: Vec<Vec<u8>> = Vec::new();
                middle.push(Vec::new());
                proof {
                    assert(text_seq(Text { lines: middle }) =~= seq![Seq::<u8>::empty()]);
                }
                let line_count = self.lines.len();
                proof {
                    assert(b.line < line_count);
                }
                self.replace(a.line, b.line + 1, head, &middle, tail);
                Change::Insert(a, removed)
            },
        }
    }
}

impl Text {
    /// A copy with the same lines.
    pub fn copy(&self) -> (r: Text)
        ensures
            r.view() == self.view(),
    {
        let mut lines: Vec<Vec<u8>> = Vec::new();
        let mut i: usize = 0;
        while i < self.lines.len()
            invariant
                i <= self.lines@.len(),
                views_are(lines@, self.view().subrange(0, i as int)),
            decreases self.lines@.len() - i,
        {
            let l = sub_bytes(&self.lines[i], 0, self.lines[i].len());
            proof {
                assert(l@ =~= self.view()[i as int]);
            }
            lines.push(l);
            i += 1;
        }
        let r = Text { lines };
        proof {
            assert(r.view() =~= self.view());
        }
        r
    }

    /// The text whose lines, joined with line feeds, are `bytes`.
    pub fn from_bytes(bytes: &[u8]) -> (r: Text)
        ensures
            r.wf(),
            joined(r.view()) == bytes@,
            no_line_feeds(r.view()),
    {
        let mut lines: Vec<Vec<u8>> = Vec::new();
        let mut cur: Vec<u8> = Vec::new();
        let mut i: usize = 0;
        while i < bytes.len()
            invariant
                i <= bytes@.len(),
                joined(text_seq(Text { lines }).push(cur@)) == bytes@.subrange(0, i as int),
                forall|a: int, k: int|
                    0 <= a < lines@.len() && 0 <= k < lines@[a]@.len() ==> #[trigger] lines@[a]@[k] != 10u8,
                forall|k: int| 0 <= k < cur@.len() ==> #[trigger] cur@[k] != 10u8,
            decreases bytes@.len() - i,
        {
            let ghost v = text_seq(Text { lines });
            let ghost c = cur@;
            if bytes[i] == 10 {
                lines.push(cur);
                cur = Vec::new();
                proof {
                    let w = text_seq(Text { lines });
                    assert(w =~= v.push(c));
                    assert(w.push(cur@).drop_last() =~= w);
                    assert(joined(w.push(cur@)) =~= joined(w) + seq![10u8]);
                }
            } else {
                cur.push(bytes[i]);
                proof {
                    assert(v.push(cur@).drop_last() =~= v);
                    assert(v.push(c).drop_last() =~= v);
                    assert(joined(v.push(cur@)) =~= joined(v.push(c)) + seq![bytes@[i as int]]);
                }
            }
            i += 1;
            proof {
                assert(bytes@.subrange(0, i as int) =~= bytes@.subrange(0, i - 1) + seq![bytes@[i - 1]]);
            }
        }
        let ghost v = text_seq(Text { lines });
        lines.push(cur);
        let r = Text { lines };
        proof {
            assert(r.view() =~= v.push(cur@));
            assert forall|a: int, k: int|
                0 <= a < r.view().len() && 0 <= k < r.view()[a].len() implies #[trigger] r.view()[a][k] != 10u8 by {
                assert(r.view()[a] == lines@[a]@);
            }
            assert(bytes@.subrange(0, bytes@.len() as int) =~= bytes@);
        }
        r
    }
}

/// No line holds a line feed.
pub open spec fn no_line_feeds(t: Seq<Seq<u8>>) -> bool {
    forall|i: int, k: int| 0 <= i < t.len() && 0 <= k < t[i].len() ==> #[trigger] t[i][k] != 10u8
}

/// The lines with a line feed between each two.
pub open spec fn joined(s: Seq<Seq<u8>>) -> Seq<u8>
    decreases s.len(),
{
    if s.len() == 0 {
        Seq::empty()
    } else if s.len() == 1 {
        s[0]
    } else {
        joined(s.drop_last()) + seq![10u8] + s.last()
    }
}

/// `a` makes the same edit as `b`.
pub open spec fn change_matches(a: Change, b: Change) -> bool {
    match a {
        Change::Insert(p, t) => b matches Change::Insert(q, u) && p == q && text_seq(t) == text_seq(u),
        Change::Delete(r) => b == Change::Delete(r),
    }
}

/// `a` and `b` make the same edits in the same order.
pub open spec fn changes_match(a: Seq<Change>, b: Seq<Change>) -> bool {
    a.len() == b.len() && forall|i: int| 0 <= i < a.len() ==> change_matches(#[trigger] a[i], b[i])
}

impl Change {
    /// A copy that makes the same edit.
    pub fn copy(&self) -> (r: Change)
        ensures
            change_matches(r, *self),
    {
        match self {
            Change::Insert(p, t) => Change::Insert(*p, t.copy()),
            Change::Delete(r) => Change::Delete(*r),
        }
    }
}

/// A copy of `v` that makes the same edits.
pub fn copy_changes(v: &Vec<Change>) -> (r: Vec<Change>)
    ensures
        changes_match(r@, v@),
{
    let mut r: Vec<Change> = Vec::new();
    let mut i: usize = 0;
    while i < v.len()
        invariant
            i <= v@.len(),
            r@.len() == i,
            forall|k: int| 0 <= k < i ==> change_matches(#[trigger] r@[k], v@[k]),
        decreases v@.len() - i,
    {
        let c = v[i].copy();
        r.push(c);
        i += 1;
    }
    r
}

} // verus!

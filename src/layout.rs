use vstd::prelude::*;
use crate::selection::Affinity;
use crate::text::sat_add;

verus! {

pub open spec fn is_continuation(b: u8) -> bool {
    0x80 <= b < 0xC0
}

/// A byte offset at which a character begins, or the end of the line.
pub open spec fn is_boundary(l: Seq<u8>, i: int) -> bool {
    i == 0 || i == l.len() || (0 < i < l.len() && !is_continuation(l[i]))
}

/// Columns that byte `b` takes when it starts at column `col`: a tab runs
/// to the next tab stop, the bytes that continue a character take none.
pub open spec fn byte_width(b: u8, col: usize, tab: usize) -> int {
    if is_continuation(b) {
        0
    } else if b == 9 {
        tab - col % tab
    } else {
        1
    }
}

/// The visual column reached after the bytes from `s` to `e`.
pub open spec fn column_between(l: Seq<u8>, s: int, e: int, tab: usize) -> usize
    decreases e - s,
{
    if e <= s {
        0
    } else {
        let c = column_between(l, s, e - 1, tab);
        sat_add(c as int, byte_width(l[e - 1], c, tab))
    }
}

pub open spec fn row_start(w: Seq<usize>, r: int) -> int {
    if r <= 0 { 0 } else { w[r - 1] as int }
}

pub open spec fn row_end(w: Seq<usize>, len: int, r: int) -> int {
    if r >= w.len() { len } else { w[r] as int }
}

/// Soft-wrap seams of a line: strictly increasing character boundaries
/// strictly inside it.
pub open spec fn wraps_wf(l: Seq<u8>, w: Seq<usize>) -> bool {
    &&& forall|i: int, j: int| 0 <= i < j < w.len() ==> w[i] < w[j]
    &&& forall|i: int| 0 <= i < w.len() ==> 0 < #[trigger] w[i] < l.len() && is_boundary(l, w[i] as int)
}

/// `byte` with affinity `aff` is shown on row `r`: the end of a row that
/// is followed by another needs `Before`, the start of a later row `After`.
pub open spec fn on_row(w: Seq<usize>, len: int, byte: int, aff: Affinity, r: int) -> bool {
    &&& 0 <= r <= w.len()
    &&& row_start(w, r) <= byte <= row_end(w, len, r)
    &&& (byte == row_start(w, r) && r > 0 ==> aff == Affinity::After)
    &&& (byte == row_end(w, len, r) && r < w.len() ==> aff == Affinity::Before)
}

/// The row and the column at which `byte` is shown.
pub fn byte_and_affinity_to_row_and_column(
    line: &Vec<u8>,
    wraps: &Vec<usize>,
    byte: usize,
    affinity: Affinity,
    tab: usize,
) -> (r: (usize, usize))
    requires
        wraps_wf(line@, wraps@),
        byte <= line@.len(),
        tab > 0,
    ensures
        on_row(wraps@, line@.len() as int, byte as int, affinity, r.0 as int),
        r.1 == column_between(line@, row_start(wraps@, r.0 as int), byte as int, tab),
{
    let mut row: usize = 0;
    while row < wraps.len() && (wraps[row] < byte || (wraps[row] == byte && affinity
        == Affinity::After))
        invariant
            row <= wraps@.len(),
            wraps_wf(line@, wraps@),
            forall|k: int|
                0 <= k < row ==> #[trigger] wraps@[k] < byte || (wraps@[k] == byte && affinity
                    == Affinity::After),
        decreases wraps@.len() - row,
    {
        row += 1;
    }
    let start: usize = if row == 0 { 0 } else { wraps[row - 1] };
    (row, column_of(line, start, byte, tab))
}

/// The column reached after the bytes from `start` to `end`.
fn column_of(line: &Vec<u8>, start: usize, end: usize, tab: usize) -> (r: usize)
    requires
        start <= end <= line@.len(),
        tab > 0,
    ensures
        r == column_between(line@, start as int, end as int, tab),
{
    let mut col: usize = 0;
    let mut k: usize = start;
    while k < end
        invariant
            start <= k <= end <= line@.len(),
            tab > 0,
            col == column_between(line@, start as int, k as int, tab),
        decreases end - k,
    {
        col = advance(line[k], col, tab);
        k += 1;
    }
    col
}

fn advance(b: u8, col: usize, tab: usize) -> (r: usize)
    requires
        tab > 0,
    ensures
        r == sat_add(col as int, byte_width(b, col, tab)),
{
    if 0x80 <= b && b < 0xC0 {
        col
    } else if b == 9 {
        col.saturating_add(tab - col % tab)
    } else {
        col.saturating_add(1)
    }
}

/// The byte shown on `row` at the last character boundary whose column
/// does not pass `column`, with the affinity that keeps it on that row.
pub fn row_and_column_to_byte_and_affinity(
    line: &Vec<u8>,
    wraps: &Vec<usize>,
    row: usize,
    column: usize,
    tab: usize,
) -> (r: (usize, Affinity))
    requires
        wraps_wf(line@, wraps@),
        row <= wraps@.len(),
        tab > 0,
    ensures
        row_start(wraps@, row as int) <= r.0 <= row_end(wraps@, line@.len() as int, row as int),
        is_boundary(line@, r.0 as int),
        column_between(line@, row_start(wraps@, row as int), r.0 as int, tab) <= column,
        forall|k: int|
            r.0 < k <= row_end(wraps@, line@.len() as int, row as int) && is_boundary(line@, k)
                ==> column_between(line@, row_start(wraps@, row as int), k, tab) > column,
        r.1 == (if r.0 == row_start(wraps@, row as int) && row > 0 {
            Affinity::After
        } else {
            Affinity::Before
        }),
        on_row(wraps@, line@.len() as int, r.0 as int, r.1, row as int),
{
    let start: usize = if row == 0 { 0 } else { wraps[row - 1] };
    let end: usize = if row == wraps.len() { line.len() } else { wraps[row] };
    proof {
        if row > 0 {
            assert(wraps@[row - 1] < line@.len());
        }
        if row > 0 && row < wraps@.len() {
            assert(wraps@[row - 1] < wraps@[row as int]);
        }
        if row < wraps@.len() {
            assert(is_boundary(line@, wraps@[row as int] as int));
        }
        if row > 0 {
            assert(is_boundary(line@, wraps@[row - 1] as int));
        }
    }
    let mut best: usize = start;
    let mut col: usize = 0;
    let mut k: usize = start;
    while k < end
        invariant
            start == row_start(wraps@, row as int),
            end == row_end(wraps@, line@.len() as int, row as int),
            start <= best <= k <= end <= line@.len(),
            tab > 0,
            is_boundary(line@, end as int),
            is_boundary(line@, best as int),
            col == column_between(line@, start as int, k as int, tab),
            column_between(line@, start as int, best as int, tab) <= column,
            forall|j: int|
                best < j <= k && is_boundary(line@, j) ==> column_between(line@, start as int, j, tab)
                    > column,
        decreases end - k,
    {
        col = advance(line[k], col, tab);
        k += 1;
        if (k == end || !(0x80 <= line[k] && line[k] < 0xC0)) && col <= column {
            best = k;
        }
    }
    proof {
        if row > 0 && row < wraps@.len() {
            assert(wraps@[row - 1] < wraps@[row as int]);
        }
    }
    let affinity = if best == start && row > 0 { Affinity::After } else { Affinity::Before };
    (best, affinity)
}

} // verus!

verus! {

/// Soft-wrap seams and grapheme-cluster boundaries for each line of a
/// document, and the tab width.
#[derive(Clone, Debug)]
pub struct Layout {
    pub wraps: Vec<Vec<usize>>,
    pub graphemes: Vec<Vec<usize>>,
    pub tab_column_count: usize,
}

/// The boundaries between the grapheme clusters of a line, its ends left
/// out: strictly increasing character boundaries strictly inside it.
pub open spec fn clusters_wf(l: Seq<u8>, g: Seq<usize>) -> bool {
    &&& forall|i: int, j: int| 0 <= i < j < g.len() ==> g[i] < g[j]
    &&& forall|i: int| 0 <= i < g.len() ==> 0 < #[trigger] g[i] < l.len() && is_boundary(l, g[i] as int)
}

/// A byte offset at which a grapheme cluster begins, or either end of the
/// line.
pub open spec fn is_cluster_boundary(l: Seq<u8>, g: Seq<usize>, b: int) -> bool {
    b == 0 || b == l.len() || (0 < b < l.len() && g.contains(b as usize))
}

/// Every character of `l` is a cluster of its own.
pub open spec fn clusters_are_chars(l: Seq<u8>, g: Seq<usize>) -> bool {
    forall|b: int| 0 < b < l.len() ==> (g.contains(b as usize) <==> !is_continuation(#[trigger] l[b]))
}

pub open spec fn lines_seq(lines: &Vec<Vec<u8>>) -> Seq<Seq<u8>> {
    lines@.map_values(|l: Vec<u8>| l@)
}

/// The boundaries between the characters of `line`, each character taken
/// as one cluster.
pub fn char_clusters(line: &Vec<u8>) -> (r: Vec<usize>)
    ensures
        clusters_wf(line@, r@),
        clusters_are_chars(line@, r@),
{
    let mut r: Vec<usize> = Vec::new();
    let mut b: usize = 1;
    while b < line.len()
        invariant
            1 <= b,
            b <= line@.len() || line@.len() == 0,
            clusters_wf(line@, r@),
            forall|i: int| 0 <= i < r@.len() ==> #[trigger] r@[i] < b,
            forall|k: int| 0 < k < b && k < line@.len() ==> (r@.contains(k as usize) <==> !is_continuation(#[trigger] line@[k])),
        decreases line@.len() - b,
    {
        if !(0x80 <= line[b] && line[b] < 0xC0) {
            let ghost old_r = r@;
            r.push(b);
            proof {
                assert(r@[old_r.len() as int] == b);
                assert forall|k: int| 0 < k < b + 1 && k < line@.len() implies (r@.contains(k as usize)
                    <==> !is_continuation(#[trigger] line@[k])) by {
                    if k < b {
                        if old_r.contains(k as usize) {
                            let t = choose|t: int| 0 <= t < old_r.len() && old_r[t] == k as usize;
                            assert(r@[t] == k as usize);
                        }
                        if r@.contains(k as usize) {
                            let t = choose|t: int| 0 <= t < r@.len() && r@[t] == k as usize;
                            if t < old_r.len() {
                                assert(old_r[t] == k as usize);
                            }
                        }
                    }
                }
            }
        } else {
            proof {
                assert(!r@.contains(b));
            }
        }
        b += 1;
    }
    r
}

impl Layout {
    /// The layout fits `lines`: one list of seams and one of cluster
    /// boundaries per line, each well formed.
    pub open spec fn fits(&self, lines: &Vec<Vec<u8>>) -> bool {
        &&& self.tab_column_count > 0
        &&& self.wraps@.len() == lines@.len()
        &&& self.graphemes@.len() == lines@.len()
        &&& forall|i: int| 0 <= i < lines@.len() ==> wraps_wf(#[trigger] lines@[i]@, self.wraps@[i]@)
        &&& forall|i: int| 0 <= i < lines@.len() ==> clusters_wf(#[trigger] lines@[i]@, self.graphemes@[i]@)
    }

    /// A layout without soft wraps in which each character is a cluster.
    pub fn unwrapped(lines: &Vec<Vec<u8>>, tab_column_count: usize) -> (r: Layout)
        requires
            tab_column_count > 0,
        ensures
            r.fits(lines),
            r.tab_column_count == tab_column_count,
            forall|i: int| 0 <= i < lines@.len() ==> (#[trigger] r.wraps@[i])@.len() == 0,
            forall|i: int| 0 <= i < lines@.len() ==> clusters_are_chars(#[trigger] lines@[i]@, r.graphemes@[i]@),
    {
        let mut wraps: Vec<Vec<usize>> = Vec::new();
        let mut graphemes: Vec<Vec<usize>> = Vec::new();
        let mut i: usize = 0;
        while i < lines.len()
            invariant
                i <= lines@.len(),
                wraps@.len() == i,
                graphemes@.len() == i,
                forall|k: int| 0 <= k < i ==> (#[trigger] wraps@[k])@.len() == 0,
                forall|k: int| 0 <= k < i ==> clusters_wf(#[trigger] lines@[k]@, graphemes@[k]@),
                forall|k: int| 0 <= k < i ==> clusters_are_chars(#[trigger] lines@[k]@, graphemes@[k]@),
            decreases lines@.len() - i,
        {
            wraps.push(Vec::new());
            graphemes.push(char_clusters(&lines[i]));
            i += 1;
        }
        Layout { wraps, graphemes, tab_column_count }
    }
}

/// `b` with affinity `a` is where a vertical move that aims for `column`
/// on `row` ends: the last character boundary of the row whose column does
/// not pass it.
pub open spec fn lands(l: Seq<u8>, w: Seq<usize>, row: int, column: usize, tab: usize, b: int, a: Affinity) -> bool {
    &&& row_start(w, row) <= b <= row_end(w, l.len() as int, row)
    &&& is_boundary(l, b)
    &&& column_between(l, row_start(w, row), b, tab) <= column
    &&& forall|k: int|
        b < k <= row_end(w, l.len() as int, row) && is_boundary(l, k)
            ==> #[trigger] column_between(l, row_start(w, row), k, tab) > column
    &&& a == (if b == row_start(w, row) && row > 0 { Affinity::After } else { Affinity::Before })
}

proof fn lemma_column_monotonic(l: Seq<u8>, s: int, i: int, j: int, tab: usize)
    requires
        s <= i <= j,
        tab > 0,
    ensures
        column_between(l, s, i, tab) <= column_between(l, s, j, tab),
    decreases j - i,
{
    if i < j {
        lemma_column_monotonic(l, s, i, j - 1, tab);
        let c = column_between(l, s, j - 1, tab);
        assert(byte_width(l[j - 1], c, tab) >= 0);
    }
}

/// Turning a position into its row and column, and that row and column
/// back into a position, gives the position again, with an affinity that
/// shows it on the same row.
pub proof fn lemma_row_column_round_trip(
    l: Seq<u8>,
    w: Seq<usize>,
    b: int,
    a: Affinity,
    row: int,
    tab: usize,
    b2: int,
    a2: Affinity,
)
    requires
        wraps_wf(l, w),
        tab > 0,
        is_boundary(l, b),
        l.len() > 0 ==> !is_continuation(l[0]),
        on_row(w, l.len() as int, b, a, row),
        column_between(l, row_start(w, row), b, tab) < usize::MAX,
        lands(l, w, row, column_between(l, row_start(w, row), b, tab), tab, b2, a2),
    ensures
        b2 == b,
        on_row(w, l.len() as int, b2, a2, row),
{
    let s = row_start(w, row);
    let c = column_between(l, s, b, tab);
    if b2 < b {
        assert(column_between(l, s, b, tab) > c);
    } else if b2 > b {
        assert(!is_continuation(l[b]));
        assert(column_between(l, s, b + 1, tab) > c);
        lemma_column_monotonic(l, s, b + 1, b2, tab);
    }
    if row > 0 && row < w.len() {
        assert(w[row - 1] < w[row]);
    }
}

} // verus!

verus! {

/// A position with its affinity is shown on one row only.
pub proof fn lemma_on_row_unique(w: Seq<usize>, l: Seq<u8>, b: int, a: Affinity, r1: int, r2: int)
    requires
        wraps_wf(l, w),
        on_row(w, l.len() as int, b, a, r1),
        on_row(w, l.len() as int, b, a, r2),
    ensures
        r1 == r2,
{
    if r1 < r2 {
        assert(w[r1] <= w[r2 - 1]);
    } else if r2 < r1 {
        assert(w[r2] <= w[r1 - 1]);
    }
}

} // verus!

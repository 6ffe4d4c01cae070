use vstd::prelude::*;
use crate::position::Point;
use crate::selection::Affinity;
use crate::layout::{
    Layout, is_boundary, is_continuation, on_row, lands, row_start, column_between,
    byte_and_affinity_to_row_and_column, row_and_column_to_byte_and_affinity, lemma_on_row_unique,
    lemma_row_column_round_trip, wraps_wf, clusters_wf, is_cluster_boundary,
};

verus! {

/// `p` names a line of `lines` and a character boundary within it.
pub open spec fn point_valid(lines: Seq<Vec<u8>>, p: Point) -> bool {
    p.line < lines.len() && p.byte <= lines[p.line as int]@.len() && is_boundary(
        lines[p.line as int]@,
        p.byte as int,
    )
}

/// The cluster boundaries of line `i`.
pub open spec fn clusters_at(layout: &Layout, i: int) -> Seq<usize> {
    layout.graphemes@[i]@
}

/// No cluster boundary of line `l`, with cluster boundaries `g`, lies
/// strictly between `a` and `b`.
pub open spec fn no_cluster_between(l: Seq<u8>, g: Seq<usize>, a: int, b: int) -> bool {
    forall|k: int| a < k < b ==> !is_cluster_boundary(l, g, k)
}

/// `r` is one grapheme cluster before `p`: the previous cluster boundary on
/// its line, the end of the line before at the start of a line, or `p`
/// itself at the start of the document.
pub open spec fn left_of(lines: &Vec<Vec<u8>>, layout: &Layout, p: Point, r: Point) -> bool {
    &&& point_valid(lines@, r)
    &&& p.byte > 0 ==> r.line == p.line && r.byte < p.byte && is_cluster_boundary(
        line_at(lines, p.line as int),
        clusters_at(layout, p.line as int),
        r.byte as int,
    ) && no_cluster_between(
        line_at(lines, p.line as int),
        clusters_at(layout, p.line as int),
        r.byte as int,
        p.byte as int,
    )
    &&& p.byte == 0 && p.line > 0 ==> r == (Point {
        line: (p.line - 1) as usize,
        byte: lines@[p.line - 1]@.len() as usize,
    })
    &&& p.byte == 0 && p.line == 0 ==> r == p
}

/// One grapheme cluster back; from the start of a line to the end of the
/// line before; unchanged at the start of the document.
pub fn move_left(lines: &Vec<Vec<u8>>, layout: &Layout, point: Point) -> (r: Point)
    requires
        layout.fits(lines),
        point_valid(lines@, point),
    ensures
        left_of(lines, layout, point, r),
{
    if !is_at_start_of_line(point) {
        return move_to_prev_grapheme(lines, layout, point);
    }
    if !is_at_first_line(point) {
        return move_to_end_of_prev_line(lines, point);
    }
    point
}

/// `r` is one grapheme cluster after `p`: the next cluster boundary on its
/// line, the start of the next line at the end of a line, or `p` itself at
/// the end of the document.
pub open spec fn right_of(lines: &Vec<Vec<u8>>, layout: &Layout, p: Point, r: Point) -> bool {
    &&& point_valid(lines@, r)
    &&& p.byte < lines@[p.line as int]@.len() ==> r.line == p.line && r.byte > p.byte
        && is_cluster_boundary(
        line_at(lines, p.line as int),
        clusters_at(layout, p.line as int),
        r.byte as int,
    ) && no_cluster_between(
        line_at(lines, p.line as int),
        clusters_at(layout, p.line as int),
        p.byte as int,
        r.byte as int,
    )
    &&& p.byte == lines@[p.line as int]@.len() && p.line + 1 < lines@.len() ==> r == (Point {
        line: (p.line + 1) as usize,
        byte: 0,
    })
    &&& p.byte == lines@[p.line as int]@.len() && p.line + 1 == lines@.len() ==> r == p
}

/// One grapheme cluster on; from the end of a line to the start of the
/// next; unchanged at the end of the document.
pub fn move_right(lines: &Vec<Vec<u8>>, layout: &Layout, point: Point) -> (r: Point)
    requires
        layout.fits(lines),
        point_valid(lines@, point),
    ensures
        right_of(lines, layout, point, r),
{
    if !is_at_end_of_line(lines, point) {
        return move_to_next_grapheme(lines, layout, point);
    }
    if !is_at_last_line(lines, point) {
        return move_to_start_of_next_line(lines, point);
    }
    point
}

/// Whether `point` names a line of `lines` and a character boundary in it.
pub fn is_valid_point(lines: &Vec<Vec<u8>>, point: Point) -> (r: bool)
    ensures
        r == point_valid(lines@, point),
{
    if point.line >= lines.len() {
        return false;
    }
    let line = &lines[point.line];
    if point.byte > line.len() {
        return false;
    }
    point.byte == 0 || point.byte == line.len() || !(0x80 <= line[point.byte] && line[point.byte] < 0xC0)
}

fn is_at_first_line(point: Point) -> (r: bool)
    ensures
        r == (point.line == 0),
{
    point.line == 0
}

fn is_at_last_line(lines: &Vec<Vec<u8>>, point: Point) -> (r: bool)
    ensures
        r == (point.line + 1 >= lines@.len()),
{
    point.line >= lines.len() || point.line + 1 == lines.len()
}

fn is_at_start_of_line(point: Point) -> (r: bool)
    ensures
        r == (point.byte == 0),
{
    point.byte == 0
}

fn is_at_end_of_line(lines: &Vec<Vec<u8>>, point: Point) -> (r: bool)
    requires
        point.line < lines@.len(),
    ensures
        r == (point.byte == lines@[point.line as int]@.len()),
{
    point.byte == lines[point.line].len()
}

fn move_to_prev_grapheme(lines: &Vec<Vec<u8>>, layout: &Layout, point: Point) -> (r: Point)
    requires
        layout.fits(lines),
        point_valid(lines@, point),
        point.byte > 0,
    ensures
        left_of(lines, layout, point, r),
{
    let ghost l = line_at(lines, point.line as int);
    let g = &layout.graphemes[point.line];
    proof {
        assert(clusters_wf(lines@[point.line as int]@, layout.graphemes@[point.line as int]@));
    }
    let mut best: usize = 0;
    let mut k: usize = 0;
    while k < g.len() && g[k] < point.byte
        invariant
            clusters_wf(l, g@),
            k <= g@.len(),
            best < point.byte,
            is_cluster_boundary(l, g@, best as int),
            is_boundary(l, best as int),
            forall|m: int| 0 <= m < k ==> #[trigger] g@[m] <= best,
        decreases g@.len() - k,
    {
        best = g[k];
        proof {
            assert(g@.contains(best));
        }
        k += 1;
    }
    proof {
        assert forall|b: int| best < b < point.byte implies !is_cluster_boundary(l, g@, b) by {
            if is_cluster_boundary(l, g@, b) {
                let m = choose|m: int| 0 <= m < g@.len() && g@[m] == b as usize;
                if m < k {
                } else {
                    assert(k < g@.len());
                    assert(g@[k as int] <= g@[m]);
                }
            }
        }
    }
    Point { line: point.line, byte: best }
}

fn move_to_next_grapheme(lines: &Vec<Vec<u8>>, layout: &Layout, point: Point) -> (r: Point)
    requires
        layout.fits(lines),
        point_valid(lines@, point),
        point.byte < lines@[point.line as int]@.len(),
    ensures
        right_of(lines, layout, point, r),
{
    let ghost l = line_at(lines, point.line as int);
    let g = &layout.graphemes[point.line];
    let len = lines[point.line].len();
    proof {
        assert(clusters_wf(lines@[point.line as int]@, layout.graphemes@[point.line as int]@));
    }
    let mut k: usize = 0;
    while k < g.len() && g[k] <= point.byte
        invariant
            clusters_wf(l, g@),
            len == l.len(),
            k <= g@.len(),
            forall|m: int| 0 <= m < k ==> #[trigger] g@[m] <= point.byte,
        decreases g@.len() - k,
    {
        k += 1;
    }
    let next = if k < g.len() { g[k] } else { len };
    proof {
        if k < g@.len() {
            assert(g@.contains(next));
            assert(next < len);
        }
        assert forall|b: int| point.byte < b < next implies !is_cluster_boundary(l, g@, b) by {
            if is_cluster_boundary(l, g@, b) {
                let m = choose|m: int| 0 <= m < g@.len() && g@[m] == b as usize;
                if m < k {
                } else {
                    assert(g@[k as int] <= g@[m]);
                }
            }
        }
    }
    Point { line: point.line, byte: next }
}

fn move_to_end_of_prev_line(lines: &Vec<Vec<u8>>, point: Point) -> (r: Point)
    requires
        point_valid(lines@, point),
        point.line > 0,
    ensures
        r == (Point { line: (point.line - 1) as usize, byte: lines@[point.line - 1]@.len() as usize }),
        point_valid(lines@, r),
{
    let prev_line = point.line - 1;
    Point { line: prev_line, byte: lines[prev_line].len() }
}

fn move_to_start_of_next_line(lines: &Vec<Vec<u8>>, point: Point) -> (r: Point)
    requires
        point.line + 1 < lines@.len(),
    ensures
        r == (Point { line: (point.line + 1) as usize, byte: 0 }),
        point_valid(lines@, r),
{
    let line_count = lines.len();
    proof {
        assert(point.line + 1 < line_count);
    }
    Point { line: point.line + 1, byte: 0 }
}

} // verus!

verus! {

pub open spec fn line_at(lines: &Vec<Vec<u8>>, i: int) -> Seq<u8> {
    lines@[i]@
}

pub open spec fn wraps_at(layout: &Layout, i: int) -> Seq<usize> {
    layout.wraps@[i]@
}

/// The column a vertical move aims for from `p` on `row`: the preferred one
/// when there is one, else the column at which `p` is shown.
pub open spec fn aim_column(
    lines: &Vec<Vec<u8>>,
    layout: &Layout,
    p: Point,
    row: int,
    preferred_column: Option<usize>,
) -> usize {
    match preferred_column {
        Some(c) => c,
        None => column_between(
            line_at(lines, p.line as int),
            row_start(wraps_at(layout, p.line as int), row),
            p.byte as int,
            layout.tab_column_count,
        ),
    }
}

pub open spec fn shown_on(lines: &Vec<Vec<u8>>, layout: &Layout, p: Point, a: Affinity, row: int) -> bool {
    on_row(wraps_at(layout, p.line as int), line_at(lines, p.line as int).len() as int, p.byte as int, a, row)
}

pub open spec fn lands_on(
    lines: &Vec<Vec<u8>>,
    layout: &Layout,
    line: int,
    row: int,
    column: usize,
    r: (Point, Affinity, Option<usize>),
) -> bool {
    &&& r.0.line == line
    &&& lands(line_at(lines, line), wraps_at(layout, line), row, column, layout.tab_column_count, r.0.byte as int, r.1)
    &&& r.2 == Some(column)
}

/// Where a move one row up from `point` ends: the row above on its line,
/// else the last row of the line before, aiming for the preferred column or
/// the column `point` is shown at; nowhere on the first row of the document.
pub open spec fn up_of(
    lines: &Vec<Vec<u8>>,
    layout: &Layout,
    point: Point,
    affinity: Affinity,
    preferred_column: Option<usize>,
    r: (Point, Affinity, Option<usize>),
) -> bool {
    &&& point_valid(lines@, r.0)
    &&& forall|row: int| #[trigger] shown_on(lines, layout, point, affinity, row) ==> {
        let c = aim_column(lines, layout, point, row, preferred_column);
        &&& row > 0 ==> lands_on(lines, layout, point.line as int, row - 1, c, r)
        &&& row == 0 && point.line > 0 ==> lands_on(
            lines,
            layout,
            point.line - 1,
            wraps_at(layout, point.line - 1).len() as int,
            c,
            r,
        )
        &&& row == 0 && point.line == 0 ==> r == (point, affinity, preferred_column)
    }
}

/// Where a move one row down from `point` ends, as `up_of` says the other
/// way.
pub open spec fn down_of(
    lines: &Vec<Vec<u8>>,
    layout: &Layout,
    point: Point,
    affinity: Affinity,
    preferred_column: Option<usize>,
    r: (Point, Affinity, Option<usize>),
) -> bool {
    &&& point_valid(lines@, r.0)
    &&& forall|row: int| #[trigger] shown_on(lines, layout, point, affinity, row) ==> {
        let c = aim_column(lines, layout, point, row, preferred_column);
        let last = wraps_at(layout, point.line as int).len() as int;
        &&& row < last ==> lands_on(lines, layout, point.line as int, row + 1, c, r)
        &&& row == last && point.line + 1 < lines@.len() ==> lands_on(
            lines,
            layout,
            point.line + 1,
            0,
            c,
            r,
        )
        &&& row == last && point.line + 1 == lines@.len() ==> r == (point, affinity, preferred_column)
    }
}

/// One row up, aiming for the preferred column or else the current one;
/// from the first row of a line to the last row of the line before;
/// unchanged on the first row of the document.
pub fn move_up(
    lines: &Vec<Vec<u8>>,
    layout: &Layout,
    point: Point,
    affinity: Affinity,
    preferred_column: Option<usize>,
) -> (r: (Point, Affinity, Option<usize>))
    requires
        layout.fits(lines),
        point_valid(lines@, point),
    ensures
        up_of(lines, layout, point, affinity, preferred_column, r),
{
    let (row, column) = row_and_column(lines, layout, point, affinity);
    proof {
        assert forall|rr: int| #[trigger] shown_on(lines, layout, point, affinity, rr) implies rr
            == row by {
            lemma_on_row_unique(wraps_at(layout, point.line as int), line_at(lines, point.line as int), point.byte as int, affinity, rr, row as int);
        }
    }
    let c = match preferred_column {
        Some(p) => p,
        None => column,
    };
    if row > 0 {
        return move_to_row(lines, layout, point.line, row - 1, c);
    }
    if !is_at_first_line(point) {
        let prev = point.line - 1;
        return move_to_row(lines, layout, prev, layout.wraps[prev].len(), c);
    }
    (point, affinity, preferred_column)
}

/// One row down, aiming for the preferred column or else the current one;
/// from the last row of a line to the first row of the line after;
/// unchanged on the last row of the document.
pub fn move_down(
    lines: &Vec<Vec<u8>>,
    layout: &Layout,
    point: Point,
    affinity: Affinity,
    preferred_column: Option<usize>,
) -> (r: (Point, Affinity, Option<usize>))
    requires
        layout.fits(lines),
        point_valid(lines@, point),
    ensures
        down_of(lines, layout, point, affinity, preferred_column, r),
{
    let (row, column) = row_and_column(lines, layout, point, affinity);
    proof {
        assert forall|rr: int| #[trigger] shown_on(lines, layout, point, affinity, rr) implies rr
            == row by {
            lemma_on_row_unique(wraps_at(layout, point.line as int), line_at(lines, point.line as int), point.byte as int, affinity, rr, row as int);
        }
    }
    let c = match preferred_column {
        Some(p) => p,
        None => column,
    };
    if row < layout.wraps[point.line].len() {
        return move_to_row(lines, layout, point.line, row + 1, c);
    }
    if !is_at_last_line(lines, point) {
        let line_count = lines.len();
        proof {
            assert(point.line + 1 < line_count);
        }
        return move_to_row(lines, layout, point.line + 1, 0, c);
    }
    (point, affinity, preferred_column)
}

/// The row and column at which `point` is shown.
fn row_and_column(lines: &Vec<Vec<u8>>, layout: &Layout, point: Point, affinity: Affinity) -> (r: (usize, usize))
    requires
        layout.fits(lines),
        point_valid(lines@, point),
    ensures
        shown_on(lines, layout, point, affinity, r.0 as int),
        r.1 == column_between(
            line_at(lines, point.line as int),
            row_start(wraps_at(layout, point.line as int), r.0 as int),
            point.byte as int,
            layout.tab_column_count,
        ),
{
    proof {
        assert(wraps_wf(lines@[point.line as int]@, layout.wraps@[point.line as int]@));
    }
    byte_and_affinity_to_row_and_column(
        &lines[point.line],
        &layout.wraps[point.line],
        point.byte,
        affinity,
        layout.tab_column_count,
    )
}

/// Where a vertical move that aims for `column` on `row` of `line` ends.
fn move_to_row(lines: &Vec<Vec<u8>>, layout: &Layout, line: usize, row: usize, column: usize) -> (r: (
    Point,
    Affinity,
    Option<usize>,
))
    requires
        layout.fits(lines),
        line < lines@.len(),
        row <= wraps_at(layout, line as int).len(),
    ensures
        lands_on(lines, layout, line as int, row as int, column, r),
        point_valid(lines@, r.0),
{
    proof {
        assert(wraps_wf(lines@[line as int]@, layout.wraps@[line as int]@));
        if row < wraps_at(layout, line as int).len() {
            assert(wraps_at(layout, line as int)[row as int] < line_at(lines, line as int).len());
        }
    }
    let (byte, affinity) = row_and_column_to_byte_and_affinity(
        &lines[line],
        &layout.wraps[line],
        row,
        column,
        layout.tab_column_count,
    );
    (Point { line, byte }, affinity, Some(column))
}

/// A vertical move that comes back to a row aiming for the column at which
/// a position there is shown (the preferred column that the moves carried
/// along) lands on that position again, with an affinity that shows it on
/// the same row.
pub proof fn lemma_sticky_column(
    lines: &Vec<Vec<u8>>,
    layout: &Layout,
    p: Point,
    a: Affinity,
    row: int,
    r: (Point, Affinity, Option<usize>),
)
    requires
        layout.fits(lines),
        point_valid(lines@, p),
        line_at(lines, p.line as int).len() > 0 ==> !is_continuation(line_at(lines, p.line as int)[0]),
        shown_on(lines, layout, p, a, row),
        aim_column(lines, layout, p, row, None) < usize::MAX,
        lands_on(lines, layout, p.line as int, row, aim_column(lines, layout, p, row, None), r),
    ensures
        r.0 == p,
        shown_on(lines, layout, r.0, r.1, row),
{
    assert(wraps_wf(lines@[p.line as int]@, layout.wraps@[p.line as int]@));
    lemma_row_column_round_trip(
        line_at(lines, p.line as int),
        wraps_at(layout, p.line as int),
        p.byte as int,
        a,
        row,
        layout.tab_column_count,
        r.0.byte as int,
        r.1,
    );
}

/// Moving one cluster right and then one cluster left comes back to a
/// cluster boundary that is not the end of the document.
pub proof fn lemma_right_then_left(lines: &Vec<Vec<u8>>, layout: &Layout, p: Point, r: Point, q: Point)
    requires
        layout.fits(lines),
        point_valid(lines@, p),
        is_cluster_boundary(line_at(lines, p.line as int), clusters_at(layout, p.line as int), p.byte as int),
        !(p.line + 1 == lines@.len() && p.byte == lines@[p.line as int]@.len()),
        lines@.len() <= usize::MAX,
        right_of(lines, layout, p, r),
        left_of(lines, layout, r, q),
    ensures
        q == p,
{
    if p.byte < lines@[p.line as int]@.len() {
        let l = line_at(lines, p.line as int);
        let g = clusters_at(layout, p.line as int);
        if q.byte < p.byte {
            assert(!is_cluster_boundary(l, g, p.byte as int));
        } else if q.byte > p.byte {
            assert(!is_cluster_boundary(l, g, q.byte as int));
        }
        assert(r.line == p.line);
        assert(q.line == p.line);
    } else {
        assert(r == (Point { line: (p.line + 1) as usize, byte: 0 }));
        assert(q.line == p.line);
    }
}

proof fn lemma_lands_on_row(l: Seq<u8>, w: Seq<usize>, row: int, column: usize, tab: usize, b: int, a: Affinity)
    requires
        wraps_wf(l, w),
        0 <= row <= w.len(),
        lands(l, w, row, column, tab, b, a),
    ensures
        on_row(w, l.len() as int, b, a, row),
{
    if row > 0 && row < w.len() {
        assert(w[row - 1] < w[row]);
    }
    if row == 0 && w.len() > 0 {
        assert(0 < w[0]);
    }
}

/// Moving down from a position and then up again, each time with the
/// preferred column that the move before handed on, comes back to the
/// position, on the same row, with its column as the preferred column.
pub proof fn lemma_down_then_up(
    lines: &Vec<Vec<u8>>,
    layout: &Layout,
    p: Point,
    a: Affinity,
    row: int,
    r1: (Point, Affinity, Option<usize>),
    r2: (Point, Affinity, Option<usize>),
)
    requires
        layout.fits(lines),
        point_valid(lines@, p),
        line_at(lines, p.line as int).len() > 0 ==> !is_continuation(line_at(lines, p.line as int)[0]),
        shown_on(lines, layout, p, a, row),
        !(row == wraps_at(layout, p.line as int).len() && p.line + 1 == lines@.len()),
        aim_column(lines, layout, p, row, None) < usize::MAX,
        down_of(lines, layout, p, a, None, r1),
        up_of(lines, layout, r1.0, r1.1, r1.2, r2),
    ensures
        r2.0 == p,
        r2.2 == Some(aim_column(lines, layout, p, row, None)),
        shown_on(lines, layout, r2.0, r2.1, row),
{
    let c = aim_column(lines, layout, p, row, None);
    let last = wraps_at(layout, p.line as int).len() as int;
    if row < last {
        assert(lands_on(lines, layout, p.line as int, row + 1, c, r1));
        assert(wraps_wf(lines@[p.line as int]@, layout.wraps@[p.line as int]@));
        lemma_lands_on_row(line_at(lines, p.line as int), wraps_at(layout, p.line as int), row + 1, c, layout.tab_column_count, r1.0.byte as int, r1.1);
        assert(shown_on(lines, layout, r1.0, r1.1, row + 1));
        assert(aim_column(lines, layout, r1.0, row + 1, r1.2) == c);
        assert(lands_on(lines, layout, p.line as int, row, c, r2));
    } else {
        assert(lands_on(lines, layout, p.line + 1, 0, c, r1));
        let n = p.line + 1;
        assert(wraps_wf(lines@[n]@, layout.wraps@[n]@));
        lemma_lands_on_row(line_at(lines, n), wraps_at(layout, n), 0, c, layout.tab_column_count, r1.0.byte as int, r1.1);
        assert(shown_on(lines, layout, r1.0, r1.1, 0));
        assert(aim_column(lines, layout, r1.0, 0, r1.2) == c);
        assert(lands_on(lines, layout, p.line as int, last, c, r2));
    }
    lemma_sticky_column(lines, layout, p, a, row, r2);
}

} // verus!

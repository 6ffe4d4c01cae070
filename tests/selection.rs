use code_editor::{Affinity, Change, Extent, Point, Range, Selection, Text};

fn p(line: usize, byte: usize) -> Point {
    Point { line, byte }
}

fn sel(anchor: Point, cursor: Point) -> Selection {
    Selection { anchor, cursor, affinity: Affinity::Before, preferred_column: None }
}

#[test]
fn caret_merges_with_touching_selection() {
    let caret = sel(p(0, 2), p(0, 2));
    let range = sel(p(0, 2), p(0, 5));
    assert!(caret.should_merge(range));
    let merged = caret.merge(range).unwrap();
    assert_eq!(merged.start(), p(0, 2));
    assert_eq!(merged.end(), p(0, 5));
    let left = sel(p(0, 0), p(0, 2));
    let merged = left.merge(caret).unwrap();
    assert_eq!((merged.start(), merged.end()), (p(0, 0), p(0, 2)));
}

#[test]
fn overlapping_selections_merge_into_union() {
    let a = sel(p(0, 0), p(0, 3));
    let b = sel(p(0, 2), p(0, 5));
    let merged = a.merge(b).unwrap();
    assert_eq!(merged.anchor, p(0, 0));
    assert_eq!(merged.cursor, p(0, 5));
}

#[test]
fn adjacent_or_apart_non_empty_selections_stay_apart() {
    let a = sel(p(0, 0), p(0, 2));
    assert!(!a.should_merge(sel(p(0, 2), p(0, 5))));
    assert!(a.merge(sel(p(0, 3), p(0, 5))).is_none());
}

#[test]
fn backward_selection_keeps_its_orientation_when_merged() {
    let a = sel(p(0, 3), p(0, 0));
    let b = sel(p(0, 5), p(0, 1));
    let merged = a.merge(b).unwrap();
    assert_eq!(merged.anchor, p(0, 5));
    assert_eq!(merged.cursor, p(0, 0));
}

#[test]
fn edge_affinities() {
    let mut s = sel(p(0, 1), p(0, 4));
    s.affinity = Affinity::Before;
    assert_eq!(s.start_affinity(), Affinity::After);
    assert_eq!(s.end_affinity(), Affinity::Before);
    let mut t = sel(p(0, 4), p(0, 1));
    t.affinity = Affinity::After;
    assert_eq!(t.start_affinity(), Affinity::After);
    assert_eq!(t.end_affinity(), Affinity::Before);
    assert_eq!(Affinity::default(), Affinity::Before);
}

#[test]
fn extent_range_and_lines() {
    let s = sel(p(3, 2), p(1, 5));
    assert_eq!(s.extent(), Extent { line_count: 2, byte_count: 2 });
    assert_eq!(s.range(), Range { start: p(1, 5), end: p(3, 2) });
    assert_eq!(s.line_range(), 1..4);
    let t = sel(p(3, 0), p(1, 5));
    assert_eq!(t.line_range(), 1..3);
    let u = sel(p(1, 1), p(1, 4));
    assert_eq!(u.extent(), Extent { line_count: 0, byte_count: 3 });
    assert_eq!(u.line_range(), 1..2);
    assert!(sel(p(2, 2), p(2, 2)).is_empty());
}

#[test]
fn reset_anchor_and_update_cursor() {
    let s = sel(p(0, 1), p(0, 4));
    let r = s.reset_anchor();
    assert_eq!(r.anchor, p(0, 4));
    assert_eq!(r.cursor, p(0, 4));
    let u = s.update_cursor((p(1, 0), Affinity::After, Some(7)));
    assert_eq!(u.anchor, p(0, 1));
    assert_eq!(u.cursor, p(1, 0));
    assert_eq!(u.affinity, Affinity::After);
    assert_eq!(u.preferred_column, Some(7));
}

#[test]
fn merging_a_selection_that_lies_inside_gives_the_union() {
    let outer = sel(p(0, 0), p(0, 10));
    let inner = sel(p(0, 2), p(0, 3));
    let merged = outer.merge(inner).unwrap();
    assert_eq!((merged.anchor, merged.cursor), (p(0, 0), p(0, 10)));
    let backward = sel(p(0, 10), p(0, 0));
    let merged = backward.merge(sel(p(0, 5), p(0, 2))).unwrap();
    assert_eq!((merged.anchor, merged.cursor), (p(0, 10), p(0, 0)));
    let crossing = sel(p(0, 0), p(0, 4)).merge(sel(p(0, 8), p(0, 2))).unwrap();
    assert_eq!((crossing.anchor, crossing.cursor), (p(0, 0), p(0, 8)));
}

#[test]
fn carets_at_one_point_keep_the_later_affinity() {
    let a = Selection { anchor: p(0, 0), cursor: p(0, 0), affinity: Affinity::Before, preferred_column: Some(1) };
    let b = Selection { anchor: p(0, 0), cursor: p(0, 0), affinity: Affinity::After, preferred_column: Some(2) };
    let merged = a.merge(b).unwrap();
    assert_eq!(merged.affinity, Affinity::After);
    assert_eq!(merged.preferred_column, Some(2));
}

#[test]
fn apply_change_keeps_the_preferred_column() {
    let mut s = sel(p(0, 1), p(0, 1));
    s.preferred_column = Some(3);
    let c = Change::Insert(p(0, 0), Text { lines: vec![b"ab".to_vec()] });
    let r = s.apply_change(&c, true);
    assert_eq!(r.cursor, p(0, 3));
    assert_eq!(r.preferred_column, Some(3));
}

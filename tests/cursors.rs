use code_editor::{Affinity, Change, CursorSet, Point, Range, Selection, Text};

fn p(line: usize, byte: usize) -> Point {
    Point { line, byte }
}

fn sel(anchor: Point, cursor: Point) -> Selection {
    Selection { anchor, cursor, affinity: Affinity::Before, preferred_column: None }
}

fn is_normal(set: &CursorSet) -> bool {
    let v = &set.selections;
    (1..v.len()).all(|i| v[i - 1].start() <= v[i].start() && !v[i - 1].should_merge(v[i]))
}

#[test]
fn from_selections_sorts_and_merges() {
    let set = CursorSet::from_selections(vec![
        sel(p(2, 0), p(2, 3)),
        sel(p(0, 1), p(0, 1)),
        sel(p(2, 2), p(2, 6)),
        sel(p(0, 1), p(0, 1)),
        sel(p(1, 0), p(1, 2)),
    ]);
    assert!(is_normal(&set));
    assert_eq!(set.selections.len(), 3);
    assert_eq!(set.selections[0], sel(p(0, 1), p(0, 1)));
    assert_eq!(set.selections[1], sel(p(1, 0), p(1, 2)));
    assert_eq!((set.selections[2].start(), set.selections[2].end()), (p(2, 0), p(2, 6)));
}

#[test]
fn normal_set_is_kept_as_is() {
    let v = vec![sel(p(0, 0), p(0, 2)), sel(p(0, 2), p(0, 4)), sel(p(1, 0), p(1, 0))];
    let set = CursorSet::from_selections(v.clone());
    assert_eq!(set.selections, v);
}

#[test]
fn diff_keeps_set_normal() {
    let mut set = CursorSet::from_selections(vec![sel(p(0, 1), p(0, 1)), sel(p(0, 4), p(0, 4))]);
    let diff = vec![Change::Delete(Range { start: p(0, 0), end: p(0, 5) })];
    set.apply_diff(&diff, false);
    assert!(is_normal(&set));
    assert_eq!(set.selections, vec![sel(p(0, 0), p(0, 0))]);
}

#[test]
fn insert_remaps_points_locally_and_foreign() {
    let t = Text { lines: vec![b"xy".to_vec()] };
    let c = Change::Insert(p(0, 2), t);
    assert_eq!(p(0, 2).apply_change(&c, true), p(0, 4));
    assert_eq!(p(0, 2).apply_change(&c, false), p(0, 2));
    assert_eq!(p(0, 3).apply_change(&c, false), p(0, 5));
    assert_eq!(p(1, 3).apply_change(&c, false), p(1, 3));
    let two = Change::Insert(p(0, 1), Text { lines: vec![b"a".to_vec(), b"bc".to_vec()] });
    assert_eq!(p(0, 3).apply_change(&two, false), p(1, 4));
    assert_eq!(p(2, 3).apply_change(&two, false), p(3, 3));
}

#[test]
fn delete_remaps_points() {
    let c = Change::Delete(Range { start: p(0, 2), end: p(1, 1) });
    assert_eq!(p(0, 1).apply_change(&c, false), p(0, 1));
    assert_eq!(p(0, 5).apply_change(&c, false), p(0, 2));
    assert_eq!(p(1, 4).apply_change(&c, false), p(0, 5));
    assert_eq!(p(3, 4).apply_change(&c, false), p(2, 4));
}

#[test]
fn text_changes_and_inverses() {
    let mut t = Text { lines: vec![b"hello".to_vec(), b"world".to_vec()] };
    let ins = Change::Insert(p(0, 5), Text { lines: vec![b" big".to_vec(), b"new".to_vec()] });
    let inv = t.apply_change(&ins);
    assert_eq!(t.lines, vec![b"hello big".to_vec(), b"new".to_vec(), b"world".to_vec()]);
    t.apply_change(&inv);
    assert_eq!(t.lines, vec![b"hello".to_vec(), b"world".to_vec()]);
    let del = Change::Delete(Range { start: p(0, 3), end: p(1, 2) });
    let inv = t.apply_change(&del);
    assert_eq!(t.lines, vec![b"helrld".to_vec()]);
    t.apply_change(&inv);
    assert_eq!(t.lines, vec![b"hello".to_vec(), b"world".to_vec()]);
}

#[test]
fn text_from_bytes_splits_lines() {
    let t = Text::from_bytes(b"ab\n\ncd");
    assert_eq!(t.lines, vec![b"ab".to_vec(), b"".to_vec(), b"cd".to_vec()]);
    let e = Text::from_bytes(b"");
    assert_eq!(e.lines, vec![Vec::<u8>::new()]);
}

use code_editor::layout::{byte_and_affinity_to_row_and_column, row_and_column_to_byte_and_affinity};
use code_editor::{move_down, move_left, move_right, move_up, Affinity, Layout, Point};

fn p(line: usize, byte: usize) -> Point {
    Point { line, byte }
}

fn lines(v: &[&str]) -> Vec<Vec<u8>> {
    v.iter().map(|s| s.as_bytes().to_vec()).collect()
}

#[test]
fn left_at_document_start_stays() {
    let t = lines(&["abc", "de"]);
    let layout = Layout::unwrapped(&t, 4);
    assert_eq!(move_left(&t, &layout, p(0, 0)), p(0, 0));
}

#[test]
fn right_at_document_end_stays() {
    let t = lines(&["abc", "de"]);
    let layout = Layout::unwrapped(&t, 4);
    assert_eq!(move_right(&t, &layout, p(1, 2)), p(1, 2));
}

#[test]
fn horizontal_moves_cross_lines() {
    let t = lines(&["abc", "de"]);
    let layout = Layout::unwrapped(&t, 4);
    assert_eq!(move_left(&t, &layout, p(1, 0)), p(0, 3));
    assert_eq!(move_right(&t, &layout, p(0, 3)), p(1, 0));
    assert_eq!(move_left(&t, &layout, p(0, 2)), p(0, 1));
    assert_eq!(move_right(&t, &layout, p(0, 1)), p(0, 2));
}

#[test]
fn horizontal_moves_step_over_whole_characters() {
    // "aé€b": a(1) é(2) €(3) b(1)
    let t = lines(&["a\u{e9}\u{20ac}b"]);
    let layout = Layout::unwrapped(&t, 4);
    assert_eq!(layout.graphemes, vec![vec![1usize, 3, 6]]);
    assert_eq!(move_right(&t, &layout, p(0, 1)), p(0, 3));
    assert_eq!(move_right(&t, &layout, p(0, 3)), p(0, 6));
    assert_eq!(move_left(&t, &layout, p(0, 6)), p(0, 3));
    assert_eq!(move_left(&t, &layout, p(0, 3)), p(0, 1));
}

#[test]
fn horizontal_moves_cross_a_combining_sequence_at_once() {
    // "e" + U+0301 + "x": one cluster of three bytes, then "x".
    let t = lines(&["e\u{301}x"]);
    let layout = Layout { wraps: vec![vec![]], graphemes: vec![vec![3]], tab_column_count: 4 };
    assert_eq!(move_left(&t, &layout, p(0, 3)), p(0, 0));
    assert_eq!(move_right(&t, &layout, p(0, 0)), p(0, 3));
    assert_eq!(move_right(&t, &layout, p(0, 3)), p(0, 4));
    assert_eq!(move_left(&t, &layout, p(0, 4)), p(0, 3));
}

#[test]
fn row_and_column_round_trip_on_wrapped_line() {
    let line = b"abcdefgh".to_vec();
    let wraps = vec![3usize, 6];
    for byte in 0..=8usize {
        for affinity in [Affinity::Before, Affinity::After] {
            let (row, column) = byte_and_affinity_to_row_and_column(&line, &wraps, byte, affinity, 4);
            let (b, a) = row_and_column_to_byte_and_affinity(&line, &wraps, row, column, 4);
            assert_eq!(b, byte);
            assert_eq!(byte_and_affinity_to_row_and_column(&line, &wraps, b, a, 4), (row, column));
        }
    }
    assert_eq!(byte_and_affinity_to_row_and_column(&line, &wraps, 3, Affinity::Before, 4), (0, 3));
    assert_eq!(byte_and_affinity_to_row_and_column(&line, &wraps, 3, Affinity::After, 4), (1, 0));
    assert_eq!(row_and_column_to_byte_and_affinity(&line, &wraps, 1, 0, 4), (3, Affinity::After));
}

#[test]
fn tabs_expand_to_tab_stops() {
    let line = b"a\tb".to_vec();
    let wraps: Vec<usize> = vec![];
    assert_eq!(byte_and_affinity_to_row_and_column(&line, &wraps, 2, Affinity::Before, 4), (0, 4));
    assert_eq!(row_and_column_to_byte_and_affinity(&line, &wraps, 0, 3, 4), (1, Affinity::Before));
    assert_eq!(row_and_column_to_byte_and_affinity(&line, &wraps, 0, 4, 4), (2, Affinity::Before));
}

#[test]
fn vertical_moves_keep_the_preferred_column() {
    let t = lines(&["abcdef", "ab", "abcdef"]);
    let layout = Layout::unwrapped(&t, 4);
    let (q, a, c) = move_down(&t, &layout, p(0, 5), Affinity::Before, None);
    assert_eq!((q, c), (p(1, 2), Some(5)));
    let (q, a, c) = move_down(&t, &layout, q, a, c);
    assert_eq!((q, c), (p(2, 5), Some(5)));
    let (q, a, c) = move_up(&t, &layout, q, a, c);
    assert_eq!(q, p(1, 2));
    let (q, _, c) = move_up(&t, &layout, q, a, c);
    assert_eq!((q, c), (p(0, 5), Some(5)));
}

#[test]
fn vertical_moves_at_document_edges_stay() {
    let t = lines(&["abc", "de"]);
    let layout = Layout::unwrapped(&t, 4);
    assert_eq!(move_up(&t, &layout, p(0, 2), Affinity::Before, None), (p(0, 2), Affinity::Before, None));
    assert_eq!(move_down(&t, &layout, p(1, 1), Affinity::Before, Some(9)), (p(1, 1), Affinity::Before, Some(9)));
}

#[test]
fn vertical_moves_walk_wrapped_rows() {
    let t = lines(&["abcdefgh", "xy"]);
    let layout = Layout { wraps: vec![vec![3, 6], vec![]], graphemes: vec![vec![1, 2, 3, 4, 5, 6, 7], vec![1]], tab_column_count: 4 };
    let (q, a, c) = move_down(&t, &layout, p(0, 1), Affinity::Before, None);
    assert_eq!((q, a, c), (p(0, 4), Affinity::Before, Some(1)));
    let (q, a, c) = move_down(&t, &layout, q, a, c);
    assert_eq!(q, p(0, 7));
    let (q, a, c) = move_down(&t, &layout, q, a, c);
    assert_eq!(q, p(1, 1));
    let (q, _, _) = move_up(&t, &layout, q, a, c);
    assert_eq!(q, p(0, 7));
}

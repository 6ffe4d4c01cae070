use code_editor::buf::{Buf, EditKind};
use code_editor::edit_ops::{delete, insert};
use code_editor::{Affinity, CursorSet, Event, KeyCode, KeyModifiers, Point, Selection, State, Text};

fn p(line: usize, byte: usize) -> Point {
    Point { line, byte }
}

fn caret(at: Point) -> Selection {
    Selection { anchor: at, cursor: at, affinity: Affinity::Before, preferred_column: None }
}

#[test]
fn typing_at_several_carets() {
    let text = Text { lines: vec![b"ab".to_vec(), b"cd".to_vec()] };
    let cursors = CursorSet::from_selections(vec![caret(p(0, 1)), caret(p(1, 1))]);
    let diff = insert(&text, &cursors, &Text::from_bytes(b"X"));
    assert_eq!(diff.len(), 4);
    let mut buf = Buf::new(text);
    buf.edit(EditKind::Insert, &cursors, diff.clone());
    assert_eq!(buf.text.lines, vec![b"aXb".to_vec(), b"cXd".to_vec()]);
    let mut after = cursors.copy();
    after.apply_diff(&diff, true);
    assert_eq!(after.selections, vec![caret(p(0, 2)), caret(p(1, 2))]);
    let (restored, _) = buf.undo().unwrap();
    assert_eq!(buf.text.lines, vec![b"ab".to_vec(), b"cd".to_vec()]);
    assert_eq!(restored.selections, cursors.selections);
    assert!(buf.undo().is_none());
    let (redone, _) = buf.redo().unwrap();
    assert_eq!(buf.text.lines, vec![b"aXb".to_vec(), b"cXd".to_vec()]);
    assert_eq!(redone.selections, after.selections);
    assert!(buf.redo().is_none());
}

#[test]
fn typing_replaces_a_selection() {
    let text = Text { lines: vec![b"hello".to_vec()] };
    let cursors = CursorSet::from_selections(vec![Selection {
        anchor: p(0, 1),
        cursor: p(0, 4),
        affinity: Affinity::Before,
        preferred_column: None,
    }]);
    let diff = insert(&text, &cursors, &Text::from_bytes(b"i\nj"));
    let mut buf = Buf::new(text);
    buf.edit(EditKind::Insert, &cursors, diff);
    assert_eq!(buf.text.lines, vec![b"hi".to_vec(), b"jo".to_vec()]);
}

#[test]
fn backspace_at_carets_and_document_start() {
    let text = Text { lines: vec![b"a\xc3\xa9".to_vec(), b"b".to_vec()] };
    let cursors = CursorSet::from_selections(vec![caret(p(0, 0)), caret(p(0, 3)), caret(p(1, 0))]);
    let layout = code_editor::Layout::unwrapped(&text.lines, 4);
    let diff = delete(&text, &layout, &cursors);
    let mut buf = Buf::new(text);
    buf.edit(EditKind::Delete, &cursors, diff);
    assert_eq!(buf.text.lines, vec![b"ab".to_vec()]);
}

#[test]
fn backspace_at_document_start_changes_nothing() {
    let mut state = State::new();
    let v = state.create_view();
    state.handle_event(v, &Event::Key(KeyCode::Backspace, KeyModifiers::default()));
    let (text, cursors) = state.draw(v);
    assert_eq!(text.lines, vec![Vec::<u8>::new()]);
    assert_eq!(cursors.selections, vec![caret(p(0, 0))]);
}

#[test]
fn moving_up_and_down_through_the_state() {
    let mut state = State::new();
    let v = state.create_view();
    state.handle_event(v, &Event::Text("abcdef\nab\nabcdef".to_string()));
    let up = Event::Key(KeyCode::Up, KeyModifiers::default());
    state.handle_event(v, &Event::Key(KeyCode::Left, KeyModifiers::default()));
    state.handle_event(v, &up);
    assert_eq!(state.draw(v).1.selections[0].cursor, p(1, 2));
    state.handle_event(v, &up);
    let s = state.draw(v).1.selections[0];
    assert_eq!((s.cursor, s.preferred_column), (p(0, 5), Some(5)));
    state.handle_event(v, &Event::Key(KeyCode::Right, KeyModifiers::default()));
    assert_eq!(state.draw(v).1.selections[0].preferred_column, None);
}

#[test]
fn edits_clear_the_preferred_column() {
    let mut state = State::new();
    let v = state.create_view();
    state.handle_event(v, &Event::Text("abcd\nab".to_string()));
    state.handle_event(v, &Event::Key(KeyCode::Up, KeyModifiers::default()));
    assert_eq!(state.draw(v).1.selections[0].preferred_column, Some(2));
    state.handle_event(v, &Event::Key(KeyCode::Backspace, KeyModifiers::default()));
    assert_eq!(state.draw(v).1.selections[0].preferred_column, None);
}

#[test]
fn a_plain_move_collapses_overlapping_selections_into_carets() {
    let mut state = State::new();
    let v = state.create_view();
    state.handle_event(v, &Event::Text("abc".to_string()));
    let shift = KeyModifiers { shift: true, command: false };
    state.handle_event(v, &Event::Key(KeyCode::Left, shift));
    state.handle_event(v, &Event::Key(KeyCode::Left, KeyModifiers::default()));
    let s = state.draw(v).1.selections.clone();
    assert_eq!(s, vec![caret(p(0, 1))]);
}

use code_editor::{Affinity, Event, KeyCode, KeyModifiers, Layout, Point, Selection, State};

fn p(line: usize, byte: usize) -> Point {
    Point { line, byte }
}

fn caret(at: Point) -> Selection {
    Selection { anchor: at, cursor: at, affinity: Affinity::Before, preferred_column: None }
}

fn key(code: KeyCode) -> Event {
    Event::Key(code, KeyModifiers::default())
}

fn text_of(state: &State, id: code_editor::ViewId) -> Vec<Vec<u8>> {
    state.draw(id).0.lines.clone()
}

fn cursors_of(state: &State, id: code_editor::ViewId) -> Vec<Selection> {
    state.draw(id).1.selections.clone()
}

#[test]
fn new_view_shows_an_empty_document() {
    let mut state = State::new();
    let v = state.create_view();
    assert_eq!(text_of(&state, v), vec![Vec::<u8>::new()]);
    assert_eq!(cursors_of(&state, v), vec![caret(p(0, 0))]);
}

#[test]
fn typing_enter_and_backspace() {
    let mut state = State::new();
    let v = state.create_view();
    state.handle_event(v, &Event::Text("ab".to_string()));
    assert_eq!(text_of(&state, v), vec![b"ab".to_vec()]);
    assert_eq!(cursors_of(&state, v), vec![caret(p(0, 2))]);
    state.handle_event(v, &key(KeyCode::Left));
    state.handle_event(v, &key(KeyCode::Enter));
    assert_eq!(text_of(&state, v), vec![b"a".to_vec(), b"b".to_vec()]);
    assert_eq!(cursors_of(&state, v), vec![caret(p(1, 0))]);
    state.handle_event(v, &key(KeyCode::Backspace));
    assert_eq!(text_of(&state, v), vec![b"ab".to_vec()]);
    assert_eq!(cursors_of(&state, v), vec![caret(p(0, 1))]);
}

#[test]
fn undo_and_redo_round_trip() {
    let mut state = State::new();
    let v = state.create_view();
    let before = cursors_of(&state, v);
    state.handle_event(v, &Event::Text("ab".to_string()));
    let undo = Event::Key(KeyCode::Z, KeyModifiers { shift: false, command: true });
    let redo = Event::Key(KeyCode::Z, KeyModifiers { shift: true, command: true });
    state.handle_event(v, &undo);
    assert_eq!(text_of(&state, v), vec![Vec::<u8>::new()]);
    assert_eq!(cursors_of(&state, v), before);
    state.handle_event(v, &redo);
    assert_eq!(text_of(&state, v), vec![b"ab".to_vec()]);
    state.handle_event(v, &redo);
    assert_eq!(text_of(&state, v), vec![b"ab".to_vec()]);
    state.handle_event(v, &undo);
    state.handle_event(v, &undo);
    assert_eq!(text_of(&state, v), vec![Vec::<u8>::new()]);
}

#[test]
fn shift_extends_the_selection() {
    let mut state = State::new();
    let v = state.create_view();
    state.handle_event(v, &Event::Text("abc".to_string()));
    let shift = KeyModifiers { shift: true, command: false };
    state.handle_event(v, &Event::Key(KeyCode::Left, shift));
    state.handle_event(v, &Event::Key(KeyCode::Left, shift));
    let s = cursors_of(&state, v)[0];
    assert_eq!((s.anchor, s.cursor), (p(0, 3), p(0, 1)));
    state.handle_event(v, &Event::Text("X".to_string()));
    assert_eq!(text_of(&state, v), vec![b"aX".to_vec()]);
}

#[test]
fn sibling_views_follow_an_insertion() {
    let mut state = State::new();
    let v1 = state.create_view();
    state.handle_event(v1, &Event::Text("hello".to_string()));
    let v2 = state.create_sibling_view(v1);
    state.handle_event(v2, &key(KeyCode::Right));
    state.handle_event(v2, &key(KeyCode::Right));
    state.handle_event(v2, &key(KeyCode::Right));
    assert_eq!(cursors_of(&state, v2), vec![caret(p(0, 3))]);
    // v1's cursor is at the end; move it to the start and type there.
    for _ in 0..5 {
        state.handle_event(v1, &key(KeyCode::Left));
    }
    state.handle_event(v1, &Event::Text("ab".to_string()));
    assert_eq!(text_of(&state, v2), vec![b"abhello".to_vec()]);
    assert_eq!(cursors_of(&state, v2), vec![caret(p(0, 5))]);
    assert_eq!(cursors_of(&state, v1), vec![caret(p(0, 2))]);
}

#[test]
fn sibling_caret_at_the_insertion_point_stays_before_it() {
    let mut state = State::new();
    let v1 = state.create_view();
    let v2 = state.create_sibling_view(v1);
    state.handle_event(v1, &Event::Text("ab".to_string()));
    assert_eq!(cursors_of(&state, v1), vec![caret(p(0, 2))]);
    assert_eq!(cursors_of(&state, v2), vec![caret(p(0, 0))]);
}

#[test]
fn destroying_views_and_models() {
    let mut state = State::new();
    let v1 = state.create_view();
    let v2 = state.create_sibling_view(v1);
    let v3 = state.create_view();
    state.handle_event(v1, &Event::Text("xyz".to_string()));
    let v2_cursors = cursors_of(&state, v2);
    state.destroy_view(v1);
    assert!(state.models[0].is_some());
    assert!(state.views[v1.index].is_none());
    assert_eq!(cursors_of(&state, v2), v2_cursors);
    assert_eq!(text_of(&state, v2), vec![b"xyz".to_vec()]);
    state.destroy_view(v2);
    assert!(state.models[0].is_none());
    assert_eq!(text_of(&state, v3), vec![Vec::<u8>::new()]);
}

#[test]
fn unknown_keys_do_nothing() {
    let mut state = State::new();
    let v = state.create_view();
    state.handle_event(v, &Event::Text("q".to_string()));
    state.handle_event(v, &key(KeyCode::Other));
    state.handle_event(v, &key(KeyCode::Z));
    assert_eq!(text_of(&state, v), vec![b"q".to_vec()]);
    assert_eq!(cursors_of(&state, v), vec![caret(p(0, 1))]);
}

#[test]
fn arrow_keys_cross_a_grapheme_cluster_given_by_the_layout() {
    let mut state = State::new();
    let v = state.create_view();
    state.handle_event(v, &Event::Text("e\u{301}x".to_string()));
    let layout = Layout { wraps: vec![vec![]], graphemes: vec![vec![3]], tab_column_count: 4 };
    state.handle_event_with_layout(v, &key(KeyCode::Left), &layout);
    assert_eq!(cursors_of(&state, v), vec![caret(p(0, 3))]);
    state.handle_event_with_layout(v, &key(KeyCode::Left), &layout);
    assert_eq!(cursors_of(&state, v), vec![caret(p(0, 0))]);
    state.handle_event_with_layout(v, &key(KeyCode::Right), &layout);
    assert_eq!(cursors_of(&state, v), vec![caret(p(0, 3))]);
    state.handle_event_with_layout(v, &key(KeyCode::Backspace), &layout);
    assert_eq!(text_of(&state, v), vec![b"x".to_vec()]);
    assert_eq!(cursors_of(&state, v), vec![caret(p(0, 0))]);
}

use zone_console::input::InputHandler;
use zone_console::input::Interruption;
use zone_console::input::Key;

#[test]
fn counts_track_typed_characters() {
    let mut h = InputHandler::new();
    assert_eq!(h.current_input(), "");
    assert_eq!(h.get_cursor_position(), 0);
    assert_eq!(h.byte_len(), 0);
    assert!(h.process_input(Key::Char('h')).is_none());
    assert!(h.process_input(Key::Char('\u{e9}')).is_none()); // 2-byte encoding
    assert!(h.process_input(Key::Char('\u{20ac}')).is_none()); // 3-byte encoding
    assert!(h.process_input(Key::Char('\u{1d11e}')).is_none()); // 4-byte encoding
    assert_eq!(h.current_input(), "h\u{e9}\u{20ac}\u{1d11e}");
    // the cursor sits at the end, reported as the character count
    assert_eq!(h.get_cursor_position(), 4);
    assert_eq!(h.byte_len(), 1 + 2 + 3 + 4);
}

#[test]
fn round_trip_commit() {
    let mut h = InputHandler::new();
    h.process_input(Key::Char('a'));
    h.process_input(Key::Char('b'));
    h.process_input(Key::Char('c'));
    match h.process_input(Key::Enter) {
        Some(Interruption::Enter(text)) => assert_eq!(text, "abc"),
        other => panic!("expected a commit, got {:?}", other),
    }
    assert_eq!(h.current_input(), "");
    assert_eq!(h.get_cursor_position(), 0);
    assert_eq!(h.byte_len(), 0);
}

#[test]
fn enter_on_empty_commits_empty_line() {
    let mut h = InputHandler::new();
    match h.process_input(Key::Enter) {
        Some(Interruption::Enter(text)) => assert_eq!(text, ""),
        other => panic!("expected a commit, got {:?}", other),
    }
    assert_eq!(h.current_input(), "");
    assert_eq!(h.get_cursor_position(), 0);
}

#[test]
fn left_at_start_is_noop() {
    let mut h = InputHandler::new();
    h.process_input(Key::Char('a'));
    h.process_input(Key::Char('b'));
    h.process_input(Key::Home);
    assert_eq!(h.get_cursor_position(), 0);
    assert!(h.process_input(Key::Left).is_none());
    assert_eq!(h.get_cursor_position(), 0);
    assert_eq!(h.current_input(), "ab");
}

#[test]
fn right_at_end_is_noop() {
    let mut h = InputHandler::new();
    h.process_input(Key::Char('a'));
    assert!(h.process_input(Key::Right).is_none());
    assert_eq!(h.get_cursor_position(), 1);
    assert_eq!(h.current_input(), "a");
}

#[test]
fn delete_at_end_is_noop() {
    let mut h = InputHandler::new();
    h.process_input(Key::Char('a'));
    h.process_input(Key::Char('b'));
    assert!(h.process_input(Key::Delete).is_none());
    assert_eq!(h.current_input(), "ab");
    assert_eq!(h.get_cursor_position(), 2);
}

#[test]
fn backspace_on_empty_is_noop() {
    let mut h = InputHandler::new();
    assert!(h.process_input(Key::Backspace).is_none());
    assert_eq!(h.current_input(), "");
    assert_eq!(h.get_cursor_position(), 0);
}

#[test]
fn escape_is_two_stage() {
    let mut h = InputHandler::new();
    h.process_input(Key::Char('a'));
    h.process_input(Key::Char('b'));
    h.process_input(Key::Char('c'));
    // first escape only clears the buffer
    assert!(h.process_input(Key::Esc).is_none());
    assert_eq!(h.current_input(), "");
    assert_eq!(h.get_cursor_position(), 0);
    // second escape cancels the session
    match h.process_input(Key::Esc) {
        Some(Interruption::Esc) => {}
        other => panic!("expected a cancel, got {:?}", other),
    }
}

#[test]
fn escape_on_fresh_editor_cancels_immediately() {
    let mut h = InputHandler::new();
    match h.process_input(Key::Esc) {
        Some(Interruption::Esc) => {}
        other => panic!("expected a cancel, got {:?}", other),
    }
}

#[test]
fn backspace_removes_exactly_the_two_byte_character() {
    let mut h = InputHandler::new();
    h.process_input(Key::Char('a'));
    h.process_input(Key::Char('\u{e9}'));
    h.process_input(Key::Char('b'));
    assert_eq!(h.byte_len(), 4);
    // step onto 'b', so the accented character sits left of the cursor
    h.process_input(Key::Left);
    assert_eq!(h.get_cursor_position(), 2);
    assert!(h.process_input(Key::Backspace).is_none());
    assert_eq!(h.current_input(), "ab");
    assert_eq!(h.get_cursor_position(), 1);
    assert_eq!(h.byte_len(), 2);
}

#[test]
fn backspace_after_two_lefts_removes_the_first_character() {
    let mut h = InputHandler::new();
    h.process_input(Key::Char('a'));
    h.process_input(Key::Char('\u{e9}'));
    h.process_input(Key::Char('b'));
    h.process_input(Key::Left);
    h.process_input(Key::Left);
    assert_eq!(h.get_cursor_position(), 1);
    h.process_input(Key::Backspace);
    assert_eq!(h.current_input(), "\u{e9}b");
    assert_eq!(h.get_cursor_position(), 0);
    assert_eq!(h.byte_len(), 3);
}

#[test]
fn delete_in_the_middle_keeps_the_cursor() {
    let mut h = InputHandler::new();
    for c in ['4', '2', '0', '0', '0'] {
        h.process_input(Key::Char(c));
    }
    h.process_input(Key::Home);
    h.process_input(Key::Right);
    h.process_input(Key::Right);
    assert_eq!(h.get_cursor_position(), 2);
    assert!(h.process_input(Key::Delete).is_none());
    assert_eq!(h.current_input(), "4200");
    assert_eq!(h.get_cursor_position(), 2);
}

#[test]
fn insert_before_a_multi_byte_character() {
    let mut h = InputHandler::new();
    h.process_input(Key::Char('\u{e9}'));
    h.process_input(Key::Home);
    assert_eq!(h.get_cursor_position(), 0);
    h.process_input(Key::Char('x'));
    assert_eq!(h.current_input(), "x\u{e9}");
    assert_eq!(h.get_cursor_position(), 1);
    assert_eq!(h.byte_len(), 3);
}

#[test]
fn delete_of_last_character_re_derives_end() {
    let mut h = InputHandler::new();
    h.process_input(Key::Char('a'));
    h.process_input(Key::Char('b'));
    h.process_input(Key::Home);
    h.process_input(Key::Right);
    h.process_input(Key::Delete);
    assert_eq!(h.current_input(), "a");
    assert_eq!(h.get_cursor_position(), 1);
    // the cursor is the end state again: typing appends
    h.process_input(Key::Char('x'));
    assert_eq!(h.current_input(), "ax");
}

#[test]
fn backspace_at_end_removes_the_last_character() {
    let mut h = InputHandler::new();
    h.process_input(Key::Char('a'));
    h.process_input(Key::Char('b'));
    h.process_input(Key::Char('c'));
    h.process_input(Key::Backspace);
    assert_eq!(h.current_input(), "ab");
    assert_eq!(h.get_cursor_position(), 2);
}

#[test]
fn backspace_mid_line_moves_the_cursor_back() {
    let mut h = InputHandler::new();
    h.process_input(Key::Char('a'));
    h.process_input(Key::Char('b'));
    h.process_input(Key::Home);
    h.process_input(Key::Right);
    assert_eq!(h.get_cursor_position(), 1);
    h.process_input(Key::Backspace);
    assert_eq!(h.current_input(), "b");
    assert_eq!(h.get_cursor_position(), 0);
}

#[test]
fn emptying_the_buffer_restores_the_end_cursor() {
    let mut h = InputHandler::new();
    h.process_input(Key::Char('a'));
    h.process_input(Key::Backspace);
    assert_eq!(h.current_input(), "");
    assert_eq!(h.get_cursor_position(), 0);
    h.process_input(Key::Char('z'));
    assert_eq!(h.current_input(), "z");
    assert_eq!(h.get_cursor_position(), 1);
}

#[test]
fn unmapped_keys_are_ignored() {
    let mut h = InputHandler::new();
    h.process_input(Key::Char('a'));
    h.process_input(Key::Home);
    assert!(h.process_input(Key::Other).is_none());
    assert_eq!(h.current_input(), "a");
    assert_eq!(h.get_cursor_position(), 0);
}

#[test]
fn home_and_end_jump_to_the_line_edges() {
    let mut h = InputHandler::new();
    h.process_input(Key::Char('a'));
    h.process_input(Key::Char('b'));
    h.process_input(Key::Home);
    assert_eq!(h.get_cursor_position(), 0);
    h.process_input(Key::End);
    assert_eq!(h.get_cursor_position(), 2);
}

#[test]
fn commit_mid_line_hands_out_the_whole_buffer() {
    let mut h = InputHandler::new();
    h.process_input(Key::Char('a'));
    h.process_input(Key::Char('\u{e9}'));
    h.process_input(Key::Char('b'));
    h.process_input(Key::Left);
    match h.process_input(Key::Enter) {
        Some(Interruption::Enter(text)) => assert_eq!(text, "a\u{e9}b"),
        other => panic!("expected a commit, got {:?}", other),
    }
    assert_eq!(h.current_input(), "");
}

#[test]
fn clear_resets_everything() {
    let mut h = InputHandler::new();
    h.process_input(Key::Char('\u{e9}'));
    h.process_input(Key::Char('x'));
    h.clear();
    assert_eq!(h.current_input(), "");
    assert_eq!(h.get_cursor_position(), 0);
    assert_eq!(h.byte_len(), 0);
}

use james_shell::editor::{
    parse_history, Display, Key, KeyAction, KeyCode, LineEditor, Modifiers, MAX_HISTORY_SIZE,
};

/// Builds a `LineEditor` with a fixed history.
fn editor_with_history(entries: &[&str]) -> LineEditor {
    LineEditor::new(entries.iter().map(|s| s.to_string()).collect())
}

fn k(code: KeyCode, modifiers: Modifiers) -> Key {
    Key { code, modifiers }
}

#[test]
fn empty_lines_not_added_to_history() {
    let mut e = editor_with_history(&[]);
    e.add_to_history("");
    e.add_to_history("   ");
    assert!(e.history().is_empty());
}

#[test]
fn consecutive_duplicates_not_added_to_history() {
    let mut e = editor_with_history(&[]);
    e.add_to_history("ls");
    e.add_to_history("ls");
    e.add_to_history("ls");
    assert_eq!(e.history().len(), 1);
}

#[test]
fn non_consecutive_duplicates_are_kept() {
    let mut e = editor_with_history(&[]);
    e.add_to_history("ls");
    e.add_to_history("pwd");
    e.add_to_history("ls");
    assert_eq!(e.history().len(), 3);
}

#[test]
fn history_navigation_saves_and_restores_buffer() {
    let mut e = editor_with_history(&["echo hello", "ls -la"]);
    e.set_buffer("pwd");

    e.history_prev();
    assert_eq!(e.buffer(), "ls -la");
    assert_eq!(e.saved_buffer(), "pwd");

    e.history_prev();
    assert_eq!(e.buffer(), "echo hello");

    e.history_prev();
    assert_eq!(e.buffer(), "echo hello");

    e.history_next();
    assert_eq!(e.buffer(), "ls -la");

    e.history_next();
    assert_eq!(e.buffer(), "pwd");

    e.history_next();
    assert_eq!(e.buffer(), "pwd");
}

#[test]
fn ctrl_w_deletes_previous_word() {
    let mut e = editor_with_history(&[]);
    e.set_buffer("echo hello world");
    e.delete_word_before_cursor();
    assert_eq!(e.buffer(), "echo hello ");
    assert_eq!(e.cursor(), "echo hello ".len());
}

#[test]
fn ctrl_w_skips_trailing_spaces() {
    let mut e = editor_with_history(&[]);
    e.set_buffer("echo hello   ");
    e.delete_word_before_cursor();
    assert_eq!(e.buffer(), "echo ");
    assert_eq!(e.cursor(), "echo ".len());
}

#[test]
fn ctrl_w_at_start_is_noop() {
    let mut e = editor_with_history(&[]);
    e.set_buffer("hello");
    e.handle_key(k(KeyCode::Home, Modifiers::Plain));
    e.delete_word_before_cursor();
    assert_eq!(e.buffer(), "hello");
    assert_eq!(e.cursor(), 0);
}

#[test]
fn key_events_edit_buffer_like_terminal() {
    let mut e = editor_with_history(&[]);

    e.handle_key(k(KeyCode::Char('h'), Modifiers::Plain));
    e.handle_key(k(KeyCode::Char('i'), Modifiers::Plain));
    e.handle_key(k(KeyCode::Left, Modifiers::Plain));
    e.handle_key(k(KeyCode::Char('i'), Modifiers::Plain));
    e.handle_key(k(KeyCode::Right, Modifiers::Plain));
    e.handle_key(k(KeyCode::Backspace, Modifiers::Plain));
    e.handle_key(k(KeyCode::Home, Modifiers::Plain));
    e.handle_key(k(KeyCode::Char('H'), Modifiers::Shift));
    e.handle_key(k(KeyCode::End, Modifiers::Plain));

    assert_eq!(e.buffer(), "Hhi");
    assert_eq!(e.cursor(), e.buffer().chars().count());
}

#[test]
fn key_events_support_kill_line_shortcuts() {
    let mut e = editor_with_history(&[]);

    e.handle_key(k(KeyCode::Char('a'), Modifiers::Plain));
    e.handle_key(k(KeyCode::Char('b'), Modifiers::Plain));
    e.handle_key(k(KeyCode::Char('c'), Modifiers::Plain));
    e.handle_key(k(KeyCode::Left, Modifiers::Plain));
    e.handle_key(k(KeyCode::Backspace, Modifiers::Plain));

    assert_eq!(e.buffer(), "ac");
    assert_eq!(e.cursor(), 1);

    e.handle_key(k(KeyCode::End, Modifiers::Plain));
    e.handle_key(k(KeyCode::Char('u'), Modifiers::Control));

    assert_eq!(e.buffer(), "");
    assert_eq!(e.cursor(), 0);
}

#[test]
fn history_capped_at_max_size() {
    let mut e = editor_with_history(&[]);
    for i in 0..MAX_HISTORY_SIZE + 5 {
        e.add_to_history(&format!("cmd-{i}"));
    }
    assert_eq!(e.history().len(), MAX_HISTORY_SIZE);
    assert_eq!(e.history().last().unwrap(), &format!("cmd-{}", MAX_HISTORY_SIZE + 4));
    assert_eq!(e.history().first().unwrap(), "cmd-5");
}

#[test]
fn add_to_history_trims_and_reports_the_entry() {
    let mut e = editor_with_history(&["ls"]);
    assert_eq!(e.add_to_history("  pwd \t"), Some("pwd".to_string()));
    assert_eq!(e.add_to_history("pwd"), None);
    assert_eq!(e.add_to_history(" \u{a0}\u{3000} "), None);
    assert_eq!(e.history(), &vec!["ls".to_string(), "pwd".to_string()]);
}

#[test]
fn submit_eof_and_display_effects() {
    let mut e = editor_with_history(&["old"]);
    let (action, show) = e.handle_key(k(KeyCode::Char('d'), Modifiers::Control));
    assert!(matches!(action, KeyAction::Eof));
    assert_eq!(show, Display::NewLine);

    e.set_buffer("abc");
    e.handle_key(k(KeyCode::Home, Modifiers::Plain));
    let (action, show) = e.handle_key(k(KeyCode::Char('d'), Modifiers::Control));
    assert!(matches!(action, KeyAction::Continue));
    assert_eq!(show, Display::Redraw);
    assert_eq!(e.buffer(), "bc");

    let (_, show) = e.handle_key(k(KeyCode::Right, Modifiers::Plain));
    assert_eq!(show, Display::MoveCursor);
    let (_, show) = e.handle_key(k(KeyCode::Char('k'), Modifiers::Control));
    assert_eq!(show, Display::Redraw);
    assert_eq!(e.buffer(), "b");
    let (_, show) = e.handle_key(k(KeyCode::Delete, Modifiers::Plain));
    assert_eq!(show, Display::Redraw);
    let (_, show) = e.handle_key(k(KeyCode::Right, Modifiers::Plain));
    assert_eq!(show, Display::Nothing);
    let (_, show) = e.handle_key(k(KeyCode::Char('l'), Modifiers::Control));
    assert_eq!(show, Display::ClearScreen);
    let (_, show) = e.handle_key(k(KeyCode::Char('x'), Modifiers::Other));
    assert_eq!(show, Display::Nothing);
    let (_, show) = e.handle_key(k(KeyCode::Other, Modifiers::Plain));
    assert_eq!(show, Display::Nothing);
    assert_eq!(e.buffer(), "b");

    let (action, show) = e.handle_key(k(KeyCode::Enter, Modifiers::Plain));
    assert!(matches!(action, KeyAction::Submit(line) if line == "b"));
    assert_eq!(show, Display::NewLine);

    e.handle_key(k(KeyCode::Up, Modifiers::Plain));
    assert_eq!(e.buffer(), "old");
    let (_, show) = e.handle_key(k(KeyCode::Char('c'), Modifiers::Control));
    assert_eq!(show, Display::Interrupted);
    assert_eq!(e.buffer(), "");
    assert_eq!(e.cursor(), 0);
    e.handle_key(k(KeyCode::Down, Modifiers::Plain));
    assert_eq!(e.buffer(), "");
}

#[test]
fn ctrl_w_in_the_middle_keeps_the_tail() {
    let mut e = editor_with_history(&[]);
    e.set_buffer("one two three");
    for _ in 0.."three".len() {
        e.handle_key(k(KeyCode::Left, Modifiers::Plain));
    }
    e.handle_key(k(KeyCode::Char('w'), Modifiers::Control));
    assert_eq!(e.buffer(), "one three");
    assert_eq!(e.cursor(), 4);
    e.reset_state();
    assert_eq!(e.buffer(), "");
}

#[test]
fn history_file_text_is_read_line_by_line() {
    assert_eq!(
        parse_history("ls\n\necho hi\r\npwd\r"),
        vec!["ls".to_string(), "echo hi".to_string(), "pwd\r".to_string()]
    );
    assert_eq!(parse_history("one\n"), vec!["one".to_string()]);
    assert!(parse_history("\n\r\n").is_empty());
    assert!(parse_history("").is_empty());
}

#[test]
fn cursor_column_adds_the_prompt() {
    let mut e = editor_with_history(&[]);
    e.set_buffer("abc");
    assert_eq!(e.cursor_column(5), Some(8));
    assert_eq!(e.cursor_column(65533), None);
    assert_eq!(e.cursor_column(65532), Some(65535));
}

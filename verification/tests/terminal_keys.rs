use serial_tool::ansi::TermColor;
use serial_tool::config::{DisplayMode, TextEncoding};
use serial_tool::display::DisplayState;
use serial_tool::receive::append_rx;
use serial_tool::terminal::TerminalState;
use serial_tool::terminal_input::{TerminalKey, TerminalSettings};

fn settings(enter_sends: bool, auto_echo: bool) -> TerminalSettings {
    TerminalSettings { enter_sends, auto_echo, show_timestamps: false, encoding: TextEncoding::Utf8 }
}

fn input(t: &TerminalState) -> String {
    t.input.iter().collect()
}

fn text(t: &TerminalState) -> String {
    t.text.iter().collect()
}

fn typed(s: &str) -> TerminalKey {
    TerminalKey::Text(s.to_string())
}

#[test]
fn terminal_input_editing_insert_backspace_delete() {
    let mut t = TerminalState::new();
    t.input_insert("AB");
    assert_eq!(input(&t), "AB");
    assert_eq!(t.cursor, 2);
    t.cursor = 1;
    t.input_insert("X");
    assert_eq!(input(&t), "AXB");
    assert_eq!(t.cursor, 2);
    t.input_backspace();
    assert_eq!(input(&t), "AB");
    assert_eq!(t.cursor, 1);
    t.input_delete();
    assert_eq!(input(&t), "A");
}

#[test]
fn terminal_enter_sends_accumulates_line_then_sends_with_cr() {
    let mut t = TerminalState::new();
    let mut history: Vec<String> = Vec::new();
    let s = settings(true, true);
    assert!(t.handle_key(typed("AT"), s, &mut history).is_none());
    assert_eq!(input(&t), "AT");
    assert!(t.buffer.is_empty());
    let w = t.handle_key(TerminalKey::Enter, s, &mut history);
    assert_eq!(w, Some(b"AT\r".to_vec()));
    assert!(t.input.is_empty());
    assert_eq!(t.buffer, b"AT\n");
}

#[test]
fn terminal_received_data_after_enter_shows_on_new_line() {
    let mut t = TerminalState::new();
    let mut d = DisplayState::new();
    let mut history: Vec<String> = Vec::new();
    let s = settings(true, true);
    t.handle_key(typed("AT"), s, &mut history);
    t.handle_key(TerminalKey::Enter, s, &mut history);
    t.refresh_text(DisplayMode::Text, TextEncoding::Utf8, false);
    assert_eq!(text(&t), "# AT\n");
    append_rx(&mut d, &mut t, b"OK\r\n", false);
    t.refresh_text(DisplayMode::Text, TextEncoding::Utf8, false);
    assert_eq!(text(&t), "# AT\n# OK\r\n");
}

#[test]
fn terminal_enter_sends_records_command_history() {
    let mut t = TerminalState::new();
    let mut history: Vec<String> = Vec::new();
    let s = settings(true, true);
    for line in ["AT", "AT", "ATE1", "   "] {
        t.handle_key(typed(line), s, &mut history);
        t.handle_key(TerminalKey::Enter, s, &mut history);
        if line == "AT" {
            assert_eq!(history, vec!["AT"]);
        }
    }
    assert_eq!(history, vec!["ATE1", "AT"]);
}

#[test]
fn terminal_arrows_browse_command_history_like_shell() {
    let mut t = TerminalState::new();
    let s = settings(true, true);
    let mut history = vec!["PING".to_string(), "ATE1".to_string(), "AT".to_string()];
    t.handle_key(typed("P"), s, &mut history);
    t.handle_key(TerminalKey::Up, s, &mut history);
    assert_eq!(input(&t), "PING");
    assert_eq!(t.cursor, 4);
    assert_eq!(t.history_draft.iter().collect::<String>(), "P");
    assert_eq!(t.history_index, Some(0));
    t.handle_key(TerminalKey::Up, s, &mut history);
    assert_eq!(input(&t), "ATE1");
    assert_eq!(t.history_index, Some(1));
    t.handle_key(TerminalKey::Up, s, &mut history);
    assert_eq!(input(&t), "AT");
    assert_eq!(t.history_index, Some(2));
    t.handle_key(TerminalKey::Up, s, &mut history);
    assert_eq!(input(&t), "AT");
    assert_eq!(t.history_index, Some(2));
    t.handle_key(TerminalKey::Down, s, &mut history);
    assert_eq!(input(&t), "ATE1");
    t.handle_key(TerminalKey::Down, s, &mut history);
    assert_eq!(input(&t), "PING");
    t.handle_key(TerminalKey::Down, s, &mut history);
    assert_eq!(input(&t), "P");
    assert_eq!(t.history_index, None);

    let mut empty = TerminalState::new();
    let mut none: Vec<String> = Vec::new();
    empty.input_insert("hi");
    empty.handle_key(TerminalKey::Up, s, &mut none);
    assert_eq!(input(&empty), "hi");
    assert_eq!(empty.history_index, None);

    t.handle_key(TerminalKey::Up, s, &mut history);
    t.handle_key(TerminalKey::Enter, s, &mut history);
    assert_eq!(input(&t), "");
    assert_eq!(t.history_index, None);
    assert!(t.history_draft.is_empty());
    assert_eq!(history.first().map(String::as_str), Some("PING"));
}

#[test]
fn terminal_immediate_keys_send_and_echo() {
    let mut t = TerminalState::new();
    let mut history: Vec<String> = Vec::new();
    let s = settings(false, true);
    assert_eq!(t.handle_key(typed("A"), s, &mut history), Some(b"A".to_vec()));
    assert_eq!(t.handle_key(typed("B"), s, &mut history), Some(b"B".to_vec()));
    assert!(t.input.is_empty());
    assert_eq!(t.buffer, b"AB");
}

#[test]
fn terminal_immediate_mode_keeps_hash_prompt_and_enter_breaks_line() {
    let mut t = TerminalState::new();
    let mut history: Vec<String> = Vec::new();
    let s = settings(false, true);
    t.ensure_prompt(false);
    assert_eq!(t.prompt.iter().collect::<String>(), "# ");
    for c in ["A", "T"] {
        t.handle_key(typed(c), s, &mut history);
    }
    assert_eq!(t.handle_key(TerminalKey::Enter, s, &mut history), Some(b"\r".to_vec()));
    assert_eq!(t.buffer, b"AT\n");
    t.refresh_text(DisplayMode::Text, TextEncoding::Utf8, false);
    assert_eq!(text(&t), "# AT\n");
}

#[test]
fn terminal_paste_event_inserts_or_sends() {
    for enter_sends in [true, false] {
        let mut t = TerminalState::new();
        let mut history: Vec<String> = Vec::new();
        t.handle_key(typed("AB"), settings(enter_sends, true), &mut history);
        if enter_sends {
            assert_eq!(input(&t), "AB");
        } else {
            assert_eq!(t.buffer, b"AB");
        }
    }
}

#[test]
fn terminal_prompt_shows_timestamp_and_input_follows() {
    let mut d = DisplayState::new();
    let mut t = TerminalState::new();
    let mut history: Vec<String> = Vec::new();
    append_rx(&mut d, &mut t, b"OK\n", false);
    t.refresh_text(DisplayMode::Text, TextEncoding::Utf8, true);
    t.ensure_prompt(true);
    let prompt: String = t.prompt.iter().collect();
    assert!(prompt.starts_with('[') && prompt.ends_with("# "), "{prompt:?}");
    t.input_insert("AT");
    let shown: String = t.shown(true, false).iter().map(|r| r.text.as_str()).collect();
    assert!(shown.contains(&format!("{prompt}AT")), "{shown:?}");
    let s = TerminalSettings { enter_sends: true, auto_echo: true, show_timestamps: true, encoding: TextEncoding::Utf8 };
    t.handle_key(TerminalKey::Enter, s, &mut history);
    assert!(!t.prompt.is_empty());
}

#[test]
fn terminal_timestamp_markers_rendered_green() {
    let mut d = DisplayState::new();
    let mut t = TerminalState::new();
    append_rx(&mut d, &mut t, b"hello\n", false);
    t.refresh_text(DisplayMode::Text, TextEncoding::Utf8, true);
    let runs = t.shown(false, false);
    assert!(runs.iter().any(|r| r.fg == TermColor::Prompt && r.text.starts_with('[')));
    assert!(runs.iter().any(|r| r.fg == TermColor::Text && r.text.contains("hello")));
}

#[test]
fn immediate_backspace_sends_del_and_other_keys_do_nothing() {
    let mut t = TerminalState::new();
    let mut history: Vec<String> = Vec::new();
    let s = settings(false, false);
    assert_eq!(t.handle_key(TerminalKey::Backspace, s, &mut history), Some(vec![0x7f]));
    for k in [TerminalKey::Delete, TerminalKey::Left, TerminalKey::Up, TerminalKey::Home] {
        assert!(t.handle_key(k, s, &mut history).is_none());
    }
    assert!(t.handle_key(typed(""), s, &mut history).is_none());
}

#[test]
fn cursor_keys_move_within_the_line() {
    let mut t = TerminalState::new();
    let mut history: Vec<String> = Vec::new();
    let s = settings(true, false);
    t.handle_key(typed("abc"), s, &mut history);
    t.handle_key(TerminalKey::Home, s, &mut history);
    assert_eq!(t.cursor, 0);
    t.handle_key(TerminalKey::Left, s, &mut history);
    assert_eq!(t.cursor, 0);
    t.handle_key(TerminalKey::Right, s, &mut history);
    t.handle_key(TerminalKey::Delete, s, &mut history);
    assert_eq!(input(&t), "ac");
    t.handle_key(TerminalKey::End, s, &mut history);
    t.handle_key(TerminalKey::Right, s, &mut history);
    assert_eq!(t.cursor, 2);
    t.handle_key(TerminalKey::Backspace, s, &mut history);
    assert_eq!(input(&t), "a");
}

#[test]
fn enter_with_gbk_sends_encoded_line() {
    let mut t = TerminalState::new();
    let mut history: Vec<String> = Vec::new();
    let s = TerminalSettings { enter_sends: true, auto_echo: false, show_timestamps: true, encoding: TextEncoding::Gbk };
    t.handle_key(typed("中"), s, &mut history);
    assert_eq!(t.handle_key(TerminalKey::Enter, s, &mut history), Some(vec![0xD6, 0xD0, 0x0D]));
    let prompt: String = t.prompt.iter().collect();
    assert!(prompt.starts_with('[') && prompt.ends_with("]# "), "{prompt:?}");
}

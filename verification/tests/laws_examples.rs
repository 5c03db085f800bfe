use serial_tool::ansi::ansi_text_runs;
use serial_tool::codec::text::{decode, encode};
use serial_tool::config::{Config, SendQueue, TextEncoding};
use serial_tool::i18n::Language;
use serial_tool::ports::refresh_port_list;
use serial_tool::send::record_history;
use serial_tool::terminal::TerminalState;
use serial_tool::terminal_input::{TerminalKey, TerminalSettings};

#[test]
fn normalizing_twice_changes_nothing() {
    let mut c = Config {
        queues: vec![SendQueue::new("队列 1".to_string()), SendQueue::new("mine".to_string())],
        ..Config::with_language(Language::English)
    };
    c.normalize_queues();
    let names: Vec<String> = c.queues.iter().map(|q| q.name.clone()).collect();
    c.normalize_queues();
    let again: Vec<String> = c.queues.iter().map(|q| q.name.clone()).collect();
    assert_eq!(names, again);
    assert_eq!(names, vec!["Queue 1", "mine"]);
}

#[test]
fn history_never_repeats_and_stays_short() {
    let mut h: Vec<String> = Vec::new();
    for i in 0..60 {
        record_history(&mut h, &format!(" c{} ", i % 7));
        let mut sorted = h.clone();
        sorted.sort();
        sorted.dedup();
        assert_eq!(sorted.len(), h.len());
        assert!(h.len() <= 20);
        assert_eq!(h[0], format!("c{}", i % 7));
    }
}

#[test]
fn backspace_undoes_a_typed_character() {
    let mut t = TerminalState::new();
    t.input_insert("hello");
    t.cursor = 2;
    let before: String = t.input.iter().collect();
    t.input_insert("x");
    t.input_backspace();
    assert_eq!(t.input.iter().collect::<String>(), before);
    assert_eq!(t.cursor, 2);
}

#[test]
fn down_undoes_up() {
    let mut t = TerminalState::new();
    let s = TerminalSettings { enter_sends: true, auto_echo: false, show_timestamps: false, encoding: TextEncoding::Utf8 };
    let mut h = vec!["AT".to_string()];
    t.handle_key(TerminalKey::Text("draft".to_string()), s, &mut h);
    t.handle_key(TerminalKey::Up, s, &mut h);
    t.handle_key(TerminalKey::Down, s, &mut h);
    assert_eq!(t.input.iter().collect::<String>(), "draft");
    assert_eq!(t.history_index, None);
    assert_eq!(t.cursor, 5);
}

#[test]
fn chosen_port_is_always_listed() {
    let ports = vec![serial_tool::ports::PortInfo { port_name: "B".to_string(), usb: None }];
    for prev in ["A", "B", ""] {
        let mut p = prev.to_string();
        let list = refresh_port_list(&ports, &mut p);
        assert!(list.iter().any(|(_, n)| *n == p));
    }
}

#[test]
fn terminal_text_shows_no_control_characters() {
    let text: Vec<char> = "a\r\nb\rc\u{0}\u{7}\u{1b}[31md\u{1b}]x\u{8}\te\n".chars().collect();
    for r in ansi_text_runs(&text) {
        assert!(r.text.chars().all(|c| c == '\n' || c == '\t' || (c as u32) >= 0x20), "{:?}", r.text);
    }
}

#[test]
fn ascii_text_round_trips() {
    let t = "Hello, serial ~!";
    assert_eq!(decode(&encode(t, TextEncoding::Ascii), TextEncoding::Ascii), t);
}

/// Feeds the chunks to a terminal, refreshing after each one or only at the end.
fn terminal_after(chunks: &[&[u8]], enc: TextEncoding, refresh_each: bool) -> (String, Vec<(usize, usize)>) {
    let mut t = TerminalState::new();
    for c in chunks {
        t.append_bytes(c);
        if refresh_each {
            t.refresh_text(serial_tool::config::DisplayMode::Text, enc, false);
        }
    }
    t.refresh_text(serial_tool::config::DisplayMode::Text, enc, false);
    (t.text.iter().collect(), t.marker_spans.clone())
}

#[test]
fn terminal_text_is_the_same_refreshed_per_chunk_or_once() {
    let chunks: [&[u8]; 3] = [b"hel", b"lo\n", b"world"];
    for enc in [TextEncoding::Utf8, TextEncoding::Ascii, TextEncoding::Gbk] {
        let each = terminal_after(&chunks, enc, true);
        let once = terminal_after(&chunks, enc, false);
        assert_eq!(each, once);
        if enc == TextEncoding::Ascii {
            assert_eq!(each.0, "# hello\u{fffd}world");
        } else {
            assert_eq!(each.0, "# hello\n# world");
        }
    }
    let split: [&[u8]; 2] = [&[0xe4, 0xb8], &[0xad, b'\n', b'x']];
    let each = terminal_after(&split, TextEncoding::Utf8, true);
    assert_eq!(each, terminal_after(&split, TextEncoding::Utf8, false));
    assert_eq!(each.0, "# \u{4e2d}\n# x");
}

use serial_tool::config::{AddItemOutcome, ImportOutcome, LineEnding, QueueItem, SendMode, SendQueue};
use serial_tool::i18n::Language;
use serial_tool::send::{
    add_item_status, bytes_for, import_status, queue_export_name, record_history, send_current_input, shorten_file_name,
    start_queue_send, toggle_periodic, trimmed, QueueStart,
};
use serial_tool::session::Command;

fn item(mode: SendMode, content: &str, selected: bool) -> QueueItem {
    QueueItem { mode, content: content.to_string(), delay_ms: 7, selected }
}

#[test]
fn text_gets_the_line_ending_and_hex_does_not() {
    assert_eq!(bytes_for("AT", SendMode::Text, LineEnding::CRLF, Language::English).unwrap(), b"AT\r\n");
    assert_eq!(bytes_for("0D 0A", SendMode::Hex, LineEnding::CR, Language::English).unwrap(), vec![0x0D, 0x0A]);
    assert!(bytes_for("0G", SendMode::Hex, LineEnding::CR, Language::English).is_err());
}

#[test]
fn send_records_history_and_reports_bytes() {
    let mut h: Vec<String> = Vec::new();
    let r = send_current_input("  AT  ", SendMode::Text, LineEnding::LF, Language::English, &mut h);
    assert_eq!(r.write, Some(b"  AT  \n".to_vec()));
    assert_eq!(r.status.text, "Sent 7 bytes");
    assert!(!r.status.is_error);
    assert_eq!(h, vec!["AT"]);
    let r = send_current_input("", SendMode::Text, LineEnding::NoEnding, Language::English, &mut h);
    assert!(r.write.is_none() && r.status.is_error);
    assert_eq!(r.status.text, "Nothing to send");
    let r = send_current_input("zz", SendMode::Hex, LineEnding::NoEnding, Language::Chinese, &mut h);
    assert!(r.write.is_none() && r.status.is_error);
    assert_eq!(h, vec!["AT"]);
}

#[test]
fn history_moves_entries_to_the_front_and_keeps_twenty() {
    let mut h: Vec<String> = Vec::new();
    for i in 0..25 {
        record_history(&mut h, &format!("cmd{i}"));
    }
    assert_eq!(h.len(), 20);
    assert_eq!(h[0], "cmd24");
    record_history(&mut h, " cmd10 ");
    assert_eq!(h[0], "cmd10");
    assert_eq!(h.iter().filter(|x| x.as_str() == "cmd10").count(), 1);
    record_history(&mut h, "   ");
    assert_eq!(h[0], "cmd10");
}

#[test]
fn periodic_start_stop_and_refusals() {
    match toggle_periodic(true, "ping", SendMode::Text, LineEnding::CR, 500, Language::English) {
        Ok(Command::StartPeriodic { bytes, interval_ms }) => {
            assert_eq!(bytes, b"ping\r");
            assert_eq!(interval_ms, 500);
        }
        _ => panic!("periodic sending starts"),
    }
    assert!(matches!(
        toggle_periodic(false, "", SendMode::Text, LineEnding::CR, 500, Language::English),
        Ok(Command::StopPeriodic)
    ));
    let e = toggle_periodic(true, "", SendMode::Hex, LineEnding::CR, 500, Language::English).unwrap_err();
    assert_eq!(e, "Nothing to send periodically");
}

#[test]
fn queue_send_skips_unchecked_blank_and_empty_entries() {
    let mut q = SendQueue::new("Q".to_string());
    q.items = vec![
        item(SendMode::Text, "a", true),
        item(SendMode::Text, "b", false),
        item(SendMode::Text, "  ", true),
        item(SendMode::Hex, "01 02", true),
    ];
    match start_queue_send(&q, LineEnding::NoEnding, Language::English) {
        QueueStart::Start { command: Command::StartQueue { name, items }, note } => {
            assert_eq!(name, "Q");
            assert_eq!(items.len(), 2);
            assert_eq!(items[0].bytes, b"a");
            assert_eq!(items[1].bytes, vec![1, 2]);
            assert_eq!(items[1].delay_ms, 7);
            assert_eq!(note.as_deref(), Some("Skipped 2 unchecked or empty entries"));
        }
        _ => panic!("the queue starts"),
    }
}

#[test]
fn queue_send_stops_at_an_invalid_entry() {
    let mut q = SendQueue::new("Q".to_string());
    q.items = vec![item(SendMode::Text, "a", true), item(SendMode::Hex, "xyz", true)];
    match start_queue_send(&q, LineEnding::NoEnding, Language::English) {
        QueueStart::Invalid(m) => assert!(m.starts_with("Entry 2 is invalid: "), "{m}"),
        _ => panic!("the second entry is invalid"),
    }
}

#[test]
fn queue_send_alerts_when_nothing_can_be_sent() {
    let mut q = SendQueue::new("Q".to_string());
    q.items.clear();
    assert!(matches!(start_queue_send(&q, LineEnding::CR, Language::English), QueueStart::Alert(m) if m == "The queue has no entries"));
    q.items = vec![item(SendMode::Text, "x", false)];
    assert!(matches!(start_queue_send(&q, LineEnding::CR, Language::English), QueueStart::Alert(_)));
}

#[test]
fn queue_statuses() {
    let s = add_item_status(AddItemOutcome::QueueFull, Language::English);
    assert!(s.is_error);
    assert_eq!(s.text, "The queue is full");
    let s = import_status(ImportOutcome::ImportedSome { added: 3, skipped: 2 }, Language::English);
    assert_eq!(s.text, "Imported 3 entries, skipped 2 (over the limit)");
    assert!(!s.is_error);
    let s = import_status(ImportOutcome::LimitReached(200), Language::Chinese);
    assert_eq!(s.text, "队列已达上限（200 条）");
}

#[test]
fn config_file_panel_button_shows_selected_file_name() {
    assert_eq!(shorten_file_name("test.bin", 22), "test.bin");
}

#[test]
fn send_file_file_panel_button_shows_selected_file_name() {
    assert_eq!(shorten_file_name("test.bin", 22), "test.bin");
}

#[test]
fn file_names_are_shortened_from_the_front() {
    assert_eq!(shorten_file_name("short.bin", 20), "short.bin");
    assert_eq!(shorten_file_name("a_very_long_file_name.bin", 10), "\u{2026}_name.bin");
    assert_eq!(trimmed("  x y \t").iter().collect::<String>(), "x y");
}

#[test]
fn exported_queue_file_is_named_after_the_trimmed_queue_name() {
    assert_eq!(queue_export_name("  AT cmds \t", Language::English), "AT cmds");
    assert_eq!(queue_export_name("   ", Language::English), "queue");
    assert_eq!(queue_export_name("", Language::Chinese), "队列");
}

#[test]
fn hex_input_with_a_sign_or_non_ascii_is_refused_with_a_message() {
    let e = bytes_for("+1", SendMode::Hex, LineEnding::NoEnding, Language::English).unwrap_err();
    assert!(e.contains("+1"));
    assert!(bytes_for("中中", SendMode::Hex, LineEnding::NoEnding, Language::English).is_err());
}

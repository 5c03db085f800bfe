use serial_tool::config::{FileSendMode, LineEnding, QueueItem, SendMode, SendQueue, TextEncoding};
use serial_tool::i18n::{language_for_locale, Language};
use serial_tool::receive::log_entry;
use serial_tool::send::{start_file_command, start_queue_send, QueueStart};
use serial_tool::session::{read_failed_events, Command, Event};
use serial_tool::strs::parse_unsigned;

#[test]
fn file_sending_needs_a_chosen_file() {
    let e = start_file_command(None, FileSendMode::WholeFile, LineEnding::CR, 5, Language::English).unwrap_err();
    assert_eq!(e, "Choose a file first");
    match start_file_command(Some("/tmp/a.bin".to_string()), FileSendMode::LineByLine, LineEnding::CRLF, 5, Language::English) {
        Ok(Command::StartFile { path, mode, line_ending, line_interval_ms }) => {
            assert_eq!(path, "/tmp/a.bin");
            assert_eq!(mode, FileSendMode::LineByLine);
            assert_eq!(line_ending, b"\r\n");
            assert_eq!(line_interval_ms, 5);
        }
        _ => panic!("file sending starts"),
    }
}

#[test]
fn a_failed_read_disconnects() {
    let ev = read_failed_events(Language::English, "gone");
    assert_eq!(ev.len(), 2);
    assert!(matches!(&ev[0], Event::Error(m) if m.contains("gone")));
    assert!(matches!(ev[1], Event::Disconnected));
}

#[test]
fn log_entries_are_decoded_lines() {
    assert_eq!(log_entry(b"OK", TextEncoding::Ascii), "OK\n");
    assert_eq!(log_entry(&[0xD6, 0xD0], TextEncoding::Gbk), "中\n");
}

#[test]
fn locale_picks_the_language() {
    assert_eq!(language_for_locale("zh_CN.UTF-8"), Language::Chinese);
    assert_eq!(language_for_locale("ZH"), Language::Chinese);
    assert_eq!(language_for_locale("en_US.UTF-8"), Language::English);
    assert_eq!(language_for_locale(""), Language::English);
}

#[test]
fn unsigned_numbers_read_like_parse() {
    let chars = |s: &str| s.chars().collect::<Vec<char>>();
    assert_eq!(parse_unsigned(&chars("65535"), 65535), Some(65535));
    assert_eq!(parse_unsigned(&chars("65536"), 65535), None);
    assert_eq!(parse_unsigned(&chars("+"), 65535), None);
    assert_eq!(parse_unsigned(&chars("-1"), 65535), None);
    assert_eq!(parse_unsigned(&chars("007"), 65535), Some(7));
}

#[test]
fn queue_reading_stops_at_the_first_invalid_entry() {
    let mut q = SendQueue::new("Q".to_string());
    q.items = vec![
        QueueItem { mode: SendMode::Hex, content: "01".to_string(), delay_ms: 0, selected: true },
        QueueItem { mode: SendMode::Hex, content: "zz".to_string(), delay_ms: 0, selected: true },
    ];
    match start_queue_send(&q, LineEnding::NoEnding, Language::English) {
        QueueStart::Invalid(m) => assert!(m.contains('2')),
        _ => panic!("the second entry is invalid"),
    }
}

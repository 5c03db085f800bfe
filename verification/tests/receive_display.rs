use serial_tool::config::{DisplayMode, TextEncoding};
use serial_tool::display::{marker_without_timestamp, DisplayState, DATA_DISPLAY_CAP};
use serial_tool::receive::{append_rx, append_tx, data_marker};
use serial_tool::terminal::TerminalState;

struct Area {
    display: DisplayState,
    terminal: TerminalState,
    mode: DisplayMode,
    show_timestamps: bool,
}

impl Area {
    fn new() -> Self {
        Area { display: DisplayState::new(), terminal: TerminalState::new(), mode: DisplayMode::Text, show_timestamps: true }
    }
    fn rx(&mut self, bytes: &[u8]) {
        append_rx(&mut self.display, &mut self.terminal, bytes, false);
    }
    fn tx(&mut self, bytes: &[u8]) {
        append_tx(&mut self.display, bytes, false);
    }
    fn refresh(&mut self) {
        self.display.refresh(self.mode, TextEncoding::Utf8, self.show_timestamps);
    }
    fn cache(&self) -> String {
        self.display.cache.clone()
    }
}

fn utf8_split() {
    let mut a = Area::new();
    a.rx(&[0xE4, 0xB8]);
    a.refresh();
    a.rx(&[0xAD, 0x21]);
    a.refresh();
    assert!(a.cache().starts_with('['));
    assert!(a.cache().contains("[RX] 中!"));
}

#[test]
fn receive_utf8_char_split_across_batches_not_corrupted() {
    utf8_split();
}

#[test]
fn data_utf8_char_split_across_batches_not_corrupted() {
    utf8_split();
}

#[test]
fn display_cache_omits_timestamps_when_disabled() {
    let mut a = Area::new();
    a.show_timestamps = false;
    a.rx(b"hi");
    a.refresh();
    assert!(a.cache().starts_with("[RX] hi"));
    assert!(!a.cache().contains("] ["));
}

fn mode_switch() {
    let mut a = Area::new();
    a.rx(&[0x01, 0x0A, 0xFF]);
    a.refresh();
    assert!(a.cache().ends_with("\u{1}\n\u{FFFD}"));
    a.mode = DisplayMode::Hex;
    a.display.cache_invalid = true;
    a.display.dirty = true;
    a.refresh();
    assert!(a.cache().ends_with("01 0A FF"));
}

#[test]
fn receive_mode_switch_rebuilds_cache() {
    mode_switch();
}

#[test]
fn data_mode_switch_rebuilds_cache() {
    mode_switch();
}

fn buffer_trim() {
    let mut a = Area::new();
    let chunk = vec![b'A'; 4096];
    for _ in 0..(DATA_DISPLAY_CAP * 2 / 4096 + 2) {
        a.rx(&chunk);
    }
    assert!(a.display.cache_invalid);
    assert!(a.display.data.len() <= DATA_DISPLAY_CAP + 16 * 1024);
    a.refresh();
    assert!(a.display.cache.len() <= DATA_DISPLAY_CAP + 16 * 1024);
    assert!(a.display.cache.ends_with('A'));
}

#[test]
fn receive_buffer_trim_invalidates_and_keeps_tail() {
    buffer_trim();
}

#[test]
fn data_buffer_trim_invalidates_and_keeps_tail() {
    buffer_trim();
}

fn rx_tx_separated() {
    let mut a = Area::new();
    a.rx(b"hello");
    a.tx(b"world");
    a.refresh();
    let cache = a.cache();
    let lines: Vec<&str> = cache.lines().collect();
    assert_eq!(lines.len(), 2);
    assert!(lines[0].contains("[RX] hello"));
    assert!(lines[1].contains("[TX] world"));
}

#[test]
fn receive_rx_tx_segments_are_separated_by_newline() {
    rx_tx_separated();
}

#[test]
fn data_rx_tx_segments_are_separated_by_newline() {
    rx_tx_separated();
}

fn timestamp_newline() {
    let mut a = Area::new();
    a.rx(b"ok\n");
    a.tx(b"next");
    a.refresh();
    let cache = a.cache();
    let lines: Vec<&str> = cache.lines().collect();
    assert_eq!(lines.len(), 3);
    assert!(lines[0].contains("[RX] ok"));
    assert!(lines[1].is_empty());
    assert!(lines[2].contains("[TX] next"));
}

#[test]
fn receive_timestamp_always_preceded_by_newline() {
    timestamp_newline();
}

#[test]
fn data_timestamp_always_preceded_by_newline() {
    timestamp_newline();
}

#[test]
fn terminal_buffer_tracks_rx_only() {
    let mut a = Area::new();
    a.rx(b"hello");
    a.tx(b"world");
    assert_eq!(a.terminal.buffer, b"hello");
}

#[test]
fn paused_batches_are_dropped() {
    let mut a = Area::new();
    append_rx(&mut a.display, &mut a.terminal, b"lost", true);
    append_tx(&mut a.display, b"lost", true);
    assert!(a.display.data.is_empty() && a.display.segments.is_empty());
    assert!(a.terminal.buffer.is_empty());
}

#[test]
fn markers_carry_time_and_direction() {
    let m = data_marker(true);
    assert_eq!(m.len(), "[12:34:56.789] [RX] ".len());
    assert!(m.starts_with('[') && m.ends_with("] [RX] "));
    assert_eq!(marker_without_timestamp(&m), "[RX] ");
    let m = data_marker(false);
    assert!(m.ends_with("] [TX] "));
    assert_eq!(marker_without_timestamp("[TX] "), "[TX] ");
}

#[test]
fn hex_mode_shows_each_batch_in_hex() {
    let mut a = Area::new();
    a.mode = DisplayMode::Hex;
    a.show_timestamps = false;
    a.rx(&[0xDE, 0xAD]);
    a.tx(&[0x01]);
    a.refresh();
    assert_eq!(a.cache(), "[RX] DE AD\n[TX] 01");
}

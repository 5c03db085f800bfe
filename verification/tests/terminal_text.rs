use serial_tool::ansi::{ansi_text_runs, TermColor, TermRun};
use serial_tool::config::{DisplayMode, TextEncoding};
use serial_tool::display::DisplayState;
use serial_tool::receive::append_rx;
use serial_tool::terminal::TerminalState;

struct Term {
    display: DisplayState,
    t: TerminalState,
    mode: DisplayMode,
    show_timestamps: bool,
}

impl Term {
    fn new() -> Self {
        Term { display: DisplayState::new(), t: TerminalState::new(), mode: DisplayMode::Text, show_timestamps: false }
    }
    fn rx(&mut self, bytes: &[u8]) {
        append_rx(&mut self.display, &mut self.t, bytes, false);
    }
    fn refresh(&mut self) {
        self.t.refresh_text(self.mode, TextEncoding::Utf8, self.show_timestamps);
    }
    fn text(&self) -> String {
        self.t.text.iter().collect()
    }
}

fn runs(text: &str) -> Vec<TermRun> {
    let chars: Vec<char> = text.chars().collect();
    ansi_text_runs(&chars)
}

fn joined(r: &[TermRun]) -> String {
    r.iter().map(|x| x.text.as_str()).collect()
}

#[test]
fn terminal_text_builds_without_timestamps_when_disabled() {
    let mut a = Term::new();
    a.rx(b"hello\n");
    a.refresh();
    assert_eq!(a.text(), "# hello\n");
    assert!(!a.text().contains("[RX]"));
    assert!(!a.text().contains('['));
    assert_eq!(a.t.marker_spans.len(), 1);
}

#[test]
fn terminal_text_includes_timestamps_when_enabled() {
    let mut a = Term::new();
    a.show_timestamps = true;
    a.rx(b"hello\n");
    a.refresh();
    let text = a.text();
    assert!(text.starts_with('[') && text.contains("]# hello\n"), "{text:?}");
    assert!(!text.contains("[RX]") && !text.contains("[TX]"), "{text:?}");
    a.show_timestamps = false;
    a.t.cache_invalid = true;
    a.refresh();
    assert_eq!(a.text(), "# hello\n");
}

#[test]
fn terminal_text_preserves_stream_without_batch_newlines() {
    let mut a = Term::new();
    a.rx(b"hel");
    a.refresh();
    a.rx(b"lo\n");
    a.refresh();
    assert_eq!(a.text(), "# hello\n");
    a.rx(b"world");
    a.refresh();
    assert_eq!(a.text(), "# hello\n# world");
}

#[test]
fn terminal_text_prefixes_every_real_line_when_timestamps_enabled() {
    let mut a = Term::new();
    a.show_timestamps = true;
    a.rx(b"a\nb\n\nc");
    a.refresh();
    let text = a.text();
    assert!(text.starts_with('[') && text.contains("]# a\n"), "{text:?}");
    assert!(text.contains("\n[") && text.contains("]# b\n\n["), "{text:?}");
    assert_eq!(a.t.marker_spans.len(), 3, "{text:?}");
}

#[test]
fn terminal_text_hex_mode() {
    let mut a = Term::new();
    a.mode = DisplayMode::Hex;
    a.rx(&[0x01, 0x0A, 0xFF]);
    a.refresh();
    assert!(a.text().contains("01 0A FF"));
}

#[test]
fn terminal_job_parses_ansi_colors() {
    let r = runs("\u{1b}[1;31mred\u{1b}[0mplain");
    assert_eq!(joined(&r), "redplain");
    assert_eq!(r.len(), 2);
    assert_eq!(r[0].fg, TermColor::Bright(1));
    assert_eq!(r[0].bg, TermColor::Transparent);
    assert_eq!(r[1].fg, TermColor::Text);
}

#[test]
fn terminal_job_hides_other_csi_sequences() {
    let r = runs("a\u{1b}[2Jb\u{1b}[32mc");
    assert_eq!(joined(&r), "abc");
    assert_eq!(r.len(), 2);
    assert_eq!(r[0].fg, TermColor::Text);
    assert_eq!(r[1].fg, TermColor::Normal(2));
}

#[test]
fn terminal_job_crlf_produces_single_linebreak() {
    assert_eq!(joined(&runs("a\r\nb")), "a\nb");
    assert_eq!(joined(&runs("a\rb")), "a\nb");
    assert_eq!(joined(&runs("a\r\n\r\nb")), "a\n\nb");
}

#[test]
fn ansi_backgrounds_bright_colors_and_resets() {
    let r = runs("\u{1b}[44;93mx\u{1b}[49my\u{1b}[39mz\u{1b}[101;1;37mw");
    assert_eq!(r.len(), 4);
    assert_eq!((r[0].fg, r[0].bg), (TermColor::Bright(3), TermColor::Normal(4)));
    assert_eq!((r[1].fg, r[1].bg), (TermColor::Bright(3), TermColor::Transparent));
    assert_eq!((r[2].fg, r[2].bg), (TermColor::Text, TermColor::Transparent));
    assert_eq!((r[3].fg, r[3].bg), (TermColor::Bright(7), TermColor::Bright(1)));
}

#[test]
fn ansi_leading_zero_and_plus_params() {
    // "01" is not the literal "1" and reads as the number 1, which sets nothing;
    // "+32" reads as 32.
    let r = runs("\u{1b}[01;31ma\u{1b}[+32mb\u{1b}[mc");
    assert_eq!(r[0].fg, TermColor::Normal(1));
    assert_eq!(r[1].fg, TermColor::Normal(2));
    assert_eq!(r[2].fg, TermColor::Text);
}

#[test]
fn ansi_control_chars_and_two_char_escapes_hidden() {
    assert_eq!(joined(&runs("a\u{7}b\tc\u{1b}=d\u{1b}")), "ab\tcd");
    assert!(runs("").is_empty());
}

#[test]
fn shown_runs_put_prefixes_in_prompt_color_and_input_after() {
    let mut a = Term::new();
    a.rx(b"\x1b[32mOK\x1b[0m\n");
    a.refresh();
    a.t.ensure_prompt(false);
    a.t.input_insert("AT");
    let r = a.t.shown(true, true);
    let texts: Vec<&str> = r.iter().map(|x| x.text.as_str()).collect();
    assert_eq!(texts, vec!["# ", "OK", "\n", "# ", "AT", " "]);
    assert_eq!(r[0].fg, TermColor::Prompt);
    assert_eq!(r[1].fg, TermColor::Normal(2));
    assert_eq!(r[3].fg, TermColor::Prompt);
    assert_eq!(r[4].fg, TermColor::Text);
    assert_eq!((r[5].fg, r[5].bg), (TermColor::Prompt, TermColor::Prompt));
}

#[test]
fn shown_runs_start_a_new_line_for_the_prompt() {
    let mut a = Term::new();
    a.rx(b"partial");
    a.refresh();
    a.t.ensure_prompt(false);
    let r = a.t.shown(true, false);
    let texts: Vec<&str> = r.iter().map(|x| x.text.as_str()).collect();
    assert_eq!(texts, vec!["# ", "partial\n", "# "]);
    let r = a.t.shown(false, false);
    let texts: Vec<&str> = r.iter().map(|x| x.text.as_str()).collect();
    assert_eq!(texts, vec!["# ", "partial"]);
}

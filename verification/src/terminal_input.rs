//! Keyboard input in terminal mode: the input line (insert, delete, cursor moves),
//! browsing the send history, and what a key sends to the port.
use vstd::prelude::*;
use crate::codec::text::{encode, encode_fits, encoded_bytes};
use crate::config::TextEncoding;
use crate::send::{history_after, record_history, texts};
use crate::strs::{chars_of, string_from_chars, utf8_len};
use crate::terminal::{is_line_prefix, line_prefix, TerminalState, TERMINAL_BUF_CAP};

verus! {

/// A key (or typed text) that reaches the focused terminal.
pub enum TerminalKey {
    Text(String),
    Enter,
    Backspace,
    Delete,
    Left,
    Right,
    Up,
    Down,
    Home,
    End,
}

/// The settings that decide what a key does.
#[derive(Clone, Copy)]
pub struct TerminalSettings {
    /// Keys edit an input line that Enter sends; otherwise each key is sent at once.
    pub enter_sends: bool,
    /// What is sent is also shown in the terminal.
    pub auto_echo: bool,
    pub show_timestamps: bool,
    pub encoding: TextEncoding,
}

/// The shown stream is left as it was.
pub open spec fn display_kept(a: TerminalState, b: TerminalState) -> bool {
    &&& b.buffer@ == a.buffer@
    &&& b.text@ == a.text@
    &&& b.marker_spans@ == a.marker_spans@
    &&& b.decoder == a.decoder
    &&& b.cache_invalid == a.cache_invalid
    &&& b.decoded_len == a.decoded_len
}

/// The input line, its cursor, the prompt and the history position are left as they were.
pub open spec fn input_kept(a: TerminalState, b: TerminalState) -> bool {
    &&& b.prompt@ == a.prompt@
    &&& b.input@ == a.input@
    &&& b.cursor == a.cursor
    &&& b.history_index == a.history_index
    &&& b.history_draft@ == a.history_draft@
}

/// `b` is `a` after `bytes` were appended to the terminal stream (see
/// [`TerminalState::append_bytes`]).
pub open spec fn appended(a: TerminalState, bytes: Seq<u8>, b: TerminalState) -> bool {
    let full = a.buffer@ + bytes;
    &&& b.text@ == a.text@
    &&& b.marker_spans@ == a.marker_spans@
    &&& b.decoder == a.decoder
    &&& if bytes.len() == 0 {
        display_kept(a, b)
    } else {
        &&& if full.len() > TERMINAL_BUF_CAP {
            &&& b.buffer@ == full.skip(full.len() - TERMINAL_BUF_CAP)
            &&& b.cache_invalid
        } else {
            &&& b.buffer@ == full
            &&& b.cache_invalid == a.cache_invalid
        }
        &&& b.decoded_len == if a.decoded_len < b.buffer@.len() {
            a.decoded_len
        } else {
            b.buffer@.len() as usize
        }
    }
}

/// With echo on, what was sent is appended to the stream; otherwise the stream is kept.
pub open spec fn echoed(a: TerminalState, bytes: Seq<u8>, b: TerminalState, echo: bool) -> bool {
    if echo { appended(a, bytes, b) } else { display_kept(a, b) }
}

/// The cursor position, held to the input line.
pub open spec fn cursor_pos(t: TerminalState) -> int {
    if t.cursor <= t.input@.len() { t.cursor as int } else { t.input@.len() as int }
}

/// The history position points into the history.
pub open spec fn history_index_ok(t: TerminalState, history: Seq<String>) -> bool {
    t.history_index matches Some(i) ==> i < history.len()
}

/// `b` has the text inserted at the cursor of `a`, and the cursor past it.
pub open spec fn inserted(a: TerminalState, text: Seq<char>, b: TerminalState) -> bool {
    if text.len() == 0 {
        input_kept(a, b)
    } else {
        let idx = cursor_pos(a);
        &&& b.input@ == a.input@.take(idx) + text + a.input@.skip(idx)
        &&& b.cursor == idx + text.len()
        &&& b.prompt@ == a.prompt@
        &&& b.history_index == a.history_index
        &&& b.history_draft@ == a.history_draft@
    }
}

/// `b` is `a` after Backspace in the input line.
pub open spec fn backspaced(a: TerminalState, b: TerminalState) -> bool {
    if a.cursor == 0 || a.input@.len() == 0 {
        input_kept(a, b)
    } else {
        let idx = cursor_pos(a);
        &&& b.input@ == a.input@.take(idx - 1) + a.input@.skip(idx)
        &&& b.cursor == idx - 1
        &&& b.prompt@ == a.prompt@
        &&& b.history_index == a.history_index
        &&& b.history_draft@ == a.history_draft@
    }
}

/// `b` is `a` after Delete in the input line.
pub open spec fn deleted(a: TerminalState, b: TerminalState) -> bool {
    if a.cursor >= a.input@.len() {
        input_kept(a, b)
    } else {
        &&& b.input@ == a.input@.remove(a.cursor as int)
        &&& b.cursor == a.cursor
        &&& b.prompt@ == a.prompt@
        &&& b.history_index == a.history_index
        &&& b.history_draft@ == a.history_draft@
    }
}

/// `b` has the cursor of `a` at `c`, the rest of the input state kept.
pub open spec fn cursor_moved(a: TerminalState, c: int, b: TerminalState) -> bool {
    &&& b.cursor == c
    &&& b.prompt@ == a.prompt@
    &&& b.input@ == a.input@
    &&& b.history_index == a.history_index
    &&& b.history_draft@ == a.history_draft@
}

/// `b` is `a` after Up (see [`TerminalState::history_older`]).
pub open spec fn went_older(a: TerminalState, h: Seq<String>, b: TerminalState) -> bool {
    &&& b.prompt@ == a.prompt@
    &&& if h.len() == 0 {
        input_kept(a, b)
    } else {
        match a.history_index {
            None => {
                &&& b.history_draft@ == a.input@
                &&& b.history_index == Some(0usize)
                &&& b.input@ == h[0]@
                &&& b.cursor == h[0]@.len()
            },
            Some(i) => if i + 1 < h.len() {
                &&& b.history_draft@ == a.history_draft@
                &&& b.history_index == Some((i + 1) as usize)
                &&& b.input@ == h[i + 1]@
                &&& b.cursor == h[i + 1]@.len()
            } else {
                input_kept(a, b)
            },
        }
    }
}

/// `b` is `a` after Down (see [`TerminalState::history_newer`]).
pub open spec fn went_newer(a: TerminalState, h: Seq<String>, b: TerminalState) -> bool {
    &&& b.prompt@ == a.prompt@
    &&& match a.history_index {
        None => input_kept(a, b),
        Some(i) => if i == 0 {
            &&& b.history_index is None
            &&& b.input@ == a.history_draft@
            &&& b.history_draft@.len() == 0
            &&& b.cursor == a.history_draft@.len()
        } else {
            &&& b.history_index == Some((i - 1) as usize)
            &&& b.input@ == h[i - 1]@
            &&& b.cursor == h[i - 1]@.len()
            &&& b.history_draft@ == a.history_draft@
        },
    }
}

/// `w` sends exactly `bytes`.
pub open spec fn sends(w: Option<Vec<u8>>, bytes: Seq<u8>) -> bool {
    w matches Some(v) && v@ == bytes
}

/// Enter with an input line: the line is sent with CR, recorded in the history, echoed
/// with a line break, and a fresh prompt starts an empty input line.
pub open spec fn line_sent(
    a: TerminalState,
    h: Seq<String>,
    s: TerminalSettings,
    b: TerminalState,
    h2: Seq<String>,
    w: Option<Vec<u8>>,
) -> bool {
    let lb = encoded_bytes(a.input@, s.encoding);
    &&& sends(w, lb.push(13u8))
    &&& texts(h2) == history_after(texts(h), a.input@)
    &&& b.input@.len() == 0
    &&& b.cursor == 0
    &&& b.history_index is None
    &&& b.history_draft@.len() == 0
    &&& is_line_prefix(b.prompt@, s.show_timestamps)
    &&& echoed(a, lb.push(10u8), b, s.auto_echo)
}

/// What a key does to the terminal `a` and the send history `h`, giving `b`, `h2` and the
/// bytes `w` to write.  With an input line, keys edit it and Enter sends it; without, text
/// is sent as typed, Enter sends CR (and echoes a line break), Backspace sends DEL, and the
/// other keys do nothing.
pub open spec fn key_effect(
    a: TerminalState,
    h: Seq<String>,
    key: TerminalKey,
    s: TerminalSettings,
    b: TerminalState,
    h2: Seq<String>,
    w: Option<Vec<u8>>,
) -> bool {
    let unchanged = w is None && h2 == h && display_kept(a, b) && input_kept(a, b);
    if s.enter_sends {
        match key {
            TerminalKey::Enter => line_sent(a, h, s, b, h2, w),
            _ => {
                &&& w is None
                &&& h2 == h
                &&& display_kept(a, b)
                &&& match key {
                    TerminalKey::Text(t) => inserted(a, t@, b),
                    TerminalKey::Backspace => backspaced(a, b),
                    TerminalKey::Delete => deleted(a, b),
                    TerminalKey::Left => cursor_moved(a, if a.cursor > 0 { a.cursor - 1 } else { 0 }, b),
                    TerminalKey::Right => cursor_moved(
                        a,
                        if a.cursor < a.input@.len() { a.cursor + 1 } else { a.input@.len() as int },
                        b,
                    ),
                    TerminalKey::Home => cursor_moved(a, 0, b),
                    TerminalKey::End => cursor_moved(a, a.input@.len() as int, b),
                    TerminalKey::Up => went_older(a, h, b),
                    TerminalKey::Down => went_newer(a, h, b),
                    TerminalKey::Enter => false,
                }
            },
        }
    } else {
        match key {
            TerminalKey::Text(t) => {
                let e = encoded_bytes(t@, s.encoding);
                if t@.len() == 0 || e.len() == 0 {
                    unchanged
                } else {
                    &&& sends(w, e)
                    &&& h2 == h
                    &&& input_kept(a, b)
                    &&& echoed(a, e, b, s.auto_echo)
                }
            },
            TerminalKey::Enter => {
                &&& sends(w, seq![13u8])
                &&& h2 == h
                &&& input_kept(a, b)
                &&& echoed(a, seq![10u8], b, s.auto_echo)
            },
            TerminalKey::Backspace => {
                &&& sends(w, seq![0x7fu8])
                &&& h2 == h
                &&& input_kept(a, b)
                &&& echoed(a, seq![0x7fu8], b, s.auto_echo)
            },
            _ => unchanged,
        }
    }
}

/// The bytes followed by one more.
fn bytes_then(v: &[u8], last: u8) -> (r: Vec<u8>)
    ensures
        r@ == v@.push(last),
{
    let mut r = vstd::slice::slice_to_vec(v);
    r.push(last);
    r
}

/// `a[..at] + ins + a[from..]`.
fn splice(a: &Vec<char>, at: usize, ins: &[char], from: usize) -> (r: Vec<char>)
    requires
        at <= a@.len(),
        from <= a@.len(),
    ensures
        r@ == a@.take(at as int) + ins@ + a@.skip(from as int),
{
    let mut r: Vec<char> = Vec::new();
    let mut i: usize = 0;
    while i < at
        invariant
            i <= at <= a@.len(),
            r@ == a@.take(i as int),
        decreases at - i,
    {
        r.push(a[i]);
        i = i + 1;
        assert(r@ =~= a@.take(i as int));
    }
    let mut j: usize = 0;
    while j < ins.len()
        invariant
            j <= ins@.len(),
            r@ == a@.take(at as int) + ins@.take(j as int),
        decreases ins@.len() - j,
    {
        r.push(ins[j]);
        j = j + 1;
        assert(r@ =~= a@.take(at as int) + ins@.take(j as int));
    }
    assert(ins@.take(ins@.len() as int) =~= ins@);
    let mut k: usize = from;
    while k < a.len()
        invariant
            from <= k <= a@.len(),
            r@ == a@.take(at as int) + ins@ + a@.subrange(from as int, k as int),
        decreases a@.len() - k,
    {
        r.push(a[k]);
        k = k + 1;
        assert(r@ =~= a@.take(at as int) + ins@ + a@.subrange(from as int, k as int));
    }
    assert(a@.subrange(from as int, a@.len() as int) =~= a@.skip(from as int));
    r
}

impl TerminalState {
    /// Inserts text into the input line at the cursor and moves the cursor past it.
    pub fn input_insert(&mut self, text: &str)
        requires
            old(self).input@.len() + text@.len() <= usize::MAX,
        ensures
            display_kept(*old(self), *final(self)),
            final(self).prompt@ == old(self).prompt@,
            final(self).history_index == old(self).history_index,
            final(self).history_draft@ == old(self).history_draft@,
            text@.len() == 0 ==> input_kept(*old(self), *final(self)),
            text@.len() > 0 ==> {
                let idx = cursor_pos(*old(self));
                &&& final(self).input@ == old(self).input@.take(idx) + text@ + old(self).input@.skip(idx)
                &&& final(self).cursor == idx + text@.len()
            },
    {
        let chars = chars_of(text);
        if chars.len() == 0 {
            return;
        }
        let n = self.input.len();
        let idx = if self.cursor <= n { self.cursor } else { n };
        let out = splice(&self.input, idx, chars.as_slice(), idx);
        self.input = out;
        self.cursor = idx + chars.len();
    }

    /// Backspace: removes the character before the cursor.
    pub fn input_backspace(&mut self)
        ensures
            display_kept(*old(self), *final(self)),
            final(self).prompt@ == old(self).prompt@,
            final(self).history_index == old(self).history_index,
            final(self).history_draft@ == old(self).history_draft@,
            if old(self).cursor == 0 || old(self).input@.len() == 0 {
                input_kept(*old(self), *final(self))
            } else {
                let idx = cursor_pos(*old(self));
                &&& final(self).input@ == old(self).input@.take(idx - 1) + old(self).input@.skip(idx)
                &&& final(self).cursor == idx - 1
            },
    {
        let n = self.input.len();
        if self.cursor == 0 || n == 0 {
            return;
        }
        let idx = if self.cursor <= n { self.cursor } else { n };
        let none: Vec<char> = Vec::new();
        let out = splice(&self.input, idx - 1, none.as_slice(), idx);
        proof {
            assert(out@ =~= old(self).input@.take(idx - 1) + old(self).input@.skip(idx as int));
        }
        self.input = out;
        self.cursor = idx - 1;
    }

    /// Delete: removes the character at the cursor.
    pub fn input_delete(&mut self)
        ensures
            display_kept(*old(self), *final(self)),
            final(self).prompt@ == old(self).prompt@,
            final(self).history_index == old(self).history_index,
            final(self).history_draft@ == old(self).history_draft@,
            final(self).cursor == old(self).cursor,
            if old(self).cursor >= old(self).input@.len() {
                input_kept(*old(self), *final(self))
            } else {
                final(self).input@ == old(self).input@.remove(old(self).cursor as int)
            },
    {
        let n = self.input.len();
        if self.cursor >= n {
            return;
        }
        let idx = self.cursor;
        let none: Vec<char> = Vec::new();
        let out = splice(&self.input, idx, none.as_slice(), idx + 1);
        proof {
            assert(out@ =~= old(self).input@.remove(idx as int));
        }
        self.input = out;
    }

    /// Up: steps to the next older history entry; the first step keeps the input line as
    /// a draft and shows the newest entry.
    pub fn history_older(&mut self, history: &Vec<String>)
        requires
            history_index_ok(*old(self), history@),
        ensures
            display_kept(*old(self), *final(self)),
            final(self).prompt@ == old(self).prompt@,
            history_index_ok(*final(self), history@),
            history@.len() == 0 ==> input_kept(*old(self), *final(self)),
            history@.len() > 0 ==> match old(self).history_index {
                None => {
                    &&& final(self).history_draft@ == old(self).input@
                    &&& final(self).history_index == Some(0usize)
                    &&& final(self).input@ == history@[0]@
                    &&& final(self).cursor == history@[0]@.len()
                },
                Some(i) => if i + 1 < history@.len() {
                    &&& final(self).history_draft@ == old(self).history_draft@
                    &&& final(self).history_index == Some((i + 1) as usize)
                    &&& final(self).input@ == history@[i + 1]@
                    &&& final(self).cursor == history@[i + 1]@.len()
                } else {
                    input_kept(*old(self), *final(self))
                },
            },
    {
        if history.len() == 0 {
            return;
        }
        let i: usize = match self.history_index {
            None => {
                let mut draft: Vec<char> = Vec::new();
                std::mem::swap(&mut draft, &mut self.input);
                self.history_draft = draft;
                0
            },
            Some(i) => {
                if i + 1 < history.len() {
                    i + 1
                } else {
                    return;
                }
            },
        };
        self.history_index = Some(i);
        let line = chars_of(history[i].as_str());
        self.cursor = line.len();
        self.input = line;
    }

    /// Down: steps to the next newer history entry; past the newest one the draft comes
    /// back.
    pub fn history_newer(&mut self, history: &Vec<String>)
        requires
            history_index_ok(*old(self), history@),
        ensures
            display_kept(*old(self), *final(self)),
            final(self).prompt@ == old(self).prompt@,
            history_index_ok(*final(self), history@),
            match old(self).history_index {
                None => input_kept(*old(self), *final(self)),
                Some(i) => if i == 0 {
                    &&& final(self).history_index is None
                    &&& final(self).input@ == old(self).history_draft@
                    &&& final(self).history_draft@.len() == 0
                    &&& final(self).cursor == old(self).history_draft@.len()
                } else {
                    &&& final(self).history_index == Some((i - 1) as usize)
                    &&& final(self).input@ == history@[i - 1]@
                    &&& final(self).cursor == history@[i - 1]@.len()
                    &&& final(self).history_draft@ == old(self).history_draft@
                },
            },
    {
        match self.history_index {
            None => {},
            Some(i) => {
                if i == 0 {
                    self.history_index = None;
                    let mut draft: Vec<char> = Vec::new();
                    std::mem::swap(&mut draft, &mut self.history_draft);
                    self.cursor = draft.len();
                    self.input = draft;
                } else {
                    let j = i - 1;
                    self.history_index = Some(j);
                    let line = chars_of(history[j].as_str());
                    self.cursor = line.len();
                    self.input = line;
                }
            },
        }
    }
}

impl TerminalState {
    /// Sends bytes typed without an input line, echoing them when echo is on.
    fn send_bytes(&mut self, bytes: Vec<u8>, echo: bool) -> (w: Option<Vec<u8>>)
        requires
            old(self).wf(),
        ensures
            final(self).wf(),
            input_kept(*old(self), *final(self)),
            bytes@.len() == 0 ==> w is None && display_kept(*old(self), *final(self)),
            bytes@.len() > 0 ==> sends(w, bytes@) && echoed(*old(self), bytes@, *final(self), echo),
    {
        if bytes.len() == 0 {
            return None;
        }
        if echo {
            self.append_bytes(bytes.as_slice());
        }
        Some(bytes)
    }

    /// Enter with an input line.
    fn send_line(&mut self, s: TerminalSettings, history: &mut Vec<String>) -> (w: Option<Vec<u8>>)
        requires
            old(self).wf(),
            s.encoding == TextEncoding::Gbk ==> encode_fits(utf8_len(old(self).input@) as int),
        ensures
            final(self).wf(),
            line_sent(*old(self), old(history)@, s, *final(self), final(history)@, w),
    {
        let mut line_chars: Vec<char> = Vec::new();
        std::mem::swap(&mut line_chars, &mut self.input);
        self.cursor = 0;
        self.history_index = None;
        self.history_draft = Vec::new();
        let line = string_from_chars(line_chars.as_slice());
        record_history(history, line.as_str());
        let lb = encode(line.as_str(), s.encoding);
        let out = bytes_then(lb.as_slice(), 13u8);
        if s.auto_echo {
            let echo = bytes_then(lb.as_slice(), 10u8);
            self.append_bytes(echo.as_slice());
        }
        self.prompt = line_prefix(s.show_timestamps);
        Some(out)
    }

    /// Handles one key; returns the bytes to write to the port, if any.
    pub fn handle_key(&mut self, key: TerminalKey, s: TerminalSettings, history: &mut Vec<String>) -> (w: Option<Vec<u8>>)
        requires
            old(self).wf(),
            history_index_ok(*old(self), old(history)@),
            s.enter_sends && key is Enter && s.encoding == TextEncoding::Gbk
                ==> encode_fits(utf8_len(old(self).input@) as int),
            key matches TerminalKey::Text(t) ==> if s.enter_sends {
                old(self).input@.len() + t@.len() <= usize::MAX
            } else {
                s.encoding == TextEncoding::Gbk ==> encode_fits(utf8_len(t@) as int)
            },
        ensures
            final(self).wf(),
            history_index_ok(*final(self), final(history)@),
            key_effect(*old(self), old(history)@, key, s, *final(self), final(history)@, w),
    {
        if s.enter_sends {
            match key {
                TerminalKey::Text(t) => {
                    self.input_insert(t.as_str());
                },
                TerminalKey::Enter => {
                    return self.send_line(s, history);
                },
                TerminalKey::Backspace => {
                    self.input_backspace();
                },
                TerminalKey::Delete => {
                    self.input_delete();
                },
                TerminalKey::Left => {
                    if self.cursor > 0 {
                        self.cursor = self.cursor - 1;
                    }
                },
                TerminalKey::Right => {
                    let n = self.input.len();
                    self.cursor = if self.cursor < n { self.cursor + 1 } else { n };
                },
                TerminalKey::Home => {
                    self.cursor = 0;
                },
                TerminalKey::End => {
                    self.cursor = self.input.len();
                },
                TerminalKey::Up => {
                    self.history_older(history);
                },
                TerminalKey::Down => {
                    self.history_newer(history);
                },
            }
            None
        } else {
            match key {
                TerminalKey::Text(t) => {
                    let tc = chars_of(t.as_str());
                    if tc.len() == 0 {
                        return None;
                    }
                    let b = encode(t.as_str(), s.encoding);
                    self.send_bytes(b, s.auto_echo)
                },
                TerminalKey::Enter => {
                    if s.auto_echo {
                        let nl: [u8; 1] = [10u8];
                        self.append_bytes(&nl);
                        proof {
                            assert(nl@ =~= seq![10u8]);
                        }
                    }
                    let cr = vec![13u8];
                    proof {
                        assert(cr@ =~= seq![13u8]);
                    }
                    Some(cr)
                },
                TerminalKey::Backspace => {
                    let del = vec![0x7fu8];
                    proof {
                        assert(del@ =~= seq![0x7fu8]);
                    }
                    self.send_bytes(del, s.auto_echo)
                },
                _ => None,
            }
        }
    }
}

impl TerminalState {
    /// Gives the input line a prompt when it has none yet.
    pub fn ensure_prompt(&mut self, show_timestamps: bool)
        ensures
            display_kept(*old(self), *final(self)),
            final(self).input@ == old(self).input@,
            final(self).cursor == old(self).cursor,
            final(self).history_index == old(self).history_index,
            final(self).history_draft@ == old(self).history_draft@,
            old(self).prompt@.len() == 0 ==> is_line_prefix(final(self).prompt@, show_timestamps),
            old(self).prompt@.len() > 0 ==> final(self).prompt@ == old(self).prompt@,
    {
        if self.prompt.len() == 0 {
            self.prompt = line_prefix(show_timestamps);
        }
    }
}

} // verus!

//! Terminal mode of the receive area: the received byte stream shown as text with a
//! prompt (`# `, after a time stamp when time stamps are on) at the start of every line,
//! and the input line typed into the terminal.
use vstd::prelude::*;
use vstd::string::StringExecFns;
use crate::codec::hex::{format_hex, hex_text};
use crate::codec::text::{ascii_decoded, decode, stream_decoded, stream_piece, utf8_stream_reads, StreamDecoder};
use crate::config::{DisplayMode, TextEncoding};
use crate::display::streamed;
use crate::strs::{chars_of, string_push, utf8_char_width, utf8_len, fit_chars, fit_chars_from, keep_tail_bytes};
use crate::util::{is_hms_ms, now_hms_ms};

verus! {

/// Received bytes kept for the terminal; older bytes are dropped.
pub const TERMINAL_BUF_CAP: usize = 256 * 1024;

/// Bytes of terminal text kept; older text is dropped.
pub const TERMINAL_TEXT_CAP: usize = 300_000;

/// A line prefix: `# `, or `[HH:MM:SS.mmm]# ` with time stamps.
pub open spec fn is_line_prefix(m: Seq<char>, show_timestamps: bool) -> bool {
    if show_timestamps {
        exists|t: Seq<char>| is_hms_ms(t) && m == seq!['['] + t + "]# "@
    } else {
        m == "# "@
    }
}

/// Builds the line prefix for now.
pub fn line_prefix(show_timestamps: bool) -> (m: Vec<char>)
    ensures
        is_line_prefix(m@, show_timestamps),
        2 <= m@.len() <= 16,
{
    if show_timestamps {
        let t = now_hms_ms();
        let mut s = String::new();
        string_push(&mut s, '[');
        s.append(t.as_str());
        s.append("]# ");
        let v = chars_of(s.as_str());
        proof {
            reveal_strlit("]# ");
            assert(v@ == seq!['['] + t@ + "]# "@);
        }
        v
    } else {
        proof {
            reveal_strlit("# ");
        }
        chars_of("# ")
    }
}

/// A line break for the terminal: `'\n'` or a bare `'\r'`.
pub open spec fn is_break(c: char) -> bool {
    c == '\n' || c == '\r'
}

/// The text ends a line (or is empty), so the next character starts one.
pub open spec fn at_line_start(t: Seq<char>) -> bool {
    t.len() == 0 || is_break(t.last())
}

/// Appends decoded characters to the terminal text, putting the prefix before the first
/// character of every line that has content and recording where each prefix lies.
pub open spec fn with_prefixes(
    text: Seq<char>,
    spans: Seq<(usize, usize)>,
    s: Seq<char>,
    prefix: Seq<char>,
) -> (Seq<char>, Seq<(usize, usize)>)
    decreases s.len(),
{
    if s.len() == 0 {
        (text, spans)
    } else {
        let (t, sp) = with_prefixes(text, spans, s.drop_last(), prefix);
        let c = s.last();
        if at_line_start(t) && !is_break(c) {
            ((t + prefix).push(c), sp.push((t.len() as usize, (t.len() + prefix.len()) as usize)))
        } else {
            (t.push(c), sp)
        }
    }
}

/// The prefix spans after the first `cut` characters of the text are dropped.
pub open spec fn spans_after_cut(spans: Seq<(usize, usize)>, cut: int) -> Seq<(usize, usize)>
    decreases spans.len(),
{
    if spans.len() == 0 {
        Seq::empty()
    } else {
        let r = spans_after_cut(spans.drop_last(), cut);
        let (s, e) = spans.last();
        if e <= cut {
            r
        } else {
            r.push((if s < cut { 0usize } else { (s - cut) as usize }, (e - cut) as usize))
        }
    }
}

/// What the new bytes show as: their HEX and a line break, their ASCII text, or what the
/// streaming decoder, already fed `fed`, writes for them.
pub open spec fn terminal_piece_fits(piece: Seq<char>, bytes: Seq<u8>, mode: DisplayMode, enc: TextEncoding, fed: Seq<u8>) -> bool {
    match mode {
        DisplayMode::Hex => piece == hex_text(bytes).push('\n'),
        DisplayMode::Text => if enc == TextEncoding::Ascii {
            piece == ascii_decoded(bytes)
        } else {
            piece == stream_piece(enc, fed, bytes)
        },
    }
}

/// The bytes the decoder of a terminal refresh continues from: none after a rebuild,
/// else those fed to the running decoder for `enc`.
pub open spec fn terminal_fed(t: TerminalState, enc: TextEncoding) -> Seq<u8> {
    if t.cache_invalid {
        Seq::empty()
    } else {
        t.decoder.fed_for(enc)
    }
}

/// Every span lies inside a text of `len` characters.
pub open spec fn spans_within(spans: Seq<(usize, usize)>, len: int) -> bool {
    forall|k: int| #![trigger spans[k]] 0 <= k < spans.len() ==> spans[k].0 < spans[k].1 && spans[k].1 <= len
}

/// The text a terminal refresh starts from.
pub open spec fn terminal_base_text(t: TerminalState) -> Seq<char> {
    if t.cache_invalid { Seq::empty() } else { t.text@ }
}

/// The prefix spans a terminal refresh starts from.
pub open spec fn terminal_base_spans(t: TerminalState) -> Seq<(usize, usize)> {
    if t.cache_invalid { Seq::empty() } else { t.marker_spans@ }
}

/// The first byte of the buffer a terminal refresh decodes.
pub open spec fn terminal_from(t: TerminalState) -> int {
    if t.cache_invalid { 0 } else { t.decoded_len as int }
}

/// Terminal display and input state.
pub struct TerminalState {
    /// Received bytes (and local echo) not yet dropped.
    pub buffer: Vec<u8>,
    /// The text shown.
    pub text: Vec<char>,
    pub decoder: StreamDecoder,
    /// The text must be rebuilt from the whole buffer.
    pub cache_invalid: bool,
    /// Bytes of the buffer already in the text.
    pub decoded_len: usize,
    /// Where the line prefixes lie in the text (character ranges).
    pub marker_spans: Vec<(usize, usize)>,
    /// Prompt shown before the input line.
    pub prompt: Vec<char>,
    /// The input line.
    pub input: Vec<char>,
    /// Cursor position in the input line, in characters.
    pub cursor: usize,
    /// Position while browsing the send history (0 is the newest).
    pub history_index: Option<usize>,
    /// The input line as it was before browsing the history.
    pub history_draft: Vec<char>,
}

impl TerminalState {
    pub open spec fn wf(&self) -> bool {
        &&& self.buffer@.len() <= TERMINAL_BUF_CAP
        &&& self.decoded_len <= self.buffer@.len()
        &&& self.text@.len() <= TERMINAL_TEXT_CAP + 4
        &&& spans_within(self.marker_spans@, self.text@.len() as int)
    }

    pub fn new() -> (t: Self)
        ensures
            t.wf(),
            t.buffer@.len() == 0 && t.text@.len() == 0 && t.marker_spans@.len() == 0,
            t.prompt@.len() == 0 && t.input@.len() == 0 && t.cursor == 0,
            t.history_index is None && t.history_draft@.len() == 0,
            !t.cache_invalid && t.decoded_len == 0,
            t.decoder.running() is None,
    {
        TerminalState {
            buffer: Vec::new(),
            text: Vec::new(),
            decoder: StreamDecoder::new(),
            cache_invalid: false,
            decoded_len: 0,
            marker_spans: Vec::new(),
            prompt: Vec::new(),
            input: Vec::new(),
            cursor: 0,
            history_index: None,
            history_draft: Vec::new(),
        }
    }

    /// Clears the terminal display and leaves history browsing.
    pub fn clear_display(&mut self)
        ensures
            final(self).wf(),
            final(self).buffer@.len() == 0 && final(self).text@.len() == 0,
            final(self).marker_spans@.len() == 0 && final(self).prompt@.len() == 0,
            !final(self).cache_invalid && final(self).decoded_len == 0,
            final(self).history_index is None && final(self).history_draft@.len() == 0,
            final(self).input == old(self).input && final(self).cursor == old(self).cursor,
    {
        self.buffer = Vec::new();
        self.text = Vec::new();
        self.marker_spans = Vec::new();
        self.prompt = Vec::new();
        self.decoder.reset();
        self.cache_invalid = false;
        self.decoded_len = 0;
        self.history_index = None;
        self.history_draft = Vec::new();
    }

    /// Appends received (or echoed) bytes as they are; past [`TERMINAL_BUF_CAP`] the
    /// oldest bytes are dropped and the text must be rebuilt.
    pub fn append_bytes(&mut self, bytes: &[u8])
        requires
            old(self).wf(),
        ensures
            final(self).wf(),
            final(self).text == old(self).text && final(self).marker_spans == old(self).marker_spans,
            final(self).decoder == old(self).decoder,
            final(self).prompt == old(self).prompt && final(self).input == old(self).input,
            final(self).cursor == old(self).cursor,
            final(self).history_index == old(self).history_index,
            final(self).history_draft == old(self).history_draft,
            bytes@.len() == 0 ==> *final(self) == *old(self),
            bytes@.len() > 0 ==> {
                let full = old(self).buffer@ + bytes@;
                &&& if full.len() > TERMINAL_BUF_CAP {
                    &&& final(self).buffer@ == full.skip(full.len() - TERMINAL_BUF_CAP)
                    &&& final(self).cache_invalid
                } else {
                    &&& final(self).buffer@ == full
                    &&& final(self).cache_invalid == old(self).cache_invalid
                }
                &&& final(self).decoded_len == if old(self).decoded_len < final(self).buffer@.len() {
                    old(self).decoded_len
                } else {
                    final(self).buffer@.len() as usize
                }
            },
    {
        if bytes.len() == 0 {
            return;
        }
        let ghost full = self.buffer@ + bytes@;
        let mut i: usize = 0;
        while i < bytes.len()
            invariant
                i <= bytes@.len(),
                self.buffer@ == old(self).buffer@ + bytes@.take(i as int),
                self.decoded_len == old(self).decoded_len,
                self.cache_invalid == old(self).cache_invalid,
                self.text == old(self).text && self.marker_spans == old(self).marker_spans,
                self.decoder == old(self).decoder,
                self.prompt == old(self).prompt && self.input == old(self).input,
                self.cursor == old(self).cursor,
                self.history_index == old(self).history_index,
                self.history_draft == old(self).history_draft,
            decreases bytes@.len() - i,
        {
            self.buffer.push(bytes[i]);
            i = i + 1;
            assert(self.buffer@ =~= old(self).buffer@ + bytes@.take(i as int));
        }
        assert(bytes@.take(bytes@.len() as int) =~= bytes@);
        if self.buffer.len() > TERMINAL_BUF_CAP {
            let cut = self.buffer.len() - TERMINAL_BUF_CAP;
            let mut kept: Vec<u8> = Vec::new();
            let mut j = cut;
            while j < self.buffer.len()
                invariant
                    cut <= j <= self.buffer@.len(),
                    self.buffer@ == full,
                    kept@ == full.subrange(cut as int, j as int),
                decreases self.buffer@.len() - j,
            {
                kept.push(self.buffer[j]);
                j = j + 1;
                assert(kept@ =~= full.subrange(cut as int, j as int));
            }
            assert(full.subrange(cut as int, full.len() as int) =~= full.skip(cut as int));
            self.buffer = kept;
            self.cache_invalid = true;
        }
        if self.decoded_len > self.buffer.len() {
            self.decoded_len = self.buffer.len();
        }
    }
}

/// The terminal text and spans that a refresh gives from `base` when the new bytes show as
/// `piece` and lines start with `prefix`: prefixes added, then the text held to
/// [`TERMINAL_TEXT_CAP`] bytes with the spans shifted.
pub open spec fn refreshed(
    base_text: Seq<char>,
    base_spans: Seq<(usize, usize)>,
    piece: Seq<char>,
    prefix: Seq<char>,
    text: Seq<char>,
    spans: Seq<(usize, usize)>,
) -> bool {
    let (t, sp) = with_prefixes(base_text, base_spans, piece, prefix);
    &&& text == keep_tail_bytes(t, TERMINAL_TEXT_CAP as int)
    &&& spans == spans_after_cut(sp, t.len() - text.len())
}

proof fn lemma_with_prefixes_step(text: Seq<char>, spans: Seq<(usize, usize)>, s: Seq<char>, prefix: Seq<char>, c: char)
    ensures
        with_prefixes(text, spans, s.push(c), prefix) == ({
            let (t, sp) = with_prefixes(text, spans, s, prefix);
            if at_line_start(t) && !is_break(c) {
                ((t + prefix).push(c), sp.push((t.len() as usize, (t.len() + prefix.len()) as usize)))
            } else {
                (t.push(c), sp)
            }
        }),
{
    assert(s.push(c).drop_last() =~= s);
}

fn utf8_total(t: &Vec<char>) -> (n: usize)
    requires
        t@.len() <= 0x1000_0000,
    ensures
        n == utf8_len(t@),
{
    let mut n: usize = 0;
    let mut i: usize = 0;
    while i < t.len()
        invariant
            i <= t@.len() <= 0x1000_0000,
            n == utf8_len(t@.take(i as int)),
            n <= 4 * i,
        decreases t@.len() - i,
    {
        assert(t@.take(i + 1).drop_last() =~= t@.take(i as int));
        n = n + utf8_char_width(t[i]);
        i = i + 1;
    }
    assert(t@.take(t@.len() as int) =~= t@);
    n
}

/// `b` is `a` after a refresh of the terminal text in the given mode and encoding.
pub open spec fn terminal_refreshed(a: TerminalState, mode: DisplayMode, enc: TextEncoding, ts: bool, b: TerminalState) -> bool {
    &&& !b.cache_invalid
    &&& b.buffer == a.buffer
    &&& b.prompt == a.prompt && b.input == a.input
    &&& b.cursor == a.cursor
    &&& b.history_index == a.history_index
    &&& b.history_draft == a.history_draft
    &&& terminal_from(a) >= a.buffer@.len() ==> {
        &&& b.text@ == terminal_base_text(a)
        &&& b.marker_spans@ == terminal_base_spans(a)
        &&& b.decoded_len == terminal_from(a)
    }
    &&& terminal_from(a) < a.buffer@.len() ==> {
        &&& b.decoded_len == a.buffer@.len()
        &&& streamed(mode, enc) ==> b.decoder.fed_for(enc)
            == terminal_fed(a, enc) + a.buffer@.skip(terminal_from(a))
        &&& streamed(mode, enc) && enc == TextEncoding::Utf8 ==> utf8_stream_reads(b.decoder.fed_for(enc))
        &&& exists|piece: Seq<char>, prefix: Seq<char>|
            #![trigger refreshed(terminal_base_text(a), terminal_base_spans(a), piece, prefix, b.text@, b.marker_spans@)]
            is_line_prefix(prefix, ts)
            && terminal_piece_fits(piece, a.buffer@.skip(terminal_from(a)), mode, enc, terminal_fed(a, enc))
            && refreshed(terminal_base_text(a), terminal_base_spans(a), piece, prefix, b.text@, b.marker_spans@)
            && (streamed(mode, enc) ==> stream_decoded(enc, b.decoder.fed_for(enc))
                == stream_decoded(enc, terminal_fed(a, enc)) + piece)
    }
}

impl TerminalState {
    /// Brings the terminal text up to date with the buffer: after a change of mode or a
    /// trim the text is rebuilt from the whole buffer; new bytes are decoded and a prefix
    /// put at the start of every line with content (a batch of bytes does not start a
    /// line by itself); the text is then held to [`TERMINAL_TEXT_CAP`] bytes.
    #[verifier::rlimit(40)]
    #[verifier::spinoff_prover]
    pub fn refresh_text(&mut self, mode: DisplayMode, enc: TextEncoding, show_timestamps: bool)
        requires
            old(self).wf(),
        ensures
            final(self).wf(),
            terminal_refreshed(*old(self), mode, enc, show_timestamps, *final(self)),
    {
        let ghost fed0 = terminal_fed(*old(self), enc);
        if self.cache_invalid {
            self.cache_invalid = false;
            self.text = Vec::new();
            self.marker_spans = Vec::new();
            self.decoder.reset();
            self.decoded_len = 0;
        }
        assert(self.decoder.fed_for(enc) == fed0);
        if self.decoded_len >= self.buffer.len() {
            return;
        }
        let prefix = line_prefix(show_timestamps);
        let from = self.decoded_len;
        let n = self.buffer.len();
        let mut bytes: Vec<u8> = Vec::new();
        let mut i = from;
        while i < n
            invariant
                from <= i <= n,
                n == self.buffer@.len(),
                bytes@ == self.buffer@.subrange(from as int, i as int),
            decreases n - i,
        {
            bytes.push(self.buffer[i]);
            i = i + 1;
            assert(bytes@ =~= self.buffer@.subrange(from as int, i as int));
        }
        assert(self.buffer@.subrange(from as int, n as int) =~= self.buffer@.skip(from as int));
        let decoded: String = match mode {
            DisplayMode::Text => {
                if enc == TextEncoding::Ascii {
                    decode(bytes.as_slice(), enc)
                } else {
                    self.decoder.decode(bytes.as_slice(), enc)
                }
            },
            DisplayMode::Hex => {
                let mut h = format_hex(bytes.as_slice());
                string_push(&mut h, '\n');
                h
            },
        };
        let piece = chars_of(decoded.as_str());
        let ghost dec_after = self.decoder;
        proof {
            if mode == DisplayMode::Hex {
                let b = bytes@;
                assert(hex_text(b).len() <= 3 * b.len()) by {
                    lemma_hex_text_len(b);
                }
            }
        }
        let ghost base_text = self.text@;
        let ghost base_spans = self.marker_spans@;
        let mut k: usize = 0;
        while k < piece.len()
            invariant
                k <= piece@.len() <= 3 * TERMINAL_BUF_CAP + 16,
                2 <= prefix@.len() <= 16,
                self.buffer == old(self).buffer,
                self.prompt == old(self).prompt && self.input == old(self).input,
                self.cursor == old(self).cursor,
                self.history_index == old(self).history_index,
                self.history_draft == old(self).history_draft,
                !self.cache_invalid,
                self.decoded_len == from,
                from < self.buffer@.len(),
                self.decoder == dec_after,

                base_text.len() <= TERMINAL_TEXT_CAP + 4,
                self.text@.len() <= base_text.len() + 17 * k,
                (self.text@, self.marker_spans@) == with_prefixes(base_text, base_spans, piece@.take(k as int), prefix@),
                spans_within(self.marker_spans@, self.text@.len() as int),
            decreases piece@.len() - k,
        {
            let c = piece[k];
            proof {
                lemma_with_prefixes_step(base_text, base_spans, piece@.take(k as int), prefix@, c);
                assert(piece@.take(k + 1) =~= piece@.take(k as int).push(c));
            }
            let line_start = self.text.len() == 0 || self.text[self.text.len() - 1] == '\n'
                || self.text[self.text.len() - 1] == '\r';
            let ghost t0 = self.text@;
            let ghost sp0 = self.marker_spans@;
            if line_start && c != '\n' && c != '\r' {
                let start = self.text.len();
                let mut j: usize = 0;
                while j < prefix.len()
                    invariant
                        j <= prefix@.len(),
                        self.text@ == t0 + prefix@.take(j as int),
                        start == t0.len(),
                        self.marker_spans@ == sp0,
                        self.buffer == old(self).buffer,
                        self.prompt == old(self).prompt && self.input == old(self).input,
                        self.cursor == old(self).cursor,
                        self.history_index == old(self).history_index,
                        self.history_draft == old(self).history_draft,
                        !self.cache_invalid,
                        self.decoded_len == from,
                        from < self.buffer@.len(),
                        self.decoder == dec_after,

                    decreases prefix@.len() - j,
                {
                    self.text.push(prefix[j]);
                    j = j + 1;
                    assert(self.text@ =~= t0 + prefix@.take(j as int));
                }
                assert(prefix@.take(prefix@.len() as int) =~= prefix@);
                let end = self.text.len();
                self.marker_spans.push((start, end));
                self.text.push(c);
                proof {
                    assert forall|q: int| #![trigger self.marker_spans@[q]] 0 <= q < self.marker_spans@.len() implies self.marker_spans@[q].0
                        < self.marker_spans@[q].1 && self.marker_spans@[q].1 <= self.text@.len() by {
                        if q < sp0.len() {
                            assert(self.marker_spans@[q] == sp0[q]);
                        }
                    }
                }
            } else {
                self.text.push(c);
            }
            k = k + 1;
        }
        assert(piece@.take(piece@.len() as int) =~= piece@);
        self.decoded_len = n;
        let ghost t = self.text@;
        let ghost sp = self.marker_spans@;
        let total = utf8_total(&self.text);
        if total > TERMINAL_TEXT_CAP {
            let limit = total - TERMINAL_TEXT_CAP;
            let mut cut: usize = 0;
            let mut acc: usize = 0;
            proof {
                crate::strs::lemma_fit_chars_from_bounds(t, 0, 0, limit as int);
            }
            while cut < self.text.len() && utf8_char_width(self.text[cut]) <= limit - acc
                invariant
                    self.text@ == t,
                    cut <= t.len(),
                    acc <= limit,
                    acc == utf8_len(t.take(cut as int)),
                    fit_chars_from(t, cut as int, acc as int, limit as int) == fit_chars(t, limit as int),
                decreases t.len() - cut,
            {
                assert(t.take(cut + 1).drop_last() =~= t.take(cut as int));
                acc = acc + utf8_char_width(self.text[cut]);
                cut = cut + 1;
            }
            proof {
                crate::strs::lemma_utf8_len_concat(t.take(cut as int), t.skip(cut as int));
                assert(t.take(cut as int) + t.skip(cut as int) =~= t);
                crate::strs::lemma_len_le_utf8_len(t.skip(cut as int));
                if cut == t.len() {
                    assert(t.take(cut as int) =~= t);
                }
            }
            let mut kept: Vec<char> = Vec::new();
            let mut q = cut;
            while q < self.text.len()
                invariant
                    self.text@ == t,
                    cut <= q <= t.len(),
                    kept@ == t.subrange(cut as int, q as int),
                decreases t.len() - q,
            {
                kept.push(self.text[q]);
                q = q + 1;
                assert(kept@ =~= t.subrange(cut as int, q as int));
            }
            assert(t.subrange(cut as int, t.len() as int) =~= t.skip(cut as int));
            let mut spans: Vec<(usize, usize)> = Vec::new();
            let mut r: usize = 0;
            while r < self.marker_spans.len()
                invariant
                    self.marker_spans@ == sp,
                    r <= sp.len(),
                    spans@ == spans_after_cut(sp.take(r as int), cut as int),
                    spans_within(sp, t.len() as int),
                    spans_within(spans@, (t.len() - cut) as int),
                    cut <= t.len(),
                decreases sp.len() - r,
            {
                let (a, b) = self.marker_spans[r];
                assert(sp.take(r + 1).drop_last() =~= sp.take(r as int));
                assert(sp.take(r + 1).last() == sp[r as int]);
                assert(sp[r as int].0 < sp[r as int].1 && sp[r as int].1 <= t.len());
                if b > cut {
                    let a2 = if a < cut { 0 } else { a - cut };
                    spans.push((a2, b - cut));
                    proof {
                        let prev = spans@.drop_last();
                        assert forall|x: int| #![trigger spans@[x]] 0 <= x < spans@.len() implies spans@[x].0 < spans@[x].1 && spans@[x].1 <= t.len() - cut by {
                            if x < prev.len() {
                                assert(spans@[x] == prev[x]);
                            }
                        }
                    }
                }
                r = r + 1;
            }
            assert(sp.take(sp.len() as int) =~= sp);
            self.text = kept;
            self.marker_spans = spans;
        }
        proof {
            if total <= TERMINAL_TEXT_CAP {
                crate::strs::lemma_len_le_utf8_len(t);
                assert(keep_tail_bytes(t, TERMINAL_TEXT_CAP as int) == t);
                assert(spans_after_cut(sp, 0) == sp) by {
                    lemma_spans_after_zero_cut(sp);
                }
            }
            assert(base_text == terminal_base_text(*old(self)));
            assert(base_spans == terminal_base_spans(*old(self)));
            let p = piece@;
            let pf = prefix@;
            assert(refreshed(base_text, base_spans, p, pf, self.text@, self.marker_spans@));
        }
    }
}

pub proof fn lemma_spans_after_zero_cut(sp: Seq<(usize, usize)>)
    requires
        forall|k: int| #![trigger sp[k]] 0 <= k < sp.len() ==> sp[k].1 > 0,
    ensures
        spans_after_cut(sp, 0) == sp,
    decreases sp.len(),
{
    if sp.len() > 0 {
        lemma_spans_after_zero_cut(sp.drop_last());
        assert(sp.drop_last().push(sp.last()) =~= sp);
    }
}

proof fn lemma_hex_text_len(b: Seq<u8>)
    ensures
        hex_text(b).len() <= 3 * b.len(),
    decreases b.len(),
{
    if b.len() > 1 {
        lemma_hex_text_len(b.drop_last());
    }
}
} // verus!

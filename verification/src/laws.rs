//! Properties that relate several operations of the library.
use vstd::prelude::*;
use crate::ansi::{ansi_runs, ansi_scan, ansi_step, flushed, merged, shown_char, with_run, AnsiScan};
use crate::codec::text::{decoded_text, encoded_bytes};
use crate::config::{FileSendMode, TextEncoding, default_queue_name_text, legacy_default_queue_name, queues_normalized, SendQueue};
use crate::i18n::Language;
use crate::ports::chosen_port;
use crate::session::{lemma_file_advanced_wf, file_advanced, file_job_wf, file_writes, next_file_write, FileJob, FILE_CHUNK};
use crate::send::{content_bytes, history_after, queue_plan, without, QueuePlan, HISTORY_MAX};
use crate::codec::hex::{decode_pairs, hex_digit_value, hex_parse, hex_scan, is_separator, strip_hex_prefix, HexOutcome, TokenOutcome};
use crate::strs::trim_chars;
use crate::config::DisplayMode;
use crate::codec::text::stream_decoded;
use crate::strs::{fit_chars_from, keep_tail_bytes, lemma_utf8_len_concat, utf8_len, utf8_width};
use crate::terminal::{
    lemma_spans_after_zero_cut, refreshed, terminal_base_spans, terminal_base_text, terminal_fed, terminal_from,
    terminal_refreshed, with_prefixes, TerminalState, TERMINAL_BUF_CAP, TERMINAL_TEXT_CAP,
};
use crate::terminal_input::{appended, backspaced, cursor_pos, inserted, went_newer, went_older};

verus! {

/// No text occurs twice.
pub open spec fn distinct_texts(h: Seq<Seq<char>>) -> bool {
    forall|i: int, j: int| 0 <= i < j < h.len() ==> #[trigger] h[i] != #[trigger] h[j]
}

proof fn lemma_localized_default_is_not_legacy()
    ensures
        default_queue_name_text(Language::English) != legacy_default_queue_name(),
{
    reveal_strlit("Queue ");
    reveal_strlit("队列 1");
    let d = default_queue_name_text(Language::English);
    assert(d[0] == 'Q');
    assert(legacy_default_queue_name()[0] == '队');
}

/// Normalizing the queues a second time changes nothing: names and entries stay as the
/// first normalization left them.
pub proof fn law_normalize_queues_idempotent(a: Seq<SendQueue>, b: Seq<SendQueue>, c: Seq<SendQueue>, lang: Language)
    requires
        queues_normalized(a, b, lang),
        queues_normalized(b, c, lang),
    ensures
        c.len() == b.len(),
        forall|i: int| 0 <= i < b.len() ==> (#[trigger] c[i]).name@ == b[i].name@ && c[i].items@ == b[i].items@,
{
    lemma_localized_default_is_not_legacy();
    assert forall|i: int| 0 <= i < b.len() implies (#[trigger] c[i]).name@ == b[i].name@ && c[i].items@ == b[i].items@ by {
        let q = b[i];
        let r = c[i];
        if lang != Language::Chinese && q.name@ == legacy_default_queue_name() && crate::config::all_items_blank(q.items@) {
            if a.len() == 0 {
                assert(q.name@ == default_queue_name_text(lang));
            } else {
                let p = a[i];
                assert(p.items@ == q.items@);
                if p.name@ == legacy_default_queue_name() && crate::config::all_items_blank(p.items@) {
                    assert(q.name@ == default_queue_name_text(lang));
                } else {
                    assert(q.name == p.name);
                }
            }
            assert(r.name@ == default_queue_name_text(lang));
        }
    }
}

proof fn lemma_without(h: Seq<Seq<char>>, t: Seq<char>)
    requires
        distinct_texts(h),
    ensures
        distinct_texts(without(h, t)),
        without(h, t).len() <= h.len(),
        forall|k: int| 0 <= k < without(h, t).len() ==> (#[trigger] without(h, t)[k]) != t && h.contains(without(h, t)[k]),
    decreases h.len(),
{
    if h.len() > 0 {
        let p = h.drop_last();
        assert(distinct_texts(p)) by {
            assert forall|i: int, j: int| 0 <= i < j < p.len() implies #[trigger] p[i] != #[trigger] p[j] by {
                assert(p[i] == h[i] && p[j] == h[j]);
            }
        }
        lemma_without(p, t);
        let r = without(p, t);
        assert forall|k: int| 0 <= k < r.len() implies h.contains(#[trigger] r[k]) by {
            let m = choose|m: int| 0 <= m < p.len() && p[m] == r[k];
            assert(h[m] == p[m]);
        }
        if h.last() != t {
            let r2 = r.push(h.last());
            assert forall|k: int| 0 <= k < r.len() implies (#[trigger] r[k]) != h.last() by {
                let m = choose|m: int| 0 <= m < p.len() && p[m] == r[k];
                assert(h[m] == p[m]);
                assert(h[m] != h[h.len() - 1]);
            }
            assert forall|i: int, j: int| 0 <= i < j < r2.len() implies #[trigger] r2[i] != #[trigger] r2[j] by {
                if j < r.len() {
                    assert(r2[i] == r[i] && r2[j] == r[j]);
                } else {
                    assert(r2[i] == r[i]);
                }
            }
            assert forall|k: int| 0 <= k < r2.len() implies (#[trigger] r2[k]) != t && h.contains(r2[k]) by {
                if k < r.len() {
                    assert(r2[k] == r[k]);
                } else {
                    assert(h[h.len() - 1] == r2[k]);
                }
            }
        }
    }
}

/// Recording a sent line keeps the history free of repeats and at most
/// [`HISTORY_MAX`] long, with the trimmed line (when not blank) first.
pub proof fn law_history_stays_distinct_and_short(h: Seq<Seq<char>>, line: Seq<char>)
    requires
        distinct_texts(h),
        h.len() <= HISTORY_MAX,
    ensures
        distinct_texts(history_after(h, line)),
        history_after(h, line).len() <= HISTORY_MAX,
        trim_chars(line).len() > 0 ==> history_after(h, line)[0] == trim_chars(line),
        trim_chars(line).len() == 0 ==> history_after(h, line) == h,
{
    let t = trim_chars(line);
    if t.len() > 0 {
        lemma_without(h, t);
        let w = without(h, t);
        let r = seq![t] + w;
        assert forall|i: int, j: int| 0 <= i < j < r.len() implies #[trigger] r[i] != #[trigger] r[j] by {
            if i == 0 {
                assert(r[j] == w[j - 1]);
            } else {
                assert(r[i] == w[i - 1] && r[j] == w[j - 1]);
            }
        }
        if r.len() > HISTORY_MAX {
            let s = r.take(HISTORY_MAX as int);
            assert forall|i: int, j: int| 0 <= i < j < s.len() implies #[trigger] s[i] != #[trigger] s[j] by {
                assert(s[i] == r[i] && s[j] == r[j]);
            }
        }
    }
}

/// Typing a character and then pressing Backspace gives the input line back, with the
/// cursor where it was.
pub proof fn law_backspace_undoes_insert(a: TerminalState, c: char, b: TerminalState, d: TerminalState)
    requires
        a.cursor <= a.input@.len(),
        inserted(a, seq![c], b),
        backspaced(b, d),
    ensures
        d.input@ == a.input@,
        d.cursor == a.cursor,
{
    let idx = cursor_pos(a);
    assert(b.input@.len() == a.input@.len() + 1);
    assert(cursor_pos(b) == idx + 1);
    assert(b.input@.take(idx) =~= a.input@.take(idx));
    assert(b.input@.skip(idx + 1) =~= a.input@.skip(idx));
    assert(d.input@ =~= a.input@.take(idx) + a.input@.skip(idx));
    assert(a.input@.take(idx) + a.input@.skip(idx) =~= a.input@);
}

/// Pressing Up and then Down outside history browsing gives the input line back (the
/// cursor at its end) and leaves browsing.
pub proof fn law_down_undoes_up(a: TerminalState, h: Seq<String>, b: TerminalState, d: TerminalState)
    requires
        a.history_index is None,
        went_older(a, h, b),
        went_newer(b, h, d),
    ensures
        d.input@ == a.input@,
        d.history_index is None,
        h.len() > 0 ==> d.cursor == a.input@.len(),
{
}

/// The port chosen after a list change is one of the listed ports, or none when nothing is
/// listed.
pub proof fn law_chosen_port_is_listed(list: Seq<(String, String)>, prev: Seq<char>)
    ensures
        list.len() == 0 ==> chosen_port(list, prev).len() == 0,
        list.len() > 0 ==> exists|i: int| 0 <= i < list.len() && (#[trigger] list[i]).1@ == chosen_port(list, prev),
{
    if list.len() > 0 {
        if exists|i: int| 0 <= i < list.len() && (#[trigger] list[i]).1@ == prev {
        } else {
            assert(list[0].1@ == chosen_port(list, prev));
        }
    }
}

/// Every character of the text is shown as itself.
pub open spec fn all_shown(s: Seq<char>) -> bool {
    forall|i: int| 0 <= i < s.len() ==> shown_char(#[trigger] s[i])
}

pub open spec fn runs_shown(runs: Seq<(Seq<char>, crate::ansi::TermColor, crate::ansi::TermColor)>) -> bool {
    forall|k: int| 0 <= k < runs.len() ==> all_shown(#[trigger] runs[k].0)
}

proof fn lemma_push_shown(s: Seq<char>, c: char)
    requires
        all_shown(s),
        shown_char(c),
    ensures
        all_shown(s.push(c)),
{
    assert forall|i: int| 0 <= i < s.push(c).len() implies shown_char(#[trigger] s.push(c)[i]) by {
        if i < s.len() {
            assert(s.push(c)[i] == s[i]);
        }
    }
}

proof fn lemma_flushed_shown(st: AnsiScan)
    requires
        runs_shown(st.runs),
        all_shown(st.buf),
    ensures
        runs_shown(flushed(st)),
{
    let f = flushed(st);
    assert forall|k: int| 0 <= k < f.len() implies all_shown(#[trigger] f[k].0) by {
        if k < st.runs.len() {
            assert(f[k] == st.runs[k]);
        }
    }
}

proof fn lemma_scan_shown(text: Seq<char>)
    ensures
        runs_shown(ansi_scan(text).runs),
        all_shown(ansi_scan(text).buf),
    decreases text.len(),
{
    if text.len() > 0 {
        lemma_scan_shown(text.drop_last());
        let st = ansi_scan(text.drop_last());
        let c = text.last();
        lemma_flushed_shown(st);
        if shown_char(c) {
            lemma_push_shown(st.buf, c);
        }
        lemma_push_shown(st.buf, '\n');
        assert(ansi_scan(text) == ansi_step(st, c));
    }
}

proof fn lemma_merged_shown(runs: Seq<(Seq<char>, crate::ansi::TermColor, crate::ansi::TermColor)>)
    requires
        runs_shown(runs),
    ensures
        runs_shown(merged(runs)),
    decreases runs.len(),
{
    if runs.len() > 0 {
        let p = runs.drop_last();
        assert(runs_shown(p)) by {
            assert forall|k: int| 0 <= k < p.len() implies all_shown(#[trigger] p[k].0) by {
                assert(p[k] == runs[k]);
            }
        }
        lemma_merged_shown(p);
        let m = merged(p);
        let r = runs.last();
        assert(all_shown(r.0)) by {
            assert(r == runs[runs.len() - 1]);
        }
        let w = with_run(m, r);
        assert forall|k: int| 0 <= k < w.len() implies all_shown(#[trigger] w[k].0) by {
            if m.len() > 0 && m.last().1 == r.1 && m.last().2 == r.2 {
                if k < m.len() - 1 {
                    assert(w[k] == m[k]);
                } else {
                    let joined = m.last().0 + r.0;
                    assert(all_shown(m[m.len() - 1].0));
                    assert forall|i: int| 0 <= i < joined.len() implies shown_char(#[trigger] joined[i]) by {
                        if i < m.last().0.len() {
                            assert(joined[i] == m.last().0[i]);
                        } else {
                            assert(joined[i] == r.0[i - m.last().0.len()]);
                        }
                    }
                }
            } else {
                if k < m.len() {
                    assert(w[k] == m[k]);
                }
            }
        }
    }
}

/// Terminal text shows no control character but line feed and tab: CR and CRLF become one
/// line feed, and escape sequences are hidden.
pub proof fn law_ansi_runs_show_no_control_characters(text: Seq<char>)
    ensures
        forall|k: int, i: int| 0 <= k < ansi_runs(text).len() && 0 <= i < ansi_runs(text)[k].0.len() ==> {
            let c = #[trigger] ansi_runs(text)[k].0[i];
            c == '\n' || c == '\t' || (c as u32) >= 0x20
        },
{
    lemma_scan_shown(text);
    lemma_flushed_shown(ansi_scan(text));
    lemma_merged_shown(flushed(ansi_scan(text)));
    assert forall|k: int, i: int| 0 <= k < ansi_runs(text).len() && 0 <= i < ansi_runs(text)[k].0.len() implies {
        let c = #[trigger] ansi_runs(text)[k].0[i];
        c == '\n' || c == '\t' || (c as u32) >= 0x20
    } by {
        assert(all_shown(ansi_runs(text)[k].0));
    }
}

/// Printable ASCII text.
pub open spec fn printable_ascii(t: Seq<char>) -> bool {
    forall|i: int| 0 <= i < t.len() ==> 0x20 <= (#[trigger] t[i] as u32) && (t[i] as u32) < 0x7f
}

/// Printable ASCII text encoded in ASCII decodes back to itself.
pub proof fn law_ascii_decode_reads_encode(t: Seq<char>)
    requires
        printable_ascii(t),
    ensures
        decoded_text(encoded_bytes(t, TextEncoding::Ascii), TextEncoding::Ascii) == t,
{
    let e = encoded_bytes(t, TextEncoding::Ascii);
    let d = decoded_text(e, TextEncoding::Ascii);
    assert forall|i: int| 0 <= i < t.len() implies #[trigger] d[i] == t[i] by {
        let c = t[i];
        let u = c as u32;
        assert(e[i] == (u as u8));
        assert((u as u8) as u32 == u) by (bit_vector)
            requires
                u < 0x80,
        ;
        vstd::utf8::char_u32_cast(c, u);
        assert(((e[i] as u8) as u32) as char == c);
    }
    assert(d =~= t);
}

/// Sending a whole file writes exactly the file: the chunks the file job writes one after
/// another, every write succeeding, each hold at least one and at most [`FILE_CHUNK`]
/// bytes, and joined they are the file from the current position on.
pub proof fn law_whole_file_is_written_exactly(f: FileJob)
    requires
        file_job_wf(f),
        f.mode == FileSendMode::WholeFile,
    ensures
        file_writes(f).flatten() == f.data@.skip(f.pos as int),
        forall|k: int| 0 <= k < file_writes(f).len() ==> 0 < (#[trigger] file_writes(f)[k]).len() <= FILE_CHUNK,
    decreases f.total - f.pos,
{
    let ws = file_writes(f);
    if f.pos < f.total {
        let g = file_advanced(f);
        lemma_file_advanced_wf(f);
        law_whole_file_is_written_exactly(g);
        assert(ws == seq![next_file_write(f)] + file_writes(g));
        assert(ws.drop_first() =~= file_writes(g));
        assert(ws.first() == f.data@.subrange(f.pos as int, g.pos as int));
        assert(f.data@.skip(f.pos as int) =~= f.data@.subrange(f.pos as int, g.pos as int) + f.data@.skip(g.pos as int));
        assert forall|k: int| 0 <= k < ws.len() implies 0 < (#[trigger] ws[k]).len() <= FILE_CHUNK by {
            if k > 0 {
                assert(ws[k] == file_writes(g)[k - 1]);
            }
        }
    } else {
        assert(f.data@.skip(f.pos as int) =~= Seq::<u8>::empty());
    }
}

/// Sending a file line by line writes each line left, in order, once, followed by the
/// line ending.
pub proof fn law_line_by_line_writes_every_line(f: FileJob)
    requires
        file_job_wf(f),
        f.mode == FileSendMode::LineByLine,
    ensures
        file_writes(f) == f.lines@.skip(f.line_idx as int).map_values(
            |r: (usize, usize)| f.data@.subrange(r.0 as int, r.1 as int) + f.line_ending@,
        ),
    decreases f.lines@.len() - f.line_idx,
{
    let want = f.lines@.skip(f.line_idx as int).map_values(
        |r: (usize, usize)| f.data@.subrange(r.0 as int, r.1 as int) + f.line_ending@,
    );
    if f.line_idx < f.lines@.len() {
        let g = file_advanced(f);
        lemma_file_advanced_wf(f);
        law_line_by_line_writes_every_line(g);
        let rest = g.lines@.skip(g.line_idx as int).map_values(
            |r: (usize, usize)| g.data@.subrange(r.0 as int, r.1 as int) + g.line_ending@,
        );
        assert(file_writes(f) == seq![next_file_write(f)] + rest);
        assert(want =~= seq![next_file_write(f)] + rest);
    } else {
        assert(want =~= Seq::<Seq<u8>>::empty());
    }
}

/// Adding characters in two parts puts the prefixes where adding them at once does.
proof fn lemma_with_prefixes_concat(
    text: Seq<char>,
    spans: Seq<(usize, usize)>,
    a: Seq<char>,
    b: Seq<char>,
    prefix: Seq<char>,
)
    ensures
        with_prefixes(text, spans, a + b, prefix) == ({
            let (t, sp) = with_prefixes(text, spans, a, prefix);
            with_prefixes(t, sp, b, prefix)
        }),
    decreases b.len(),
{
    if b.len() == 0 {
        assert(a + b =~= a);
    } else {
        lemma_with_prefixes_concat(text, spans, a, b.drop_last(), prefix);
        assert((a + b).drop_last() =~= a + b.drop_last());
        assert((a + b).last() == b.last());
    }
}

/// The leading characters that `fit_chars_from` counts take at most `limit` bytes.
proof fn lemma_fit_chars_from_len(s: Seq<char>, i: int, acc: int, limit: int)
    requires
        0 <= i <= s.len(),
        acc == utf8_len(s.take(i)),
        acc <= limit,
    ensures
        utf8_len(s.take(fit_chars_from(s, i, acc, limit))) <= limit,
    decreases s.len() - i,
{
    if i < s.len() && acc + utf8_width(s[i]) <= limit {
        assert(s.take(i + 1).drop_last() =~= s.take(i));
        assert(s.take(i + 1).last() == s[i]);
        lemma_fit_chars_from_len(s, i + 1, acc + utf8_width(s[i]), limit);
    }
}

/// Holding a text to `cap` bytes drops at most the excess, so a held text shorter than
/// `cap` bytes lost nothing.
proof fn lemma_keep_tail_short_is_whole(t: Seq<char>, cap: int)
    requires
        0 <= cap,
        utf8_len(keep_tail_bytes(t, cap)) < cap,
    ensures
        keep_tail_bytes(t, cap) == t,
{
    if utf8_len(t) > cap {
        let f = fit_chars_from(t, 0, 0, utf8_len(t) - cap);
        crate::strs::lemma_fit_chars_from_bounds(t, 0, 0, utf8_len(t) - cap);
        assert(t.take(0) =~= Seq::<char>::empty());
        lemma_fit_chars_from_len(t, 0, 0, utf8_len(t) - cap);
        lemma_utf8_len_concat(t.take(f), t.skip(f));
        assert(t.take(f) + t.skip(f) =~= t);
    }
}

/// Every span ends after the start of the text.
spec fn spans_end_inside(sp: Seq<(usize, usize)>) -> bool {
    forall|k: int| #![trigger sp[k]] 0 <= k < sp.len() ==> sp[k].1 > 0
}

/// Prefixing keeps every span ending after the start of the text.
proof fn lemma_with_prefixes_spans_end_inside(
    text: Seq<char>,
    spans: Seq<(usize, usize)>,
    s: Seq<char>,
    prefix: Seq<char>,
)
    requires
        spans_end_inside(spans),
        prefix.len() > 0,
        with_prefixes(text, spans, s, prefix).0.len() <= usize::MAX,
    ensures
        spans_end_inside(with_prefixes(text, spans, s, prefix).1),
    decreases s.len(),
{
    if s.len() > 0 {
        let (t, sp) = with_prefixes(text, spans, s.drop_last(), prefix);
        let c = s.last();
        if crate::terminal::at_line_start(t) && !crate::terminal::is_break(c) {
            assert(with_prefixes(text, spans, s, prefix).0 == (t + prefix).push(c));
            assert(t.len() + prefix.len() <= usize::MAX);
        } else {
            assert(with_prefixes(text, spans, s, prefix).0 == t.push(c));
        }
        lemma_with_prefixes_spans_end_inside(text, spans, s.drop_last(), prefix);
        let sp2 = with_prefixes(text, spans, s, prefix).1;
        assert forall|k: int| #![trigger sp2[k]] 0 <= k < sp2.len() implies sp2[k].1 > 0 by {
            if k < sp.len() {
                assert(sp2[k] == sp[k]);
            }
        }
    }
}

/// A refresh that kept the whole text gives exactly the prefixed text.
proof fn lemma_uncut_refresh(
    bt: Seq<char>,
    bs: Seq<(usize, usize)>,
    piece: Seq<char>,
    prefix: Seq<char>,
    text: Seq<char>,
    spans: Seq<(usize, usize)>,
)
    requires
        refreshed(bt, bs, piece, prefix, text, spans),
        utf8_len(text) < TERMINAL_TEXT_CAP,
        spans_end_inside(bs),
        prefix.len() > 0,
    ensures
        (text, spans) == with_prefixes(bt, bs, piece, prefix),
        spans_end_inside(spans),
{
    let (t, sp) = with_prefixes(bt, bs, piece, prefix);
    lemma_keep_tail_short_is_whole(t, TERMINAL_TEXT_CAP as int);
    crate::strs::lemma_len_le_utf8_len(text);
    lemma_with_prefixes_spans_end_inside(bt, bs, piece, prefix);
    lemma_spans_after_zero_cut(sp);
}

/// The terminal shows the received stream the same whether it is refreshed after every
/// chunk or once after all of them: appending `c1`, refreshing, appending `c2` and
/// refreshing gives the same text and prefixes as appending both and refreshing once
/// (text mode without time stamps, while nothing is dropped for the caps).
pub proof fn law_terminal_text_does_not_depend_on_refresh_points(
    s0: TerminalState,
    c1: Seq<u8>,
    c2: Seq<u8>,
    enc: TextEncoding,
    a1: TerminalState,
    r1: TerminalState,
    a2: TerminalState,
    r2: TerminalState,
    b2: TerminalState,
    q2: TerminalState,
)
    requires
        s0.wf(),
        !s0.cache_invalid,
        c1.len() > 0,
        c2.len() > 0,
        s0.buffer@.len() + c1.len() + c2.len() <= TERMINAL_BUF_CAP,
        appended(s0, c1, a1),
        terminal_refreshed(a1, DisplayMode::Text, enc, false, r1),
        appended(r1, c2, a2),
        terminal_refreshed(a2, DisplayMode::Text, enc, false, r2),
        appended(a1, c2, b2),
        terminal_refreshed(b2, DisplayMode::Text, enc, false, q2),
        utf8_len(r1.text@) < TERMINAL_TEXT_CAP,
        utf8_len(r2.text@) < TERMINAL_TEXT_CAP,
        utf8_len(q2.text@) < TERMINAL_TEXT_CAP,
    ensures
        r2.text@ == q2.text@,
        r2.marker_spans@ == q2.marker_spans@,
{
    reveal_strlit("# ");
    assert(spans_end_inside(s0.marker_spans@)) by {
        assert forall|k: int| #![trigger s0.marker_spans@[k]] 0 <= k < s0.marker_spans@.len()
            implies s0.marker_spans@[k].1 > 0 by {
            assert(s0.marker_spans@[k].0 < s0.marker_spans@[k].1);
        }
    }
    let d0 = s0.decoded_len as int;
    let p = s0.buffer@.skip(d0);
    assert(a1.buffer@ == s0.buffer@ + c1);
    assert(terminal_from(a1) == d0 && d0 < a1.buffer@.len());
    assert(a1.buffer@.skip(d0) =~= p + c1);
    let (p1, x1) = choose|piece: Seq<char>, prefix: Seq<char>|
        crate::terminal::is_line_prefix(prefix, false)
        && crate::terminal::terminal_piece_fits(piece, a1.buffer@.skip(terminal_from(a1)), DisplayMode::Text, enc, terminal_fed(a1, enc))
        && refreshed(terminal_base_text(a1), terminal_base_spans(a1), piece, prefix, r1.text@, r1.marker_spans@)
        && (crate::display::streamed(DisplayMode::Text, enc) ==> stream_decoded(enc, r1.decoder.fed_for(enc))
            == stream_decoded(enc, terminal_fed(a1, enc)) + piece);
    lemma_uncut_refresh(s0.text@, s0.marker_spans@, p1, x1, r1.text@, r1.marker_spans@);

    assert(a2.buffer@ == a1.buffer@ + c2);
    let n1 = a1.buffer@.len() as int;
    assert(terminal_from(a2) == n1 && n1 < a2.buffer@.len());
    assert(a2.buffer@.skip(n1) =~= c2);
    let (p2, x2) = choose|piece: Seq<char>, prefix: Seq<char>|
        crate::terminal::is_line_prefix(prefix, false)
        && crate::terminal::terminal_piece_fits(piece, a2.buffer@.skip(terminal_from(a2)), DisplayMode::Text, enc, terminal_fed(a2, enc))
        && refreshed(terminal_base_text(a2), terminal_base_spans(a2), piece, prefix, r2.text@, r2.marker_spans@)
        && (crate::display::streamed(DisplayMode::Text, enc) ==> stream_decoded(enc, r2.decoder.fed_for(enc))
            == stream_decoded(enc, terminal_fed(a2, enc)) + piece);
    lemma_uncut_refresh(r1.text@, r1.marker_spans@, p2, x2, r2.text@, r2.marker_spans@);

    assert(b2.buffer@ == a1.buffer@ + c2);
    assert(terminal_from(b2) == d0 && d0 < b2.buffer@.len());
    assert(b2.buffer@.skip(d0) =~= (p + c1) + c2);
    let (q, y) = choose|piece: Seq<char>, prefix: Seq<char>|
        crate::terminal::is_line_prefix(prefix, false)
        && crate::terminal::terminal_piece_fits(piece, b2.buffer@.skip(terminal_from(b2)), DisplayMode::Text, enc, terminal_fed(b2, enc))
        && refreshed(terminal_base_text(b2), terminal_base_spans(b2), piece, prefix, q2.text@, q2.marker_spans@)
        && (crate::display::streamed(DisplayMode::Text, enc) ==> stream_decoded(enc, q2.decoder.fed_for(enc))
            == stream_decoded(enc, terminal_fed(b2, enc)) + piece);
    lemma_uncut_refresh(s0.text@, s0.marker_spans@, q, y, q2.text@, q2.marker_spans@);

    assert(p1 + p2 == q) by {
        if enc == TextEncoding::Ascii {
            assert(crate::codec::text::ascii_decoded((p + c1) + c2)
                =~= crate::codec::text::ascii_decoded(p + c1) + crate::codec::text::ascii_decoded(c2));
        } else {
            let f = terminal_fed(a1, enc);
            assert(terminal_fed(b2, enc) == f);
            assert(terminal_fed(a2, enc) == r1.decoder.fed_for(enc));
            assert(r1.decoder.fed_for(enc) == f + (p + c1));
            assert(r2.decoder.fed_for(enc) == (f + (p + c1)) + c2);
            assert(q2.decoder.fed_for(enc) == f + ((p + c1) + c2));
            assert((f + (p + c1)) + c2 =~= f + ((p + c1) + c2));
            let base = stream_decoded(enc, f);
            assert(base + q == (base + p1) + p2);
            assert(q =~= (base + q).skip(base.len() as int));
            assert(p1 + p2 =~= ((base + p1) + p2).skip(base.len() as int));
        }
    }
    lemma_with_prefixes_concat(s0.text@, s0.marker_spans@, p1, p2, x1);
}

/// An SGR reset (an empty parameter or `0`) returns to the default state whatever came
/// before: default text color, no background, bold off; so a color `30`–`37` after it is
/// the normal (not bright) color, even after bold was on.
pub proof fn law_sgr_reset_clears_bold_and_colors(st: crate::ansi::SgrState, k: u8)
    requires
        k < 8,
    ensures
        crate::ansi::sgr_param(Seq::empty(), st)
            == (crate::ansi::SgrState { fg: crate::ansi::TermColor::Text, bg: crate::ansi::TermColor::Transparent, bold: false }),
        crate::ansi::sgr_param(seq!['0'], st)
            == (crate::ansi::SgrState { fg: crate::ansi::TermColor::Text, bg: crate::ansi::TermColor::Transparent, bold: false }),
        crate::ansi::sgr_param(seq!['3', ((48 + k) as u8) as char], crate::ansi::sgr_param(seq!['0'], st)).fg
            == crate::ansi::TermColor::Normal(k),
        crate::ansi::sgr_param(seq!['1'], st).bold,
        crate::ansi::sgr_param(seq!['3', ((48 + k) as u8) as char], crate::ansi::sgr_param(seq!['1'], st)).fg
            == crate::ansi::TermColor::Bright(k),
{
    let d = ((48 + k) as u8) as char;
    let p = seq!['3', d];
    assert(p.drop_last() =~= seq!['3']);
    assert(seq!['3'].drop_last() =~= Seq::<char>::empty());
    assert(crate::strs::digits_value(Seq::<char>::empty()) == 0);
    assert(('3' as int) == 51);
    assert(seq!['3'].last() == '3');
    assert(crate::strs::digits_value(seq!['3']) == 3);
    assert(p.last() == d && (d as int) == 48 + k);
    assert(crate::strs::digits_value(p) == 30 + k);
    assert(crate::strs::all_digits(p)) by {
        assert forall|i: int| 0 <= i < p.len() implies crate::strs::is_digit(#[trigger] p[i]) by {}
    }
    assert(p != seq!['1'] && p != seq!['2', '2'] && p != seq!['3', '9'] && p != seq!['4', '9']) by {
        assert(p.len() == 2 && p[0] == '3' && p[1] != '9');
        assert(seq!['2', '2'][0] == '2');
        assert(seq!['4', '9'][0] == '4');
        assert(seq!['3', '9'][1] == '9');
    }
    assert(p != Seq::<char>::empty() && p != seq!['0']) by {
        assert(p.len() == 2);
    }
    assert(crate::ansi::u16_param(p) == Some((30 + k) as nat));
    assert(seq!['1'] != Seq::<char>::empty() && seq!['1'] != seq!['0']) by {
        assert(seq!['1'].len() == 1 && seq!['1'][0] == '1' && seq!['0'][0] == '0');
    }
}

/// Sending a queue sends each checked, non-blank entry with exactly the bytes that sending
/// its content from the send box gives with the same line ending, after the entries before
/// it and with its own delay.
pub proof fn law_queue_entry_sends_what_the_send_box_sends(
    items: Seq<crate::config::QueueItem>,
    it: crate::config::QueueItem,
    le: crate::config::LineEnding,
)
    requires
        queue_plan(items, le) is Ready,
        it.selected,
        trim_chars(it.content@).len() > 0,
    ensures
        match (queue_plan(items, le), content_bytes(it.content@, it.mode, le)) {
            (QueuePlan::Ready(sends, skipped), HexOutcome::Bytes(b)) => b.len() > 0
                ==> queue_plan(items.push(it), le) == QueuePlan::Ready(sends.push((b, it.delay_ms)), skipped),
            _ => true,
        },
{
    assert(items.push(it).drop_last() =~= items);
}

/// A checked, non-blank text entry of a queue is sent as its UTF-8 bytes followed by the
/// chosen line ending.
pub proof fn law_queue_text_entry_ends_with_the_line_ending(
    items: Seq<crate::config::QueueItem>,
    it: crate::config::QueueItem,
    le: crate::config::LineEnding,
)
    requires
        queue_plan(items, le) is Ready,
        it.selected,
        it.mode == crate::config::SendMode::Text,
        trim_chars(it.content@).len() > 0,
    ensures
        match queue_plan(items, le) {
            QueuePlan::Ready(sends, skipped) => queue_plan(items.push(it), le) == QueuePlan::Ready(
                sends.push((vstd::utf8::encode_utf8(it.content@) + crate::config::line_ending_bytes(le), it.delay_ms)),
                skipped,
            ),
            _ => true,
        },
{
    assert(items.push(it).drop_last() =~= items);
    let c = it.content@;
    if c.len() == 0 {
        assert(trim_chars(c) == c);
    }
    assert(vstd::utf8::encode_utf8(c).len() >= 1);
}

/// Every character is a hexadecimal digit.
pub open spec fn all_hex_digits(t: Seq<char>) -> bool {
    forall|i: int| 0 <= i < t.len() ==> (#[trigger] hex_digit_value(t[i])) is Some
}

/// The value of the `k`-th pair of digits, high digit first.
pub open spec fn digit_pair(t: Seq<char>, k: int) -> int {
    hex_digit_value(t[2 * k])->0 * 16 + hex_digit_value(t[2 * k + 1])->0
}

proof fn lemma_decode_pairs_of_digits(t: Seq<char>)
    requires
        t.len() % 2 == 0,
        all_hex_digits(t),
    ensures
        decode_pairs(t) matches TokenOutcome::Bytes(b) && 2 * b.len() == t.len()
            && forall|k: int| 0 <= k < b.len() ==> b[k] == #[trigger] digit_pair(t, k),
    decreases t.len(),
{
    if t.len() > 0 {
        let r = t.skip(2);
        assert forall|i: int| 0 <= i < r.len() implies (#[trigger] hex_digit_value(r[i])) is Some by {
            assert(r[i] == t[i + 2]);
            assert(hex_digit_value(t[i + 2]) is Some);
        }
        lemma_decode_pairs_of_digits(r);
        assert(hex_digit_value(t[0]) is Some && hex_digit_value(t[1]) is Some);
        let x = hex_digit_value(t[0])->0;
        let y = hex_digit_value(t[1])->0;
        assert(x < 16 && y < 16);
        match decode_pairs(r) {
            TokenOutcome::Bytes(rest) => {
                let b = seq![((x * 16 + y) as u8)] + rest;
                assert(decode_pairs(t) == TokenOutcome::Bytes(b));
                assert forall|k: int| 0 <= k < b.len() implies b[k] == #[trigger] digit_pair(t, k) by {
                    if k > 0 {
                        assert(b[k] == rest[k - 1]);
                        assert(digit_pair(r, k - 1) == digit_pair(t, k)) by {
                            assert(r[2 * (k - 1)] == t[2 * k]);
                            assert(r[2 * (k - 1) + 1] == t[2 * k + 1]);
                        }
                    }
                }
            },
            _ => {},
        }
    }
}

proof fn lemma_hex_scan_no_separator(s: Seq<char>)
    requires
        all_hex_digits(s),
    ensures
        hex_scan(s) == (HexOutcome::Bytes(Seq::empty()), s),
    decreases s.len(),
{
    if s.len() > 0 {
        let p = s.drop_last();
        assert forall|i: int| 0 <= i < p.len() implies (#[trigger] hex_digit_value(p[i])) is Some by {
            assert(p[i] == s[i]);
        }
        lemma_hex_scan_no_separator(p);
        assert(hex_digit_value(s.last()) is Some);
        assert(!is_separator(s.last()));
        assert(p.push(s.last()) =~= s);
    }
}

proof fn lemma_ascii_utf8_len(s: Seq<char>)
    requires
        all_hex_digits(s),
    ensures
        utf8_len(s) == s.len(),
    decreases s.len(),
{
    if s.len() > 0 {
        let p = s.drop_last();
        assert forall|i: int| 0 <= i < p.len() implies (#[trigger] hex_digit_value(p[i])) is Some by {
            assert(p[i] == s[i]);
        }
        lemma_ascii_utf8_len(p);
        assert(hex_digit_value(s.last()) is Some);
    }
}

/// HEX without separators or prefix, `2n` digits long, reads as `n` bytes in the order of
/// its digit pairs: byte `k` is the value of digits `2k` (high) and `2k + 1` (low).
pub proof fn law_hex_digits_read_pair_by_pair_in_order(s: Seq<char>)
    requires
        s.len() > 0,
        s.len() % 2 == 0,
        all_hex_digits(s),
    ensures
        hex_parse(s) matches HexOutcome::Bytes(b) && 2 * b.len() == s.len()
            && forall|k: int| 0 <= k < b.len() ==> b[k] == #[trigger] digit_pair(s, k),
{
    lemma_hex_scan_no_separator(s);
    lemma_ascii_utf8_len(s);
    assert(hex_digit_value(s[1]) is Some);
    assert(strip_hex_prefix(s) == s);
    lemma_decode_pairs_of_digits(s);
    match decode_pairs(s) {
        TokenOutcome::Bytes(b) => {
            assert(Seq::<u8>::empty() + b =~= b);
        },
        _ => {},
    }
}

proof fn lemma_without_absent(h: Seq<Seq<char>>, e: Seq<char>)
    requires
        !h.contains(e),
    ensures
        without(h, e) == h,
    decreases h.len(),
{
    if h.len() > 0 {
        assert(!h.drop_last().contains(e)) by {
            if h.drop_last().contains(e) {
                let j = choose|j: int| 0 <= j < h.drop_last().len() && h.drop_last()[j] == e;
                assert(h[j] == e);
            }
        }
        lemma_without_absent(h.drop_last(), e);
        assert(h[h.len() - 1] != e);
        assert(h.drop_last().push(h.last()) =~= h);
    }
}

/// Sending a line that is not in the history yet puts its trimmed text first and keeps
/// every earlier entry after it in the same order; when the history is full only the
/// oldest (last) entry is dropped.
pub proof fn law_new_line_goes_first_and_only_the_oldest_drops(h: Seq<Seq<char>>, line: Seq<char>)
    requires
        trim_chars(line).len() > 0,
        !h.contains(trim_chars(line)),
        h.len() <= HISTORY_MAX,
    ensures
        h.len() < HISTORY_MAX ==> history_after(h, line) == seq![trim_chars(line)] + h,
        h.len() == HISTORY_MAX ==> history_after(h, line) == seq![trim_chars(line)] + h.drop_last(),
{
    let t = trim_chars(line);
    lemma_without_absent(h, t);
    if h.len() == HISTORY_MAX {
        assert((seq![t] + h).take(HISTORY_MAX as int) =~= seq![t] + h.drop_last());
    }
}

/// A line break as the terminal shows it: `'\n'`, or a bare `'\r'`.
pub open spec fn shows_break(c: char) -> bool {
    c == '\n' || c == '\r'
}

/// Position `i` of `t` starts a shown line: it is the first character, or it follows a
/// line break.
pub open spec fn starts_shown_line(t: Seq<char>, i: int) -> bool {
    i == 0 || shows_break(t[i - 1])
}

/// In the part of `t` from `from` on, every shown line that has content begins with the
/// prefix, and a span records where that prefix lies.
pub open spec fn prefixed_lines(t: Seq<char>, sp: Seq<(usize, usize)>, from: int, prefix: Seq<char>) -> bool {
    forall|i: int|
        #![trigger starts_shown_line(t, i)]
        from <= i < t.len() && starts_shown_line(t, i) && !shows_break(t[i]) ==> {
            &&& i + prefix.len() <= t.len()
            &&& t.subrange(i, i + prefix.len()) == prefix
            &&& exists|k: int| 0 <= k < sp.len() && #[trigger] sp[k] == (i as usize, (i + prefix.len()) as usize)
        }
}

/// The terminal puts the line prefix at the start of every line it shows: after `'\n'`
/// and after a bare `'\r'` alike (the renderer shows a lone CR as a line break), each
/// line with content starts with the prefix and has a span for it.
pub proof fn law_every_shown_line_starts_with_the_prefix(
    text: Seq<char>,
    spans: Seq<(usize, usize)>,
    s: Seq<char>,
    prefix: Seq<char>,
)
    requires
        prefix.len() > 0,
        forall|j: int| 0 <= j < prefix.len() ==> !shows_break(#[trigger] prefix[j]),
    ensures
        ({
            let (t, sp) = with_prefixes(text, spans, s, prefix);
            prefixed_lines(t, sp, text.len() as int, prefix)
        }),
    decreases s.len(),
{
    let (t, sp) = with_prefixes(text, spans, s, prefix);
    if s.len() == 0 {
        assert(t == text);
    } else {
        law_every_shown_line_starts_with_the_prefix(text, spans, s.drop_last(), prefix);
        let (t0, sp0) = with_prefixes(text, spans, s.drop_last(), prefix);
        lemma_with_prefixes_extends(text, spans, s.drop_last(), prefix);
        let c = s.last();
        let n = t0.len() as int;
        assert forall|i: int|
            #![trigger starts_shown_line(t, i)]
            text.len() <= i < t.len() && starts_shown_line(t, i) && !shows_break(t[i]) implies {
                &&& i + prefix.len() <= t.len()
                &&& t.subrange(i, i + prefix.len()) == prefix
                &&& exists|k: int| 0 <= k < sp.len() && #[trigger] sp[k] == (i as usize, (i + prefix.len()) as usize)
            } by {
            if crate::terminal::at_line_start(t0) && !crate::terminal::is_break(c) {
                assert(t == (t0 + prefix).push(c));
                assert(sp == sp0.push((n as usize, (n + prefix.len()) as usize)));
                if i < n {
                    assert(t[i] == t0[i]);
                    assert(starts_shown_line(t0, i)) by {
                        if i > 0 {
                            assert(t[i - 1] == t0[i - 1]);
                        }
                    }
                    let k = choose|k: int| 0 <= k < sp0.len() && #[trigger] sp0[k] == (i as usize, (i + prefix.len()) as usize);
                    assert(sp[k] == sp0[k]);
                    assert(t.subrange(i, i + prefix.len()) =~= t0.subrange(i, i + prefix.len()));
                } else if i == n {
                    assert(t.subrange(i, i + prefix.len()) =~= prefix);
                    assert(sp[sp0.len() as int] == (i as usize, (i + prefix.len()) as usize));
                } else if i < n + prefix.len() {
                    assert(t[i - 1] == prefix[i - 1 - n]);
                    assert(i > 0);
                } else {
                    assert(i == n + prefix.len());
                    assert(t[i - 1] == prefix[prefix.len() - 1]);
                }
            } else {
                assert(t == t0.push(c));
                assert(sp == sp0);
                if i < n {
                    assert(t[i] == t0[i]);
                    assert(starts_shown_line(t0, i)) by {
                        if i > 0 {
                            assert(t[i - 1] == t0[i - 1]);
                        }
                    }
                    assert(t.subrange(i, i + prefix.len()) =~= t0.subrange(i, i + prefix.len()));
                } else {
                    assert(i == n);
                    assert(t[i] == c);
                    if n > 0 {
                        assert(t[i - 1] == t0.last());
                    }
                }
            }
        }
    }
}

proof fn lemma_with_prefixes_extends(
    text: Seq<char>,
    spans: Seq<(usize, usize)>,
    s: Seq<char>,
    prefix: Seq<char>,
)
    ensures
        with_prefixes(text, spans, s, prefix).0.len() >= text.len(),
    decreases s.len(),
{
    if s.len() > 0 {
        lemma_with_prefixes_extends(text, spans, s.drop_last(), prefix);
    }
}

/// The input line's prompt starts a shown line: right after `'\n'`, a bare `'\r'` or an
/// empty text the prompt comes first; after other text, with Enter sending, a line break
/// comes before it, and with keys sent at once no prompt is shown.
pub proof fn law_input_prompt_starts_a_shown_line(t: TerminalState, enter_sends: bool, blink_on: bool)
    ensures
        ({
            let text = t.text@;
            let runs = crate::terminal_view::input_runs(t, enter_sends, blink_on);
            let prompt = (t.prompt@, crate::ansi::TermColor::Prompt, crate::ansi::TermColor::Transparent);
            &&& (text.len() == 0 || shows_break(text.last())) ==> runs[0] == prompt
            &&& (text.len() > 0 && !shows_break(text.last()) && enter_sends) ==> {
                &&& runs[0] == (seq!['\n'], crate::ansi::TermColor::Text, crate::ansi::TermColor::Transparent)
                &&& runs[1] == prompt
            }
            &&& (text.len() > 0 && !shows_break(text.last()) && !enter_sends) ==>
                forall|k: int| 0 <= k < runs.len() ==> (#[trigger] runs[k]).1 != crate::ansi::TermColor::Prompt || runs[k].2 != crate::ansi::TermColor::Transparent
        }),
{
}

} // verus!

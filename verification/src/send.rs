//! What is sent: the bytes of the send input and of queue entries, the send history, the
//! entries of a queue send, and the name shown for the chosen file.
use vstd::prelude::*;
use vstd::string::StringExecFns;
use crate::codec::hex::{hex_error_text, hex_parse, parse_hex, HexOutcome};

use crate::codec::hex::HexErrorKind;
use crate::config::{line_ending_bytes, AddItemOutcome, FileSendMode, ImportOutcome, LineEnding, QueueItem, SendMode, SendQueue};
use crate::i18n::{notice, notice_text, Language, Notice};
use crate::session::{Command, QueueSendItem};
use crate::strs::{chars_of, decimal, is_blank, is_unicode_whitespace, is_whitespace, string_from_chars, string_push, trim_chars, usize_to_string};
use vstd::utf8::encode_utf8;

verus! {

/// Most entries kept in the send history.
pub const HISTORY_MAX: usize = 20;

/// What sending content gives: its bytes, or why it cannot be sent.
pub open spec fn content_bytes(content: Seq<char>, mode: SendMode, le: LineEnding) -> HexOutcome {
    match mode {
        SendMode::Text => HexOutcome::Bytes(encode_utf8(content) + line_ending_bytes(le)),
        SendMode::Hex => hex_parse(content),
    }
}

/// The bytes to send for content in the given mode: text as UTF-8 with the line ending,
/// HEX as parsed (the line ending is not added).
pub fn bytes_for(content: &str, mode: SendMode, le: LineEnding, lang: Language) -> (r: Result<Vec<u8>, String>)
    ensures
        match content_bytes(content@, mode, le) {
            HexOutcome::Bytes(b) => r matches Ok(v) && v@ == b,
            HexOutcome::Fail(k, tok) => r matches Err(e) && e@ == hex_error_text(lang, k, tok),
        },
{
    match mode {
        SendMode::Text => {
            let mut b = vstd::slice::slice_to_vec(content.as_bytes());
            let le_bytes = le.bytes();
            let mut i: usize = 0;
            let ghost b0 = b@;
            while i < le_bytes.len()
                invariant
                    i <= le_bytes@.len(),
                    b@ == b0 + le_bytes@.take(i as int),
                decreases le_bytes@.len() - i,
            {
                b.push(le_bytes[i]);
                i = i + 1;
                assert(b@ =~= b0 + le_bytes@.take(i as int));
            }
            assert(le_bytes@.take(le_bytes@.len() as int) =~= le_bytes@);
            Ok(b)
        },
        SendMode::Hex => parse_hex(content, lang),
    }
}

/// The bytes to send for a queue entry.
pub fn item_bytes(item: &QueueItem, le: LineEnding, lang: Language) -> (r: Result<Vec<u8>, String>)
    ensures
        match content_bytes(item.content@, item.mode, le) {
            HexOutcome::Bytes(b) => r matches Ok(v) && v@ == b,
            HexOutcome::Fail(k, tok) => r matches Err(e) && e@ == hex_error_text(lang, k, tok),
        },
{
    bytes_for(item.content.as_str(), item.mode, le, lang)
}

/// The history with `entry` dropped wherever it occurs.
pub open spec fn without(h: Seq<Seq<char>>, entry: Seq<char>) -> Seq<Seq<char>>
    decreases h.len(),
{
    if h.len() == 0 {
        Seq::empty()
    } else {
        let r = without(h.drop_last(), entry);
        if h.last() == entry {
            r
        } else {
            r.push(h.last())
        }
    }
}

/// The texts of a list of strings.
pub open spec fn texts(h: Seq<String>) -> Seq<Seq<char>> {
    h.map_values(|s: String| s@)
}

/// The history after sending `line`: its trimmed text moves (or comes) to the front, at
/// most [`HISTORY_MAX`] entries are kept; blank lines leave the history alone.
pub open spec fn history_after(h: Seq<Seq<char>>, line: Seq<char>) -> Seq<Seq<char>> {
    let t = trim_chars(line);
    if t.len() == 0 {
        h
    } else {
        let r = seq![t] + without(h, t);
        if r.len() > HISTORY_MAX {
            r.take(HISTORY_MAX as int)
        } else {
            r
        }
    }
}

/// First position at or after `i` of a character that is not white space.
pub open spec fn first_non_ws(s: Seq<char>, i: int) -> int
    decreases s.len() - i,
{
    if i < 0 || i >= s.len() || !is_unicode_whitespace(s[i]) {
        i
    } else {
        first_non_ws(s, i + 1)
    }
}

proof fn lemma_trim_front(s: Seq<char>, i: int)
    requires
        0 <= i <= s.len(),
        forall|j: int| 0 <= j < i ==> is_unicode_whitespace(#[trigger] s[j]),
    ensures
        trim_chars(s) == trim_chars(s.skip(i)),
    decreases i,
{
    if i > 0 {
        assert(s.skip(1) =~= s.drop_first());
        assert forall|j: int| 0 <= j < i - 1 implies is_unicode_whitespace(#[trigger] s.drop_first()[j]) by {
            assert(s.drop_first()[j] == s[j + 1]);
        }
        lemma_trim_front(s.drop_first(), i - 1);
        assert(s.drop_first().skip(i - 1) =~= s.skip(i));
    } else {
        assert(s.skip(0) =~= s);
    }
}

proof fn lemma_trim_back(s: Seq<char>, e: int)
    requires
        0 <= e <= s.len(),
        s.len() == 0 || !is_unicode_whitespace(s[0]) || e == 0,
        forall|j: int| e <= j < s.len() ==> is_unicode_whitespace(#[trigger] s[j]),
        e > 0 ==> !is_unicode_whitespace(s[e - 1]),
    ensures
        trim_chars(s) == s.take(e),
    decreases s.len() - e,
{
    if e == s.len() {
        assert(s.take(e) =~= s);
        if s.len() > 0 {
            assert(!is_unicode_whitespace(s.last()));
        }
    } else {
        if e == 0 {
            // every character is white space
            crate::strs::lemma_trim_empty_iff_all_whitespace(s);
            assert(s.take(0) =~= Seq::<char>::empty());
        } else {
            assert(is_unicode_whitespace(s.last()));
            assert(!is_unicode_whitespace(s[0]));
            assert forall|j: int| e <= j < s.drop_last().len() implies is_unicode_whitespace(#[trigger] s.drop_last()[j]) by {
                assert(s.drop_last()[j] == s[j]);
            }
            lemma_trim_back(s.drop_last(), e);
            assert(s.drop_last().take(e) =~= s.take(e));
        }
    }
}

/// The generic name a queue with a blank name is exported under.
pub open spec fn queue_export_default(lang: Language) -> Seq<char> {
    match lang {
        Language::Chinese => "队列"@,
        Language::English => "queue"@,
    }
}

/// The file name (without extension) a queue is exported under: its name without
/// surrounding white space, or a generic name when that leaves nothing.
pub fn queue_export_name(name: &str, lang: Language) -> (s: String)
    ensures
        s@ == if trim_chars(name@).len() == 0 { queue_export_default(lang) } else { trim_chars(name@) },
{
    let t = trimmed(name);
    if t.len() == 0 {
        match lang {
            Language::Chinese => String::from_str("队列"),
            Language::English => String::from_str("queue"),
        }
    } else {
        string_from_chars(t.as_slice())
    }
}

/// The characters of a string without leading and trailing white space (`str::trim`).
pub fn trimmed(s: &str) -> (t: Vec<char>)
    ensures
        t@ == trim_chars(s@),
{
    let c = chars_of(s);
    let n = c.len();
    let mut b: usize = 0;
    while b < n && is_whitespace(c[b])
        invariant
            b <= n == c@.len(),
            forall|j: int| 0 <= j < b ==> is_unicode_whitespace(#[trigger] c@[j]),
        decreases n - b,
    {
        b = b + 1;
    }
    let mut e: usize = n;
    while e > b && is_whitespace(c[e - 1])
        invariant
            b <= e <= n == c@.len(),
            forall|j: int| e <= j < n ==> is_unicode_whitespace(#[trigger] c@[j]),
        decreases e - b,
    {
        e = e - 1;
    }
    let mut t: Vec<char> = Vec::new();
    let mut i = b;
    while i < e
        invariant
            b <= i <= e <= n == c@.len(),
            t@ == c@.subrange(b as int, i as int),
        decreases e - i,
    {
        t.push(c[i]);
        i = i + 1;
        assert(t@ =~= c@.subrange(b as int, i as int));
    }
    proof {
        lemma_trim_front(c@, b as int);
        let rest = c@.skip(b as int);
        assert(b < n ==> !is_unicode_whitespace(rest[0]));
        assert forall|j: int| (e - b) <= j < rest.len() implies is_unicode_whitespace(#[trigger] rest[j]) by {
            assert(rest[j] == c@[j + b]);
        }
        if e > b {
            assert(rest[e - b - 1] == c@[e - 1]);
        }
        lemma_trim_back(rest, (e - b) as int);
        assert(rest.take((e - b) as int) =~= c@.subrange(b as int, e as int));
    }
    t
}

/// Records a sent line in the history (most recent first, no duplicates, at most
/// [`HISTORY_MAX`] entries; blank lines are not recorded).
pub fn record_history(history: &mut Vec<String>, line: &str)
    ensures
        texts(final(history)@) == history_after(texts(old(history)@), line@),
{
    let t = trimmed(line);
    if t.len() == 0 {
        return;
    }
    let entry = string_from_chars(t.as_slice());
    let ghost h = texts(history@);
    let mut kept: Vec<String> = Vec::new();
    kept.push(entry.clone());
    let mut i: usize = 0;
    while i < history.len()
        invariant
            i <= history@.len(),
            h == texts(history@),
            entry@ == trim_chars(line@),
            texts(kept@) == seq![entry@] + without(h.take(i as int), entry@),
        decreases history@.len() - i,
    {
        assert(h.take(i + 1).drop_last() =~= h.take(i as int));
        assert(h.take(i + 1).last() == history@[i as int]@);
        if history[i] != entry {
            let ghost before = kept@;
            kept.push(history[i].clone());
            assert(texts(kept@) =~= texts(before).push(history@[i as int]@));
        }
        i = i + 1;
    }
    assert(h.take(h.len() as int) =~= h);
    if kept.len() > HISTORY_MAX {
        kept.truncate(HISTORY_MAX);
        assert(texts(kept@) =~= (seq![entry@] + without(h, entry@)).take(HISTORY_MAX as int));
    }
    *history = kept;
}

/// The name shown for the chosen file: names longer than `max_chars` characters keep their
/// end (with the extension) after an ellipsis.
pub open spec fn shortened_name(name: Seq<char>, max_chars: nat) -> Seq<char> {
    if name.len() <= max_chars {
        name
    } else {
        let keep: int = if max_chars >= 1 { max_chars - 1 } else { 0 };
        seq!['\u{2026}'] + name.skip(name.len() - keep)
    }
}

/// Shortens a file name for the file button.
pub fn shorten_file_name(name: &str, max_chars: usize) -> (s: String)
    ensures
        s@ == shortened_name(name@, max_chars as nat),
{
    let c = chars_of(name);
    let count = c.len();
    if count <= max_chars {
        return string_from_chars(c.as_slice());
    }
    let keep = if max_chars >= 1 { max_chars - 1 } else { 0 };
    let mut s = String::new();
    string_push(&mut s, '\u{2026}');
    let mut i = count - keep;
    while i < count
        invariant
            keep < count,
            count - keep <= i <= count == c@.len(),
            s@ == seq!['\u{2026}'] + c@.subrange(count - keep, i as int),
        decreases count - i,
    {
        string_push(&mut s, c[i]);
        i = i + 1;
        assert(s@ =~= seq!['\u{2026}'] + c@.subrange(count - keep, i as int));
    }
    assert(c@.subrange(count - keep, count as int) =~= c@.skip(count - keep));
    s
}

/// A message for the status line.
pub struct StatusLine {
    pub text: String,
    pub is_error: bool,
}

/// What pressing Send gives: the bytes to write, if any, and the status line.
pub struct SendReply {
    pub write: Option<Vec<u8>>,
    pub status: StatusLine,
}

/// Sends the send input: its bytes are written and its text recorded in the history;
/// input that gives no bytes, or HEX that does not parse, is refused with a message.
pub fn send_current_input(
    input: &str,
    mode: SendMode,
    le: LineEnding,
    lang: Language,
    history: &mut Vec<String>,
) -> (r: SendReply)
    ensures
        match content_bytes(input@, mode, le) {
            HexOutcome::Fail(k, tok) => {
                &&& r.write is None
                &&& r.status.text@ == hex_error_text(lang, k, tok) && r.status.is_error
                &&& final(history)@ == old(history)@
            },
            HexOutcome::Bytes(b) => if b.len() == 0 {
                &&& r.write is None
                &&& r.status.text@ == notice_text(lang, Notice::EmptySend, Seq::empty(), Seq::empty())
                &&& r.status.is_error
                &&& final(history)@ == old(history)@
            } else {
                &&& r.write matches Some(v) && v@ == b
                &&& texts(final(history)@) == history_after(texts(old(history)@), input@)
                &&& r.status.text@ == notice_text(lang, Notice::SentBytes, decimal(b.len()), Seq::empty())
                &&& !r.status.is_error
            },
        },
{
    proof {
        reveal_strlit("");
    }
    match bytes_for(input, mode, le, lang) {
        Err(e) => SendReply { write: None, status: StatusLine { text: e, is_error: true } },
        Ok(bytes) => {
            if bytes.len() == 0 {
                let text = notice(lang, Notice::EmptySend, "", "");
                SendReply { write: None, status: StatusLine { text, is_error: true } }
            } else {
                record_history(history, input);
                let n = usize_to_string(bytes.len());
                let text = notice(lang, Notice::SentBytes, n.as_str(), "");
                SendReply { write: Some(bytes), status: StatusLine { text, is_error: false } }
            }
        },
    }
}

/// Turning periodic sending on starts it with the send input's bytes (refused, with a
/// message, when they are empty or the HEX does not parse); turning it off stops it.
pub fn toggle_periodic(
    on: bool,
    input: &str,
    mode: SendMode,
    le: LineEnding,
    interval_ms: u32,
    lang: Language,
) -> (r: Result<Command, String>)
    ensures
        !on ==> r matches Ok(Command::StopPeriodic),
        on ==> match content_bytes(input@, mode, le) {
            HexOutcome::Fail(k, tok) => r matches Err(e) && e@ == hex_error_text(lang, k, tok),
            HexOutcome::Bytes(b) => if b.len() == 0 {
                r matches Err(e) && e@ == notice_text(lang, Notice::EmptyPeriodic, Seq::empty(), Seq::empty())
            } else {
                r matches Ok(Command::StartPeriodic { bytes, interval_ms: i }) && bytes@ == b && i == interval_ms
            },
        },
{
    proof {
        reveal_strlit("");
    }
    if !on {
        return Ok(Command::StopPeriodic);
    }
    match bytes_for(input, mode, le, lang) {
        Err(e) => Err(e),
        Ok(bytes) => {
            if bytes.len() == 0 {
                Err(notice(lang, Notice::EmptyPeriodic, "", ""))
            } else {
                Ok(Command::StartPeriodic { bytes, interval_ms })
            }
        },
    }
}

/// How a queue send turns out, entry by entry: the entries to send (bytes and delay) with
/// the number left out so far, or the first entry that cannot be sent.
pub enum QueuePlan {
    Ready(Seq<(Seq<u8>, u32)>, nat),
    Invalid(nat, HexErrorKind, Seq<char>),
}

/// Entries not checked, blank, or giving no bytes are left out; the first entry whose HEX
/// does not parse stops the plan.
pub open spec fn queue_plan(items: Seq<QueueItem>, le: LineEnding) -> QueuePlan
    decreases items.len(),
{
    if items.len() == 0 {
        QueuePlan::Ready(Seq::empty(), 0)
    } else {
        match queue_plan(items.drop_last(), le) {
            QueuePlan::Ready(sends, skipped) => {
                let it = items.last();
                if !it.selected || trim_chars(it.content@).len() == 0 {
                    QueuePlan::Ready(sends, skipped + 1)
                } else {
                    match content_bytes(it.content@, it.mode, le) {
                        HexOutcome::Bytes(b) => if b.len() == 0 {
                            QueuePlan::Ready(sends, skipped + 1)
                        } else {
                            QueuePlan::Ready(sends.push((b, it.delay_ms)), skipped)
                        },
                        HexOutcome::Fail(k, tok) => QueuePlan::Invalid((items.len() - 1) as nat, k, tok),
                    }
                }
            },
            other => other,
        }
    }
}

proof fn lemma_plan_sticky(items: Seq<QueueItem>, le: LineEnding, i: int, j: int)
    requires
        0 <= i <= j <= items.len(),
        !(queue_plan(items.take(i), le) is Ready),
    ensures
        queue_plan(items.take(j), le) == queue_plan(items.take(i), le),
    decreases j - i,
{
    if j > i {
        lemma_plan_sticky(items, le, i, j - 1);
        assert(items.take(j).drop_last() =~= items.take(j - 1));
    }
}

/// The entries to send, as plain values.
pub open spec fn send_items_view(v: Seq<QueueSendItem>) -> Seq<(Seq<u8>, u32)> {
    v.map_values(|q: QueueSendItem| (q.bytes@, q.delay_ms))
}

/// What pressing "send queue" gives.
pub enum QueueStart {
    /// A dialog with this message (the queue is empty, or nothing in it can be sent).
    Alert(String),
    /// An entry cannot be sent; the status line shows why.
    Invalid(String),
    /// Start sending; `note` tells how many entries were left out, when any were.
    Start { command: Command, note: Option<String> },
}

/// Prepares sending the queue: each checked, non-blank entry's bytes with its delay.
pub fn start_queue_send(queue: &SendQueue, le: LineEnding, lang: Language) -> (r: QueueStart)
    ensures
        queue.items@.len() == 0 ==> (r matches QueueStart::Alert(m)
            && m@ == notice_text(lang, Notice::QueueEmptyAlert, Seq::empty(), Seq::empty())),
        queue.items@.len() > 0 ==> match queue_plan(queue.items@, le) {
            QueuePlan::Invalid(i, k, tok) => r matches QueueStart::Invalid(m)
                && m@ == notice_text(lang, Notice::InvalidItem, decimal(i + 1), hex_error_text(lang, k, tok)),
            QueuePlan::Ready(sends, skipped) => if sends.len() == 0 {
                r matches QueueStart::Alert(m)
                    && m@ == notice_text(lang, Notice::NothingToSendAlert, Seq::empty(), Seq::empty())
            } else {
                &&& r matches QueueStart::Start { command: Command::StartQueue { name, items }, note }
                &&& name@ == queue.name@
                &&& send_items_view(items@) == sends
                &&& skipped == 0 ==> note is None
                &&& skipped > 0 ==> (note matches Some(t)
                    && t@ == notice_text(lang, Notice::SkippedItems, decimal(skipped), Seq::empty()))
            },
        },
{
    proof {
        reveal_strlit("");
    }
    let n = queue.items.len();
    if n == 0 {
        return QueueStart::Alert(notice(lang, Notice::QueueEmptyAlert, "", ""));
    }
    let mut out: Vec<QueueSendItem> = Vec::new();
    let mut skipped: usize = 0;
    let mut i: usize = 0;
    assert(queue.items@.take(0) =~= Seq::<QueueItem>::empty());
    assert(send_items_view(out@) =~= Seq::<(Seq<u8>, u32)>::empty());
    while i < n
        invariant
            i <= n == queue.items@.len(),
            skipped <= i,
            queue_plan(queue.items@.take(i as int), le) == QueuePlan::Ready(send_items_view(out@), skipped as nat),
        decreases n - i,
    {
        let item = &queue.items[i];
        let ghost pre = queue.items@.take(i as int);
        let ghost nxt = queue.items@.take(i + 1);
        assert(nxt.drop_last() =~= pre);
        assert(nxt.last() == queue.items@[i as int]);
        let chars = chars_of(item.content.as_str());
        if !item.selected || is_blank(chars.as_slice()) {
            skipped = skipped + 1;
        } else {
            match item_bytes(item, le, lang) {
                Err(e) => {
                    proof {
                        lemma_plan_sticky(queue.items@, le, i + 1, n as int);
                        assert(queue.items@.take(n as int) =~= queue.items@);
                    }
                    let idx = usize_to_string(i + 1);
                    return QueueStart::Invalid(notice(lang, Notice::InvalidItem, idx.as_str(), e.as_str()));
                },
                Ok(bytes) => {
                    if bytes.len() == 0 {
                        skipped = skipped + 1;
                    } else {
                        let ghost before = out@;
                        let ghost bv = bytes@;
                        out.push(QueueSendItem { bytes, delay_ms: item.delay_ms });
                        assert(send_items_view(out@) =~= send_items_view(before).push((bv, item.delay_ms)));
                    }
                },
            }
        }
        i = i + 1;
    }
    assert(queue.items@.take(n as int) =~= queue.items@);
    if out.len() == 0 {
        return QueueStart::Alert(notice(lang, Notice::NothingToSendAlert, "", ""));
    }
    let note = if skipped > 0 {
        let k = usize_to_string(skipped);
        Some(notice(lang, Notice::SkippedItems, k.as_str(), ""))
    } else {
        None
    };
    QueueStart::Start { command: Command::StartQueue { name: queue.name.clone(), items: out }, note }
}

/// The status line for adding the send input to the queue.
pub fn add_item_status(r: AddItemOutcome, lang: Language) -> (s: StatusLine)
    ensures
        s.text@ == notice_text(
            lang,
            match r {
                AddItemOutcome::Added => Notice::AddedToQueue,
                AddItemOutcome::EmptyContent => Notice::EmptySend,
                AddItemOutcome::QueueFull => Notice::QueueFull,
            },
            Seq::empty(),
            Seq::empty(),
        ),
        s.is_error == !(r is Added),
{
    proof {
        reveal_strlit("");
    }
    match r {
        AddItemOutcome::Added => StatusLine { text: notice(lang, Notice::AddedToQueue, "", ""), is_error: false },
        AddItemOutcome::EmptyContent => StatusLine { text: notice(lang, Notice::EmptySend, "", ""), is_error: true },
        AddItemOutcome::QueueFull => StatusLine { text: notice(lang, Notice::QueueFull, "", ""), is_error: true },
    }
}

/// The status line for importing entries into the queue.
pub fn import_status(r: ImportOutcome, lang: Language) -> (s: StatusLine)
    ensures
        match r {
            ImportOutcome::NothingToImport => s.text@ == notice_text(lang, Notice::NoImportableItems, Seq::empty(), Seq::empty())
                && s.is_error,
            ImportOutcome::LimitReached(max) => s.text@ == notice_text(lang, Notice::QueueLimitReached, decimal(max as nat), Seq::empty())
                && s.is_error,
            ImportOutcome::ImportedSome { added, skipped } => s.text@ == notice_text(
                lang,
                Notice::ImportedSome,
                decimal(added as nat),
                decimal(skipped as nat),
            ) && !s.is_error,
            ImportOutcome::Imported(added) => s.text@ == notice_text(lang, Notice::Imported, decimal(added as nat), Seq::empty())
                && !s.is_error,
        },
{
    proof {
        reveal_strlit("");
    }
    match r {
        ImportOutcome::NothingToImport => StatusLine { text: notice(lang, Notice::NoImportableItems, "", ""), is_error: true },
        ImportOutcome::LimitReached(max) => {
            let m = usize_to_string(max);
            StatusLine { text: notice(lang, Notice::QueueLimitReached, m.as_str(), ""), is_error: true }
        },
        ImportOutcome::ImportedSome { added, skipped } => {
            let a = usize_to_string(added);
            let k = usize_to_string(skipped);
            StatusLine { text: notice(lang, Notice::ImportedSome, a.as_str(), k.as_str()), is_error: false }
        },
        ImportOutcome::Imported(added) => {
            let a = usize_to_string(added);
            StatusLine { text: notice(lang, Notice::Imported, a.as_str(), ""), is_error: false }
        },
    }
}

/// Starts sending the chosen file with the current mode, line ending and line interval;
/// without a chosen file it is refused with a message.
pub fn start_file_command(
    pending: Option<String>,
    mode: FileSendMode,
    le: LineEnding,
    interval_ms: u32,
    lang: Language,
) -> (r: Result<Command, String>)
    ensures
        pending is None ==> (r matches Err(e)
            && e@ == notice_text(lang, Notice::ChooseFileFirst, Seq::empty(), Seq::empty())),
        pending matches Some(p) ==> (r matches Ok(Command::StartFile { path, mode: m, line_ending, line_interval_ms })
            && path == p && m == mode && line_ending@ == line_ending_bytes(le) && line_interval_ms == interval_ms),
{
    proof {
        reveal_strlit("");
    }
    match pending {
        None => Err(notice(lang, Notice::ChooseFileFirst, "", "")),
        Some(path) => Ok(Command::StartFile { path, mode, line_ending: le.bytes(), line_interval_ms: interval_ms }),
    }
}

} // verus!

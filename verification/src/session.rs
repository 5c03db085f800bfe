//! The serial session's decisions: commands from the interface, the periodic, queue and
//! file jobs, and the retry rule of writes.
//!
//! The session runs a writer loop that owns the port.  Each step of that loop is decided
//! here from plain values: the loop hands in a command or the current time (milliseconds
//! of a monotonic clock) and performs the write, open or file read it is told to, then
//! hands back the result.
use vstd::prelude::*;
use crate::config::{FileSendMode, PortSettings};
use crate::i18n::{session_message, session_text, Language, SessionText};

verus! {

/// A queue entry ready to send: its bytes and the delay after it.
#[derive(Debug)]
pub struct QueueSendItem {
    pub bytes: Vec<u8>,
    pub delay_ms: u32,
}

/// Interface to session.
#[derive(Debug)]
pub enum Command {
    Open(PortSettings),
    SetLanguage(Language),
    Close,
    Write(Vec<u8>),
    StartPeriodic { bytes: Vec<u8>, interval_ms: u32 },
    StopPeriodic,
    StartQueue { name: String, items: Vec<QueueSendItem> },
    StopQueue,
    StartFile { path: String, mode: FileSendMode, line_ending: Vec<u8>, line_interval_ms: u32 },
    StopFile,
}

/// Session to interface.
#[derive(Debug)]
#[allow(inconsistent_fields)]
pub enum Event {
    Opened { port_name: String },
    Closed,
    Disconnected,
    Error(String),
    Data(Vec<u8>),
    Tx(Vec<u8>),
    Periodic(bool),
    QueueStarted { name: String, total: usize },
    QueueProgress { current: usize, total: usize },
    QueueDone,
    QueueStopped,
    FileStarted { name: String, total: u64 },
    FileProgress { sent: u64, total: u64 },
    FileDone,
    FileStopped,
}

/// Times handed in are below this bound, so adding a delay cannot overflow.
pub const CLOCK_LIMIT: u64 = 0x3fff_ffff_ffff_ffff;

/// Shortest period of periodic sending, in milliseconds.
pub const MIN_PERIOD_MS: u32 = 10;

/// Size of one chunk when a whole file is sent.
pub const FILE_CHUNK: usize = 4096;

/// Largest file that can be sent.
pub const MAX_FILE: usize = 512 * 1024 * 1024;

/// Progress of a file is reported at most this often (ms) ...
pub const REPORT_INTERVAL_MS: u64 = 50;

/// ... unless this many bytes were sent since the last report.
pub const REPORT_BYTES: usize = 64 * 1024;

/// Writes that make no progress this many times in a row are given up.
pub const STALL_LIMIT: u32 = 3000;

/// Sending the same bytes again and again.
pub struct PeriodicJob {
    pub bytes: Vec<u8>,
    pub interval_ms: u32,
    pub next_ms: u64,
}

/// Sending the entries of a queue one after another.
pub struct QueueJob {
    pub items: Vec<QueueSendItem>,
    pub index: usize,
    pub wait_until: Option<u64>,
}

/// Sending a file, whole in chunks or line by line.
pub struct FileJob {
    pub name: String,
    pub data: Vec<u8>,
    pub mode: FileSendMode,
    pub line_ending: Vec<u8>,
    pub line_interval_ms: u32,
    pub lines: Vec<(usize, usize)>,
    pub line_idx: usize,
    pub pos: usize,
    pub total: usize,
    pub wait_until: Option<u64>,
    /// Time of the last progress report; `None` before the first one.
    pub last_report: Option<u64>,
    pub last_report_pos: usize,
}

/// Scans the file for lines: the lines ended so far and where the current one starts.
pub open spec fn line_scan(d: Seq<u8>) -> (Seq<(usize, usize)>, int)
    decreases d.len(),
{
    if d.len() == 0 {
        (Seq::empty(), 0)
    } else {
        let (ls, st) = line_scan(d.drop_last());
        let i = d.len() - 1;
        if d.last() == 10u8 {
            let end = if i > st && d[i - 1] == 13u8 {
                i - 1
            } else {
                i
            };
            (ls.push((st as usize, end as usize)), i + 1)
        } else {
            (ls, st)
        }
    }
}

/// The lines of a file as byte ranges: split at `'\n'`, a `'\r'` before it left out, and
/// a last line without `'\n'` kept.
pub open spec fn file_lines(d: Seq<u8>) -> Seq<(usize, usize)> {
    let (ls, st) = line_scan(d);
    if st < d.len() {
        ls.push((st as usize, d.len() as usize))
    } else {
        ls
    }
}

/// Every range lies in `0..=len` and starts no later than it ends.
pub open spec fn ranges_within(ls: Seq<(usize, usize)>, len: int) -> bool {
    forall|k: int| 0 <= k < ls.len() ==> #[trigger] ls[k].0 <= ls[k].1 <= len
}

proof fn lemma_line_scan_bounds(d: Seq<u8>)
    requires
        d.len() <= usize::MAX,
    ensures
        ranges_within(line_scan(d).0, d.len() as int),
        0 <= line_scan(d).1 <= d.len(),
        forall|k: int|
            0 <= k < line_scan(d).0.len() ==> #[trigger] line_scan(d).0[k].1 < line_scan(d).1,
    decreases d.len(),
{
    if d.len() > 0 {
        lemma_line_scan_bounds(d.drop_last());
        let (ls, st) = line_scan(d.drop_last());
        let (ls2, st2) = line_scan(d);
        assert forall|k: int| 0 <= k < ls2.len() implies #[trigger] ls2[k].0 <= ls2[k].1 <= d.len()
            && ls2[k].1 < st2 by {
            if k < ls.len() {
                assert(ls2[k] == ls[k]);
            } else {
                assert(d.last() == 10u8);
            }
        }
    }
}

/// Splits file data into lines.
fn split_file_lines(d: &Vec<u8>) -> (ls: Vec<(usize, usize)>)
    ensures
        ls@ == file_lines(d@),
        ranges_within(ls@, d@.len() as int),
        ls@.len() <= d@.len(),
{
    let mut ls: Vec<(usize, usize)> = Vec::new();
    let mut start: usize = 0;
    let mut i: usize = 0;
    while i < d.len()
        invariant
            i <= d@.len(),
            line_scan(d@.take(i as int)) == (ls@, start as int),
            ls@.len() <= start <= i,
        decreases d@.len() - i,
    {
        proof {
            lemma_line_scan_bounds(d@.take(i as int));
        }
        assert(d@.take(i + 1).drop_last() =~= d@.take(i as int));
        assert(d@.take(i + 1).last() == d@[i as int]);
        if d[i] == 10u8 {
            let mut end = i;
            if end > start && d[end - 1] == 13u8 {
                end = end - 1;
            }
            if i > 0 {
                assert(d@.take(i + 1)[i - 1] == d@[i - 1]);
            }
            ls.push((start, end));
            start = i + 1;
        }
        i = i + 1;
    }
    assert(d@.take(d@.len() as int) =~= d@);
    proof {
        lemma_line_scan_bounds(d@);
    }
    if start < d.len() {
        ls.push((start, d.len()));
    }
    ls
}

/// The file job is consistent: `total` is the length, positions stay inside the data.
pub open spec fn file_job_wf(f: FileJob) -> bool {
    &&& f.total == f.data@.len()
    &&& f.pos <= f.total
    &&& f.line_idx <= f.lines@.len() <= usize::MAX
    &&& ranges_within(f.lines@, f.total as int)
}

/// The queue job is consistent: it has entries and its position is inside them.
pub open spec fn queue_job_wf(q: QueueJob) -> bool {
    &&& q.items@.len() > 0
    &&& q.index <= q.items@.len()
}

/// The state of the writer loop apart from the port itself.
pub struct Writer {
    pub lang: Language,
    pub port_open: bool,
    pub periodic: Option<PeriodicJob>,
    pub queue: Option<QueueJob>,
    pub file: Option<FileJob>,
}

/// What the loop has to do for a command.
pub enum CommandEffect {
    /// Only send these events.
    Events(Vec<Event>),
    /// Stop the reader and drop the port, send the events, then try to open a port with
    /// these settings and report back with [`Writer::opened`] or [`Writer::open_failed`].
    Open { settings: PortSettings, events: Vec<Event> },
    /// Stop the reader and drop the port, then send the events.
    Close(Vec<Event>),
    /// Write these bytes.
    Write(Vec<u8>),
    /// Read this file and hand it to [`Writer::start_file`] (or its error to
    /// [`Writer::file_failed`]).
    ReadFile { path: String, mode: FileSendMode, line_ending: Vec<u8>, line_interval_ms: u32 },
}

/// What a job step asks for.
pub enum JobStep {
    /// Nothing to do now.
    Idle,
    /// The job ended; send these events.
    Finished(Vec<Event>),
    /// Write these bytes, then report the result.
    Write(Vec<u8>),
}

/// The event is an error event with exactly this text.
pub open spec fn is_error_event(e: Event, text: Seq<char>) -> bool {
    e matches Event::Error(m) && m@ == text
}

impl Writer {
    pub open spec fn wf(&self) -> bool {
        &&& (self.queue matches Some(q) ==> queue_job_wf(q))
        &&& (self.file matches Some(f) ==> file_job_wf(f))
    }

    /// The writer of a new session: no port, no job.
    pub fn new(lang: Language) -> (w: Writer)
        ensures
            w.wf(),
            w.lang == lang,
            !w.port_open,
            w.periodic is None,
            w.queue is None,
            w.file is None,
    {
        Writer { lang, port_open: false, periodic: None, queue: None, file: None }
    }

    fn error_event(&self, t: SessionText, detail: &str) -> (e: Event)
        ensures
            is_error_event(e, session_text(self.lang, t, detail@)),
    {
        Event::Error(session_message(self.lang, t, detail))
    }

    /// Decides what a command does.
    pub fn apply_command(&mut self, cmd: Command, now_ms: u64) -> (effect: CommandEffect)
        requires
            old(self).wf(),
            now_ms <= CLOCK_LIMIT,
        ensures
            final(self).wf(),
            match cmd {
                Command::Open(settings) => {
                    &&& effect matches CommandEffect::Open { settings: s, events }
                    &&& s == settings
                    &&& events@.len() == 1 && events@[0] == Event::Periodic(false)
                    &&& !final(self).port_open && final(self).periodic is None
                    &&& final(self).queue is None && final(self).file is None
                    &&& final(self).lang == old(self).lang
                },
                Command::SetLanguage(l) => {
                    &&& effect matches CommandEffect::Events(events) && events@.len() == 0
                    &&& final(self).lang == l
                    &&& final(self).port_open == old(self).port_open
                    &&& final(self).periodic == old(self).periodic
                    &&& final(self).queue == old(self).queue
                    &&& final(self).file == old(self).file
                },
                Command::Close => {
                    &&& effect matches CommandEffect::Close(events)
                    &&& events@ == seq![Event::Periodic(false), Event::QueueStopped, Event::FileStopped, Event::Closed]
                    &&& !final(self).port_open && final(self).periodic is None
                    &&& final(self).queue is None && final(self).file is None
                    &&& final(self).lang == old(self).lang
                },
                Command::Write(bytes) => {
                    &&& effect matches CommandEffect::Write(b) && b == bytes
                    &&& *final(self) == *old(self)
                },
                Command::StartPeriodic { bytes, interval_ms } => {
                    &&& effect matches CommandEffect::Events(events)
                    &&& events@ == seq![Event::Periodic(true)]
                    &&& final(self).periodic matches Some(p) && p.bytes == bytes && p.next_ms == now_ms
                        && p.interval_ms == if interval_ms < MIN_PERIOD_MS { MIN_PERIOD_MS } else { interval_ms }
                    &&& final(self).lang == old(self).lang
                    &&& final(self).port_open == old(self).port_open
                    &&& final(self).queue == old(self).queue
                    &&& final(self).file == old(self).file
                },
                Command::StopPeriodic => {
                    &&& effect matches CommandEffect::Events(events)
                    &&& events@ == seq![Event::Periodic(false)]
                    &&& final(self).periodic is None
                    &&& final(self).lang == old(self).lang
                    &&& final(self).port_open == old(self).port_open
                    &&& final(self).queue == old(self).queue
                    &&& final(self).file == old(self).file
                },
                Command::StartQueue { name, items } => {
                    &&& effect matches CommandEffect::Events(events)
                    &&& final(self).lang == old(self).lang
                    &&& final(self).port_open == old(self).port_open
                    &&& if items@.len() == 0 {
                        &&& events@.len() == 1
                        &&& is_error_event(events@[0], session_text(old(self).lang, SessionText::QueueEmpty, Seq::empty()))
                        &&& final(self).periodic == old(self).periodic
                        &&& final(self).queue == old(self).queue
                        &&& final(self).file == old(self).file
                    } else {
                        &&& events@ == seq![
                            Event::Periodic(false),
                            Event::FileStopped,
                            Event::QueueStarted { name, total: items@.len() as usize },
                        ]
                        &&& final(self).queue matches Some(q) && q.items == items && q.index == 0
                            && q.wait_until is None
                        &&& final(self).periodic is None
                        &&& final(self).file is None
                    }
                },
                Command::StopQueue => {
                    &&& effect matches CommandEffect::Events(events)
                    &&& events@ == seq![Event::QueueStopped]
                    &&& final(self).queue is None
                    &&& final(self).lang == old(self).lang
                    &&& final(self).port_open == old(self).port_open
                    &&& final(self).periodic == old(self).periodic
                    &&& final(self).file == old(self).file
                },
                Command::StartFile { path, mode, line_ending, line_interval_ms } => {
                    &&& effect matches CommandEffect::ReadFile { path: p, mode: m, line_ending: le, line_interval_ms: li }
                    &&& p == path && m == mode && le == line_ending && li == line_interval_ms
                    &&& *final(self) == *old(self)
                },
                Command::StopFile => {
                    &&& effect matches CommandEffect::Events(events)
                    &&& events@ == seq![Event::FileStopped]
                    &&& final(self).file is None
                    &&& final(self).lang == old(self).lang
                    &&& final(self).port_open == old(self).port_open
                    &&& final(self).periodic == old(self).periodic
                    &&& final(self).queue == old(self).queue
                },
            },
    {
        match cmd {
            Command::Open(settings) => {
                self.port_open = false;
                self.periodic = None;
                self.queue = None;
                self.file = None;
                CommandEffect::Open { settings, events: vec![Event::Periodic(false)] }
            },
            Command::SetLanguage(l) => {
                self.lang = l;
                CommandEffect::Events(Vec::new())
            },
            Command::Close => {
                self.port_open = false;
                self.periodic = None;
                self.queue = None;
                self.file = None;
                CommandEffect::Close(
                    vec![Event::Periodic(false), Event::QueueStopped, Event::FileStopped, Event::Closed],
                )
            },
            Command::Write(bytes) => CommandEffect::Write(bytes),
            Command::StartPeriodic { bytes, interval_ms } => {
                let interval_ms = if interval_ms < MIN_PERIOD_MS {
                    MIN_PERIOD_MS
                } else {
                    interval_ms
                };
                self.periodic = Some(PeriodicJob { bytes, interval_ms, next_ms: now_ms });
                CommandEffect::Events(vec![Event::Periodic(true)])
            },
            Command::StopPeriodic => {
                self.periodic = None;
                CommandEffect::Events(vec![Event::Periodic(false)])
            },
            Command::StartQueue { name, items } => {
                if items.len() == 0 {
                    let e = self.error_event(SessionText::QueueEmpty, "");
                    CommandEffect::Events(vec![e])
                } else {
                    let total = items.len();
                    self.queue = Some(QueueJob { items, index: 0, wait_until: None });
                    self.periodic = None;
                    self.file = None;
                    CommandEffect::Events(
                        vec![
                            Event::Periodic(false),
                            Event::FileStopped,
                            Event::QueueStarted { name, total },
                        ],
                    )
                }
            },
            Command::StopQueue => {
                self.queue = None;
                CommandEffect::Events(vec![Event::QueueStopped])
            },
            Command::StartFile { path, mode, line_ending, line_interval_ms } => {
                CommandEffect::ReadFile { path, mode, line_ending, line_interval_ms }
            },
            Command::StopFile => {
                self.file = None;
                CommandEffect::Events(vec![Event::FileStopped])
            },
        }
    }

    /// The port was opened.
    pub fn opened(&mut self, port_name: String) -> (events: Vec<Event>)
        ensures
            final(self).port_open,
            final(self).lang == old(self).lang,
            final(self).periodic == old(self).periodic,
            final(self).queue == old(self).queue,
            final(self).file == old(self).file,
            events@ == seq![Event::Opened { port_name }],
    {
        self.port_open = true;
        vec![Event::Opened { port_name }]
    }

    /// Opening the port failed with the given error.
    pub fn open_failed(&self, err: &str) -> (events: Vec<Event>)
        ensures
            events@.len() == 1,
            is_error_event(events@[0], session_text(self.lang, SessionText::OpenFailed, err@)),
    {
        vec![self.error_event(SessionText::OpenFailed, err)]
    }

    /// Reading the file to send failed with the given error.
    pub fn file_failed(&self, err: &str) -> (events: Vec<Event>)
        ensures
            events@.len() == 1,
            is_error_event(events@[0], session_text(self.lang, SessionText::FileReadFailed, err@)),
    {
        vec![self.error_event(SessionText::FileReadFailed, err)]
    }

    /// Starts sending a file that was read: a file larger than [`MAX_FILE`] is refused;
    /// otherwise the file job replaces the periodic and queue jobs.
    pub fn start_file(
        &mut self,
        name: String,
        data: Vec<u8>,
        mode: FileSendMode,
        line_ending: Vec<u8>,
        line_interval_ms: u32,
    ) -> (events: Vec<Event>)
        requires
            old(self).wf(),
        ensures
            final(self).wf(),
            final(self).lang == old(self).lang,
            final(self).port_open == old(self).port_open,
            data@.len() > MAX_FILE ==> {
                &&& events@.len() == 1
                &&& is_error_event(events@[0], session_text(old(self).lang, SessionText::FileReadFailed,
                    session_text(old(self).lang, SessionText::FileTooLarge, Seq::empty())))
                &&& final(self).periodic == old(self).periodic
                &&& final(self).queue == old(self).queue
                &&& final(self).file == old(self).file
            },
            data@.len() <= MAX_FILE ==> {
                &&& events@ == seq![
                    Event::Periodic(false),
                    Event::QueueStopped,
                    Event::FileStarted { name, total: data@.len() as u64 },
                ]
                &&& final(self).periodic is None
                &&& final(self).queue is None
                &&& final(self).file matches Some(f) && {
                    &&& f.name == name && f.data == data && f.mode == mode
                    &&& f.line_ending == line_ending && f.line_interval_ms == line_interval_ms
                    &&& f.lines@ == if mode == FileSendMode::LineByLine { file_lines(data@) } else { Seq::empty() }
                    &&& f.line_idx == 0 && f.pos == 0 && f.total == data@.len()
                    &&& f.wait_until is None && f.last_report is None && f.last_report_pos == 0
                }
            },
    {
        if data.len() > MAX_FILE {
            let too_large = session_message(self.lang, SessionText::FileTooLarge, "");
            return vec![self.error_event(SessionText::FileReadFailed, too_large.as_str())];
        }
        let lines = if mode == FileSendMode::LineByLine {
            split_file_lines(&data)
        } else {
            Vec::new()
        };
        let total = data.len();
        let shown_name = name.clone();
        self.file = Some(
            FileJob {
                name,
                data,
                mode,
                line_ending,
                line_interval_ms,
                lines,
                line_idx: 0,
                pos: 0,
                total,
                wait_until: None,
                last_report: None,
                last_report_pos: 0,
            },
        );
        self.periodic = None;
        self.queue = None;
        vec![
            Event::Periodic(false),
            Event::QueueStopped,
            Event::FileStarted { name: shown_name, total: total as u64 },
        ]
    }

    /// The error event for a write when no port is open, if none is.
    pub fn closed_port_error(&self) -> (e: Option<Event>)
        ensures
            self.port_open ==> e is None,
            !self.port_open ==> (e matches Some(ev) && is_error_event(ev, session_text(self.lang, SessionText::PortNotOpen, Seq::empty()))),
    {
        if self.port_open {
            None
        } else {
            Some(self.error_event(SessionText::PortNotOpen, ""))
        }
    }

    /// Periodic sending: when due, the next time is set one period later and the bytes
    /// are written if a port is open.
    pub fn periodic_due(&mut self, now_ms: u64) -> (w: Option<Vec<u8>>)
        requires
            now_ms <= CLOCK_LIMIT,
        ensures
            final(self).lang == old(self).lang,
            final(self).port_open == old(self).port_open,
            final(self).queue == old(self).queue,
            final(self).file == old(self).file,
            match old(self).periodic {
                None => w is None && final(self).periodic is None,
                Some(p) => if now_ms >= p.next_ms {
                    &&& final(self).periodic matches Some(q) && q.bytes == p.bytes
                        && q.interval_ms == p.interval_ms && q.next_ms == now_ms + p.interval_ms
                    &&& if old(self).port_open { w matches Some(b) && b@ == p.bytes@ } else { w is None }
                } else {
                    w is None && final(self).periodic == old(self).periodic
                },
            },
    {
        match self.periodic.take() {
            None => None,
            Some(mut p) => {
                if now_ms >= p.next_ms {
                    p.next_ms = now_ms + p.interval_ms as u64;
                    let w = if self.port_open {
                        Some(p.bytes.clone())
                    } else {
                        None
                    };
                    self.periodic = Some(p);
                    w
                } else {
                    self.periodic = Some(p);
                    None
                }
            },
        }
    }
}


/// A copy of `d[start..end]`.
fn copy_range(d: &Vec<u8>, start: usize, end: usize) -> (v: Vec<u8>)
    requires
        start <= end <= d@.len(),
    ensures
        v@ == d@.subrange(start as int, end as int),
{
    let mut v: Vec<u8> = Vec::new();
    let mut i = start;
    while i < end
        invariant
            start <= i <= end <= d@.len(),
            v@ == d@.subrange(start as int, i as int),
        decreases end - i,
    {
        v.push(d[i]);
        i = i + 1;
        assert(v@ =~= d@.subrange(start as int, i as int));
    }
    v
}

/// Whether a progress report is due: none was made yet, the last is at least
/// [`REPORT_INTERVAL_MS`] old, or [`REPORT_BYTES`] were sent since.
pub open spec fn report_due(last: Option<u64>, now_ms: u64, pos: usize, last_pos: usize) -> bool {
    ||| last is None
    ||| (last matches Some(t) && now_ms >= t && now_ms - t >= REPORT_INTERVAL_MS)
    ||| (pos >= last_pos && pos - last_pos >= REPORT_BYTES)
}

/// End of the chunk that starts at `pos` when a whole file is sent.
pub open spec fn chunk_end(pos: usize, total: usize) -> usize {
    if pos + FILE_CHUNK < total { (pos + FILE_CHUNK) as usize } else { total }
}

/// The file job has nothing left to write.
pub open spec fn file_done(f: FileJob) -> bool {
    (f.mode == FileSendMode::WholeFile && f.pos >= f.total)
        || (f.mode == FileSendMode::LineByLine && f.line_idx >= f.lines@.len())
}

/// The bytes the file job writes next: the next chunk of the whole file, or the next line
/// with the line ending.
pub open spec fn next_file_write(f: FileJob) -> Seq<u8> {
    if f.mode == FileSendMode::WholeFile {
        f.data@.subrange(f.pos as int, chunk_end(f.pos, f.total) as int)
    } else {
        f.data@.subrange(f.lines@[f.line_idx as int].0 as int, f.lines@[f.line_idx as int].1 as int)
            + f.line_ending@
    }
}

/// The position in the file once the next write has succeeded.
pub open spec fn pos_after_write(f: FileJob) -> usize {
    if f.mode == FileSendMode::WholeFile {
        chunk_end(f.pos, f.total)
    } else {
        f.lines@[f.line_idx as int].1
    }
}

/// The line to send once the next write has succeeded.
pub open spec fn line_after_write(f: FileJob) -> usize {
    if f.mode == FileSendMode::WholeFile {
        f.line_idx
    } else {
        (f.line_idx + 1) as usize
    }
}

/// The file job once its next write has succeeded (progress reports and waiting aside).
pub open spec fn file_advanced(f: FileJob) -> FileJob {
    FileJob { pos: pos_after_write(f), line_idx: line_after_write(f), ..f }
}

/// The writes a file job makes from now on when every write succeeds, in order.
pub open spec fn file_writes(f: FileJob) -> Seq<Seq<u8>>
    decreases (if f.mode == FileSendMode::WholeFile { f.total - f.pos } else { f.lines@.len() - f.line_idx }),
{
    if !file_job_wf(f) || file_done(f) {
        Seq::empty()
    } else {
        proof {
            let g = file_advanced(f);
            assert(g.mode == f.mode && g.total == f.total && g.lines == f.lines);
            if f.mode == FileSendMode::WholeFile {
                assert(f.pos < g.pos <= g.total);
            } else {
                assert(g.line_idx == f.line_idx + 1 <= f.lines@.len());
            }
        }
        seq![next_file_write(f)] + file_writes(file_advanced(f))
    }
}

/// A consistent job that is not done stays consistent after its next write.
pub proof fn lemma_file_advanced_wf(f: FileJob)
    requires
        file_job_wf(f),
        !file_done(f),
    ensures
        file_job_wf(file_advanced(f)),
        file_advanced(f).mode == f.mode && file_advanced(f).data == f.data,
        file_advanced(f).lines == f.lines && file_advanced(f).total == f.total,
        file_advanced(f).line_ending == f.line_ending,
{
    if f.mode == FileSendMode::LineByLine {
        let k = f.line_idx as int;
        assert(0 <= k < f.lines@.len());
        assert(f.lines@[k].0 <= f.lines@[k].1);
        assert(f.lines@[k].1 <= f.total);
    }
}

/// The job is the same apart from the time it waits for.
pub open spec fn same_file_job_but_wait(a: FileJob, b: FileJob) -> bool {
    &&& a.name == b.name && a.data == b.data && a.mode == b.mode && a.line_ending == b.line_ending
    &&& a.line_interval_ms == b.line_interval_ms && a.lines == b.lines && a.line_idx == b.line_idx
    &&& a.pos == b.pos && a.total == b.total && a.last_report == b.last_report
    &&& a.last_report_pos == b.last_report_pos
}

impl Writer {
    /// A step of the queue job: nothing while it waits, the end once every entry is sent,
    /// otherwise the next entry to write.
    pub fn queue_step(&mut self, now_ms: u64) -> (step: JobStep)
        requires
            old(self).wf(),
        ensures
            final(self).wf(),
            final(self).lang == old(self).lang,
            final(self).port_open == old(self).port_open,
            final(self).periodic == old(self).periodic,
            final(self).file == old(self).file,
            match old(self).queue {
                None => step is Idle && final(self).queue is None,
                Some(q) => if q.wait_until matches Some(w) && now_ms < w {
                    step is Idle && final(self).queue == old(self).queue
                } else if q.index >= q.items@.len() {
                    step matches JobStep::Finished(ev) && ev@ == seq![Event::QueueDone]
                        && final(self).queue is None
                } else {
                    &&& step matches JobStep::Write(b) && b@ == q.items@[q.index as int].bytes@
                    &&& final(self).queue matches Some(q2) && q2.items == q.items
                        && q2.index == q.index && q2.wait_until is None
                },
            },
    {
        match self.queue.take() {
            None => JobStep::Idle,
            Some(mut q) => {
                if let Some(w) = q.wait_until {
                    if now_ms < w {
                        self.queue = Some(q);
                        return JobStep::Idle;
                    }
                }
                q.wait_until = None;
                if q.index >= q.items.len() {
                    return JobStep::Finished(vec![Event::QueueDone]);
                }
                let bytes = q.items[q.index].bytes.clone();
                self.queue = Some(q);
                JobStep::Write(bytes)
            },
        }
    }

    /// The write of the current queue entry ended: a failure stops the queue; otherwise the
    /// position moves on, the progress is reported, and the queue ends or waits the
    /// entry's delay.
    pub fn queue_written(&mut self, ok: bool, now_ms: u64) -> (events: Vec<Event>)
        requires
            old(self).wf(),
            now_ms <= CLOCK_LIMIT,
            old(self).queue matches Some(q) && q.index < q.items@.len(),
        ensures
            final(self).wf(),
            final(self).lang == old(self).lang,
            final(self).port_open == old(self).port_open,
            final(self).periodic == old(self).periodic,
            final(self).file == old(self).file,
            ({
                let q = old(self).queue->0;
                let next = q.index + 1;
                let total = q.items@.len();
                let delay = q.items@[q.index as int].delay_ms;
                if !ok {
                    events@ == seq![Event::QueueStopped] && final(self).queue is None
                } else if next >= total {
                    &&& events@ == seq![
                        Event::QueueProgress { current: next as usize, total: total as usize },
                        Event::QueueDone,
                    ]
                    &&& final(self).queue is None
                } else {
                    &&& events@ == seq![Event::QueueProgress { current: next as usize, total: total as usize }]
                    &&& final(self).queue matches Some(q2) && q2.items == q.items && q2.index == next
                        && q2.wait_until == if delay > 0 { Some((now_ms + delay) as u64) } else { q.wait_until }
                }
            }),
    {
        let mut q = self.queue.take().unwrap();
        if !ok {
            return vec![Event::QueueStopped];
        }
        let delay = q.items[q.index].delay_ms;
        let n = q.items.len();
        assert(q.index < n);
        q.index = q.index + 1;
        let total = q.items.len();
        let mut events = vec![Event::QueueProgress { current: q.index, total }];
        if q.index >= total {
            events.push(Event::QueueDone);
        } else {
            if delay > 0 {
                q.wait_until = Some(now_ms + delay as u64);
            }
            self.queue = Some(q);
        }
        events
    }

    /// A step of the file job: nothing while it waits, the end once everything is sent,
    /// otherwise the next chunk (whole file) or the next line with the line ending.
    pub fn file_step(&mut self, now_ms: u64) -> (step: JobStep)
        requires
            old(self).wf(),
        ensures
            final(self).wf(),
            final(self).lang == old(self).lang,
            final(self).port_open == old(self).port_open,
            final(self).periodic == old(self).periodic,
            final(self).queue == old(self).queue,
            match old(self).file {
                None => step is Idle && final(self).file is None,
                Some(f) => if f.wait_until matches Some(w) && now_ms < w {
                    step is Idle && final(self).file == old(self).file
                } else if file_done(f) {
                    step matches JobStep::Finished(ev) && ev@ == seq![Event::FileDone]
                        && final(self).file is None
                } else {
                    &&& final(self).file matches Some(f2) && same_file_job_but_wait(f2, f)
                        && f2.wait_until is None
                    &&& step matches JobStep::Write(b) && b@ == next_file_write(f)
                },
            },
    {
        match self.file.take() {
            None => JobStep::Idle,
            Some(mut f) => {
                if let Some(w) = f.wait_until {
                    if now_ms < w {
                        self.file = Some(f);
                        return JobStep::Idle;
                    }
                }
                f.wait_until = None;
                match f.mode {
                    FileSendMode::WholeFile => {
                        if f.pos >= f.total {
                            return JobStep::Finished(vec![Event::FileDone]);
                        }
                        let end = if f.total - f.pos > FILE_CHUNK {
                            f.pos + FILE_CHUNK
                        } else {
                            f.total
                        };
                        let chunk = copy_range(&f.data, f.pos, end);
                        self.file = Some(f);
                        JobStep::Write(chunk)
                    },
                    FileSendMode::LineByLine => {
                        if f.line_idx >= f.lines.len() {
                            return JobStep::Finished(vec![Event::FileDone]);
                        }
                        let (start, end) = f.lines[f.line_idx];
                        proof {
                            assert(f.lines@[f.line_idx as int].0 <= f.lines@[f.line_idx as int].1 <= f.total);
                        }
                        let mut line = copy_range(&f.data, start, end);
                        let mut k: usize = 0;
                        let ghost base = line@;
                        while k < f.line_ending.len()
                            invariant
                                k <= f.line_ending@.len(),
                                line@ == base + f.line_ending@.take(k as int),
                            decreases f.line_ending@.len() - k,
                        {
                            line.push(f.line_ending[k]);
                            k = k + 1;
                            assert(line@ =~= base + f.line_ending@.take(k as int));
                        }
                        assert(f.line_ending@.take(f.line_ending@.len() as int) =~= f.line_ending@);
                        self.file = Some(f);
                        JobStep::Write(line)
                    },
                }
            },
        }
    }

    fn report_file_progress(f: &mut FileJob, now_ms: u64) -> (events: Vec<Event>)
        ensures
            final(f).name == old(f).name && final(f).data == old(f).data && final(f).mode == old(f).mode,
            final(f).line_ending == old(f).line_ending,
            final(f).line_interval_ms == old(f).line_interval_ms && final(f).lines == old(f).lines,
            final(f).line_idx == old(f).line_idx && final(f).pos == old(f).pos,
            final(f).total == old(f).total && final(f).wait_until == old(f).wait_until,
            if report_due(old(f).last_report, now_ms, old(f).pos, old(f).last_report_pos) {
                &&& events@ == seq![Event::FileProgress { sent: old(f).pos as u64, total: old(f).total as u64 }]
                &&& final(f).last_report == Some(now_ms)
                &&& final(f).last_report_pos == old(f).pos
            } else {
                &&& events@.len() == 0
                &&& final(f).last_report == old(f).last_report
                &&& final(f).last_report_pos == old(f).last_report_pos
            },
    {
        let due = match f.last_report {
            None => true,
            Some(t) => now_ms >= t && now_ms - t >= REPORT_INTERVAL_MS,
        } || (f.pos >= f.last_report_pos && f.pos - f.last_report_pos >= REPORT_BYTES);
        if due {
            f.last_report = Some(now_ms);
            f.last_report_pos = f.pos;
            vec![Event::FileProgress { sent: f.pos as u64, total: f.total as u64 }]
        } else {
            Vec::new()
        }
    }

    /// The write of the current chunk or line ended: a failure stops the file job;
    /// otherwise the position moves past it, progress is reported when due, and the job
    /// ends or (line by line) waits the line interval.
    pub fn file_written(&mut self, ok: bool, now_ms: u64) -> (events: Vec<Event>)
        requires
            old(self).wf(),
            now_ms <= CLOCK_LIMIT,
            old(self).file matches Some(f) && !file_done(f),
        ensures
            final(self).wf(),
            final(self).lang == old(self).lang,
            final(self).port_open == old(self).port_open,
            final(self).periodic == old(self).periodic,
            final(self).queue == old(self).queue,
            ({
                let f = old(self).file->0;
                let new_pos = pos_after_write(f);
                let new_idx = line_after_write(f);
                let due = report_due(f.last_report, now_ms, new_pos, f.last_report_pos);
                let progress: Seq<Event> = if due {
                    seq![Event::FileProgress { sent: new_pos as u64, total: f.total as u64 }]
                } else {
                    Seq::empty()
                };
                let finished = file_done(file_advanced(f));
                if !ok {
                    events@ == seq![Event::FileStopped] && final(self).file is None
                } else if finished {
                    events@ == progress.push(Event::FileDone) && final(self).file is None
                } else {
                    &&& events@ == progress
                    &&& final(self).file matches Some(f2) && {
                        &&& f2.name == f.name && f2.data == f.data && f2.mode == f.mode
                        &&& f2.line_ending == f.line_ending && f2.line_interval_ms == f.line_interval_ms
                        &&& f2.lines == f.lines && f2.total == f.total
                        &&& f2.pos == new_pos && f2.line_idx == new_idx
                        &&& f2.last_report == if due { Some(now_ms) } else { f.last_report }
                        &&& f2.last_report_pos == if due { new_pos } else { f.last_report_pos }
                        &&& f2.wait_until == if f.mode == FileSendMode::LineByLine && f.line_interval_ms > 0 {
                            Some((now_ms + f.line_interval_ms) as u64)
                        } else {
                            f.wait_until
                        }
                    }
                }
            }),
    {
        let mut f = self.file.take().unwrap();
        assert(file_job_wf(f));
        if !ok {
            return vec![Event::FileStopped];
        }
        match f.mode {
            FileSendMode::WholeFile => {
                let end = if f.total - f.pos > FILE_CHUNK {
                    f.pos + FILE_CHUNK
                } else {
                    f.total
                };
                f.pos = end;
                let mut events = Self::report_file_progress(&mut f, now_ms);
                assert(file_job_wf(f));
                if f.pos >= f.total {
                    events.push(Event::FileDone);
                } else {
                    self.file = Some(f);
                }
                events
            },
            FileSendMode::LineByLine => {
                let n = f.lines.len();
                let (_, end) = f.lines[f.line_idx];
                assert(f.line_idx < n);
                assert(f.lines@[f.line_idx as int].0 <= f.lines@[f.line_idx as int].1 <= f.total);
                f.line_idx = f.line_idx + 1;
                f.pos = end;
                let mut events = Self::report_file_progress(&mut f, now_ms);
                if f.line_idx >= f.lines.len() {
                    events.push(Event::FileDone);
                } else {
                    if f.line_interval_ms > 0 {
                        f.wait_until = Some(now_ms + f.line_interval_ms as u64);
                    }
                    self.file = Some(f);
                }
                events
            },
        }
    }
}

/// What one attempt to write the rest of the bytes gave.
#[derive(Debug)]
pub enum WriteResult {
    /// This many bytes (more than zero) were written.
    Wrote(usize),
    /// No byte was written (output buffer full).
    Zero,
    /// The call was interrupted.
    Interrupted,
    /// The port would block or timed out.
    Busy,
    /// Writing failed with this error.
    Failed(String),
}

/// What the writer does next.
#[derive(Debug)]
pub enum WriteDecision {
    /// Try again at once.
    Continue,
    /// Sleep a moment, then try again.
    Sleep,
    /// Everything is written: flush and report the sent bytes.
    Done,
    /// Give up with this event.
    Stop(Event),
}

/// Progress of writing a byte sequence: bytes written and attempts in a row without
/// progress.
#[derive(Debug)]
pub struct WriteProgress {
    pub written: usize,
    pub stall: u32,
}

impl WriteProgress {
    pub fn new() -> (p: Self)
        ensures
            p.written == 0 && p.stall == 0,
    {
        WriteProgress { written: 0, stall: 0 }
    }

    /// Applies one attempt's result: progress resets the stall count; no progress counts a
    /// stall and gives up after [`STALL_LIMIT`] in a row; an interruption is retried at
    /// once; any other error gives up.
    pub fn on_result(&mut self, len: usize, r: WriteResult, lang: Language) -> (d: WriteDecision)
        requires
            old(self).written < len,
            old(self).stall < STALL_LIMIT,
            r matches WriteResult::Wrote(n) ==> 0 < n <= len - old(self).written,
        ensures
            final(self).written <= len,
            final(self).stall < STALL_LIMIT,
            match r {
                WriteResult::Wrote(n) => {
                    &&& final(self).written == old(self).written + n
                    &&& final(self).stall == 0
                    &&& if final(self).written == len { d is Done } else { d is Continue }
                },
                WriteResult::Interrupted => d is Continue && *final(self) == *old(self),
                WriteResult::Zero | WriteResult::Busy => {
                    &&& final(self).written == old(self).written
                    &&& if old(self).stall + 1 >= STALL_LIMIT {
                        d matches WriteDecision::Stop(e)
                            && is_error_event(e, session_text(lang, SessionText::WriteStalled, Seq::empty()))
                    } else {
                        d is Sleep && final(self).stall == old(self).stall + 1
                    }
                },
                WriteResult::Failed(msg) => {
                    &&& d matches WriteDecision::Stop(e)
                    &&& is_error_event(e, session_text(lang, SessionText::WriteFailed, msg@))
                    &&& *final(self) == *old(self)
                },
            },
    {
        match r {
            WriteResult::Wrote(n) => {
                self.written = self.written + n;
                self.stall = 0;
                if self.written == len {
                    WriteDecision::Done
                } else {
                    WriteDecision::Continue
                }
            },
            WriteResult::Interrupted => WriteDecision::Continue,
            WriteResult::Zero | WriteResult::Busy => {
                if self.stall + 1 >= STALL_LIMIT {
                    WriteDecision::Stop(
                        Event::Error(session_message(lang, SessionText::WriteStalled, "")),
                    )
                } else {
                    self.stall = self.stall + 1;
                    WriteDecision::Sleep
                }
            },
            WriteResult::Failed(msg) => {
                WriteDecision::Stop(
                    Event::Error(session_message(lang, SessionText::WriteFailed, msg.as_str())),
                )
            },
        }
    }
}

/// Most bytes gathered into one data event by the reader.
pub const READ_BATCH_MAX: usize = 64 * 1024;

/// Reading the port failed: an error event, then the port counts as disconnected.
pub fn read_failed_events(lang: Language, err: &str) -> (events: Vec<Event>)
    ensures
        events@.len() == 2,
        is_error_event(events@[0], session_text(lang, SessionText::PortReadFailed, err@)),
        events@[1] is Disconnected,
{
    vec![Event::Error(session_message(lang, SessionText::PortReadFailed, err)), Event::Disconnected]
}

} // verus!

use serial_tool::i18n::Language;
use serial_tool::session::{
    Command, CommandEffect, Event, JobStep, QueueSendItem, WriteDecision, WriteProgress, WriteResult, Writer,
    STALL_LIMIT,
};

/// Drives a write of `len` bytes through a sequence of attempt results.
fn drive(len: usize, results: Vec<WriteResult>) -> (Vec<u8>, WriteDecision) {
    let mut p = WriteProgress::new();
    let mut sleeps = 0u8;
    let mut last = WriteDecision::Continue;
    for r in results {
        last = p.on_result(len, r, Language::Chinese);
        match last {
            WriteDecision::Sleep => sleeps += 1,
            WriteDecision::Done | WriteDecision::Stop(_) => break,
            WriteDecision::Continue => {}
        }
    }
    (vec![sleeps], last)
}

#[test]
fn write_all_retries_on_zero_progress() {
    let data = b"hello serial world";
    let results = vec![WriteResult::Zero, WriteResult::Zero, WriteResult::Zero, WriteResult::Wrote(data.len())];
    let (sleeps, last) = drive(data.len(), results);
    assert_eq!(sleeps, vec![3]);
    assert!(matches!(last, WriteDecision::Done));
}

#[test]
fn write_all_retries_on_timeout() {
    let data = b"abc";
    let results = vec![WriteResult::Busy, WriteResult::Busy, WriteResult::Wrote(3)];
    let (_, last) = drive(data.len(), results);
    assert!(matches!(last, WriteDecision::Done));
}

#[test]
fn write_gives_up_after_the_stall_limit() {
    let mut p = WriteProgress::new();
    let mut d = WriteDecision::Continue;
    for _ in 0..STALL_LIMIT {
        d = p.on_result(5, WriteResult::Zero, Language::English);
        if matches!(d, WriteDecision::Stop(_)) {
            break;
        }
    }
    assert!(matches!(d, WriteDecision::Stop(Event::Error(_))));
}

#[test]
fn partial_writes_reset_the_stall_count() {
    let mut p = WriteProgress::new();
    assert!(matches!(p.on_result(4, WriteResult::Zero, Language::English), WriteDecision::Sleep));
    assert!(matches!(p.on_result(4, WriteResult::Wrote(1), Language::English), WriteDecision::Continue));
    assert_eq!(p.stall, 0);
    assert!(matches!(p.on_result(4, WriteResult::Interrupted, Language::English), WriteDecision::Continue));
    assert_eq!(p.written, 1);
    let d = p.on_result(4, WriteResult::Failed("broken".to_string()), Language::English);
    match d {
        WriteDecision::Stop(Event::Error(m)) => assert!(m.contains("broken")),
        other => panic!("unexpected {other:?}"),
    }
}

#[test]
fn write_without_port_reports_an_error() {
    let mut w = Writer::new(Language::English);
    match w.apply_command(Command::Write(vec![1, 2]), 0) {
        CommandEffect::Write(b) => assert_eq!(b, vec![1, 2]),
        _ => panic!("a write is handed to the port"),
    }
    assert!(matches!(w.closed_port_error(), Some(Event::Error(_))));
    w.opened("COM1".to_string());
    assert!(w.closed_port_error().is_none());
}

#[test]
fn queue_job_writes_each_entry_then_finishes() {
    let mut w = Writer::new(Language::English);
    w.opened("COM1".to_string());
    let items = vec![
        QueueSendItem { bytes: vec![1], delay_ms: 0 },
        QueueSendItem { bytes: vec![2, 3], delay_ms: 0 },
    ];
    let _ = w.apply_command(Command::StartQueue { name: "q".to_string(), items }, 0);
    let mut written = Vec::new();
    for _ in 0..10 {
        match w.queue_step(0) {
            JobStep::Write(b) => {
                written.extend_from_slice(&b);
                let _ = w.queue_written(true, 0);
            }
            JobStep::Finished(ev) => {
                assert!(matches!(ev.as_slice(), [Event::QueueDone]));
                break;
            }
            JobStep::Idle => {}
        }
    }
    assert_eq!(written, vec![1, 2, 3]);
    assert!(w.queue.is_none());
}

/// Runs a started file job to its end, every write succeeding; returns the writes and
/// the events of the last write.
fn run_file(w: &mut Writer) -> (Vec<Vec<u8>>, Vec<Event>) {
    let mut writes = Vec::new();
    let mut now = 0u64;
    loop {
        match w.file_step(now) {
            JobStep::Write(b) => {
                writes.push(b);
                let ev = w.file_written(true, now);
                if w.file.is_none() {
                    return (writes, ev);
                }
            }
            JobStep::Finished(ev) => return (writes, ev),
            JobStep::Idle => {}
        }
        now += 1000;
    }
}

#[test]
fn whole_file_is_written_in_chunks_that_make_up_the_file() {
    let mut w = Writer::new(Language::English);
    let data: Vec<u8> = (0..10000u32).map(|i| (i % 251) as u8).collect();
    w.start_file("f.bin".to_string(), data.clone(), serial_tool::config::FileSendMode::WholeFile, vec![], 0);
    let (writes, ev) = run_file(&mut w);
    assert_eq!(writes.iter().map(|c| c.len()).collect::<Vec<_>>(), vec![4096, 4096, 1808]);
    assert_eq!(writes.concat(), data);
    assert!(matches!(ev.last(), Some(Event::FileDone)));
}

#[test]
fn line_by_line_writes_each_line_with_the_ending() {
    let mut w = Writer::new(Language::English);
    let data = b"one\r\ntwo\n\nthree".to_vec();
    w.start_file("f.txt".to_string(), data, serial_tool::config::FileSendMode::LineByLine, b"\r\n".to_vec(), 0);
    let (writes, ev) = run_file(&mut w);
    assert_eq!(writes, vec![b"one\r\n".to_vec(), b"two\r\n".to_vec(), b"\r\n".to_vec(), b"three\r\n".to_vec()]);
    assert!(matches!(ev.last(), Some(Event::FileDone)));
}

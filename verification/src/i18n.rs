//! Interface language and the library's own localized messages.
use vstd::prelude::*;
use vstd::string::StringExecFns;
use crate::strs::{decimal, usize_to_string};

verus! {

/// Interface language.
#[derive(Clone, Copy, Debug, PartialEq, Eq, Structural)]
pub enum Language {
    Chinese,
    English,
}

impl Language {
    /// Name of the language as shown in the language selector.
    pub fn label(self) -> (s: &'static str)
        ensures
            s@ == language_label(self),
    {
        match self {
            Language::Chinese => "中文",
            Language::English => "English",
        }
    }
}

pub open spec fn language_label(lang: Language) -> Seq<char> {
    match lang {
        Language::Chinese => "中文"@,
        Language::English => "English"@,
    }
}

/// Name given to a newly created queue with ordinal `n` ("队列 n" / "Queue n").
pub open spec fn queue_name_text(lang: Language, n: nat) -> Seq<char> {
    match lang {
        Language::Chinese => "队列 "@ + decimal(n),
        Language::English => "Queue "@ + decimal(n),
    }
}

/// Builds the name of a newly created queue with ordinal `n`.
pub fn queue_name(lang: Language, n: usize) -> (s: String)
    ensures
        s@ == queue_name_text(lang, n as nat),
{
    let num = usize_to_string(n);
    let mut s = match lang {
        Language::Chinese => String::from_str("队列 "),
        Language::English => String::from_str("Queue "),
    };
    s.append(num.as_str());
    s
}

} // verus!

verus! {

/// Messages of the serial session.
#[derive(Clone, Copy, Debug, PartialEq, Eq, Structural)]
pub enum SessionText {
    PortNotOpen,
    WriteStalled,
    WriteFailed,
    OpenFailed,
    QueueEmpty,
    FileReadFailed,
    FileTooLarge,
    PortReadFailed,
}

/// The text of a session message; `detail` is the underlying error where there is one.
pub open spec fn session_text(lang: Language, t: SessionText, detail: Seq<char>) -> Seq<char> {
    match lang {
        Language::Chinese => match t {
            SessionText::PortNotOpen => "串口未打开"@,
            SessionText::WriteStalled => "写入停滞：串口长时间未接收数据"@,
            SessionText::WriteFailed => "写入失败："@ + detail,
            SessionText::OpenFailed => "打开串口失败："@ + detail,
            SessionText::QueueEmpty => "队列为空"@,
            SessionText::FileReadFailed => "读取文件失败："@ + detail,
            SessionText::FileTooLarge => "文件过大（上限 512 MB）"@,
            SessionText::PortReadFailed => "读取串口失败："@ + detail,
        },
        Language::English => match t {
            SessionText::PortNotOpen => "Port is not open"@,
            SessionText::WriteStalled => "Write stalled: the port accepted no data for a long time"@,
            SessionText::WriteFailed => "Write failed: "@ + detail,
            SessionText::OpenFailed => "Failed to open port: "@ + detail,
            SessionText::QueueEmpty => "The queue is empty"@,
            SessionText::FileReadFailed => "Failed to read file: "@ + detail,
            SessionText::FileTooLarge => "File too large (limit 512 MB)"@,
            SessionText::PortReadFailed => "Failed to read port: "@ + detail,
        },
    }
}

/// Builds the text of a session message.
pub fn session_message(lang: Language, t: SessionText, detail: &str) -> (s: String)
    ensures
        s@ == session_text(lang, t, detail@),
{
    let (head, with_detail) = match lang {
        Language::Chinese => match t {
            SessionText::PortNotOpen => ("串口未打开", false),
            SessionText::WriteStalled => ("写入停滞：串口长时间未接收数据", false),
            SessionText::WriteFailed => ("写入失败：", true),
            SessionText::OpenFailed => ("打开串口失败：", true),
            SessionText::QueueEmpty => ("队列为空", false),
            SessionText::FileReadFailed => ("读取文件失败：", true),
            SessionText::FileTooLarge => ("文件过大（上限 512 MB）", false),
            SessionText::PortReadFailed => ("读取串口失败：", true),
        },
        Language::English => match t {
            SessionText::PortNotOpen => ("Port is not open", false),
            SessionText::WriteStalled => ("Write stalled: the port accepted no data for a long time", false),
            SessionText::WriteFailed => ("Write failed: ", true),
            SessionText::OpenFailed => ("Failed to open port: ", true),
            SessionText::QueueEmpty => ("The queue is empty", false),
            SessionText::FileReadFailed => ("Failed to read file: ", true),
            SessionText::FileTooLarge => ("File too large (limit 512 MB)", false),
            SessionText::PortReadFailed => ("Failed to read port: ", true),
        },
    };
    let mut s = String::from_str(head);
    if with_detail {
        s.append(detail);
    }
    s
}

} // verus!

verus! {

/// Status-bar and alert messages of the interface.  A message is its fixed parts with up
/// to two details between them (a port name, a count, an error).
#[derive(Clone, Copy, Debug, PartialEq, Eq, Structural)]
pub enum Notice {
    Ready,
    /// Detail: the port.
    Connected,
    Disconnected,
    DisconnectedError,
    /// Details: the queue name and the number of entries.
    QueueStarted,
    QueueDone,
    QueueStopped,
    /// Details: the file name and its size in bytes.
    FileStarted,
    FileDone,
    FileCancelled,
    EmptySend,
    EmptyPeriodic,
    /// Detail: the number of bytes.
    SentBytes,
    /// Detail: the number of bytes.
    SentQueueItem,
    AddedToQueue,
    QueueFull,
    /// Details: the entry number (from 1) and the error.
    InvalidItem,
    /// Detail: the number of entries skipped.
    SkippedItems,
    QueueEmptyAlert,
    NothingToSendAlert,
    ChooseFileFirst,
    NoImportableItems,
    /// Detail: the limit.
    QueueLimitReached,
    /// Details: entries added and entries skipped.
    ImportedSome,
    /// Detail: entries added.
    Imported,
    SelectPortFirst,
    InvalidBaud,
    OpeningPort,
    /// Detail: the error.
    EnumPortsFailed,
    /// Detail: the error.
    CreateLogFailed,
}

/// The fixed parts of a message: `p0 + x + p1 + y + p2` for details `x` and `y`.
pub open spec fn notice_parts(lang: Language, n: Notice) -> (Seq<char>, Seq<char>, Seq<char>) {
    match lang {
        Language::Chinese => match n {
            Notice::Ready => ("就绪"@, ""@, ""@),
            Notice::Connected => ("已连接："@, ""@, ""@),
            Notice::Disconnected => ("已断开"@, ""@, ""@),
            Notice::DisconnectedError => ("串口连接已断开（设备可能已移除）"@, ""@, ""@),
            Notice::QueueStarted => ("开始发送队列「"@, "」，共 "@, " 条"@),
            Notice::QueueDone => ("队列发送完成"@, ""@, ""@),
            Notice::QueueStopped => ("队列发送已停止"@, ""@, ""@),
            Notice::FileStarted => ("开始发送文件「"@, "」，共 "@, " 字节"@),
            Notice::FileDone => ("文件发送完成"@, ""@, ""@),
            Notice::FileCancelled => ("文件发送已取消"@, ""@, ""@),
            Notice::EmptySend => ("发送内容为空"@, ""@, ""@),
            Notice::EmptyPeriodic => ("定时发送内容为空"@, ""@, ""@),
            Notice::SentBytes => ("已发送 "@, " 字节"@, ""@),
            Notice::SentQueueItem => ("已发送队列条目（"@, " 字节）"@, ""@),
            Notice::AddedToQueue => ("已添加到队列"@, ""@, ""@),
            Notice::QueueFull => ("队列已满"@, ""@, ""@),
            Notice::InvalidItem => ("第 "@, " 条无效："@, ""@),
            Notice::SkippedItems => ("已跳过 "@, " 条未勾选或空的条目"@, ""@),
            Notice::QueueEmptyAlert => ("队列中没有条目"@, ""@, ""@),
            Notice::NothingToSendAlert => ("没有可发送的条目（请勾选条目并填写内容）"@, ""@, ""@),
            Notice::ChooseFileFirst => ("请先选择文件"@, ""@, ""@),
            Notice::NoImportableItems => ("没有可导入的条目"@, ""@, ""@),
            Notice::QueueLimitReached => ("队列已达上限（"@, " 条）"@, ""@),
            Notice::ImportedSome => ("已导入 "@, " 条，跳过 "@, " 条（超出上限）"@),
            Notice::Imported => ("已导入 "@, " 条"@, ""@),
            Notice::SelectPortFirst => ("请先选择串口"@, ""@, ""@),
            Notice::InvalidBaud => ("波特率无效"@, ""@, ""@),
            Notice::OpeningPort => ("正在打开串口…"@, ""@, ""@),
            Notice::EnumPortsFailed => ("枚举串口失败："@, ""@, ""@),
            Notice::CreateLogFailed => ("创建日志文件失败："@, ""@, ""@),
        },
        Language::English => match n {
            Notice::Ready => ("Ready"@, ""@, ""@),
            Notice::Connected => ("Connected: "@, ""@, ""@),
            Notice::Disconnected => ("Disconnected"@, ""@, ""@),
            Notice::DisconnectedError => ("Port connection lost (device removed?)"@, ""@, ""@),
            Notice::QueueStarted => ("Sending queue \""@, "\": "@, " entries"@),
            Notice::QueueDone => ("Queue sent"@, ""@, ""@),
            Notice::QueueStopped => ("Queue sending stopped"@, ""@, ""@),
            Notice::FileStarted => ("Sending file \""@, "\": "@, " bytes"@),
            Notice::FileDone => ("File sent"@, ""@, ""@),
            Notice::FileCancelled => ("File sending cancelled"@, ""@, ""@),
            Notice::EmptySend => ("Nothing to send"@, ""@, ""@),
            Notice::EmptyPeriodic => ("Nothing to send periodically"@, ""@, ""@),
            Notice::SentBytes => ("Sent "@, " bytes"@, ""@),
            Notice::SentQueueItem => ("Sent queue entry ("@, " bytes)"@, ""@),
            Notice::AddedToQueue => ("Added to queue"@, ""@, ""@),
            Notice::QueueFull => ("The queue is full"@, ""@, ""@),
            Notice::InvalidItem => ("Entry "@, " is invalid: "@, ""@),
            Notice::SkippedItems => ("Skipped "@, " unchecked or empty entries"@, ""@),
            Notice::QueueEmptyAlert => ("The queue has no entries"@, ""@, ""@),
            Notice::NothingToSendAlert => ("Nothing to send (check entries and fill in their content)"@, ""@, ""@),
            Notice::ChooseFileFirst => ("Choose a file first"@, ""@, ""@),
            Notice::NoImportableItems => ("No entries to import"@, ""@, ""@),
            Notice::QueueLimitReached => ("Queue limit reached ("@, " entries)"@, ""@),
            Notice::ImportedSome => ("Imported "@, " entries, skipped "@, " (over the limit)"@),
            Notice::Imported => ("Imported "@, " entries"@, ""@),
            Notice::SelectPortFirst => ("Select a port first"@, ""@, ""@),
            Notice::InvalidBaud => ("Invalid baud rate"@, ""@, ""@),
            Notice::OpeningPort => ("Opening port…"@, ""@, ""@),
            Notice::EnumPortsFailed => ("Failed to list ports: "@, ""@, ""@),
            Notice::CreateLogFailed => ("Failed to create the log file: "@, ""@, ""@),
        },
    }
}

/// The text of a message with details `x` and `y`.
pub open spec fn notice_text(lang: Language, n: Notice, x: Seq<char>, y: Seq<char>) -> Seq<char> {
    let (p0, p1, p2) = notice_parts(lang, n);
    p0 + x + p1 + y + p2
}

fn parts_of(lang: Language, n: Notice) -> (r: (&'static str, &'static str, &'static str))
    ensures
        (r.0@, r.1@, r.2@) == notice_parts(lang, n),
{
    match lang {
        Language::Chinese => match n {
            Notice::Ready => ("就绪", "", ""),
            Notice::Connected => ("已连接：", "", ""),
            Notice::Disconnected => ("已断开", "", ""),
            Notice::DisconnectedError => ("串口连接已断开（设备可能已移除）", "", ""),
            Notice::QueueStarted => ("开始发送队列「", "」，共 ", " 条"),
            Notice::QueueDone => ("队列发送完成", "", ""),
            Notice::QueueStopped => ("队列发送已停止", "", ""),
            Notice::FileStarted => ("开始发送文件「", "」，共 ", " 字节"),
            Notice::FileDone => ("文件发送完成", "", ""),
            Notice::FileCancelled => ("文件发送已取消", "", ""),
            Notice::EmptySend => ("发送内容为空", "", ""),
            Notice::EmptyPeriodic => ("定时发送内容为空", "", ""),
            Notice::SentBytes => ("已发送 ", " 字节", ""),
            Notice::SentQueueItem => ("已发送队列条目（", " 字节）", ""),
            Notice::AddedToQueue => ("已添加到队列", "", ""),
            Notice::QueueFull => ("队列已满", "", ""),
            Notice::InvalidItem => ("第 ", " 条无效：", ""),
            Notice::SkippedItems => ("已跳过 ", " 条未勾选或空的条目", ""),
            Notice::QueueEmptyAlert => ("队列中没有条目", "", ""),
            Notice::NothingToSendAlert => ("没有可发送的条目（请勾选条目并填写内容）", "", ""),
            Notice::ChooseFileFirst => ("请先选择文件", "", ""),
            Notice::NoImportableItems => ("没有可导入的条目", "", ""),
            Notice::QueueLimitReached => ("队列已达上限（", " 条）", ""),
            Notice::ImportedSome => ("已导入 ", " 条，跳过 ", " 条（超出上限）"),
            Notice::Imported => ("已导入 ", " 条", ""),
            Notice::SelectPortFirst => ("请先选择串口", "", ""),
            Notice::InvalidBaud => ("波特率无效", "", ""),
            Notice::OpeningPort => ("正在打开串口…", "", ""),
            Notice::EnumPortsFailed => ("枚举串口失败：", "", ""),
            Notice::CreateLogFailed => ("创建日志文件失败：", "", ""),
        },
        Language::English => match n {
            Notice::Ready => ("Ready", "", ""),
            Notice::Connected => ("Connected: ", "", ""),
            Notice::Disconnected => ("Disconnected", "", ""),
            Notice::DisconnectedError => ("Port connection lost (device removed?)", "", ""),
            Notice::QueueStarted => ("Sending queue \"", "\": ", " entries"),
            Notice::QueueDone => ("Queue sent", "", ""),
            Notice::QueueStopped => ("Queue sending stopped", "", ""),
            Notice::FileStarted => ("Sending file \"", "\": ", " bytes"),
            Notice::FileDone => ("File sent", "", ""),
            Notice::FileCancelled => ("File sending cancelled", "", ""),
            Notice::EmptySend => ("Nothing to send", "", ""),
            Notice::EmptyPeriodic => ("Nothing to send periodically", "", ""),
            Notice::SentBytes => ("Sent ", " bytes", ""),
            Notice::SentQueueItem => ("Sent queue entry (", " bytes)", ""),
            Notice::AddedToQueue => ("Added to queue", "", ""),
            Notice::QueueFull => ("The queue is full", "", ""),
            Notice::InvalidItem => ("Entry ", " is invalid: ", ""),
            Notice::SkippedItems => ("Skipped ", " unchecked or empty entries", ""),
            Notice::QueueEmptyAlert => ("The queue has no entries", "", ""),
            Notice::NothingToSendAlert => ("Nothing to send (check entries and fill in their content)", "", ""),
            Notice::ChooseFileFirst => ("Choose a file first", "", ""),
            Notice::NoImportableItems => ("No entries to import", "", ""),
            Notice::QueueLimitReached => ("Queue limit reached (", " entries)", ""),
            Notice::ImportedSome => ("Imported ", " entries, skipped ", " (over the limit)"),
            Notice::Imported => ("Imported ", " entries", ""),
            Notice::SelectPortFirst => ("Select a port first", "", ""),
            Notice::InvalidBaud => ("Invalid baud rate", "", ""),
            Notice::OpeningPort => ("Opening port…", "", ""),
            Notice::EnumPortsFailed => ("Failed to list ports: ", "", ""),
            Notice::CreateLogFailed => ("Failed to create the log file: ", "", ""),
        },
    }
}

/// Builds a message with details `x` and `y` (empty where the message has fewer).
pub fn notice(lang: Language, n: Notice, x: &str, y: &str) -> (s: String)
    ensures
        s@ == notice_text(lang, n, x@, y@),
{
    let (p0, p1, p2) = parts_of(lang, n);
    let mut s = String::from_str(p0);
    s.append(x);
    s.append(p1);
    s.append(y);
    s.append(p2);
    s
}

} // verus!

verus! {

/// The interface language for a locale name such as `zh_CN.UTF-8`: Chinese for a locale
/// starting with `zh` (in either case), English otherwise.
pub open spec fn locale_language(locale: Seq<char>) -> Language {
    if locale.len() >= 2 && (locale[0] == 'z' || locale[0] == 'Z') && (locale[1] == 'h' || locale[1] == 'H') {
        Language::Chinese
    } else {
        Language::English
    }
}

/// Picks the interface language for a locale name.
pub fn language_for_locale(locale: &str) -> (l: Language)
    ensures
        l == locale_language(locale@),
{
    let c = crate::strs::chars_of(locale);
    if c.len() >= 2 && (c[0] == 'z' || c[0] == 'Z') && (c[1] == 'h' || c[1] == 'H') {
        Language::Chinese
    } else {
        Language::English
    }
}

} // verus!

//! Application settings: port parameters, display preferences and send queues.
use vstd::prelude::*;
use vstd::string::StringExecFns;
use crate::i18n::{queue_name, queue_name_text, Language};
use crate::strs::{chars_of, is_blank, trim_chars};

verus! {

/// Number of data bits per character.
#[derive(Clone, Copy, Debug, PartialEq, Eq, Structural)]
pub enum DataBits {
    Five,
    Six,
    Seven,
    Eight,
}

impl DataBits {
    pub fn label(self) -> (s: &'static str)
        ensures
            s@ == match self {
                DataBits::Five => "5"@,
                DataBits::Six => "6"@,
                DataBits::Seven => "7"@,
                DataBits::Eight => "8"@,
            },
    {
        match self {
            DataBits::Five => "5",
            DataBits::Six => "6",
            DataBits::Seven => "7",
            DataBits::Eight => "8",
        }
    }
}

impl Default for DataBits {
    fn default() -> (d: Self)
        ensures
            d == DataBits::Eight,
    {
        DataBits::Eight
    }
}

/// Number of stop bits.
#[derive(Clone, Copy, Debug, PartialEq, Eq, Structural)]
pub enum StopBits {
    One,
    OnePointFive,
    Two,
}

/// Stop bits that the serial driver can open a port with.
#[derive(Clone, Copy, Debug, PartialEq, Eq, Structural)]
pub enum SerialStopBits {
    One,
    Two,
}

pub open spec fn stop_bits_unsupported_text(lang: Language) -> Seq<char> {
    if lang == Language::Chinese {
        "serialport 库暂不支持 1.5 停止位"@
    } else {
        "1.5 stop bits are not supported by the serialport crate"@
    }
}

impl StopBits {
    pub fn label(self) -> (s: &'static str)
        ensures
            s@ == match self {
                StopBits::One => "1"@,
                StopBits::OnePointFive => "1.5"@,
                StopBits::Two => "2"@,
            },
    {
        match self {
            StopBits::One => "1",
            StopBits::OnePointFive => "1.5",
            StopBits::Two => "2",
        }
    }

    /// The stop bits to open the port with; 1.5 stop bits cannot be opened.
    pub fn to_serial(self, lang: Language) -> (r: Result<SerialStopBits, String>)
        ensures
            match self {
                StopBits::One => r == Ok::<SerialStopBits, String>(SerialStopBits::One),
                StopBits::Two => r == Ok::<SerialStopBits, String>(SerialStopBits::Two),
                StopBits::OnePointFive => r matches Err(e) && e@ == stop_bits_unsupported_text(lang),
            },
    {
        match self {
            StopBits::One => Ok(SerialStopBits::One),
            StopBits::Two => Ok(SerialStopBits::Two),
            StopBits::OnePointFive => Err(
                if lang == Language::Chinese {
                    String::from_str("serialport 库暂不支持 1.5 停止位")
                } else {
                    String::from_str("1.5 stop bits are not supported by the serialport crate")
                },
            ),
        }
    }
}

impl Default for StopBits {
    fn default() -> (d: Self)
        ensures
            d == StopBits::One,
    {
        StopBits::One
    }
}

/// Parity checking mode.
#[derive(Clone, Copy, Debug, PartialEq, Eq, Structural)]
pub enum Parity {
    NoParity,
    Even,
    Odd,
    Mark,
    Space,
}

/// Parity modes that the serial driver can open a port with.
#[derive(Clone, Copy, Debug, PartialEq, Eq, Structural)]
pub enum SerialParity {
    NoParity,
    Even,
    Odd,
}

pub open spec fn parity_unsupported_text(p: Parity, lang: Language) -> Seq<char> {
    if p == Parity::Mark {
        if lang == Language::Chinese {
            "serialport 库暂不支持 Mark 校验"@
        } else {
            "Mark parity is not supported by the serialport crate"@
        }
    } else {
        if lang == Language::Chinese {
            "serialport 库暂不支持 Space 校验"@
        } else {
            "Space parity is not supported by the serialport crate"@
        }
    }
}

impl Parity {
    pub fn label(self) -> (s: &'static str)
        ensures
            s@ == match self {
                Parity::NoParity => "None"@,
                Parity::Even => "Even"@,
                Parity::Odd => "Odd"@,
                Parity::Mark => "Mark"@,
                Parity::Space => "Space"@,
            },
    {
        match self {
            Parity::NoParity => "None",
            Parity::Even => "Even",
            Parity::Odd => "Odd",
            Parity::Mark => "Mark",
            Parity::Space => "Space",
        }
    }

    /// The parity to open the port with; Mark and Space parity cannot be opened.
    pub fn to_serial(self, lang: Language) -> (r: Result<SerialParity, String>)
        ensures
            match self {
                Parity::NoParity => r == Ok::<SerialParity, String>(SerialParity::NoParity),
                Parity::Even => r == Ok::<SerialParity, String>(SerialParity::Even),
                Parity::Odd => r == Ok::<SerialParity, String>(SerialParity::Odd),
                _ => r matches Err(e) && e@ == parity_unsupported_text(self, lang),
            },
    {
        match self {
            Parity::NoParity => Ok(SerialParity::NoParity),
            Parity::Even => Ok(SerialParity::Even),
            Parity::Odd => Ok(SerialParity::Odd),
            Parity::Mark => Err(
                if lang == Language::Chinese {
                    String::from_str("serialport 库暂不支持 Mark 校验")
                } else {
                    String::from_str("Mark parity is not supported by the serialport crate")
                },
            ),
            Parity::Space => Err(
                if lang == Language::Chinese {
                    String::from_str("serialport 库暂不支持 Space 校验")
                } else {
                    String::from_str("Space parity is not supported by the serialport crate")
                },
            ),
        }
    }
}

impl Default for Parity {
    fn default() -> (d: Self)
        ensures
            d == Parity::NoParity,
    {
        Parity::NoParity
    }
}

/// Flow control mode.
#[derive(Clone, Copy, Debug, PartialEq, Eq, Structural)]
pub enum FlowControl {
    NoFlowControl,
    Software,
    Hardware,
}

impl Default for FlowControl {
    fn default() -> (d: Self)
        ensures
            d == FlowControl::NoFlowControl,
    {
        FlowControl::NoFlowControl
    }
}

/// Parameters to open a serial port with.
#[derive(Debug)]
pub struct PortSettings {
    pub port_name: String,
    pub baud_rate: u32,
    pub data_bits: DataBits,
    pub stop_bits: StopBits,
    pub parity: Parity,
    pub flow_control: FlowControl,
}

impl Default for PortSettings {
    fn default() -> (p: Self)
        ensures
            p.port_name@.len() == 0,
            p.baud_rate == 115200,
            p.data_bits == DataBits::Eight,
            p.stop_bits == StopBits::One,
            p.parity == Parity::NoParity,
            p.flow_control == FlowControl::NoFlowControl,
    {
        PortSettings {
            port_name: String::new(),
            baud_rate: 115200,
            data_bits: DataBits::Eight,
            stop_bits: StopBits::One,
            parity: Parity::NoParity,
            flow_control: FlowControl::NoFlowControl,
        }
    }
}

/// How received data is shown.
#[derive(Clone, Copy, Debug, PartialEq, Eq, Structural)]
pub enum DisplayMode {
    Text,
    Hex,
}

impl DisplayMode {
    pub fn label(self, lang: Language) -> (s: &'static str)
        ensures
            s@ == match (lang, self) {
                (Language::Chinese, DisplayMode::Text) => "文本"@,
                (Language::English, DisplayMode::Text) => "Text"@,
                (_, DisplayMode::Hex) => "HEX"@,
            },
    {
        match lang {
            Language::Chinese => match self {
                DisplayMode::Text => "文本",
                DisplayMode::Hex => "HEX",
            },
            Language::English => match self {
                DisplayMode::Text => "Text",
                DisplayMode::Hex => "HEX",
            },
        }
    }
}

impl Default for DisplayMode {
    fn default() -> (d: Self)
        ensures
            d == DisplayMode::Text,
    {
        DisplayMode::Text
    }
}

/// How the send input is read.
#[derive(Clone, Copy, Debug, PartialEq, Eq, Structural)]
pub enum SendMode {
    Text,
    Hex,
}

impl SendMode {
    pub fn label(self, lang: Language) -> (s: &'static str)
        ensures
            s@ == match (lang, self) {
                (Language::Chinese, SendMode::Text) => "文本"@,
                (Language::English, SendMode::Text) => "Text"@,
                (_, SendMode::Hex) => "HEX"@,
            },
    {
        match lang {
            Language::Chinese => match self {
                SendMode::Text => "文本",
                SendMode::Hex => "HEX",
            },
            Language::English => match self {
                SendMode::Text => "Text",
                SendMode::Hex => "HEX",
            },
        }
    }
}

impl Default for SendMode {
    fn default() -> (d: Self)
        ensures
            d == SendMode::Text,
    {
        SendMode::Text
    }
}

/// Line ending appended to text that is sent.
#[derive(Clone, Copy, Debug, PartialEq, Eq, Structural)]
#[allow(clippy::upper_case_acronyms)]
pub enum LineEnding {
    NoEnding,
    CR,
    LF,
    CRLF,
}

/// The bytes of a line ending.
pub open spec fn line_ending_bytes(le: LineEnding) -> Seq<u8> {
    match le {
        LineEnding::NoEnding => Seq::empty(),
        LineEnding::CR => seq![13u8],
        LineEnding::LF => seq![10u8],
        LineEnding::CRLF => seq![13u8, 10u8],
    }
}

impl LineEnding {
    pub fn label(self, lang: Language) -> (s: &'static str)
        ensures
            s@ == match (lang, self) {
                (Language::Chinese, LineEnding::NoEnding) => "无"@,
                (Language::English, LineEnding::NoEnding) => "None"@,
                (_, LineEnding::CR) => "CR"@,
                (_, LineEnding::LF) => "LF"@,
                (_, LineEnding::CRLF) => "CRLF"@,
            },
    {
        match lang {
            Language::Chinese => match self {
                LineEnding::NoEnding => "无",
                LineEnding::CR => "CR",
                LineEnding::LF => "LF",
                LineEnding::CRLF => "CRLF",
            },
            Language::English => match self {
                LineEnding::NoEnding => "None",
                LineEnding::CR => "CR",
                LineEnding::LF => "LF",
                LineEnding::CRLF => "CRLF",
            },
        }
    }

    /// The bytes appended for this line ending.
    pub fn bytes(self) -> (b: Vec<u8>)
        ensures
            b@ == line_ending_bytes(self),
    {
        match self {
            LineEnding::NoEnding => Vec::new(),
            LineEnding::CR => vec![13u8],
            LineEnding::LF => vec![10u8],
            LineEnding::CRLF => vec![13u8, 10u8],
        }
    }
}

impl Default for LineEnding {
    fn default() -> (d: Self)
        ensures
            d == LineEnding::NoEnding,
    {
        LineEnding::NoEnding
    }
}

/// Text encoding used to show and send text.
#[derive(Clone, Copy, Debug, PartialEq, Eq, Structural)]
pub enum TextEncoding {
    Utf8,
    Gbk,
    Ascii,
}

impl TextEncoding {
    pub fn label(self) -> (s: &'static str)
        ensures
            s@ == match self {
                TextEncoding::Utf8 => "UTF-8"@,
                TextEncoding::Gbk => "GBK"@,
                TextEncoding::Ascii => "ASCII"@,
            },
    {
        match self {
            TextEncoding::Utf8 => "UTF-8",
            TextEncoding::Gbk => "GBK",
            TextEncoding::Ascii => "ASCII",
        }
    }
}

impl Default for TextEncoding {
    fn default() -> (d: Self)
        ensures
            d == TextEncoding::Utf8,
    {
        TextEncoding::Utf8
    }
}

/// How a file is sent.
#[derive(Clone, Copy, Debug, PartialEq, Eq, Structural)]
pub enum FileSendMode {
    WholeFile,
    LineByLine,
}

impl FileSendMode {
    pub fn label(self, lang: Language) -> (s: &'static str)
        ensures
            s@ == match (lang, self) {
                (Language::Chinese, FileSendMode::WholeFile) => "整块发送"@,
                (Language::Chinese, FileSendMode::LineByLine) => "逐行发送"@,
                (Language::English, FileSendMode::WholeFile) => "Whole file"@,
                (Language::English, FileSendMode::LineByLine) => "Line by line"@,
            },
    {
        match lang {
            Language::Chinese => match self {
                FileSendMode::WholeFile => "整块发送",
                FileSendMode::LineByLine => "逐行发送",
            },
            Language::English => match self {
                FileSendMode::WholeFile => "Whole file",
                FileSendMode::LineByLine => "Line by line",
            },
        }
    }
}

impl Default for FileSendMode {
    fn default() -> (d: Self)
        ensures
            d == FileSendMode::WholeFile,
    {
        FileSendMode::WholeFile
    }
}

/// Interface theme setting: follow the system, always dark, or always light.
#[derive(Clone, Copy, Debug, PartialEq, Eq, Structural)]
pub enum ThemeSetting {
    System,
    Dark,
    Light,
}

impl ThemeSetting {
    /// Whether the dark theme applies (`System` follows `system_dark`).
    pub fn is_dark(&self, system_dark: bool) -> (b: bool)
        ensures
            b == match *self {
                ThemeSetting::System => system_dark,
                ThemeSetting::Dark => true,
                ThemeSetting::Light => false,
            },
    {
        match self {
            ThemeSetting::System => system_dark,
            ThemeSetting::Dark => true,
            ThemeSetting::Light => false,
        }
    }
}

impl Default for ThemeSetting {
    fn default() -> (d: Self)
        ensures
            d == ThemeSetting::System,
    {
        ThemeSetting::System
    }
}


/// One entry of a send queue.
#[derive(Debug)]
pub struct QueueItem {
    pub mode: SendMode,
    pub content: String,
    /// Milliseconds to wait after this entry when the queue is sent; 0 sends the next at once.
    pub delay_ms: u32,
    /// Whether the entry takes part when the queue is sent.
    pub selected: bool,
}

/// A fresh queue entry: text mode, empty content, 100 ms delay, selected.
pub open spec fn is_fresh_item(it: QueueItem) -> bool {
    &&& it.mode == SendMode::Text
    &&& it.content@.len() == 0
    &&& it.delay_ms == 100
    &&& it.selected
}

impl QueueItem {
    /// A copy of the entry.
    pub fn duplicate(&self) -> (r: QueueItem)
        ensures
            r == *self,
    {
        QueueItem {
            mode: self.mode,
            content: self.content.clone(),
            delay_ms: self.delay_ms,
            selected: self.selected,
        }
    }
}

impl Default for QueueItem {
    fn default() -> (it: Self)
        ensures
            is_fresh_item(it),
    {
        QueueItem { mode: SendMode::Text, content: String::new(), delay_ms: 100, selected: true }
    }
}

/// A named list of entries that can be sent one after another.
#[derive(Debug)]
pub struct SendQueue {
    pub name: String,
    pub items: Vec<QueueItem>,
}

impl SendQueue {
    /// A queue with the given name and one fresh entry.
    pub fn new(name: String) -> (q: Self)
        ensures
            q.name == name,
            q.items@.len() == 1,
            is_fresh_item(q.items@[0]),
    {
        SendQueue { name, items: vec![QueueItem::default()] }
    }

    /// A copy of the queue.
    pub fn duplicate(&self) -> (r: SendQueue)
        ensures
            r.name == self.name,
            r.items@ == self.items@,
    {
        let mut items: Vec<QueueItem> = Vec::new();
        let mut i: usize = 0;
        while i < self.items.len()
            invariant
                i <= self.items@.len(),
                items@ == self.items@.take(i as int),
            decreases self.items@.len() - i,
        {
            items.push(self.items[i].duplicate());
            i = i + 1;
            assert(items@ =~= self.items@.take(i as int));
        }
        assert(self.items@.take(self.items@.len() as int) =~= self.items@);
        SendQueue { name: self.name.clone(), items }
    }
}

/// Every entry of the queue has blank content.
pub open spec fn all_items_blank(items: Seq<QueueItem>) -> bool {
    forall|j: int| 0 <= j < items.len() ==> trim_chars(#[trigger] items[j].content@).len() == 0
}

/// The name that queues were given by default before localized names existed.
pub open spec fn legacy_default_queue_name() -> Seq<char> {
    "队列 1"@
}

/// Whether every entry has blank content.
pub fn items_all_blank(items: &Vec<QueueItem>) -> (b: bool)
    ensures
        b == all_items_blank(items@),
{
    let mut i: usize = 0;
    while i < items.len()
        invariant
            i <= items@.len(),
            forall|j: int| 0 <= j < i ==> trim_chars(#[trigger] items@[j].content@).len() == 0,
        decreases items@.len() - i,
    {
        let chars = chars_of(items[i].content.as_str());
        if !is_blank(chars.as_slice()) {
            return false;
        }
        i = i + 1;
    }
    true
}

/// All settings of the application.
#[derive(Debug)]
pub struct Config {
    pub port: PortSettings,
    pub language: Language,
    pub theme: ThemeSetting,
    pub display_mode: DisplayMode,
    pub text_encoding: TextEncoding,
    pub autoscroll: bool,
    /// Whether shown data carries time stamps.
    pub show_timestamps: bool,
    pub send_mode: SendMode,
    pub line_ending: LineEnding,
    pub periodic_interval_ms: u32,
    pub file_mode: FileSendMode,
    pub file_line_interval_ms: u32,
    pub queues: Vec<SendQueue>,
    pub selected_queue: usize,
    pub max_queue_items: usize,
    pub auto_refresh_ports: bool,
    /// Terminal mode of the receive area.
    pub terminal_mode: bool,
    /// Local echo of sent data.
    pub terminal_auto_echo: bool,
    /// In terminal mode, send a whole line on Enter rather than each key.
    pub terminal_enter_sends: bool,
}

/// Largest limit on the number of entries of a queue.
pub const MAX_QUEUE_ITEMS_LIMIT: usize = 1000;

/// Two settings agree on everything but the queues and the selected queue.
pub open spec fn same_settings(a: Config, b: Config) -> bool {
    &&& a.port == b.port
    &&& a.language == b.language
    &&& a.theme == b.theme
    &&& a.display_mode == b.display_mode
    &&& a.text_encoding == b.text_encoding
    &&& a.autoscroll == b.autoscroll
    &&& a.show_timestamps == b.show_timestamps
    &&& a.send_mode == b.send_mode
    &&& a.line_ending == b.line_ending
    &&& a.periodic_interval_ms == b.periodic_interval_ms
    &&& a.file_mode == b.file_mode
    &&& a.file_line_interval_ms == b.file_line_interval_ms
    &&& a.max_queue_items == b.max_queue_items
    &&& a.auto_refresh_ports == b.auto_refresh_ports
    &&& a.terminal_mode == b.terminal_mode
    &&& a.terminal_auto_echo == b.terminal_auto_echo
    &&& a.terminal_enter_sends == b.terminal_enter_sends
}

/// The name of the default queue in the given language.
pub open spec fn default_queue_name_text(lang: Language) -> Seq<char> {
    queue_name_text(lang, 1)
}

/// Builds the name of the default queue in the given language.
pub fn default_queue_name(lang: Language) -> (s: String)
    ensures
        s@ == default_queue_name_text(lang),
{
    queue_name(lang, 1)
}

/// `new` is what normalizing the queues `old` gives for the interface language `lang`:
/// no queue becomes one default queue; otherwise, for a non-Chinese interface, each queue
/// still named with the legacy default name and holding only blank entries is renamed to
/// the localized default name, and everything else is kept.
pub open spec fn queues_normalized(old: Seq<SendQueue>, new: Seq<SendQueue>, lang: Language) -> bool {
    if old.len() == 0 {
        &&& new.len() == 1
        &&& new[0].name@ == default_queue_name_text(lang)
        &&& new[0].items@.len() == 1
        &&& is_fresh_item(new[0].items@[0])
    } else {
        &&& new.len() == old.len()
        &&& forall|i: int|
            0 <= i < old.len() ==> {
                let q = #[trigger] old[i];
                let r = new[i];
                &&& r.items@ == q.items@
                &&& if lang != Language::Chinese && q.name@ == legacy_default_queue_name()
                    && all_items_blank(q.items@) {
                    r.name@ == default_queue_name_text(lang)
                } else {
                    r.name == q.name
                }
            }
    }
}

impl Config {
    /// The queues exist and one of them is selected.
    pub open spec fn wf(&self) -> bool {
        &&& self.queues@.len() >= 1
        &&& self.selected_queue < self.queues@.len()
    }

    /// The default settings for the given interface language.
    pub fn with_language(language: Language) -> (c: Self)
        ensures
            c.wf(),
            c.language == language,
            c.port.port_name@.len() == 0,
            c.port.baud_rate == 115200,
            c.port.data_bits == DataBits::Eight,
            c.port.stop_bits == StopBits::One,
            c.port.parity == Parity::NoParity,
            c.port.flow_control == FlowControl::NoFlowControl,
            c.theme == ThemeSetting::System,
            c.display_mode == DisplayMode::Text,
            c.text_encoding == TextEncoding::Utf8,
            c.autoscroll,
            c.show_timestamps,
            c.send_mode == SendMode::Text,
            c.line_ending == LineEnding::NoEnding,
            c.periodic_interval_ms == 1000,
            c.file_mode == FileSendMode::WholeFile,
            c.file_line_interval_ms == 100,
            c.queues@.len() == 1,
            c.queues@[0].name@ == default_queue_name_text(language),
            c.queues@[0].items@.len() == 1,
            is_fresh_item(c.queues@[0].items@[0]),
            c.selected_queue == 0,
            c.max_queue_items == 200,
            c.auto_refresh_ports,
            !c.terminal_mode,
            c.terminal_auto_echo,
            c.terminal_enter_sends,
    {
        let q = SendQueue::new(default_queue_name(language));
        Config {
            port: PortSettings::default(),
            language,
            theme: ThemeSetting::System,
            display_mode: DisplayMode::Text,
            text_encoding: TextEncoding::Utf8,
            autoscroll: true,
            show_timestamps: true,
            send_mode: SendMode::Text,
            line_ending: LineEnding::NoEnding,
            periodic_interval_ms: 1000,
            file_mode: FileSendMode::WholeFile,
            file_line_interval_ms: 100,
            queues: vec![q],
            selected_queue: 0,
            max_queue_items: 200,
            auto_refresh_ports: true,
            terminal_mode: false,
            terminal_auto_echo: true,
            terminal_enter_sends: true,
        }
    }

    /// Fallback and migration of the queues:
    /// - with no queue at all, a default queue named in the current language is created;
    /// - for a non-Chinese interface, a queue still carrying the legacy Chinese default name
    ///   whose entries are all blank gets the localized default name; user data is kept.
    pub fn normalize_queues(&mut self)
        ensures
            same_settings(*final(self), *old(self)),
            final(self).selected_queue == old(self).selected_queue,
            queues_normalized(old(self).queues@, final(self).queues@, old(self).language),
    {
        if self.queues.len() == 0 {
            let q = SendQueue::new(default_queue_name(self.language));
            self.queues.push(q);
            return;
        }
        if self.language != Language::Chinese {
            let ghost old_queues = self.queues@;
            let mut i: usize = 0;
            while i < self.queues.len()
                invariant
                    self.language != Language::Chinese,
                    self.language == old(self).language,
                    same_settings(*self, *old(self)),
                    self.selected_queue == old(self).selected_queue,
                    old_queues == old(self).queues@,
                    self.queues@.len() == old_queues.len(),
                    i <= old_queues.len(),
                    forall|j: int|
                        0 <= j < old_queues.len() ==> {
                            let q = #[trigger] old_queues[j];
                            let r = self.queues@[j];
                            &&& r.items@ == q.items@
                            &&& if j < i && q.name@ == legacy_default_queue_name()
                                && all_items_blank(q.items@) {
                                r.name@ == default_queue_name_text(self.language)
                            } else {
                                r.name == q.name
                            }
                        },
                decreases old_queues.len() - i,
            {
                let legacy = String::from_str("队列 1");
                let is_legacy = self.queues[i].name == legacy;
                if is_legacy && items_all_blank(&self.queues[i].items) {
                    let mut q = self.queues.remove(i);
                    q.name = default_queue_name(self.language);
                    self.queues.insert(i, q);
                }
                i = i + 1;
            }
        }
    }

    /// Fixes settings read from disk: normalizes the queues, keeps the selection inside the
    /// queue list and holds the entry limit between 1 and 1000.
    pub fn after_load(&mut self)
        ensures
            final(self).wf(),
            queues_normalized(old(self).queues@, final(self).queues@, old(self).language),
            final(self).selected_queue == if old(self).selected_queue < final(self).queues@.len() {
                old(self).selected_queue
            } else {
                (final(self).queues@.len() - 1) as usize
            },
            final(self).max_queue_items == if old(self).max_queue_items < 1 {
                1
            } else if old(self).max_queue_items > MAX_QUEUE_ITEMS_LIMIT {
                MAX_QUEUE_ITEMS_LIMIT
            } else {
                old(self).max_queue_items
            },
            final(self).port == old(self).port,
            final(self).language == old(self).language,
            final(self).theme == old(self).theme,
            final(self).display_mode == old(self).display_mode,
            final(self).text_encoding == old(self).text_encoding,
            final(self).autoscroll == old(self).autoscroll,
            final(self).show_timestamps == old(self).show_timestamps,
            final(self).send_mode == old(self).send_mode,
            final(self).line_ending == old(self).line_ending,
            final(self).periodic_interval_ms == old(self).periodic_interval_ms,
            final(self).file_mode == old(self).file_mode,
            final(self).file_line_interval_ms == old(self).file_line_interval_ms,
            final(self).auto_refresh_ports == old(self).auto_refresh_ports,
            final(self).terminal_mode == old(self).terminal_mode,
            final(self).terminal_auto_echo == old(self).terminal_auto_echo,
            final(self).terminal_enter_sends == old(self).terminal_enter_sends,
    {
        self.normalize_queues();
        let last = self.queues.len() - 1;
        if self.selected_queue > last {
            self.selected_queue = last;
        }
        if self.max_queue_items < 1 {
            self.max_queue_items = 1;
        } else if self.max_queue_items > MAX_QUEUE_ITEMS_LIMIT {
            self.max_queue_items = MAX_QUEUE_ITEMS_LIMIT;
        }
    }

    /// Deletes the selected queue unless it is the only one; the selection stays in range.
    pub fn delete_selected_queue(&mut self) -> (deleted: bool)
        requires
            old(self).wf(),
        ensures
            final(self).wf(),
            same_settings(*final(self), *old(self)),
            deleted == (old(self).queues@.len() > 1),
            deleted ==> final(self).queues@ == old(self).queues@.remove(
                old(self).selected_queue as int,
            ),
            deleted ==> final(self).selected_queue == if old(self).selected_queue
                < final(self).queues@.len() {
                old(self).selected_queue
            } else {
                (final(self).queues@.len() - 1) as usize
            },
            !deleted ==> *final(self) == *old(self),
    {
        if self.queues.len() > 1 {
            self.queues.remove(self.selected_queue);
            let last = self.queues.len() - 1;
            if self.selected_queue > last {
                self.selected_queue = last;
            }
            true
        } else {
            false
        }
    }

    /// Adds a copy of the selected queue, named after it, and selects the copy.
    pub fn copy_selected_queue(&mut self)
        requires
            old(self).wf(),
            old(self).queues@.len() < usize::MAX,
        ensures
            final(self).wf(),
            same_settings(*final(self), *old(self)),
            final(self).queues@.len() == old(self).queues@.len() + 1,
            final(self).queues@.take(old(self).queues@.len() as int) == old(self).queues@,
            final(self).queues@.last().items@ == old(self).queues@[old(self).selected_queue as int].items@,
            final(self).queues@.last().name@ == queue_copy_name_text(
                old(self).language,
                old(self).queues@[old(self).selected_queue as int].name@,
            ),
            final(self).selected_queue == old(self).queues@.len(),
    {
        let mut copy = self.queues[self.selected_queue].duplicate();
        copy.name = queue_copy_name(self.language, &self.queues[self.selected_queue].name);
        self.queues.push(copy);
        self.selected_queue = self.queues.len() - 1;
        assert(self.queues@.take(old(self).queues@.len() as int) =~= old(self).queues@);
    }

    /// Adds a new queue named by its ordinal and selects it.
    pub fn new_queue(&mut self)
        requires
            old(self).wf(),
            old(self).queues@.len() + 1 < usize::MAX,
        ensures
            final(self).wf(),
            same_settings(*final(self), *old(self)),
            final(self).queues@.len() == old(self).queues@.len() + 1,
            final(self).queues@.take(old(self).queues@.len() as int) == old(self).queues@,
            final(self).queues@.last().name@ == queue_name_text(
                old(self).language,
                (old(self).queues@.len() + 1) as nat,
            ),
            final(self).queues@.last().items@.len() == 1,
            is_fresh_item(final(self).queues@.last().items@[0]),
            final(self).selected_queue == old(self).queues@.len(),
    {
        let name = queue_name(self.language, self.queues.len() + 1);
        self.queues.push(SendQueue::new(name));
        self.selected_queue = self.queues.len() - 1;
        assert(self.queues@.take(old(self).queues@.len() as int) =~= old(self).queues@);
    }
}

/// Name of the copy of a queue.
pub open spec fn queue_copy_name_text(lang: Language, name: Seq<char>) -> Seq<char> {
    match lang {
        Language::Chinese => name + " 副本"@,
        Language::English => name + " (copy)"@,
    }
}

fn queue_copy_name(lang: Language, name: &String) -> (s: String)
    ensures
        s@ == queue_copy_name_text(lang, name@),
{
    let mut s = name.clone();
    match lang {
        Language::Chinese => s.append(" 副本"),
        Language::English => s.append(" (copy)"),
    }
    s
}

/// The queues `new` are the queues `old` with the entries of queue `sel` replaced by `items`.
pub open spec fn selected_items_become(
    old: Seq<SendQueue>,
    new: Seq<SendQueue>,
    sel: int,
    items: Seq<QueueItem>,
) -> bool {
    &&& new.len() == old.len()
    &&& new[sel].name == old[sel].name
    &&& new[sel].items@ == items
    &&& forall|j: int| 0 <= j < old.len() && j != sel ==> #[trigger] new[j] == old[j]
}

/// What adding the send input to the selected queue gives.
#[derive(Clone, Copy, Debug, PartialEq, Eq, Structural)]
pub enum AddItemOutcome {
    Added,
    /// The content is blank.
    EmptyContent,
    /// The selected queue already holds the maximum number of entries.
    QueueFull,
}

/// What importing entries into the selected queue gives.
#[derive(Clone, Copy, Debug, PartialEq, Eq, Structural)]
pub enum ImportOutcome {
    /// Nothing was offered.
    NothingToImport,
    /// The queue was already full; the limit is given.
    LimitReached(usize),
    /// Only some entries fitted.
    ImportedSome { added: usize, skipped: usize },
    /// All entries were added.
    Imported(usize),
}

impl Config {
    fn take_selected_items(&mut self) -> (items: Vec<QueueItem>)
        requires
            old(self).wf(),
        ensures
            final(self).wf(),
            same_settings(*final(self), *old(self)),
            final(self).selected_queue == old(self).selected_queue,
            items@ == old(self).queues@[old(self).selected_queue as int].items@,
            selected_items_become(
                old(self).queues@,
                final(self).queues@,
                old(self).selected_queue as int,
                Seq::empty(),
            ),
    {
        let sel = self.selected_queue;
        let mut q = self.queues.remove(sel);
        let mut items: Vec<QueueItem> = Vec::new();
        std::mem::swap(&mut items, &mut q.items);
        self.queues.insert(sel, q);
        assert forall|j: int| 0 <= j < old(self).queues@.len() && j != sel implies
            #[trigger] self.queues@[j] == old(self).queues@[j] by {
            if j < sel {
            } else {
            }
        }
        items
    }

    fn put_selected_items(&mut self, items: Vec<QueueItem>)
        requires
            old(self).wf(),
        ensures
            final(self).wf(),
            same_settings(*final(self), *old(self)),
            final(self).selected_queue == old(self).selected_queue,
            selected_items_become(
                old(self).queues@,
                final(self).queues@,
                old(self).selected_queue as int,
                items@,
            ),
    {
        let sel = self.selected_queue;
        let mut q = self.queues.remove(sel);
        q.items = items;
        self.queues.insert(sel, q);
        assert forall|j: int| 0 <= j < old(self).queues@.len() && j != sel implies
            #[trigger] self.queues@[j] == old(self).queues@[j] by {
            if j < sel {
            } else {
            }
        }
    }

    /// Removes all entries of the selected queue.
    pub fn clear_selected_items(&mut self)
        requires
            old(self).wf(),
        ensures
            final(self).wf(),
            same_settings(*final(self), *old(self)),
            final(self).selected_queue == old(self).selected_queue,
            selected_items_become(
                old(self).queues@,
                final(self).queues@,
                old(self).selected_queue as int,
                Seq::empty(),
            ),
    {
        let _ = self.take_selected_items();
    }

    /// Appends a fresh entry to the selected queue unless it is full.
    pub fn add_fresh_item(&mut self) -> (added: bool)
        requires
            old(self).wf(),
        ensures
            final(self).wf(),
            same_settings(*final(self), *old(self)),
            final(self).selected_queue == old(self).selected_queue,
            added == (old(self).queues@[old(self).selected_queue as int].items@.len()
                < old(self).max_queue_items),
            added ==> {
                let old_items = old(self).queues@[old(self).selected_queue as int].items@;
                let new_items = final(self).queues@[old(self).selected_queue as int].items@;
                &&& new_items.len() == old_items.len() + 1
                &&& new_items.take(old_items.len() as int) == old_items
                &&& is_fresh_item(new_items.last())
                &&& selected_items_become(
                    old(self).queues@,
                    final(self).queues@,
                    old(self).selected_queue as int,
                    new_items,
                )
            },
            !added ==> *final(self) == *old(self),
    {
        if self.queues[self.selected_queue].items.len() < self.max_queue_items {
            let mut items = self.take_selected_items();
            items.push(QueueItem::default());
            self.put_selected_items(items);
            proof {
                let old_items = old(self).queues@[old(self).selected_queue as int].items@;
                assert(self.queues@[self.selected_queue as int].items@.take(old_items.len() as int)
                    =~= old_items);
            }
            true
        } else {
            false
        }
    }

    /// Moves entry `i` of the selected queue one place up (no change for the first).
    pub fn move_item_up(&mut self, i: usize)
        requires
            old(self).wf(),
            i < old(self).queues@[old(self).selected_queue as int].items@.len(),
        ensures
            final(self).wf(),
            same_settings(*final(self), *old(self)),
            final(self).selected_queue == old(self).selected_queue,
            ({
                let items = old(self).queues@[old(self).selected_queue as int].items@;
                selected_items_become(
                    old(self).queues@,
                    final(self).queues@,
                    old(self).selected_queue as int,
                    if i > 0 {
                        items.update(i as int, items[i - 1]).update(i - 1, items[i as int])
                    } else {
                        items
                    },
                )
            }),
    {
        let mut items = self.take_selected_items();
        if i > 0 {
            let a = items.remove(i);
            items.insert(i - 1, a);
        }
        let ghost old_items = old(self).queues@[old(self).selected_queue as int].items@;
        assert(i > 0 ==> items@ =~= old_items.update(i as int, old_items[i - 1]).update(
            i - 1,
            old_items[i as int],
        ));
        self.put_selected_items(items);
    }

    /// Moves entry `i` of the selected queue one place down (no change for the last).
    pub fn move_item_down(&mut self, i: usize)
        requires
            old(self).wf(),
            i < old(self).queues@[old(self).selected_queue as int].items@.len(),
        ensures
            final(self).wf(),
            same_settings(*final(self), *old(self)),
            final(self).selected_queue == old(self).selected_queue,
            ({
                let items = old(self).queues@[old(self).selected_queue as int].items@;
                selected_items_become(
                    old(self).queues@,
                    final(self).queues@,
                    old(self).selected_queue as int,
                    if items.len() - i > 1 {
                        items.update(i as int, items[i + 1]).update(i + 1, items[i as int])
                    } else {
                        items
                    },
                )
            }),
    {
        let mut items = self.take_selected_items();
        assert(i < items@.len());
        if items.len() - i > 1 {
            let a = items.remove(i);
            items.insert(i + 1, a);
        }
        let ghost old_items = old(self).queues@[old(self).selected_queue as int].items@;
        assert(i + 1 < old_items.len() ==> items@ =~= old_items.update(
            i as int,
            old_items[i + 1],
        ).update(i + 1, old_items[i as int]));
        self.put_selected_items(items);
    }

    /// Inserts a copy of entry `i` right after it, unless the selected queue is full.
    pub fn copy_item(&mut self, i: usize) -> (copied: bool)
        requires
            old(self).wf(),
            i < old(self).queues@[old(self).selected_queue as int].items@.len(),
        ensures
            final(self).wf(),
            same_settings(*final(self), *old(self)),
            final(self).selected_queue == old(self).selected_queue,
            ({
                let items = old(self).queues@[old(self).selected_queue as int].items@;
                &&& copied == (items.len() < old(self).max_queue_items)
                &&& selected_items_become(
                    old(self).queues@,
                    final(self).queues@,
                    old(self).selected_queue as int,
                    if copied {
                        items.insert(i + 1, items[i as int])
                    } else {
                        items
                    },
                )
            }),
    {
        let mut items = self.take_selected_items();
        let copied = items.len() < self.max_queue_items;
        if copied {
            let c = items[i].duplicate();
            items.insert(i + 1, c);
        }
        self.put_selected_items(items);
        copied
    }

    /// Removes entry `i` of the selected queue.
    pub fn remove_item(&mut self, i: usize)
        requires
            old(self).wf(),
            i < old(self).queues@[old(self).selected_queue as int].items@.len(),
        ensures
            final(self).wf(),
            same_settings(*final(self), *old(self)),
            final(self).selected_queue == old(self).selected_queue,
            selected_items_become(
                old(self).queues@,
                final(self).queues@,
                old(self).selected_queue as int,
                old(self).queues@[old(self).selected_queue as int].items@.remove(i as int),
            ),
    {
        let mut items = self.take_selected_items();
        items.remove(i);
        self.put_selected_items(items);
    }

    /// Adds the send input as a new entry of the selected queue: blank input is refused,
    /// and so is a full queue.
    pub fn add_content_item(&mut self, content: String, mode: SendMode) -> (r: AddItemOutcome)
        requires
            old(self).wf(),
        ensures
            final(self).wf(),
            same_settings(*final(self), *old(self)),
            final(self).selected_queue == old(self).selected_queue,
            ({
                let items = old(self).queues@[old(self).selected_queue as int].items@;
                if trim_chars(content@).len() == 0 {
                    r == AddItemOutcome::EmptyContent && *final(self) == *old(self)
                } else if items.len() < old(self).max_queue_items {
                    &&& r == AddItemOutcome::Added
                    &&& selected_items_become(
                        old(self).queues@,
                        final(self).queues@,
                        old(self).selected_queue as int,
                        items.push(
                            QueueItem { mode, content, delay_ms: 100, selected: true },
                        ),
                    )
                } else {
                    r == AddItemOutcome::QueueFull && *final(self) == *old(self)
                }
            }),
    {
        let chars = chars_of(content.as_str());
        if is_blank(chars.as_slice()) {
            return AddItemOutcome::EmptyContent;
        }
        if self.queues[self.selected_queue].items.len() < self.max_queue_items {
            let mut items = self.take_selected_items();
            items.push(QueueItem { mode, content, delay_ms: 100, selected: true });
            self.put_selected_items(items);
            AddItemOutcome::Added
        } else {
            AddItemOutcome::QueueFull
        }
    }

    /// Appends imported entries to the selected queue while it has room.
    pub fn import_items(&mut self, imported: Vec<QueueItem>) -> (r: ImportOutcome)
        requires
            old(self).wf(),
        ensures
            final(self).wf(),
            same_settings(*final(self), *old(self)),
            final(self).selected_queue == old(self).selected_queue,
            ({
                let items = old(self).queues@[old(self).selected_queue as int].items@;
                let max = old(self).max_queue_items;
                let room: int = if items.len() < max { max - items.len() } else { 0 };
                let added: int = if imported@.len() < room { imported@.len() as int } else { room };
                &&& selected_items_become(
                    old(self).queues@,
                    final(self).queues@,
                    old(self).selected_queue as int,
                    items + imported@.take(added),
                )
                &&& r == if imported@.len() == 0 {
                    ImportOutcome::NothingToImport
                } else if added == 0 {
                    ImportOutcome::LimitReached(max)
                } else if added < imported@.len() {
                    ImportOutcome::ImportedSome {
                        added: added as usize,
                        skipped: (imported@.len() - added) as usize,
                    }
                } else {
                    ImportOutcome::Imported(added as usize)
                }
            }),
    {
        let total = imported.len();
        let max = self.max_queue_items;
        let mut items = self.take_selected_items();
        let ghost items0 = items@;
        let mut added: usize = 0;
        while added < total && items.len() < max
            invariant
                total == imported@.len(),
                added <= total,
                items@ == items0 + imported@.take(added as int),
                items0.len() + added == items@.len(),
                added == 0 || items@.len() <= max,
                max == old(self).max_queue_items,
                items0 == old(self).queues@[old(self).selected_queue as int].items@,
            decreases total - added,
        {
            items.push(imported[added].duplicate());
            added = added + 1;
            assert(items@ =~= items0 + imported@.take(added as int));
        }
        self.put_selected_items(items);
        if total == 0 {
            ImportOutcome::NothingToImport
        } else if added == 0 {
            ImportOutcome::LimitReached(max)
        } else if added < total {
            ImportOutcome::ImportedSome { added, skipped: total - added }
        } else {
            ImportOutcome::Imported(added)
        }
    }
}
} // verus!

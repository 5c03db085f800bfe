//! The dockable panels of the window.
use vstd::prelude::*;
use crate::i18n::Language;

verus! {

/// A dockable panel: port settings, receive area, send area, file sending, queue.
#[derive(Clone, Copy, Debug, PartialEq, Eq, Structural, Hash)]
pub enum UiPanel {
    Config,
    Receive,
    Send,
    File,
    Queue,
}

/// The title of a panel in the interface language.
pub open spec fn panel_title(p: UiPanel, lang: Language) -> Seq<char> {
    match lang {
        Language::Chinese => match p {
            UiPanel::Config => "串口配置"@,
            UiPanel::Receive => "接收区"@,
            UiPanel::Send => "发送区"@,
            UiPanel::File => "发送文件"@,
            UiPanel::Queue => "发送队列"@,
        },
        Language::English => match p {
            UiPanel::Config => "Port"@,
            UiPanel::Receive => "Receive"@,
            UiPanel::Send => "Send"@,
            UiPanel::File => "Send file"@,
            UiPanel::Queue => "Queue"@,
        },
    }
}

impl UiPanel {
    /// All panels, in their default tab order.
    pub const ALL: [UiPanel; 5] = [UiPanel::Config, UiPanel::Receive, UiPanel::Send, UiPanel::File, UiPanel::Queue];

    /// The panel's title in the interface language.
    pub fn title(self, lang: Language) -> (s: &'static str)
        ensures
            s@ == panel_title(self, lang),
    {
        match lang {
            Language::Chinese => match self {
                UiPanel::Config => "串口配置",
                UiPanel::Receive => "接收区",
                UiPanel::Send => "发送区",
                UiPanel::File => "发送文件",
                UiPanel::Queue => "发送队列",
            },
            Language::English => match self {
                UiPanel::Config => "Port",
                UiPanel::Receive => "Receive",
                UiPanel::Send => "Send",
                UiPanel::File => "Send file",
                UiPanel::Queue => "Queue",
            },
        }
    }
}

} // verus!

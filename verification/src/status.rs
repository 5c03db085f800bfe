//! The interface's view of the session: connection, byte counters, job progress and the
//! status line, as the session's events update them.
use vstd::prelude::*;
use crate::i18n::{notice, notice_text, Language, Notice};
use crate::session::Event;
use crate::strs::{decimal, u64_to_string, usize_to_string};

verus! {

/// What the interface knows of the session.
pub struct SessionView {
    pub connected: bool,
    /// The open port's name (empty when closed).
    pub connected_port: String,
    /// Bytes received and sent since start.
    pub rx_total: u64,
    pub tx_total: u64,
    pub periodic_enabled: bool,
    pub queue_sending: bool,
    /// Entries sent and entries in all, while a queue is sent.
    pub queue_progress: Option<(usize, usize)>,
    pub file_send_active: bool,
    /// Bytes sent and bytes in all, while a file is sent.
    pub file_progress: Option<(u64, u64)>,
    /// The status line and whether it reports an error.
    pub status: String,
    pub status_error: bool,
}

/// What the interface does next with an event.
pub enum FollowUp {
    Nothing,
    /// The port list may have changed.
    RefreshPorts,
    /// Received bytes to log and show.
    Received(Vec<u8>),
    /// Sent bytes to show.
    ShowSent(Vec<u8>),
}

pub open spec fn kept_connection(a: SessionView, b: SessionView) -> bool {
    b.connected == a.connected && b.connected_port@ == a.connected_port@
}

pub open spec fn kept_counters(a: SessionView, b: SessionView) -> bool {
    b.rx_total == a.rx_total && b.tx_total == a.tx_total
}

pub open spec fn kept_queue(a: SessionView, b: SessionView) -> bool {
    b.queue_sending == a.queue_sending && b.queue_progress == a.queue_progress
}

pub open spec fn kept_file(a: SessionView, b: SessionView) -> bool {
    b.file_send_active == a.file_send_active && b.file_progress == a.file_progress
}

pub open spec fn kept_status(a: SessionView, b: SessionView) -> bool {
    b.status@ == a.status@ && b.status_error == a.status_error
}

/// The status line shows the message.
pub open spec fn shows(b: SessionView, lang: Language, n: Notice, x: Seq<char>, y: Seq<char>, err: bool) -> bool {
    b.status@ == notice_text(lang, n, x, y) && b.status_error == err
}

/// Only the connection and the status line changed.
pub open spec fn only_connection_and_status(a: SessionView, b: SessionView) -> bool {
    &&& kept_counters(a, b)
    &&& b.periodic_enabled == a.periodic_enabled
    &&& kept_queue(a, b)
    &&& kept_file(a, b)
}

/// Everything but the given parts kept: used per event below.
pub open spec fn only_queue_and_status(a: SessionView, b: SessionView) -> bool {
    &&& kept_connection(a, b)
    &&& kept_counters(a, b)
    &&& b.periodic_enabled == a.periodic_enabled
    &&& kept_file(a, b)
}

pub open spec fn only_file_and_status(a: SessionView, b: SessionView) -> bool {
    &&& kept_connection(a, b)
    &&& kept_counters(a, b)
    &&& b.periodic_enabled == a.periodic_enabled
    &&& kept_queue(a, b)
}

/// The view `b` after the event on `a`, and what follows.
pub open spec fn event_applied(a: SessionView, ev: Event, lang: Language, echo_sent: bool, b: SessionView, f: FollowUp) -> bool {
    match ev {
        Event::Opened { port_name } => {
            &&& b.connected && b.connected_port@ == port_name@
            &&& shows(b, lang, Notice::Connected, port_name@, Seq::empty(), false)
            &&& only_connection_and_status(a, b)
            &&& f is Nothing
        },
        Event::Closed => {
            &&& !b.connected && b.connected_port@.len() == 0
            &&& shows(b, lang, Notice::Disconnected, Seq::empty(), Seq::empty(), false)
            &&& only_connection_and_status(a, b)
            &&& f is Nothing
        },
        Event::Disconnected => {
            &&& !b.connected && b.connected_port@.len() == 0
            &&& shows(b, lang, Notice::DisconnectedError, Seq::empty(), Seq::empty(), true)
            &&& only_connection_and_status(a, b)
            &&& f is RefreshPorts
        },
        Event::Error(msg) => {
            &&& b.status@ == msg@ && b.status_error
            &&& kept_connection(a, b) && only_connection_and_status(a, b)
            &&& f is Nothing
        },
        Event::Data(bytes) => {
            &&& b.rx_total == a.rx_total + bytes@.len() && b.tx_total == a.tx_total
            &&& kept_connection(a, b) && kept_status(a, b) && kept_queue(a, b) && kept_file(a, b)
            &&& b.periodic_enabled == a.periodic_enabled
            &&& f matches FollowUp::Received(v) && v@ == bytes@
        },
        Event::Tx(bytes) => {
            &&& b.tx_total == a.tx_total + bytes@.len() && b.rx_total == a.rx_total
            &&& kept_connection(a, b) && kept_status(a, b) && kept_queue(a, b) && kept_file(a, b)
            &&& b.periodic_enabled == a.periodic_enabled
            &&& if echo_sent { f matches FollowUp::ShowSent(v) && v@ == bytes@ } else { f is Nothing }
        },
        Event::Periodic(on) => {
            &&& b.periodic_enabled == on
            &&& kept_connection(a, b) && kept_status(a, b) && kept_counters(a, b)
            &&& kept_queue(a, b) && kept_file(a, b)
            &&& f is Nothing
        },
        Event::QueueStarted { name, total } => {
            &&& b.queue_sending && b.queue_progress == Some((0usize, total))
            &&& shows(b, lang, Notice::QueueStarted, name@, decimal(total as nat), false)
            &&& only_queue_and_status(a, b)
            &&& f is Nothing
        },
        Event::QueueProgress { current, total } => {
            &&& b.queue_progress == Some((current, total)) && b.queue_sending == a.queue_sending
            &&& kept_status(a, b) && only_queue_and_status(a, b)
            &&& f is Nothing
        },
        Event::QueueDone => {
            &&& !b.queue_sending && b.queue_progress is None
            &&& shows(b, lang, Notice::QueueDone, Seq::empty(), Seq::empty(), false)
            &&& only_queue_and_status(a, b)
            &&& f is Nothing
        },
        Event::QueueStopped => {
            &&& !b.queue_sending && b.queue_progress is None
            &&& shows(b, lang, Notice::QueueStopped, Seq::empty(), Seq::empty(), false)
            &&& only_queue_and_status(a, b)
            &&& f is Nothing
        },
        Event::FileStarted { name, total } => {
            &&& b.file_send_active && b.file_progress == Some((0u64, total))
            &&& shows(b, lang, Notice::FileStarted, name@, decimal(total as nat), false)
            &&& only_file_and_status(a, b)
            &&& f is Nothing
        },
        Event::FileProgress { sent, total } => {
            &&& b.file_progress == Some((sent, total)) && b.file_send_active == a.file_send_active
            &&& kept_status(a, b) && only_file_and_status(a, b)
            &&& f is Nothing
        },
        Event::FileDone => {
            &&& !b.file_send_active && b.file_progress is None
            &&& shows(b, lang, Notice::FileDone, Seq::empty(), Seq::empty(), false)
            &&& only_file_and_status(a, b)
            &&& f is Nothing
        },
        Event::FileStopped => {
            &&& !b.file_send_active && b.file_progress is None
            &&& shows(b, lang, Notice::FileCancelled, Seq::empty(), Seq::empty(), false)
            &&& only_file_and_status(a, b)
            &&& f is Nothing
        },
    }
}

/// The counters can take the event's bytes.
pub open spec fn counters_fit(a: SessionView, ev: Event) -> bool {
    match ev {
        Event::Data(bytes) => a.rx_total + bytes@.len() <= u64::MAX,
        Event::Tx(bytes) => a.tx_total + bytes@.len() <= u64::MAX,
        _ => true,
    }
}

impl SessionView {
    /// Not connected, nothing counted, no job running, status "ready".
    pub fn new(lang: Language) -> (v: Self)
        ensures
            !v.connected && v.connected_port@.len() == 0,
            v.rx_total == 0 && v.tx_total == 0,
            !v.periodic_enabled && !v.queue_sending && v.queue_progress is None,
            !v.file_send_active && v.file_progress is None,
            shows(v, lang, Notice::Ready, Seq::empty(), Seq::empty(), false),
    {
        proof {
            reveal_strlit("");
        }
        SessionView {
            connected: false,
            connected_port: String::new(),
            rx_total: 0,
            tx_total: 0,
            periodic_enabled: false,
            queue_sending: false,
            queue_progress: None,
            file_send_active: false,
            file_progress: None,
            status: notice(lang, Notice::Ready, "", ""),
            status_error: false,
        }
    }

    /// Sets the status line.
    pub fn set_status(&mut self, msg: String, is_error: bool)
        ensures
            final(self).status@ == msg@,
            final(self).status_error == is_error,
            kept_connection(*old(self), *final(self)),
            only_connection_and_status(*old(self), *final(self)),
    {
        self.status = msg;
        self.status_error = is_error;
    }

    /// Zeroes the received and sent byte counts; nothing else changes.
    pub fn clear_stats(&mut self)
        ensures
            final(self).rx_total == 0 && final(self).tx_total == 0,
            kept_connection(*old(self), *final(self)),
            kept_queue(*old(self), *final(self)),
            kept_file(*old(self), *final(self)),
            kept_status(*old(self), *final(self)),
            final(self).periodic_enabled == old(self).periodic_enabled,
    {
        self.rx_total = 0;
        self.tx_total = 0;
    }

    fn show(&mut self, lang: Language, n: Notice, x: &str, y: &str, err: bool)
        ensures
            shows(*final(self), lang, n, x@, y@, err),
            kept_connection(*old(self), *final(self)),
            only_connection_and_status(*old(self), *final(self)),
    {
        self.status = notice(lang, n, x, y);
        self.status_error = err;
    }

    /// Applies an event of the session.
    pub fn handle_event(&mut self, ev: Event, lang: Language, echo_sent: bool) -> (f: FollowUp)
        requires
            counters_fit(*old(self), ev),
        ensures
            event_applied(*old(self), ev, lang, echo_sent, *final(self), f),
    {
        proof {
            reveal_strlit("");
        }
        match ev {
            Event::Opened { port_name } => {
                self.connected = true;
                self.show(lang, Notice::Connected, port_name.as_str(), "", false);
                self.connected_port = port_name;
                FollowUp::Nothing
            },
            Event::Closed => {
                self.connected = false;
                self.connected_port = String::new();
                self.show(lang, Notice::Disconnected, "", "", false);
                FollowUp::Nothing
            },
            Event::Disconnected => {
                self.connected = false;
                self.connected_port = String::new();
                self.show(lang, Notice::DisconnectedError, "", "", true);
                FollowUp::RefreshPorts
            },
            Event::Error(msg) => {
                self.set_status(msg, true);
                FollowUp::Nothing
            },
            Event::Data(bytes) => {
                self.rx_total = self.rx_total + bytes.len() as u64;
                FollowUp::Received(bytes)
            },
            Event::Tx(bytes) => {
                self.tx_total = self.tx_total + bytes.len() as u64;
                if echo_sent {
                    FollowUp::ShowSent(bytes)
                } else {
                    FollowUp::Nothing
                }
            },
            Event::Periodic(on) => {
                self.periodic_enabled = on;
                FollowUp::Nothing
            },
            Event::QueueStarted { name, total } => {
                self.queue_sending = true;
                self.queue_progress = Some((0, total));
                let t = usize_to_string(total);
                self.show(lang, Notice::QueueStarted, name.as_str(), t.as_str(), false);
                FollowUp::Nothing
            },
            Event::QueueProgress { current, total } => {
                self.queue_progress = Some((current, total));
                FollowUp::Nothing
            },
            Event::QueueDone => {
                self.queue_sending = false;
                self.queue_progress = None;
                self.show(lang, Notice::QueueDone, "", "", false);
                FollowUp::Nothing
            },
            Event::QueueStopped => {
                self.queue_sending = false;
                self.queue_progress = None;
                self.show(lang, Notice::QueueStopped, "", "", false);
                FollowUp::Nothing
            },
            Event::FileStarted { name, total } => {
                self.file_send_active = true;
                self.file_progress = Some((0, total));
                let t = u64_to_string(total);
                self.show(lang, Notice::FileStarted, name.as_str(), t.as_str(), false);
                FollowUp::Nothing
            },
            Event::FileProgress { sent, total } => {
                self.file_progress = Some((sent, total));
                FollowUp::Nothing
            },
            Event::FileDone => {
                self.file_send_active = false;
                self.file_progress = None;
                self.show(lang, Notice::FileDone, "", "", false);
                FollowUp::Nothing
            },
            Event::FileStopped => {
                self.file_send_active = false;
                self.file_progress = None;
                self.show(lang, Notice::FileCancelled, "", "", false);
                FollowUp::Nothing
            },
        }
    }
}

} // verus!

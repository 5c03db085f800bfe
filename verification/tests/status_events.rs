use serial_tool::i18n::Language;
use serial_tool::panels::UiPanel;
use serial_tool::session::Event;
use serial_tool::status::{FollowUp, SessionView};

#[test]
fn local_echo_controls_tx_display_in_non_terminal_mode() {
    let mut v = SessionView::new(Language::Chinese);
    match v.handle_event(Event::Tx(b"world".to_vec()), Language::Chinese, true) {
        FollowUp::ShowSent(b) => assert_eq!(b, b"world"),
        _ => panic!("sent bytes are shown while echo is on"),
    }
    assert!(matches!(v.handle_event(Event::Tx(b"again".to_vec()), Language::Chinese, false), FollowUp::Nothing));
    assert_eq!(v.tx_total, 10);
}

#[test]
fn connection_events_update_the_view() {
    let mut v = SessionView::new(Language::English);
    assert_eq!(v.status, "Ready");
    v.handle_event(Event::Opened { port_name: "COM3".to_string() }, Language::English, true);
    assert!(v.connected);
    assert_eq!(v.connected_port, "COM3");
    assert_eq!(v.status, "Connected: COM3");
    assert!(matches!(v.handle_event(Event::Disconnected, Language::English, true), FollowUp::RefreshPorts));
    assert!(!v.connected && v.connected_port.is_empty() && v.status_error);
    v.handle_event(Event::Error("boom".to_string()), Language::English, true);
    assert_eq!(v.status, "boom");
    assert!(v.status_error);
}

#[test]
fn data_counts_bytes_and_is_handed_on() {
    let mut v = SessionView::new(Language::English);
    match v.handle_event(Event::Data(vec![1, 2, 3]), Language::English, true) {
        FollowUp::Received(b) => assert_eq!(b, vec![1, 2, 3]),
        _ => panic!("received bytes are handed on"),
    }
    assert_eq!(v.rx_total, 3);
}

#[test]
fn job_progress_follows_the_events() {
    let mut v = SessionView::new(Language::English);
    v.handle_event(Event::QueueStarted { name: "Q".to_string(), total: 4 }, Language::English, true);
    assert!(v.queue_sending);
    assert_eq!(v.queue_progress, Some((0, 4)));
    assert_eq!(v.status, "Sending queue \"Q\": 4 entries");
    v.handle_event(Event::QueueProgress { current: 2, total: 4 }, Language::English, true);
    assert_eq!(v.queue_progress, Some((2, 4)));
    v.handle_event(Event::QueueDone, Language::English, true);
    assert!(!v.queue_sending && v.queue_progress.is_none());
    v.handle_event(Event::FileStarted { name: "f.bin".to_string(), total: 100 }, Language::Chinese, true);
    assert_eq!(v.file_progress, Some((0, 100)));
    assert_eq!(v.status, "开始发送文件「f.bin」，共 100 字节");
    v.handle_event(Event::FileStopped, Language::Chinese, true);
    assert!(!v.file_send_active && v.file_progress.is_none());
    v.handle_event(Event::Periodic(true), Language::Chinese, true);
    assert!(v.periodic_enabled);
}

#[test]
fn panel_titles_follow_the_language() {
    assert_eq!(UiPanel::ALL.len(), 5);
    assert_eq!(UiPanel::Receive.title(Language::English), "Receive");
    assert_eq!(UiPanel::Queue.title(Language::Chinese), "发送队列");
}

#[test]
fn clearing_stats_zeroes_only_the_counters() {
    let mut v = SessionView::new(Language::English);
    v.rx_total = 10;
    v.tx_total = 4;
    v.set_status("ok".to_string(), false);
    v.clear_stats();
    assert_eq!((v.rx_total, v.tx_total), (0, 0));
    assert_eq!(v.status, "ok");
}

use serial_tool::config::{SendMode, SendQueue, QueueItem};
use serial_tool::queue_file::{check_imported_queue, import_queue_txt};

#[test]
fn txt_import_skips_blank() {
    let items = import_queue_txt("hello\n\nworld\r\n  \nthird");
    assert_eq!(items.len(), 3);
    assert_eq!(items[0].content, "hello");
    assert_eq!(items[2].content, "third");
    assert!(items.iter().all(|i| i.mode == SendMode::Text));
}

#[test]
fn txt_import_keeps_line_text_and_defaults() {
    let items = import_queue_txt("  AT+GMR \r\nATE0");
    assert_eq!(items.len(), 2);
    assert_eq!(items[0].content, "  AT+GMR ");
    assert_eq!(items[1].content, "ATE0");
    assert!(items.iter().all(|i| i.selected && i.delay_ms == 100));
    assert!(import_queue_txt("").is_empty());
}

#[test]
fn imported_queue_over_the_limit_is_refused() {
    let mut q = SendQueue::new("big".to_string());
    for _ in 0..1000 {
        q.items.push(QueueItem::default());
    }
    assert!(check_imported_queue(q).is_err());
    let q = SendQueue::new("small".to_string());
    assert_eq!(check_imported_queue(q).unwrap().name, "small");
}

use serial_tool::config::{
    default_queue_name, AddItemOutcome, Config, ImportOutcome, LineEnding, QueueItem, SendMode, SendQueue,
};
use serial_tool::i18n::Language;

#[test]
fn default_line_ending_is_none() {
    assert_eq!(Config::with_language(Language::Chinese).line_ending, LineEnding::NoEnding);
    assert_eq!(LineEnding::default(), LineEnding::NoEnding);
}

#[test]
fn default_queue_name_is_localized() {
    assert_eq!(default_queue_name(Language::Chinese), "队列 1");
    assert_eq!(default_queue_name(Language::English), "Queue 1");
}

#[test]
fn empty_queues_get_localized_default_on_load() {
    let mut c = Config { queues: Vec::new(), ..Config::with_language(Language::English) };
    c.normalize_queues();
    assert_eq!(c.queues.len(), 1);
    assert_eq!(c.queues[0].name, "Queue 1");
}

#[test]
fn legacy_default_queue_is_renamed_for_english_ui() {
    let mut c = Config {
        queues: vec![SendQueue::new("队列 1".to_string())],
        ..Config::with_language(Language::English)
    };
    c.normalize_queues();
    assert_eq!(c.queues[0].name, "Queue 1");
}

#[test]
fn user_defined_queue_is_not_renamed() {
    let mut q = SendQueue::new("队列 1".to_string());
    q.items[0].content = "hello".to_string();
    let mut c = Config { queues: vec![q], ..Config::with_language(Language::English) };
    c.normalize_queues();
    assert_eq!(c.queues[0].name, "队列 1");
}

#[test]
fn legacy_default_queue_kept_for_chinese_ui() {
    let mut c = Config {
        queues: vec![SendQueue::new("队列 1".to_string())],
        ..Config::with_language(Language::Chinese)
    };
    c.normalize_queues();
    assert_eq!(c.queues[0].name, "队列 1");
}

#[test]
fn terminal_defaults() {
    let c = Config::with_language(Language::Chinese);
    assert!(!c.terminal_mode);
    assert!(c.terminal_auto_echo);
    assert!(c.terminal_enter_sends);
    assert_eq!(c.port.baud_rate, 115200);
    assert_eq!(c.max_queue_items, 200);
    assert_eq!(c.queues[0].items[0].delay_ms, 100);
}

#[test]
fn after_load_repairs_selection_and_limit() {
    let mut c = Config::with_language(Language::English);
    c.selected_queue = 7;
    c.max_queue_items = 0;
    c.after_load();
    assert!(c.selected_queue < c.queues.len());
    assert!(c.max_queue_items >= 1);
}

#[test]
fn queue_operations_keep_a_selected_queue() {
    let mut c = Config::with_language(Language::English);
    assert!(!c.delete_selected_queue());
    c.new_queue();
    assert_eq!(c.queues.len(), 2);
    assert_eq!(c.queues[1].name, "Queue 2");
    assert_eq!(c.selected_queue, 1);
    c.copy_selected_queue();
    assert_eq!(c.queues[2].name, "Queue 2 (copy)");
    assert_eq!(c.selected_queue, 2);
    assert!(c.delete_selected_queue());
    assert_eq!(c.queues.len(), 2);
    assert_eq!(c.selected_queue, 1);
}

#[test]
fn queue_entries_move_copy_and_remove() {
    let mut c = Config::with_language(Language::Chinese);
    c.queues[0].items[0].content = "a".to_string();
    assert_eq!(c.add_content_item("b".to_string(), SendMode::Hex), AddItemOutcome::Added);
    assert_eq!(c.add_content_item("   ".to_string(), SendMode::Text), AddItemOutcome::EmptyContent);
    c.move_item_up(1);
    assert_eq!(c.queues[0].items[0].content, "b");
    assert_eq!(c.queues[0].items[0].mode, SendMode::Hex);
    c.move_item_down(0);
    assert_eq!(c.queues[0].items[1].content, "b");
    assert!(c.copy_item(0));
    assert_eq!(c.queues[0].items.len(), 3);
    assert_eq!(c.queues[0].items[1].content, "a");
    c.remove_item(0);
    assert_eq!(c.queues[0].items.len(), 2);
    c.clear_selected_items();
    assert!(c.queues[0].items.is_empty());
    assert!(c.add_fresh_item());
    assert_eq!(c.queues[0].items[0].delay_ms, 100);
}

#[test]
fn full_queue_refuses_more_entries() {
    let mut c = Config::with_language(Language::English);
    c.max_queue_items = 1;
    assert_eq!(c.add_content_item("x".to_string(), SendMode::Text), AddItemOutcome::QueueFull);
    assert!(!c.add_fresh_item());
    let more = vec![QueueItem::default(), QueueItem::default()];
    assert_eq!(c.import_items(more), ImportOutcome::LimitReached(1));
    c.max_queue_items = 2;
    let more = vec![QueueItem::default(), QueueItem::default()];
    assert_eq!(c.import_items(more), ImportOutcome::ImportedSome { added: 1, skipped: 1 });
    assert_eq!(c.import_items(Vec::new()), ImportOutcome::NothingToImport);
}

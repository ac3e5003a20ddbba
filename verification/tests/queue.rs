use yt_downloader_webui::clock::Stamp;
use yt_downloader_webui::state::{
    EnqueueResult, ItemStatus, Queue, QueueItem, ITEM_LOG_CAP, QUEUE_HISTORY_CAP,
};
use yt_downloader_webui::worker;

fn mark_done(item: &mut QueueItem) {
    item.status = ItemStatus::Done;
}

fn at(secs: i128) -> Stamp {
    Stamp { nanos: secs * 1_000_000_000, offset: 0 }
}

#[test]
fn enqueue_fresh_url() {
    let mut q = Queue::new();
    let id = q.enqueue("https://example/v/1".to_string(), None, None);
    assert_eq!(id, Some(1));
    assert_eq!(q.items.len(), 1);
    assert_eq!(q.items[0].status, ItemStatus::Pending);
}

#[test]
fn enqueue_skips_already_done() {
    let mut q = Queue::new();
    let id = q.enqueue("https://example/v/1".to_string(), None, None);
    assert_eq!(id, Some(1));
    mark_done(q.get_mut(1).unwrap());
    let again = q.enqueue("https://example/v/1".to_string(), None, None);
    assert_eq!(again, None);
    assert_eq!(q.items.len(), 1, "no duplicate row created");
}

#[test]
fn enqueue_allows_retry_after_failure() {
    let mut q = Queue::new();
    let _ = q.enqueue("https://example/v/1".to_string(), None, None);
    q.get_mut(1).unwrap().status = ItemStatus::Failed;
    let again = q.enqueue("https://example/v/1".to_string(), None, None);
    assert_eq!(again, Some(2));
    assert_eq!(q.items.len(), 2);
}

#[test]
fn enqueue_dedupe_is_exact_url() {
    let mut q = Queue::new();
    let _ = q.enqueue("https://example/v/1".to_string(), None, None);
    mark_done(q.get_mut(1).unwrap());
    let other = q.enqueue("https://example/v/2".to_string(), None, None);
    assert_eq!(other, Some(2));
    assert_eq!(q.items.len(), 2);
}

#[test]
fn enqueue_pending_is_not_skipped() {
    let mut q = Queue::new();
    let _ = q.enqueue("https://example/v/1".to_string(), None, None);
    let again = q.enqueue("https://example/v/1".to_string(), None, None);
    assert_eq!(again, Some(2));
    assert_eq!(q.items.len(), 2);
}

#[test]
fn enqueue_stamps_the_current_time() {
    let mut q = Queue::new();
    let before = std::time::SystemTime::now()
        .duration_since(std::time::UNIX_EPOCH)
        .unwrap()
        .as_nanos() as i128;
    let _ = q.enqueue("u".to_string(), None, None);
    let stamp = q.items[0].enqueued_at;
    assert_eq!(stamp.offset, 0);
    assert!(stamp.nanos >= before);
    assert!(stamp.nanos < before + 60_000_000_000);
}

#[test]
fn submit_resurfaces_a_finished_download() {
    let mut q = Queue::new();
    for n in 1..=3 {
        let _ = q.enqueue_at(format!("u{n}"), None, None, at(n));
    }
    mark_done(q.get_mut(1).unwrap());
    let r = q.submit_at("u1".to_string(), Some("ignored".to_string()), None, at(9));
    assert_eq!(r, EnqueueResult::Subsumed(1));
    assert_eq!(q.items.iter().map(|i| i.id).collect::<Vec<_>>(), vec![2, 3, 1]);
    assert_eq!(q.items[2].enqueued_at, at(9));
    assert_eq!(q.items[2].title, None);
    let r = q.submit_at("u4".to_string(), Some("T".to_string()), None, at(10));
    assert_eq!(r, EnqueueResult::Added(4));
    assert_eq!(q.items[3].title.as_deref(), Some("T"));
}

#[test]
fn removal_is_by_status() {
    let mut q = Queue::new();
    for n in 1..=3 {
        let _ = q.enqueue_at(format!("u{n}"), None, None, at(n));
    }
    q.get_mut(1).unwrap().status = ItemStatus::Active;
    q.get_mut(2).unwrap().status = ItemStatus::Failed;
    assert!(!q.remove_pending(1));
    assert!(!q.remove_pending(2));
    assert!(!q.remove_terminal(1));
    assert!(!q.remove_terminal(3));
    assert!(q.remove_terminal(2));
    assert!(q.remove_pending(3));
    assert!(!q.remove_pending(3));
    assert_eq!(q.items.len(), 1);
    assert!(q.get(1).is_some());
    assert!(q.get(2).is_none());
}

#[test]
fn clear_drops_what_is_over() {
    let mut q = Queue::new();
    let all = [
        ItemStatus::Done,
        ItemStatus::Pending,
        ItemStatus::Failed,
        ItemStatus::Active,
        ItemStatus::Cancelled,
    ];
    for (n, s) in all.iter().enumerate() {
        let _ = q.enqueue_at(format!("u{n}"), None, None, at(0));
        q.items[n].status = *s;
    }
    assert_eq!(q.clear_terminal(), 3);
    assert_eq!(q.items.iter().map(|i| i.id).collect::<Vec<_>>(), vec![2, 4]);
}

#[test]
fn trim_keeps_unfinished_and_newest_history() {
    let mut q = Queue::new();
    for n in 0..(QUEUE_HISTORY_CAP + 50) {
        let _ = q.enqueue_at(format!("u{n}"), None, None, at(0));
        if n % 10 != 0 {
            q.items[n].status = ItemStatus::Failed;
        }
    }
    // 250 items: 25 pending and 225 failed.
    q.trim_history();
    let failed: Vec<u64> = q
        .items
        .iter()
        .filter(|i| i.status == ItemStatus::Failed)
        .map(|i| i.id)
        .collect();
    assert_eq!(failed.len(), QUEUE_HISTORY_CAP / 2);
    assert_eq!(q.items.len(), 125);
    assert_eq!(*failed.last().unwrap(), 250);
    assert_eq!(q.count_pending(), 25);
    let before = q.items.len();
    q.trim_history();
    assert_eq!(q.items.len(), before);
}

#[test]
fn trim_leaves_a_short_queue_alone() {
    let mut q = Queue::new();
    for n in 0..QUEUE_HISTORY_CAP {
        let _ = q.enqueue_at(format!("u{n}"), None, None, at(0));
        q.items[n].status = ItemStatus::Cancelled;
    }
    q.trim_history();
    assert_eq!(q.items.len(), QUEUE_HISTORY_CAP);
}

#[test]
fn item_log_is_capped() {
    let mut item = QueueItem::at(1, "u".to_string(), at(0));
    for n in 0..(ITEM_LOG_CAP + 3) {
        item.push_log(format!("line {n}"));
    }
    assert_eq!(item.logs.len(), ITEM_LOG_CAP);
    assert_eq!(item.logs[0], "line 3");
    assert_eq!(item.logs[ITEM_LOG_CAP - 1], format!("line {}", ITEM_LOG_CAP + 2));
}

#[test]
fn label_prefers_file_then_title_then_url() {
    let mut item = QueueItem::at(1, "u".to_string(), at(0));
    assert_eq!(item.label(), "u");
    item.title = Some("t".to_string());
    assert_eq!(item.label(), "t");
    item.filename = Some("f".to_string());
    assert_eq!(item.label(), "f");
}

#[test]
fn status_names() {
    assert_eq!(ItemStatus::Pending.as_str(), "pending");
    assert_eq!(ItemStatus::Active.as_str(), "active");
    assert_eq!(ItemStatus::Done.as_str(), "done");
    assert_eq!(ItemStatus::Failed.as_str(), "failed");
    assert_eq!(ItemStatus::Cancelled.as_str(), "cancelled");
    assert!(!ItemStatus::Pending.is_terminal());
    assert!(!ItemStatus::Active.is_terminal());
    assert!(ItemStatus::Done.is_terminal());
    assert!(ItemStatus::Failed.is_terminal());
    assert!(ItemStatus::Cancelled.is_terminal());
}

#[test]
fn worker_takes_the_first_pending() {
    let mut q = Queue::new();
    for n in 1..=3 {
        let _ = q.enqueue_at(format!("u{n}"), None, None, at(n));
    }
    mark_done(q.get_mut(1).unwrap());
    q.get_mut(2).unwrap().error = Some("old".to_string());
    assert!(worker::has_pending(&q));
    assert_eq!(worker::take_next_pending(&mut q), Some(2));
    let item = q.get(2).unwrap();
    assert_eq!(item.status, ItemStatus::Active);
    assert!(item.error.is_none());
    assert!(item.cancel.is_some());
    assert_eq!(worker::next_task(&mut q, true), worker::Task::Exit);
    assert!(worker::pauses(&q, 20));
    assert!(!worker::pauses(&q, 0));
    assert_eq!(worker::next_task(&mut q, false), worker::Task::Download(3));
    assert_eq!(worker::next_task(&mut q, false), worker::Task::Park);
    assert!(!worker::pauses(&q, 20));
    assert_eq!(worker::take_next_pending(&mut q), None);
}

#[test]
fn resubmitted_downloads_come_to_the_top() {
    let mut q = Queue::new();
    let _ = q.enqueue("https://example/v/1".to_string(), None, None);
    let _ = q.enqueue("https://example/v/2".to_string(), None, None);
    for item in &mut q.items {
        item.status = ItemStatus::Done;
    }
    assert_eq!(q.enqueue("https://example/v/1".to_string(), None, None), None);
    assert_eq!(q.items.len(), 2);
    assert_eq!(q.items[0].id, 2);
    assert_eq!(q.items[1].id, 1);
    assert_eq!(q.items[1].status, ItemStatus::Done);
    assert_eq!(q.enqueue_at("https://example/v/2".to_string(), None, None, at(77)), None);
    assert_eq!(q.items[1].id, 2);
    assert_eq!(q.items[1].enqueued_at.nanos, at(77).nanos);
}

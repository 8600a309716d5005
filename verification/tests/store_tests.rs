use podping::msg::{Medium, Ping, Reason};
use podping::store::{AddOutcome, PingRow, QueueStore};

fn ping(url: &str, time: u64, reason: Reason, medium: Medium) -> Ping {
    Ping { url: url.to_string(), time, reason, medium }
}

#[test]
fn insert_fresh_url() {
    let mut q = QueueStore::new();
    let r = q.add_ping_to_queue(&ping("https://a.example/rss", 100, Reason::Update, Medium::Podcast));
    assert_eq!(r, AddOutcome::Inserted);
    assert_eq!(q.len(), 1);
}

#[test]
fn duplicate_update_is_rejected_unchanged() {
    let mut q = QueueStore::new();
    q.add_ping_to_queue(&ping("https://a.example/rss", 100, Reason::Update, Medium::Podcast));
    let r = q.add_ping_to_queue(&ping("https://a.example/rss", 200, Reason::Update, Medium::Music));
    assert_eq!(r, AddOutcome::DuplicateRejected);
    assert_eq!(q.len(), 1);
    // the stored row keeps its first createdon: a later batch still
    // carries the first submission's time
    let batch = q.get_pings_from_queue(false, 316);
    assert_eq!(batch.len(), 1);
    assert_eq!(batch[0].time, 100);
    assert_eq!(batch[0].medium, Medium::Podcast);
}

#[test]
fn live_collision_upserts_and_rearms() {
    let mut q = QueueStore::new();
    q.add_ping_to_queue(&ping("X", 100, Reason::Update, Medium::Podcast));
    q.set_ping_as_inflight(&ping("X", 100, Reason::Update, Medium::Podcast));
    let r = q.add_ping_to_queue(&ping("X", 200, Reason::Live, Medium::VideoL));
    assert_eq!(r, AddOutcome::Upserted);
    assert_eq!(q.len(), 1);
    let batch = q.get_pings_from_queue(false, 300);
    assert_eq!(batch.len(), 1);
    assert_eq!(batch[0].time, 200);
    assert_eq!(batch[0].reason, Reason::Live);
    assert_eq!(batch[0].medium, Medium::VideoL);
}

#[test]
fn live_end_collision_upserts_too() {
    let mut q = QueueStore::new();
    q.add_ping_to_queue(&ping("X", 100, Reason::Update, Medium::Podcast));
    let r = q.add_ping_to_queue(&ping("X", 150, Reason::LiveEnd, Medium::PodcastL));
    assert_eq!(r, AddOutcome::Upserted);
}

#[test]
fn debounce_hides_young_rows() {
    let mut q = QueueStore::new();
    q.add_ping_to_queue(&ping("X", 100, Reason::Update, Medium::Podcast));
    assert_eq!(q.get_pings_from_queue(false, 110).len(), 0);
    assert_eq!(q.get_pings_from_queue(false, 115).len(), 0);
    // strictly more than fifteen seconds old
    assert_eq!(q.get_pings_from_queue(false, 116).len(), 1);
}

#[test]
fn selection_skips_inflight_rows_unless_asked() {
    let mut q = QueueStore::new();
    q.add_ping_to_queue(&ping("X", 100, Reason::Update, Medium::Podcast));
    q.set_ping_as_inflight(&ping("X", 100, Reason::Update, Medium::Podcast));
    assert_eq!(q.get_pings_from_queue(false, 200).len(), 0);
    assert_eq!(q.get_pings_from_queue(true, 200).len(), 1);
}

#[test]
fn selection_orders_by_reason_priority_then_insertion() {
    let mut q = QueueStore::new();
    q.add_ping_to_queue(&ping("u1", 100, Reason::Update, Medium::Podcast));
    q.add_ping_to_queue(&ping("l1", 100, Reason::Live, Medium::Podcast));
    q.add_ping_to_queue(&ping("e1", 100, Reason::LiveEnd, Medium::Podcast));
    q.add_ping_to_queue(&ping("n1", 100, Reason::NewIRI, Medium::Podcast));
    q.add_ping_to_queue(&ping("u2", 100, Reason::Update, Medium::Podcast));
    let batch = q.get_pings_from_queue(false, 200);
    let urls: Vec<&str> = batch.iter().map(|p| p.url.as_str()).collect();
    assert_eq!(urls, vec!["e1", "l1", "n1", "u1", "u2"]);
}

#[test]
fn stale_inflight_rows_are_rearmed() {
    let mut q = QueueStore::new();
    q.add_ping_to_queue(&ping("Y", 100, Reason::Update, Medium::Podcast));
    q.set_ping_as_inflight(&ping("Y", 100, Reason::Update, Medium::Podcast));
    // at 200 seconds of age the row is past the 180 second window
    q.reset_pings_in_flight(300);
    // re-armed and re-aged: eligible only once the debounce passes again
    assert_eq!(q.get_pings_from_queue(false, 310).len(), 0);
    let batch = q.get_pings_from_queue(false, 316);
    assert_eq!(batch.len(), 1);
    assert_eq!(batch[0].url.as_str(), "Y");
    assert_eq!(batch[0].time, 300);
}

#[test]
fn fresh_inflight_rows_are_not_rearmed() {
    let mut q = QueueStore::new();
    q.add_ping_to_queue(&ping("Y", 100, Reason::Update, Medium::Podcast));
    q.set_ping_as_inflight(&ping("Y", 100, Reason::Update, Medium::Podcast));
    q.reset_pings_in_flight(200);
    assert_eq!(q.get_pings_from_queue(false, 200).len(), 0);
}

#[test]
fn delete_removes_the_row_and_is_idempotent() {
    let mut q = QueueStore::new();
    q.add_ping_to_queue(&ping("X", 100, Reason::Update, Medium::Podcast));
    assert!(q.delete_ping_from_queue(&"X".to_string()));
    assert_eq!(q.len(), 0);
    assert!(!q.delete_ping_from_queue(&"X".to_string()));
}

#[test]
fn mark_inflight_of_absent_url_changes_nothing() {
    let mut q = QueueStore::new();
    assert!(!q.set_ping_as_inflight(&ping("X", 100, Reason::Update, Medium::Podcast)));
    assert_eq!(q.len(), 0);
}

#[test]
fn update_of_absent_url_changes_nothing() {
    let mut q = QueueStore::new();
    assert!(!q.update_ping_in_queue(&ping("X", 100, Reason::Live, Medium::Podcast)));
    assert_eq!(q.len(), 0);
}

#[test]
fn restore_row_rebuilds_a_persisted_queue() {
    let mut q = QueueStore::new();
    let row = PingRow {
        url: "X".to_string(),
        time: 100,
        reason: "liveend".to_string(),
        medium: "blogl".to_string(),
    };
    assert!(q.restore_row(row, true));
    // still inflight, so hidden from a normal selection
    assert_eq!(q.get_pings_from_queue(false, 300).len(), 0);
    let batch = q.get_pings_from_queue(true, 300);
    assert_eq!(batch.len(), 1);
    assert_eq!(batch[0].reason, Reason::LiveEnd);
    assert_eq!(batch[0].medium, Medium::BlogL);
    // a second restore under the same URL is refused
    let again = PingRow {
        url: "X".to_string(),
        time: 200,
        reason: "update".to_string(),
        medium: "podcast".to_string(),
    };
    assert!(!q.restore_row(again, false));
    assert_eq!(q.len(), 1);
}

#[test]
fn one_row_per_url() {
    let mut q = QueueStore::new();
    q.add_ping_to_queue(&ping("X", 100, Reason::Update, Medium::Podcast));
    q.add_ping_to_queue(&ping("X", 150, Reason::Live, Medium::Podcast));
    q.add_ping_to_queue(&ping("X", 200, Reason::Update, Medium::Podcast));
    assert_eq!(q.len(), 1);
}

use feedpipe::dedup::DedupStore;
use feedpipe::errors::{FetchError, PublishError};
use feedpipe::feed::{FeedDescriptor, Item};
use feedpipe::pipeline::{poll_once, run_cycle, CycleStatus, FeedSource, Publisher};

/// A sink that records every payload it is handed and fails exactly the
/// payloads it was told to fail.
struct MockPublisher {
    sent: Vec<String>,
    fail_payloads: Vec<String>,
}

impl MockPublisher {
    fn new() -> MockPublisher {
        MockPublisher { sent: Vec::new(), fail_payloads: Vec::new() }
    }
}

impl Publisher for MockPublisher {
    fn send(&mut self, payload: &String) -> Result<(), PublishError> {
        if self.fail_payloads.contains(payload) {
            Err(PublishError)
        } else {
            self.sent.push(payload.clone());
            Ok(())
        }
    }
}

struct MockSource {
    items: Vec<Item>,
    fail: bool,
}

impl FeedSource for MockSource {
    fn fetch(&mut self, _descriptor: &FeedDescriptor) -> Result<Vec<Item>, FetchError> {
        if self.fail {
            Err(FetchError)
        } else {
            Ok(self.items.clone())
        }
    }
}

fn item(key: &str, payload: &str) -> Item {
    Item { key: key.to_string(), payload: payload.to_string() }
}

fn feed() -> String {
    "https://example.org/feed.xml".to_string()
}

#[test]
fn new_item_published_once_and_recorded() {
    let mut store = DedupStore::new();
    let mut sink = MockPublisher::new();
    let items = vec![item("a", "post a")];
    let rep = run_cycle(&feed(), &items, &mut store, &mut sink);
    assert_eq!(sink.sent, vec!["post a".to_string()]);
    assert_eq!(rep.attempts.len(), 1);
    assert!(rep.attempts[0].delivered);
    assert_eq!(rep.status, CycleStatus::Success);
    assert!(store.contains(&feed(), &"a".to_string()));
}

#[test]
fn recorded_item_is_not_published_again() {
    let mut store = DedupStore::new();
    store.record(&feed(), &"a".to_string());
    let mut sink = MockPublisher::new();
    let items = vec![item("a", "post a")];
    let rep = run_cycle(&feed(), &items, &mut store, &mut sink);
    assert!(sink.sent.is_empty());
    assert!(rep.attempts.is_empty());
    assert_eq!(rep.status, CycleStatus::Success);
}

#[test]
fn failed_send_is_not_recorded_and_siblings_proceed() {
    let mut store = DedupStore::new();
    let mut sink = MockPublisher::new();
    sink.fail_payloads.push("post x".to_string());
    let items = vec![item("x", "post x"), item("b", "post b")];
    let rep = run_cycle(&feed(), &items, &mut store, &mut sink);
    // x failed: not recorded, so the next cycle retries it.
    assert!(!store.contains(&feed(), &"x".to_string()));
    // The sibling was still attempted and committed.
    assert_eq!(sink.sent, vec!["post b".to_string()]);
    assert!(store.contains(&feed(), &"b".to_string()));
    assert_eq!(rep.status, CycleStatus::Partial);
    assert_eq!(rep.attempts.len(), 2);
    assert!(!rep.attempts[0].delivered);
    assert!(rep.attempts[1].delivered);
}

#[test]
fn failed_item_is_retried_next_cycle() {
    let mut store = DedupStore::new();
    let mut sink = MockPublisher::new();
    sink.fail_payloads.push("post x".to_string());
    let items = vec![item("x", "post x")];
    run_cycle(&feed(), &items, &mut store, &mut sink);
    assert!(sink.sent.is_empty());
    sink.fail_payloads.clear();
    let rep = run_cycle(&feed(), &items, &mut store, &mut sink);
    assert_eq!(sink.sent, vec!["post x".to_string()]);
    assert_eq!(rep.status, CycleStatus::Success);
    assert!(store.contains(&feed(), &"x".to_string()));
}

#[test]
fn duplicate_keys_in_one_fetch_publish_once() {
    // First cycle: [A, B, A] against an empty store.
    let mut store = DedupStore::new();
    let mut sink = MockPublisher::new();
    let first = vec![item("A", "post A"), item("B", "post B"), item("A", "post A")];
    let rep = run_cycle(&feed(), &first, &mut store, &mut sink);
    assert_eq!(sink.sent, vec!["post A".to_string(), "post B".to_string()]);
    assert_eq!(rep.attempts.len(), 2);
    assert!(store.contains(&feed(), &"A".to_string()));
    assert!(store.contains(&feed(), &"B".to_string()));

    // Second cycle: [A, B, C] publishes only C.
    let second = vec![item("A", "post A"), item("B", "post B"), item("C", "post C")];
    let rep = run_cycle(&feed(), &second, &mut store, &mut sink);
    assert_eq!(
        sink.sent,
        vec!["post A".to_string(), "post B".to_string(), "post C".to_string()]
    );
    assert_eq!(rep.attempts.len(), 1);
    assert_eq!(rep.attempts[0].key, "C".to_string());
    assert!(store.contains(&feed(), &"C".to_string()));
}

#[test]
fn empty_fetch_is_a_successful_no_op() {
    let mut store = DedupStore::new();
    let mut sink = MockPublisher::new();
    let rep = run_cycle(&feed(), &Vec::new(), &mut store, &mut sink);
    assert!(rep.attempts.is_empty());
    assert_eq!(rep.status, CycleStatus::Success);
    assert!(sink.sent.is_empty());
}

#[test]
fn two_feeds_share_one_store_and_sink() {
    let mut store = DedupStore::new();
    let mut sink = MockPublisher::new();
    let feed1 = "feed-one".to_string();
    let feed2 = "feed-two".to_string();
    let items = vec![item("k", "payload")];
    run_cycle(&feed1, &items, &mut store, &mut sink);
    run_cycle(&feed2, &items, &mut store, &mut sink);
    // Per-feed partitioning: the same key is published once per feed.
    assert_eq!(sink.sent.len(), 2);
    assert!(store.contains(&feed1, &"k".to_string()));
    assert!(store.contains(&feed2, &"k".to_string()));
    // Re-running either feed publishes nothing more.
    run_cycle(&feed1, &items, &mut store, &mut sink);
    run_cycle(&feed2, &items, &mut store, &mut sink);
    assert_eq!(sink.sent.len(), 2);
}

#[test]
fn fetch_failure_changes_nothing() {
    let descriptor = FeedDescriptor {
        url: feed(),
        name: "example".to_string(),
        schedule: "* * * * *".to_string(),
    };
    let mut store = DedupStore::new();
    store.record(&feed(), &"old".to_string());
    let mut sink = MockPublisher::new();
    let mut source = MockSource { items: vec![item("a", "post a")], fail: true };
    let r = poll_once(&descriptor, &mut store, &mut source, &mut sink);
    assert!(r.is_err());
    assert!(sink.sent.is_empty());
    assert!(store.contains(&feed(), &"old".to_string()));
    assert!(!store.contains(&feed(), &"a".to_string()));
}

#[test]
fn poll_once_fetches_and_publishes() {
    let descriptor = FeedDescriptor {
        url: feed(),
        name: "example".to_string(),
        schedule: "* * * * *".to_string(),
    };
    let mut store = DedupStore::new();
    let mut sink = MockPublisher::new();
    let mut source = MockSource { items: vec![item("a", "post a")], fail: false };
    let rep = poll_once(&descriptor, &mut store, &mut source, &mut sink).unwrap();
    assert_eq!(rep.status, CycleStatus::Success);
    assert_eq!(sink.sent, vec!["post a".to_string()]);
    assert!(store.contains(&feed(), &"a".to_string()));
}

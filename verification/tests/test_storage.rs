//! The item store and its ledger.
use feedpulse::models::{FeedItem, FeedResult, FetchStatus};
use feedpulse::storage::{
    generate_report, get_items, is_source_logged, ledger_entry, store_results, store_results_at,
    FetchLogEntry, Store, StoreError, StoredItem,
};

fn item(id: &str, title: &str, source: &str) -> FeedItem {
    FeedItem {
        id: id.to_string(),
        title: title.to_string(),
        url: format!("https://example.com/{}", id),
        source: source.to_string(),
        timestamp: None,
        tags: vec![],
        raw_data: None,
    }
}

fn success(source: &str, items: Vec<FeedItem>) -> FeedResult {
    FeedResult {
        source_name: source.to_string(),
        status: FetchStatus::Success,
        items,
        duration_ms: 100,
        error_message: None,
    }
}

fn failure(source: &str, error: &str) -> FeedResult {
    FeedResult {
        source_name: source.to_string(),
        status: FetchStatus::Error,
        items: vec![],
        duration_ms: 7,
        error_message: Some(error.to_string()),
    }
}

#[test]
fn test_store_and_retrieve() {
    let mut store = Store::new();

    let item = FeedItem {
        id: "test123".to_string(),
        title: "Test Item".to_string(),
        url: "https://example.com".to_string(),
        source: "Test Source".to_string(),
        timestamp: None,
        tags: vec!["tag1".to_string()],
        raw_data: None,
    };

    let result = FeedResult {
        source_name: "Test Source".to_string(),
        status: FetchStatus::Success,
        items: vec![item.clone()],
        duration_ms: 100,
        error_message: None,
    };

    let summary = store_results(&mut store, &[result]).unwrap();
    assert_eq!(summary.total_items, 1);
    assert_eq!(summary.new_items, 1);

    // Store again - should update
    let result2 = FeedResult {
        source_name: "Test Source".to_string(),
        status: FetchStatus::Success,
        items: vec![item],
        duration_ms: 100,
        error_message: None,
    };

    let summary2 = store_results(&mut store, &[result2]).unwrap();
    assert_eq!(summary2.total_items, 1);
    assert_eq!(summary2.new_items, 0); // No new items, just update
}

#[test]
fn test_generate_report() {
    let mut store = Store::new();

    let result = FeedResult {
        source_name: "Test Source".to_string(),
        status: FetchStatus::Success,
        items: vec![],
        duration_ms: 100,
        error_message: None,
    };

    store_results(&mut store, &[result]).unwrap();

    let reports = generate_report(&store, None);
    assert_eq!(reports.len(), 1);
    assert_eq!(reports[0].source_name, "Test Source");
}

#[test]
fn committing_a_batch_twice_adds_nothing_the_second_time() {
    let mut store = Store::new();
    let batch = vec![
        success("A", vec![item("a1", "one", "A"), item("a2", "two", "A")]),
        failure("B", "HTTP 404 after 0 retries"),
        success("C", vec![item("c1", "three", "C"), item("a1", "one again", "A")]),
    ];
    let first = store_results_at(&mut store, &batch, "t1").unwrap();
    assert_eq!((first.total_items, first.new_items), (4, 3));
    let titles: Vec<String> = store.rows().iter().map(|r| r.item.title.clone()).collect();
    let second = store_results_at(&mut store, &batch, "t2").unwrap();
    assert_eq!((second.total_items, second.new_items), (4, 0));
    assert_eq!(store.len(), 3);
    assert_eq!(store.log_len(), 6);
    let again: Vec<String> = store.rows().iter().map(|r| r.item.title.clone()).collect();
    assert_eq!(titles, again);
    assert_eq!(store.get("a1").unwrap().item.title, "one again");
    assert!(store.rows().iter().all(|r| r.created_at == "t1"));
}

#[test]
fn an_update_overwrites_the_item_and_keeps_its_creation() {
    let mut store = Store::new();
    store_results_at(&mut store, &[success("A", vec![item("a1", "old", "A")])], "t1").unwrap();
    let mut newer = item("a1", "new", "A");
    newer.tags = vec!["x".to_string()];
    newer.timestamp = Some("2024-05-05T00:00:00Z".to_string());
    newer.raw_data = Some("{}".to_string());
    let summary = store_results_at(&mut store, &[success("A", vec![newer])], "t2").unwrap();
    assert_eq!(summary.new_items, 0);
    let row = store.get("a1").unwrap();
    assert_eq!(row.item.title, "new");
    assert_eq!(row.item.tags, vec!["x"]);
    assert_eq!(row.item.timestamp.as_deref(), Some("2024-05-05T00:00:00Z"));
    assert_eq!(row.item.raw_data.as_deref(), Some("{}"));
    assert_eq!(row.created_at, "t1");
    assert!(store.get("a2").is_none());
}

#[test]
fn a_batch_that_does_not_fit_leaves_the_store_as_it_was() {
    let mut store = Store::with_capacity(3);
    store_results_at(
        &mut store,
        &[success("A", vec![item("a1", "1", "A"), item("a2", "2", "A")])],
        "t1",
    )
    .unwrap();
    // The third item of this batch is one too many.
    let batch = vec![
        failure("B", "timeout after 3 retries"),
        success("A", vec![item("a1", "changed", "A"), item("a3", "3", "A"), item("a4", "4", "A")]),
    ];
    assert_eq!(store_results_at(&mut store, &batch, "t2"), Err(StoreError::Full));
    assert_eq!(store.len(), 2);
    assert_eq!(store.log_len(), 1);
    assert_eq!(store.get("a1").unwrap().item.title, "1");
    assert!(store.get("a3").is_none());
    assert!(!is_source_logged(&store, "B"));
    assert_eq!(StoreError::Full.message(), "storage error: the store is full, nothing was committed");
    // A batch that fits is taken, to the last place.
    let fits = vec![success("A", vec![item("a1", "changed", "A"), item("a3", "3", "A")])];
    let summary = store_results_at(&mut store, &fits, "t3").unwrap();
    assert_eq!((summary.total_items, summary.new_items), (2, 1));
    assert_eq!(store.len(), store.capacity());
}

#[test]
fn items_of_a_failed_fetch_are_not_stored() {
    let mut store = Store::new();
    let mut odd = failure("A", "parse error");
    odd.items = vec![item("a1", "1", "A")];
    let summary = store_results_at(&mut store, &[odd], "t1").unwrap();
    assert_eq!((summary.total_items, summary.new_items), (0, 0));
    assert_eq!(store.len(), 0);
    assert_eq!(store.log()[0].items_count, 0);
    assert_eq!(store.log()[0].status, FetchStatus::Error);
    assert_eq!(store.log()[0].error_message.as_deref(), Some("parse error"));
    assert_eq!(store.log()[0].duration_ms, 7);
    assert_eq!(store.log()[0].fetched_at, "t1");
}

#[test]
fn the_ledger_lists_the_logged_sources_in_order() {
    let mut store = Store::new();
    store_results_at(
        &mut store,
        &[
            success("beta", vec![item("b1", "1", "beta"), item("b2", "2", "beta")]),
            failure("alpha", "HTTP 500 after 3 retries"),
            success("Gamma", vec![item("g1", "1", "Gamma")]),
        ],
        "2024-01-01T00:00:00+00:00",
    )
    .unwrap();
    store_results_at(
        &mut store,
        &[
            failure("beta", "timeout after 3 retries"),
            success("alpha", vec![]),
            success("Gamma", vec![item("g1", "1", "Gamma"), item("g2", "2", "Gamma")]),
        ],
        "2024-01-02T00:00:00+00:00",
    )
    .unwrap();
    store_results_at(&mut store, &[success("Gamma", vec![])], "2024-01-01T12:00:00+00:00").unwrap();

    let reports = generate_report(&store, None);
    let names: Vec<&str> = reports.iter().map(|r| r.source_name.as_str()).collect();
    assert_eq!(names, vec!["Gamma", "alpha", "beta"]);
    let counts: Vec<(u64, u64)> = reports.iter().map(|r| (r.total_items, r.error_count)).collect();
    assert_eq!(counts, vec![(2, 0), (0, 1), (2, 1)]);
    assert_eq!(reports[0].last_success.as_deref(), Some("2024-01-02T00:00:00+00:00"));
    assert_eq!(reports[1].last_success.as_deref(), Some("2024-01-02T00:00:00+00:00"));
    assert_eq!(reports[2].last_success.as_deref(), Some("2024-01-01T00:00:00+00:00"));

    let one = generate_report(&store, Some("beta"));
    assert_eq!(one.len(), 1);
    assert_eq!(one[0].total_items, 2);
    // A source that was never fetched still gets its row.
    let none = generate_report(&store, Some("delta"));
    assert_eq!(none.len(), 1);
    assert_eq!(none[0].source_name, "delta");
    assert_eq!((none[0].total_items, none[0].error_count), (0, 0));
    assert!(none[0].last_success.is_none());
    assert!(is_source_logged(&store, "alpha"));
    assert!(!is_source_logged(&store, "delta"));
    assert_eq!(ledger_entry(&store, "Gamma").total_items, 2);
    assert!(generate_report(&Store::new(), None).is_empty());
}

#[test]
fn items_are_queried_from_the_newest() {
    let mut store = Store::new();
    store_results_at(&mut store, &[success("A", vec![item("a1", "1", "A"), item("a2", "2", "A")])], "t2")
        .unwrap();
    store_results_at(&mut store, &[success("B", vec![item("b1", "3", "B")])], "t3").unwrap();
    store_results_at(
        &mut store,
        &[success("A", vec![item("a3", "4", "A"), item("a1", "1 again", "A")])],
        "t1",
    )
    .unwrap();

    let ids = |items: &Vec<FeedItem>| items.iter().map(|i| i.id.clone()).collect::<Vec<_>>();
    assert_eq!(ids(&get_items(&store, None, None, None)), vec!["b1", "a1", "a2", "a3"]);
    assert_eq!(ids(&get_items(&store, Some("A"), None, None)), vec!["a1", "a2", "a3"]);
    assert_eq!(ids(&get_items(&store, None, Some("t2"), None)), vec!["b1", "a1", "a2"]);
    assert_eq!(ids(&get_items(&store, Some("A"), Some("t2"), Some(1))), vec!["a1"]);
    assert_eq!(ids(&get_items(&store, None, None, Some(0))), Vec::<String>::new());
    assert_eq!(ids(&get_items(&store, None, None, Some(9))).len(), 4);
    assert_eq!(ids(&get_items(&store, Some("C"), None, None)), Vec::<String>::new());
    assert_eq!(get_items(&store, Some("A"), None, None)[0].title, "1 again");
}

#[test]
fn rows_kept_elsewhere_make_a_store_unless_corrupt() {
    let row = |id: &str| StoredItem { item: item(id, "t", "A"), created_at: "t0".to_string() };
    let entry = FetchLogEntry {
        source: "A".to_string(),
        fetched_at: "t0".to_string(),
        status: FetchStatus::Success,
        items_count: 2,
        error_message: None,
        duration_ms: 3,
    };
    let store = Store::from_rows(vec![row("a1"), row("a2")], vec![entry.clone()], 10).unwrap();
    assert_eq!(store.len(), 2);
    assert_eq!(store.log_len(), 1);
    assert_eq!(store.capacity(), 10);
    assert_eq!(generate_report(&store, None)[0].total_items, 2);

    let twice = Store::from_rows(vec![row("a1"), row("a2"), row("a1")], vec![], 10);
    assert_eq!(twice.unwrap_err(), StoreError::Corrupt);
    let crowded = Store::from_rows(vec![row("a1"), row("a2")], vec![], 1);
    assert_eq!(crowded.unwrap_err(), StoreError::Corrupt);
    assert_eq!(StoreError::Corrupt.message(), "storage error: the store is corrupted");
    assert_eq!(row("a1").clone().item.id, "a1");
    assert_eq!(entry.clone().items_count, 2);
}

use feedpulse::fetcher::Orchestrator;
use feedpulse::models::{FeedItem, FeedResult};
use feedpulse::parser::Parser;
use feedpulse::storage::{store_results, store_results_at, Store, StoreError};

fn item(id: &str, source: &str) -> FeedItem {
    FeedItem {
        id: id.to_string(),
        title: format!("title of {}", id),
        url: format!("https://example.com/{}", id),
        source: source.to_string(),
        timestamp: None,
        tags: vec![],
        raw_data: None,
    }
}

#[test]
fn test_scenario_15_ctrl_c_handling() {
    // Cancelling a run drops the fetches that have not ended and keeps the
    // results that are in.
    let mut run = Orchestrator::new(3, 2);
    assert_eq!(run.dispatch(), Some(0));
    assert_eq!(run.dispatch(), Some(1));
    assert!(run.complete(0, FeedResult::success("A".to_string(), vec![], 5)));
    run.cancel();
    assert!(run.is_cancelled());
    assert!(run.is_finished());
    assert_eq!(run.in_flight(), 0);
    assert_eq!(run.dispatch(), None);
    let results = run.results();
    assert_eq!(results.len(), 1);
    assert_eq!(results[0].source_name, "A");
    assert!(true, "Ctrl+C handling requires integration test");
}

#[test]
fn test_scenario_16_disk_full() {
    // A store without room refuses the batch and keeps nothing of it.
    let mut store = Store::with_capacity(1);
    let batch = vec![FeedResult::success(
        "A".to_string(),
        vec![item("a1", "A"), item("a2", "A")],
        10,
    )];
    let refused = store_results_at(&mut store, &batch, "2024-01-01T00:00:00+00:00");
    assert_eq!(refused, Err(StoreError::Full));
    assert_eq!(store.len(), 0);
    assert_eq!(store.log_len(), 0);
    assert!(true, "Disk full requires system-level testing");
}


#[test]
fn test_scenario_10_malformed_json_response() {
    // Scenario: Malformed JSON response
    // Expected: Log error, skip feed, continue others
    let malformed = "{invalid json content";
    let result = Parser::parse("Test Source", "json", malformed);

    assert!(result.is_err());
    let err = result.unwrap_err();
    assert!(err.contains("malformed JSON") || err.contains("JSON"));
}

#[test]
fn test_scenario_11_json_missing_expected_fields() {
    // Scenario: JSON missing expected fields
    // Expected: Skip item, log warning, continue parsing
    let data = r#"{
        "items": [
            {"full_name": "test/repo"},
            {"html_url": "https://github.com/test/repo"},
            {"full_name": "valid/repo", "html_url": "https://github.com/valid/repo"}
        ]
    }"#;

    let result = Parser::parse("GitHub Trending", "json", data);
    assert!(result.is_ok());
    let items = result.unwrap();
    // Should skip first two items, keep only the valid one
    assert_eq!(items.len(), 1);
    assert_eq!(items[0].title, "valid/repo");
}

#[test]
fn test_scenario_12_json_wrong_types() {
    // Scenario: JSON wrong types
    // Expected: Attempt coercion, skip item if impossible
    let data = r#"[
        {
            "title": 12345,
            "url": "https://example.com",
            "tags": []
        }
    ]"#;

    let result = Parser::parse("Lobsters", "json", data);
    assert!(result.is_ok());
    let items = result.unwrap();
    // Should coerce title to string
    assert_eq!(items.len(), 1);
    assert_eq!(items[0].title, "12345");
}

#[test]
fn test_scenario_13_database_locked_retry() {
    // The store takes a valid item.
    let mut store = Store::new();

    // Create a valid feed item
    let item = FeedItem::new(
        "Test".to_string(),
        "https://example.com".to_string(),
        "Test Source".to_string(),
    );

    // Store should succeed
    let result = store_results(
        &mut store,
        &[FeedResult::success("Test Source".to_string(), vec![item], 1)],
    );
    assert!(result.is_ok(), "Should store item successfully");
}

#[test]
fn test_database_upsert_behavior() {
    // Test that duplicate items are handled correctly (upsert)
    let mut store = Store::new();

    let item1 = FeedItem::new(
        "Test".to_string(),
        "https://example.com".to_string(),
        "Source".to_string(),
    );

    let item2 = FeedItem::new(
        "Test Updated".to_string(),
        "https://example.com".to_string(),
        "Source".to_string(),
    );

    // Same source + URL = same ID
    assert_eq!(item1.id, item2.id);
    let id = item1.id.clone();

    // Store first item
    store_results(&mut store, &[FeedResult::success("Source".to_string(), vec![item1], 1)])
        .unwrap();

    // Store second item (should update, not duplicate)
    store_results(&mut store, &[FeedResult::success("Source".to_string(), vec![item2], 1)])
        .unwrap();

    // Verify only one item exists
    assert_eq!(store.len(), 1);
    assert_eq!(store.get(&id).unwrap().item.title, "Test Updated");
}

#[test]
fn test_parse_with_special_characters() {
    let data = r#"[
        {
            "title": "Test with <HTML> & \"quotes\" and 'apostrophes'",
            "url": "https://example.com",
            "tags": []
        }
    ]"#;

    let result = Parser::parse("Lobsters", "json", data);
    assert!(result.is_ok());
    let items = result.unwrap();
    assert_eq!(items.len(), 1);
    assert!(items[0].title.contains("<HTML>"));
    assert!(items[0].title.contains("quotes"));
}

#[test]
fn test_parse_very_long_content() {
    // Test handling of very long strings
    let long_title = "A".repeat(10000);
    let data = format!(
        r#"[
        {{
            "title": "{}",
            "url": "https://example.com",
            "tags": []
        }}
    ]"#,
        long_title
    );

    let result = Parser::parse("Lobsters", "json", &data);
    assert!(result.is_ok());
    let items = result.unwrap();
    assert_eq!(items.len(), 1);
    assert_eq!(items[0].title.len(), 10000);
}

#[test]
fn test_timestamp_formats() {
    // Test various timestamp formats
    let timestamps = vec![
        ("2024-01-01T12:00:00Z", true),
        ("2024-01-01T12:00:00+00:00", true),
        ("invalid-timestamp", true), // Should not crash
    ];

    for (ts, _should_parse) in timestamps {
        let data = format!(
            r#"[
            {{
                "title": "Test",
                "url": "https://example.com",
                "created_at": "{}",
                "tags": []
            }}
        ]"#,
            ts
        );

        let result = Parser::parse("Lobsters", "json", &data);
        assert!(result.is_ok(), "Should handle timestamp: {}", ts);
    }
}

#[test]
fn test_storage_multiple_sources() {
    let mut store = Store::new();

    let item1 = FeedItem::new(
        "Item 1".to_string(),
        "https://example.com/1".to_string(),
        "Source A".to_string(),
    );

    let item2 = FeedItem::new(
        "Item 2".to_string(),
        "https://example.com/2".to_string(),
        "Source B".to_string(),
    );

    store_results(&mut store, &[FeedResult::success("Source A".to_string(), vec![item1], 1)])
        .unwrap();
    store_results(&mut store, &[FeedResult::success("Source B".to_string(), vec![item2], 1)])
        .unwrap();

    // Both should be stored successfully
    assert_eq!(store.len(), 2);
}

#[test]
fn test_scenario_13_database_creation() {
    // A fresh store can always be made, and is empty.
    let storage = Store::from_rows(vec![], vec![], usize::MAX);
    assert!(storage.is_ok(), "Should create new database");
    let storage = storage.unwrap();
    assert_eq!(storage.len(), 0);
    assert_eq!(storage.log_len(), 0);
}

#[test]
fn test_scenario_14_database_corrupted() {
    // Rows that break the key of the item table are no store, and the fault
    // is told apart from an empty store.
    let row = |id: &str| feedpulse::storage::StoredItem {
        item: item(id, "A"),
        created_at: "2024-01-01T00:00:00+00:00".to_string(),
    };
    let result = Store::from_rows(vec![row("a1"), row("a1")], vec![], usize::MAX);
    assert!(result.is_err(), "Should fail on corrupted database");
    assert_eq!(result.unwrap_err(), StoreError::Corrupt);
}

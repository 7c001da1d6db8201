//! Normalization of response bodies.
use feedpulse::models::{FeedItem, FeedType};
use feedpulse::parser::{
    detect_shape, normalize, parse_feed, parse_feed_at, parse_feed_type, parse_generic_json,
    parse_github, parse_hackernews, parse_json_feed, parse_json_feed_at, parse_lobsters,
    parse_reddit, parse_reddit_at, parse_reddit_item, parse_reddit_item_at, FeedShape,
    ParseError, Parser, SkipReason,
};

const NOW: &str = "2024-06-01T00:00:00+00:00";

fn parse(source: &str, data: &str) -> Result<Vec<FeedItem>, String> {
    Parser::parse_at(source, "json", data, NOW)
}

#[test]
fn test_parse_hackernews_valid() {
    let data = r#"[12345, 23456, 34567]"#;
    let result = Parser::parse("HackerNews Top", "json", data);

    assert!(result.is_ok());
    let items = result.unwrap();
    assert_eq!(items.len(), 3);
    assert_eq!(items[0].title, "HN Story 12345");
    assert_eq!(items[0].url, "https://news.ycombinator.com/item?id=12345");
    assert_eq!(items[0].source, "HackerNews Top");
}

#[test]
fn test_parse_hackernews_mixed_types() {
    let data = r#"[123, "not-an-int", 456]"#;
    let result = Parser::parse("HackerNews Top", "json", data);

    assert!(result.is_ok());
    let items = result.unwrap();
    // Should skip the invalid one
    assert_eq!(items.len(), 2);
    assert_eq!(items[0].title, "HN Story 123");
    assert_eq!(items[1].title, "HN Story 456");
}

#[test]
fn test_parse_github_valid() {
    let data = r#"{
        "items": [
            {
                "full_name": "user/repo",
                "html_url": "https://github.com/user/repo",
                "topics": ["python", "cli"],
                "updated_at": "2024-01-01T12:00:00Z"
            }
        ]
    }"#;

    let result = Parser::parse("GitHub Trending", "json", data);
    assert!(result.is_ok());
    let items = result.unwrap();
    assert_eq!(items.len(), 1);
    assert_eq!(items[0].title, "user/repo");
    assert_eq!(items[0].url, "https://github.com/user/repo");
    assert_eq!(items[0].tags, vec!["python", "cli"]);
    assert_eq!(items[0].source, "GitHub Trending");
}

#[test]
fn test_parser_test_parse_github_missing_title() {
    let data = r#"{
        "items": [
            {
                "html_url": "https://github.com/user/repo"
            }
        ]
    }"#;

    let result = Parser::parse("GitHub Trending", "json", data);
    assert!(result.is_ok());
    let items = result.unwrap();
    // Should skip item without title
    assert_eq!(items.len(), 0);
}

#[test]
fn test_parse_github_missing_url() {
    let data = r#"{
        "items": [
            {
                "full_name": "user/repo"
            }
        ]
    }"#;

    let result = Parser::parse("GitHub Trending", "json", data);
    assert!(result.is_ok());
    let items = result.unwrap();
    // Should skip item without URL
    assert_eq!(items.len(), 0);
}

#[test]
fn test_parse_reddit_valid() {
    let data = r#"{
        "data": {
            "children": [
                {
                    "data": {
                        "title": "Test Post",
                        "url": "https://reddit.com/r/test/comments/123",
                        "created_utc": 1704067200,
                        "link_flair_text": "Discussion"
                    }
                }
            ]
        }
    }"#;

    let result = Parser::parse("Reddit Programming", "json", data);
    assert!(result.is_ok());
    let items = result.unwrap();
    assert_eq!(items.len(), 1);
    assert_eq!(items[0].title, "Test Post");
    assert_eq!(items[0].url, "https://reddit.com/r/test/comments/123");
    assert_eq!(items[0].tags, vec!["Discussion"]);
    assert_eq!(items[0].source, "Reddit Programming");
}

#[test]
fn test_parse_reddit_invalid_structure() {
    let data = r#"{"not": "valid"}"#;
    let result = Parser::parse("Reddit Programming", "json", data);

    // Should fail since missing data.children
    assert!(result.is_err());
}

#[test]
fn test_parse_lobsters_valid() {
    let data = r#"[
        {
            "title": "Test Article",
            "url": "https://example.com/article",
            "created_at": "2024-01-01T12:00:00Z",
            "tags": ["programming", "python"]
        }
    ]"#;

    let result = Parser::parse("Lobsters", "json", data);
    assert!(result.is_ok());
    let items = result.unwrap();
    assert_eq!(items.len(), 1);
    assert_eq!(items[0].title, "Test Article");
    assert_eq!(items[0].url, "https://example.com/article");
    assert_eq!(items[0].tags, vec!["programming", "python"]);
    assert_eq!(items[0].source, "Lobsters");
}

#[test]
fn test_parse_lobsters_fallback_url() {
    let data = r#"[
        {
            "title": "Test Article",
            "comments_url": "https://lobste.rs/s/abc123",
            "created_at": "2024-01-01T12:00:00Z",
            "tags": []
        }
    ]"#;

    let result = Parser::parse("Lobsters", "json", data);
    assert!(result.is_ok());
    let items = result.unwrap();
    assert_eq!(items.len(), 1);
    assert_eq!(items[0].url, "https://lobste.rs/s/abc123");
}

#[test]
fn test_parse_malformed_json() {
    let data = "{not valid json";
    let result = Parser::parse("Test Source", "json", data);

    assert!(result.is_err());
    let err = result.unwrap_err();
    assert!(err.contains("malformed JSON"));
}

#[test]
fn test_parse_empty_response() {
    let data = "[]";
    let result = Parser::parse("HackerNews Top", "json", data);

    assert!(result.is_ok());
    let items = result.unwrap();
    assert_eq!(items.len(), 0);
}

#[test]
fn test_parse_unicode() {
    let data = r#"[
        {
            "title": "æµ‹è¯•æ–‡ç«  ðŸš€",
            "url": "https://example.com",
            "created_at": "2024-01-01T12:00:00Z",
            "tags": []
        }
    ]"#;

    let result = Parser::parse("Lobsters", "json", data);
    assert!(result.is_ok());
    let items = result.unwrap();
    assert_eq!(items.len(), 1);
    assert!(items[0].title.contains("æµ‹è¯•"));
    assert!(items[0].title.contains("ðŸš€"));
}

#[test]
fn test_parse_wrong_types_coercion() {
    // Test that numbers are coerced to strings for title
    let data = r#"[
        {
            "title": 12345,
            "url": "https://example.com",
            "tags": []
        }
    ]"#;

    let result = Parser::parse("Lobsters", "json", data);
    assert!(result.is_ok());
    let items = result.unwrap();
    assert_eq!(items.len(), 1);
    assert_eq!(items[0].title, "12345");
}

#[test]
fn test_feeditem_id_generation_deterministic() {
    let item1 = FeedItem::new(
        "Test".to_string(),
        "https://example.com".to_string(),
        "Source1".to_string(),
    );

    let item2 = FeedItem::new(
        "Test".to_string(),
        "https://example.com".to_string(),
        "Source1".to_string(),
    );

    // Same source and URL should generate same ID
    assert_eq!(item1.id, item2.id);
}

#[test]
fn test_feeditem_id_generation_different_source() {
    let item1 = FeedItem::new(
        "Test".to_string(),
        "https://example.com".to_string(),
        "Source1".to_string(),
    );

    let item2 = FeedItem::new(
        "Test".to_string(),
        "https://example.com".to_string(),
        "Source2".to_string(),
    );

    // Different source should generate different ID
    assert_ne!(item1.id, item2.id);
}

#[test]
fn test_parse_github_with_numeric_types() {
    // Test type coercion for GitHub
    let data = r#"{
        "items": [
            {
                "full_name": 123456,
                "html_url": "https://github.com/user/repo"
            }
        ]
    }"#;

    let result = Parser::parse("GitHub Trending", "json", data);
    assert!(result.is_ok());
    let items = result.unwrap();
    assert_eq!(items.len(), 1);
    assert_eq!(items[0].title, "123456");
}

#[test]
fn test_parse_reddit_timestamp_conversion() {
    let data = r#"{
        "data": {
            "children": [
                {
                    "data": {
                        "title": "Test",
                        "url": "https://reddit.com/test",
                        "created_utc": 1704067200.0
                    }
                }
            ]
        }
    }"#;

    let result = Parser::parse("Reddit Programming", "json", data);
    assert!(result.is_ok());
    let items = result.unwrap();
    assert_eq!(items.len(), 1);
    assert!(items[0].timestamp.is_some());
    let timestamp = items[0].timestamp.as_ref().unwrap();
    assert!(timestamp.contains("2024"));
}

#[test]
fn test_parse_empty_items_array() {
    let data = r#"{"items": []}"#;
    let result = Parser::parse("GitHub Trending", "json", data);

    assert!(result.is_ok());
    let items = result.unwrap();
    assert_eq!(items.len(), 0);
}

#[test]
fn test_parse_null_values() {
    let data = r#"[
        {
            "title": "Test",
            "url": "https://example.com",
            "tags": null,
            "created_at": null
        }
    ]"#;

    let result = Parser::parse("Lobsters", "json", data);
    assert!(result.is_ok());
    let items = result.unwrap();
    assert_eq!(items.len(), 1);
    assert_eq!(items[0].tags.len(), 0);
    assert!(items[0].timestamp.is_none());
}

#[test]
fn test_parse_multiple_items_with_errors() {
    let data = r#"{
        "items": [
            {
                "full_name": "valid/repo",
                "html_url": "https://github.com/valid/repo"
            },
            {
                "full_name": "missing-url"
            },
            {
                "html_url": "https://github.com/missing-name"
            },
            {
                "full_name": "another/valid",
                "html_url": "https://github.com/another/valid"
            }
        ]
    }"#;

    let result = Parser::parse("GitHub Trending", "json", data);
    assert!(result.is_ok());
    let items = result.unwrap();
    // Should get 2 valid items, skip 2 invalid
    assert_eq!(items.len(), 2);
    assert_eq!(items[0].title, "valid/repo");
    assert_eq!(items[1].title, "another/valid");
}

#[test]
fn test_parse_hackernews() {
    let json_str = r#"[123, 456, 789]"#;

    let items = parse_hackernews(json_str, "HackerNews").unwrap().items;
    assert_eq!(items.len(), 3);
    assert_eq!(items[0].title, "HN Story 123");
    assert!(items[0].url.contains("123"));
}

#[test]
fn parser_test_parse_github_missing_title() {
    let json_str = r#"{"items": [{"html_url": "https://github.com/test"}]}"#;

    let items = parse_github(json_str, "GitHub").unwrap().items;
    // Should skip item with missing title
    assert_eq!(items.len(), 0);
}

#[test]
fn test_parse_reddit_item() {
    let json_str = r#"{
            "title": "Test Post",
            "url": "https://example.com",
            "created_utc": 1704067200.0,
            "link_flair_text": "Discussion"
        }"#;

    let item = parse_reddit_item(json_str, "Reddit").unwrap();
    assert_eq!(item.title, "Test Post");
    assert_eq!(item.url, "https://example.com");
    assert_eq!(item.tags.len(), 1);
    assert_eq!(item.tags[0], "Discussion");
}

#[test]
fn test_malformed_json() {
    let result = parse_json_feed("test", "not json");
    assert!(result.is_err());
    assert!(result.unwrap_err().message().contains("malformed JSON"));
}

#[test]
fn reddit_time_is_rfc3339_in_utc() {
    let item = parse_reddit_item_at(
        r#"{"title": "T", "url": "https://example.com", "created_utc": 1704067200.9}"#,
        "Reddit",
        NOW,
    )
    .unwrap();
    assert_eq!(item.timestamp.as_deref(), Some("2024-01-01T00:00:00+00:00"));
}

#[test]
fn reddit_time_outside_the_calendar_is_now() {
    let item = parse_reddit_item_at(
        r#"{"title": "T", "url": "https://example.com", "created_utc": 1e300}"#,
        "Reddit",
        NOW,
    )
    .unwrap();
    assert_eq!(item.timestamp.as_deref(), Some(NOW));
}

#[test]
fn reddit_empty_flair_gives_no_tag() {
    let item = parse_reddit_item_at(
        r#"{"title": "T", "url": "https://example.com", "link_flair_text": ""}"#,
        "Reddit",
        NOW,
    )
    .unwrap();
    assert!(item.tags.is_empty());
    assert!(item.timestamp.is_none());
}

#[test]
fn reddit_post_without_data_is_skipped() {
    let body = r#"{"data": {"children": [{"kind": "t3"}, {"data": {"title": "T", "url": "u"}}]}}"#;
    let normalized = normalize("Reddit", &FeedType::Json, body, NOW).unwrap();
    assert_eq!(normalized.items.len(), 1);
    assert_eq!(normalized.skipped.len(), 1);
    assert_eq!(normalized.skipped[0].index, 0);
    assert_eq!(normalized.skipped[0].reason, SkipReason::MissingData);
    assert_eq!(normalized.skipped[0].reason.message(), "missing 'data' field");
}

#[test]
fn skipped_elements_are_listed_with_their_reasons() {
    let body = r#"{"items": [
        {"full_name": "a/b"},
        {"html_url": "https://github.com/c/d"},
        {"full_name": "e/f", "html_url": "https://github.com/e/f"},
        {"full_name": null, "name": "g", "html_url": "https://github.com/g"}
    ]}"#;
    let normalized = parse_github(body, "GitHub").unwrap();
    assert_eq!(normalized.items.len(), 1);
    assert_eq!(normalized.items[0].title, "e/f");
    let reasons: Vec<(usize, SkipReason)> =
        normalized.skipped.iter().map(|s| (s.index, s.reason)).collect();
    assert_eq!(
        reasons,
        vec![
            (0, SkipReason::MissingHtmlUrl),
            (1, SkipReason::MissingName),
            (3, SkipReason::MissingName),
        ]
    );
}

#[test]
fn item_keeps_the_compact_text_of_its_element() {
    let items = parse("Lobsters", r#"[ { "url" : "https://example.com", "title" : "T" } ]"#).unwrap();
    assert_eq!(
        items[0].raw_data.as_deref(),
        Some(r#"{"title":"T","url":"https://example.com"}"#)
    );
    let stories = parse("HN", "[ 42 ]").unwrap();
    assert_eq!(stories[0].raw_data.as_deref(), Some("42"));
    assert_eq!(stories[0].title, "HN Story 42");
}

#[test]
fn negative_story_number_keeps_its_sign() {
    let stories = parse("HN", "[-7, 1.5, 9223372036854775807, 9223372036854775808]").unwrap();
    assert_eq!(stories.len(), 2);
    assert_eq!(stories[0].title, "HN Story -7");
    assert_eq!(stories[0].url, "https://news.ycombinator.com/item?id=-7");
    assert_eq!(stories[1].title, "HN Story 9223372036854775807");
}

#[test]
fn generic_shape_reads_common_names() {
    let body = r#"[
        {"headline": "H", "link": "https://example.com/1"},
        {"name": "N", "href": "https://example.com/2", "url": "https://example.com/3"},
        {"link": "https://example.com/4"},
        {"title": "no link"},
        {"title": true, "url": "https://example.com/5"}
    ]"#;
    let normalized = normalize("Some Blog", &FeedType::Json, body, NOW).unwrap();
    let titles: Vec<&str> = normalized.items.iter().map(|i| i.title.as_str()).collect();
    assert_eq!(titles, vec!["H", "N", "Untitled", "true"]);
    let urls: Vec<&str> = normalized.items.iter().map(|i| i.url.as_str()).collect();
    assert_eq!(
        urls,
        vec![
            "https://example.com/1",
            "https://example.com/3",
            "https://example.com/4",
            "https://example.com/5"
        ]
    );
    assert_eq!(normalized.skipped.len(), 1);
    assert_eq!(normalized.skipped[0].index, 3);
    assert_eq!(normalized.skipped[0].reason, SkipReason::NoUrlField);
}

#[test]
fn shape_follows_the_name_of_the_source() {
    assert_eq!(detect_shape("HackerNews Top"), FeedShape::HackerNews);
    assert_eq!(detect_shape("My HN mirror"), FeedShape::HackerNews);
    assert_eq!(detect_shape("GitHub Trending"), FeedShape::GitHub);
    assert_eq!(detect_shape("GitHub HN"), FeedShape::HackerNews);
    assert_eq!(detect_shape("Reddit Programming"), FeedShape::Reddit);
    assert_eq!(detect_shape("Lobsters"), FeedShape::Lobsters);
    assert_eq!(detect_shape("lobsters"), FeedShape::Generic);
    assert_eq!(detect_shape(""), FeedShape::Generic);
}

#[test]
fn body_without_the_array_of_its_shape_fails() {
    let cases = [
        ("GitHub", r#"{"items": 3}"#, "GitHub: missing 'items' array"),
        ("Reddit", r#"{"data": {"children": {}}}"#, "Reddit: missing 'data.children' array"),
        ("Lobsters", r#""text""#, "Lobsters: expected array"),
        ("Other", r#"{}"#, "expected JSON array"),
    ];
    for (source, body, message) in cases {
        let err = parse_feed_at(source, &FeedType::Json, body, NOW).unwrap_err();
        assert!(matches!(err, ParseError::UnexpectedShape(_)));
        assert_eq!(err.message(), message);
    }
    // Story numbers that are no array count as none.
    let none = normalize("HackerNews", &FeedType::Json, r#""text""#, NOW).unwrap();
    assert!(none.items.is_empty());
    assert!(none.skipped.is_empty());
}

#[test]
fn other_formats_are_refused() {
    let body = r#"<?xml version="1.0"?><rss><channel></channel></rss>"#;
    let rss = parse_feed("RSS Feed", &FeedType::Rss, body).unwrap_err();
    assert!(matches!(rss, ParseError::RssNotImplemented));
    assert_eq!(rss.message(), "RSS feeds are not yet implemented");
    let atom = parse_feed_at("Atom Feed", &FeedType::Atom, body, NOW).unwrap_err();
    assert!(matches!(atom, ParseError::AtomNotImplemented));
    assert_eq!(atom.message(), "Atom feeds are not yet implemented");
    assert_eq!(
        Parser::parse_at("Feed", "XML", "[]", NOW).unwrap_err(),
        "unknown feed type 'XML': must be one of: json, rss, atom"
    );
    assert_eq!(parse_feed_type("json"), Some(FeedType::Json));
    assert_eq!(parse_feed_type("rss"), Some(FeedType::Rss));
    assert_eq!(parse_feed_type("atom"), Some(FeedType::Atom));
    assert_eq!(parse_feed_type("Json"), None);
    assert_eq!(parse_feed_type(""), None);
}

#[test]
fn lobsters_url_falls_back_when_it_is_no_url() {
    let url_of = |story: &str| parse("Lobsters", &format!("[{}]", story)).unwrap()[0].url.clone();
    assert_eq!(url_of(r#"{"title": "T", "url": "u", "comments_url": "c"}"#), "u");
    assert_eq!(url_of(r#"{"title": "T", "url": "", "comments_url": "c"}"#), "c");
    assert_eq!(url_of(r#"{"title": "T", "url": null, "comments_url": "c"}"#), "c");
    assert_eq!(url_of(r#"{"title": "T", "url": 7, "comments_url": ""}"#), "");
    assert_eq!(url_of(r#"{"title": "T", "comments_url": "c"}"#), "c");
    assert!(parse("Lobsters", r#"[{"title": "T", "url": ""}]"#).unwrap().is_empty());
}

#[test]
fn items_carry_the_identity_of_source_and_url() {
    let items = parse("Lobsters", r#"[{"title": "T", "url": "https://example.com"}]"#).unwrap();
    let made = FeedItem::new(
        "other title".to_string(),
        "https://example.com".to_string(),
        "Lobsters".to_string(),
    );
    assert_eq!(items[0].id, made.id);
    assert_eq!(items[0].id.len(), 64);
}

#[test]
fn each_shape_has_its_reader() {
    let posts = r#"{"data": {"children": [
        {"data": {"title": "P", "url": "https://example.com/p", "link_flair_text": "Show"}}
    ]}}"#;
    let reddit = parse_reddit(posts, "any name").unwrap();
    assert_eq!(parse_reddit_at(posts, "any name", NOW).unwrap().items.len(), 1);
    assert_eq!(parse_json_feed_at("x", "[]", NOW).unwrap().items.len(), 0);
    assert_eq!(reddit.items.len(), 1);
    assert_eq!(reddit.items[0].tags, vec!["Show"]);
    assert_eq!(reddit.items[0].source, "any name");

    let stories = r#"[{"title": "S", "url": "https://example.com/s", "tags": ["a", "b", "a", 3, "b", "c"]}]"#;
    let lobsters = parse_lobsters(stories, "any name").unwrap();
    assert_eq!(lobsters.items[0].tags, vec!["a", "b", "c"]);
    assert!(parse_lobsters("{}", "any name").is_err());

    let generic = parse_generic_json(stories, "Lobsters").unwrap();
    assert_eq!(generic.items.len(), 1);
    assert!(generic.items[0].tags.is_empty());
    assert!(generic.items[0].timestamp.is_none());
    assert!(parse_generic_json("3", "x").is_err());
}

#[test]
fn each_reason_for_skipping_has_its_words() {
    let reasons = |source: &str, body: &str| -> Vec<String> {
        normalize(source, &FeedType::Json, body, NOW)
            .unwrap()
            .skipped
            .iter()
            .map(|s| format!("{}: {}", s.index, s.reason.message()))
            .collect()
    };
    assert_eq!(
        reasons("HN", r#"[1, "2", null, 4.5, {}]"#),
        vec![
            "1: invalid ID format",
            "2: invalid ID format",
            "3: invalid ID format",
            "4: invalid ID format"
        ]
    );
    assert_eq!(
        reasons("GitHub", r#"{"items": [{"name": []}, {"full_name": "a", "html_url": 3}]}"#),
        vec!["0: missing 'full_name' or 'name'", "1: missing 'html_url'"]
    );
    assert_eq!(
        reasons(
            "Reddit",
            r#"{"data": {"children": [3, {"data": {"url": "u"}}, {"data": {"title": "t"}}]}}"#
        ),
        vec!["0: missing 'data' field", "1: missing 'title'", "2: missing 'url'"]
    );
    assert_eq!(
        reasons("Lobsters", r#"[{"url": "u"}, {"title": "t", "comments_url": null}, "x"]"#),
        vec!["0: missing 'title'", "1: missing 'url' or 'comments_url'", "2: missing 'title'"]
    );
    assert_eq!(reasons("Blog", r#"[{"title": "t"}, {"url": 1}]"#), vec![
        "0: no URL field found",
        "1: no URL field found"
    ]);
}

#[test]
fn test_parse_hackernews_invalid_type() {
    let data = r#"{"not": "a list"}"#;
    let result = Parser::parse("HackerNews Top", "json", data);

    assert!(result.is_ok());
    let items = result.unwrap();
    assert_eq!(items.len(), 0);
}

#[test]
fn test_parse_rss_not_implemented() {
    let data = r#"<?xml version="1.0"?><rss><channel></channel></rss>"#;
    let result = Parser::parse("RSS Feed", "rss", data);

    assert!(result.is_err());
    let err = result.unwrap_err();
    assert!(err.contains("not yet implemented") || err.contains("RSS"));
}

#[test]
fn test_parse_atom_not_implemented() {
    let data = r#"<?xml version="1.0"?><feed></feed>"#;
    let result = Parser::parse("Atom Feed", "atom", data);

    assert!(result.is_err());
    let err = result.unwrap_err();
    assert!(err.contains("not yet implemented") || err.contains("Atom"));
}

#[test]
fn test_parse_unknown_feed_type() {
    let data = "some data";
    let result = Parser::parse("Unknown", "xml", data);

    assert!(result.is_err());
}

#[test]
fn test_parse_lobsters_empty_url_fallback() {
    let data = r#"[
        {
            "title": "Test",
            "url": "",
            "comments_url": "https://lobste.rs/s/test",
            "tags": []
        }
    ]"#;

    let result = Parser::parse("Lobsters", "json", data);
    assert!(result.is_ok());
    let items = result.unwrap();
    assert_eq!(items.len(), 1);
    assert_eq!(items[0].url, "https://lobste.rs/s/test");
}

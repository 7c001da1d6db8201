//! The schedule of a run and the results of its fetches.
use feedpulse::fetcher::{feed_result, Orchestrator};
use feedpulse::models::{FeedConfig, FeedResult, FeedType, FetchStatus};
use feedpulse::parser::SkipReason;
use feedpulse::retry::RetryState;

fn ok(name: &str) -> FeedResult {
    FeedResult::success(name.to_string(), vec![], 1)
}

fn failed(name: &str) -> FeedResult {
    FeedResult::failure(name.to_string(), "HTTP 500 after 3 retries".to_string(), 1)
}

fn feed(name: &str, feed_type: FeedType) -> FeedConfig {
    FeedConfig {
        name: name.to_string(),
        url: "https://example.com".to_string(),
        feed_type,
        refresh_interval_secs: 300,
        headers: vec![],
    }
}

#[test]
fn no_more_than_the_limit_are_in_flight() {
    let mut run = Orchestrator::new(10, 3);
    assert_eq!(run.len(), 10);
    assert_eq!(run.max_concurrency(), 3);
    let mut in_flight: Vec<usize> = vec![];
    let mut finished: Vec<usize> = vec![];
    let mut most = 0;
    while !run.is_finished() {
        while let Some(k) = run.dispatch() {
            in_flight.push(k);
            assert!(run.in_flight() <= 3);
        }
        assert_eq!(run.in_flight(), in_flight.len());
        most = most.max(run.in_flight());
        // The fetch that started last ends first.
        let k = in_flight.pop().unwrap();
        assert!(run.complete(k, ok(&format!("source {}", k))));
        finished.push(k);
    }
    assert_eq!(most, 3);
    assert_eq!(finished, vec![2, 3, 4, 5, 6, 7, 8, 9, 1, 0]);
    let results = run.results();
    assert_eq!(results.len(), 10);
    for (k, result) in results.iter().enumerate() {
        assert_eq!(result.source_name, format!("source {}", k));
    }
    assert_eq!(run.dispatch(), None);
    assert!(!run.is_cancelled());
}

#[test]
fn a_failing_source_frees_its_place_like_any_other() {
    let mut with_failure = Orchestrator::new(4, 2);
    let mut without = Orchestrator::new(4, 2);
    for run in [&mut with_failure, &mut without] {
        assert_eq!(run.dispatch(), Some(0));
        assert_eq!(run.dispatch(), Some(1));
        assert_eq!(run.dispatch(), None);
    }
    assert!(with_failure.complete(0, failed("A")));
    assert!(without.complete(0, ok("A")));
    for run in [&mut with_failure, &mut without] {
        assert_eq!(run.in_flight(), 1);
        assert_eq!(run.dispatch(), Some(2));
        assert!(run.complete(1, ok("B")));
        assert!(run.complete(2, ok("C")));
        assert_eq!(run.dispatch(), Some(3));
        assert!(run.complete(3, ok("D")));
        assert!(run.is_finished());
    }
    let statuses: Vec<FetchStatus> = with_failure.results().iter().map(|r| r.status).collect();
    assert_eq!(
        statuses,
        vec![FetchStatus::Error, FetchStatus::Success, FetchStatus::Success, FetchStatus::Success]
    );
    assert_eq!(without.results().len(), 4);
}

#[test]
fn only_a_fetch_in_flight_can_end() {
    let mut run = Orchestrator::new(2, 1);
    assert!(!run.complete(0, ok("A")));
    assert!(!run.complete(5, ok("A")));
    assert_eq!(run.dispatch(), Some(0));
    assert!(!run.complete(1, ok("B")));
    assert!(run.complete(0, ok("A")));
    assert!(!run.complete(0, ok("A again")));
    assert_eq!(run.results().len(), 1);
    assert_eq!(run.results()[0].source_name, "A");
    assert!(!run.is_finished());
}

#[test]
fn a_run_without_sources_is_finished() {
    let mut run = Orchestrator::new(0, 1);
    assert!(run.is_finished());
    assert_eq!(run.dispatch(), None);
    assert!(run.results().is_empty());
    run.cancel();
    assert!(run.is_cancelled());
}

#[test]
fn a_body_becomes_a_result() {
    let lobsters = feed("Lobsters", FeedType::Json);
    let body = r#"[{"title": "T", "url": "https://example.com/t"}, {"title": "no url"}]"#;
    let report =
        feed_result(&lobsters, RetryState::Success { body: body.to_string() }, 12, "now").unwrap();
    assert_eq!(report.result.source_name, "Lobsters");
    assert_eq!(report.result.status, FetchStatus::Success);
    assert_eq!(report.result.items.len(), 1);
    assert_eq!(report.result.duration_ms, 12);
    assert!(report.result.error_message.is_none());
    assert_eq!(report.skipped.len(), 1);
    assert_eq!(report.skipped[0].index, 1);
    assert_eq!(report.skipped[0].reason, SkipReason::MissingUrlOrCommentsUrl);

    let broken =
        feed_result(&lobsters, RetryState::Success { body: "{}".to_string() }, 3, "now").unwrap();
    assert_eq!(broken.result.status, FetchStatus::Error);
    assert!(broken.result.items.is_empty());
    assert_eq!(
        broken.result.error_message.as_deref(),
        Some("parse error: Lobsters: expected array")
    );
    let garbled =
        feed_result(&lobsters, RetryState::Success { body: "<html>".to_string() }, 3, "now")
            .unwrap();
    assert!(garbled
        .result
        .error_message
        .unwrap()
        .starts_with("parse error: malformed JSON: "));

    let rss = feed("News", FeedType::Rss);
    let refused =
        feed_result(&rss, RetryState::Success { body: "<rss/>".to_string() }, 3, "now").unwrap();
    assert_eq!(refused.result.status, FetchStatus::Error);
    assert!(refused.result.items.is_empty());
    assert_eq!(
        refused.result.error_message.as_deref(),
        Some("parse error: RSS feeds are not yet implemented")
    );
}

#[test]
fn a_failed_fetch_becomes_a_result_and_an_open_one_none() {
    let source = feed("A", FeedType::Json);
    let report = feed_result(
        &source,
        RetryState::Failed { error: "HTTP 404".to_string(), retries: 0 },
        40,
        "now",
    )
    .unwrap();
    assert_eq!(report.result.status, FetchStatus::Error);
    assert_eq!(report.result.error_message.as_deref(), Some("HTTP 404 after 0 retries"));
    assert!(report.result.items.is_empty());
    assert!(report.skipped.is_empty());
    assert!(feed_result(&source, RetryState::Attempting { attempt: 1 }, 1, "now").is_none());
    assert!(feed_result(&source, RetryState::Waiting { attempt: 1, delay_ms: 5 }, 1, "now").is_none());
    assert_eq!(FetchStatus::Success.as_str(), "success");
    assert_eq!(FetchStatus::Error.as_str(), "error");
}

//! Validation of configurations.
use feedpulse::config::{check_scheme, validate_config, validate_feed, validate_settings, ConfigError};
use feedpulse::models::{Config, FeedConfig, FeedType, Settings};

fn feed(name: &str, url: &str) -> FeedConfig {
    FeedConfig {
        name: name.to_string(),
        url: url.to_string(),
        feed_type: FeedType::Json,
        refresh_interval_secs: 300,
        headers: vec![],
    }
}

#[test]
fn test_validate_empty_name() {
    let feed = FeedConfig {
        name: "".to_string(),
        url: "https://example.com".to_string(),
        feed_type: FeedType::Json,
        refresh_interval_secs: 300,
        headers: vec![],
    };

    assert!(validate_feed(&feed).is_err());
}

#[test]
fn test_validate_missing_url() {
    let feed = FeedConfig {
        name: "Test Feed".to_string(),
        url: "".to_string(),
        feed_type: FeedType::Json,
        refresh_interval_secs: 300,
        headers: vec![],
    };

    let result = validate_feed(&feed);
    assert!(result.is_err());
    assert!(result.unwrap_err().message().contains("missing field 'url'"));
}

#[test]
fn test_validate_invalid_url() {
    let feed = FeedConfig {
        name: "Test Feed".to_string(),
        url: "not-a-url".to_string(),
        feed_type: FeedType::Json,
        refresh_interval_secs: 300,
        headers: vec![],
    };

    let result = validate_feed(&feed);
    assert!(result.is_err());
    assert!(result.unwrap_err().message().contains("invalid URL"));
}

#[test]
fn test_validate_non_http_url() {
    let feed = FeedConfig {
        name: "Test Feed".to_string(),
        url: "ftp://example.com".to_string(),
        feed_type: FeedType::Json,
        refresh_interval_secs: 300,
        headers: vec![],
    };

    let result = validate_feed(&feed);
    assert!(result.is_err());
    assert!(result.unwrap_err().message().contains("http or https"));
}

#[test]
fn test_validate_valid_feed() {
    let feed = FeedConfig {
        name: "Test Feed".to_string(),
        url: "https://example.com".to_string(),
        feed_type: FeedType::Json,
        refresh_interval_secs: 300,
        headers: vec![],
    };

    assert!(validate_feed(&feed).is_ok());
}

#[test]
fn test_validate_max_concurrency_bounds() {
    let mut config = Config {
        settings: Settings { max_concurrency: 0, ..Default::default() },
        feeds: vec![FeedConfig {
            name: "Test".to_string(),
            url: "https://example.com".to_string(),
            feed_type: FeedType::Json,
            refresh_interval_secs: 300,
            headers: vec![],
        }],
    };

    assert!(validate_settings(&config).is_err());

    config.settings.max_concurrency = 51;
    assert!(validate_settings(&config).is_err());

    config.settings.max_concurrency = 5;
    assert!(validate_settings(&config).is_ok());
}

#[test]
fn settings_have_their_defaults() {
    let settings = Settings::default();
    assert_eq!(settings.max_concurrency, 5);
    assert_eq!(settings.default_timeout_secs, 10);
    assert_eq!(settings.retry_max, 3);
    assert_eq!(settings.retry_base_delay_ms, 500);
    assert_eq!(settings.database_path, "feedpulse.db");
    assert_eq!(feedpulse::models::default_refresh_interval(), 300);
}

#[test]
fn each_fault_of_the_settings_has_its_message() {
    let with = |change: fn(&mut Settings)| {
        let mut config = Config { settings: Settings::default(), feeds: vec![] };
        change(&mut config.settings);
        validate_settings(&config).unwrap_err().message()
    };
    assert_eq!(
        with(|s| s.max_concurrency = 0),
        "settings: max_concurrency must be between 1 and 50, got 0"
    );
    assert_eq!(
        with(|s| s.max_concurrency = 100),
        "settings: max_concurrency must be between 1 and 50, got 100"
    );
    assert_eq!(
        with(|s| s.default_timeout_secs = 0),
        "settings: default_timeout_secs must be positive"
    );
    assert_eq!(
        with(|s| s.retry_base_delay_ms = 0),
        "settings: retry_base_delay_ms must be positive"
    );
    assert_eq!(
        with(|s| s.database_path = String::new()),
        "settings: database_path cannot be empty"
    );
    let bounds = |n: usize| {
        let mut config = Config { settings: Settings::default(), feeds: vec![] };
        config.settings.max_concurrency = n;
        validate_settings(&config).is_ok()
    };
    assert!(bounds(1));
    assert!(bounds(50));
    assert!(!bounds(51));
}

#[test]
fn each_fault_of_a_feed_has_its_message() {
    let message = |f: FeedConfig| validate_feed(&f).unwrap_err().message();
    assert_eq!(message(feed("  \t", "https://example.com")), "feed: name cannot be empty");
    assert_eq!(message(feed("A", "   ")), "feed 'A': missing field 'url'");
    assert_eq!(message(feed("A", "not-a-url")), "feed 'A': invalid URL 'not-a-url'");
    assert_eq!(
        message(feed("A", "ftp://example.com")),
        "feed 'A': URL must use http or https scheme, got 'ftp'"
    );
    let mut stale = feed("A", "http://example.com");
    stale.refresh_interval_secs = 0;
    assert_eq!(message(stale), "feed 'A': refresh_interval_secs must be positive");
    let mut twice = feed("A", "http://example.com");
    twice.headers = vec![
        ("Accept".to_string(), "a".to_string()),
        ("User-Agent".to_string(), "b".to_string()),
        ("Accept".to_string(), "c".to_string()),
    ];
    assert_eq!(message(twice), "feed 'A': header 'Accept' occurs twice");
}

#[test]
fn valid_urls_pass() {
    for url in [
        "https://example.com",
        "http://example.com",
        "https://example.com/path?query=1",
        "https://example.com:8080/path",
        "HTTPS://EXAMPLE.COM",
    ] {
        assert!(validate_feed(&feed("Test", url)).is_ok(), "Should accept valid URL: {}", url);
    }
    let mut with_headers = feed("Test", "https://example.com");
    with_headers.headers = vec![
        ("Accept".to_string(), "a".to_string()),
        ("accept".to_string(), "b".to_string()),
    ];
    assert!(validate_feed(&with_headers).is_ok());
}

#[test]
fn scheme_is_judged_as_it_was_read() {
    assert!(check_scheme("A", "u", Some("http".to_string())).is_ok());
    assert!(check_scheme("A", "u", Some("https".to_string())).is_ok());
    assert!(matches!(
        check_scheme("A", "u", Some("HTTP".to_string())),
        Err(ConfigError::UnsupportedScheme { .. })
    ));
    assert!(matches!(check_scheme("A", "u", None), Err(ConfigError::InvalidUrl { .. })));
}

#[test]
fn first_fault_of_a_configuration_is_reported() {
    let mut config = Config { settings: Settings::default(), feeds: vec![] };
    assert_eq!(
        validate_config(&config).unwrap_err().message(),
        "config must contain at least one feed"
    );
    config.feeds = vec![
        feed("A", "https://example.com/a"),
        feed("B", "gopher://example.com/b"),
        feed("", "https://example.com/c"),
    ];
    assert_eq!(
        validate_config(&config).unwrap_err().message(),
        "feed 'B': URL must use http or https scheme, got 'gopher'"
    );
    config.settings.default_timeout_secs = 0;
    assert_eq!(
        validate_config(&config).unwrap_err().message(),
        "settings: default_timeout_secs must be positive"
    );
    config.settings.default_timeout_secs = 10;
    config.feeds.remove(1);
    assert_eq!(validate_config(&config).unwrap_err().message(), "feed: name cannot be empty");
    config.feeds.remove(1);
    assert!(validate_config(&config).is_ok());
    let copy = config.clone();
    assert_eq!(copy.feeds.len(), 1);
    assert_eq!(copy.feeds[0].name, "A");
    assert_eq!(copy.settings.database_path, "feedpulse.db");
}

//! Validation of a configuration.
//!
//! The settings are checked first, then that there is a source at all, then
//! each source in order; the first fault found is the one reported.

use crate::models::{
    distinct_names, header_views, Config, ConfigView, FeedConfig, FeedConfigView, SettingsView,
};
use crate::text::{blank, decimal, is_blank, opt_text, push_decimal, same_text};
use vstd::prelude::*;
use vstd::string::StringExecFns;

verus! {

/// The scheme of the URL that `text` denotes; there is none where `text` is
/// no URL.
pub uninterp spec fn url_scheme(text: Seq<char>) -> Option<Seq<char>>;

/// `url::Url::parse`, and the `scheme` of the URL it gives.
#[verifier::external_body]
fn parse_scheme(text: &str) -> (r: Option<String>)
    ensures
        opt_text(r) == url_scheme(text@),
{
    url::Url::parse(text).ok().map(|u| u.scheme().to_string())
}

/// What is wrong with a configuration.
#[derive(Debug)]
pub enum ConfigError {
    /// `max_concurrency` is not between 1 and 50; with its value.
    MaxConcurrencyOutOfRange(usize),
    /// `default_timeout_secs` is 0.
    TimeoutNotPositive,
    /// `retry_base_delay_ms` is 0.
    RetryDelayNotPositive,
    /// `database_path` is empty.
    EmptyDatabasePath,
    /// The configuration names no source.
    NoFeeds,
    /// A source has a blank name.
    EmptyFeedName,
    /// The source `feed` has a blank URL.
    MissingUrl { feed: String },
    /// The URL of the source `feed` is no URL.
    InvalidUrl { feed: String, url: String },
    /// The URL of the source `feed` has a scheme other than `http` and
    /// `https`.
    UnsupportedScheme { feed: String, scheme: String },
    /// The source `feed` has a refresh interval of 0.
    RefreshIntervalNotPositive { feed: String },
    /// The source `feed` names the request header `header` twice.
    DuplicateHeader { feed: String, header: String },
}

/// The mathematical value of a [`ConfigError`].
pub enum ConfigErrorView {
    MaxConcurrencyOutOfRange(usize),
    TimeoutNotPositive,
    RetryDelayNotPositive,
    EmptyDatabasePath,
    NoFeeds,
    EmptyFeedName,
    MissingUrl { feed: Seq<char> },
    InvalidUrl { feed: Seq<char>, url: Seq<char> },
    UnsupportedScheme { feed: Seq<char>, scheme: Seq<char> },
    RefreshIntervalNotPositive { feed: Seq<char> },
    DuplicateHeader { feed: Seq<char>, header: Seq<char> },
}

impl View for ConfigError {
    type V = ConfigErrorView;

    open spec fn view(&self) -> ConfigErrorView {
        match self {
            ConfigError::MaxConcurrencyOutOfRange(n) => ConfigErrorView::MaxConcurrencyOutOfRange(*n),
            ConfigError::TimeoutNotPositive => ConfigErrorView::TimeoutNotPositive,
            ConfigError::RetryDelayNotPositive => ConfigErrorView::RetryDelayNotPositive,
            ConfigError::EmptyDatabasePath => ConfigErrorView::EmptyDatabasePath,
            ConfigError::NoFeeds => ConfigErrorView::NoFeeds,
            ConfigError::EmptyFeedName => ConfigErrorView::EmptyFeedName,
            ConfigError::MissingUrl { feed } => ConfigErrorView::MissingUrl { feed: feed@ },
            ConfigError::InvalidUrl { feed, url } => ConfigErrorView::InvalidUrl {
                feed: feed@,
                url: url@,
            },
            ConfigError::UnsupportedScheme { feed, scheme } => ConfigErrorView::UnsupportedScheme {
                feed: feed@,
                scheme: scheme@,
            },
            ConfigError::RefreshIntervalNotPositive {
                feed,
            } => ConfigErrorView::RefreshIntervalNotPositive { feed: feed@ },
            ConfigError::DuplicateHeader { feed, header } => ConfigErrorView::DuplicateHeader {
                feed: feed@,
                header: header@,
            },
        }
    }
}

impl ConfigErrorView {
    /// The error in words.
    pub open spec fn text(self) -> Seq<char> {
        match self {
            ConfigErrorView::MaxConcurrencyOutOfRange(n) => "settings: max_concurrency must be between 1 and 50, got "@
                + decimal(n as nat),
            ConfigErrorView::TimeoutNotPositive => "settings: default_timeout_secs must be positive"@,
            ConfigErrorView::RetryDelayNotPositive => "settings: retry_base_delay_ms must be positive"@,
            ConfigErrorView::EmptyDatabasePath => "settings: database_path cannot be empty"@,
            ConfigErrorView::NoFeeds => "config must contain at least one feed"@,
            ConfigErrorView::EmptyFeedName => "feed: name cannot be empty"@,
            ConfigErrorView::MissingUrl { feed } => "feed '"@ + feed + "': missing field 'url'"@,
            ConfigErrorView::InvalidUrl { feed, url } => "feed '"@ + feed + "': invalid URL '"@ + url
                + "'"@,
            ConfigErrorView::UnsupportedScheme { feed, scheme } => "feed '"@ + feed
                + "': URL must use http or https scheme, got '"@ + scheme + "'"@,
            ConfigErrorView::RefreshIntervalNotPositive { feed } => "feed '"@ + feed
                + "': refresh_interval_secs must be positive"@,
            ConfigErrorView::DuplicateHeader { feed, header } => "feed '"@ + feed + "': header '"@
                + header + "' occurs twice"@,
        }
    }
}

impl ConfigError {
    /// The error in words.
    pub fn message(&self) -> (s: String)
        ensures
            s@ == self@.text(),
    {
        match self {
            ConfigError::MaxConcurrencyOutOfRange(n) => {
                let mut s = "settings: max_concurrency must be between 1 and 50, got ".to_string();
                push_decimal(&mut s, *n as u64);
                s
            },
            ConfigError::TimeoutNotPositive => "settings: default_timeout_secs must be positive".to_string(),
            ConfigError::RetryDelayNotPositive => "settings: retry_base_delay_ms must be positive".to_string(),
            ConfigError::EmptyDatabasePath => "settings: database_path cannot be empty".to_string(),
            ConfigError::NoFeeds => "config must contain at least one feed".to_string(),
            ConfigError::EmptyFeedName => "feed: name cannot be empty".to_string(),
            ConfigError::MissingUrl { feed } => {
                let mut s = "feed '".to_string();
                s.append(feed.as_str());
                s.append("': missing field 'url'");
                s
            },
            ConfigError::InvalidUrl { feed, url } => {
                let mut s = "feed '".to_string();
                s.append(feed.as_str());
                s.append("': invalid URL '");
                s.append(url.as_str());
                s.append("'");
                s
            },
            ConfigError::UnsupportedScheme { feed, scheme } => {
                let mut s = "feed '".to_string();
                s.append(feed.as_str());
                s.append("': URL must use http or https scheme, got '");
                s.append(scheme.as_str());
                s.append("'");
                s
            },
            ConfigError::RefreshIntervalNotPositive { feed } => {
                let mut s = "feed '".to_string();
                s.append(feed.as_str());
                s.append("': refresh_interval_secs must be positive");
                s
            },
            ConfigError::DuplicateHeader { feed, header } => {
                let mut s = "feed '".to_string();
                s.append(feed.as_str());
                s.append("': header '");
                s.append(header.as_str());
                s.append("' occurs twice");
                s
            },
        }
    }
}

/// The value of the result of a validation.
pub open spec fn verdict(r: Result<(), ConfigError>) -> Result<(), ConfigErrorView> {
    match r {
        Ok(()) => Ok(()),
        Err(e) => Err(e@),
    }
}

/// What is wrong with the settings, if anything: the number of concurrent
/// fetches lies between 1 and 50, the timeout and the base delay of retries
/// are positive, and the store has a place.
pub open spec fn settings_verdict(settings: SettingsView) -> Result<(), ConfigErrorView> {
    if settings.max_concurrency < 1 || settings.max_concurrency > 50 {
        Err(ConfigErrorView::MaxConcurrencyOutOfRange(settings.max_concurrency))
    } else if settings.default_timeout_secs == 0 {
        Err(ConfigErrorView::TimeoutNotPositive)
    } else if settings.retry_base_delay_ms == 0 {
        Err(ConfigErrorView::RetryDelayNotPositive)
    } else if settings.database_path.len() == 0 {
        Err(ConfigErrorView::EmptyDatabasePath)
    } else {
        Ok(())
    }
}

/// What is wrong with the scheme of the URL of the source `feed`, if
/// anything: the URL must be one, with the scheme `http` or `https`.
pub open spec fn scheme_verdict(feed: Seq<char>, url: Seq<char>, scheme: Option<Seq<char>>) -> Result<
    (),
    ConfigErrorView,
> {
    match scheme {
        None => Err(ConfigErrorView::InvalidUrl { feed, url }),
        Some(s) => if s == "http"@ || s == "https"@ {
            Ok(())
        } else {
            Err(ConfigErrorView::UnsupportedScheme { feed, scheme: s })
        },
    }
}

/// The first header name that occurs again later among the headers, if one
/// does: the name at the least position that has a later twin.
pub open spec fn first_repeated(headers: Seq<(Seq<char>, Seq<char>)>, from: int) -> Option<
    Seq<char>,
>
    decreases headers.len() - from,
{
    if from < 0 || from >= headers.len() {
        None
    } else if exists|j: int| from < j < headers.len() && (#[trigger] headers[j]).0 == headers[from].0 {
        Some(headers[from].0)
    } else {
        first_repeated(headers, from + 1)
    }
}

/// What is wrong with a source, if anything: its name and its URL are not
/// blank, the URL is an `http` or `https` URL, the refresh interval is
/// positive, and no header is named twice.
pub open spec fn feed_verdict(feed: FeedConfigView) -> Result<(), ConfigErrorView> {
    if is_blank(feed.name) {
        Err(ConfigErrorView::EmptyFeedName)
    } else if is_blank(feed.url) {
        Err(ConfigErrorView::MissingUrl { feed: feed.name })
    } else if scheme_verdict(feed.name, feed.url, url_scheme(feed.url)) is Err {
        scheme_verdict(feed.name, feed.url, url_scheme(feed.url))
    } else if feed.refresh_interval_secs == 0 {
        Err(ConfigErrorView::RefreshIntervalNotPositive { feed: feed.name })
    } else {
        match first_repeated(feed.headers, 0) {
            Some(header) => Err(ConfigErrorView::DuplicateHeader { feed: feed.name, header }),
            None => Ok(()),
        }
    }
}

/// What is wrong with the first faulty source from position `from` on, if
/// any is faulty.
pub open spec fn feeds_verdict(feeds: Seq<FeedConfigView>, from: int) -> Result<(), ConfigErrorView>
    decreases feeds.len() - from,
{
    if from < 0 || from >= feeds.len() {
        Ok(())
    } else if feed_verdict(feeds[from]) is Err {
        feed_verdict(feeds[from])
    } else {
        feeds_verdict(feeds, from + 1)
    }
}

/// What is wrong with a configuration, if anything.
pub open spec fn config_verdict(config: ConfigView) -> Result<(), ConfigErrorView> {
    if settings_verdict(config.settings) is Err {
        settings_verdict(config.settings)
    } else if config.feeds.len() == 0 {
        Err(ConfigErrorView::NoFeeds)
    } else {
        feeds_verdict(config.feeds, 0)
    }
}

/// A list of headers passes exactly when its names are distinct.
pub proof fn lemma_first_repeated(headers: Seq<(Seq<char>, Seq<char>)>, from: int)
    requires
        0 <= from <= headers.len(),
    ensures
        first_repeated(headers, from) is None <==> forall|i: int, j: int|
            from <= i < j < headers.len() ==> (#[trigger] headers[i]).0 != (#[trigger] headers[j]).0,
        from == 0 ==> (first_repeated(headers, 0) is None <==> distinct_names(headers)),
    decreases headers.len() - from,
{
    if from < headers.len() {
        lemma_first_repeated(headers, from + 1);
        if exists|j: int| from < j < headers.len() && (#[trigger] headers[j]).0 == headers[from].0 {
            let j = choose|j: int|
                from < j < headers.len() && (#[trigger] headers[j]).0 == headers[from].0;
            assert(headers[from].0 == headers[j].0);
        }
    }
}

/// A configuration that passes has sound settings and at least one source,
/// and every source of it passes.
pub proof fn lemma_valid_config(config: ConfigView)
    requires
        config_verdict(config) is Ok,
    ensures
        1 <= config.settings.max_concurrency <= 50,
        config.settings.default_timeout_secs > 0,
        config.settings.retry_base_delay_ms > 0,
        config.settings.database_path.len() > 0,
        config.feeds.len() > 0,
        forall|i: int| 0 <= i < config.feeds.len() ==> feed_verdict(#[trigger] config.feeds[i]) is Ok,
{
    lemma_feeds_pass(config.feeds, 0);
}

/// Where no source from `from` on is faulty, each of them passes.
proof fn lemma_feeds_pass(feeds: Seq<FeedConfigView>, from: int)
    requires
        0 <= from <= feeds.len(),
        feeds_verdict(feeds, from) is Ok,
    ensures
        forall|i: int| from <= i < feeds.len() ==> feed_verdict(#[trigger] feeds[i]) is Ok,
    decreases feeds.len() - from,
{
    if from < feeds.len() {
        lemma_feeds_pass(feeds, from + 1);
    }
}

/// Checks the settings of a configuration.
pub fn validate_settings(config: &Config) -> (r: Result<(), ConfigError>)
    ensures
        verdict(r) == settings_verdict(config@.settings),
{
    let settings = &config.settings;
    if settings.max_concurrency < 1 || settings.max_concurrency > 50 {
        return Err(ConfigError::MaxConcurrencyOutOfRange(settings.max_concurrency));
    }
    if settings.default_timeout_secs == 0 {
        return Err(ConfigError::TimeoutNotPositive);
    }
    if settings.retry_base_delay_ms == 0 {
        return Err(ConfigError::RetryDelayNotPositive);
    }
    if settings.database_path.as_str().is_empty() {
        return Err(ConfigError::EmptyDatabasePath);
    }
    Ok(())
}

/// Checks the scheme that was read from the URL `url` of the source `feed`:
/// there must be one, and it must be `http` or `https`.
pub fn check_scheme(feed: &str, url: &str, scheme: Option<String>) -> (r: Result<(), ConfigError>)
    ensures
        verdict(r) == scheme_verdict(feed@, url@, opt_text(scheme)),
{
    match scheme {
        None => Err(ConfigError::InvalidUrl { feed: feed.to_string(), url: url.to_string() }),
        Some(s) => {
            if same_text(s.as_str(), "http") || same_text(s.as_str(), "https") {
                Ok(())
            } else {
                Err(ConfigError::UnsupportedScheme { feed: feed.to_string(), scheme: s })
            }
        },
    }
}

/// The first header name that occurs again later among the headers.
fn find_repeated(headers: &Vec<(String, String)>) -> (r: Option<String>)
    ensures
        opt_text(r) == first_repeated(header_views(headers@), 0),
{
    let ghost all = header_views(headers@);
    let mut i: usize = 0;
    while i < headers.len()
        invariant
            all == header_views(headers@),
            0 <= i <= headers@.len(),
            first_repeated(all, 0) == first_repeated(all, i as int),
        decreases headers@.len() - i,
    {
        let mut j: usize = i + 1;
        while j < headers.len()
            invariant
                all == header_views(headers@),
                i < j <= headers@.len(),
                first_repeated(all, 0) == first_repeated(all, i as int),
                forall|k: int| i < k < j ==> (#[trigger] all[k]).0 != all[i as int].0,
            decreases headers@.len() - j,
        {
            if same_text(headers[j].0.as_str(), headers[i].0.as_str()) {
                assert(all[j as int].0 == all[i as int].0);
                return Some(headers[i].0.clone());
            }
            j = j + 1;
        }
        i = i + 1;
    }
    None
}

/// Checks one source.
pub fn validate_feed(feed: &FeedConfig) -> (r: Result<(), ConfigError>)
    ensures
        verdict(r) == feed_verdict(feed@),
{
    if blank(feed.name.as_str()) {
        return Err(ConfigError::EmptyFeedName);
    }
    if blank(feed.url.as_str()) {
        return Err(ConfigError::MissingUrl { feed: feed.name.clone() });
    }
    let scheme = parse_scheme(feed.url.as_str());
    match check_scheme(feed.name.as_str(), feed.url.as_str(), scheme) {
        Err(e) => {
            return Err(e);
        },
        Ok(()) => {},
    }
    if feed.refresh_interval_secs == 0 {
        return Err(ConfigError::RefreshIntervalNotPositive { feed: feed.name.clone() });
    }
    match find_repeated(&feed.headers) {
        Some(header) => Err(ConfigError::DuplicateHeader { feed: feed.name.clone(), header }),
        None => Ok(()),
    }
}

/// Checks a whole configuration: the settings, that there is a source, and
/// each source in order. The first fault found is reported.
pub fn validate_config(config: &Config) -> (r: Result<(), ConfigError>)
    ensures
        verdict(r) == config_verdict(config@),
{
    match validate_settings(config) {
        Err(e) => {
            return Err(e);
        },
        Ok(()) => {},
    }
    if config.feeds.len() == 0 {
        return Err(ConfigError::NoFeeds);
    }
    let ghost feeds = config@.feeds;
    let mut i: usize = 0;
    while i < config.feeds.len()
        invariant
            feeds == config@.feeds,
            0 <= i <= config.feeds@.len(),
            config_verdict(config@) == feeds_verdict(feeds, 0),
            feeds_verdict(feeds, 0) == feeds_verdict(feeds, i as int),
        decreases config.feeds@.len() - i,
    {
        assert(feeds[i as int] == config.feeds@[i as int]@);
        match validate_feed(&config.feeds[i]) {
            Err(e) => {
                return Err(e);
            },
            Ok(()) => {},
        }
        i = i + 1;
    }
    Ok(())
}

} // verus!

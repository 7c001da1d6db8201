//! The data that flows through a run: configured sources, normalized items,
//! per-source fetch results and per-source report entries.

use crate::identity::{generate_id, identity};
use crate::text::{copy_opt_text, copy_texts, opt_text, texts};
use vstd::prelude::*;

verus! {

/// A normalized feed item.
///
/// Two items are the same logical item when their `source` and `url` agree;
/// `id` is derived from those two fields. The other fields may change from one
/// fetch to the next.
#[derive(Debug)]
pub struct FeedItem {
    /// Identifier derived from `source` and `url`.
    pub id: String,
    /// Item title.
    pub title: String,
    /// Link to the item at its source.
    pub url: String,
    /// Name of the source that produced the item.
    pub source: String,
    /// ISO 8601 date and time, where the source gave one.
    pub timestamp: Option<String>,
    /// Tags, in the order the source gave them.
    pub tags: Vec<String>,
    /// The source's own record of the item.
    pub raw_data: Option<String>,
}

/// The mathematical value of a [`FeedItem`].
pub struct FeedItemView {
    pub id: Seq<char>,
    pub title: Seq<char>,
    pub url: Seq<char>,
    pub source: Seq<char>,
    pub timestamp: Option<Seq<char>>,
    pub tags: Seq<Seq<char>>,
    pub raw_data: Option<Seq<char>>,
}

impl View for FeedItem {
    type V = FeedItemView;

    open spec fn view(&self) -> FeedItemView {
        FeedItemView {
            id: self.id@,
            title: self.title@,
            url: self.url@,
            source: self.source@,
            timestamp: opt_text(self.timestamp),
            tags: texts(self.tags@),
            raw_data: opt_text(self.raw_data),
        }
    }
}

impl Clone for FeedItem {
    fn clone(&self) -> (r: Self)
        ensures
            r@ == self@,
    {
        FeedItem {
            id: self.id.clone(),
            title: self.title.clone(),
            url: self.url.clone(),
            source: self.source.clone(),
            timestamp: copy_opt_text(&self.timestamp),
            tags: copy_texts(&self.tags),
            raw_data: copy_opt_text(&self.raw_data),
        }
    }
}

impl FeedItemView {
    /// The identifier is the one that the source and the URL give.
    pub open spec fn has_identity(self) -> bool {
        self.id == identity(self.source, self.url)
    }
}

impl FeedItem {
    /// The item of `source` at `url` with the given title, and with nothing
    /// else known of it: no time, no tags, no record. Its identifier is the
    /// one that the source and the URL give.
    pub fn new(title: String, url: String, source: String) -> (item: FeedItem)
        ensures
            item@ == (FeedItemView {
                id: identity(source@, url@),
                title: title@,
                url: url@,
                source: source@,
                timestamp: None,
                tags: Seq::empty(),
                raw_data: None,
            }),
            item@.has_identity(),
    {
        let id = generate_id(source.as_str(), url.as_str());
        let item = FeedItem {
            id,
            title,
            url,
            source,
            timestamp: None,
            tags: Vec::new(),
            raw_data: None,
        };
        assert(texts(item.tags@) =~= Seq::empty());
        item
    }
}

/// The values of a sequence of items.
pub open spec fn item_views(v: Seq<FeedItem>) -> Seq<FeedItemView> {
    Seq::new(v.len(), |i: int| v[i]@)
}

/// A copy of a list of items.
pub fn copy_items(v: &Vec<FeedItem>) -> (r: Vec<FeedItem>)
    ensures
        item_views(r@) == item_views(v@),
{
    let mut r: Vec<FeedItem> = Vec::new();
    let mut i: usize = 0;
    while i < v.len()
        invariant
            0 <= i <= v@.len(),
            r@.len() == i,
            forall|j: int| 0 <= j < i ==> r@[j]@ == v@[j]@,
        decreases v@.len() - i,
    {
        r.push(v[i].clone());
        i = i + 1;
    }
    assert(item_views(r@) =~= item_views(v@));
    r
}

/// How the fetch of one source ended.
#[derive(Debug, Clone, Copy, PartialEq, Eq, Structural)]
pub enum FetchStatus {
    Success,
    Error,
}

impl FetchStatus {
    /// The word under which the status is recorded in the fetch log.
    pub open spec fn word(self) -> Seq<char> {
        match self {
            FetchStatus::Success => "success"@,
            FetchStatus::Error => "error"@,
        }
    }

    /// The word under which the status is recorded in the fetch log:
    /// `success` or `error`.
    pub fn as_str(&self) -> (s: &'static str)
        ensures
            s@ == self.word(),
    {
        match self {
            FetchStatus::Success => "success",
            FetchStatus::Error => "error",
        }
    }
}

/// The result of fetching and normalizing one source in one run.
#[derive(Debug)]
pub struct FeedResult {
    /// Name of the source.
    pub source_name: String,
    /// Whether the fetch succeeded.
    pub status: FetchStatus,
    /// The normalized items, in the order of the response; empty on failure.
    pub items: Vec<FeedItem>,
    /// Time the fetch took, in milliseconds.
    pub duration_ms: u64,
    /// What went wrong; present exactly on failure.
    pub error_message: Option<String>,
}

/// The mathematical value of a [`FeedResult`].
pub struct FeedResultView {
    pub source_name: Seq<char>,
    pub status: FetchStatus,
    pub items: Seq<FeedItemView>,
    pub duration_ms: u64,
    pub error_message: Option<Seq<char>>,
}

impl FeedResultView {
    /// A failed fetch carries no items, and an error description is present
    /// exactly when the fetch failed.
    pub open spec fn well_formed(self) -> bool {
        &&& self.status == FetchStatus::Error ==> self.items.len() == 0
        &&& self.error_message is Some <==> self.status == FetchStatus::Error
    }
}

impl View for FeedResult {
    type V = FeedResultView;

    open spec fn view(&self) -> FeedResultView {
        FeedResultView {
            source_name: self.source_name@,
            status: self.status,
            items: item_views(self.items@),
            duration_ms: self.duration_ms,
            error_message: opt_text(self.error_message),
        }
    }
}

impl Clone for FeedResult {
    fn clone(&self) -> (r: Self)
        ensures
            r@ == self@,
    {
        FeedResult {
            source_name: self.source_name.clone(),
            status: self.status,
            items: copy_items(&self.items),
            duration_ms: self.duration_ms,
            error_message: copy_opt_text(&self.error_message),
        }
    }
}

impl FeedResult {
    /// The result of a fetch that succeeded with `items`.
    pub fn success(source_name: String, items: Vec<FeedItem>, duration_ms: u64) -> (r: FeedResult)
        ensures
            r@ == (FeedResultView {
                source_name: source_name@,
                status: FetchStatus::Success,
                items: item_views(items@),
                duration_ms,
                error_message: None,
            }),
            r@.well_formed(),
    {
        FeedResult {
            source_name,
            status: FetchStatus::Success,
            items,
            duration_ms,
            error_message: None,
        }
    }

    /// The result of a fetch that failed for the reason `error`.
    pub fn failure(source_name: String, error: String, duration_ms: u64) -> (r: FeedResult)
        ensures
            r@ == (FeedResultView {
                source_name: source_name@,
                status: FetchStatus::Error,
                items: Seq::empty(),
                duration_ms,
                error_message: Some(error@),
            }),
            r@.well_formed(),
    {
        let r = FeedResult {
            source_name,
            status: FetchStatus::Error,
            items: Vec::new(),
            duration_ms,
            error_message: Some(error),
        };
        assert(item_views(r.items@) =~= Seq::empty());
        r
    }
}

/// The values of a sequence of results.
pub open spec fn result_views(v: Seq<FeedResult>) -> Seq<FeedResultView> {
    Seq::new(v.len(), |i: int| v[i]@)
}

/// The format a source answers in.
#[derive(Debug, Clone, Copy, PartialEq, Eq, Structural)]
pub enum FeedType {
    Json,
    Rss,
    Atom,
}

/// One configured source.
#[derive(Debug)]
pub struct FeedConfig {
    /// Name of the source; not blank, and unique among the sources.
    pub name: String,
    /// Endpoint, an `http` or `https` URL.
    pub url: String,
    /// Format of the response.
    pub feed_type: FeedType,
    /// Seconds between two fetches; recorded, not enforced.
    pub refresh_interval_secs: u64,
    /// Request headers, as pairs of name and value; each name occurs once.
    pub headers: Vec<(String, String)>,
}

/// The mathematical value of a [`FeedConfig`].
pub struct FeedConfigView {
    pub name: Seq<char>,
    pub url: Seq<char>,
    pub feed_type: FeedType,
    pub refresh_interval_secs: u64,
    pub headers: Seq<(Seq<char>, Seq<char>)>,
}

/// The values of a sequence of header pairs.
pub open spec fn header_views(v: Seq<(String, String)>) -> Seq<(Seq<char>, Seq<char>)> {
    Seq::new(v.len(), |i: int| (v[i].0@, v[i].1@))
}

/// No header name occurs twice.
pub open spec fn distinct_names(headers: Seq<(Seq<char>, Seq<char>)>) -> bool {
    forall|i: int, j: int|
        0 <= i < j < headers.len() ==> (#[trigger] headers[i]).0 != (#[trigger] headers[j]).0
}

impl View for FeedConfig {
    type V = FeedConfigView;

    open spec fn view(&self) -> FeedConfigView {
        FeedConfigView {
            name: self.name@,
            url: self.url@,
            feed_type: self.feed_type,
            refresh_interval_secs: self.refresh_interval_secs,
            headers: header_views(self.headers@),
        }
    }
}

impl Clone for FeedConfig {
    fn clone(&self) -> (r: Self)
        ensures
            r@ == self@,
    {
        let mut headers: Vec<(String, String)> = Vec::new();
        let mut i: usize = 0;
        while i < self.headers.len()
            invariant
                0 <= i <= self.headers@.len(),
                headers@.len() == i,
                forall|j: int|
                    0 <= j < i ==> headers@[j].0@ == self.headers@[j].0@ && headers@[j].1@
                        == self.headers@[j].1@,
            decreases self.headers@.len() - i,
        {
            headers.push((self.headers[i].0.clone(), self.headers[i].1.clone()));
            i = i + 1;
        }
        assert(header_views(headers@) =~= header_views(self.headers@));
        FeedConfig {
            name: self.name.clone(),
            url: self.url.clone(),
            feed_type: self.feed_type,
            refresh_interval_secs: self.refresh_interval_secs,
            headers,
        }
    }
}

/// The values of a sequence of source configurations.
pub open spec fn feed_views(v: Seq<FeedConfig>) -> Seq<FeedConfigView> {
    Seq::new(v.len(), |i: int| v[i]@)
}

/// Settings that hold for every source.
#[derive(Debug)]
pub struct Settings {
    /// Most fetches that may be in flight at once, from 1 to 50.
    pub max_concurrency: usize,
    /// Seconds after which an attempt is given up; positive.
    pub default_timeout_secs: u64,
    /// Retries after the first attempt.
    pub retry_max: u32,
    /// Delay before the first retry, in milliseconds; positive.
    pub retry_base_delay_ms: u64,
    /// Where the store is kept; not empty.
    pub database_path: String,
}

/// The mathematical value of [`Settings`].
pub struct SettingsView {
    pub max_concurrency: usize,
    pub default_timeout_secs: u64,
    pub retry_max: u32,
    pub retry_base_delay_ms: u64,
    pub database_path: Seq<char>,
}

impl View for Settings {
    type V = SettingsView;

    open spec fn view(&self) -> SettingsView {
        SettingsView {
            max_concurrency: self.max_concurrency,
            default_timeout_secs: self.default_timeout_secs,
            retry_max: self.retry_max,
            retry_base_delay_ms: self.retry_base_delay_ms,
            database_path: self.database_path@,
        }
    }
}

impl Clone for Settings {
    fn clone(&self) -> (r: Self)
        ensures
            r@ == self@,
    {
        Settings {
            max_concurrency: self.max_concurrency,
            default_timeout_secs: self.default_timeout_secs,
            retry_max: self.retry_max,
            retry_base_delay_ms: self.retry_base_delay_ms,
            database_path: self.database_path.clone(),
        }
    }
}

/// Seconds between two fetches of a source that names none.
pub fn default_refresh_interval() -> (r: u64)
    ensures
        r == 300,
{
    300
}

/// Fetches in flight at once where the settings name no limit.
pub fn default_max_concurrency() -> (r: usize)
    ensures
        r == 5,
{
    5
}

/// Seconds given to one attempt where the settings name none.
pub fn default_timeout() -> (r: u64)
    ensures
        r == 10,
{
    10
}

/// Retries where the settings name none.
pub fn default_retry_max() -> (r: u32)
    ensures
        r == 3,
{
    3
}

/// Milliseconds before the first retry where the settings name none.
pub fn default_retry_base_delay() -> (r: u64)
    ensures
        r == 500,
{
    500
}

/// Where the store is kept where the settings name no place.
pub fn default_database_path() -> (r: String)
    ensures
        r@ == "feedpulse.db"@,
{
    "feedpulse.db".to_string()
}

impl Default for Settings {
    fn default() -> (r: Self)
        ensures
            r@ == (SettingsView {
                max_concurrency: 5,
                default_timeout_secs: 10,
                retry_max: 3,
                retry_base_delay_ms: 500,
                database_path: "feedpulse.db"@,
            }),
    {
        Settings {
            max_concurrency: default_max_concurrency(),
            default_timeout_secs: default_timeout(),
            retry_max: default_retry_max(),
            retry_base_delay_ms: default_retry_base_delay(),
            database_path: default_database_path(),
        }
    }
}

/// The whole configuration of a run.
#[derive(Debug)]
pub struct Config {
    pub settings: Settings,
    pub feeds: Vec<FeedConfig>,
}

/// The mathematical value of a [`Config`].
pub struct ConfigView {
    pub settings: SettingsView,
    pub feeds: Seq<FeedConfigView>,
}

impl View for Config {
    type V = ConfigView;

    open spec fn view(&self) -> ConfigView {
        ConfigView { settings: self.settings@, feeds: feed_views(self.feeds@) }
    }
}

impl Clone for Config {
    fn clone(&self) -> (r: Self)
        ensures
            r@ == self@,
    {
        let mut feeds: Vec<FeedConfig> = Vec::new();
        let mut i: usize = 0;
        while i < self.feeds.len()
            invariant
                0 <= i <= self.feeds@.len(),
                feeds@.len() == i,
                forall|j: int| 0 <= j < i ==> feeds@[j]@ == self.feeds@[j]@,
            decreases self.feeds@.len() - i,
        {
            feeds.push(self.feeds[i].clone());
            i = i + 1;
        }
        assert(feed_views(feeds@) =~= feed_views(self.feeds@));
        Config { settings: self.settings.clone(), feeds }
    }
}

/// What the ledger holds of one source.
#[derive(Debug)]
pub struct SourceReport {
    /// Name of the source.
    pub source_name: String,
    /// Distinct items stored for the source.
    pub total_items: u64,
    /// Fetches of the source that failed.
    pub error_count: u64,
    /// Time of the latest fetch that succeeded, if any did.
    pub last_success: Option<String>,
}

/// The mathematical value of a [`SourceReport`].
pub struct SourceReportView {
    pub source_name: Seq<char>,
    pub total_items: nat,
    pub error_count: nat,
    pub last_success: Option<Seq<char>>,
}

impl View for SourceReport {
    type V = SourceReportView;

    open spec fn view(&self) -> SourceReportView {
        SourceReportView {
            source_name: self.source_name@,
            total_items: self.total_items as nat,
            error_count: self.error_count as nat,
            last_success: opt_text(self.last_success),
        }
    }
}

impl Clone for SourceReport {
    fn clone(&self) -> (r: Self)
        ensures
            r@ == self@,
    {
        SourceReport {
            source_name: self.source_name.clone(),
            total_items: self.total_items,
            error_count: self.error_count,
            last_success: copy_opt_text(&self.last_success),
        }
    }
}

/// The values of a sequence of report entries.
pub open spec fn report_views(v: Seq<SourceReport>) -> Seq<SourceReportView> {
    Seq::new(v.len(), |i: int| v[i]@)
}

} // verus!

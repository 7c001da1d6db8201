//! What a report shows: the ledger rows that were asked for with their
//! totals, the standing of each configured source, and the summary of a run.
//! Laying the rows out as a table, as JSON or as CSV is left to the caller.

use crate::models::{
    report_views, Config, FeedConfigView, FeedResult, FeedResultView, FeedType, FetchStatus,
    SourceReport, SourceReportView,
};
use crate::storage::{
    generate_report, is_logged, is_source_logged, latest_success, ledger_entry, opt_str_view, Store,
    StoreView,
};
use crate::text::{chars_of, same_text};
use vstd::prelude::*;
use vstd::string::{StringExecFns, StringSliceAdditionalSpecFns};
use vstd::utf8::{decode_utf8, encode_utf8_decode_utf8, is_char_boundary};

verus! {

/// The layout of a report.
#[derive(Debug, Clone, Copy, PartialEq, Eq, Structural)]
pub enum ReportFormat {
    Table,
    Json,
    Csv,
}

/// The layout that a word names, if it names one: `table`, `json` or `csv`.
pub open spec fn format_named(word: Seq<char>) -> Option<ReportFormat> {
    if word == "table"@ {
        Some(ReportFormat::Table)
    } else if word == "json"@ {
        Some(ReportFormat::Json)
    } else if word == "csv"@ {
        Some(ReportFormat::Csv)
    } else {
        None
    }
}

/// The layout that `word` names; for any other word the error
/// `Unknown format: ` followed by the word.
pub fn parse_format(word: &str) -> (r: Result<ReportFormat, String>)
    ensures
        match r {
            Ok(format) => format_named(word@) == Some(format),
            Err(e) => format_named(word@) is None && e@ == "Unknown format: "@ + word@,
        },
{
    if same_text(word, "table") {
        Ok(ReportFormat::Table)
    } else if same_text(word, "json") {
        Ok(ReportFormat::Json)
    } else if same_text(word, "csv") {
        Ok(ReportFormat::Csv)
    } else {
        let mut e = "Unknown format: ".to_string();
        e.append(word);
        Err(e)
    }
}

/// The rows of `rows` for the source `source`, or all of them where no source
/// is named.
pub open spec fn rows_for(rows: Seq<SourceReportView>, source: Option<Seq<char>>) -> Seq<
    SourceReportView,
>
    decreases rows.len(),
{
    if rows.len() == 0 {
        Seq::empty()
    } else if source is None || source == Some(rows.last().source_name) {
        rows_for(rows.drop_last(), source).push(rows.last())
    } else {
        rows_for(rows.drop_last(), source)
    }
}

/// The sum of the item counts of the rows.
pub open spec fn sum_items(rows: Seq<SourceReportView>) -> nat
    decreases rows.len(),
{
    if rows.len() == 0 {
        0
    } else {
        sum_items(rows.drop_last()) + rows.last().total_items
    }
}

/// The sum of the error counts of the rows.
pub open spec fn sum_errors(rows: Seq<SourceReportView>) -> nat
    decreases rows.len(),
{
    if rows.len() == 0 {
        0
    } else {
        sum_errors(rows.drop_last()) + rows.last().error_count
    }
}

/// A report: the rows to show, in the order of the ledger, and their totals.
#[derive(Debug)]
pub struct Report {
    pub format: ReportFormat,
    pub rows: Vec<SourceReport>,
    pub total_items: u128,
    pub total_errors: u128,
}

/// The standing of a configured source.
#[derive(Debug, Clone, Copy, PartialEq, Eq, Structural)]
pub enum SourceStatus {
    /// A fetch of the source has succeeded.
    Active,
    /// The source was fetched, and never with success.
    Failing,
    /// No fetch of the source is logged.
    NeverFetched,
}

/// The standing of the source `name` in the store.
pub open spec fn status_of(store: StoreView, name: Seq<char>) -> SourceStatus {
    if !is_logged(store.log, name) {
        SourceStatus::NeverFetched
    } else if latest_success(store.log, name) is Some {
        SourceStatus::Active
    } else {
        SourceStatus::Failing
    }
}

/// One configured source as a listing shows it.
#[derive(Debug)]
pub struct SourceListing {
    pub name: String,
    pub url: String,
    pub feed_type: FeedType,
    /// Distinct items stored for the source.
    pub items: u64,
    pub status: SourceStatus,
}

/// The mathematical value of a [`SourceListing`].
pub struct SourceListingView {
    pub name: Seq<char>,
    pub url: Seq<char>,
    pub feed_type: FeedType,
    pub items: nat,
    pub status: SourceStatus,
}

impl View for SourceListing {
    type V = SourceListingView;

    open spec fn view(&self) -> SourceListingView {
        SourceListingView {
            name: self.name@,
            url: self.url@,
            feed_type: self.feed_type,
            items: self.items as nat,
            status: self.status,
        }
    }
}

/// The listing of a configured source against the store.
pub open spec fn listing_of(store: StoreView, feed: FeedConfigView) -> SourceListingView {
    SourceListingView {
        name: feed.name,
        url: feed.url,
        feed_type: feed.feed_type,
        items: store.ledger_entry(feed.name).total_items,
        status: status_of(store, feed.name),
    }
}

/// Reports on a store.
#[derive(Debug)]
pub struct Reporter {
    storage: Store,
}

impl View for Reporter {
    type V = StoreView;

    closed spec fn view(&self) -> StoreView {
        self.storage@
    }
}

impl Reporter {
    /// A reporter on `storage`.
    pub fn new(storage: Store) -> (r: Reporter)
        ensures
            r@ == storage@,
    {
        Reporter { storage }
    }

    /// The store that is reported on.
    pub fn storage(&self) -> (s: &Store)
        ensures
            s@ == self@,
    {
        &self.storage
    }

    /// The report in the layout that `format` names, on the source `source`
    /// or, where none is named, on every source in the fetch log: the ledger
    /// rows in ascending order of the source names, and the totals of their
    /// items and errors. `since` has no bearing on the report.
    ///
    /// A word that names no layout gives the error `Unknown format: ` followed
    /// by the word.
    pub fn generate_report(&self, format: &str, source: Option<&str>, since: Option<&str>) -> (r:
        Result<Report, String>)
        ensures
            match r {
                Ok(report) => {
                    &&& format_named(format@) == Some(report.format)
                    &&& report_views(report.rows@) == rows_for(self@.ledger(), opt_str_view(source))
                    &&& report.total_items == sum_items(report_views(report.rows@))
                    &&& report.total_errors == sum_errors(report_views(report.rows@))
                },
                Err(e) => format_named(format@) is None && e@ == "Unknown format: "@ + format@,
            },
    {
        let layout = match parse_format(format) {
            Ok(layout) => layout,
            Err(e) => {
                return Err(e);
            },
        };
        let all = generate_report(&self.storage, None);
        let ghost ledger = report_views(all@);
        let ghost wanted = opt_str_view(source);
        let mut rows: Vec<SourceReport> = Vec::new();
        let mut total_items: u128 = 0;
        let mut total_errors: u128 = 0;
        let mut i: usize = 0;
        assert(ledger.take(0) =~= Seq::empty());
        assert(report_views(rows@) =~= Seq::empty());
        while i < all.len()
            invariant
                ledger == report_views(all@),
                wanted == opt_str_view(source),
                ledger == self@.ledger(),
                0 <= i <= all@.len(),
                rows@.len() <= i,
                report_views(rows@) == rows_for(ledger.take(i as int), wanted),
                total_items == sum_items(report_views(rows@)),
                total_errors == sum_errors(report_views(rows@)),
                total_items <= rows@.len() * 0xffff_ffff_ffff_ffff,
                total_errors <= rows@.len() * 0xffff_ffff_ffff_ffff,
            decreases all@.len() - i,
        {
            proof {
                assert(ledger.take(i + 1).drop_last() =~= ledger.take(i as int));
                assert(ledger.take(i + 1).last() == all@[i as int]@);
            }
            let keep = match source {
                Some(name) => same_text(all[i].source_name.as_str(), name),
                None => true,
            };
            if keep {
                let ghost before = report_views(rows@);
                total_items = total_items + all[i].total_items as u128;
                total_errors = total_errors + all[i].error_count as u128;
                rows.push(all[i].clone());
                proof {
                    assert(report_views(rows@) =~= before.push(all@[i as int]@));
                    assert(report_views(rows@).drop_last() =~= before);
                }
            }
            i = i + 1;
        }
        assert(ledger.take(all@.len() as int) =~= ledger);
        Ok(Report { format: layout, rows, total_items, total_errors })
    }

    /// The listing of the configured sources against the store, in the order
    /// of the configuration.
    pub fn list_sources(&self, config: &Config) -> (r: Vec<SourceListing>)
        ensures
            r@.len() == config@.feeds.len(),
            forall|i: int|
                0 <= i < r@.len() ==> (#[trigger] r@[i])@ == listing_of(self@, config@.feeds[i]),
    {
        let mut r: Vec<SourceListing> = Vec::new();
        let mut i: usize = 0;
        while i < config.feeds.len()
            invariant
                0 <= i <= config.feeds@.len(),
                r@.len() == i,
                forall|j: int| 0 <= j < i ==> (#[trigger] r@[j])@ == listing_of(self@, config@.feeds[j]),
            decreases config.feeds@.len() - i,
        {
            let feed = &config.feeds[i];
            assert(config@.feeds[i as int] == feed@);
            let entry = ledger_entry(&self.storage, feed.name.as_str());
            let status = source_status(&self.storage, feed.name.as_str());
            r.push(
                SourceListing {
                    name: feed.name.clone(),
                    url: feed.url.clone(),
                    feed_type: feed.feed_type,
                    items: entry.total_items,
                    status,
                },
            );
            i = i + 1;
        }
        r
    }
}

/// The standing of the source `name` in the store.
pub fn source_status(store: &Store, name: &str) -> (status: SourceStatus)
    ensures
        status == status_of(store@, name@),
{
    if !is_source_logged(store, name) {
        SourceStatus::NeverFetched
    } else {
        let entry = ledger_entry(store, name);
        match entry.last_success {
            Some(_) => SourceStatus::Active,
            None => SourceStatus::Failing,
        }
    }
}

/// The number of results that succeeded.
pub open spec fn count_succeeded(results: Seq<FeedResultView>) -> nat
    decreases results.len(),
{
    if results.len() == 0 {
        0
    } else {
        count_succeeded(results.drop_last()) + if results.last().status == FetchStatus::Success {
            1nat
        } else {
            0nat
        }
    }
}

/// How a run went: the sources that succeeded and those that failed.
#[derive(Debug, Clone, Copy, PartialEq, Eq, Structural)]
pub struct FetchSummary {
    pub succeeded: usize,
    pub failed: usize,
}

/// Counts the results of a run that succeeded and those that failed.
pub fn summarize(results: &[FeedResult]) -> (s: FetchSummary)
    ensures
        s.succeeded == count_succeeded(crate::models::result_views(results@)),
        s.succeeded + s.failed == results@.len(),
{
    let ghost all = crate::models::result_views(results@);
    let mut succeeded: usize = 0;
    let mut i: usize = 0;
    while i < results.len()
        invariant
            all == crate::models::result_views(results@),
            0 <= i <= results@.len(),
            succeeded == count_succeeded(all.take(i as int)),
            succeeded <= i,
        decreases results@.len() - i,
    {
        proof {
            assert(all.take(i + 1).drop_last() =~= all.take(i as int));
            assert(all.take(i + 1).last() == results@[i as int]@);
        }
        if let FetchStatus::Success = results[i].status {
            succeeded = succeeded + 1;
        }
        i = i + 1;
    }
    assert(all.take(results@.len() as int) =~= all);
    FetchSummary { succeeded, failed: results.len() - succeeded }
}

/// Where a text of more than `max_len` bytes is cut: three bytes short of
/// `max_len`, or at the start where `max_len` is less than three.
pub open spec fn cut_point(max_len: usize) -> int {
    if max_len >= 3 {
        max_len - 3
    } else {
        0
    }
}

/// A text fit for a column of `max_len` bytes: the text itself where it is no
/// longer than that, else its bytes up to the cut point, followed by `...`.
pub open spec fn truncated(s: Seq<char>, bytes: Seq<u8>, max_len: usize) -> Seq<char> {
    if bytes.len() <= max_len {
        s
    } else {
        decode_utf8(bytes.subrange(0, cut_point(max_len))) + "..."@
    }
}

/// Fits a text to a column of `max_len` bytes: a longer text is cut three
/// bytes short of `max_len` and ends in `...`. The cut must not fall inside a
/// character.
pub fn truncate(s: &str, max_len: usize) -> (r: String)
    requires
        s.spec_bytes().len() > max_len ==> is_char_boundary(s.spec_bytes(), cut_point(max_len)),
    ensures
        r@ == truncated(s@, s.spec_bytes(), max_len),
{
    if s.as_bytes().len() <= max_len {
        s.to_string()
    } else {
        let cut: usize = if max_len >= 3 {
            max_len - 3
        } else {
            0
        };
        let (head, _) = s.split_at(cut);
        proof {
            encode_utf8_decode_utf8(head@);
        }
        let mut r = head.to_string();
        r.append("...");
        r
    }
}

/// The day of a date and time in the notation of ISO 8601: what stands
/// before the first `T`, and all of the text where there is no `T`.
pub open spec fn day_part(s: Seq<char>) -> Seq<char>
    decreases s.len(),
{
    if s.len() == 0 || s[0] == 'T' {
        Seq::empty()
    } else {
        seq![s[0]] + day_part(s.drop_first())
    }
}

/// The day of a date and time: what stands before the first `T`.
pub fn day_of(timestamp: &str) -> (day: String)
    ensures
        day@ == day_part(timestamp@),
{
    let chars = chars_of(timestamp);
    let mut day = String::new();
    let mut i: usize = 0;
    assert(chars@.skip(0) =~= chars@);
    while i < chars.len() && chars[i] != 'T'
        invariant
            chars@ == timestamp@,
            0 <= i <= chars@.len(),
            day_part(chars@) == day@ + day_part(chars@.skip(i as int)),
        decreases chars@.len() - i,
    {
        proof {
            assert(chars@.skip(i as int).drop_first() =~= chars@.skip(i + 1));
            assert(day@.push(chars@[i as int]) + day_part(chars@.skip(i + 1)) =~= day@ + (seq![
                chars@[i as int],
            ] + day_part(chars@.skip(i + 1))));
        }
        day.push(chars[i]);
        i = i + 1;
    }
    assert(day@ + Seq::<char>::empty() =~= day@);
    day
}

} // verus!

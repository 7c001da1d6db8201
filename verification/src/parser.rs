//! Normalization: from the body of a response to feed items.
//!
//! The name of a source selects the shape its responses are read in. A body
//! that is no JSON, or whose outer structure is not that of the shape, fails
//! as a whole. Within a body each element becomes an item or is skipped, with
//! the reason; the other elements are read all the same.

use crate::identity::{generate_id, identity};
use crate::json::{
    as_coerced_text, as_elements, as_integer, as_text, as_whole_part, distinct_text_elements,
    first_member, get_coerced_text, get_distinct_text_elements, get_elements, get_first_member,
    get_integer, get_member, get_text, get_whole_part, json_read, member, name_views, read,
};
use crate::clock::current_time;
use crate::models::{item_views, FeedItem, FeedItemView, FeedType};
use crate::text::{
    contains_text, is_infix, opt_text, push_signed_decimal, same_text, signed_decimal, texts,
};
use vstd::prelude::*;
use vstd::string::StringExecFns;

verus! {

/// The date and time, in the notation of RFC 3339 and in UTC, that lies `secs`
/// seconds after the start of 1970; there is none for a time outside the
/// years that the calendar can hold.
pub uninterp spec fn unix_rfc3339(secs: i64) -> Option<Seq<char>>;

/// `chrono::DateTime::from_timestamp` with no nanoseconds, and the
/// `to_rfc3339` of the time it gives.
#[verifier::external_body]
fn rfc3339_from_unix(secs: i64) -> (r: Option<String>)
    ensures
        opt_text(r) == unix_rfc3339(secs),
{
    chrono::DateTime::from_timestamp(secs, 0).map(|t| t.to_rfc3339())
}

/// The shape in which the responses of a source are read.
#[derive(Debug, Clone, Copy, PartialEq, Eq, Structural)]
pub enum FeedShape {
    /// An array of story numbers.
    HackerNews,
    /// An object whose member `items` is an array of repositories.
    GitHub,
    /// An object whose member `data.children` is an array of posts, each
    /// under its member `data`.
    Reddit,
    /// An array of stories.
    Lobsters,
    /// An array of objects with a title and a link under common names.
    Generic,
}

/// Why an element of a response gave no item.
#[derive(Debug, Clone, Copy, PartialEq, Eq, Structural)]
pub enum SkipReason {
    /// The element is no story number.
    InvalidIdFormat,
    /// The repository has neither `full_name` nor `name` that can be a title.
    MissingName,
    /// The repository has no string `html_url`.
    MissingHtmlUrl,
    /// The post has no member `data`.
    MissingData,
    /// The element has no `title` that can be a title.
    MissingTitle,
    /// The post has no string `url`.
    MissingUrl,
    /// The story has no string `url`, nor `comments_url` in its place.
    MissingUrlOrCommentsUrl,
    /// The element has no string under `url`, `link` or `href`.
    NoUrlField,
}

impl SkipReason {
    /// The reason in words.
    pub open spec fn text(self) -> Seq<char> {
        match self {
            SkipReason::InvalidIdFormat => "invalid ID format"@,
            SkipReason::MissingName => "missing 'full_name' or 'name'"@,
            SkipReason::MissingHtmlUrl => "missing 'html_url'"@,
            SkipReason::MissingData => "missing 'data' field"@,
            SkipReason::MissingTitle => "missing 'title'"@,
            SkipReason::MissingUrl => "missing 'url'"@,
            SkipReason::MissingUrlOrCommentsUrl => "missing 'url' or 'comments_url'"@,
            SkipReason::NoUrlField => "no URL field found"@,
        }
    }

    /// The reason in words.
    pub fn message(&self) -> (s: String)
        ensures
            s@ == self.text(),
    {
        match self {
            SkipReason::InvalidIdFormat => "invalid ID format".to_string(),
            SkipReason::MissingName => "missing 'full_name' or 'name'".to_string(),
            SkipReason::MissingHtmlUrl => "missing 'html_url'".to_string(),
            SkipReason::MissingData => "missing 'data' field".to_string(),
            SkipReason::MissingTitle => "missing 'title'".to_string(),
            SkipReason::MissingUrl => "missing 'url'".to_string(),
            SkipReason::MissingUrlOrCommentsUrl => "missing 'url' or 'comments_url'".to_string(),
            SkipReason::NoUrlField => "no URL field found".to_string(),
        }
    }
}

/// An element that was skipped: its position in the response, and why.
#[derive(Debug, Clone, Copy, PartialEq, Eq, Structural)]
pub struct Skipped {
    pub index: usize,
    pub reason: SkipReason,
}

/// Why a body as a whole gave no items.
#[derive(Debug)]
pub enum ParseError {
    /// The body is no JSON; with the description of the error.
    MalformedJson(String),
    /// The body is JSON without the outer structure of the shape.
    UnexpectedShape(FeedShape),
    /// The source answers in RSS, which is not read.
    RssNotImplemented,
    /// The source answers in Atom, which is not read.
    AtomNotImplemented,
}

/// The mathematical value of a [`ParseError`].
pub enum ParseErrorView {
    MalformedJson(Seq<char>),
    UnexpectedShape(FeedShape),
    RssNotImplemented,
    AtomNotImplemented,
}

impl View for ParseError {
    type V = ParseErrorView;

    open spec fn view(&self) -> ParseErrorView {
        match self {
            ParseError::MalformedJson(e) => ParseErrorView::MalformedJson(e@),
            ParseError::UnexpectedShape(shape) => ParseErrorView::UnexpectedShape(*shape),
            ParseError::RssNotImplemented => ParseErrorView::RssNotImplemented,
            ParseError::AtomNotImplemented => ParseErrorView::AtomNotImplemented,
        }
    }
}

impl ParseErrorView {
    /// The error in words.
    pub open spec fn text(self) -> Seq<char> {
        match self {
            ParseErrorView::MalformedJson(e) => "malformed JSON: "@ + e,
            ParseErrorView::UnexpectedShape(FeedShape::HackerNews) => "HackerNews: expected array of IDs"@,
            ParseErrorView::UnexpectedShape(FeedShape::GitHub) => "GitHub: missing 'items' array"@,
            ParseErrorView::UnexpectedShape(FeedShape::Reddit) => "Reddit: missing 'data.children' array"@,
            ParseErrorView::UnexpectedShape(FeedShape::Lobsters) => "Lobsters: expected array"@,
            ParseErrorView::UnexpectedShape(FeedShape::Generic) => "expected JSON array"@,
            ParseErrorView::RssNotImplemented => "RSS feeds are not yet implemented"@,
            ParseErrorView::AtomNotImplemented => "Atom feeds are not yet implemented"@,
        }
    }
}

impl ParseError {
    /// The error in words.
    pub fn message(&self) -> (s: String)
        ensures
            s@ == self@.text(),
    {
        match self {
            ParseError::MalformedJson(e) => {
                let mut s = "malformed JSON: ".to_string();
                s.append(e.as_str());
                s
            },
            ParseError::UnexpectedShape(FeedShape::HackerNews) => "HackerNews: expected array of IDs".to_string(),
            ParseError::UnexpectedShape(FeedShape::GitHub) => "GitHub: missing 'items' array".to_string(),
            ParseError::UnexpectedShape(FeedShape::Reddit) => "Reddit: missing 'data.children' array".to_string(),
            ParseError::UnexpectedShape(FeedShape::Lobsters) => "Lobsters: expected array".to_string(),
            ParseError::UnexpectedShape(FeedShape::Generic) => "expected JSON array".to_string(),
            ParseError::RssNotImplemented => "RSS feeds are not yet implemented".to_string(),
            ParseError::AtomNotImplemented => "Atom feeds are not yet implemented".to_string(),
        }
    }
}

/// What a body gave: the items, in the order of the response, and the
/// elements that were skipped.
#[derive(Debug)]
pub struct Normalized {
    pub items: Vec<FeedItem>,
    pub skipped: Vec<Skipped>,
}

/// The mathematical value of a [`Normalized`].
pub struct NormalizedView {
    pub items: Seq<FeedItemView>,
    pub skipped: Seq<Skipped>,
}

impl View for Normalized {
    type V = NormalizedView;

    open spec fn view(&self) -> NormalizedView {
        NormalizedView { items: item_views(self.items@), skipped: self.skipped@ }
    }
}

/// The value of the result of a normalization.
pub open spec fn outcome_view(r: Result<Normalized, ParseError>) -> Result<
    NormalizedView,
    ParseErrorView,
> {
    match r {
        Ok(n) => Ok(n@),
        Err(e) => Err(e@),
    }
}

/// The shape that the name of a source selects: the first of `HackerNews` or
/// `HN`, `GitHub`, `Reddit`, `Lobsters` that occurs in the name, and the
/// generic shape where none does.
pub open spec fn shape_of(source: Seq<char>) -> FeedShape {
    if is_infix("HackerNews"@, source) || is_infix("HN"@, source) {
        FeedShape::HackerNews
    } else if is_infix("GitHub"@, source) {
        FeedShape::GitHub
    } else if is_infix("Reddit"@, source) {
        FeedShape::Reddit
    } else if is_infix("Lobsters"@, source) {
        FeedShape::Lobsters
    } else {
        FeedShape::Generic
    }
}

/// The string, with coercion, that an optional JSON text denotes.
pub open spec fn coerced(m: Option<Seq<char>>) -> Option<Seq<char>> {
    match m {
        Some(t) => as_coerced_text(t),
        None => None,
    }
}

/// The string that an optional JSON text denotes.
pub open spec fn plain(m: Option<Seq<char>>) -> Option<Seq<char>> {
    match m {
        Some(t) => as_text(t),
        None => None,
    }
}

/// The tags that an optional JSON text denotes: the strings of an array, in
/// order and each once, and none for anything else.
pub open spec fn tags_of(m: Option<Seq<char>>) -> Seq<Seq<char>> {
    match m {
        Some(t) => match as_elements(t) {
            Some(elements) => distinct_text_elements(elements),
            None => Seq::empty(),
        },
        None => Seq::empty(),
    }
}

/// The item of `source` with the given fields; its identifier is that of the
/// source and the URL, and `raw` is kept as its record.
pub open spec fn item_with(
    source: Seq<char>,
    title: Seq<char>,
    url: Seq<char>,
    timestamp: Option<Seq<char>>,
    tags: Seq<Seq<char>>,
    raw: Seq<char>,
) -> FeedItemView {
    FeedItemView {
        id: identity(source, url),
        title,
        url,
        source,
        timestamp,
        tags,
        raw_data: Some(raw),
    }
}

/// The item that a story number gives.
pub open spec fn hackernews_item(source: Seq<char>, element: Seq<char>) -> Result<
    FeedItemView,
    SkipReason,
> {
    match as_integer(element) {
        Some(n) => Ok(
            item_with(
                source,
                "HN Story "@ + signed_decimal(n as int),
                "https://news.ycombinator.com/item?id="@ + signed_decimal(n as int),
                None,
                Seq::empty(),
                element,
            ),
        ),
        None => Err(SkipReason::InvalidIdFormat),
    }
}

/// The item that a repository gives: the title is its `full_name`, or its
/// `name` where it has no `full_name`; the URL its `html_url`; the time its
/// `updated_at`, or its `created_at` where it has no `updated_at`; the tags
/// its `topics`.
pub open spec fn github_item(source: Seq<char>, item: Seq<char>) -> Result<FeedItemView, SkipReason> {
    match coerced(first_member(item, seq!["full_name"@, "name"@])) {
        None => Err(SkipReason::MissingName),
        Some(title) => match plain(member(item, "html_url"@)) {
            None => Err(SkipReason::MissingHtmlUrl),
            Some(url) => Ok(
                item_with(
                    source,
                    title,
                    url,
                    plain(first_member(item, seq!["updated_at"@, "created_at"@])),
                    tags_of(member(item, "topics"@)),
                    item,
                ),
            ),
        },
    }
}

/// The time of a post: its `created_utc`, a number of seconds since the start
/// of 1970, as a date and time; `now` where the calendar cannot hold it.
pub open spec fn reddit_time(data: Seq<char>, now: Seq<char>) -> Option<Seq<char>> {
    match member(data, "created_utc"@) {
        Some(t) => match as_whole_part(t) {
            Some(secs) => match unix_rfc3339(secs) {
                Some(s) => Some(s),
                None => Some(now),
            },
            None => None,
        },
        None => None,
    }
}

/// The tags of a post: its `link_flair_text`, where that is a string and not
/// empty.
pub open spec fn reddit_tags(data: Seq<char>) -> Seq<Seq<char>> {
    match plain(member(data, "link_flair_text"@)) {
        Some(s) => if s.len() > 0 {
            seq![s]
        } else {
            Seq::empty()
        },
        None => Seq::empty(),
    }
}

/// The item that the `data` of a post gives.
pub open spec fn reddit_item(source: Seq<char>, data: Seq<char>, now: Seq<char>) -> Result<
    FeedItemView,
    SkipReason,
> {
    match coerced(member(data, "title"@)) {
        None => Err(SkipReason::MissingTitle),
        Some(title) => match plain(member(data, "url"@)) {
            None => Err(SkipReason::MissingUrl),
            Some(url) => Ok(
                item_with(source, title, url, reddit_time(data, now), reddit_tags(data), data),
            ),
        },
    }
}

/// The item that a post gives, from its member `data`.
pub open spec fn reddit_child(source: Seq<char>, child: Seq<char>, now: Seq<char>) -> Result<
    FeedItemView,
    SkipReason,
> {
    match member(child, "data"@) {
        None => Err(SkipReason::MissingData),
        Some(data) => reddit_item(source, data, now),
    }
}

/// The URL of a story: its `url` where that is a string and not empty, else
/// its `comments_url`.
pub open spec fn lobsters_url(item: Seq<char>) -> Option<Seq<char>> {
    match plain(member(item, "url"@)) {
        Some(url) => if url.len() > 0 {
            Some(url)
        } else {
            plain(member(item, "comments_url"@))
        },
        None => plain(member(item, "comments_url"@)),
    }
}

/// The item that a story gives.
pub open spec fn lobsters_item(source: Seq<char>, item: Seq<char>) -> Result<
    FeedItemView,
    SkipReason,
> {
    match coerced(member(item, "title"@)) {
        None => Err(SkipReason::MissingTitle),
        Some(title) => match lobsters_url(item) {
            None => Err(SkipReason::MissingUrlOrCommentsUrl),
            Some(url) => Ok(
                item_with(
                    source,
                    title,
                    url,
                    plain(member(item, "created_at"@)),
                    tags_of(member(item, "tags"@)),
                    item,
                ),
            ),
        },
    }
}

/// The item that an element of the generic shape gives: the title is the
/// first of `title`, `name`, `headline` that it has, or `Untitled`; the URL
/// the first of `url`, `link`, `href` that it has.
pub open spec fn generic_item(source: Seq<char>, item: Seq<char>) -> Result<FeedItemView, SkipReason> {
    match plain(first_member(item, seq!["url"@, "link"@, "href"@])) {
        None => Err(SkipReason::NoUrlField),
        Some(url) => Ok(
            item_with(
                source,
                match coerced(first_member(item, seq!["title"@, "name"@, "headline"@])) {
                    Some(title) => title,
                    None => "Untitled"@,
                },
                url,
                None,
                Seq::empty(),
                item,
            ),
        ),
    }
}

/// The item that an element of a response gives, or why it gives none.
pub open spec fn item_of(shape: FeedShape, source: Seq<char>, element: Seq<char>, now: Seq<char>) -> Result<
    FeedItemView,
    SkipReason,
> {
    match shape {
        FeedShape::HackerNews => hackernews_item(source, element),
        FeedShape::GitHub => github_item(source, element),
        FeedShape::Reddit => reddit_child(source, element, now),
        FeedShape::Lobsters => lobsters_item(source, element),
        FeedShape::Generic => generic_item(source, element),
    }
}

/// The elements of a response: the array itself, the array under `items`, or
/// the array under `data.children`, as the shape has it. There are none where
/// the body has no such array; but a body of story numbers that is no array
/// counts as an array without elements.
pub open spec fn elements_of(shape: FeedShape, body: Seq<char>) -> Option<Seq<Seq<char>>> {
    match shape {
        FeedShape::HackerNews => match as_elements(body) {
            Some(elements) => Some(elements),
            None => Some(Seq::empty()),
        },
        FeedShape::GitHub => match member(body, "items"@) {
            Some(t) => as_elements(t),
            None => None,
        },
        FeedShape::Reddit => match member(body, "data"@) {
            Some(data) => match member(data, "children"@) {
                Some(t) => as_elements(t),
                None => None,
            },
            None => None,
        },
        _ => as_elements(body),
    }
}

/// The items that the elements give, in order.
pub open spec fn kept_items(
    shape: FeedShape,
    source: Seq<char>,
    elements: Seq<Seq<char>>,
    now: Seq<char>,
) -> Seq<FeedItemView>
    decreases elements.len(),
{
    if elements.len() == 0 {
        Seq::empty()
    } else {
        match item_of(shape, source, elements.last(), now) {
            Ok(item) => kept_items(shape, source, elements.drop_last(), now).push(item),
            Err(_) => kept_items(shape, source, elements.drop_last(), now),
        }
    }
}

/// The elements that give no item, in order, each with its position and the
/// reason.
pub open spec fn skipped_items(
    shape: FeedShape,
    source: Seq<char>,
    elements: Seq<Seq<char>>,
    now: Seq<char>,
) -> Seq<Skipped>
    decreases elements.len(),
{
    if elements.len() == 0 {
        Seq::empty()
    } else {
        match item_of(shape, source, elements.last(), now) {
            Ok(_) => skipped_items(shape, source, elements.drop_last(), now),
            Err(reason) => skipped_items(shape, source, elements.drop_last(), now).push(
                Skipped { index: (elements.len() - 1) as usize, reason },
            ),
        }
    }
}

/// What a body gives when it is read in `shape`.
pub open spec fn normalized_as(shape: FeedShape, source: Seq<char>, body: Seq<char>, now: Seq<char>) -> Result<
    NormalizedView,
    ParseErrorView,
> {
    match json_read(body) {
        Err(e) => Err(ParseErrorView::MalformedJson(e)),
        Ok(_) => match elements_of(shape, body) {
            None => Err(ParseErrorView::UnexpectedShape(shape)),
            Some(elements) => Ok(
                NormalizedView {
                    items: kept_items(shape, source, elements, now),
                    skipped: skipped_items(shape, source, elements, now),
                },
            ),
        },
    }
}

/// What the JSON body of a response of `source` gives.
pub open spec fn normalized(source: Seq<char>, body: Seq<char>, now: Seq<char>) -> Result<
    NormalizedView,
    ParseErrorView,
> {
    normalized_as(shape_of(source), source, body, now)
}

/// What the body of a response of `source` gives: a JSON body is normalized,
/// and a body in another format is refused.
pub open spec fn feed_items(
    source: Seq<char>,
    feed_type: FeedType,
    body: Seq<char>,
    now: Seq<char>,
) -> Result<NormalizedView, ParseErrorView> {
    match feed_type {
        FeedType::Json => normalized(source, body, now),
        FeedType::Rss => Err(ParseErrorView::RssNotImplemented),
        FeedType::Atom => Err(ParseErrorView::AtomNotImplemented),
    }
}

/// The format that a word names, if it names one: `json`, `rss` or `atom`.
pub open spec fn feed_type_named(word: Seq<char>) -> Option<FeedType> {
    if word == "json"@ {
        Some(FeedType::Json)
    } else if word == "rss"@ {
        Some(FeedType::Rss)
    } else if word == "atom"@ {
        Some(FeedType::Atom)
    } else {
        None
    }
}

/// What the body of a response of `source` gives where the format is named
/// by a word: the items, or the description of what went wrong. A word that
/// names no format gives `unknown feed type '`, the word, and `': must be one
/// of: json, rss, atom`.
pub open spec fn parsed(source: Seq<char>, feed_type: Seq<char>, body: Seq<char>, now: Seq<char>) -> Result<
    Seq<FeedItemView>,
    Seq<char>,
> {
    match feed_type_named(feed_type) {
        None => Err("unknown feed type '"@ + feed_type + "': must be one of: json, rss, atom"@),
        Some(format) => match feed_items(source, format, body, now) {
            Ok(n) => Ok(n.items),
            Err(e) => Err(e.text()),
        },
    }
}

/// Every element of a response is accounted for: it gave an item or it was
/// skipped. The skipped elements are listed by ascending position.
pub proof fn lemma_every_element_accounted(
    shape: FeedShape,
    source: Seq<char>,
    elements: Seq<Seq<char>>,
    now: Seq<char>,
)
    requires
        elements.len() <= usize::MAX,
    ensures
        kept_items(shape, source, elements, now).len() + skipped_items(
            shape,
            source,
            elements,
            now,
        ).len() == elements.len(),
        forall|k: int|
            0 <= k < skipped_items(shape, source, elements, now).len() ==> {
                let s = #[trigger] skipped_items(shape, source, elements, now)[k];
                &&& s.index < elements.len()
                &&& item_of(shape, source, elements[s.index as int], now) == Err::<
                    FeedItemView,
                    SkipReason,
                >(s.reason)
            },
        forall|k: int|
            0 <= k < kept_items(shape, source, elements, now).len() ==> (#[trigger] kept_items(
                shape,
                source,
                elements,
                now,
            )[k]).source == source,
    decreases elements.len(),
{
    if elements.len() > 0 {
        let front = elements.drop_last();
        lemma_every_element_accounted(shape, source, front, now);
        assert forall|k: int| 0 <= k < skipped_items(shape, source, elements, now).len() implies {
            let s = #[trigger] skipped_items(shape, source, elements, now)[k];
            &&& s.index < elements.len()
            &&& item_of(shape, source, elements[s.index as int], now) == Err::<
                FeedItemView,
                SkipReason,
            >(s.reason)
        } by {
            if k < skipped_items(shape, source, front, now).len() {
                let s = skipped_items(shape, source, front, now)[k];
                assert(front[s.index as int] == elements[s.index as int]);
            }
        }
    }
}

/// The shape that the name of a source selects.
pub fn detect_shape(source_name: &str) -> (shape: FeedShape)
    ensures
        shape == shape_of(source_name@),
{
    if contains_text(source_name, "HackerNews") || contains_text(source_name, "HN") {
        FeedShape::HackerNews
    } else if contains_text(source_name, "GitHub") {
        FeedShape::GitHub
    } else if contains_text(source_name, "Reddit") {
        FeedShape::Reddit
    } else if contains_text(source_name, "Lobsters") {
        FeedShape::Lobsters
    } else {
        FeedShape::Generic
    }
}

/// The string, with coercion, that an optional JSON text denotes.
fn coerce(m: &Option<String>) -> (r: Option<String>)
    ensures
        opt_text(r) == coerced(opt_text(*m)),
{
    match m {
        Some(t) => get_coerced_text(t.as_str()),
        None => None,
    }
}

/// The string that an optional JSON text denotes.
fn as_plain(m: &Option<String>) -> (r: Option<String>)
    ensures
        opt_text(r) == plain(opt_text(*m)),
{
    match m {
        Some(t) => get_text(t.as_str()),
        None => None,
    }
}

/// The tags that an optional JSON text denotes.
fn read_tags(m: &Option<String>) -> (r: Vec<String>)
    ensures
        texts(r@) == tags_of(opt_text(*m)),
{
    match m {
        Some(t) => match get_elements(t.as_str()) {
            Some(elements) => get_distinct_text_elements(&elements),
            None => {
                let r: Vec<String> = Vec::new();
                assert(texts(r@) =~= Seq::empty());
                r
            },
        },
        None => {
            let r: Vec<String> = Vec::new();
            assert(texts(r@) =~= Seq::empty());
            r
        },
    }
}

/// The first member of `text` among two names.
fn first_of_two(text: &str, a: &str, b: &str) -> (r: Option<String>)
    ensures
        opt_text(r) == first_member(text@, seq![a@, b@]),
{
    let names = vec![a, b];
    assert(name_views(names@) =~= seq![a@, b@]);
    get_first_member(text, names.as_slice())
}

/// The first member of `text` among three names.
fn first_of_three(text: &str, a: &str, b: &str, c: &str) -> (r: Option<String>)
    ensures
        opt_text(r) == first_member(text@, seq![a@, b@, c@]),
{
    let names = vec![a, b, c];
    assert(name_views(names@) =~= seq![a@, b@, c@]);
    get_first_member(text, names.as_slice())
}

/// The item of `source_name` with the given fields.
fn make_item(
    source_name: &str,
    title: String,
    url: String,
    timestamp: Option<String>,
    tags: Vec<String>,
    raw: &str,
) -> (item: FeedItem)
    ensures
        item@ == item_with(source_name@, title@, url@, opt_text(timestamp), texts(tags@), raw@),
{
    let id = generate_id(source_name, url.as_str());
    FeedItem {
        id,
        title,
        url,
        source: source_name.to_string(),
        timestamp,
        tags,
        raw_data: Some(raw.to_string()),
    }
}

/// The value of an item or of the reason why there is none.
pub open spec fn item_view(r: Result<FeedItem, SkipReason>) -> Result<FeedItemView, SkipReason> {
    match r {
        Ok(item) => Ok(item@),
        Err(reason) => Err(reason),
    }
}

/// The item that the story number `element` gives.
pub fn parse_hackernews_item(element: &str, source_name: &str) -> (r: Result<FeedItem, SkipReason>)
    ensures
        item_view(r) == hackernews_item(source_name@, element@),
{
    match get_integer(element) {
        Some(n) => {
            let mut title = "HN Story ".to_string();
            push_signed_decimal(&mut title, n);
            let mut url = "https://news.ycombinator.com/item?id=".to_string();
            push_signed_decimal(&mut url, n);
            let tags: Vec<String> = Vec::new();
            assert(texts(tags@) =~= Seq::empty());
            Ok(make_item(source_name, title, url, None, tags, element))
        },
        None => Err(SkipReason::InvalidIdFormat),
    }
}

/// The item that the repository `item` gives.
pub fn parse_github_item(item: &str, source_name: &str) -> (r: Result<FeedItem, SkipReason>)
    ensures
        item_view(r) == github_item(source_name@, item@),
{
    let title = match coerce(&first_of_two(item, "full_name", "name")) {
        Some(title) => title,
        None => {
            return Err(SkipReason::MissingName);
        },
    };
    let url = match as_plain(&get_member(item, "html_url")) {
        Some(url) => url,
        None => {
            return Err(SkipReason::MissingHtmlUrl);
        },
    };
    let timestamp = as_plain(&first_of_two(item, "updated_at", "created_at"));
    let tags = read_tags(&get_member(item, "topics"));
    Ok(make_item(source_name, title, url, timestamp, tags, item))
}

/// The item that the `data` of a post gives; the time of the call stands in
/// for a time that the calendar cannot hold.
pub fn parse_reddit_item(data: &str, source_name: &str) -> (r: Result<FeedItem, SkipReason>)
    ensures
        exists|now: Seq<char>| #[trigger] reddit_item(source_name@, data@, now) == item_view(r),
{
    let now = current_time();
    let r = parse_reddit_item_at(data, source_name, now.as_str());
    assert(reddit_item(source_name@, data@, now@) == item_view(r));
    r
}

/// The item that the `data` of a post gives; `now` stands in for a time that
/// the calendar cannot hold.
pub fn parse_reddit_item_at(data: &str, source_name: &str, now: &str) -> (r: Result<
    FeedItem,
    SkipReason,
>)
    ensures
        item_view(r) == reddit_item(source_name@, data@, now@),
{
    let title = match coerce(&get_member(data, "title")) {
        Some(title) => title,
        None => {
            return Err(SkipReason::MissingTitle);
        },
    };
    let url = match as_plain(&get_member(data, "url")) {
        Some(url) => url,
        None => {
            return Err(SkipReason::MissingUrl);
        },
    };
    let timestamp = match get_member(data, "created_utc") {
        Some(t) => match get_whole_part(t.as_str()) {
            Some(secs) => match rfc3339_from_unix(secs) {
                Some(s) => Some(s),
                None => Some(now.to_string()),
            },
            None => None,
        },
        None => None,
    };
    let mut tags: Vec<String> = Vec::new();
    match as_plain(&get_member(data, "link_flair_text")) {
        Some(s) => {
            if s.as_str().unicode_len() > 0 {
                tags.push(s);
            }
        },
        None => {},
    }
    assert(texts(tags@) =~= reddit_tags(data@));
    Ok(make_item(source_name, title, url, timestamp, tags, data))
}

/// The item that the post `child` gives, from its member `data`.
pub fn parse_reddit_child(child: &str, source_name: &str, now: &str) -> (r: Result<
    FeedItem,
    SkipReason,
>)
    ensures
        item_view(r) == reddit_child(source_name@, child@, now@),
{
    match get_member(child, "data") {
        Some(data) => parse_reddit_item_at(data.as_str(), source_name, now),
        None => Err(SkipReason::MissingData),
    }
}

/// The item that the story `item` gives.
pub fn parse_lobsters_item(item: &str, source_name: &str) -> (r: Result<FeedItem, SkipReason>)
    ensures
        item_view(r) == lobsters_item(source_name@, item@),
{
    let title = match coerce(&get_member(item, "title")) {
        Some(title) => title,
        None => {
            return Err(SkipReason::MissingTitle);
        },
    };
    let own = match as_plain(&get_member(item, "url")) {
        Some(url) => if url.as_str().unicode_len() > 0 {
            Some(url)
        } else {
            None
        },
        None => None,
    };
    let url = match own {
        Some(url) => url,
        None => match as_plain(&get_member(item, "comments_url")) {
            Some(url) => url,
            None => {
                return Err(SkipReason::MissingUrlOrCommentsUrl);
            },
        },
    };
    let timestamp = as_plain(&get_member(item, "created_at"));
    let tags = read_tags(&get_member(item, "tags"));
    Ok(make_item(source_name, title, url, timestamp, tags, item))
}

/// The item that the element `item` of the generic shape gives.
pub fn parse_generic_item(item: &str, source_name: &str) -> (r: Result<FeedItem, SkipReason>)
    ensures
        item_view(r) == generic_item(source_name@, item@),
{
    let url = match as_plain(&first_of_three(item, "url", "link", "href")) {
        Some(url) => url,
        None => {
            return Err(SkipReason::NoUrlField);
        },
    };
    let title = match coerce(&first_of_three(item, "title", "name", "headline")) {
        Some(title) => title,
        None => "Untitled".to_string(),
    };
    let tags: Vec<String> = Vec::new();
    assert(texts(tags@) =~= Seq::empty());
    Ok(make_item(source_name, title, url, None, tags, item))
}

/// The item that an element of a response gives, or why it gives none.
pub fn parse_item(shape: FeedShape, element: &str, source_name: &str, now: &str) -> (r: Result<
    FeedItem,
    SkipReason,
>)
    ensures
        item_view(r) == item_of(shape, source_name@, element@, now@),
{
    match shape {
        FeedShape::HackerNews => parse_hackernews_item(element, source_name),
        FeedShape::GitHub => parse_github_item(element, source_name),
        FeedShape::Reddit => parse_reddit_child(element, source_name, now),
        FeedShape::Lobsters => parse_lobsters_item(element, source_name),
        FeedShape::Generic => parse_generic_item(element, source_name),
    }
}

/// The elements of the body of a response, as the shape has them.
fn read_elements(shape: FeedShape, body: &str) -> (r: Option<Vec<String>>)
    ensures
        match r {
            Some(v) => elements_of(shape, body@) == Some(texts(v@)),
            None => elements_of(shape, body@) is None,
        },
{
    match shape {
        FeedShape::HackerNews => match get_elements(body) {
            Some(elements) => Some(elements),
            None => {
                let none: Vec<String> = Vec::new();
                assert(texts(none@) =~= Seq::empty());
                Some(none)
            },
        },
        FeedShape::GitHub => match get_member(body, "items") {
            Some(t) => get_elements(t.as_str()),
            None => None,
        },
        FeedShape::Reddit => match get_member(body, "data") {
            Some(data) => match get_member(data.as_str(), "children") {
                Some(t) => get_elements(t.as_str()),
                None => None,
            },
            None => None,
        },
        _ => get_elements(body),
    }
}

/// Reads the body of a response in the given shape.
///
/// The body fails as a whole when it is no JSON, and when it lacks the array
/// that the shape asks for. Otherwise every element of the array gives an
/// item or is skipped with its reason, and the items come in the order of the
/// response.
pub fn normalize_as(shape: FeedShape, body: &str, source_name: &str, now: &str) -> (r: Result<
    Normalized,
    ParseError,
>)
    ensures
        outcome_view(r) == normalized_as(shape, source_name@, body@, now@),
{
    match read(body) {
        Err(e) => {
            return Err(ParseError::MalformedJson(e));
        },
        Ok(_) => {},
    }
    let elements = match read_elements(shape, body) {
        Some(elements) => elements,
        None => {
            return Err(ParseError::UnexpectedShape(shape));
        },
    };
    let ghost all = texts(elements@);
    let mut items: Vec<FeedItem> = Vec::new();
    let mut skipped: Vec<Skipped> = Vec::new();
    let mut i: usize = 0;
    assert(all.take(0) =~= Seq::empty());
    assert(item_views(items@) =~= Seq::empty());
    while i < elements.len()
        invariant
            all == texts(elements@),
            0 <= i <= elements@.len(),
            item_views(items@) == kept_items(shape, source_name@, all.take(i as int), now@),
            skipped@ == skipped_items(shape, source_name@, all.take(i as int), now@),
        decreases elements@.len() - i,
    {
        proof {
            assert(all.take(i + 1).drop_last() =~= all.take(i as int));
            assert(all.take(i + 1).last() == elements@[i as int]@);
        }
        match parse_item(shape, elements[i].as_str(), source_name, now) {
            Ok(item) => {
                items.push(item);
                assert(item_views(items@) =~= kept_items(
                    shape,
                    source_name@,
                    all.take(i + 1),
                    now@,
                ));
            },
            Err(reason) => {
                skipped.push(Skipped { index: i, reason });
            },
        }
        i = i + 1;
    }
    assert(all.take(elements@.len() as int) =~= all);
    Ok(Normalized { items, skipped })
}

/// Reads an array of story numbers.
pub fn parse_hackernews(body: &str, source_name: &str) -> (r: Result<Normalized, ParseError>)
    ensures
        outcome_view(r) == normalized_as(FeedShape::HackerNews, source_name@, body@, Seq::empty()),
{
    proof {
        reveal_strlit("");
        assert(""@ =~= Seq::<char>::empty());
    }
    normalize_as(FeedShape::HackerNews, body, source_name, "")
}

/// Reads the result of a repository search.
pub fn parse_github(body: &str, source_name: &str) -> (r: Result<Normalized, ParseError>)
    ensures
        outcome_view(r) == normalized_as(FeedShape::GitHub, source_name@, body@, Seq::empty()),
{
    proof {
        reveal_strlit("");
        assert(""@ =~= Seq::<char>::empty());
    }
    normalize_as(FeedShape::GitHub, body, source_name, "")
}

/// Reads a listing of posts; the time of the call stands in for a time that
/// the calendar cannot hold.
pub fn parse_reddit(body: &str, source_name: &str) -> (r: Result<Normalized, ParseError>)
    ensures
        exists|now: Seq<char>|
            #[trigger] normalized_as(FeedShape::Reddit, source_name@, body@, now) == outcome_view(r),
{
    let now = current_time();
    let r = parse_reddit_at(body, source_name, now.as_str());
    assert(normalized_as(FeedShape::Reddit, source_name@, body@, now@) == outcome_view(r));
    r
}

/// Reads a listing of posts; `now` stands in for a time that the calendar
/// cannot hold.
pub fn parse_reddit_at(body: &str, source_name: &str, now: &str) -> (r: Result<
    Normalized,
    ParseError,
>)
    ensures
        outcome_view(r) == normalized_as(FeedShape::Reddit, source_name@, body@, now@),
{
    normalize_as(FeedShape::Reddit, body, source_name, now)
}

/// Reads an array of stories.
pub fn parse_lobsters(body: &str, source_name: &str) -> (r: Result<Normalized, ParseError>)
    ensures
        outcome_view(r) == normalized_as(FeedShape::Lobsters, source_name@, body@, Seq::empty()),
{
    proof {
        reveal_strlit("");
        assert(""@ =~= Seq::<char>::empty());
    }
    normalize_as(FeedShape::Lobsters, body, source_name, "")
}

/// Reads an array of objects with a title and a link under common names.
pub fn parse_generic_json(body: &str, source_name: &str) -> (r: Result<Normalized, ParseError>)
    ensures
        outcome_view(r) == normalized_as(FeedShape::Generic, source_name@, body@, Seq::empty()),
{
    proof {
        reveal_strlit("");
        assert(""@ =~= Seq::<char>::empty());
    }
    normalize_as(FeedShape::Generic, body, source_name, "")
}

/// Reads the JSON body of a response of the source `source_name`, in the
/// shape that the name selects; the time of the call stands in for a time in
/// the body that the calendar cannot hold.
pub fn parse_json_feed(source_name: &str, body: &str) -> (r: Result<Normalized, ParseError>)
    ensures
        exists|now: Seq<char>| #[trigger] normalized(source_name@, body@, now) == outcome_view(r),
{
    let now = current_time();
    let r = parse_json_feed_at(source_name, body, now.as_str());
    assert(normalized(source_name@, body@, now@) == outcome_view(r));
    r
}

/// Reads the JSON body of a response of the source `source_name`, in the
/// shape that the name selects; `now` stands in for a time in the body that
/// the calendar cannot hold.
pub fn parse_json_feed_at(source_name: &str, body: &str, now: &str) -> (r: Result<
    Normalized,
    ParseError,
>)
    ensures
        outcome_view(r) == normalized(source_name@, body@, now@),
{
    normalize_as(detect_shape(source_name), body, source_name, now)
}

/// Reads the body of a response of the source `source_name`: the items, and
/// the elements that were skipped. A body in a format other than JSON is
/// refused. `now` stands in for a time in the body that the calendar cannot
/// hold.
pub fn normalize(source_name: &str, feed_type: &FeedType, body: &str, now: &str) -> (r: Result<
    Normalized,
    ParseError,
>)
    ensures
        outcome_view(r) == feed_items(source_name@, *feed_type, body@, now@),
{
    match feed_type {
        FeedType::Json => parse_json_feed_at(source_name, body, now),
        FeedType::Rss => Err(ParseError::RssNotImplemented),
        FeedType::Atom => Err(ParseError::AtomNotImplemented),
    }
}

/// The value of the items of a response, or of what went wrong.
pub open spec fn items_view(r: Result<Vec<FeedItem>, ParseError>) -> Result<
    Seq<FeedItemView>,
    ParseErrorView,
> {
    match r {
        Ok(items) => Ok(item_views(items@)),
        Err(e) => Err(e@),
    }
}

/// The items of what a body gives, or what went wrong.
pub open spec fn items_of(r: Result<NormalizedView, ParseErrorView>) -> Result<
    Seq<FeedItemView>,
    ParseErrorView,
> {
    match r {
        Ok(n) => Ok(n.items),
        Err(e) => Err(e),
    }
}

/// The items that the body of a response of the source `source_name` gives,
/// in the order of the response; the time of the call stands in for a time in
/// the body that the calendar cannot hold.
pub fn parse_feed(source_name: &str, feed_type: &FeedType, body: &str) -> (r: Result<
    Vec<FeedItem>,
    ParseError,
>)
    ensures
        exists|now: Seq<char>|
            items_of(#[trigger] feed_items(source_name@, *feed_type, body@, now)) == items_view(r),
{
    let now = current_time();
    let r = parse_feed_at(source_name, feed_type, body, now.as_str());
    assert(items_of(feed_items(source_name@, *feed_type, body@, now@)) == items_view(r));
    r
}

/// The items that the body of a response of the source `source_name` gives,
/// in the order of the response; `now` stands in for a time in the body that
/// the calendar cannot hold.
pub fn parse_feed_at(source_name: &str, feed_type: &FeedType, body: &str, now: &str) -> (r: Result<
    Vec<FeedItem>,
    ParseError,
>)
    ensures
        items_view(r) == items_of(feed_items(source_name@, *feed_type, body@, now@)),
{
    match normalize(source_name, feed_type, body, now) {
        Ok(n) => Ok(n.items),
        Err(e) => Err(e),
    }
}

/// The format that a word names: `json`, `rss` or `atom`.
pub fn parse_feed_type(word: &str) -> (r: Option<FeedType>)
    ensures
        r == feed_type_named(word@),
{
    if same_text(word, "json") {
        Some(FeedType::Json)
    } else if same_text(word, "rss") {
        Some(FeedType::Rss)
    } else if same_text(word, "atom") {
        Some(FeedType::Atom)
    } else {
        None
    }
}

/// The value of the items of a response, or of the description of what went
/// wrong.
pub open spec fn parsed_view(r: Result<Vec<FeedItem>, String>) -> Result<
    Seq<FeedItemView>,
    Seq<char>,
> {
    match r {
        Ok(items) => Ok(item_views(items@)),
        Err(e) => Err(e@),
    }
}

/// Reads the bodies of responses, with the format named by a word.
pub struct Parser;

impl Parser {
    /// The items that the body of a response of the source `source_name`
    /// gives, or the description of what went wrong; the time of the call
    /// stands in for a time in the body that the calendar cannot hold.
    pub fn parse(source_name: &str, feed_type: &str, body: &str) -> (r: Result<
        Vec<FeedItem>,
        String,
    >)
        ensures
            exists|now: Seq<char>|
                #[trigger] parsed(source_name@, feed_type@, body@, now) == parsed_view(r),
    {
        let now = current_time();
        let r = Parser::parse_at(source_name, feed_type, body, now.as_str());
        assert(parsed(source_name@, feed_type@, body@, now@) == parsed_view(r));
        r
    }

    /// The items that the body of a response of the source `source_name`
    /// gives, or the description of what went wrong; `now` stands in for a
    /// time in the body that the calendar cannot hold.
    pub fn parse_at(source_name: &str, feed_type: &str, body: &str, now: &str) -> (r: Result<
        Vec<FeedItem>,
        String,
    >)
        ensures
            parsed_view(r) == parsed(source_name@, feed_type@, body@, now@),
    {
        match parse_feed_type(feed_type) {
            None => {
                let mut e = "unknown feed type '".to_string();
                e.append(feed_type);
                e.append("': must be one of: json, rss, atom");
                Err(e)
            },
            Some(format) => match parse_feed_at(source_name, &format, body, now) {
                Ok(items) => Ok(items),
                Err(e) => Err(e.message()),
            },
        }
    }
}

} // verus!

//! The item store and the fetch log.
//!
//! The store keeps one row per item identifier and an append-only log with one
//! row per fetch. A batch of fetch results is committed as a whole or not at
//! all: [`store_results`] either applies every result of the batch or leaves
//! the store as it was. Committing an item whose identifier is already stored
//! overwrites the row's item and keeps its time of creation.

use crate::models::{
    item_views, report_views, result_views, FeedItem, FeedItemView, FeedResult, FeedResultView,
    FetchStatus, SourceReport, SourceReportView,
};
use crate::clock::current_time;
use crate::text::{
    copy_opt_text, lemma_text_before_transitive, lemma_text_order_total, opt_text, rank, same_text,
    text_before, texts, Rank,
};
use vstd::prelude::*;

verus! {

/// One row of the item table.
#[derive(Debug)]
pub struct StoredItem {
    /// The item as it was last committed.
    pub item: FeedItem,
    /// Time of the commit that first stored the item.
    pub created_at: String,
}

/// The mathematical value of a [`StoredItem`].
pub struct StoredItemView {
    pub item: FeedItemView,
    pub created_at: Seq<char>,
}

impl View for StoredItem {
    type V = StoredItemView;

    open spec fn view(&self) -> StoredItemView {
        StoredItemView { item: self.item@, created_at: self.created_at@ }
    }
}

impl Clone for StoredItem {
    fn clone(&self) -> (r: Self)
        ensures
            r@ == self@,
    {
        StoredItem { item: self.item.clone(), created_at: self.created_at.clone() }
    }
}

/// One row of the fetch log.
#[derive(Debug)]
pub struct FetchLogEntry {
    /// Name of the source that was fetched.
    pub source: String,
    /// Time of the commit that logged the fetch.
    pub fetched_at: String,
    /// Whether the fetch succeeded.
    pub status: FetchStatus,
    /// Number of items that the fetch contributed to the commit.
    pub items_count: u64,
    /// What went wrong, if the fetch failed.
    pub error_message: Option<String>,
    /// Time the fetch took, in milliseconds.
    pub duration_ms: u64,
}

/// The mathematical value of a [`FetchLogEntry`].
pub struct FetchLogEntryView {
    pub source: Seq<char>,
    pub fetched_at: Seq<char>,
    pub status: FetchStatus,
    pub items_count: nat,
    pub error_message: Option<Seq<char>>,
    pub duration_ms: u64,
}

impl View for FetchLogEntry {
    type V = FetchLogEntryView;

    open spec fn view(&self) -> FetchLogEntryView {
        FetchLogEntryView {
            source: self.source@,
            fetched_at: self.fetched_at@,
            status: self.status,
            items_count: self.items_count as nat,
            error_message: opt_text(self.error_message),
            duration_ms: self.duration_ms,
        }
    }
}

impl Clone for FetchLogEntry {
    fn clone(&self) -> (r: Self)
        ensures
            r@ == self@,
    {
        FetchLogEntry {
            source: self.source.clone(),
            fetched_at: self.fetched_at.clone(),
            status: self.status,
            items_count: self.items_count,
            error_message: copy_opt_text(&self.error_message),
            duration_ms: self.duration_ms,
        }
    }
}

/// The values of a sequence of item rows.
pub open spec fn row_views(v: Seq<StoredItem>) -> Seq<StoredItemView> {
    Seq::new(v.len(), |i: int| v[i]@)
}

/// The values of a sequence of log rows.
pub open spec fn log_views(v: Seq<FetchLogEntry>) -> Seq<FetchLogEntryView> {
    Seq::new(v.len(), |i: int| v[i]@)
}

/// Why the store refused an operation.
#[derive(Debug, Clone, Copy, PartialEq, Eq, Structural)]
pub enum StoreError {
    /// The batch holds more new items than the store has room for.
    Full,
    /// The rows handed over do not make a store: an identifier occurs twice,
    /// or there are more rows than the store has room for.
    Corrupt,
}

impl StoreError {
    /// The error in words.
    pub open spec fn text(self) -> Seq<char> {
        match self {
            StoreError::Full => "storage error: the store is full, nothing was committed"@,
            StoreError::Corrupt => "storage error: the store is corrupted"@,
        }
    }

    /// The error in words.
    pub fn message(&self) -> (s: String)
        ensures
            s@ == self.text(),
    {
        match self {
            StoreError::Full => "storage error: the store is full, nothing was committed".to_string(),
            StoreError::Corrupt => "storage error: the store is corrupted".to_string(),
        }
    }
}

/// The mathematical value of a [`Store`]: the item table in the order in which
/// the rows were first stored, the fetch log in the order in which it was
/// written, and the number of item rows the store has room for.
pub struct StoreView {
    pub items: Seq<StoredItemView>,
    pub log: Seq<FetchLogEntryView>,
    pub capacity: nat,
}

/// Some row of `items` has the identifier `id`.
pub open spec fn holds_id(items: Seq<StoredItemView>, id: Seq<char>) -> bool {
    exists|i: int| 0 <= i < items.len() && (#[trigger] items[i]).item.id == id
}

/// The position of a row of `items` with the identifier `id`, if there is one.
pub open spec fn position_of(items: Seq<StoredItemView>, id: Seq<char>) -> int {
    choose|i: int| 0 <= i < items.len() && (#[trigger] items[i]).item.id == id
}

/// No identifier occurs in two rows.
pub open spec fn distinct_ids(items: Seq<StoredItemView>) -> bool {
    forall|i: int, j: int|
        0 <= i < j < items.len() ==> (#[trigger] items[i]).item.id != (#[trigger] items[j]).item.id
}

/// The item table after `item` was committed at the time `now`: a row with the
/// item's identifier takes the new item and keeps its time of creation; where
/// there is none, a row created at `now` is appended.
pub open spec fn upsert(items: Seq<StoredItemView>, item: FeedItemView, now: Seq<char>) -> Seq<
    StoredItemView,
> {
    if holds_id(items, item.id) {
        let k = position_of(items, item.id);
        items.update(k, StoredItemView { item, created_at: items[k].created_at })
    } else {
        items.push(StoredItemView { item, created_at: now })
    }
}

/// The item table after the items of `batch` were committed in order.
pub open spec fn upsert_all(
    items: Seq<StoredItemView>,
    batch: Seq<FeedItemView>,
    now: Seq<char>,
) -> Seq<StoredItemView>
    decreases batch.len(),
{
    if batch.len() == 0 {
        items
    } else {
        upsert(upsert_all(items, batch.drop_last(), now), batch.last(), now)
    }
}

/// The items that a result contributes to a commit: those of a successful
/// fetch, none of a failed one.
pub open spec fn accepted_items(r: FeedResultView) -> Seq<FeedItemView> {
    if r.status == FetchStatus::Success {
        r.items
    } else {
        Seq::empty()
    }
}

/// The items that a batch of results contributes to a commit, in order.
pub open spec fn batch_items(results: Seq<FeedResultView>) -> Seq<FeedItemView>
    decreases results.len(),
{
    if results.len() == 0 {
        Seq::empty()
    } else {
        batch_items(results.drop_last()) + accepted_items(results.last())
    }
}

/// The log row written for a result committed at the time `now`.
pub open spec fn log_row(r: FeedResultView, now: Seq<char>) -> FetchLogEntryView {
    FetchLogEntryView {
        source: r.source_name,
        fetched_at: now,
        status: r.status,
        items_count: accepted_items(r).len(),
        error_message: r.error_message,
        duration_ms: r.duration_ms,
    }
}

/// The log rows written for a batch of results, one per result, in order.
pub open spec fn log_rows(results: Seq<FeedResultView>, now: Seq<char>) -> Seq<FetchLogEntryView> {
    Seq::new(results.len(), |i: int| log_row(results[i], now))
}

impl StoreView {
    /// No identifier is stored twice, and the rows fit the store.
    pub open spec fn well_formed(self) -> bool {
        &&& distinct_ids(self.items)
        &&& self.items.len() <= self.capacity
    }

    /// The store after the batch `results` was committed at the time `now`.
    pub open spec fn committed(self, results: Seq<FeedResultView>, now: Seq<char>) -> StoreView {
        StoreView {
            items: upsert_all(self.items, batch_items(results), now),
            log: self.log + log_rows(results, now),
            capacity: self.capacity,
        }
    }
}

/// What a commit reports: the number of items in the batch, and how many of
/// them were not stored before.
#[derive(Debug, Clone, Copy, PartialEq, Eq, Structural)]
pub struct CommitSummary {
    pub total_items: usize,
    pub new_items: usize,
}

/// The item store with its fetch log.
#[derive(Debug)]
pub struct Store {
    items: Vec<StoredItem>,
    log: Vec<FetchLogEntry>,
    capacity: usize,
}

impl View for Store {
    type V = StoreView;

    closed spec fn view(&self) -> StoreView {
        StoreView {
            items: row_views(self.items@),
            log: log_views(self.log@),
            capacity: self.capacity as nat,
        }
    }
}

/// Committing an item keeps every identifier that was stored and adds the
/// item's own; the table grows by one row exactly when the identifier is new.
pub proof fn lemma_upsert(items: Seq<StoredItemView>, item: FeedItemView, now: Seq<char>)
    ensures
        forall|id: Seq<char>|
            holds_id(upsert(items, item, now), id) <==> holds_id(items, id) || id == item.id,
        upsert(items, item, now).len() == items.len() + if holds_id(items, item.id) {
            0int
        } else {
            1int
        },
        distinct_ids(items) ==> distinct_ids(upsert(items, item, now)),
{
    let after = upsert(items, item, now);
    if holds_id(items, item.id) {
        let k = position_of(items, item.id);
        assert(after[k].item.id == item.id);
        assert forall|id: Seq<char>| holds_id(after, id) <==> holds_id(items, id) || id
            == item.id by {
            if holds_id(items, id) {
                let i = position_of(items, id);
                assert(after[i].item.id == id);
            }
            if holds_id(after, id) {
                let i = position_of(after, id);
                assert(items[i].item.id == id);
            }
        }
        if distinct_ids(items) {
            assert forall|i: int, j: int| 0 <= i < j < after.len() implies (#[trigger] after[i]).item.id
                != (#[trigger] after[j]).item.id by {
                assert(after[i].item.id == items[i].item.id);
                assert(after[j].item.id == items[j].item.id);
            }
        }
    } else {
        let n = items.len() as int;
        assert(after[n].item.id == item.id);
        assert forall|id: Seq<char>| holds_id(after, id) <==> holds_id(items, id) || id
            == item.id by {
            if holds_id(items, id) {
                let i = position_of(items, id);
                assert(after[i].item.id == id);
            }
            if holds_id(after, id) {
                let i = position_of(after, id);
                if i < n {
                    assert(items[i].item.id == id);
                }
            }
        }
        if distinct_ids(items) {
            assert forall|i: int, j: int| 0 <= i < j < after.len() implies (#[trigger] after[i]).item.id
                != (#[trigger] after[j]).item.id by {
                assert(after[i].item.id == items[i].item.id);
                if j < n {
                    assert(after[j].item.id == items[j].item.id);
                }
            }
        }
    }
}

/// Committing a batch keeps the identifiers distinct and never shrinks the
/// table.
pub proof fn lemma_upsert_all(items: Seq<StoredItemView>, batch: Seq<FeedItemView>, now: Seq<char>)
    ensures
        distinct_ids(items) ==> distinct_ids(upsert_all(items, batch, now)),
        items.len() <= upsert_all(items, batch, now).len() <= items.len() + batch.len(),
        forall|id: Seq<char>| holds_id(items, id) ==> holds_id(upsert_all(items, batch, now), id),
    decreases batch.len(),
{
    if batch.len() > 0 {
        lemma_upsert_all(items, batch.drop_last(), now);
        lemma_upsert(upsert_all(items, batch.drop_last(), now), batch.last(), now);
    }
}

/// Committing `a + b` is committing `a` and then `b`.
pub proof fn lemma_upsert_all_concat(
    items: Seq<StoredItemView>,
    a: Seq<FeedItemView>,
    b: Seq<FeedItemView>,
    now: Seq<char>,
)
    ensures
        upsert_all(items, a + b, now) == upsert_all(upsert_all(items, a, now), b, now),
    decreases b.len(),
{
    if b.len() == 0 {
        assert(a + b =~= a);
    } else {
        assert((a + b).drop_last() =~= a + b.drop_last());
        assert((a + b).last() == b.last());
        lemma_upsert_all_concat(items, a, b.drop_last(), now);
    }
}

/// The last item of `batch` with the identifier `id`, if the batch has one.
pub open spec fn last_with_id(batch: Seq<FeedItemView>, id: Seq<char>) -> Option<FeedItemView>
    decreases batch.len(),
{
    if batch.len() == 0 {
        None
    } else if batch.last().id == id {
        Some(batch.last())
    } else {
        last_with_id(batch.drop_last(), id)
    }
}

/// What a commit leaves in each row: a row whose identifier occurs in the
/// batch holds the last item of the batch with that identifier, any other row
/// holds what it held; rows that were stored before keep their place, their
/// identifier and their time of creation; rows that were added are created at
/// the time of the commit.
pub proof fn lemma_commit_rows(items: Seq<StoredItemView>, batch: Seq<FeedItemView>, now: Seq<char>)
    requires
        distinct_ids(items),
    ensures
        ({
            let after = upsert_all(items, batch, now);
            &&& distinct_ids(after)
            &&& items.len() <= after.len()
            &&& forall|i: int|
                0 <= i < items.len() ==> (#[trigger] after[i]).item.id == items[i].item.id
                    && after[i].created_at == items[i].created_at
            &&& forall|i: int|
                0 <= i < after.len() ==> match last_with_id(batch, (#[trigger] after[i]).item.id) {
                    Some(x) => after[i].item == x,
                    None => i < items.len() && after[i].item == items[i].item,
                }
            &&& forall|i: int| items.len() <= i < after.len() ==> (#[trigger] after[i]).created_at == now
            &&& forall|j: int| 0 <= j < batch.len() ==> holds_id(after, (#[trigger] batch[j]).id)
        }),
    decreases batch.len(),
{
    let after = upsert_all(items, batch, now);
    if batch.len() > 0 {
        let front = batch.drop_last();
        let x = batch.last();
        let mid = upsert_all(items, front, now);
        lemma_commit_rows(items, front, now);
        lemma_upsert(mid, x, now);
        assert(after == upsert(mid, x, now));
        if holds_id(mid, x.id) {
            let k = position_of(mid, x.id);
            assert(mid[k].item.id == x.id);
            assert forall|i: int| 0 <= i < after.len() implies match last_with_id(
                batch,
                (#[trigger] after[i]).item.id,
            ) {
                Some(y) => after[i].item == y,
                None => i < items.len() && after[i].item == items[i].item,
            } by {
                if i != k {
                    assert(after[i] == mid[i]);
                    if i < k {
                        assert(mid[i].item.id != mid[k].item.id);
                    } else {
                        assert(mid[k].item.id != mid[i].item.id);
                    }
                }
            }
            assert forall|i: int| 0 <= i < items.len() implies (#[trigger] after[i]).item.id
                == items[i].item.id && after[i].created_at == items[i].created_at by {
                assert(mid[i].item.id == items[i].item.id);
            }
            assert forall|i: int| items.len() <= i < after.len() implies (#[trigger] after[i]).created_at
                == now by {
                assert(mid[i].created_at == now);
            }
        } else {
            let n = mid.len() as int;
            assert forall|i: int| 0 <= i < after.len() implies match last_with_id(
                batch,
                (#[trigger] after[i]).item.id,
            ) {
                Some(y) => after[i].item == y,
                None => i < items.len() && after[i].item == items[i].item,
            } by {
                if i < n {
                    assert(after[i] == mid[i]);
                    assert(mid[i].item.id != x.id);
                }
            }
            assert forall|i: int| 0 <= i < items.len() implies (#[trigger] after[i]).item.id
                == items[i].item.id && after[i].created_at == items[i].created_at by {
                assert(mid[i].item.id == items[i].item.id);
            }
            assert forall|i: int| items.len() <= i < after.len() implies (#[trigger] after[i]).created_at
                == now by {
                if i < n {
                    assert(mid[i].created_at == now);
                }
            }
        }
        assert forall|j: int| 0 <= j < batch.len() implies holds_id(after, (#[trigger] batch[j]).id) by {
            if j < front.len() {
                assert(front[j] == batch[j]);
                assert(holds_id(mid, front[j].id));
            }
        }
    }
}

/// Committing a batch whose identifiers are all stored adds no row.
pub proof fn lemma_known_batch_adds_nothing(
    items: Seq<StoredItemView>,
    batch: Seq<FeedItemView>,
    now: Seq<char>,
)
    requires
        forall|j: int| 0 <= j < batch.len() ==> holds_id(items, (#[trigger] batch[j]).id),
    ensures
        upsert_all(items, batch, now).len() == items.len(),
    decreases batch.len(),
{
    if batch.len() > 0 {
        let front = batch.drop_last();
        assert forall|j: int| 0 <= j < front.len() implies holds_id(items, (#[trigger] front[j]).id) by {
            assert(front[j] == batch[j]);
        }
        lemma_known_batch_adds_nothing(items, front, now);
        lemma_upsert_all(items, front, now);
        lemma_upsert(upsert_all(items, front, now), batch.last(), now);
        assert(holds_id(items, batch[batch.len() - 1].id));
    }
}

/// Committing the same items a second time, at whatever time, leaves the item
/// table as the first commit left it.
pub proof fn lemma_upsert_all_idempotent(
    items: Seq<StoredItemView>,
    batch: Seq<FeedItemView>,
    now: Seq<char>,
    later: Seq<char>,
)
    requires
        distinct_ids(items),
    ensures
        upsert_all(upsert_all(items, batch, now), batch, later) == upsert_all(items, batch, now),
{
    let once = upsert_all(items, batch, now);
    let twice = upsert_all(once, batch, later);
    lemma_commit_rows(items, batch, now);
    lemma_commit_rows(once, batch, later);
    lemma_known_batch_adds_nothing(once, batch, later);
    assert forall|i: int| 0 <= i < once.len() implies twice[i] == once[i] by {
        assert(twice[i].item.id == once[i].item.id);
        assert(twice[i].created_at == once[i].created_at);
    }
    assert(twice =~= once);
}

/// Idempotent storage: after a batch was committed, committing the same batch
/// again leaves the item table unchanged, so the second commit counts no new
/// item, and it finds room whenever the first one did. Every item of the batch
/// is stored, and its row holds the last item of the batch with its identifier.
pub proof fn lemma_recommit_adds_nothing(
    store: StoreView,
    results: Seq<FeedResultView>,
    now: Seq<char>,
    later: Seq<char>,
)
    requires
        store.well_formed(),
    ensures
        ({
            let once = store.committed(results, now);
            let twice = once.committed(results, later);
            &&& twice.items == once.items
            &&& twice.items.len() - once.items.len() == 0
            &&& once.well_formed() ==> twice.well_formed()
            &&& forall|j: int|
                0 <= j < batch_items(results).len() ==> {
                    let id = (#[trigger] batch_items(results)[j]).id;
                    &&& holds_id(twice.items, id)
                    &&& Some(twice.items[position_of(twice.items, id)].item) == last_with_id(
                        batch_items(results),
                        id,
                    )
                }
        }),
{
    let batch = batch_items(results);
    let once = store.committed(results, now);
    lemma_upsert_all_idempotent(store.items, batch, now, later);
    lemma_commit_rows(store.items, batch, now);
    assert forall|j: int| 0 <= j < batch.len() implies {
        let id = (#[trigger] batch[j]).id;
        &&& holds_id(once.items, id)
        &&& Some(once.items[position_of(once.items, id)].item) == last_with_id(batch, id)
    } by {
        let id = batch[j].id;
        let p = position_of(once.items, id);
        assert(once.items[p].item.id == id);
        lemma_last_with_id_some(batch, j);
    }
}

/// An identifier that occurs in a batch has a last item in it.
pub proof fn lemma_last_with_id_some(batch: Seq<FeedItemView>, j: int)
    requires
        0 <= j < batch.len(),
    ensures
        last_with_id(batch, batch[j].id) is Some,
        last_with_id(batch, batch[j].id)->0.id == batch[j].id,
    decreases batch.len(),
{
    if batch.last().id != batch[j].id {
        assert(batch.drop_last()[j] == batch[j]);
        lemma_last_with_id_some(batch.drop_last(), j);
    }
}

/// The items of a batch extended by one result.
pub proof fn lemma_batch_items_push(results: Seq<FeedResultView>, r: FeedResultView)
    ensures
        batch_items(results.push(r)) == batch_items(results) + accepted_items(r),
{
    assert(results.push(r).drop_last() =~= results);
}

impl Store {
    /// Whether the store's rows fit together; every store handed out by this
    /// module is well formed.
    pub open spec fn well_formed(&self) -> bool {
        self@.well_formed()
    }

    /// An empty store without a limit of its own.
    pub fn new() -> (s: Store)
        ensures
            s.well_formed(),
            s@ == (StoreView { items: Seq::empty(), log: Seq::empty(), capacity: usize::MAX as nat }),
    {
        let s = Store { items: Vec::new(), log: Vec::new(), capacity: usize::MAX };
        assert(row_views(s.items@) =~= Seq::empty());
        assert(log_views(s.log@) =~= Seq::empty());
        s
    }

    /// An empty store with room for `capacity` items.
    pub fn with_capacity(capacity: usize) -> (s: Store)
        ensures
            s.well_formed(),
            s@ == (StoreView { items: Seq::empty(), log: Seq::empty(), capacity: capacity as nat }),
    {
        let s = Store { items: Vec::new(), log: Vec::new(), capacity };
        assert(row_views(s.items@) =~= Seq::empty());
        assert(log_views(s.log@) =~= Seq::empty());
        s
    }

    /// A store made of rows that were kept elsewhere. The rows are refused as
    /// corrupt when an identifier occurs twice or when there are more of them
    /// than `capacity`.
    pub fn from_rows(items: Vec<StoredItem>, log: Vec<FetchLogEntry>, capacity: usize) -> (r: Result<
        Store,
        StoreError,
    >)
        ensures
            match r {
                Ok(s) => s.well_formed() && s@ == (StoreView {
                    items: row_views(items@),
                    log: log_views(log@),
                    capacity: capacity as nat,
                }),
                Err(e) => e == StoreError::Corrupt && !(distinct_ids(row_views(items@))
                    && items@.len() <= capacity),
            },
    {
        if items.len() > capacity {
            return Err(StoreError::Corrupt);
        }
        let mut j: usize = 0;
        while j < items.len()
            invariant
                0 <= j <= items@.len(),
                forall|a: int, b: int|
                    0 <= a < b < j ==> (#[trigger] items@[a])@.item.id != (#[trigger] items@[b])@.item.id,
            decreases items@.len() - j,
        {
            let mut i: usize = 0;
            while i < j
                invariant
                    0 <= i <= j < items@.len(),
                    forall|a: int| 0 <= a < i ==> (#[trigger] items@[a])@.item.id != items@[j as int]@.item.id,
                decreases j - i,
            {
                if same_text(items[i].item.id.as_str(), items[j].item.id.as_str()) {
                    assert(row_views(items@)[i as int].item.id == row_views(items@)[j as int].item.id);
                    return Err(StoreError::Corrupt);
                }
                i = i + 1;
            }
            j = j + 1;
        }
        let s = Store { items, log, capacity };
        assert forall|a: int, b: int| 0 <= a < b < s@.items.len() implies (#[trigger] s@.items[a]).item.id
            != (#[trigger] s@.items[b]).item.id by {
            assert(items@[a]@.item.id != items@[b]@.item.id);
        }
        Ok(s)
    }

    /// The number of items stored.
    pub fn len(&self) -> (n: usize)
        ensures
            n == self@.items.len(),
    {
        self.items.len()
    }

    /// The number of fetches logged.
    pub fn log_len(&self) -> (n: usize)
        ensures
            n == self@.log.len(),
    {
        self.log.len()
    }

    /// The number of items the store has room for.
    pub fn capacity(&self) -> (n: usize)
        ensures
            n == self@.capacity,
    {
        self.capacity
    }

    /// The item rows, in the order in which they were first stored.
    pub fn rows(&self) -> (r: &Vec<StoredItem>)
        ensures
            row_views(r@) == self@.items,
    {
        &self.items
    }

    /// The log rows, in the order in which they were written.
    pub fn log(&self) -> (r: &Vec<FetchLogEntry>)
        ensures
            log_views(r@) == self@.log,
    {
        &self.log
    }

    /// The row stored under the identifier `id`, if there is one.
    pub fn get(&self, id: &str) -> (r: Option<&StoredItem>)
        requires
            self.well_formed(),
        ensures
            r is Some <==> holds_id(self@.items, id@),
            r matches Some(row) ==> row@ == self@.items[position_of(self@.items, id@)],
    {
        match find_row(&self.items, id) {
            Some(k) => Some(&self.items[k]),
            None => None,
        }
    }
}

/// The position of the row with the identifier `id`.
fn find_row(items: &Vec<StoredItem>, id: &str) -> (r: Option<usize>)
    requires
        distinct_ids(row_views(items@)),
    ensures
        r is Some <==> holds_id(row_views(items@), id@),
        r matches Some(k) ==> k < items@.len() && k == position_of(row_views(items@), id@),
{
    let ghost rows = row_views(items@);
    let mut i: usize = 0;
    while i < items.len()
        invariant
            rows == row_views(items@),
            distinct_ids(rows),
            0 <= i <= items@.len(),
            forall|j: int| 0 <= j < i ==> (#[trigger] rows[j]).item.id != id@,
        decreases items@.len() - i,
    {
        if same_text(items[i].item.id.as_str(), id) {
            proof {
                assert(rows[i as int].item.id == id@);
                let c = position_of(rows, id@);
                assert(rows[c].item.id == id@);
                if c < i {
                    assert(rows[c].item.id != rows[i as int].item.id);
                }
                if i < c {
                    assert(rows[i as int].item.id != rows[c].item.id);
                }
            }
            return Some(i);
        }
        i = i + 1;
    }
    None
}

/// The values of a sequence of borrowed items.
pub open spec fn ref_views(v: Seq<&FeedItem>) -> Seq<FeedItemView> {
    Seq::new(v.len(), |i: int| v[i]@)
}

/// Appends to `batch` the items that `result` contributes to a commit.
fn collect_items<'a>(batch: &mut Vec<&'a FeedItem>, result: &'a FeedResult)
    ensures
        ref_views(final(batch)@) == ref_views(old(batch)@) + accepted_items(result@),
{
    let ghost before = batch@;
    if let FetchStatus::Success = result.status {
        let mut j: usize = 0;
        while j < result.items.len()
            invariant
                0 <= j <= result.items@.len(),
                batch@.len() == before.len() + j,
                forall|n: int| 0 <= n < before.len() ==> batch@[n] == before[n],
                forall|n: int| 0 <= n < j ==> batch@[before.len() + n]@ == result.items@[n]@,
            decreases result.items@.len() - j,
        {
            batch.push(&result.items[j]);
            j = j + 1;
        }
    }
    assert(ref_views(batch@) =~= ref_views(before) + accepted_items(result@));
}

/// The log row for `result`, committed at the time `now`.
fn log_entry(result: &FeedResult, now: &str) -> (e: FetchLogEntry)
    ensures
        e@ == log_row(result@, now@),
{
    let count: usize = match result.status {
        FetchStatus::Success => result.items.len(),
        FetchStatus::Error => 0,
    };
    FetchLogEntry {
        source: result.source_name.clone(),
        fetched_at: now.to_string(),
        status: result.status,
        items_count: count as u64,
        error_message: copy_opt_text(&result.error_message),
        duration_ms: result.duration_ms,
    }
}

/// Commits one item to `rows`, unless that takes a row more than `capacity`.
fn upsert_row(rows: &mut Vec<StoredItem>, item: &FeedItem, now: &str, capacity: usize) -> (done: bool)
    requires
        distinct_ids(row_views(old(rows)@)),
        old(rows)@.len() <= capacity,
    ensures
        done <==> upsert(row_views(old(rows)@), item@, now@).len() <= capacity,
        done ==> row_views(final(rows)@) == upsert(row_views(old(rows)@), item@, now@),
        !done ==> final(rows)@ == old(rows)@,
{
    proof {
        lemma_upsert(row_views(rows@), item@, now@);
    }
    match find_row(rows, item.id.as_str()) {
        Some(p) => {
            let created_at = rows[p].created_at.clone();
            rows.set(p, StoredItem { item: item.clone(), created_at });
            assert(row_views(rows@) =~= upsert(row_views(old(rows)@), item@, now@));
            true
        },
        None => {
            if rows.len() >= capacity {
                return false;
            }
            rows.push(StoredItem { item: item.clone(), created_at: now.to_string() });
            assert(row_views(rows@) =~= upsert(row_views(old(rows)@), item@, now@));
            true
        },
    }
}

/// Commits a batch of fetch results at the time of the call, as a whole or
/// not at all; see [`store_results_at`].
pub fn store_results(store: &mut Store, results: &[FeedResult]) -> (r: Result<
    CommitSummary,
    StoreError,
>)
    requires
        old(store).well_formed(),
    ensures
        final(store).well_formed(),
        exists|now: Seq<char>|
            commit_outcome(old(store)@, result_views(results@), now, final(store)@, r),
{
    let now = current_time();
    let r = store_results_at(store, results, now.as_str());
    assert(commit_outcome(old(store)@, result_views(results@), now@, store@, r));
    r
}

/// What a commit at the time `now` comes to: it succeeds exactly when the
/// store has room for the batch, and then leaves the store as committed and
/// reports the number of items in the batch and the number of rows added;
/// else it is refused as [`StoreError::Full`] and leaves the store as it was.
pub open spec fn commit_outcome(
    before: StoreView,
    results: Seq<FeedResultView>,
    now: Seq<char>,
    after: StoreView,
    r: Result<CommitSummary, StoreError>,
) -> bool {
    &&& r is Ok <==> before.committed(results, now).well_formed()
    &&& match r {
        Ok(summary) => {
            &&& after == before.committed(results, now)
            &&& summary.total_items == batch_items(results).len()
            &&& summary.new_items == after.items.len() - before.items.len()
        },
        Err(e) => e == StoreError::Full && after == before,
    }
}

/// Commits a batch of fetch results at the time `now`, as a whole or not at
/// all.
///
/// For every item of every successful result, in order: an item whose
/// identifier is stored overwrites that row and keeps the row's time of
/// creation; any other item gets a new row, created at `now`. For every
/// result, successful or not, one row is appended to the fetch log.
///
/// The commit is refused with [`StoreError::Full`] exactly when the store has
/// no room for the new rows; the store is then left as it was. Otherwise the
/// summary gives the number of items in the batch and the number of rows that
/// were added.
pub fn store_results_at(store: &mut Store, results: &[FeedResult], now: &str) -> (r: Result<
    CommitSummary,
    StoreError,
>)
    requires
        old(store).well_formed(),
    ensures
        final(store).well_formed(),
        commit_outcome(old(store)@, result_views(results@), now@, final(store)@, r),
{
    let ghost rs = result_views(results@);
    let ghost old_items = store@.items;
    let ghost old_log = store@.log;

    // The items of the batch, in order, and the log rows to write.
    let mut batch: Vec<&FeedItem> = Vec::new();
    let mut entries: Vec<FetchLogEntry> = Vec::new();
    let mut i: usize = 0;
    assert(ref_views(batch@) =~= batch_items(rs.take(0)));
    while i < results.len()
        invariant
            rs == result_views(results@),
            0 <= i <= results@.len(),
            ref_views(batch@) == batch_items(rs.take(i as int)),
            entries@.len() == i,
            forall|n: int| 0 <= n < i ==> (#[trigger] entries@[n])@ == log_row(rs[n], now@),
        decreases results@.len() - i,
    {
        collect_items(&mut batch, &results[i]);
        entries.push(log_entry(&results[i], now));
        proof {
            assert(rs.take(i + 1) =~= rs.take(i as int).push(rs[i as int]));
            lemma_batch_items_push(rs.take(i as int), rs[i as int]);
        }
        i = i + 1;
    }
    assert(rs.take(results@.len() as int) =~= rs);
    assert(log_views(entries@) =~= log_rows(rs, now@));
    let ghost items_in = batch_items(rs);

    // The item table as the batch leaves it, built beside the store.
    let mut staged: Vec<StoredItem> = Vec::new();
    let mut c: usize = 0;
    while c < store.items.len()
        invariant
            0 <= c <= store.items@.len(),
            staged@.len() == c,
            forall|j: int| 0 <= j < c ==> staged@[j]@ == store.items@[j]@,
        decreases store.items@.len() - c,
    {
        staged.push(store.items[c].clone());
        c = c + 1;
    }
    assert(row_views(staged@) =~= old_items);
    assert(items_in.take(0) =~= Seq::empty());

    let mut k: usize = 0;
    while k < batch.len()
        invariant
            0 <= k <= batch@.len(),
            ref_views(batch@) == items_in,
            items_in == batch_items(result_views(results@)),
            row_views(staged@) == upsert_all(old_items, items_in.take(k as int), now@),
            distinct_ids(old_items),
            staged@.len() <= store.capacity,
            *store == *old(store),
            old_items == old(store)@.items,
        decreases batch@.len() - k,
    {
        proof {
            assert(items_in.take(k + 1).drop_last() =~= items_in.take(k as int));
            assert(items_in.take(k + 1).last() == batch@[k as int]@);
            lemma_upsert_all(old_items, items_in.take(k as int), now@);
        }
        if !upsert_row(&mut staged, batch[k], now, store.capacity) {
            proof {
                let reached = items_in.take(k + 1);
                assert(items_in =~= reached + items_in.skip(k + 1));
                lemma_upsert_all_concat(old_items, reached, items_in.skip(k + 1), now@);
                lemma_upsert_all(upsert_all(old_items, reached, now@), items_in.skip(k + 1), now@);
            }
            return Err(StoreError::Full);
        }
        k = k + 1;
    }
    proof {
        assert(items_in.take(batch@.len() as int) =~= items_in);
        lemma_upsert_all(old_items, items_in, now@);
    }
    let total_items = batch.len();
    let new_items = staged.len() - store.items.len();
    store.items = staged;
    store.log.append(&mut entries);
    assert(store@.log =~= old_log + log_rows(rs, now@));
    Ok(CommitSummary { total_items, new_items })
}

/// The number of stored items of `source`.
pub open spec fn count_items(items: Seq<StoredItemView>, source: Seq<char>) -> nat
    decreases items.len(),
{
    if items.len() == 0 {
        0
    } else {
        count_items(items.drop_last(), source) + if items.last().item.source == source {
            1nat
        } else {
            0nat
        }
    }
}

/// The number of logged fetches of `source` that failed.
pub open spec fn count_errors(log: Seq<FetchLogEntryView>, source: Seq<char>) -> nat
    decreases log.len(),
{
    if log.len() == 0 {
        0
    } else {
        count_errors(log.drop_last(), source) + if log.last().source == source && log.last().status
            == FetchStatus::Error {
            1nat
        } else {
            0nat
        }
    }
}

/// The row logs a successful fetch of `source`.
pub open spec fn is_success_of(row: FetchLogEntryView, source: Seq<char>) -> bool {
    row.source == source && row.status == FetchStatus::Success
}

/// The latest time at which a successful fetch of `source` was logged: of the
/// times of those rows the one that no other comes after, and of equal times
/// the one logged first.
pub open spec fn latest_success(log: Seq<FetchLogEntryView>, source: Seq<char>) -> Option<
    Seq<char>,
>
    decreases log.len(),
{
    if log.len() == 0 {
        None
    } else {
        let earlier = latest_success(log.drop_last(), source);
        if is_success_of(log.last(), source) {
            match earlier {
                Some(t) => if text_before(t, log.last().fetched_at) {
                    Some(log.last().fetched_at)
                } else {
                    Some(t)
                },
                None => Some(log.last().fetched_at),
            }
        } else {
            earlier
        }
    }
}

/// Some fetch of `source` is logged.
pub open spec fn is_logged(log: Seq<FetchLogEntryView>, source: Seq<char>) -> bool {
    exists|i: int| 0 <= i < log.len() && (#[trigger] log[i]).source == source
}

/// The names are in strictly ascending byte order.
pub open spec fn ascending(names: Seq<Seq<char>>) -> bool {
    forall|i: int, j: int|
        0 <= i < j < names.len() ==> text_before(#[trigger] names[i], #[trigger] names[j])
}

impl StoreView {
    /// What the ledger holds of `source`: the number of distinct items stored
    /// for it, the number of its fetches that failed, and the time of its
    /// latest successful fetch.
    pub open spec fn ledger_entry(self, source: Seq<char>) -> SourceReportView {
        SourceReportView {
            source_name: source,
            total_items: count_items(self.items, source),
            error_count: count_errors(self.log, source),
            last_success: latest_success(self.log, source),
        }
    }
}

/// The latest successful fetch is one of the logged successful fetches of the
/// source, and none of them is later; there is none exactly when no fetch of
/// the source succeeded.
pub proof fn lemma_latest_success(log: Seq<FetchLogEntryView>, source: Seq<char>)
    ensures
        match latest_success(log, source) {
            Some(t) => {
                &&& exists|i: int|
                    0 <= i < log.len() && is_success_of(#[trigger] log[i], source) && log[i].fetched_at
                        == t
                &&& forall|i: int|
                    0 <= i < log.len() && is_success_of(#[trigger] log[i], source) ==> !text_before(
                        t,
                        log[i].fetched_at,
                    )
            },
            None => forall|i: int| 0 <= i < log.len() ==> !is_success_of(#[trigger] log[i], source),
        },
    decreases log.len(),
{
    if log.len() > 0 {
        let front = log.drop_last();
        let last = log.last();
        lemma_latest_success(front, source);
        let n = log.len() - 1;
        assert(log[n] == last);
        assert forall|i: int| 0 <= i < n implies front[i] == log[i] by {}
        match latest_success(front, source) {
            Some(t) => {
                let w = choose|i: int|
                    0 <= i < front.len() && is_success_of(#[trigger] front[i], source)
                        && front[i].fetched_at == t;
                assert(log[w] == front[w]);
                if is_success_of(last, source) && text_before(t, last.fetched_at) {
                    let u = last.fetched_at;
                    lemma_text_order_total(u, u);
                    assert forall|i: int|
                        0 <= i < log.len() && is_success_of(#[trigger] log[i], source) implies !text_before(
                        u,
                        log[i].fetched_at,
                    ) by {
                        if i < n {
                            assert(front[i] == log[i]);
                            if text_before(u, log[i].fetched_at) {
                                lemma_text_before_transitive(t, u, log[i].fetched_at);
                            }
                        }
                    }
                } else {
                    assert forall|i: int|
                        0 <= i < log.len() && is_success_of(#[trigger] log[i], source) implies !text_before(
                        t,
                        log[i].fetched_at,
                    ) by {
                        if i < n {
                            assert(front[i] == log[i]);
                        }
                    }
                }
            },
            None => {
                if is_success_of(last, source) {
                    let u = last.fetched_at;
                    lemma_text_order_total(u, u);
                    assert forall|i: int|
                        0 <= i < log.len() && is_success_of(#[trigger] log[i], source) implies !text_before(
                        u,
                        log[i].fetched_at,
                    ) by {
                        if i < n {
                            assert(front[i] == log[i]);
                        }
                    }
                } else {
                    assert forall|i: int| 0 <= i < log.len() implies !is_success_of(
                        #[trigger] log[i],
                        source,
                    ) by {
                        if i < n {
                            assert(front[i] == log[i]);
                        }
                    }
                }
            },
        }
    }
}

/// The log never loses a failure, and the latest success of a source only
/// moves forward: after a commit the ledger counts at least the errors it
/// counted before, and no earlier last success.
pub proof fn lemma_ledger_monotone(
    store: StoreView,
    results: Seq<FeedResultView>,
    now: Seq<char>,
    source: Seq<char>,
)
    ensures
        count_errors(store.log, source) <= count_errors(store.committed(results, now).log, source),
        match latest_success(store.log, source) {
            Some(t) => match latest_success(store.committed(results, now).log, source) {
                Some(u) => !text_before(u, t),
                None => false,
            },
            None => true,
        },
    decreases results.len(),
{
    let rows = log_rows(results, now);
    lemma_log_grows(store.log, rows, source);
}

/// Appending rows to a log keeps its error counts from falling and its latest
/// successes from moving back.
proof fn lemma_log_grows(log: Seq<FetchLogEntryView>, rows: Seq<FetchLogEntryView>, source: Seq<char>)
    ensures
        count_errors(log, source) <= count_errors(log + rows, source),
        match latest_success(log, source) {
            Some(t) => match latest_success(log + rows, source) {
                Some(u) => !text_before(u, t),
                None => false,
            },
            None => true,
        },
    decreases rows.len(),
{
    if rows.len() == 0 {
        assert(log + rows =~= log);
        match latest_success(log, source) {
            Some(t) => {
                lemma_text_order_total(t, t);
            },
            None => {},
        }
    } else {
        lemma_log_grows(log, rows.drop_last(), source);
        assert((log + rows).drop_last() =~= log + rows.drop_last());
        assert((log + rows).last() == rows.last());
        match latest_success(log, source) {
            Some(t) => {
                let u = latest_success(log + rows.drop_last(), source)->0;
                let v = rows.last().fetched_at;
                if is_success_of(rows.last(), source) && text_before(u, v) {
                    if text_before(v, t) {
                        lemma_text_before_transitive(u, v, t);
                    }
                }
            },
            None => {},
        }
    }
}

/// Two lists of names in strictly ascending order that hold the same names
/// are the same list.
pub proof fn lemma_ascending_unique(a: Seq<Seq<char>>, b: Seq<Seq<char>>)
    requires
        ascending(a),
        ascending(b),
        forall|t: Seq<char>| a.contains(t) <==> b.contains(t),
    ensures
        a == b,
    decreases a.len(),
{
    if a.len() == 0 {
        if b.len() > 0 {
            assert(b.contains(b[0]));
        }
        assert(a =~= b);
    } else {
        let x = a[0];
        assert(a.contains(x));
        let j = choose|j: int| 0 <= j < b.len() && b[j] == x;
        let y = b[0];
        assert(b.contains(y));
        let i = choose|i: int| 0 <= i < a.len() && a[i] == y;
        lemma_text_order_total(x, y);
        if j > 0 {
            assert(text_before(b[0], b[j]));
        }
        if i > 0 {
            assert(text_before(a[0], a[i]));
        }
        assert(x == y);
        let at = a.drop_first();
        let bt = b.drop_first();
        assert forall|p: int, q: int| 0 <= p < q < at.len() implies text_before(
            #[trigger] at[p],
            #[trigger] at[q],
        ) by {
            assert(at[p] == a[p + 1] && at[q] == a[q + 1]);
        }
        assert forall|p: int, q: int| 0 <= p < q < bt.len() implies text_before(
            #[trigger] bt[p],
            #[trigger] bt[q],
        ) by {
            assert(bt[p] == b[p + 1] && bt[q] == b[q + 1]);
        }
        assert forall|t: Seq<char>| at.contains(t) <==> bt.contains(t) by {
            if at.contains(t) {
                let p = choose|p: int| 0 <= p < at.len() && at[p] == t;
                assert(a[p + 1] == t);
                assert(text_before(a[0], a[p + 1]));
                lemma_text_order_total(x, t);
                assert(a.contains(t));
                let q = choose|q: int| 0 <= q < b.len() && b[q] == t;
                assert(bt[q - 1] == t);
            }
            if bt.contains(t) {
                let q = choose|q: int| 0 <= q < bt.len() && bt[q] == t;
                assert(b[q + 1] == t);
                assert(text_before(b[0], b[q + 1]));
                lemma_text_order_total(y, t);
                assert(b.contains(t));
                let p = choose|p: int| 0 <= p < a.len() && a[p] == t;
                assert(at[p - 1] == t);
            }
        }
        lemma_ascending_unique(at, bt);
        assert(a =~= seq![x] + at);
        assert(b =~= seq![y] + bt);
    }
}

/// Nothing is ever deleted: after a commit every row that was stored is still
/// in its place, under its identifier and with its time of creation, and the
/// fetch log begins with the log as it was.
pub proof fn lemma_never_deleted(store: StoreView, results: Seq<FeedResultView>, now: Seq<char>)
    requires
        store.well_formed(),
    ensures
        ({
            let after = store.committed(results, now);
            &&& store.items.len() <= after.items.len()
            &&& forall|i: int|
                0 <= i < store.items.len() ==> (#[trigger] after.items[i]).item.id
                    == store.items[i].item.id && after.items[i].created_at
                    == store.items[i].created_at
            &&& after.log.len() == store.log.len() + results.len()
            &&& after.log.take(store.log.len() as int) == store.log
            &&& after.capacity == store.capacity
        }),
{
    lemma_commit_rows(store.items, batch_items(results), now);
    let after = store.committed(results, now);
    assert(after.log.take(store.log.len() as int) =~= store.log);
}

/// The last item with an identifier is an item of the batch with that
/// identifier.
pub proof fn lemma_last_with_id_member(batch: Seq<FeedItemView>, id: Seq<char>)
    ensures
        last_with_id(batch, id) matches Some(item) ==> item.id == id && batch.contains(item),
    decreases batch.len(),
{
    if batch.len() > 0 {
        if batch.last().id == id {
            assert(batch[batch.len() - 1] == batch.last());
        } else {
            lemma_last_with_id_member(batch.drop_last(), id);
            if let Some(item) = last_with_id(batch.drop_last(), id) {
                let k = choose|k: int| 0 <= k < batch.drop_last().len() && batch.drop_last()[k] == item;
                assert(batch[k] == item);
            }
        }
    }
}

/// Whatever has one identifier has one source, among the rows and the items
/// of the batch.
pub open spec fn sources_agree(items: Seq<StoredItemView>, batch: Seq<FeedItemView>) -> bool {
    &&& forall|i: int, j: int|
        0 <= i < items.len() && 0 <= j < batch.len() && (#[trigger] items[i]).item.id
            == (#[trigger] batch[j]).id ==> items[i].item.source == batch[j].source
    &&& forall|j: int, k: int|
        0 <= j < batch.len() && 0 <= k < batch.len() && (#[trigger] batch[j]).id
            == (#[trigger] batch[k]).id ==> batch[j].source == batch[k].source
}

/// Replacing a row by a row of the same source leaves the counts as they
/// were.
proof fn lemma_count_items_update(
    rows: Seq<StoredItemView>,
    k: int,
    row: StoredItemView,
    source: Seq<char>,
)
    requires
        0 <= k < rows.len(),
        rows[k].item.source == row.item.source,
    ensures
        count_items(rows.update(k, row), source) == count_items(rows, source),
    decreases rows.len(),
{
    let after = rows.update(k, row);
    if k == rows.len() - 1 {
        assert(after.drop_last() =~= rows.drop_last());
    } else {
        assert(after.drop_last() =~= rows.drop_last().update(k, row));
        lemma_count_items_update(rows.drop_last(), k, row, source);
    }
}

/// The item count of a source never falls: where items keep their source
/// from one fetch to the next, a commit leaves at least as many items of each
/// source as there were.
pub proof fn lemma_item_count_grows(
    items: Seq<StoredItemView>,
    batch: Seq<FeedItemView>,
    now: Seq<char>,
    source: Seq<char>,
)
    requires
        distinct_ids(items),
        sources_agree(items, batch),
    ensures
        count_items(items, source) <= count_items(upsert_all(items, batch, now), source),
    decreases batch.len(),
{
    if batch.len() > 0 {
        let front = batch.drop_last();
        let x = batch.last();
        let mid = upsert_all(items, front, now);
        assert forall|j: int| 0 <= j < front.len() implies front[j] == batch[j] by {}
        assert(sources_agree(items, front)) by {
            assert forall|i: int, j: int|
                0 <= i < items.len() && 0 <= j < front.len() && (#[trigger] items[i]).item.id
                    == (#[trigger] front[j]).id implies items[i].item.source == front[j].source by {
                assert(front[j] == batch[j]);
            }
            assert forall|j: int, k: int|
                0 <= j < front.len() && 0 <= k < front.len() && (#[trigger] front[j]).id
                    == (#[trigger] front[k]).id implies front[j].source == front[k].source by {
                assert(front[j] == batch[j] && front[k] == batch[k]);
            }
        }
        lemma_item_count_grows(items, front, now, source);
        lemma_commit_rows(items, front, now);
        let n = batch.len() - 1;
        assert(batch[n] == x);
        if holds_id(mid, x.id) {
            let k = position_of(mid, x.id);
            assert(mid[k].item.id == x.id);
            lemma_last_with_id_member(front, x.id);
            match last_with_id(front, x.id) {
                Some(y) => {
                    let j = choose|j: int| 0 <= j < front.len() && front[j] == y;
                    assert(batch[j] == y);
                    assert(batch[j].id == batch[n].id);
                },
                None => {
                    assert(items[k].item.id == x.id);
                    assert(items[k].item.id == batch[n].id);
                },
            }
            lemma_count_items_update(
                mid,
                k,
                StoredItemView { item: x, created_at: mid[k].created_at },
                source,
            );
        } else {
            assert(mid.push(StoredItemView { item: x, created_at: now }).drop_last() =~= mid);
        }
    }
}

/// The names of the sources that occur in the log, each once, in ascending
/// byte order.
fn logged_sources(log: &Vec<FetchLogEntry>) -> (names: Vec<String>)
    ensures
        ascending(texts(names@)),
        forall|name: Seq<char>| texts(names@).contains(name) <==> is_logged(log_views(log@), name),
{
    let ghost rows = log_views(log@);
    let mut names: Vec<String> = Vec::new();
    let mut i: usize = 0;
    while i < log.len()
        invariant
            rows == log_views(log@),
            0 <= i <= log@.len(),
            ascending(texts(names@)),
            forall|name: Seq<char>|
                texts(names@).contains(name) <==> is_logged(rows.take(i as int), name),
        decreases log@.len() - i,
    {
        let source = &log[i].source;
        let ghost before = texts(names@);
        let mut p: usize = 0;
        while p < names.len() && matches!(rank(names[p].as_str(), source.as_str()), Rank::Before)
            invariant
                0 <= p <= names@.len(),
                before == texts(names@),
                forall|k: int| 0 <= k < p ==> text_before(#[trigger] before[k], source@),
            decreases names@.len() - p,
        {
            p = p + 1;
        }
        let known = p < names.len() && same_text(names[p].as_str(), source.as_str());
        proof {
            assert(rows.take(i + 1) =~= rows.take(i as int).push(rows[i as int]));
            assert(rows[i as int].source == source@);
        }
        if !known {
            names.insert(p, source.clone());
            proof {
                let after = texts(names@);
                assert(after =~= before.insert(p as int, source@));
                assert forall|a: int, b: int| 0 <= a < b < after.len() implies text_before(
                    #[trigger] after[a],
                    #[trigger] after[b],
                ) by {
                    if b < p {
                        assert(after[a] == before[a] && after[b] == before[b]);
                    } else if b == p {
                        assert(after[a] == before[a]);
                    } else if a < p {
                        assert(after[a] == before[a] && after[b] == before[b - 1]);
                    } else if a == p {
                        lemma_text_order_total(before[p as int], source@);
                        assert(text_before(source@, before[p as int]));
                        assert(after[b] == before[b - 1]);
                        if b - 1 > p {
                            lemma_text_before_transitive(source@, before[p as int], before[b - 1]);
                        }
                    } else {
                        assert(after[a] == before[a - 1] && after[b] == before[b - 1]);
                    }
                }
                assert forall|name: Seq<char>| after.contains(name) <==> is_logged(
                    rows.take(i + 1),
                    name,
                ) by {
                    if after.contains(name) {
                        let k = choose|k: int| 0 <= k < after.len() && after[k] == name;
                        if k == p {
                            assert(rows.take(i + 1)[i as int].source == name);
                        } else {
                            let k0 = if k < p {
                                k
                            } else {
                                k - 1
                            };
                            assert(before[k0] == name);
                            assert(before.contains(name));
                            let w = choose|w: int|
                                0 <= w < rows.take(i as int).len() && (#[trigger] rows.take(
                                    i as int,
                                )[w]).source == name;
                            assert(rows.take(i + 1)[w].source == name);
                        }
                    }
                    if is_logged(rows.take(i + 1), name) {
                        let w = choose|w: int|
                            0 <= w < rows.take(i + 1).len() && (#[trigger] rows.take(i + 1)[w]).source
                                == name;
                        if w == i {
                            assert(after[p as int] == name);
                        } else {
                            assert(rows.take(i as int)[w].source == name);
                            assert(before.contains(name));
                            let k = choose|k: int| 0 <= k < before.len() && before[k] == name;
                            let k1 = if k < p {
                                k
                            } else {
                                k + 1
                            };
                            assert(after[k1] == name);
                        }
                    }
                }
            }
        } else {
            proof {
                assert(before[p as int] == source@);
                assert forall|name: Seq<char>| before.contains(name) <==> is_logged(
                    rows.take(i + 1),
                    name,
                ) by {
                    if before.contains(name) {
                        if name == source@ {
                            assert(rows.take(i + 1)[i as int].source == name);
                        } else {
                            let w = choose|w: int|
                                0 <= w < rows.take(i as int).len() && (#[trigger] rows.take(
                                    i as int,
                                )[w]).source == name;
                            assert(rows.take(i + 1)[w].source == name);
                        }
                    }
                    if is_logged(rows.take(i + 1), name) {
                        let w = choose|w: int|
                            0 <= w < rows.take(i + 1).len() && (#[trigger] rows.take(i + 1)[w]).source
                                == name;
                        if w < i {
                            assert(rows.take(i as int)[w].source == name);
                        }
                    }
                }
            }
        }
        i = i + 1;
    }
    assert(rows.take(log@.len() as int) =~= rows);
    names
}

/// Whether a fetch of the source `name` is logged.
pub fn is_source_logged(store: &Store, name: &str) -> (b: bool)
    ensures
        b == is_logged(store@.log, name@),
{
    let ghost log = store@.log;
    let mut i: usize = 0;
    while i < store.log.len()
        invariant
            log == log_views(store.log@),
            0 <= i <= store.log@.len(),
            forall|j: int| 0 <= j < i ==> (#[trigger] log[j]).source != name@,
        decreases store.log@.len() - i,
    {
        if same_text(store.log[i].source.as_str(), name) {
            assert(log[i as int].source == name@);
            return true;
        }
        i = i + 1;
    }
    false
}

/// What the ledger holds of the source `name`.
pub fn ledger_entry(store: &Store, name: &str) -> (e: SourceReport)
    ensures
        e@ == store@.ledger_entry(name@),
{
    let ghost items = store@.items;
    let ghost log = store@.log;
    let mut total_items: u64 = 0;
    let mut i: usize = 0;
    while i < store.items.len()
        invariant
            items == row_views(store.items@),
            0 <= i <= store.items@.len(),
            total_items == count_items(items.take(i as int), name@),
            total_items <= i,
        decreases store.items@.len() - i,
    {
        proof {
            assert(items.take(i + 1).drop_last() =~= items.take(i as int));
        }
        if same_text(store.items[i].item.source.as_str(), name) {
            total_items = total_items + 1;
        }
        i = i + 1;
    }
    assert(items.take(store.items@.len() as int) =~= items);

    let mut error_count: u64 = 0;
    let mut last_success: Option<String> = None;
    let mut j: usize = 0;
    while j < store.log.len()
        invariant
            log == log_views(store.log@),
            0 <= j <= store.log@.len(),
            error_count == count_errors(log.take(j as int), name@),
            error_count <= j,
            opt_text(last_success) == latest_success(log.take(j as int), name@),
        decreases store.log@.len() - j,
    {
        proof {
            assert(log.take(j + 1).drop_last() =~= log.take(j as int));
        }
        let row = &store.log[j];
        if same_text(row.source.as_str(), name) {
            match row.status {
                FetchStatus::Error => {
                    error_count = error_count + 1;
                },
                FetchStatus::Success => {
                    let later = match &last_success {
                        Some(t) => matches!(rank(t.as_str(), row.fetched_at.as_str()), Rank::Before),
                        None => true,
                    };
                    if later {
                        last_success = Some(row.fetched_at.clone());
                    }
                },
            }
        }
        j = j + 1;
    }
    assert(log.take(store.log@.len() as int) =~= log);
    SourceReport { source_name: name.to_string(), total_items, error_count, last_success }
}

/// The source names of a sequence of ledger rows.
pub open spec fn names_of(rows: Seq<SourceReportView>) -> Seq<Seq<char>> {
    Seq::new(rows.len(), |k: int| rows[k].source_name)
}

/// `rows` is the ledger of the store: one row for each source in the fetch
/// log, in strictly ascending byte order of the names, each row what the
/// store holds of its source.
pub open spec fn is_ledger(store: StoreView, rows: Seq<SourceReportView>) -> bool {
    &&& ascending(names_of(rows))
    &&& forall|name: Seq<char>| names_of(rows).contains(name) <==> is_logged(store.log, name)
    &&& forall|k: int|
        0 <= k < rows.len() ==> #[trigger] rows[k] == store.ledger_entry(rows[k].source_name)
}

/// A store has one ledger.
pub proof fn lemma_ledger_unique(store: StoreView, a: Seq<SourceReportView>, b: Seq<SourceReportView>)
    requires
        is_ledger(store, a),
        is_ledger(store, b),
    ensures
        a == b,
{
    lemma_ascending_unique(names_of(a), names_of(b));
    assert(a.len() == b.len());
    assert forall|k: int| 0 <= k < a.len() implies a[k] == b[k] by {
        assert(names_of(a)[k] == names_of(b)[k]);
    }
    assert(a =~= b);
}

impl StoreView {
    /// The ledger of the store.
    pub open spec fn ledger(self) -> Seq<SourceReportView> {
        choose|rows: Seq<SourceReportView>| is_ledger(self, rows)
    }

    /// The ledger rows for a report: the row of `source` where one is named,
    /// else the whole ledger.
    pub open spec fn report(self, source: Option<Seq<char>>) -> Seq<SourceReportView> {
        match source {
            Some(name) => seq![self.ledger_entry(name)],
            None => self.ledger(),
        }
    }
}

/// The value of an optional string slice.
pub open spec fn opt_str_view(s: Option<&str>) -> Option<Seq<char>> {
    match s {
        Some(t) => Some(t@),
        None => None,
    }
}

/// The ledger: for one source where `source_filter` names one, else for every
/// source that occurs in the fetch log, in ascending byte order of the names.
///
/// A row gives the number of distinct items stored for the source, the number
/// of its fetches that failed, and the time of its latest successful fetch. A
/// source named by the filter gets a row whether or not it was ever fetched.
pub fn generate_report(store: &Store, source_filter: Option<&str>) -> (reports: Vec<SourceReport>)
    ensures
        report_views(reports@) == store@.report(opt_str_view(source_filter)),
        source_filter is None ==> is_ledger(store@, report_views(reports@)),
{
    let mut reports: Vec<SourceReport> = Vec::new();
    match source_filter {
        Some(name) => {
            reports.push(ledger_entry(store, name));
            assert(report_views(reports@) =~= seq![store@.ledger_entry(name@)]);
        },
        None => {
            let names = logged_sources(&store.log);
            let mut k: usize = 0;
            while k < names.len()
                invariant
                    0 <= k <= names@.len(),
                    reports@.len() == k,
                    forall|n: int|
                        0 <= n < k ==> (#[trigger] reports@[n])@ == store@.ledger_entry(names@[n]@),
                decreases names@.len() - k,
            {
                reports.push(ledger_entry(store, names[k].as_str()));
                k = k + 1;
            }
            proof {
                let rows = report_views(reports@);
                assert(names_of(rows) =~= texts(names@));
                assert(is_ledger(store@, rows));
                lemma_ledger_unique(store@, rows, store@.ledger());
            }
        },
    }
    reports
}

/// The row is of the source asked for, if one is, and not created before the
/// time asked for, if one is.
pub open spec fn answers(row: StoredItemView, source: Option<Seq<char>>, since: Option<Seq<char>>) -> bool {
    &&& source matches Some(name) ==> row.item.source == name
    &&& since matches Some(t) ==> !text_before(row.created_at, t)
}

/// The rows that answer a query, in the order of the table.
pub open spec fn selected(
    rows: Seq<StoredItemView>,
    source: Option<Seq<char>>,
    since: Option<Seq<char>>,
) -> Seq<StoredItemView>
    decreases rows.len(),
{
    if rows.len() == 0 {
        Seq::empty()
    } else if answers(rows.last(), source, since) {
        selected(rows.drop_last(), source, since).push(rows.last())
    } else {
        selected(rows.drop_last(), source, since)
    }
}

/// `rows` with `row` put in behind every row that was not created before it.
pub open spec fn insert_newest(rows: Seq<StoredItemView>, row: StoredItemView) -> Seq<StoredItemView>
    decreases rows.len(),
{
    if rows.len() > 0 && text_before(rows.last().created_at, row.created_at) {
        insert_newest(rows.drop_last(), row).push(rows.last())
    } else {
        rows.push(row)
    }
}

/// The rows from the newest to the oldest by their time of creation; rows
/// created at one time keep the order they have in `rows`.
pub open spec fn newest_first(rows: Seq<StoredItemView>) -> Seq<StoredItemView>
    decreases rows.len(),
{
    if rows.len() == 0 {
        Seq::empty()
    } else {
        insert_newest(newest_first(rows.drop_last()), rows.last())
    }
}

/// No row comes before a row that was created after it.
pub open spec fn descending(rows: Seq<StoredItemView>) -> bool {
    forall|i: int, j: int|
        0 <= i < j < rows.len() ==> !text_before(
            (#[trigger] rows[i]).created_at,
            (#[trigger] rows[j]).created_at,
        )
}

/// The first `limit` of the rows, or all of them where there is no limit or
/// there are no more than that.
pub open spec fn limited(rows: Seq<StoredItemView>, limit: Option<usize>) -> Seq<StoredItemView> {
    match limit {
        Some(n) => if n < rows.len() {
            rows.take(n as int)
        } else {
            rows
        },
        None => rows,
    }
}

impl StoreView {
    /// The items that answer a query: those of `source`, if one is named,
    /// that were created at `since` or later, if a time is named; from the
    /// newest to the oldest; and no more than `limit` of them, if there is a
    /// limit.
    pub open spec fn query(
        self,
        source: Option<Seq<char>>,
        since: Option<Seq<char>>,
        limit: Option<usize>,
    ) -> Seq<FeedItemView> {
        let rows = limited(newest_first(selected(self.items, source, since)), limit);
        Seq::new(rows.len(), |i: int| rows[i].item)
    }
}

/// Putting a row in is inserting it at the place behind the last row that
/// was not created before it.
pub proof fn lemma_insert_newest(rows: Seq<StoredItemView>, row: StoredItemView, p: int)
    requires
        0 <= p <= rows.len(),
        forall|k: int| p <= k < rows.len() ==> text_before((#[trigger] rows[k]).created_at, row.created_at),
        p > 0 ==> !text_before(rows[p - 1].created_at, row.created_at),
    ensures
        insert_newest(rows, row) == rows.insert(p, row),
    decreases rows.len(),
{
    if rows.len() > 0 && text_before(rows.last().created_at, row.created_at) {
        assert(p < rows.len());
        let front = rows.drop_last();
        assert forall|k: int| p <= k < front.len() implies text_before(
            (#[trigger] front[k]).created_at,
            row.created_at,
        ) by {
            assert(front[k] == rows[k]);
        }
        lemma_insert_newest(front, row, p);
        assert(front.insert(p, row).push(rows.last()) =~= rows.insert(p, row));
    } else {
        if p < rows.len() {
            assert(text_before(rows[rows.len() - 1].created_at, row.created_at));
        }
        assert(rows.push(row) =~= rows.insert(p, row));
    }
}

/// Putting a row into rows that run from the newest to the oldest leaves them
/// so, with one row more, and with the same rows besides.
pub proof fn lemma_insert_newest_descending(rows: Seq<StoredItemView>, row: StoredItemView)
    requires
        descending(rows),
    ensures
        descending(insert_newest(rows, row)),
        insert_newest(rows, row).len() == rows.len() + 1,
        insert_newest(rows, row).to_multiset() == rows.to_multiset().insert(row),
    decreases rows.len(),
{
    broadcast use vstd::seq_lib::group_to_multiset_ensures;

    let after = insert_newest(rows, row);
    if rows.len() > 0 && text_before(rows.last().created_at, row.created_at) {
        let front = rows.drop_last();
        let last = rows.last();
        assert forall|i: int, j: int| 0 <= i < j < front.len() implies !text_before(
            (#[trigger] front[i]).created_at,
            (#[trigger] front[j]).created_at,
        ) by {
            assert(front[i] == rows[i] && front[j] == rows[j]);
        }
        lemma_insert_newest_descending(front, row);
        let mid = insert_newest(front, row);
        assert(after == mid.push(last));
        assert(rows =~= front.push(last));
        assert forall|i: int, j: int| 0 <= i < j < after.len() implies !text_before(
            (#[trigger] after[i]).created_at,
            (#[trigger] after[j]).created_at,
        ) by {
            if j < mid.len() {
                assert(after[i] == mid[i] && after[j] == mid[j]);
            } else {
                // after[j] is `last`; after[i] is `row` or a row of `front`.
                assert(after[i] == mid[i]);
                assert(mid.to_multiset().count(mid[i]) > 0);
                if mid[i] == row {
                    lemma_text_order_total(last.created_at, row.created_at);
                } else {
                    assert(front.to_multiset().count(mid[i]) > 0);
                    assert(front.contains(mid[i]));
                    let w = choose|w: int| 0 <= w < front.len() && front[w] == mid[i];
                    assert(rows[w] == mid[i]);
                    assert(rows[rows.len() - 1] == last);
                }
            }
        }
        assert(after.to_multiset() =~= rows.to_multiset().insert(row));
    } else {
        assert forall|i: int, j: int| 0 <= i < j < after.len() implies !text_before(
            (#[trigger] after[i]).created_at,
            (#[trigger] after[j]).created_at,
        ) by {
            if j < rows.len() {
                assert(after[i] == rows[i] && after[j] == rows[j]);
            } else {
                assert(after[i] == rows[i]);
                if text_before(rows[i].created_at, row.created_at) {
                    let last = rows[rows.len() - 1];
                    if i < rows.len() - 1 {
                        assert(!text_before(rows[i].created_at, last.created_at));
                        lemma_text_order_total(rows[i].created_at, last.created_at);
                        lemma_text_order_total(last.created_at, row.created_at);
                        if last.created_at != rows[i].created_at {
                            lemma_text_before_transitive(
                                last.created_at,
                                rows[i].created_at,
                                row.created_at,
                            );
                        }
                    }
                }
            }
        }
    }
}

/// The rows from the newest to the oldest are the same rows, each as often as
/// before, and no row of them comes before a row that was created after it.
pub proof fn lemma_newest_first(rows: Seq<StoredItemView>)
    ensures
        descending(newest_first(rows)),
        newest_first(rows).len() == rows.len(),
        newest_first(rows).to_multiset() == rows.to_multiset(),
    decreases rows.len(),
{
    broadcast use vstd::seq_lib::group_to_multiset_ensures;

    if rows.len() > 0 {
        lemma_newest_first(rows.drop_last());
        lemma_insert_newest_descending(newest_first(rows.drop_last()), rows.last());
        assert(rows =~= rows.drop_last().push(rows.last()));
    } else {
        assert(newest_first(rows).to_multiset() =~= rows.to_multiset());
    }
}

/// The values of a sequence of borrowed rows.
pub open spec fn row_ref_views(v: Seq<&StoredItem>) -> Seq<StoredItemView> {
    Seq::new(v.len(), |i: int| v[i]@)
}

/// The items that answer a query: those of the source `source_filter`, if one
/// is named, that were created at `since` or later, if a time is named. They
/// come from the newest to the oldest by their time of creation, those of one
/// time in the order in which they were first stored, and there are no more
/// than `limit` of them, if there is a limit.
pub fn get_items(
    store: &Store,
    source_filter: Option<&str>,
    since: Option<&str>,
    limit: Option<usize>,
) -> (items: Vec<FeedItem>)
    ensures
        item_views(items@) == store@.query(opt_str_view(source_filter), opt_str_view(since), limit),
{
    let ghost rows = store@.items;
    let ghost source = opt_str_view(source_filter);
    let ghost from = opt_str_view(since);
    let mut sorted: Vec<&StoredItem> = Vec::new();
    let mut i: usize = 0;
    assert(rows.take(0) =~= Seq::empty());
    assert(row_ref_views(sorted@) =~= Seq::empty());
    while i < store.items.len()
        invariant
            rows == row_views(store.items@),
            source == opt_str_view(source_filter),
            from == opt_str_view(since),
            0 <= i <= store.items@.len(),
            row_ref_views(sorted@) == newest_first(selected(rows.take(i as int), source, from)),
        decreases store.items@.len() - i,
    {
        let row = &store.items[i];
        proof {
            assert(rows.take(i + 1).drop_last() =~= rows.take(i as int));
            assert(rows.take(i + 1).last() == row@);
        }
        let of_source = match source_filter {
            Some(s) => same_text(row.item.source.as_str(), s),
            None => true,
        };
        let recent = match since {
            Some(t) => !matches!(rank(row.created_at.as_str(), t), Rank::Before),
            None => true,
        };
        if of_source && recent {
            let ghost before = row_ref_views(sorted@);
            let mut p: usize = sorted.len();
            while p > 0 && matches!(
                rank(sorted[p - 1].created_at.as_str(), row.created_at.as_str()),
                Rank::Before
            )
                invariant
                    0 <= p <= sorted@.len(),
                    before == row_ref_views(sorted@),
                    forall|k: int|
                        p <= k < before.len() ==> text_before(
                            (#[trigger] before[k]).created_at,
                            row@.created_at,
                        ),
                decreases p,
            {
                p = p - 1;
            }
            proof {
                lemma_insert_newest(before, row@, p as int);
                assert(selected(rows.take(i + 1), source, from).drop_last() =~= selected(
                    rows.take(i as int),
                    source,
                    from,
                ));
            }
            sorted.insert(p, row);
            assert(row_ref_views(sorted@) =~= before.insert(p as int, row@));
        }
        i = i + 1;
    }
    assert(rows.take(store.items@.len() as int) =~= rows);
    let count: usize = match limit {
        Some(n) => if n < sorted.len() {
            n
        } else {
            sorted.len()
        },
        None => sorted.len(),
    };
    let ghost wanted = limited(row_ref_views(sorted@), limit);
    let mut items: Vec<FeedItem> = Vec::new();
    let mut k: usize = 0;
    while k < count
        invariant
            0 <= k <= count <= sorted@.len(),
            wanted.len() == count,
            forall|j: int| 0 <= j < count ==> (#[trigger] wanted[j]) == sorted@[j]@,
            items@.len() == k,
            forall|j: int| 0 <= j < k ==> (#[trigger] items@[j])@ == wanted[j].item,
        decreases count - k,
    {
        items.push(sorted[k].item.clone());
        k = k + 1;
    }
    assert(item_views(items@) =~= Seq::new(wanted.len(), |i: int| wanted[i].item));
    items
}

} // verus!

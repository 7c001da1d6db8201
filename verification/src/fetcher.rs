//! The schedule of a run: which source may start its fetch, and what became of
//! each.
//!
//! The orchestrator holds one slot per configured source. A slot is `Pending`
//! until its fetch is dispatched, `InFlight` while the fetch runs, and `Done`
//! with the result once the fetch has ended, well or badly. At most
//! `max_concurrency` slots are in flight at any time. Cancelling the run drops
//! the fetches that have not ended; the results that are in stay.
//!
//! The orchestrator performs no I/O: the caller starts the fetch that
//! [`Orchestrator::dispatch`] names and reports its end with
//! [`Orchestrator::complete`].

use crate::models::{FeedConfig, FeedConfigView, FeedResult, FeedResultView, FetchStatus};
use crate::parser::{feed_items, normalize, Skipped};
use crate::retry::{failure_message, failure_text, RetryState, RetryStateView};
use vstd::prelude::*;
use vstd::string::StringExecFns;

verus! {

/// Where the fetch of one source stands.
#[derive(Debug)]
pub enum Slot {
    /// The fetch has not started.
    Pending,
    /// The fetch is running.
    InFlight,
    /// The fetch has ended with this result.
    Done(FeedResult),
    /// The run was cancelled before the fetch ended.
    Dropped,
}

/// The mathematical value of a [`Slot`].
pub enum SlotView {
    Pending,
    InFlight,
    Done(FeedResultView),
    Dropped,
}

impl View for Slot {
    type V = SlotView;

    open spec fn view(&self) -> SlotView {
        match self {
            Slot::Pending => SlotView::Pending,
            Slot::InFlight => SlotView::InFlight,
            Slot::Done(r) => SlotView::Done(r@),
            Slot::Dropped => SlotView::Dropped,
        }
    }
}

/// The values of a sequence of slots.
pub open spec fn slot_views(v: Seq<Slot>) -> Seq<SlotView> {
    Seq::new(v.len(), |i: int| v[i]@)
}

/// The number of slots that are in flight.
pub open spec fn count_in_flight(slots: Seq<SlotView>) -> nat
    decreases slots.len(),
{
    if slots.len() == 0 {
        0
    } else {
        count_in_flight(slots.drop_last()) + if slots.last() is InFlight {
            1nat
        } else {
            0nat
        }
    }
}

/// The results of the slots that are done, in the order of the slots.
pub open spec fn done_results(slots: Seq<SlotView>) -> Seq<FeedResultView>
    decreases slots.len(),
{
    if slots.len() == 0 {
        Seq::empty()
    } else {
        match slots.last() {
            SlotView::Done(r) => done_results(slots.drop_last()).push(r),
            _ => done_results(slots.drop_last()),
        }
    }
}

/// The mathematical value of an [`Orchestrator`].
pub struct OrchestratorView {
    /// One slot per source, in the order of the configuration.
    pub slots: Seq<SlotView>,
    /// Most fetches that may be in flight at once.
    pub max_concurrency: nat,
    /// Whether the run was cancelled.
    pub cancelled: bool,
}

impl OrchestratorView {
    /// The number of fetches in flight.
    pub open spec fn in_flight(self) -> nat {
        count_in_flight(self.slots)
    }

    /// The first slot that is pending, if `k` is one.
    pub open spec fn is_first_pending(self, k: int) -> bool {
        &&& 0 <= k < self.slots.len()
        &&& self.slots[k] is Pending
        &&& forall|i: int| 0 <= i < k ==> !(#[trigger] self.slots[i] is Pending)
    }

    /// Some slot is pending.
    pub open spec fn has_pending(self) -> bool {
        exists|k: int| 0 <= k < self.slots.len() && #[trigger] self.slots[k] is Pending
    }

    /// A fetch may start: the run is not cancelled, a slot is pending, and
    /// fewer than `max_concurrency` fetches are in flight.
    pub open spec fn may_dispatch(self) -> bool {
        !self.cancelled && self.in_flight() < self.max_concurrency && self.has_pending()
    }

    /// Every fetch has ended or was dropped.
    pub open spec fn finished(self) -> bool {
        forall|i: int|
            0 <= i < self.slots.len() ==> !(#[trigger] self.slots[i] is Pending)
                && !(self.slots[i] is InFlight)
    }

    /// The bound on concurrency holds, there is room for a fetch at all, and
    /// dropped slots occur exactly in a cancelled run, which has no slot left
    /// to run.
    pub open spec fn well_formed(self) -> bool {
        &&& self.max_concurrency >= 1
        &&& self.in_flight() <= self.max_concurrency
        &&& !self.cancelled ==> forall|i: int|
            0 <= i < self.slots.len() ==> !(#[trigger] self.slots[i] is Dropped)
        &&& self.cancelled ==> self.finished()
    }

    /// The orchestrator after slot `k` was dispatched.
    pub open spec fn dispatched(self, k: int) -> OrchestratorView {
        OrchestratorView { slots: self.slots.update(k, SlotView::InFlight), ..self }
    }

    /// The fetch of slot `k` may be reported as ended.
    pub open spec fn may_complete(self, k: int) -> bool {
        0 <= k < self.slots.len() && self.slots[k] is InFlight
    }

    /// The orchestrator after the fetch of slot `k` ended with `result`.
    pub open spec fn completed(self, k: int, result: FeedResultView) -> OrchestratorView {
        OrchestratorView { slots: self.slots.update(k, SlotView::Done(result)), ..self }
    }

    /// The orchestrator after the run was cancelled: the slots that are done
    /// stay, all others are dropped.
    pub open spec fn cancelled_run(self) -> OrchestratorView {
        OrchestratorView {
            slots: Seq::new(
                self.slots.len(),
                |i: int|
                    match self.slots[i] {
                        SlotView::Done(r) => SlotView::Done(r),
                        _ => SlotView::Dropped,
                    },
            ),
            cancelled: true,
            ..self
        }
    }

    /// What the run has produced so far: the results of the slots that are
    /// done, in the order of the sources.
    pub open spec fn results(self) -> Seq<FeedResultView> {
        done_results(self.slots)
    }
}

/// Changing one slot changes the number in flight by what the slot was and
/// what it becomes.
pub proof fn lemma_count_update(slots: Seq<SlotView>, k: int, slot: SlotView)
    requires
        0 <= k < slots.len(),
    ensures
        count_in_flight(slots.update(k, slot)) + (if slots[k] is InFlight {
            1int
        } else {
            0int
        }) == count_in_flight(slots) + (if slot is InFlight {
            1int
        } else {
            0int
        }),
    decreases slots.len(),
{
    let after = slots.update(k, slot);
    if k == slots.len() - 1 {
        assert(after.drop_last() =~= slots.drop_last());
    } else {
        assert(after.drop_last() =~= slots.drop_last().update(k, slot));
        lemma_count_update(slots.drop_last(), k, slot);
    }
}

/// No more slots are in flight than there are slots, and none where no slot
/// is in flight.
pub proof fn lemma_count_bounds(slots: Seq<SlotView>)
    ensures
        count_in_flight(slots) <= slots.len(),
        (forall|i: int| 0 <= i < slots.len() ==> !(#[trigger] slots[i] is InFlight))
            ==> count_in_flight(slots) == 0,
    decreases slots.len(),
{
    if slots.len() > 0 {
        lemma_count_bounds(slots.drop_last());
        if forall|i: int| 0 <= i < slots.len() ==> !(#[trigger] slots[i] is InFlight) {
            assert forall|i: int| 0 <= i < slots.drop_last().len() implies !(
            #[trigger] slots.drop_last()[i] is InFlight) by {
                assert(slots.drop_last()[i] == slots[i]);
            }
        }
    }
}

/// Where every slot is done, there is one result per slot, that of the slot.
pub proof fn lemma_all_done(slots: Seq<SlotView>)
    requires
        forall|i: int| 0 <= i < slots.len() ==> #[trigger] slots[i] is Done,
    ensures
        done_results(slots).len() == slots.len(),
        forall|i: int| 0 <= i < slots.len() ==> SlotView::Done(done_results(slots)[i]) == #[trigger] slots[i],
    decreases slots.len(),
{
    if slots.len() > 0 {
        let front = slots.drop_last();
        assert forall|i: int| 0 <= i < front.len() implies #[trigger] front[i] is Done by {
            assert(front[i] == slots[i]);
        }
        lemma_all_done(front);
        assert forall|i: int| 0 <= i < slots.len() implies SlotView::Done(done_results(slots)[i])
            == #[trigger] slots[i] by {
            if i < front.len() {
                assert(front[i] == slots[i]);
            }
        }
    }
}

/// Bounded concurrency: in every state that the orchestrator can be in, no
/// more than `max_concurrency` fetches are in flight, and each transition
/// leads from such a state to such a state.
pub proof fn lemma_bounded_concurrency(o: OrchestratorView, k: int, result: FeedResultView)
    requires
        o.well_formed(),
    ensures
        o.in_flight() <= o.max_concurrency,
        o.may_dispatch() && o.is_first_pending(k) ==> o.dispatched(k).well_formed()
            && o.dispatched(k).in_flight() == o.in_flight() + 1,
        o.may_complete(k) ==> o.completed(k, result).well_formed() && o.completed(
            k,
            result,
        ).in_flight() == o.in_flight() - 1,
        o.cancelled_run().well_formed() && o.cancelled_run().in_flight() == 0,
{
    if o.may_dispatch() && o.is_first_pending(k) {
        lemma_count_update(o.slots, k, SlotView::InFlight);
    }
    if o.may_complete(k) {
        lemma_count_update(o.slots, k, SlotView::Done(result));
    }
    lemma_count_bounds(o.cancelled_run().slots);
}

/// Isolation: what a fetch ended with has no bearing on the schedule. Whether
/// the fetch of slot `k` succeeded or failed, its slot is done, every other
/// slot is as it was, the same number of fetches is in flight, and the same
/// fetch may start next; a result that is in stays in, and a slot that is done
/// is never dispatched again.
pub proof fn lemma_isolation(
    o: OrchestratorView,
    k: int,
    result: FeedResultView,
    other: FeedResultView,
)
    requires
        o.well_formed(),
        o.may_complete(k),
    ensures
        o.completed(k, result).in_flight() == o.completed(k, other).in_flight(),
        o.completed(k, result).may_dispatch() == o.completed(k, other).may_dispatch(),
        forall|j: int|
            o.completed(k, result).is_first_pending(j) == o.completed(k, other).is_first_pending(j),
        forall|j: int|
            0 <= j < o.slots.len() && j != k ==> o.completed(k, result).slots[j] == o.slots[j],
        forall|j: int| o.completed(k, result).is_first_pending(j) ==> j != k,
{
    lemma_count_update(o.slots, k, SlotView::Done(result));
    lemma_count_update(o.slots, k, SlotView::Done(other));
    let a = o.completed(k, result);
    let b = o.completed(k, other);
    assert(a.has_pending() == b.has_pending()) by {
        if a.has_pending() {
            let w = choose|w: int| 0 <= w < a.slots.len() && #[trigger] a.slots[w] is Pending;
            assert(b.slots[w] is Pending);
        }
        if b.has_pending() {
            let w = choose|w: int| 0 <= w < b.slots.len() && #[trigger] b.slots[w] is Pending;
            assert(a.slots[w] is Pending);
        }
    }
    assert forall|j: int| a.is_first_pending(j) == b.is_first_pending(j) by {
        if a.is_first_pending(j) {
            assert forall|i: int| 0 <= i < j implies !(#[trigger] b.slots[i] is Pending) by {
                assert(!(a.slots[i] is Pending));
            }
        }
        if b.is_first_pending(j) {
            assert forall|i: int| 0 <= i < j implies !(#[trigger] a.slots[i] is Pending) by {
                assert(!(b.slots[i] is Pending));
            }
        }
    }
}

/// The schedule of a run.
#[derive(Debug)]
pub struct Orchestrator {
    slots: Vec<Slot>,
    max_concurrency: usize,
    in_flight: usize,
    cancelled: bool,
}

impl View for Orchestrator {
    type V = OrchestratorView;

    closed spec fn view(&self) -> OrchestratorView {
        OrchestratorView {
            slots: slot_views(self.slots@),
            max_concurrency: self.max_concurrency as nat,
            cancelled: self.cancelled,
        }
    }
}

impl Orchestrator {
    /// The orchestrator is in a state that it can reach: its value is well
    /// formed and its count of fetches in flight is right. Every orchestrator
    /// that this module hands out is.
    pub closed spec fn well_formed(&self) -> bool {
        self@.well_formed() && self.in_flight == self@.in_flight()
    }

    /// A well-formed orchestrator has a well-formed value.
    pub proof fn lemma_well_formed(&self)
        requires
            self.well_formed(),
        ensures
            self@.well_formed(),
            self@.in_flight() <= self@.max_concurrency,
    {
    }

    /// The schedule of a run over `sources` sources with at most
    /// `max_concurrency` fetches in flight: every slot is pending.
    pub fn new(sources: usize, max_concurrency: usize) -> (o: Orchestrator)
        requires
            max_concurrency >= 1,
        ensures
            o.well_formed(),
            o@.slots == Seq::new(sources as nat, |i: int| SlotView::Pending),
            o@.max_concurrency == max_concurrency,
            !o@.cancelled,
            o@.in_flight() == 0,
    {
        let mut slots: Vec<Slot> = Vec::new();
        let mut i: usize = 0;
        while i < sources
            invariant
                0 <= i <= sources,
                slots@.len() == i,
                forall|j: int| 0 <= j < i ==> #[trigger] slots@[j] is Pending,
            decreases sources - i,
        {
            slots.push(Slot::Pending);
            i = i + 1;
        }
        proof {
            assert(slot_views(slots@) =~= Seq::new(sources as nat, |i: int| SlotView::Pending));
            lemma_count_bounds(slot_views(slots@));
        }
        Orchestrator { slots, max_concurrency, in_flight: 0, cancelled: false }
    }

    /// The number of sources of the run.
    pub fn len(&self) -> (n: usize)
        ensures
            n == self@.slots.len(),
    {
        self.slots.len()
    }

    /// The number of fetches in flight; never more than `max_concurrency`.
    pub fn in_flight(&self) -> (n: usize)
        requires
            self.well_formed(),
        ensures
            n == self@.in_flight(),
            n <= self@.max_concurrency,
    {
        self.in_flight
    }

    /// Most fetches that may be in flight at once.
    pub fn max_concurrency(&self) -> (n: usize)
        ensures
            n == self@.max_concurrency,
    {
        self.max_concurrency
    }

    /// Whether the run was cancelled.
    pub fn is_cancelled(&self) -> (b: bool)
        ensures
            b == self@.cancelled,
    {
        self.cancelled
    }

    /// Whether every fetch has ended or was dropped.
    pub fn is_finished(&self) -> (b: bool)
        ensures
            b == self@.finished(),
    {
        let mut i: usize = 0;
        while i < self.slots.len()
            invariant
                0 <= i <= self.slots@.len(),
                forall|j: int|
                    0 <= j < i ==> !(#[trigger] self@.slots[j] is Pending) && !(self@.slots[j] is InFlight),
            decreases self.slots@.len() - i,
        {
            match &self.slots[i] {
                Slot::Pending => {
                    assert(self@.slots[i as int] is Pending);
                    return false;
                },
                Slot::InFlight => {
                    assert(self@.slots[i as int] is InFlight);
                    return false;
                },
                _ => {
                    assert(!(self@.slots[i as int] is Pending) && !(self@.slots[i as int] is InFlight));
                },
            }
            i = i + 1;
        }
        true
    }

    /// Names the source whose fetch is to start next, and counts it as in
    /// flight: the first pending slot, provided the run is not cancelled and
    /// fewer than `max_concurrency` fetches are in flight. Otherwise nothing
    /// changes and there is no such source.
    pub fn dispatch(&mut self) -> (next: Option<usize>)
        requires
            old(self).well_formed(),
        ensures
            final(self).well_formed(),
            next is Some <==> old(self)@.may_dispatch(),
            match next {
                Some(k) => old(self)@.is_first_pending(k as int) && final(self)@ == old(self)@.dispatched(
                    k as int,
                ) && final(self)@.in_flight() == old(self)@.in_flight() + 1,
                None => final(self)@ == old(self)@,
            },
    {
        if self.cancelled || self.in_flight >= self.max_concurrency {
            return None;
        }
        let mut i: usize = 0;
        while i < self.slots.len()
            invariant
                0 <= i <= self.slots@.len(),
                forall|j: int| 0 <= j < i ==> !(#[trigger] self@.slots[j] is Pending),
                *self == *old(self),
                old(self).well_formed(),
                !self.cancelled,
                self.in_flight < self.max_concurrency,
            decreases self.slots@.len() - i,
        {
            if let Slot::Pending = &self.slots[i] {
                proof {
                    assert(self@.slots[i as int] is Pending);
                    lemma_count_update(self@.slots, i as int, SlotView::InFlight);
                }
                self.slots.set(i, Slot::InFlight);
                self.in_flight = self.in_flight + 1;
                assert(self@.slots =~= old(self)@.slots.update(i as int, SlotView::InFlight));
                return Some(i);
            }
            assert(!(self@.slots[i as int] is Pending));
            i = i + 1;
        }
        None
    }

    /// Records that the fetch of the source `k` ended with `result`, and frees
    /// its place. The report is accepted exactly when that fetch is in
    /// flight; otherwise nothing changes.
    pub fn complete(&mut self, k: usize, result: FeedResult) -> (accepted: bool)
        requires
            old(self).well_formed(),
        ensures
            final(self).well_formed(),
            accepted == old(self)@.may_complete(k as int),
            accepted ==> final(self)@ == old(self)@.completed(k as int, result@)
                && final(self)@.in_flight() == old(self)@.in_flight() - 1,
            !accepted ==> final(self)@ == old(self)@,
    {
        if k >= self.slots.len() {
            return false;
        }
        if let Slot::InFlight = &self.slots[k] {
            proof {
                assert(self@.slots[k as int] is InFlight);
                lemma_count_update(self@.slots, k as int, SlotView::Done(result@));
            }
            self.slots.set(k, Slot::Done(result));
            self.in_flight = self.in_flight - 1;
            assert(self@.slots =~= old(self)@.slots.update(k as int, SlotView::Done(result@)));
            true
        } else {
            assert(!(self@.slots[k as int] is InFlight));
            false
        }
    }

    /// Cancels the run: every fetch that has not ended is dropped without a
    /// result, and none starts any more. The results that are in stay.
    pub fn cancel(&mut self)
        requires
            old(self).well_formed(),
        ensures
            final(self).well_formed(),
            final(self)@ == old(self)@.cancelled_run(),
            final(self)@.results() == old(self)@.results(),
            final(self)@.in_flight() == 0,
    {
        let ghost before = self@.slots;
        let mut i: usize = 0;
        while i < self.slots.len()
            invariant
                0 <= i <= self.slots@.len(),
                self.slots@.len() == before.len(),
                before == old(self)@.slots,
                self.max_concurrency == old(self).max_concurrency,
                old(self).well_formed(),
                forall|j: int|
                    0 <= j < i ==> (#[trigger] self.slots@[j])@ == (match before[j] {
                        SlotView::Done(r) => SlotView::Done(r),
                        _ => SlotView::Dropped,
                    }),
                forall|j: int| i <= j < before.len() ==> (#[trigger] self.slots@[j])@ == before[j],
            decreases self.slots@.len() - i,
        {
            let done = match &self.slots[i] {
                Slot::Done(_) => true,
                _ => false,
            };
            if !done {
                self.slots.set(i, Slot::Dropped);
            }
            i = i + 1;
        }
        self.in_flight = 0;
        self.cancelled = true;
        proof {
            assert(self@.slots =~= old(self)@.cancelled_run().slots);
            lemma_count_bounds(self@.slots);
            lemma_cancel_keeps_results(before);
        }
    }

    /// What the run has produced so far: the results of the fetches that have
    /// ended, in the order of the sources. Once an uncancelled run is
    /// finished, that is one result per source.
    pub fn results(&self) -> (r: Vec<FeedResult>)
        requires
            self.well_formed(),
        ensures
            crate::models::result_views(r@) == self@.results(),
            self@.finished() && !self@.cancelled ==> r@.len() == self@.slots.len() && forall|i: int|
                0 <= i < r@.len() ==> SlotView::Done((#[trigger] r@[i])@) == self@.slots[i],
    {
        let ghost slots = self@.slots;
        let mut r: Vec<FeedResult> = Vec::new();
        let mut i: usize = 0;
        assert(slots.take(0) =~= Seq::empty());
        while i < self.slots.len()
            invariant
                slots == slot_views(self.slots@),
                0 <= i <= self.slots@.len(),
                crate::models::result_views(r@) == done_results(slots.take(i as int)),
            decreases self.slots@.len() - i,
        {
            proof {
                assert(slots.take(i + 1).drop_last() =~= slots.take(i as int));
                assert(slots.take(i + 1).last() == slots[i as int]);
            }
            if let Slot::Done(result) = &self.slots[i] {
                r.push(result.clone());
                assert(crate::models::result_views(r@) =~= done_results(slots.take(i + 1)));
            }
            i = i + 1;
        }
        proof {
            assert(slots.take(self.slots@.len() as int) =~= slots);
            if self@.finished() && !self@.cancelled {
                assert forall|i: int| 0 <= i < slots.len() implies #[trigger] slots[i] is Done by {
                    assert(!(self@.slots[i] is Pending));
                    assert(!(self@.slots[i] is Dropped));
                }
                lemma_all_done(slots);
            }
        }
        r
    }
}

/// Cancelling a run loses no result.
pub proof fn lemma_cancel_keeps_results(slots: Seq<SlotView>)
    ensures
        done_results(
            Seq::new(
                slots.len(),
                |i: int|
                    match slots[i] {
                        SlotView::Done(r) => SlotView::Done(r),
                        _ => SlotView::Dropped,
                    },
            ),
        ) == done_results(slots),
    decreases slots.len(),
{
    let after = Seq::new(
        slots.len(),
        |i: int|
            match slots[i] {
                SlotView::Done(r) => SlotView::Done(r),
                _ => SlotView::Dropped,
            },
    );
    if slots.len() > 0 {
        let front = slots.drop_last();
        let front_after = Seq::new(
            front.len(),
            |i: int|
                match front[i] {
                    SlotView::Done(r) => SlotView::Done(r),
                    _ => SlotView::Dropped,
                },
        );
        assert(after.drop_last() =~= front_after);
        lemma_cancel_keeps_results(front);
    }
}

/// What the fetch of a source came to: the result, and the elements of the
/// response that gave no item.
#[derive(Debug)]
pub struct FetchReport {
    pub result: FeedResult,
    pub skipped: Vec<Skipped>,
}

/// The result of a fetch that ended in `state` after `duration_ms`
/// milliseconds; there is none while the fetch has not ended.
///
/// A fetch that ended with a body succeeded with the items that the body
/// gives; where the body gives none because it cannot be read, the fetch
/// failed with `parse error: ` and the description of the fault. A fetch that
/// ended without a body failed with the description of its last error and the
/// number of retries it used.
pub open spec fn result_of(
    feed: FeedConfigView,
    state: RetryStateView,
    duration_ms: u64,
    now: Seq<char>,
) -> Option<FeedResultView> {
    match state {
        RetryStateView::Success { body } => Some(
            match feed_items(feed.name, feed.feed_type, body, now) {
                Ok(n) => FeedResultView {
                    source_name: feed.name,
                    status: FetchStatus::Success,
                    items: n.items,
                    duration_ms,
                    error_message: None,
                },
                Err(e) => FeedResultView {
                    source_name: feed.name,
                    status: FetchStatus::Error,
                    items: Seq::empty(),
                    duration_ms,
                    error_message: Some("parse error: "@ + e.text()),
                },
            },
        ),
        RetryStateView::Failed { error, retries } => Some(
            FeedResultView {
                source_name: feed.name,
                status: FetchStatus::Error,
                items: Seq::empty(),
                duration_ms,
                error_message: Some(failure_text(error, retries as nat)),
            },
        ),
        _ => None,
    }
}

/// The elements that were skipped when the body of a fetch was read.
pub open spec fn skipped_of(feed: FeedConfigView, state: RetryStateView, now: Seq<char>) -> Seq<
    Skipped,
> {
    match state {
        RetryStateView::Success { body } => match feed_items(feed.name, feed.feed_type, body, now) {
            Ok(n) => n.skipped,
            Err(_) => Seq::empty(),
        },
        _ => Seq::empty(),
    }
}

/// Every result of a fetch is well formed: a failure carries no items and
/// says what went wrong, a success carries no error.
pub proof fn lemma_result_well_formed(
    feed: FeedConfigView,
    state: RetryStateView,
    duration_ms: u64,
    now: Seq<char>,
)
    ensures
        result_of(feed, state, duration_ms, now) matches Some(r) ==> r.well_formed() && r.source_name
            == feed.name && r.duration_ms == duration_ms,
        result_of(feed, state, duration_ms, now) is Some <==> state.is_terminal(),
{
}

/// Makes the result of the fetch of `feed` that ended in `state` after
/// `duration_ms` milliseconds; `now` stands in for a time in the response that
/// the calendar cannot hold. There is no result while the fetch has not
/// ended.
pub fn feed_result(feed: &FeedConfig, state: RetryState, duration_ms: u64, now: &str) -> (r: Option<
    FetchReport,
>)
    ensures
        match r {
            Some(report) => Some(report.result@) == result_of(feed@, state@, duration_ms, now@)
                && report.skipped@ == skipped_of(feed@, state@, now@),
            None => result_of(feed@, state@, duration_ms, now@) is None,
        },
{
    match state {
        RetryState::Success { body } => {
            match normalize(feed.name.as_str(), &feed.feed_type, body.as_str(), now) {
                Ok(n) => Some(
                    FetchReport {
                        result: FeedResult::success(feed.name.clone(), n.items, duration_ms),
                        skipped: n.skipped,
                    },
                ),
                Err(e) => {
                    let mut text = "parse error: ".to_string();
                    text.append(e.message().as_str());
                    Some(
                        FetchReport {
                            result: FeedResult::failure(feed.name.clone(), text, duration_ms),
                            skipped: Vec::new(),
                        },
                    )
                },
            }
        },
        RetryState::Failed { error, retries } => Some(
            FetchReport {
                result: FeedResult::failure(
                    feed.name.clone(),
                    failure_message(error.as_str(), retries),
                    duration_ms,
                ),
                skipped: Vec::new(),
            },
        ),
        _ => None,
    }
}

} // verus!

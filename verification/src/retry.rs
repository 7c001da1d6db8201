//! The retry policy of one fetch: a state machine that turns the outcome of
//! each HTTP attempt into the next thing to do.
//!
//! A fetch is `Attempting` its attempt number `k`, counted from 0. The outcome
//! of the attempt is classified: a body ends the fetch in `Success`; a
//! retryable failure sends it to `Waiting` while retries are left, and from
//! there to the next attempt; anything else ends it in `Failed`. With `R`
//! retries allowed a fetch makes at most `R + 1` attempts. The delay before the
//! retry that follows attempt `k` is `D * 2^k` for the base delay `D`, plus a
//! jitter drawn from `[0, max(1, delay / 10)]`.
//!
//! The machine performs no I/O: the caller makes the attempt, sleeps for the
//! delay, and supplies the random number that the jitter is drawn with.

use crate::text::{decimal, push_decimal};
use vstd::arithmetic::power2::{lemma_pow2_strictly_increases, lemma_pow2_unfold, pow2};
use vstd::prelude::*;
use vstd::string::StringExecFns;

verus! {

/// Why a request got no response.
#[derive(Debug)]
pub enum NetworkFailure {
    /// The attempt ran out of time.
    Timeout,
    /// No connection could be made.
    Connect,
    /// Any other transport failure, with its description.
    Other(String),
}

/// The mathematical value of a [`NetworkFailure`].
pub enum NetworkFailureView {
    Timeout,
    Connect,
    Other(Seq<char>),
}

impl View for NetworkFailure {
    type V = NetworkFailureView;

    open spec fn view(&self) -> NetworkFailureView {
        match self {
            NetworkFailure::Timeout => NetworkFailureView::Timeout,
            NetworkFailure::Connect => NetworkFailureView::Connect,
            NetworkFailure::Other(e) => NetworkFailureView::Other(e@),
        }
    }
}

/// What one HTTP attempt came to.
#[derive(Debug)]
pub enum AttemptOutcome {
    /// A response with a status from 200 to 299, and its body.
    Body(String),
    /// The request got no response.
    NetworkError(NetworkFailure),
    /// A response with the given status code.
    HttpStatus(u16),
    /// A response with a status from 200 to 299 whose body could not be read,
    /// with the description of the failure.
    BodyReadError(String),
}

/// The mathematical value of an [`AttemptOutcome`].
pub enum AttemptOutcomeView {
    Body(Seq<char>),
    NetworkError(NetworkFailureView),
    HttpStatus(u16),
    BodyReadError(Seq<char>),
}

impl View for AttemptOutcome {
    type V = AttemptOutcomeView;

    open spec fn view(&self) -> AttemptOutcomeView {
        match self {
            AttemptOutcome::Body(b) => AttemptOutcomeView::Body(b@),
            AttemptOutcome::NetworkError(f) => AttemptOutcomeView::NetworkError(f@),
            AttemptOutcome::HttpStatus(c) => AttemptOutcomeView::HttpStatus(*c),
            AttemptOutcome::BodyReadError(e) => AttemptOutcomeView::BodyReadError(e@),
        }
    }
}

/// What an outcome means for the fetch.
#[derive(Debug, Clone, Copy, PartialEq, Eq, Structural)]
pub enum Disposition {
    /// The fetch has its body.
    Success,
    /// The failure may pass: try again if retries are left.
    Retry,
    /// The failure will not pass: give up at once.
    NoRetry,
}

/// What a status code means: 200 to 299 is success; 429 and 500 to 599 may
/// pass; every other code will not.
pub open spec fn status_disposition(code: u16) -> Disposition {
    if 200 <= code <= 299 {
        Disposition::Success
    } else if code == 429 || 500 <= code <= 599 {
        Disposition::Retry
    } else {
        Disposition::NoRetry
    }
}

/// What an outcome means: a body is success, a network failure or a body that
/// could not be read may pass, and a status code goes by
/// [`status_disposition`].
pub open spec fn disposition(outcome: AttemptOutcomeView) -> Disposition {
    match outcome {
        AttemptOutcomeView::Body(_) => Disposition::Success,
        AttemptOutcomeView::NetworkError(_) => Disposition::Retry,
        AttemptOutcomeView::HttpStatus(code) => status_disposition(code),
        AttemptOutcomeView::BodyReadError(_) => Disposition::Retry,
    }
}

/// The body that an outcome carries: that of a `Body`, and nothing otherwise.
pub open spec fn body_of(outcome: AttemptOutcomeView) -> Seq<char> {
    match outcome {
        AttemptOutcomeView::Body(b) => b,
        _ => Seq::empty(),
    }
}

/// The description of an outcome as an error.
pub open spec fn description(outcome: AttemptOutcomeView) -> Seq<char> {
    match outcome {
        AttemptOutcomeView::Body(_) => Seq::empty(),
        AttemptOutcomeView::NetworkError(NetworkFailureView::Timeout) => "timeout"@,
        AttemptOutcomeView::NetworkError(NetworkFailureView::Connect) => "connection failed"@,
        AttemptOutcomeView::NetworkError(NetworkFailureView::Other(e)) => "network error: "@ + e,
        AttemptOutcomeView::HttpStatus(code) => "HTTP "@ + decimal(code as nat),
        AttemptOutcomeView::BodyReadError(e) => "failed to read response body: "@ + e,
    }
}

/// An error description with the number of retries that were used up.
pub open spec fn failure_text(error: Seq<char>, retries: nat) -> Seq<char> {
    error + " after "@ + decimal(retries) + " retries"@
}

/// The delay before the retry that follows attempt number `attempt`, before
/// jitter: the base delay doubled `attempt` times.
pub open spec fn backoff_delay(base: nat, attempt: nat) -> nat {
    base * pow2(attempt)
}

/// The largest jitter added to `delay`: a tenth of it, and at least 1.
pub open spec fn jitter_limit(delay: nat) -> nat {
    if delay / 10 >= 1 {
        delay / 10
    } else {
        1
    }
}

/// The jitter drawn for `delay` with the random number `random`.
pub open spec fn jitter_of(delay: nat, random: nat) -> nat {
    random % (jitter_limit(delay) + 1)
}

/// The delay with its jitter, for the retry that follows attempt `attempt`.
pub open spec fn jittered_delay(base: nat, attempt: nat, random: nat) -> nat {
    backoff_delay(base, attempt) + jitter_of(backoff_delay(base, attempt), random)
}

/// Every delay of the policy, with the largest jitter, fits 64 bits.
pub open spec fn schedule_fits(retry_max: nat, base: nat) -> bool {
    retry_max > 0 ==> backoff_delay(base, (retry_max - 1) as nat) + jitter_limit(
        backoff_delay(base, (retry_max - 1) as nat),
    ) <= u64::MAX
}

/// The state of one fetch.
#[derive(Debug)]
pub enum RetryState {
    /// Attempt number `attempt` is to be made, or is under way.
    Attempting { attempt: u32 },
    /// Attempt number `attempt` is to be made once `delay_ms` milliseconds
    /// have passed.
    Waiting { attempt: u32, delay_ms: u64 },
    /// The fetch ended with a body.
    Success { body: String },
    /// The fetch ended without one, after `retries` retries; `error` describes
    /// the last failure.
    Failed { error: String, retries: u32 },
}

/// The mathematical value of a [`RetryState`].
pub enum RetryStateView {
    Attempting { attempt: u32 },
    Waiting { attempt: u32, delay_ms: u64 },
    Success { body: Seq<char> },
    Failed { error: Seq<char>, retries: u32 },
}

impl View for RetryState {
    type V = RetryStateView;

    open spec fn view(&self) -> RetryStateView {
        match self {
            RetryState::Attempting { attempt } => RetryStateView::Attempting { attempt: *attempt },
            RetryState::Waiting { attempt, delay_ms } => RetryStateView::Waiting {
                attempt: *attempt,
                delay_ms: *delay_ms,
            },
            RetryState::Success { body } => RetryStateView::Success { body: body@ },
            RetryState::Failed { error, retries } => RetryStateView::Failed {
                error: error@,
                retries: *retries,
            },
        }
    }
}

impl RetryStateView {
    /// The fetch has ended.
    pub open spec fn is_terminal(self) -> bool {
        self is Success || self is Failed
    }
}

/// The mathematical value of a [`RetryPolicy`].
pub struct RetryPolicyView {
    /// Retries allowed after the first attempt.
    pub retry_max: u32,
    /// Delay before the first retry, in milliseconds.
    pub base_delay_ms: u64,
}

impl RetryPolicyView {
    /// The base delay is positive and every delay fits 64 bits.
    pub open spec fn well_formed(self) -> bool {
        self.base_delay_ms > 0 && schedule_fits(self.retry_max as nat, self.base_delay_ms as nat)
    }

    /// The state that follows attempt number `attempt` with the given outcome.
    ///
    /// Success ends the fetch with the body. A failure that may pass leads to
    /// `Waiting` for attempt `attempt + 1` while `attempt < retry_max`. Any
    /// other failure, and a failure after the last retry, ends the fetch in
    /// `Failed` with the description of the outcome and `attempt` as the
    /// number of retries used.
    pub open spec fn after_outcome(self, attempt: u32, outcome: AttemptOutcomeView, random: u64) -> RetryStateView {
        match disposition(outcome) {
            Disposition::Success => RetryStateView::Success { body: body_of(outcome) },
            Disposition::Retry => if attempt < self.retry_max {
                RetryStateView::Waiting {
                    attempt: (attempt + 1) as u32,
                    delay_ms: jittered_delay(
                        self.base_delay_ms as nat,
                        attempt as nat,
                        random as nat,
                    ) as u64,
                }
            } else {
                RetryStateView::Failed { error: description(outcome), retries: attempt }
            },
            Disposition::NoRetry => RetryStateView::Failed {
                error: description(outcome),
                retries: attempt,
            },
        }
    }

    /// The state in which the fetch goes on from `state`: the delay of a
    /// `Waiting` state has passed and its attempt is to be made; every other
    /// state stays.
    pub open spec fn resumed(state: RetryStateView) -> RetryStateView {
        match state {
            RetryStateView::Waiting { attempt, delay_ms } => RetryStateView::Attempting { attempt },
            _ => state,
        }
    }
}

/// How a fetch went: the state it reached and the attempts it made.
pub struct Run {
    pub state: RetryStateView,
    pub attempts: nat,
}

/// Runs a fetch that is about to make attempt number `attempt`, giving its
/// successive attempts the outcomes `outcomes` and drawing the jitter of its
/// successive delays with `randoms`. The run ends when the fetch does, or when
/// the outcomes run out.
pub open spec fn run_from(
    policy: RetryPolicyView,
    attempt: u32,
    outcomes: Seq<AttemptOutcomeView>,
    randoms: Seq<u64>,
) -> Run
    decreases outcomes.len(),
{
    if outcomes.len() == 0 {
        Run { state: RetryStateView::Attempting { attempt }, attempts: 0 }
    } else {
        let next = policy.after_outcome(attempt, outcomes[0], randoms[0]);
        match next {
            RetryStateView::Waiting { attempt: following, delay_ms } => {
                let rest = run_from(policy, following, outcomes.drop_first(), randoms.drop_first());
                Run { state: rest.state, attempts: rest.attempts + 1 }
            },
            _ => Run { state: next, attempts: 1 },
        }
    }
}

/// A fetch makes at most `retry_max + 1` attempts.
pub proof fn lemma_attempts_bounded(
    policy: RetryPolicyView,
    attempt: u32,
    outcomes: Seq<AttemptOutcomeView>,
    randoms: Seq<u64>,
)
    requires
        attempt <= policy.retry_max,
    ensures
        run_from(policy, attempt, outcomes, randoms).attempts <= policy.retry_max - attempt + 1,
    decreases outcomes.len(),
{
    if outcomes.len() > 0 {
        let next = policy.after_outcome(attempt, outcomes[0], randoms[0]);
        if let RetryStateView::Waiting { attempt: following, delay_ms } = next {
            lemma_attempts_bounded(policy, following, outcomes.drop_first(), randoms.drop_first());
        }
    }
}

/// A failure that will not pass ends the fetch at once: a fetch whose first
/// attempt meets one, such as the status 404, makes exactly one attempt and
/// fails with no retry used.
pub proof fn lemma_no_retry_ends_at_once(
    policy: RetryPolicyView,
    outcomes: Seq<AttemptOutcomeView>,
    randoms: Seq<u64>,
)
    requires
        outcomes.len() > 0,
        disposition(outcomes[0]) == Disposition::NoRetry,
    ensures
        disposition(AttemptOutcomeView::HttpStatus(404)) == Disposition::NoRetry,
        run_from(policy, 0, outcomes, randoms) == (Run {
            state: RetryStateView::Failed { error: description(outcomes[0]), retries: 0 },
            attempts: 1,
        }),
{
}

/// Failures that may pass are retried until the retries are used up: a fetch
/// whose every attempt meets one, such as the status 429 or 500, makes exactly
/// `retry_max + 1` attempts and fails with `retry_max` retries used and the
/// description of the last outcome.
pub proof fn lemma_retries_run_out(
    policy: RetryPolicyView,
    attempt: u32,
    outcomes: Seq<AttemptOutcomeView>,
    randoms: Seq<u64>,
)
    requires
        attempt <= policy.retry_max,
        outcomes.len() > policy.retry_max - attempt,
        forall|i: int| 0 <= i < outcomes.len() ==> disposition(#[trigger] outcomes[i]) == Disposition::Retry,
    ensures
        disposition(AttemptOutcomeView::HttpStatus(429)) == Disposition::Retry,
        disposition(AttemptOutcomeView::HttpStatus(500)) == Disposition::Retry,
        run_from(policy, attempt, outcomes, randoms) == (Run {
            state: RetryStateView::Failed {
                error: description(outcomes[policy.retry_max - attempt]),
                retries: policy.retry_max,
            },
            attempts: (policy.retry_max - attempt + 1) as nat,
        }),
    decreases outcomes.len(),
{
    if attempt < policy.retry_max {
        let rest = outcomes.drop_first();
        assert forall|i: int| 0 <= i < rest.len() implies disposition(#[trigger] rest[i])
            == Disposition::Retry by {
            assert(rest[i] == outcomes[i + 1]);
        }
        lemma_retries_run_out(policy, (attempt + 1) as u32, rest, randoms.drop_first());
        assert(rest[policy.retry_max - (attempt + 1)] == outcomes[policy.retry_max - attempt]);
    }
}

/// Success ends the fetch whatever retries are left: when attempt number `j`
/// is the first to get a body, after failures that may pass, the fetch makes
/// exactly `j + 1` attempts and ends in `Success` with that body.
pub proof fn lemma_success_ends_the_fetch(
    policy: RetryPolicyView,
    attempt: u32,
    outcomes: Seq<AttemptOutcomeView>,
    randoms: Seq<u64>,
    j: int,
)
    requires
        0 <= j < outcomes.len(),
        attempt + j <= policy.retry_max,
        disposition(outcomes[j]) == Disposition::Success,
        forall|i: int| 0 <= i < j ==> disposition(#[trigger] outcomes[i]) == Disposition::Retry,
    ensures
        run_from(policy, attempt, outcomes, randoms) == (Run {
            state: RetryStateView::Success { body: body_of(outcomes[j]) },
            attempts: (j + 1) as nat,
        }),
    decreases j,
{
    if j > 0 {
        let rest = outcomes.drop_first();
        assert forall|i: int| 0 <= i < j - 1 implies disposition(#[trigger] rest[i])
            == Disposition::Retry by {
            assert(rest[i] == outcomes[i + 1]);
        }
        assert(rest[j - 1] == outcomes[j]);
        lemma_success_ends_the_fetch(policy, (attempt + 1) as u32, rest, randoms.drop_first(), j - 1);
    }
}

/// The delay before jitter doubles from one retry to the next, starting from
/// the base delay.
pub proof fn lemma_backoff_doubles(base: nat, attempt: nat)
    ensures
        backoff_delay(base, 0) == base,
        backoff_delay(base, attempt + 1) == 2 * backoff_delay(base, attempt),
{
    lemma_pow2_unfold(attempt + 1);
    assert(pow2(0) == 1) by {
        vstd::arithmetic::power2::lemma2_to64();
    }
    assert(base * (2 * pow2(attempt)) == 2 * (base * pow2(attempt))) by (nonlinear_arith);
}

/// The delays before jitter never shrink from one retry to the next.
pub proof fn lemma_backoff_monotone(base: nat, a: nat, b: nat)
    requires
        a <= b,
    ensures
        backoff_delay(base, a) <= backoff_delay(base, b),
{
    if a < b {
        lemma_pow2_strictly_increases(a, b);
    }
    assert(base * pow2(a) <= base * pow2(b)) by (nonlinear_arith)
        requires
            pow2(a) <= pow2(b),
    ;
}

/// The jitter lies in `[0, max(1, delay / 10)]`.
pub proof fn lemma_jitter_range(delay: nat, random: nat)
    ensures
        0 <= jitter_of(delay, random) <= jitter_limit(delay),
        jitter_limit(delay) >= 1,
        jitter_limit(delay) >= delay / 10,
        jitter_limit(delay) == 1 || jitter_limit(delay) == delay / 10,
{
}

/// The number that follows `seed` in the xorshift sequence with the shifts
/// 13, 7 and 17.
pub open spec fn xorshift(seed: u64) -> u64 {
    let a = seed ^ (seed << 13);
    let b = a ^ (a >> 7);
    b ^ (b << 17)
}

/// Draws the next number of the xorshift sequence and leaves it in `seed`.
///
/// The sequence is fixed by the first seed, so a caller that wants jitter that
/// differs from run to run seeds it from the clock, and a test seeds it with a
/// constant. A seed of 0 yields 0 for ever.
pub fn random(seed: &mut u64) -> (r: u64)
    ensures
        r == xorshift(*old(seed)),
        *final(seed) == r,
{
    let mut s: u64 = *seed;
    s = s ^ (s << 13);
    s = s ^ (s >> 7);
    s = s ^ (s << 17);
    *seed = s;
    s
}

/// What an outcome means for the fetch.
pub fn classify(outcome: &AttemptOutcome) -> (d: Disposition)
    ensures
        d == disposition(outcome@),
{
    match outcome {
        AttemptOutcome::Body(_) => Disposition::Success,
        AttemptOutcome::NetworkError(_) => Disposition::Retry,
        AttemptOutcome::HttpStatus(code) => {
            let code: u16 = *code;
            if 200 <= code && code <= 299 {
                Disposition::Success
            } else if code == 429 || (500 <= code && code <= 599) {
                Disposition::Retry
            } else {
                Disposition::NoRetry
            }
        },
        AttemptOutcome::BodyReadError(_) => Disposition::Retry,
    }
}

/// The description of an outcome as an error: `timeout`, `connection failed`,
/// `network error: ` or `failed to read response body: ` with the cause, or
/// `HTTP ` with the status code; empty for a body.
pub fn describe(outcome: &AttemptOutcome) -> (s: String)
    ensures
        s@ == description(outcome@),
{
    match outcome {
        AttemptOutcome::Body(_) => String::new(),
        AttemptOutcome::NetworkError(NetworkFailure::Timeout) => "timeout".to_string(),
        AttemptOutcome::NetworkError(NetworkFailure::Connect) => "connection failed".to_string(),
        AttemptOutcome::NetworkError(NetworkFailure::Other(e)) => {
            let mut s = "network error: ".to_string();
            s.append(e.as_str());
            s
        },
        AttemptOutcome::HttpStatus(code) => {
            let mut s = "HTTP ".to_string();
            push_decimal(&mut s, *code as u64);
            s
        },
        AttemptOutcome::BodyReadError(e) => {
            let mut s = "failed to read response body: ".to_string();
            s.append(e.as_str());
            s
        },
    }
}

/// The description of a failed fetch: the last error, followed by ` after `,
/// the number of retries used, and ` retries`.
pub fn failure_message(error: &str, retries: u32) -> (s: String)
    ensures
        s@ == failure_text(error@, retries as nat),
{
    let mut s = error.to_string();
    s.append(" after ");
    push_decimal(&mut s, retries as u64);
    s.append(" retries");
    s
}

/// The largest jitter added to `delay`: a tenth of it, and at least 1.
pub fn jitter_bound(delay: u64) -> (b: u64)
    ensures
        b == jitter_limit(delay as nat),
{
    let tenth = delay / 10;
    if tenth >= 1 {
        tenth
    } else {
        1
    }
}

/// The jitter drawn for `delay` with the random number `random`: the
/// remainder of `random` by the jitter bound plus one, a number from 0 to the
/// bound.
pub fn jitter(delay: u64, random: u64) -> (j: u64)
    ensures
        j == jitter_of(delay as nat, random as nat),
        j <= jitter_limit(delay as nat),
{
    let bound = jitter_bound(delay);
    random % (bound + 1)
}

/// The retry policy of a run: how often a fetch is retried, and how long it
/// waits before the first retry.
#[derive(Debug, Clone, Copy)]
pub struct RetryPolicy {
    retry_max: u32,
    base_delay_ms: u64,
}

impl View for RetryPolicy {
    type V = RetryPolicyView;

    closed spec fn view(&self) -> RetryPolicyView {
        RetryPolicyView { retry_max: self.retry_max, base_delay_ms: self.base_delay_ms }
    }
}

impl RetryPolicy {
    #[verifier::type_invariant]
    spec fn inv(self) -> bool {
        self@.well_formed()
    }

    /// The policy with `retry_max` retries and the base delay `base_delay_ms`.
    ///
    /// There is none when the base delay is 0, or when a delay of the policy,
    /// with its largest jitter, does not fit 64 bits.
    pub fn new(retry_max: u32, base_delay_ms: u64) -> (p: Option<RetryPolicy>)
        ensures
            p is Some <==> (RetryPolicyView { retry_max, base_delay_ms }).well_formed(),
            p matches Some(policy) ==> policy@ == (RetryPolicyView { retry_max, base_delay_ms }),
    {
        if base_delay_ms == 0 {
            return None;
        }
        if retry_max == 0 {
            return Some(RetryPolicy { retry_max, base_delay_ms });
        }
        let last: u32 = retry_max - 1;
        let mut delay: u64 = base_delay_ms;
        let mut k: u32 = 0;
        proof {
            lemma_backoff_doubles(base_delay_ms as nat, 0);
        }
        while k < last
            invariant
                0 <= k <= last,
                last == retry_max - 1,
                base_delay_ms > 0,
                delay == backoff_delay(base_delay_ms as nat, k as nat),
            decreases last - k,
        {
            proof {
                lemma_backoff_doubles(base_delay_ms as nat, k as nat);
                lemma_backoff_monotone(base_delay_ms as nat, (k + 1) as nat, last as nat);
            }
            if delay > u64::MAX / 2 {
                return None;
            }
            delay = delay * 2;
            k = k + 1;
        }
        if jitter_bound(delay) > u64::MAX - delay {
            return None;
        }
        Some(RetryPolicy { retry_max, base_delay_ms })
    }

    /// Retries allowed after the first attempt.
    pub fn retry_max(&self) -> (r: u32)
        ensures
            r == self@.retry_max,
    {
        self.retry_max
    }

    /// Delay before the first retry, in milliseconds.
    pub fn base_delay_ms(&self) -> (r: u64)
        ensures
            r == self@.base_delay_ms,
    {
        self.base_delay_ms
    }

    /// The delay before the retry that follows attempt number `attempt`,
    /// before jitter: the base delay times `2^attempt`.
    pub fn base_delay(&self, attempt: u32) -> (d: u64)
        requires
            attempt < self@.retry_max,
        ensures
            d == backoff_delay(self@.base_delay_ms as nat, attempt as nat),
            d + jitter_limit(d as nat) <= u64::MAX,
    {
        proof {
            use_type_invariant(self);
            lemma_backoff_doubles(self.base_delay_ms as nat, 0);
            lemma_backoff_monotone(
                self.base_delay_ms as nat,
                attempt as nat,
                (self.retry_max - 1) as nat,
            );
        }
        let mut delay: u64 = self.base_delay_ms;
        let mut k: u32 = 0;
        while k < attempt
            invariant
                0 <= k <= attempt,
                delay == backoff_delay(self.base_delay_ms as nat, k as nat),
                backoff_delay(self.base_delay_ms as nat, attempt as nat) <= u64::MAX,
            decreases attempt - k,
        {
            proof {
                lemma_backoff_doubles(self.base_delay_ms as nat, k as nat);
                lemma_backoff_monotone(self.base_delay_ms as nat, (k + 1) as nat, attempt as nat);
            }
            delay = delay * 2;
            k = k + 1;
        }
        delay
    }

    /// The state in which every fetch starts: its first attempt is to be made.
    pub fn start() -> (s: RetryState)
        ensures
            s@ == (RetryStateView::Attempting { attempt: 0 }),
    {
        RetryState::Attempting { attempt: 0 }
    }

    /// The state that follows attempt number `attempt` with the given outcome;
    /// `random` draws the jitter of the delay, where there is one.
    pub fn on_outcome(&self, attempt: u32, outcome: AttemptOutcome, random: u64) -> (s: RetryState)
        ensures
            s@ == self@.after_outcome(attempt, outcome@, random),
            s@ matches RetryStateView::Waiting { attempt: following, delay_ms } ==> {
                &&& attempt < self@.retry_max
                &&& following == attempt + 1
                &&& delay_ms == jittered_delay(
                    self@.base_delay_ms as nat,
                    attempt as nat,
                    random as nat,
                )
            },
    {
        match classify(&outcome) {
            Disposition::Success => {
                let body = match outcome {
                    AttemptOutcome::Body(b) => b,
                    _ => String::new(),
                };
                RetryState::Success { body }
            },
            Disposition::Retry => {
                if attempt < self.retry_max {
                    let delay = self.base_delay(attempt);
                    let extra = jitter(delay, random);
                    RetryState::Waiting { attempt: attempt + 1, delay_ms: delay + extra }
                } else {
                    RetryState::Failed { error: describe(&outcome), retries: attempt }
                }
            },
            Disposition::NoRetry => RetryState::Failed { error: describe(&outcome), retries: attempt },
        }
    }

    /// The state in which the fetch goes on once the delay of a `Waiting`
    /// state has passed: the attempt is to be made. Every other state stays as
    /// it is.
    pub fn resume(state: RetryState) -> (s: RetryState)
        ensures
            s@ == RetryPolicyView::resumed(state@),
    {
        match state {
            RetryState::Waiting { attempt, delay_ms } => RetryState::Attempting { attempt },
            other => other,
        }
    }
}

} // verus!

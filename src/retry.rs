//! Per-chunk upload retry policy, as a state machine: the caller performs each
//! upload attempt, reports its outcome, and carries out the returned action.

use vstd::prelude::*;

verus! {

/// Uploads dispatched together; batches run one after another, so at most
/// this many uploads are in flight.
pub const UPLOAD_BATCH_SIZE: usize = 3;

/// Transport failures allowed for one chunk; the last one is permanent.
pub const MAX_TRANSPORT_ATTEMPTS: u32 = 5;

/// Shortest wait after a rate-limit response, in seconds.
pub const RATE_LIMIT_MIN_SECS: u64 = 5;

/// Longest wait after a rate-limit response, in seconds.
pub const RATE_LIMIT_MAX_SECS: u64 = 15;

/// Shortest pause after each finished upload, in seconds.
pub const THROTTLE_MIN_SECS: u64 = 2;

/// Longest pause after each finished upload, in seconds.
pub const THROTTLE_MAX_SECS: u64 = 6;

/// HTTP status by which the endpoint asks the client to slow down.
pub const STATUS_TOO_MANY_REQUESTS: u16 = 429;

/// Where an uploaded chunk can be found again.
pub struct Locator {
    /// Opaque handle assigned by the upload endpoint.
    pub message_id: String,
    /// Remote URL, fetchable only through the rewriting proxy.
    pub url: String,
}

/// What one upload attempt came to.
pub enum AttemptOutcome {
    /// The endpoint accepted the chunk and named its locator.
    Uploaded { message_id: String, url: String },
    /// The endpoint answered that requests come too fast.
    RateLimited,
    /// The request failed below HTTP (connection, timeout, ...).
    TransportError,
    /// The endpoint answered, but without the expected identifier or URL.
    MalformedResponse,
}

/// Why a chunk upload failed for good.
#[derive(Debug, Clone, Copy, PartialEq, Eq, Structural)]
pub enum UploadError {
    /// Every transport attempt allowed failed.
    UploadExhausted,
    /// The endpoint's answer could not be understood.
    MalformedResponse,
}

/// What the caller does next for one chunk.
pub enum RetryAction {
    /// Sleep this many seconds, then attempt the upload again.
    Wait { secs: u64 },
    /// The chunk is uploaded.
    Done(Locator),
    /// The chunk failed permanently.
    Fail(UploadError),
}

/// Reads an HTTP answer of the upload endpoint: a rate-limit status, or the
/// message identifier and first attachment URL found in its body, if both
/// are there.
pub fn classify_response(status: u16, message_id: Option<String>, url: Option<String>) -> (r: AttemptOutcome)
    ensures
        status == STATUS_TOO_MANY_REQUESTS ==> r == AttemptOutcome::RateLimited,
        status != STATUS_TOO_MANY_REQUESTS && message_id is Some && url is Some ==> r
            == (AttemptOutcome::Uploaded { message_id: message_id->Some_0, url: url->Some_0 }),
        status != STATUS_TOO_MANY_REQUESTS && (message_id is None || url is None) ==> r
            == AttemptOutcome::MalformedResponse,
{
    if status == STATUS_TOO_MANY_REQUESTS {
        return AttemptOutcome::RateLimited;
    }
    match (message_id, url) {
        (Some(message_id), Some(url)) => AttemptOutcome::Uploaded { message_id, url },
        _ => AttemptOutcome::MalformedResponse,
    }
}

/// Progress of the retries for one chunk.
#[derive(Debug, Clone, Copy, PartialEq, Eq, Structural)]
pub struct RetryState {
    /// Transport failures seen so far; rate-limit answers are not counted.
    pub transport_failures: u32,
}

impl RetryState {
    /// A state is usable while its transport budget is not spent.
    pub open spec fn wf(self) -> bool {
        self.transport_failures < MAX_TRANSPORT_ATTEMPTS
    }

    /// The state before the first attempt of a chunk.
    pub open spec fn new_spec() -> RetryState {
        RetryState { transport_failures: 0 }
    }

    /// The state before the first attempt of a chunk.
    pub fn new() -> (r: RetryState)
        ensures
            r == RetryState::new_spec(),
            r.wf(),
    {
        RetryState { transport_failures: 0 }
    }
}

/// Seconds to wait after the `n`-th transport failure: `2^n`.
pub open spec fn transport_backoff(n: nat) -> nat
    decreases n,
{
    if n == 0 {
        1
    } else {
        2 * transport_backoff((n - 1) as nat)
    }
}

/// The retry decision for one attempt: from the state and the attempt's
/// outcome, the next state and the action; `delay` is the wait drawn for a
/// rate-limit answer.
pub open spec fn step(state: RetryState, outcome: AttemptOutcome, delay: u64) -> (RetryState, RetryAction) {
    match outcome {
        AttemptOutcome::Uploaded { message_id, url } => (
            state,
            RetryAction::Done(Locator { message_id, url }),
        ),
        AttemptOutcome::RateLimited => (state, RetryAction::Wait { secs: delay }),
        AttemptOutcome::TransportError => {
            let n = state.transport_failures + 1;
            if n < MAX_TRANSPORT_ATTEMPTS {
                (
                    RetryState { transport_failures: n as u32 },
                    RetryAction::Wait { secs: transport_backoff(n as nat) as u64 },
                )
            } else {
                (state, RetryAction::Fail(UploadError::UploadExhausted))
            }
        },
        AttemptOutcome::MalformedResponse => (
            state,
            RetryAction::Fail(UploadError::MalformedResponse),
        ),
    }
}

proof fn lemma_backoff_small(n: nat)
    requires
        n <= 4,
    ensures
        transport_backoff(n) <= 16,
{
    reveal_with_fuel(transport_backoff, 5);
}

/// Computes `2^n` for the small `n` a retry budget allows.
fn backoff_secs(n: u32) -> (r: u64)
    requires
        n < MAX_TRANSPORT_ATTEMPTS,
    ensures
        r == transport_backoff(n as nat),
        r <= 16,
{
    let mut r: u64 = 1;
    let mut i: u32 = 0;
    while i < n
        invariant
            i <= n < MAX_TRANSPORT_ATTEMPTS,
            r == transport_backoff(i as nat),
        decreases n - i,
    {
        proof {
            lemma_backoff_small((i + 1) as nat);
        }
        r = r * 2;
        i = i + 1;
    }
    proof {
        lemma_backoff_small(n as nat);
    }
    r
}

/// Decides what follows one upload attempt. A rate-limit answer waits `delay`
/// seconds and leaves the transport budget untouched; the `n`-th transport
/// failure waits `2^n` seconds, and the fifth gives up; a malformed answer
/// gives up at once.
pub fn next_step(state: RetryState, outcome: AttemptOutcome, delay: u64) -> (r: (RetryState, RetryAction))
    requires
        state.wf(),
    ensures
        r == step(state, outcome, delay),
        r.0.wf(),
{
    match outcome {
        AttemptOutcome::Uploaded { message_id, url } => (
            state,
            RetryAction::Done(Locator { message_id, url }),
        ),
        AttemptOutcome::RateLimited => (state, RetryAction::Wait { secs: delay }),
        AttemptOutcome::TransportError => {
            let n = state.transport_failures + 1;
            if n < MAX_TRANSPORT_ATTEMPTS {
                let secs = backoff_secs(n);
                (RetryState { transport_failures: n }, RetryAction::Wait { secs })
            } else {
                (state, RetryAction::Fail(UploadError::UploadExhausted))
            }
        },
        AttemptOutcome::MalformedResponse => (
            state,
            RetryAction::Fail(UploadError::MalformedResponse),
        ),
    }
}

/// Relies on rand::rng and Rng::random_range over an inclusive range: the
/// value drawn lies within the range, which must not be empty.
#[verifier::external_body]
fn random_secs(lo: u64, hi: u64) -> (r: u64)
    requires
        lo <= hi,
    ensures
        lo <= r <= hi,
{
    rand::Rng::random_range(&mut rand::rng(), lo..=hi)
}

/// Pause, in seconds, to take after each finished upload: drawn uniformly
/// between two and six seconds.
pub fn throttle_secs() -> (r: u64)
    ensures
        THROTTLE_MIN_SECS <= r <= THROTTLE_MAX_SECS,
{
    random_secs(THROTTLE_MIN_SECS, THROTTLE_MAX_SECS)
}

/// `r` is what `advance` may return for `state` and `outcome`: the retry
/// decision for some rate-limit wait between five and fifteen seconds.
pub open spec fn advanced(state: RetryState, outcome: AttemptOutcome, r: (RetryState, RetryAction)) -> bool {
    &&& r.0.wf()
    &&& exists|d: u64|
        RATE_LIMIT_MIN_SECS <= d <= RATE_LIMIT_MAX_SECS && r == #[trigger] step(state, outcome, d)
}

/// `a` is a wait of the length allowed after a rate-limit answer.
pub open spec fn is_rate_limit_wait(a: RetryAction) -> bool {
    match a {
        RetryAction::Wait { secs } => RATE_LIMIT_MIN_SECS <= secs <= RATE_LIMIT_MAX_SECS,
        _ => false,
    }
}

/// Decides what follows one upload attempt, drawing the wait for a
/// rate-limit answer uniformly between five and fifteen seconds.
pub fn advance(state: RetryState, outcome: AttemptOutcome) -> (r: (RetryState, RetryAction))
    requires
        state.wf(),
    ensures
        advanced(state, outcome, r),
{
    let delay = random_secs(RATE_LIMIT_MIN_SECS, RATE_LIMIT_MAX_SECS);
    next_step(state, outcome, delay)
}

/// The actions taken when the attempts of one chunk come out as `outcomes`,
/// in order, with `delays[i]` drawn for the `i`-th attempt; it stops at the
/// first action that is not a wait.
pub open spec fn run(state: RetryState, outcomes: Seq<AttemptOutcome>, delays: Seq<u64>) -> Seq<RetryAction>
    decreases outcomes.len(),
{
    if outcomes.len() == 0 {
        seq![]
    } else {
        let (next, action) = step(state, outcomes[0], delays[0]);
        match action {
            RetryAction::Wait { .. } => seq![action] + run(next, outcomes.drop_first(), delays.drop_first()),
            _ => seq![action],
        }
    }
}

/// `k` rate-limit answers followed by `last`.
pub open spec fn throttled_then(k: nat, last: AttemptOutcome) -> Seq<AttemptOutcome> {
    Seq::new(k, |i: int| AttemptOutcome::RateLimited).push(last)
}

/// Rate-limit law: an endpoint that answers "too many requests" `k` times and
/// then accepts the chunk costs exactly `k` waits, each of the drawn length
/// (between five and fifteen seconds when drawn by `advance`), followed by one
/// success with the endpoint's locator; the transport budget is never touched.
pub proof fn lemma_rate_limits_then_success(
    state: RetryState,
    k: nat,
    message_id: String,
    url: String,
    delays: Seq<u64>,
)
    requires
        state.wf(),
        delays.len() >= k,
        forall|i: int| 0 <= i < k ==> RATE_LIMIT_MIN_SECS <= #[trigger] delays[i] <= RATE_LIMIT_MAX_SECS,
    ensures
        ({
            let acts = run(state, throttled_then(k, AttemptOutcome::Uploaded { message_id, url }), delays);
            &&& acts.len() == k + 1
            &&& forall|i: int| 0 <= i < k ==> #[trigger] acts[i] == RetryAction::Wait { secs: delays[i] }
            &&& forall|i: int| 0 <= i < k ==> RATE_LIMIT_MIN_SECS <= #[trigger] delays[i] <= RATE_LIMIT_MAX_SECS
            &&& acts[k as int] == RetryAction::Done(Locator { message_id, url })
        }),
    decreases k,
{
    let last = AttemptOutcome::Uploaded { message_id, url };
    let outs = throttled_then(k, last);
    let acts = run(state, outs, delays);
    if k == 0 {
        assert(outs =~= seq![last]);
        assert(acts == seq![RetryAction::Done(Locator { message_id, url })]);
    } else {
        let k1 = (k - 1) as nat;
        let rest = delays.drop_first();
        assert(outs.drop_first() =~= throttled_then(k1, last));
        lemma_rate_limits_then_success(state, k1, message_id, url, rest);
        let tail = run(state, throttled_then(k1, last), rest);
        assert(acts == seq![RetryAction::Wait { secs: delays[0] }] + tail);
        assert forall|i: int| 0 <= i < k implies #[trigger] acts[i] == RetryAction::Wait { secs: delays[i] } by {
            if i > 0 {
                assert(acts[i] == tail[i - 1]);
                assert(rest[i - 1] == delays[i]);
            }
        }
    }
}

/// Rate-limit law, for the retry loop as driven by `advance`: when the
/// endpoint answers "too many requests" `k` times and then accepts the chunk,
/// and `results[i]` is what `advance` returned for the `i`-th attempt from
/// the state the previous call left, the first `k` actions are waits of five
/// to fifteen seconds that leave the state as it was, and the last is the
/// success carrying the endpoint's locator.
pub proof fn lemma_advance_rate_limits_then_success(
    states: Seq<RetryState>,
    results: Seq<(RetryState, RetryAction)>,
    k: nat,
    message_id: String,
    url: String,
)
    requires
        states.len() == k + 1,
        results.len() == k + 1,
        forall|i: int|
            0 <= i <= k ==> advanced(
                states[i],
                throttled_then(k, AttemptOutcome::Uploaded { message_id, url })[i],
                #[trigger] results[i],
            ),
        forall|i: int| 0 <= i < k ==> states[i + 1] == (#[trigger] results[i]).0,
    ensures
        forall|i: int| 0 <= i < k ==> is_rate_limit_wait((#[trigger] results[i]).1) && results[i].0 == states[i],
        results[k as int].1 == RetryAction::Done(Locator { message_id, url }),
{
    let outs = throttled_then(k, AttemptOutcome::Uploaded { message_id, url });
    assert forall|i: int| 0 <= i < k implies is_rate_limit_wait((#[trigger] results[i]).1) && results[i].0
        == states[i] by {
        assert(advanced(states[i], outs[i], results[i]));
        assert(outs[i] == AttemptOutcome::RateLimited);
        let d = choose|d: u64|
            RATE_LIMIT_MIN_SECS <= d <= RATE_LIMIT_MAX_SECS && results[i] == #[trigger] step(states[i], outs[i], d);
        assert(results[i] == step(states[i], outs[i], d));
    }
    assert(advanced(states[k as int], outs[k as int], results[k as int]));
    assert(outs[k as int] == AttemptOutcome::Uploaded { message_id, url });
}

/// `n` transport failures in a row.
pub open spec fn transport_failures(n: nat) -> Seq<AttemptOutcome> {
    Seq::new(n, |i: int| AttemptOutcome::TransportError)
}

/// Transport law: five transport failures in a row cost four waits of 2, 4, 8
/// and 16 seconds and end in a permanent failure, so the chunk gets no locator.
pub proof fn lemma_transport_failures_exhaust(delays: Seq<u64>)
    ensures
        run(RetryState::new_spec(), transport_failures(MAX_TRANSPORT_ATTEMPTS as nat), delays) == seq![
            RetryAction::Wait { secs: 2 },
            RetryAction::Wait { secs: 4 },
            RetryAction::Wait { secs: 8 },
            RetryAction::Wait { secs: 16 },
            RetryAction::Fail(UploadError::UploadExhausted),
        ],
{
    reveal_with_fuel(transport_backoff, 5);
    let d1 = delays.drop_first();
    let d2 = d1.drop_first();
    let d3 = d2.drop_first();
    let d4 = d3.drop_first();
    assert(transport_failures(5).drop_first() =~= transport_failures(4));
    assert(transport_failures(4).drop_first() =~= transport_failures(3));
    assert(transport_failures(3).drop_first() =~= transport_failures(2));
    assert(transport_failures(2).drop_first() =~= transport_failures(1));
    let r4 = run(RetryState { transport_failures: 4 }, transport_failures(1), d4);
    assert(r4 == seq![RetryAction::Fail(UploadError::UploadExhausted)]);
    let r3 = run(RetryState { transport_failures: 3 }, transport_failures(2), d3);
    assert(r3 == seq![RetryAction::Wait { secs: 16 }] + r4);
    let r2 = run(RetryState { transport_failures: 2 }, transport_failures(3), d2);
    assert(r2 == seq![RetryAction::Wait { secs: 8 }] + r3);
    let r1 = run(RetryState { transport_failures: 1 }, transport_failures(4), d1);
    assert(r1 == seq![RetryAction::Wait { secs: 4 }] + r2);
    let r0 = run(RetryState { transport_failures: 0 }, transport_failures(5), delays);
    assert(r0 == seq![RetryAction::Wait { secs: 2 }] + r1);
    assert(r0 =~= seq![
        RetryAction::Wait { secs: 2 },
        RetryAction::Wait { secs: 4 },
        RetryAction::Wait { secs: 8 },
        RetryAction::Wait { secs: 16 },
        RetryAction::Fail(UploadError::UploadExhausted),
    ]);
}

} // verus!
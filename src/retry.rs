//! The attempt loop of a request: how each attempt's outcome is classified,
//! what is reported against the leased key, and when to stop.
//!
//! The loop itself runs where the I/O is; it asks `RetryLoop` what to do
//! after each attempt.

use vstd::prelude::*;
use crate::error::ClewdrError;
use crate::pool::{KeyStatus, KeyActorMessage};

verus! {

/// What is filed against the key that served an attempt.
#[derive(Debug, Clone, Copy, PartialEq, Eq, Structural)]
pub enum KeyReport {
    /// The key worked: it goes back to the pool unchanged.
    Success,
    /// The upstream answered 400: the key is removed.
    Rejected400,
    /// The upstream answered 403: the key is removed.
    Forbidden403,
    /// The upstream answered 429: the key cools down.
    RateLimited429,
}

/// How one attempt ended.
pub enum AttemptOutcome {
    /// The request token was cancelled while the attempt was in flight.
    Cancelled,
    /// The upstream answered and the body passed validation.
    Succeeded,
    /// The upstream call or the validation failed.
    Failed(ClewdrError),
}

/// Failures that another attempt may cure: any upstream HTTP error, and a
/// response without usable content.
pub open spec fn is_retryable(e: ClewdrError) -> bool {
    e is UpstreamHttp || e is EmptyChoices
}

/// The report an outcome files against its key, if any.
pub open spec fn report_for(o: AttemptOutcome) -> Option<KeyReport> {
    match o {
        AttemptOutcome::Succeeded => Some(KeyReport::Success),
        AttemptOutcome::Failed(ClewdrError::UpstreamHttp { code, .. }) => {
            if code == 400 {
                Some(KeyReport::Rejected400)
            } else if code == 403 {
                Some(KeyReport::Forbidden403)
            } else if code == 429 {
                Some(KeyReport::RateLimited429)
            } else {
                None
            }
        },
        _ => None,
    }
}

/// How the request ends after an outcome, or `None` when another attempt follows.
pub open spec fn verdict_for(o: AttemptOutcome) -> Option<Result<(), ClewdrError>> {
    match o {
        AttemptOutcome::Cancelled => Some(Err(ClewdrError::RequestCancelled)),
        AttemptOutcome::Succeeded => Some(Ok(())),
        AttemptOutcome::Failed(e) => if is_retryable(e) {
            None
        } else {
            Some(Err(e))
        },
    }
}

/// The error kept as the last one after an outcome.
pub open spec fn last_error_after(last: Option<ClewdrError>, o: AttemptOutcome) -> Option<ClewdrError> {
    match o {
        AttemptOutcome::Failed(e) => if is_retryable(e) {
            Some(e)
        } else {
            last
        },
        _ => last,
    }
}

/// The error a request ends with once every attempt is spent.
pub open spec fn exhausted_error(last: Option<ClewdrError>) -> ClewdrError {
    match last {
        Some(e) => e,
        None => ClewdrError::TooManyRetries,
    }
}

/// What the driver does after an attempt.
pub struct RetryStep {
    /// The report to file, in the background, against the attempt's key.
    pub report: Option<KeyReport>,
    /// The end of the request, or `None` to try again.
    pub verdict: Option<Result<(), ClewdrError>>,
}

/// The state of a request's attempt loop: `max_retries + 1` attempts at most.
pub struct RetryLoop {
    max_retries: usize,
    attempts: u128,
    last_error: Option<ClewdrError>,
}

impl View for RetryLoop {
    type V = (nat, nat, Option<ClewdrError>);

    closed spec fn view(&self) -> (nat, nat, Option<ClewdrError>) {
        (self.max_retries as nat, self.attempts as nat, self.last_error)
    }
}

/// The reports filed and the end of a request whose attempts end with
/// `outcomes` in turn, from a loop that has made `attempts` of its
/// `max_retries + 1` attempts and kept `last` as the last error.
pub open spec fn run_attempts(max_retries: nat, attempts: nat, last: Option<ClewdrError>, outcomes: Seq<AttemptOutcome>)
    -> (Seq<KeyReport>, Result<(), ClewdrError>)
    decreases outcomes.len(),
{
    if attempts > max_retries || outcomes.len() == 0 {
        (Seq::empty(), Err(exhausted_error(last)))
    } else {
        let o = outcomes[0];
        let filed: Seq<KeyReport> = match report_for(o) {
            Some(r) => seq![r],
            None => Seq::empty(),
        };
        match verdict_for(o) {
            Some(v) => (filed, v),
            None => {
                let rest = run_attempts(max_retries, attempts + 1, last_error_after(last, o), outcomes.drop_first());
                (filed + rest.0, rest.1)
            },
        }
    }
}

impl RetryLoop {
    pub fn new(max_retries: usize) -> (r: RetryLoop)
        ensures
            r@ == (max_retries as nat, 0nat, None::<ClewdrError>),
    {
        RetryLoop { max_retries, attempts: 0, last_error: None }
    }

    /// Whether another attempt may start.
    pub fn may_attempt(&self) -> (r: bool)
        ensures
            r == (self@.1 <= self@.0),
    {
        self.attempts <= self.max_retries as u128
    }

    /// Records how an attempt ended and says what to report and whether to stop.
    pub fn record(&mut self, outcome: AttemptOutcome) -> (step: RetryStep)
        requires
            old(self)@.1 <= old(self)@.0,
        ensures
            step.report == report_for(outcome),
            step.verdict == verdict_for(outcome),
            final(self)@ == (old(self)@.0, old(self)@.1 + 1, last_error_after(old(self)@.2, outcome)),
    {
        self.attempts = self.attempts + 1;
        match outcome {
            AttemptOutcome::Cancelled => RetryStep { report: None, verdict: Some(Err(ClewdrError::RequestCancelled)) },
            AttemptOutcome::Succeeded => RetryStep { report: Some(KeyReport::Success), verdict: Some(Ok(())) },
            AttemptOutcome::Failed(e) => {
                let report = match &e {
                    ClewdrError::UpstreamHttp { code, .. } => {
                        if *code == 400 {
                            Some(KeyReport::Rejected400)
                        } else if *code == 403 {
                            Some(KeyReport::Forbidden403)
                        } else if *code == 429 {
                            Some(KeyReport::RateLimited429)
                        } else {
                            None
                        }
                    },
                    _ => None,
                };
                let retry = match &e {
                    ClewdrError::UpstreamHttp { .. } => true,
                    ClewdrError::EmptyChoices => true,
                    _ => false,
                };
                if retry {
                    self.last_error = Some(e);
                    RetryStep { report, verdict: None }
                } else {
                    RetryStep { report, verdict: Some(Err(e)) }
                }
            },
        }
    }

    /// The error to end with once no attempt is left: the last retryable
    /// error, or `TooManyRetries` when there was none.
    pub fn give_up(self) -> (e: ClewdrError)
        ensures
            e == exhausted_error(self@.2),
    {
        match self.last_error {
            Some(e) => e,
            None => ClewdrError::TooManyRetries,
        }
    }
}

/// The pool message that files `report` against the leased key, if one was
/// leased. A 429 puts the key in cooldown for `cooldown_secs` from `now`.
pub fn report_message(key: Option<KeyStatus>, report: KeyReport, now: u64, cooldown_secs: u64) -> (m: Option<KeyActorMessage>)
    ensures
        key is None ==> m is None,
        key is Some ==> m is Some,
        key is Some ==> match report {
            KeyReport::Success => m == Some(KeyActorMessage::Return(key->Some_0)),
            KeyReport::Rejected400 => m == Some(KeyActorMessage::Delete(key->Some_0)),
            KeyReport::Forbidden403 => m == Some(KeyActorMessage::Delete(key->Some_0)),
            KeyReport::RateLimited429 => m->Some_0 is Return
                && m->Some_0->Return_0.key == key->Some_0.key
                && m->Some_0->Return_0.cooldown_until == Some(
                    if now + cooldown_secs <= u64::MAX { (now + cooldown_secs) as u64 } else { u64::MAX },
                ),
        },
        key is Some && report == KeyReport::RateLimited429 && cooldown_secs > 0 && now < u64::MAX
            ==> m->Some_0->Return_0.cooldown_until->Some_0 > now,
{
    match key {
        None => None,
        Some(k) => match report {
            KeyReport::Success => Some(KeyActorMessage::Return(k)),
            KeyReport::Rejected400 => Some(KeyActorMessage::Delete(k)),
            KeyReport::Forbidden403 => Some(KeyActorMessage::Delete(k)),
            KeyReport::RateLimited429 => {
                let mut k = k;
                k.set_429_cooldown(now, cooldown_secs);
                Some(KeyActorMessage::Return(k))
            },
        },
    }
}

/// An upstream that fails with 429 on the first `n` attempts and then
/// succeeds, with `n` within the retry budget, gets the request served; each
/// of those failures puts its key in cooldown, and the serving key is
/// reported as working.
pub proof fn law_transient_429_recovers(max_retries: nat, n: nat, body: String)
    requires
        n <= max_retries,
    ensures
        ({
            let outcomes = Seq::new(n, |i: int| AttemptOutcome::Failed(ClewdrError::UpstreamHttp { code: 429, body }))
                .push(AttemptOutcome::Succeeded);
            let run = run_attempts(max_retries, 0, None, outcomes);
            &&& run.1 == Ok::<(), ClewdrError>(())
            &&& run.0 == Seq::new(n, |i: int| KeyReport::RateLimited429).push(KeyReport::Success)
        }),
{
    lemma_transient_429(max_retries, 0, None, n, body);
}

proof fn lemma_transient_429(max_retries: nat, attempts: nat, last: Option<ClewdrError>, n: nat, body: String)
    requires
        attempts + n <= max_retries,
    ensures
        ({
            let outcomes = Seq::new(n, |i: int| AttemptOutcome::Failed(ClewdrError::UpstreamHttp { code: 429, body }))
                .push(AttemptOutcome::Succeeded);
            let run = run_attempts(max_retries, attempts, last, outcomes);
            &&& run.1 == Ok::<(), ClewdrError>(())
            &&& run.0 == Seq::new(n, |i: int| KeyReport::RateLimited429).push(KeyReport::Success)
        }),
    decreases n,
{
    let failed = AttemptOutcome::Failed(ClewdrError::UpstreamHttp { code: 429, body });
    let outcomes = Seq::new(n, |i: int| failed).push(AttemptOutcome::Succeeded);
    if n == 0 {
        assert(outcomes[0] == AttemptOutcome::Succeeded);
        assert(Seq::new(0, |i: int| KeyReport::RateLimited429).push(KeyReport::Success) =~= seq![KeyReport::Success]);
    } else {
        let m = (n - 1) as nat;
        lemma_transient_429(max_retries, attempts + 1, last_error_after(last, failed), m, body);
        assert(outcomes.drop_first() =~= Seq::new(m, |i: int| failed).push(AttemptOutcome::Succeeded));
        assert(outcomes[0] == failed);
        assert(Seq::new(n, |i: int| KeyReport::RateLimited429).push(KeyReport::Success)
            =~= seq![KeyReport::RateLimited429] + Seq::new(m, |i: int| KeyReport::RateLimited429).push(KeyReport::Success));
    }
}

} // verus!

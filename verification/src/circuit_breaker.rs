//! Circuit breakers keep requests away from a target that keeps failing.

use vstd::prelude::*;

use crate::actions::{ActionError, TargetResult};
use crate::json::{is_positive, number_text, Number};
use crate::text::cat3;
use crate::time::{instant_now, secs_span, span_between, span_from_secs, time_between, Span};

verus! {

pub const DEFAULT_FAILURE_THRESHOLD: u32 = 5;

pub const DEFAULT_OPEN_TIMEOUT_SECS: u64 = 30;

#[derive(Debug, Clone, Copy, PartialEq, Eq, Structural)]
pub enum Status {
    /// Requests pass.
    Closed,
    /// Requests are refused.
    Open,
    /// One request is let through to see how it fares.
    HalfOpen,
}

/// Where a breaker stands.
pub struct BreakerState {
    pub status: Status,
    pub consecutive_failures: u32,
    pub generation: u64,
}

#[derive(Debug)]
pub struct CircuitBreakerConfig {
    pub failure_threshold: u32,
    pub open_timeout_secs: Number,
}

impl Default for CircuitBreakerConfig {
    fn default() -> (r: CircuitBreakerConfig)
        ensures
            r.failure_threshold == DEFAULT_FAILURE_THRESHOLD,
            r.open_timeout_secs == Number::Unsigned(DEFAULT_OPEN_TIMEOUT_SECS),
    {
        CircuitBreakerConfig {
            failure_threshold: DEFAULT_FAILURE_THRESHOLD,
            open_timeout_secs: Number::Unsigned(DEFAULT_OPEN_TIMEOUT_SECS),
        }
    }
}

impl CircuitBreakerConfig {
    /// The first thing that is wrong with the settings.
    pub open spec fn problem(self) -> Option<Seq<char>> {
        if self.failure_threshold == 0 {
            Some("circuit_breaker.failure_threshold must be > 0"@)
        } else if !is_positive(self.open_timeout_secs@) {
            Some("circuit_breaker.open_timeout_secs must be a positive finite number"@)
        } else if secs_span(number_text(self.open_timeout_secs@)) is Err {
            Some("circuit_breaker.open_timeout_secs overflows Duration"@)
        } else {
            None
        }
    }

    pub fn validate(&self) -> (r: Result<(), String>)
        ensures
            match r {
                Ok(()) => self.problem() is None,
                Err(e) => self.problem() == Some(e@),
            },
    {
        if self.failure_threshold == 0 {
            return Err("circuit_breaker.failure_threshold must be > 0".to_owned());
        }
        if !self.open_timeout_secs.is_positive() {
            return Err(
                "circuit_breaker.open_timeout_secs must be a positive finite number".to_owned(),
            );
        }
        match span_from_secs(&self.open_timeout_secs.to_text()) {
            Ok(_) => Ok(()),
            Err(_) => Err("circuit_breaker.open_timeout_secs overflows Duration".to_owned()),
        }
    }
}

/// A breaker of one target.
#[derive(Debug)]
pub struct CircuitBreaker {
    pub status: Status,
    pub consecutive_failures: u32,
    pub opened_at: std::time::Instant,
    pub generation: u64,
    pub failure_threshold: u32,
    pub open_timeout: Span,
    pub target_name: String,
}

/// What an outcome says about the target.
#[derive(Debug, Clone, Copy, PartialEq, Eq, Structural)]
pub enum Signal {
    Success,
    Failure,
    Neutral,
}

/// A reply, even a rejection, shows that the target works; a network error or a timeout that it
/// does not; other errors say nothing about it.
pub open spec fn signal_of(result: Result<TargetResult, ActionError>) -> Signal {
    match result {
        Ok(_) => Signal::Success,
        Err(ActionError::NetworkError(_)) => Signal::Failure,
        Err(ActionError::Timeout(_)) => Signal::Failure,
        Err(_) => Signal::Neutral,
    }
}

/// The next generation.
pub open spec fn next_generation(generation: u64) -> u64 {
    if generation < u64::MAX {
        (generation + 1) as u64
    } else {
        0
    }
}

/// Where a breaker stands after a request asked to pass, and the generation under which the
/// request passes, if it does.
pub open spec fn asked(state: BreakerState, timed_out: bool) -> (BreakerState, Option<u64>) {
    match state.status {
        Status::Closed => (state, Some(state.generation)),
        Status::Open => if timed_out {
            let generation = next_generation(state.generation);
            (BreakerState { status: Status::HalfOpen, generation, ..state }, Some(generation))
        } else {
            (state, None)
        },
        Status::HalfOpen => (state, None),
    }
}

/// Where a breaker stands after a signal under the generation of the request. A signal of another
/// generation is stale and changes nothing.
pub open spec fn recorded(
    state: BreakerState,
    threshold: u32,
    generation: u64,
    signal: Signal,
) -> BreakerState {
    if generation != state.generation {
        state
    } else if signal == Signal::Success {
        if state.status == Status::HalfOpen {
            BreakerState {
                status: Status::Closed,
                consecutive_failures: 0,
                generation: next_generation(state.generation),
            }
        } else {
            BreakerState { consecutive_failures: 0, ..state }
        }
    } else if signal == Signal::Failure || state.status == Status::HalfOpen {
        let failures = if state.consecutive_failures < u32::MAX {
            (state.consecutive_failures + 1) as u32
        } else {
            u32::MAX
        };
        if state.status == Status::HalfOpen || (state.status == Status::Closed && failures
            >= threshold) {
            BreakerState {
                status: Status::Open,
                consecutive_failures: failures,
                generation: next_generation(state.generation),
            }
        } else {
            BreakerState { consecutive_failures: failures, ..state }
        }
    } else {
        state
    }
}

fn classify(result: &Result<TargetResult, ActionError>) -> (signal: Signal)
    ensures
        signal == signal_of(*result),
{
    match result {
        Ok(_) => Signal::Success,
        Err(ActionError::NetworkError(_)) => Signal::Failure,
        Err(ActionError::Timeout(_)) => Signal::Failure,
        Err(_) => Signal::Neutral,
    }
}

impl CircuitBreaker {
    pub open spec fn state(self) -> BreakerState {
        BreakerState {
            status: self.status,
            consecutive_failures: self.consecutive_failures,
            generation: self.generation,
        }
    }

    /// The settings are those of another breaker.
    pub open spec fn same_settings(self, other: CircuitBreaker) -> bool {
        &&& self.failure_threshold == other.failure_threshold
        &&& self.open_timeout == other.open_timeout
        &&& self.target_name@ == other.target_name@
    }

    /// Sets up a breaker whose timeout is known to be in range.
    pub fn new(config: &CircuitBreakerConfig, target_name: String) -> (r: CircuitBreaker)
        requires
            secs_span(number_text(config.open_timeout_secs@)) is Ok,
        ensures
            r.state() == (BreakerState {
                status: Status::Closed,
                consecutive_failures: 0,
                generation: 0,
            }),
            r.failure_threshold == config.failure_threshold,
            secs_span(number_text(config.open_timeout_secs@)) == Ok::<Span, Seq<char>>(
                r.open_timeout,
            ),
            r.open_timeout.wf(),
            r.target_name@ == target_name@,
    {
        let open_timeout = span_from_secs(&config.open_timeout_secs.to_text()).unwrap();
        CircuitBreaker {
            status: Status::Closed,
            consecutive_failures: 0,
            opened_at: instant_now(),
            generation: 0,
            failure_threshold: config.failure_threshold,
            open_timeout,
            target_name,
        }
    }

    /// Checks the settings and sets up a breaker.
    pub fn from_config(config: &CircuitBreakerConfig, target_name: String) -> (r: Result<
        CircuitBreaker,
        String,
    >)
        ensures
            match r {
                Ok(breaker) => {
                    &&& config.problem() is None
                    &&& breaker.state() == (BreakerState {
                        status: Status::Closed,
                        consecutive_failures: 0,
                        generation: 0,
                    })
                    &&& breaker.failure_threshold == config.failure_threshold
                    &&& secs_span(number_text(config.open_timeout_secs@)) == Ok::<Span, Seq<char>>(
                        breaker.open_timeout,
                    )
                    &&& breaker.target_name@ == target_name@
                },
                Err(e) => config.problem() == Some(e@),
            },
    {
        match config.validate() {
            Ok(()) => Ok(CircuitBreaker::new(config, target_name)),
            Err(e) => Err(e),
        }
    }

    /// What a request gets, given how long ago the breaker opened.
    pub open spec fn answered(
        self,
        after: CircuitBreaker,
        passed: Span,
        r: Result<u64, ActionError>,
    ) -> bool {
        let (state, generation) = asked(
            self.state(),
            passed.total() >= self.open_timeout.total(),
        );
        &&& after.state() == state
        &&& after.same_settings(self)
        &&& after.opened_at == self.opened_at
        &&& match r {
            Ok(g) => generation == Some(g),
            Err(e) => {
                &&& generation is None
                &&& e matches ActionError::CircuitOpen(m)
                &&& m@ == "target "@ + self.target_name@ + if self.status == Status::Open {
                    " circuit open"@
                } else {
                    " circuit half-open; probe in flight"@
                }
            },
        }
    }

    /// Asks to pass, at a time after the breaker opened.
    pub fn allow_request_after(&mut self, passed: Span) -> (r: Result<u64, ActionError>)
        ensures
            old(self).answered(*final(self), passed, r),
    {
        match self.status {
            Status::Closed => Ok(self.generation),
            Status::Open => {
                if passed.as_nanos() >= self.open_timeout.as_nanos() {
                    self.generation = self.generation.wrapping_add(1);
                    self.status = Status::HalfOpen;
                    Ok(self.generation)
                } else {
                    Err(
                        ActionError::CircuitOpen(
                            cat3("target ", &self.target_name, " circuit open"),
                        ),
                    )
                }
            },
            Status::HalfOpen => Err(
                ActionError::CircuitOpen(
                    cat3("target ", &self.target_name, " circuit half-open; probe in flight"),
                ),
            ),
        }
    }

    /// Asks to pass at a reading of the clock.
    pub fn allow_request_at(&mut self, now: &std::time::Instant) -> (r: Result<u64, ActionError>)
        ensures
            old(self).answered(*final(self), span_between(old(self).opened_at, *now), r),
    {
        let passed = time_between(&self.opened_at, now);
        self.allow_request_after(passed)
    }

    /// Asks to pass now.
    pub fn allow_request(&mut self) -> (r: Result<u64, ActionError>)
        ensures
            exists|now: std::time::Instant|
                old(self).answered(
                    *final(self),
                    #[trigger] span_between(old(self).opened_at, now),
                    r,
                ),
    {
        let now = instant_now();
        self.allow_request_at(&now)
    }

    /// What an outcome that is known at a reading of the clock makes of a breaker: where it opens,
    /// it has opened at that reading, and a breaker that was open keeps its own.
    pub open spec fn took_in(
        self,
        after: CircuitBreaker,
        generation: u64,
        signal: Signal,
        now: std::time::Instant,
    ) -> bool {
        &&& after.state() == recorded(self.state(), self.failure_threshold, generation, signal)
        &&& after.same_settings(self)
        &&& after.opened_at == if after.status == Status::Open && self.status != Status::Open {
            now
        } else {
            self.opened_at
        }
    }

    /// Takes in how a request fared that passed under a generation.
    pub fn record_outcome(&mut self, generation: u64, result: &Result<TargetResult, ActionError>)
        ensures
            exists|now: std::time::Instant| #[trigger]
                old(self).took_in(*final(self), generation, signal_of(*result), now),
    {
        let now = instant_now();
        self.record_outcome_at(generation, result, now);
    }

    /// Takes in how a request fared, at a reading of the clock.
    pub fn record_outcome_at(
        &mut self,
        generation: u64,
        result: &Result<TargetResult, ActionError>,
        now: std::time::Instant,
    )
        ensures
            old(self).took_in(*final(self), generation, signal_of(*result), now),
    {
        let signal = classify(result);
        if generation != self.generation {
            return;
        }
        match signal {
            Signal::Success => self.do_record_success(),
            Signal::Failure => self.do_record_failure(now),
            Signal::Neutral => {
                if self.status == Status::HalfOpen {
                    self.do_record_failure(now);
                }
            },
        }
    }

    fn do_record_success(&mut self)
        ensures
            final(self).state() == recorded(
                old(self).state(),
                old(self).failure_threshold,
                old(self).generation,
                Signal::Success,
            ),
            final(self).same_settings(*old(self)),
            final(self).opened_at == old(self).opened_at,
    {
        self.consecutive_failures = 0;
        if self.status == Status::HalfOpen {
            self.generation = self.generation.wrapping_add(1);
            self.status = Status::Closed;
        }
    }

    fn do_record_failure(&mut self, now: std::time::Instant)
        ensures
            old(self).took_in(*final(self), old(self).generation, Signal::Failure, now),
    {
        self.consecutive_failures = self.consecutive_failures.saturating_add(1);
        match self.status {
            Status::Closed => {
                if self.consecutive_failures >= self.failure_threshold {
                    self.generation = self.generation.wrapping_add(1);
                    self.status = Status::Open;
                    self.opened_at = now;
                }
            },
            Status::HalfOpen => {
                self.generation = self.generation.wrapping_add(1);
                self.status = Status::Open;
                self.opened_at = now;
            },
            Status::Open => {},
        }
    }
}

// ---------------------------------------------------------------------------------------------
// Laws
// ---------------------------------------------------------------------------------------------

/// A breaker after `n` failures in a row under its current generation.
pub open spec fn failed_times(state: BreakerState, threshold: u32, n: nat) -> BreakerState
    decreases n,
{
    if n == 0 {
        state
    } else {
        let before = failed_times(state, threshold, (n - 1) as nat);
        recorded(before, threshold, before.generation, Signal::Failure)
    }
}

/// A closed breaker without failures stays closed for fewer failures in a row than the threshold,
/// and the failure that reaches the threshold opens it.
pub proof fn law_opens_at_the_threshold(state: BreakerState, threshold: u32, n: nat)
    requires
        state.status == Status::Closed,
        state.consecutive_failures == 0,
        1 <= n <= threshold,
    ensures
        n < threshold ==> failed_times(state, threshold, n) == (BreakerState {
            consecutive_failures: n as u32,
            ..state
        }),
        n == threshold ==> failed_times(state, threshold, n).status == Status::Open,
    decreases n,
{
    if n > 1 {
        law_opens_at_the_threshold(state, threshold, (n - 1) as nat);
    } else {
        assert(failed_times(state, threshold, 0) == state);
    }
}

/// One success makes a closed breaker forget the failures before it.
pub proof fn law_success_resets(state: BreakerState, threshold: u32)
    requires
        state.status == Status::Closed,
    ensures
        recorded(state, threshold, state.generation, Signal::Success) == (BreakerState {
            consecutive_failures: 0,
            ..state
        }),
{
}

/// While a probe is in flight no other request passes, however much time goes by.
pub proof fn law_one_probe_at_a_time(state: BreakerState, first: bool, second: bool)
    requires
        state.status == Status::Open,
        asked(state, first).1 is Some,
    ensures
        asked(asked(state, first).0, second).1 is None,
{
}

/// What a request from before the breaker opened reports can neither close nor reopen it: only the
/// outcome of the probe moves a half-open breaker.
pub proof fn law_stale_outcomes_are_ignored(
    state: BreakerState,
    threshold: u32,
    earlier: u64,
    signal: Signal,
)
    requires
        state.status == Status::Open,
        earlier <= state.generation < u64::MAX,
    ensures
        recorded(asked(state, true).0, threshold, earlier, signal) == asked(state, true).0,
{
}

/// The probe decides: its success closes the breaker, anything else opens it again.
pub proof fn law_probe_decides(state: BreakerState, threshold: u32, signal: Signal)
    requires
        state.status == Status::HalfOpen,
    ensures
        recorded(state, threshold, state.generation, signal).status == if signal
            == Signal::Success {
            Status::Closed
        } else {
            Status::Open
        },
{
}

/// A breaker that opens refuses requests until its timeout has passed since then, also where it
/// was a probe that opened it again; after that it lets one request through.
pub proof fn law_open_breakers_refuse_until_the_timeout(
    before: CircuitBreaker,
    opened: CircuitBreaker,
    after: CircuitBreaker,
    generation: u64,
    signal: Signal,
    now: std::time::Instant,
    later: std::time::Instant,
    r: Result<u64, ActionError>,
)
    requires
        before.took_in(opened, generation, signal, now),
        before.status != Status::Open,
        opened.status == Status::Open,
        opened.answered(after, span_between(opened.opened_at, later), r),
    ensures
        opened.opened_at == now,
        r is Ok <==> span_between(now, later).total() >= before.open_timeout.total(),
        r is Err ==> after.status == Status::Open && r->Err_0 is CircuitOpen,
        r is Ok ==> after.status == Status::HalfOpen,
{
}

/// Every change of the status starts a new generation.
pub proof fn law_status_changes_start_generations(
    state: BreakerState,
    threshold: u32,
    generation: u64,
    signal: Signal,
    timed_out: bool,
)
    requires
        state.generation < u64::MAX,
    ensures
        recorded(state, threshold, generation, signal).status != state.status ==> recorded(
            state,
            threshold,
            generation,
            signal,
        ).generation == state.generation + 1,
        asked(state, timed_out).0.status != state.status ==> asked(state, timed_out).0.generation
            == state.generation + 1,
{
}

/// Any reply, even a rejection, speaks for a target, and only a network error or a timeout speaks
/// against it.
pub proof fn law_only_unreachable_targets_fail(result: Result<TargetResult, ActionError>)
    ensures
        signal_of(result) == Signal::Success <==> result is Ok,
        signal_of(result) == Signal::Failure <==> (result matches Err(ActionError::NetworkError(_))
            || result matches Err(ActionError::Timeout(_))),
{
}

/// Where a breaker stands after an outcome, told by where it stood. An outcome of another
/// generation changes nothing. A closed breaker counts failures in a row and opens with the one
/// that reaches the threshold. An open one stays open. A half-open one closes with a success and
/// opens with anything else. Settings never change.
pub proof fn law_outcomes_move_the_breaker(
    before: CircuitBreaker,
    after: CircuitBreaker,
    generation: u64,
    result: Result<TargetResult, ActionError>,
    now: std::time::Instant,
)
    requires
        before.took_in(after, generation, signal_of(result), now),
    ensures
        after.failure_threshold == before.failure_threshold,
        after.open_timeout == before.open_timeout,
        after.target_name@ == before.target_name@,
        generation != before.generation ==> after.status == before.status
            && after.consecutive_failures == before.consecutive_failures && after.generation
            == before.generation && after.opened_at == before.opened_at,
        generation == before.generation && before.status == Status::Closed ==> ({
            let bad = result matches Err(ActionError::NetworkError(_)) || result matches Err(
                ActionError::Timeout(_),
            );
            &&& result is Ok ==> after.status == Status::Closed && after.consecutive_failures == 0
            &&& bad && before.consecutive_failures < u32::MAX ==> after.consecutive_failures
                == before.consecutive_failures + 1
            &&& bad && before.consecutive_failures < u32::MAX ==> (after.status == Status::Open
                <==> before.consecutive_failures + 1 >= before.failure_threshold)
            &&& !bad ==> after.status == Status::Closed
            &&& result is Err && !bad ==> after.consecutive_failures == before.consecutive_failures
            &&& after.status == Status::Open ==> after.opened_at == now
            &&& after.status != Status::HalfOpen
        }),
        generation == before.generation && before.status == Status::Open ==> after.status
            == Status::Open && after.opened_at == before.opened_at && after.generation
            == before.generation,
        generation == before.generation && before.status == Status::HalfOpen ==> if result is Ok {
            after.status == Status::Closed && after.consecutive_failures == 0
        } else {
            after.status == Status::Open && after.opened_at == now
        },
{
}

/// A closed breaker lets every request pass. An open one lets none pass until its timeout is over,
/// to the nanosecond, and then one, under a new generation. A half-open one lets none pass. Who is
/// refused is told of which target and why.
pub proof fn law_requests_pass_by_the_status(
    before: CircuitBreaker,
    after: CircuitBreaker,
    passed: Span,
    r: Result<u64, ActionError>,
)
    requires
        before.answered(after, passed, r),
    ensures
        r is Ok <==> before.status == Status::Closed || (before.status == Status::Open
            && passed.secs * 1_000_000_000 + passed.nanos >= before.open_timeout.secs
            * 1_000_000_000 + before.open_timeout.nanos),
        r matches Ok(g) ==> g == after.generation,
        r is Ok && before.status == Status::Open ==> after.status == Status::HalfOpen && (
        before.generation < u64::MAX ==> after.generation == before.generation + 1),
        !(r is Ok && before.status == Status::Open) ==> after.status == before.status
            && after.generation == before.generation,
        after.consecutive_failures == before.consecutive_failures,
        after.opened_at == before.opened_at,
        r matches Err(e) ==> (e matches ActionError::CircuitOpen(m) && m@ == "target "@
            + before.target_name@ + if before.status == Status::Open {
            " circuit open"@
        } else {
            " circuit half-open; probe in flight"@
        }),
{
}

/// Settings are accepted exactly where the threshold is above zero and the timeout is a number
/// above zero that a length of time can hold.
pub proof fn law_breaker_settings(config: CircuitBreakerConfig)
    ensures
        config.problem() is None <==> config.failure_threshold > 0 && is_positive(
            config.open_timeout_secs@,
        ) && secs_span(number_text(config.open_timeout_secs@)) is Ok,
{
}

/// Generations count up by one, and start over at zero after the last.
pub proof fn law_generations_count_up(generation: u64)
    ensures
        generation != u64::MAX ==> next_generation(generation) == generation + 1,
        generation == u64::MAX ==> next_generation(generation) == 0,
        next_generation(generation) != generation,
{
}

} // verus!

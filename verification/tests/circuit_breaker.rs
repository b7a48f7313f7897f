//! When circuit breakers let requests pass.

use std::time::{Duration, Instant};

use bits::actions::{ActionError, TargetResult};
use bits::circuit_breaker::{CircuitBreaker, CircuitBreakerConfig, Status};
use bits::json::Number;
use bits::result::JobResult;
use bits::time::Span;

fn test_config(threshold: u32, timeout_secs: f64) -> CircuitBreakerConfig {
    CircuitBreakerConfig {
        failure_threshold: threshold,
        open_timeout_secs: Number::Fraction(format!("{:?}", timeout_secs)),
    }
}

fn breaker(threshold: u32, timeout_secs: f64) -> CircuitBreaker {
    CircuitBreaker::new(&test_config(threshold, timeout_secs), "test-target".into())
}

fn network_error() -> Result<TargetResult, ActionError> {
    Err(ActionError::NetworkError("connection refused".into()))
}

fn success() -> Result<TargetResult, ActionError> {
    Ok(TargetResult::Complete(JobResult::Cancelled))
}

fn reject() -> Result<TargetResult, ActionError> {
    Ok(TargetResult::Reject {
        reason: "bad request".into(),
        silent: true,
    })
}

fn record(cb: &mut CircuitBreaker, result: &Result<TargetResult, ActionError>) {
    let g = cb.generation;
    cb.record_outcome(g, result);
}

fn wait_a_moment() {
    let start = std::time::Instant::now();
    while start.elapsed() < Duration::from_millis(1) {}
}

#[test]
fn closed_allows_requests() {
    let mut cb = breaker(3, 30.0);
    assert!(cb.allow_request().is_ok());
}

#[test]
fn opens_after_threshold_failures() {
    let mut cb = breaker(3, 30.0);
    for _ in 0..3 {
        record(&mut cb, &network_error());
    }
    assert!(cb.allow_request().is_err());
}

#[test]
fn success_resets_failure_count() {
    let mut cb = breaker(3, 30.0);
    record(&mut cb, &network_error());
    record(&mut cb, &network_error());
    record(&mut cb, &success());
    record(&mut cb, &network_error());
    record(&mut cb, &network_error());
    assert!(cb.allow_request().is_ok());
}

#[test]
fn reject_counts_as_success() {
    let mut cb = breaker(3, 30.0);
    record(&mut cb, &network_error());
    record(&mut cb, &network_error());
    record(&mut cb, &reject());
    record(&mut cb, &network_error());
    record(&mut cb, &network_error());
    assert!(cb.allow_request().is_ok());
}

#[test]
fn open_rejects_before_timeout() {
    let mut cb = breaker(1, 999.0);
    record(&mut cb, &network_error());
    assert!(cb.allow_request().is_err());
}

#[test]
fn open_transitions_to_half_open_after_timeout() {
    let mut cb = breaker(1, 0.0);
    record(&mut cb, &network_error());
    wait_a_moment();
    assert!(cb.allow_request().is_ok());
}

#[test]
fn half_open_rejects_concurrent_requests() {
    let mut cb = breaker(1, 0.0);
    record(&mut cb, &network_error());
    wait_a_moment();
    assert!(cb.allow_request().is_ok());
    assert!(cb.allow_request().is_err());
}

#[test]
fn half_open_probe_success_closes() {
    let mut cb = breaker(1, 0.0);
    record(&mut cb, &network_error());
    wait_a_moment();
    let g = cb.allow_request().unwrap();
    cb.record_outcome(g, &success());
    assert!(cb.allow_request().is_ok());
}

#[test]
fn half_open_probe_failure_reopens() {
    let mut cb = breaker(1, 999.0);
    cb.status = Status::HalfOpen;
    let g = cb.generation;
    cb.record_outcome(g, &network_error());
    assert!(cb.allow_request().is_err());
}

#[test]
fn neutral_errors_do_not_affect_closed_state() {
    let mut cb = breaker(2, 30.0);
    record(&mut cb, &network_error());
    record(&mut cb, &Err(ActionError::Cancelled));
    record(&mut cb, &Err(ActionError::ResourceError("x".into())));
    assert!(cb.allow_request().is_ok());
}

#[test]
fn stale_success_during_half_open_is_ignored() {
    let mut cb = breaker(1, 0.0);
    let closed_g = cb.allow_request().unwrap();
    record(&mut cb, &network_error());
    wait_a_moment();
    let probe_g = cb.allow_request().unwrap();
    assert_ne!(closed_g, probe_g);
    cb.record_outcome(closed_g, &success());
    assert!(
        cb.allow_request().is_err(),
        "stale success should not close the circuit"
    );
    cb.record_outcome(probe_g, &success());
    assert!(cb.allow_request().is_ok(), "probe success should close it");
}

#[test]
fn stale_failure_during_half_open_is_ignored() {
    let mut cb = breaker(1, 0.0);
    let closed_g = cb.allow_request().unwrap();
    record(&mut cb, &network_error());
    wait_a_moment();
    let probe_g = cb.allow_request().unwrap();
    cb.record_outcome(closed_g, &network_error());
    cb.record_outcome(probe_g, &success());
    assert!(
        cb.allow_request().is_ok(),
        "stale failure should not reopen the circuit"
    );
}

#[test]
fn neutral_during_half_open_reopens() {
    let mut cb = breaker(1, 999.0);
    cb.status = Status::HalfOpen;
    let g = cb.generation;
    cb.record_outcome(g, &Err(ActionError::Cancelled));
    assert!(
        cb.allow_request().is_err(),
        "neutral result during half-open should reopen"
    );
}

#[test]
fn config_validation() {
    assert!(test_config(0, 30.0).validate().is_err());
    assert!(test_config(5, 0.0).validate().is_err());
    assert!(test_config(5, -1.0).validate().is_err());
    assert!(test_config(5, f64::INFINITY).validate().is_err());
    assert!(test_config(5, 30.0).validate().is_ok());
}

#[test]
fn config_problems_are_told_apart() {
    assert_eq!(
        test_config(0, 0.0).validate().unwrap_err(),
        "circuit_breaker.failure_threshold must be > 0"
    );
    assert_eq!(
        test_config(1, -0.5).validate().unwrap_err(),
        "circuit_breaker.open_timeout_secs must be a positive finite number"
    );
    assert_eq!(
        test_config(1, 1e30).validate().unwrap_err(),
        "circuit_breaker.open_timeout_secs overflows Duration"
    );
    assert!(CircuitBreaker::from_config(&test_config(1, 1e30), "t".into()).is_err());
    let cb = CircuitBreaker::from_config(&test_config(1, 2.5), "t".into()).unwrap();
    assert_eq!(
        cb.open_timeout,
        Span {
            secs: 2,
            nanos: 500_000_000
        }
    );
}

#[test]
fn default_config_is_five_failures_and_thirty_seconds() {
    let config = CircuitBreakerConfig::default();
    assert_eq!(config.failure_threshold, 5);
    let cb = CircuitBreaker::from_config(&config, "t".into()).unwrap();
    assert_eq!(cb.open_timeout, Span { secs: 30, nanos: 0 });
}

#[test]
fn refusals_name_the_target() {
    let mut cb = breaker(1, 10.0);
    record(&mut cb, &Err(ActionError::Timeout("5s".into())));
    assert_eq!(
        cb.allow_request_after(Span::from_secs(9))
            .unwrap_err()
            .to_text(),
        "Circuit open: target test-target circuit open"
    );
    assert!(cb.allow_request_after(Span::from_secs(10)).is_ok());
    assert_eq!(
        cb.allow_request_after(Span::from_secs(10))
            .unwrap_err()
            .to_text(),
        "Circuit open: target test-target circuit half-open; probe in flight"
    );
}

#[test]
fn every_change_of_status_starts_a_generation() {
    let mut cb = breaker(2, 1.0);
    assert_eq!(cb.generation, 0);
    record(&mut cb, &network_error());
    assert_eq!(cb.generation, 0);
    record(&mut cb, &network_error());
    assert_eq!((cb.status, cb.generation), (Status::Open, 1));
    assert_eq!(cb.allow_request_after(Span::from_secs(1)).unwrap(), 2);
    cb.record_outcome(2, &success());
    assert_eq!((cb.status, cb.generation), (Status::Closed, 3));
    assert_eq!(cb.consecutive_failures, 0);
}

#[test]
fn the_timeout_runs_from_the_failure_that_opened() {
    let mut cb = breaker(2, 10.0);
    let start = Instant::now();
    let g = cb.generation;
    cb.record_outcome_at(g, &network_error(), start);
    assert!(cb.allow_request_at(&start).is_ok());
    let opened = start + Duration::from_secs(100);
    cb.record_outcome_at(g, &network_error(), opened);
    assert_eq!(cb.opened_at, opened);
    // Fifteen seconds after the first failure, but before the second.
    assert!(cb.allow_request_at(&(start + Duration::from_secs(15))).is_err());
    assert!(cb
        .allow_request_at(&(opened + Duration::from_millis(9_999)))
        .is_err());
    let probe = cb
        .allow_request_at(&(opened + Duration::from_secs(10)))
        .unwrap();
    // Opening and probing each start a generation.
    assert_eq!(probe, g + 2);
    // A probe that fails starts the timeout anew.
    let again = opened + Duration::from_secs(30);
    cb.record_outcome_at(probe, &network_error(), again);
    assert!(cb
        .allow_request_at(&(opened + Duration::from_secs(39)))
        .is_err());
    assert!(cb.allow_request_at(&(again + Duration::from_secs(10))).is_ok());
}

#[test]
fn failures_of_earlier_generations_leave_the_timeout() {
    let mut cb = breaker(1, 10.0);
    let start = Instant::now();
    let g = cb.generation;
    cb.record_outcome_at(g, &network_error(), start);
    let probe = cb
        .allow_request_at(&(start + Duration::from_secs(10)))
        .unwrap();
    cb.record_outcome_at(g, &network_error(), start + Duration::from_secs(50));
    assert_eq!(cb.opened_at, start);
    cb.record_outcome_at(probe, &success(), start + Duration::from_secs(51));
    assert_eq!(cb.status, Status::Closed);
}

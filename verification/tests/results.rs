//! Jobs, their outcomes, and the labels of outcomes.

use bits::job::Job;
use bits::json::parse_yaml;
use bits::metrics::{
    job_result_outcome, record_job_accepted, record_job_duration, record_job_finished,
    record_queue_dequeued, record_queue_drained, record_queue_enqueued,
    record_route_handle_job_accepted, record_route_handle_job_duration,
    record_route_handle_job_finished, Bounds, HistogramBuckets, Instrument, METER_NAME,
};
use bits::result::{ByteStream, JobResult};
use bits::time::{Span, Timestamp};
use opentelemetry::metrics::MeterProvider;
use prometheus::Encoder;

#[test]
fn test_job_creation() {
    let request = parse_yaml(r#"{"class": "od", "stream": "oper"}"#).unwrap();
    let job = Job::new(request.copy(), 0);
    assert!(job.original_request.same(&request));
    assert!(job.request.same(&request));
}

#[test]
fn new_jobs_have_ids_of_their_own() {
    let a = Job::new(parse_yaml("{}").unwrap(), 7);
    let b = Job::new(parse_yaml("{}").unwrap(), 7);
    assert_eq!(a.id.len(), 36);
    assert_ne!(a.id, b.id);
    assert!(!a.is_cancelled());
    assert!(!a.client_present(7));
    assert_eq!(a.user.to_text(), "{}");
}

#[test]
fn restored_jobs_start_over_from_the_original_request() {
    let mut job = Job::new_at(
        "j".into(),
        parse_yaml("{a: 1}").unwrap(),
        Timestamp { secs: 5, nanos: 6 },
        0,
    );
    job.request = parse_yaml("{a: 2}").unwrap();
    job.user = parse_yaml("{name: ada}").unwrap();
    job.cancelled = true;
    let record = job.to_record("site.env.0");
    assert_eq!(record.broker_id, "site.env.0");
    let back = Job::restore(record, 9);
    assert_eq!(back.id, "j");
    assert_eq!(back.request.to_text(), r#"{"a":1}"#);
    assert_eq!(back.original_request.to_text(), r#"{"a":1}"#);
    assert_eq!(back.user.to_text(), r#"{"name":"ada"}"#);
    assert_eq!(back.created_at, Timestamp { secs: 5, nanos: 6 });
    assert!(!back.is_cancelled());
    assert_eq!(back.reconnect_deadline_nanos, 9);
    let again = back.to_record("site.env.1");
    assert_eq!(again.broker_id, "site.env.1");
    assert_eq!(again.job_id, "j");
    assert_eq!(again.original_request.to_text(), r#"{"a":1}"#);
    assert_eq!(again.user.to_text(), r#"{"name":"ada"}"#);
}

#[test]
fn clients_are_present_while_polling_or_within_the_window() {
    let mut job = Job::new(parse_yaml("{}").unwrap(), 100);
    assert!(!job.client_present(100));
    job.set_reconnect_deadline(200);
    assert!(job.client_present(199));
    assert!(!job.client_present(200));
    job.active_pollers = 1;
    assert!(job.client_present(200));
    let copy = job.copy();
    assert_eq!(copy.active_pollers, 1);
    assert!(copy.result.is_none());
}

fn sample_success() -> JobResult {
    JobResult::Success {
        content_type: "text/plain".to_string(),
        size: 100,
        stream: ByteStream { id: 0 },
    }
}

#[test]
fn test_result_creation() {
    let _result = sample_success();
}

#[test]
fn test_result_debug() {
    assert_eq!(sample_success().to_text(), "Success(100 bytes, text/plain)");
}

#[test]
fn test_result_redirect() {
    let result = JobResult::Redirect {
        location: "https://example.com".to_string(),
        message: "Redirecting to example.com".to_string(),
        content_type: None,
        content_length: None,
    };
    assert_eq!(
        result.to_text(),
        "Redirect(https://example.com, Redirecting to example.com)"
    );
}

#[test]
fn test_result_error() {
    let result = JobResult::Error {
        message: "An error occurred".to_string(),
    };
    assert_eq!(result.to_text(), "Error(An error occurred)");
}

#[test]
fn test_result_failed() {
    let result = JobResult::Failed {
        reason: "Queue is full".to_string(),
    };
    assert_eq!(result.to_text(), "Failed(Queue is full)");
}

#[test]
fn test_result_rate_limited() {
    let result = JobResult::RateLimited {
        reason: "user is at the per-user limit (6) for this route".to_string(),
    };
    assert_eq!(
        result.to_text(),
        "RateLimited(user is at the per-user limit (6) for this route)"
    );
}

#[test]
fn only_payloads_are_deliverable() {
    assert!(sample_success().is_deliverable());
    assert!(!JobResult::Cancelled.is_deliverable());
    assert_eq!(JobResult::ClientGone.to_text(), "ClientGone");
    assert_eq!(
        JobResult::Success {
            content_type: "a/b".into(),
            size: -1,
            stream: ByteStream { id: 3 }
        }
        .to_text(),
        "Success(-1 bytes, a/b)"
    );
}

#[test]
fn outcome_maps_all_variants() {
    let cases: Vec<(JobResult, &str)> = vec![
        (
            JobResult::Success {
                content_type: String::new(),
                size: 0,
                stream: ByteStream { id: 0 },
            },
            "success",
        ),
        (
            JobResult::Redirect {
                location: String::new(),
                message: String::new(),
                content_type: None,
                content_length: None,
            },
            "redirect",
        ),
        (
            JobResult::Error {
                message: String::new(),
            },
            "error",
        ),
        (
            JobResult::Failed {
                reason: String::new(),
            },
            "failed",
        ),
        (
            JobResult::Overloaded {
                reason: String::new(),
            },
            "overloaded",
        ),
        (JobResult::Cancelled, "cancelled"),
        (JobResult::ClientGone, "client_gone"),
    ];

    for (result, expected) in &cases {
        assert_eq!(job_result_outcome(result), *expected);
    }
}

#[test]
fn outcome_of_a_rate_limited_job() {
    let result = JobResult::RateLimited {
        reason: String::new(),
    };
    assert_eq!(job_result_outcome(&result), "rate_limited");
}

fn millis(bounds: &Bounds) -> &[u64] {
    match bounds {
        Bounds::Millis(list) => list,
        Bounds::Secs(_) => panic!("expected milliseconds"),
    }
}

#[test]
fn default_buckets_are_strictly_increasing() {
    let b = HistogramBuckets::default();
    assert!(millis(&b.duration).windows(2).all(|w| w[0] < w[1]));
    assert!(millis(&b.queue_wait).windows(2).all(|w| w[0] < w[1]));
    assert_eq!(millis(b.bounds_for(Instrument::JobDuration).unwrap())[0], 5);
    assert_eq!(millis(b.bounds_for(Instrument::QueueWait).unwrap())[0], 1);
    assert!(b.bounds_for(Instrument::JobsAccepted).is_none());
}

#[test]
fn rendered_counter_names_have_single_total_suffix() {
    let registry = prometheus::Registry::new();
    let reader = opentelemetry_prometheus::exporter()
        .with_registry(registry.clone())
        .build()
        .expect("exporter builds");
    let provider = opentelemetry_sdk::metrics::SdkMeterProvider::builder()
        .with_reader(reader)
        .build();
    let meter = provider.meter(METER_NAME);

    meter
        .u64_counter(Instrument::JobsAccepted.name())
        .build()
        .add(1, &[]);
    meter
        .f64_histogram(Instrument::JobDuration.name())
        .build()
        .record(0.5, &[]);

    let mut buf = Vec::new();
    prometheus::TextEncoder::new()
        .encode(&registry.gather(), &mut buf)
        .expect("encode");
    let rendered = String::from_utf8(buf).expect("utf8");

    assert!(
        rendered.contains("bits_jobs_accepted_total"),
        "expected single-total counter name, got:\n{rendered}"
    );
    assert!(
        !rendered.contains("_total_total"),
        "counter must not be double-suffixed, got:\n{rendered}"
    );
    assert!(
        rendered.contains("bits_job_duration_seconds_bucket"),
        "expected histogram bucket series, got:\n{rendered}"
    );
}

#[test]
fn records_carry_their_labels() {
    let span = Span { secs: 1, nanos: 2 };
    assert_eq!(record_queue_enqueued().amount, 1);
    let (count, waited) = record_queue_dequeued(span);
    assert_eq!(count.amount, -1);
    assert_eq!(waited.span, span);
    assert!(record_queue_drained(0).is_none());
    assert_eq!(record_queue_drained(3).unwrap().amount, -3);
    assert_eq!(record_job_accepted().instrument.name(), "bits.jobs.accepted");
    assert_eq!(record_job_finished("failed").outcome.unwrap(), "failed");
    let taken = record_job_duration("success", span);
    assert_eq!(taken.instrument.name(), "bits.job.duration.seconds");
    assert_eq!(
        record_route_handle_job_accepted("h").route_handle.unwrap(),
        "h"
    );
    let ended = record_route_handle_job_finished("h", "error");
    assert_eq!(ended.route_handle.unwrap(), "h");
    assert_eq!(ended.outcome.unwrap(), "error");
    let measured = record_route_handle_job_duration("h", "error", span);
    assert_eq!(
        measured.instrument.name(),
        "bits.route_handle.job.duration.seconds"
    );
}

//! Job lifecycle metrics: which instrument is moved by how much, under which labels.

use vstd::prelude::*;

use crate::json::{Number, NumberValue};
use crate::result::JobResult;
use crate::time::Span;

verus! {

pub const METER_NAME: &'static str = "bits";

pub const OUTCOME_KEY: &'static str = "outcome";

pub const ROUTE_HANDLE_KEY: &'static str = "route_handle";

/// The instruments of the broker.
#[derive(Debug, Clone, Copy, PartialEq, Eq, Structural)]
pub enum Instrument {
    QueueDepth,
    QueueWait,
    JobsAccepted,
    JobsFinished,
    JobDuration,
    RouteHandleJobsAccepted,
    RouteHandleJobsFinished,
    RouteHandleJobDuration,
}

/// The name of an instrument.
pub open spec fn instrument_name(instrument: Instrument) -> Seq<char> {
    match instrument {
        Instrument::QueueDepth => "bits.dispatcher.queue_depth"@,
        Instrument::QueueWait => "bits.dispatcher.queue_wait.seconds"@,
        Instrument::JobsAccepted => "bits.jobs.accepted"@,
        Instrument::JobsFinished => "bits.jobs.finished"@,
        Instrument::JobDuration => "bits.job.duration.seconds"@,
        Instrument::RouteHandleJobsAccepted => "bits.route_handle.jobs.accepted"@,
        Instrument::RouteHandleJobsFinished => "bits.route_handle.jobs.finished"@,
        Instrument::RouteHandleJobDuration => "bits.route_handle.job.duration.seconds"@,
    }
}

impl Instrument {
    pub fn name(self) -> (r: &'static str)
        ensures
            r@ == instrument_name(self),
    {
        match self {
            Instrument::QueueDepth => "bits.dispatcher.queue_depth",
            Instrument::QueueWait => "bits.dispatcher.queue_wait.seconds",
            Instrument::JobsAccepted => "bits.jobs.accepted",
            Instrument::JobsFinished => "bits.jobs.finished",
            Instrument::JobDuration => "bits.job.duration.seconds",
            Instrument::RouteHandleJobsAccepted => "bits.route_handle.jobs.accepted",
            Instrument::RouteHandleJobsFinished => "bits.route_handle.jobs.finished",
            Instrument::RouteHandleJobDuration => "bits.route_handle.job.duration.seconds",
        }
    }
}

/// A movement of a counter.
#[derive(Debug)]
pub struct Count {
    pub instrument: Instrument,
    pub amount: i64,
    pub outcome: Option<String>,
    pub route_handle: Option<String>,
}

/// A measured length of time.
#[derive(Debug)]
pub struct Measurement {
    pub instrument: Instrument,
    pub span: Span,
    pub outcome: Option<String>,
    pub route_handle: Option<String>,
}

/// Boundaries of the buckets of a histogram.
#[derive(Debug)]
pub enum Bounds {
    /// In milliseconds.
    Millis(Vec<u64>),
    /// In seconds, as a configuration gives them.
    Secs(Vec<Number>),
}

/// The mathematical contents of [`Bounds`].
pub enum BoundsFacts {
    Millis(Seq<u64>),
    Secs(Seq<NumberValue>),
}

impl View for Bounds {
    type V = BoundsFacts;

    open spec fn view(&self) -> BoundsFacts {
        match *self {
            Bounds::Millis(list) => BoundsFacts::Millis(list@),
            Bounds::Secs(list) => BoundsFacts::Secs(number_values(list@)),
        }
    }
}

/// The values of some numbers.
pub open spec fn number_values(list: Seq<Number>) -> Seq<NumberValue> {
    Seq::new(list.len(), |i: int| list[i]@)
}

/// Boundaries of the buckets in which lengths of time are counted.
#[derive(Debug)]
pub struct HistogramBuckets {
    /// Boundaries for the job-duration histograms.
    pub duration: Bounds,
    /// Boundaries for the queue-wait histogram.
    pub queue_wait: Bounds,
}

/// The mathematical contents of [`HistogramBuckets`].
pub struct BucketFacts {
    pub duration: BoundsFacts,
    pub queue_wait: BoundsFacts,
}

impl View for HistogramBuckets {
    type V = BucketFacts;

    open spec fn view(&self) -> BucketFacts {
        BucketFacts { duration: self.duration@, queue_wait: self.queue_wait@ }
    }
}

/// The boundaries where none are given.
pub open spec fn default_buckets() -> BucketFacts {
    BucketFacts {
        duration: BoundsFacts::Millis(
            seq![
                5u64, 10, 25, 50, 100, 250, 500, 1_000, 2_500, 5_000, 10_000, 25_000, 60_000,
                120_000,
            ],
        ),
        queue_wait: BoundsFacts::Millis(
            seq![1u64, 5, 10, 50, 100, 500, 1_000, 2_500, 5_000, 10_000, 30_000],
        ),
    }
}

/// Every boundary lies above the one before.
pub open spec fn strictly_increasing(bounds: Seq<u64>) -> bool {
    forall|i: int, j: int| 0 <= i < j < bounds.len() ==> #[trigger] bounds[i] < #[trigger] bounds[j]
}

impl Default for HistogramBuckets {
    fn default() -> (r: HistogramBuckets)
        ensures
            r@ == default_buckets(),
            r.duration matches Bounds::Millis(list) && strictly_increasing(list@),
            r.queue_wait matches Bounds::Millis(list) && strictly_increasing(list@),
    {
        let duration: Vec<u64> = vec![
            5, 10, 25, 50, 100, 250, 500, 1_000, 2_500, 5_000, 10_000, 25_000, 60_000, 120_000,
        ];
        let queue_wait: Vec<u64> = vec![
            1, 5, 10, 50, 100, 500, 1_000, 2_500, 5_000, 10_000, 30_000,
        ];
        assert(duration@ =~= default_buckets().duration->Millis_0);
        assert(queue_wait@ =~= default_buckets().queue_wait->Millis_0);
        HistogramBuckets {
            duration: Bounds::Millis(duration),
            queue_wait: Bounds::Millis(queue_wait),
        }
    }
}

impl HistogramBuckets {
    /// The boundaries for an instrument, if it has buckets.
    pub fn bounds_for(&self, instrument: Instrument) -> (r: Option<&Bounds>)
        ensures
            match instrument {
                Instrument::JobDuration => r == Some(&self.duration),
                Instrument::RouteHandleJobDuration => r == Some(&self.duration),
                Instrument::QueueWait => r == Some(&self.queue_wait),
                _ => r is None,
            },
    {
        match instrument {
            Instrument::JobDuration => Some(&self.duration),
            Instrument::RouteHandleJobDuration => Some(&self.duration),
            Instrument::QueueWait => Some(&self.queue_wait),
            _ => None,
        }
    }
}

/// The stable label of a final outcome.
pub open spec fn outcome_label(result: JobResult) -> Seq<char> {
    match result {
        JobResult::Success { .. } => "success"@,
        JobResult::Redirect { .. } => "redirect"@,
        JobResult::Error { .. } => "error"@,
        JobResult::Failed { .. } => "failed"@,
        JobResult::Overloaded { .. } => "overloaded"@,
        JobResult::RateLimited { .. } => "rate_limited"@,
        JobResult::Cancelled => "cancelled"@,
        JobResult::ClientGone => "client_gone"@,
    }
}

/// Maps a final outcome to its stable label.
pub fn job_result_outcome(result: &JobResult) -> (r: &'static str)
    ensures
        r@ == outcome_label(*result),
{
    match result {
        JobResult::Success { .. } => "success",
        JobResult::Redirect { .. } => "redirect",
        JobResult::Error { .. } => "error",
        JobResult::Failed { .. } => "failed",
        JobResult::Overloaded { .. } => "overloaded",
        JobResult::RateLimited { .. } => "rate_limited",
        JobResult::Cancelled => "cancelled",
        JobResult::ClientGone => "client_gone",
    }
}

/// A movement without labels.
pub open spec fn plain(count: Count, instrument: Instrument, amount: int) -> bool {
    &&& count.instrument == instrument
    &&& count.amount == amount
    &&& count.outcome is None
    &&& count.route_handle is None
}

fn unlabelled(instrument: Instrument, amount: i64) -> (r: Count)
    ensures
        plain(r, instrument, amount as int),
{
    Count { instrument, amount, outcome: None, route_handle: None }
}

/// One more job waits in a queue.
pub fn record_queue_enqueued() -> (r: Count)
    ensures
        plain(r, Instrument::QueueDepth, 1),
{
    unlabelled(Instrument::QueueDepth, 1)
}

/// One job less waits in a queue; it has waited this long.
pub fn record_queue_dequeued(waited: Span) -> (r: (Count, Measurement))
    ensures
        plain(r.0, Instrument::QueueDepth, -1),
        r.1.instrument == Instrument::QueueWait,
        r.1.span == waited,
        r.1.outcome is None,
        r.1.route_handle is None,
{
    (
        unlabelled(Instrument::QueueDepth, -1),
        Measurement {
            instrument: Instrument::QueueWait,
            span: waited,
            outcome: None,
            route_handle: None,
        },
    )
}

/// A queue was emptied of this many stranded jobs. Nothing is recorded where there were none.
pub fn record_queue_drained(count: usize) -> (r: Option<Count>)
    requires
        count <= i64::MAX,
    ensures
        match r {
            Some(c) => count > 0 && plain(c, Instrument::QueueDepth, -(count as int)),
            None => count == 0,
        },
{
    if count > 0 {
        Some(unlabelled(Instrument::QueueDepth, -(count as i64)))
    } else {
        None
    }
}

/// A job was accepted.
pub fn record_job_accepted() -> (r: Count)
    ensures
        plain(r, Instrument::JobsAccepted, 1),
{
    unlabelled(Instrument::JobsAccepted, 1)
}

/// A job came to an end.
pub fn record_job_finished(outcome: &str) -> (r: Count)
    ensures
        r.instrument == Instrument::JobsFinished,
        r.amount == 1,
        r.outcome is Some && r.outcome->0@ == outcome@,
        r.route_handle is None,
{
    Count {
        instrument: Instrument::JobsFinished,
        amount: 1,
        outcome: Some(outcome.to_owned()),
        route_handle: None,
    }
}

/// A job took this long.
pub fn record_job_duration(outcome: &str, span: Span) -> (r: Measurement)
    ensures
        r.instrument == Instrument::JobDuration,
        r.span == span,
        r.outcome is Some && r.outcome->0@ == outcome@,
        r.route_handle is None,
{
    Measurement {
        instrument: Instrument::JobDuration,
        span,
        outcome: Some(outcome.to_owned()),
        route_handle: None,
    }
}

/// A job was accepted through a route handle.
pub fn record_route_handle_job_accepted(route_handle: &str) -> (r: Count)
    ensures
        r.instrument == Instrument::RouteHandleJobsAccepted,
        r.amount == 1,
        r.outcome is None,
        r.route_handle is Some && r.route_handle->0@ == route_handle@,
{
    Count {
        instrument: Instrument::RouteHandleJobsAccepted,
        amount: 1,
        outcome: None,
        route_handle: Some(route_handle.to_owned()),
    }
}

/// A job of a route handle came to an end.
pub fn record_route_handle_job_finished(route_handle: &str, outcome: &str) -> (r: Count)
    ensures
        r.instrument == Instrument::RouteHandleJobsFinished,
        r.amount == 1,
        r.outcome is Some && r.outcome->0@ == outcome@,
        r.route_handle is Some && r.route_handle->0@ == route_handle@,
{
    Count {
        instrument: Instrument::RouteHandleJobsFinished,
        amount: 1,
        outcome: Some(outcome.to_owned()),
        route_handle: Some(route_handle.to_owned()),
    }
}

/// A job of a route handle took this long.
pub fn record_route_handle_job_duration(
    route_handle: &str,
    outcome: &str,
    span: Span,
) -> (r: Measurement)
    ensures
        r.instrument == Instrument::RouteHandleJobDuration,
        r.span == span,
        r.outcome is Some && r.outcome->0@ == outcome@,
        r.route_handle is Some && r.route_handle->0@ == route_handle@,
{
    Measurement {
        instrument: Instrument::RouteHandleJobDuration,
        span,
        outcome: Some(outcome.to_owned()),
        route_handle: Some(route_handle.to_owned()),
    }
}

/// Every kind of outcome has a label of its own.
pub proof fn law_labels_tell_outcomes_apart(a: JobResult, b: JobResult)
    ensures
        outcome_label(a) == outcome_label(b) <==> {
            ||| a is Success && b is Success
            ||| a is Redirect && b is Redirect
            ||| a is Error && b is Error
            ||| a is Failed && b is Failed
            ||| a is Overloaded && b is Overloaded
            ||| a is RateLimited && b is RateLimited
            ||| a is Cancelled && b is Cancelled
            ||| a is ClientGone && b is ClientGone
        },
{
    reveal_strlit("success");
    reveal_strlit("redirect");
    reveal_strlit("error");
    reveal_strlit("failed");
    reveal_strlit("overloaded");
    reveal_strlit("rate_limited");
    reveal_strlit("cancelled");
    reveal_strlit("client_gone");
    assert("success"@.len() == 7 && "redirect"@.len() == 8 && "error"@.len() == 5 && "failed"@.len()
        == 6);
    assert("overloaded"@.len() == 10 && "rate_limited"@.len() == 12 && "cancelled"@.len() == 9
        && "client_gone"@.len() == 11);
}

/// The default boundaries lie in order, from five milliseconds to two minutes for a job and from
/// one millisecond to half a minute for a wait.
pub proof fn law_default_boundaries()
    ensures
        default_buckets().duration matches BoundsFacts::Millis(list) && list.len() == 14
            && list.first() == 5 && list.last() == 120_000 && strictly_increasing(list),
        default_buckets().queue_wait matches BoundsFacts::Millis(list) && list.len() == 11
            && list.first() == 1 && list.last() == 30_000 && strictly_increasing(list),
{
}

} // verus!

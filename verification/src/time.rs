//! Points in time as plain numbers.

use vstd::prelude::*;

verus! {

/// A UTC point in time: whole seconds since the Unix epoch and the nanoseconds within that second.
#[derive(Debug, Clone, Copy, PartialEq, Eq, Structural)]
pub struct Timestamp {
    pub secs: i64,
    pub nanos: u32,
}

/// What `chrono::DateTime::parse_from_rfc3339` reads from a text, as a UTC point in time, or
/// `None` where it refuses the text.
pub uninterp spec fn rfc3339_value(text: Seq<char>) -> Option<Timestamp>;

/// Calls `chrono::DateTime::parse_from_rfc3339` and keeps the instant that it denotes. The start
/// of the year 2025 in UTC is 1 735 689 600 seconds after the Unix epoch.
#[verifier::external_body]
pub(crate) fn parse_rfc3339(text: &str) -> (instant: Option<Timestamp>)
    ensures
        instant == rfc3339_value(text@),
        text@ == "2025-01-01T00:00:00Z"@ ==> instant == Some(
            Timestamp { secs: 1_735_689_600, nanos: 0 },
        ),
{
    let instant = chrono::DateTime::parse_from_rfc3339(text).ok()?;
    Some(Timestamp { secs: instant.timestamp(), nanos: instant.timestamp_subsec_nanos() })
}

/// Calls `chrono::Utc::now`. The clock may show anything, so nothing is said of the result.
#[verifier::external_body]
pub(crate) fn utc_now() -> (instant: Timestamp)
{
    let instant = chrono::Utc::now();
    Timestamp { secs: instant.timestamp(), nanos: instant.timestamp_subsec_nanos() }
}

pub const NANOS_PER_SEC: u32 = 1_000_000_000;

/// A length of time: whole seconds and the nanoseconds beyond them.
#[derive(Debug, Clone, Copy, PartialEq, Eq, Structural)]
pub struct Span {
    pub secs: u64,
    pub nanos: u32,
}

impl Span {
    /// The nanoseconds stay below one second.
    pub open spec fn wf(self) -> bool {
        self.nanos < NANOS_PER_SEC
    }

    /// The whole length in nanoseconds.
    pub open spec fn total(self) -> nat {
        (self.secs * 1_000_000_000 + self.nanos) as nat
    }

    pub fn from_secs(secs: u64) -> (span: Span)
        ensures
            span == (Span { secs, nanos: 0 }),
    {
        Span { secs, nanos: 0 }
    }

    pub fn is_zero(&self) -> (r: bool)
        ensures
            r == (self.total() == 0),
    {
        self.secs == 0 && self.nanos == 0
    }

    /// The whole length in nanoseconds.
    pub fn as_nanos(&self) -> (nanos: u128)
        ensures
            nanos == self.total(),
    {
        self.secs as u128 * 1_000_000_000 + self.nanos as u128
    }
}

/// What `std::time::Duration::try_from_secs_f64` makes of the number of seconds in a text, or the
/// words in which it is refused.
pub uninterp spec fn secs_span(text: Seq<char>) -> Result<Span, Seq<char>>;

/// Reads a number of seconds and calls `std::time::Duration::try_from_secs_f64` on it. The
/// nanoseconds of a duration beyond its whole seconds are below one second.
#[verifier::external_body]
pub(crate) fn span_from_secs(text: &str) -> (r: Result<Span, String>)
    ensures
        match r {
            Ok(span) => secs_span(text@) == Ok::<Span, Seq<char>>(span) && span.wf(),
            Err(reason) => secs_span(text@) == Err::<Span, Seq<char>>(reason@),
        },
{
    let secs = text.parse().map_err(|e: std::num::ParseFloatError| e.to_string())?;
    let span = std::time::Duration::try_from_secs_f64(secs).map_err(|e| e.to_string())?;
    Ok(Span { secs: span.as_secs(), nanos: span.subsec_nanos() })
}

/// The seconds that `std::time::Duration::as_secs_f64` gives, printed with three decimals.
pub uninterp spec fn secs_text(secs: u64, nanos: u32) -> Seq<char>;

/// Prints a duration with `format!` as seconds with three decimals.
#[verifier::external_body]
pub(crate) fn format_secs(secs: u64, nanos: u32) -> (text: String)
    requires
        nanos < NANOS_PER_SEC,
    ensures
        text@ == secs_text(secs, nanos),
{
    format!("{:.3}", std::time::Duration::new(secs, nanos).as_secs_f64())
}

/// The seconds that `std::time::Duration::as_secs_f64` gives, printed with one decimal.
pub uninterp spec fn tenths_text(secs: u64, nanos: u32) -> Seq<char>;

/// Prints a duration with `format!` as seconds with one decimal.
#[verifier::external_body]
pub(crate) fn format_tenths(secs: u64, nanos: u32) -> (text: String)
    requires
        nanos < NANOS_PER_SEC,
    ensures
        text@ == tenths_text(secs, nanos),
{
    format!("{:.1}", std::time::Duration::new(secs, nanos).as_secs_f64())
}

#[verifier::external_type_specification]
#[verifier::external_body]
pub struct ExInstant(std::time::Instant);

/// Calls `std::time::Instant::now`. Nothing is said of the reading of the clock.
#[verifier::external_body]
pub(crate) fn instant_now() -> (instant: std::time::Instant)
{
    std::time::Instant::now()
}

/// The time from one reading of the clock to another, as
/// `std::time::Instant::saturating_duration_since` gives it.
pub uninterp spec fn span_between(since: std::time::Instant, now: std::time::Instant) -> Span;

/// Calls `std::time::Instant::saturating_duration_since` on two readings of the clock. The
/// nanoseconds of a duration beyond its whole seconds are below one second.
#[verifier::external_body]
pub(crate) fn time_between(since: &std::time::Instant, now: &std::time::Instant) -> (span: Span)
    ensures
        span == span_between(*since, *now),
        span.wf(),
{
    let passed = now.saturating_duration_since(*since);
    Span { secs: passed.as_secs(), nanos: passed.subsec_nanos() }
}

/// The last second of which a UTC timestamp is made.
pub const LAST_SECOND: i64 = 8_210_266_876_799;

impl Timestamp {
    /// Whether this point in time comes after another.
    pub open spec fn after(self, other: Timestamp) -> bool {
        self.secs > other.secs || (self.secs == other.secs && self.nanos > other.nanos)
    }

    pub fn is_after(&self, other: &Timestamp) -> (r: bool)
        ensures
            r == self.after(*other),
    {
        self.secs > other.secs || (self.secs == other.secs && self.nanos > other.nanos)
    }
}

/// A length of time fits into signed milliseconds.
pub open spec fn fits_millis(length: Span) -> bool {
    length.secs < 9_223_372_036_854_775 || (length.secs == 9_223_372_036_854_775 && length.nanos
        <= 807_000_000)
}

/// Tells whether a length of time fits into signed milliseconds.
pub fn millis_fit(length: Span) -> (r: bool)
    ensures
        r == fits_millis(length),
{
    length.secs < 9_223_372_036_854_775 || (length.secs == 9_223_372_036_854_775 && length.nanos
        <= 807_000_000)
}

/// The length of a lease. Lengths beyond the range of signed milliseconds count as one minute.
pub open spec fn lease_length(ttl: Span) -> Span {
    if fits_millis(ttl) {
        ttl
    } else {
        Span { secs: 60, nanos: 0 }
    }
}

/// The end of a lease that starts at a point in time, no later than the last second there is.
pub open spec fn lease_end(start: Timestamp, ttl: Span) -> Timestamp {
    let length = lease_length(ttl);
    let nanos = start.nanos + length.nanos;
    let secs = start.secs + length.secs + nanos / 1_000_000_000;
    if secs > LAST_SECOND {
        Timestamp { secs: LAST_SECOND, nanos: 999_999_999 }
    } else {
        Timestamp { secs: secs as i64, nanos: (nanos % 1_000_000_000) as u32 }
    }
}

/// Computes the end of a lease.
pub fn end_of_lease(start: Timestamp, ttl: Span) -> (end: Timestamp)
    ensures
        end == lease_end(start, ttl),
{
    let length = if millis_fit(ttl) {
        ttl
    } else {
        Span { secs: 60, nanos: 0 }
    };
    let nanos: u64 = start.nanos as u64 + length.nanos as u64;
    let secs: i128 = start.secs as i128 + length.secs as i128 + (nanos / 1_000_000_000) as i128;
    if secs > LAST_SECOND as i128 {
        Timestamp { secs: LAST_SECOND, nanos: 999_999_999 }
    } else {
        Timestamp { secs: secs as i64, nanos: (nanos % 1_000_000_000) as u32 }
    }
}

/// Twice a length of time, or the longest there is.
pub open spec fn doubled(length: Span) -> Span {
    let nanos = 2 * length.nanos;
    let secs = 2 * length.secs + nanos / 1_000_000_000;
    if secs > u64::MAX {
        Span { secs: u64::MAX, nanos: 999_999_999 }
    } else {
        Span { secs: secs as u64, nanos: (nanos % 1_000_000_000) as u32 }
    }
}

/// Computes twice a length of time.
pub fn double_span(length: Span) -> (r: Span)
    ensures
        r == doubled(length),
{
    let nanos: u64 = 2 * length.nanos as u64;
    let secs: u128 = 2 * length.secs as u128 + (nanos / 1_000_000_000) as u128;
    if secs > u64::MAX as u128 {
        Span { secs: u64::MAX, nanos: 999_999_999 }
    } else {
        Span { secs: secs as u64, nanos: (nanos % 1_000_000_000) as u32 }
    }
}

/// Points in time are ordered by their seconds, and within a second by their nanoseconds.
pub proof fn law_time_is_ordered(a: Timestamp, b: Timestamp)
    requires
        a.nanos < 1_000_000_000,
        b.nanos < 1_000_000_000,
    ensures
        a.after(b) <==> a.secs * 1_000_000_000 + a.nanos > b.secs * 1_000_000_000 + b.nanos,
        !(a.after(b) && b.after(a)),
        a != b ==> a.after(b) || b.after(a),
{
}

/// A length of time is counted in nanoseconds.
pub proof fn law_lengths_are_counted_in_nanoseconds(length: Span)
    ensures
        length.total() == length.secs * 1_000_000_000 + length.nanos,
        length.total() == 0 <==> length.secs == 0 && length.nanos == 0,
{
}

/// A lease ends exactly its length after it starts. A length that does not fit into signed
/// milliseconds counts as a minute, and no lease ends after the last second there is.
pub proof fn law_leases_end_after_their_length(start: Timestamp, ttl: Span)
    requires
        start.nanos < 1_000_000_000,
        ttl.nanos < 1_000_000_000,
    ensures
        ({
            let end = lease_end(start, ttl);
            let fits = ttl.secs * 1_000_000_000 + ttl.nanos <= 9_223_372_036_854_775_807_000_000;
            let nanos = start.secs * 1_000_000_000 + start.nanos + if fits {
                ttl.secs * 1_000_000_000 + ttl.nanos
            } else {
                60_000_000_000
            };
            &&& nanos < (8_210_266_876_799 + 1) * 1_000_000_000 ==> end.secs * 1_000_000_000
                + end.nanos == nanos
            &&& nanos >= (8_210_266_876_799 + 1) * 1_000_000_000 ==> end == (Timestamp {
                secs: 8_210_266_876_799,
                nanos: 999_999_999,
            })
            &&& end.nanos < 1_000_000_000
        }),
{
}

/// Twice a length is twice as many nanoseconds, unless no length holds them.
pub proof fn law_doubled_lengths(length: Span)
    ensures
        2 * (length.secs * 1_000_000_000 + length.nanos) < 0x1_0000_0000_0000_0000 * 1_000_000_000
            ==> doubled(length).secs * 1_000_000_000 + doubled(length).nanos == 2 * (length.secs
            * 1_000_000_000 + length.nanos),
{
}

} // verus!

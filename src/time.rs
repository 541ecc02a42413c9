//! Event time: timestamps as nanoseconds since the Unix epoch, and durations.
use vstd::prelude::*;

verus! {

/// Smallest timestamp this engine accepts, in nanoseconds since 1970-01-01
/// (year 1843): the designated minimum timestamp.
pub const MIN_TIMESTAMP_NANOS: i64 = -4_000_000_000_000_000_000;

/// Largest timestamp this engine accepts, in nanoseconds since 1970-01-01 (year 2096).
pub const MAX_TIMESTAMP_NANOS: i64 = 4_000_000_000_000_000_000;

/// Largest duration this engine accepts, in nanoseconds.
pub const MAX_DURATION_NANOS: i64 = 4_000_000_000_000_000_000;

/// Text form of a timestamp: `2020-01-01 00:00:05.000000000`.
pub const TIMESTAMP_FORMAT: &'static str = "%Y-%m-%d %H:%M:%S%.9f";

/// The same with a `T` between date and time: `2020-01-01T00:00:05.000000000`,
/// also accepted when reading.
pub const TIMESTAMP_FORMAT_T: &'static str = "%Y-%m-%dT%H:%M:%S%.9f";

/// What chrono's `NaiveDateTime::parse_from_str` gives for a text and a format,
/// as nanoseconds since the epoch (`None` when it does not parse or does not fit).
pub uninterp spec fn parsed_timestamp_nanos(s: Seq<char>, fmt: Seq<char>) -> Option<int>;

/// What chrono's formatting of a UTC date-time gives for nanoseconds since the epoch.
pub uninterp spec fn formatted_timestamp(nanos: int, fmt: Seq<char>) -> Seq<char>;

/// Relies on chrono's `NaiveDateTime::parse_from_str` and
/// `DateTime::timestamp_nanos_opt`: the parsed date-time as nanoseconds.
#[verifier::external_body]
fn chrono_parse_nanos(s: &str, fmt: &str) -> (r: Option<i64>)
    ensures
        r matches Some(n) ==> parsed_timestamp_nanos(s@, fmt@) == Some(n as int),
        r is None ==> parsed_timestamp_nanos(s@, fmt@) is None,
{
    match chrono::NaiveDateTime::parse_from_str(s, fmt) {
        Ok(t) => t.and_utc().timestamp_nanos_opt(),
        Err(_) => None,
    }
}

/// Relies on chrono's `DateTime::from_timestamp_nanos`, `naive_utc` and
/// `format`: the UTC date-time written with the timestamp format. Writing
/// fails (and `to_string` panics) only for a malformed format, hence the
/// `requires`.
#[verifier::external_body]
fn chrono_format_nanos(nanos: i64, fmt: &str) -> (r: String)
    requires
        fmt@ == TIMESTAMP_FORMAT@,
    ensures
        r@ == formatted_timestamp(nanos as int, fmt@),
{
    chrono::DateTime::from_timestamp_nanos(nanos).naive_utc().format(fmt).to_string()
}

/// What a text holds as a timestamp in this engine, if anything: read with
/// the timestamp format, else with its `T` form, and within the accepted range.
pub open spec fn text_timestamp(s: Seq<char>) -> Option<int> {
    let n = match parsed_timestamp_nanos(s, TIMESTAMP_FORMAT@) {
        Some(n) => Some(n),
        None => parsed_timestamp_nanos(s, TIMESTAMP_FORMAT_T@),
    };
    match n {
        Some(n) => if MIN_TIMESTAMP_NANOS <= n <= MAX_TIMESTAMP_NANOS { Some(n) } else { None },
        None => None,
    }
}

/// A point in event time (or arrival time), in nanoseconds since 1970-01-01 00:00:00 UTC.
#[derive(Clone, Copy, Debug, PartialEq, Eq, Structural, PartialOrd, Ord, Hash)]
pub struct Timestamp {
    pub nanos: i64,
}

/// A span of event time in nanoseconds.
#[derive(Clone, Copy, Debug, PartialEq, Eq, Structural, Hash)]
pub struct EventDuration {
    pub nanos: i64,
}


impl Timestamp {
    /// A timestamp stays in the range that window arithmetic can handle.
    pub open spec fn wf(self) -> bool {
        MIN_TIMESTAMP_NANOS <= self.nanos <= MAX_TIMESTAMP_NANOS
    }

    pub open spec fn view(self) -> int {
        self.nanos as int
    }

    /// The designated minimum timestamp.
    pub fn min() -> (r: Timestamp)
        ensures
            r.nanos == MIN_TIMESTAMP_NANOS,
            r.wf(),
    {
        Timestamp { nanos: MIN_TIMESTAMP_NANOS }
    }

    /// A timestamp from nanoseconds since the epoch, if in range.
    pub fn from_nanos(nanos: i64) -> (r: Option<Timestamp>)
        ensures
            r matches Some(t) ==> t.nanos == nanos && t.wf(),
            r is None <==> !(MIN_TIMESTAMP_NANOS <= nanos <= MAX_TIMESTAMP_NANOS),
    {
        if MIN_TIMESTAMP_NANOS <= nanos && nanos <= MAX_TIMESTAMP_NANOS {
            Some(Timestamp { nanos })
        } else {
            None
        }
    }

    /// Reads `2020-01-01 00:00:05.000000000` or `2020-01-01T00:00:05.000000000`;
    /// `None` when the text is of neither form or falls outside the accepted range.
    pub fn parse(s: &str) -> (r: Option<Timestamp>)
        ensures
            r matches Some(t) ==> t.wf() && text_timestamp(s@) == Some(t@),
            r is None <==> text_timestamp(s@) is None,
    {
        let n = match chrono_parse_nanos(s, TIMESTAMP_FORMAT) {
            Some(n) => Some(n),
            None => chrono_parse_nanos(s, TIMESTAMP_FORMAT_T),
        };
        match n {
            Some(n) => Timestamp::from_nanos(n),
            None => None,
        }
    }

    /// The text form of this timestamp.
    pub fn to_text(&self) -> (r: String)
        ensures
            r@ == formatted_timestamp(self@, TIMESTAMP_FORMAT@),
    {
        chrono_format_nanos(self.nanos, TIMESTAMP_FORMAT)
    }
}

impl EventDuration {
    /// A duration is non-negative and bounded.
    pub open spec fn wf(self) -> bool {
        0 <= self.nanos <= MAX_DURATION_NANOS
    }

    pub open spec fn view(self) -> int {
        self.nanos as int
    }

    pub fn from_secs(secs: i64) -> (r: EventDuration)
        requires
            0 <= secs <= 4_000_000_000,
        ensures
            r@ == secs * 1_000_000_000,
            r.wf(),
    {
        EventDuration { nanos: secs * 1_000_000_000 }
    }

    pub fn from_millis(millis: i64) -> (r: EventDuration)
        requires
            0 <= millis <= 4_000_000_000_000,
        ensures
            r@ == millis * 1_000_000,
            r.wf(),
    {
        EventDuration { nanos: millis * 1_000_000 }
    }
}

} // verus!

//! Timestamps: parsing the source's date-time strings, and the clock
//! fallback for sources that omit or malform them.
use vstd::prelude::*;

verus! {

/// What chrono's RFC 3339 parser yields for a text, in milliseconds
/// since the Unix epoch: a function of the characters alone.
pub uninterp spec fn rfc3339_millis(s: Seq<char>) -> Option<i64>;

/// Relies on chrono's DateTime::parse_from_rfc3339 and
/// timestamp_millis: the parsed instant depends on the text alone.
#[verifier::external_body]
pub fn parse_rfc3339_millis(s: &str) -> (r: Option<i64>)
    ensures
        r == rfc3339_millis(s@),
{
    chrono::DateTime::parse_from_rfc3339(s).ok().map(|dt| dt.timestamp_millis())
}

/// Relies on chrono's Utc::now: reads the wall clock, in milliseconds
/// since the Unix epoch.
#[verifier::external_body]
pub fn now_millis() -> i64 {
    chrono::Utc::now().timestamp_millis()
}

/// The timestamp a record gets: the source's, when it parses; the
/// ingestion time otherwise.
pub open spec fn resolve_ts_spec(ts: Option<Seq<char>>, now_ms: i64) -> i64 {
    match ts {
        Some(s) => match rfc3339_millis(s) {
            Some(m) => m,
            None => now_ms,
        },
        None => now_ms,
    }
}

/// Resolves a source timestamp, falling back to the given current time.
pub fn resolve_timestamp(ts: &Option<String>, now_ms: i64) -> (r: i64)
    ensures
        r == resolve_ts_spec(ts.deep_view(), now_ms),
{
    match ts {
        Some(s) => match parse_rfc3339_millis(s.as_str()) {
            Some(m) => m,
            None => now_ms,
        },
        None => now_ms,
    }
}

} // verus!

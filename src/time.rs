//! Timestamps: parsing through chrono, and instants as whole nanoseconds.

use vstd::prelude::*;

verus! {

/// Seconds since the Unix epoch and the nanoseconds past that second, as
/// `DateTime<Utc>`'s `FromStr` reads a text (a relaxed RFC 3339).
pub uninterp spec fn utc_parse_of(s: Seq<char>) -> Option<(i64, u32)>;

/// Seconds since the Unix epoch and the nanoseconds past that second, as
/// `DateTime::parse_from_rfc3339` reads a text.
pub uninterp spec fn rfc3339_parse_of(s: Seq<char>) -> Option<(i64, u32)>;

/// Bound on a chrono timestamp: its day count is an `i32`, so the seconds stay below 2^48.
pub open spec fn chrono_range(p: (i64, u32)) -> bool {
    -281474976710656 < p.0 < 281474976710656 && p.1 < 2_000_000_000
}

/// An instant as nanoseconds since the Unix epoch.
pub open spec fn nanos_of(p: (i64, u32)) -> int {
    p.0 * 1_000_000_000 + p.1
}

/// A time span in nanoseconds as whole seconds, truncated toward zero.
pub open spec fn whole_seconds(d: int) -> int {
    if d >= 0 {
        d / 1_000_000_000
    } else {
        -((-d) / 1_000_000_000)
    }
}

/// Relies on chrono's `FromStr for DateTime<Utc>`, `DateTime::timestamp` and
/// `DateTime::timestamp_subsec_nanos`: the result depends on the text alone.
#[verifier::external_body]
fn parse_utc(s: &str) -> (r: Option<(i64, u32)>)
    ensures
        r == utc_parse_of(s@),
        r matches Some(p) ==> chrono_range(p),
{
    s.parse::<chrono::DateTime<chrono::Utc>>().ok().map(|d| (d.timestamp(), d.timestamp_subsec_nanos()))
}

/// Relies on chrono's `DateTime::parse_from_rfc3339`, `DateTime::timestamp` and
/// `DateTime::timestamp_subsec_nanos`: the result depends on the text alone.
#[verifier::external_body]
fn parse_rfc3339(s: &str) -> (r: Option<(i64, u32)>)
    ensures
        r == rfc3339_parse_of(s@),
        r matches Some(p) ==> chrono_range(p),
{
    chrono::DateTime::parse_from_rfc3339(s).ok().map(|d| (d.timestamp(), d.timestamp_subsec_nanos()))
}

/// The instant, in nanoseconds, that a timestamp text names under the relaxed reading.
pub open spec fn utc_instant(s: Seq<char>) -> Option<int> {
    match utc_parse_of(s) {
        Some(p) => Some(nanos_of(p)),
        None => None,
    }
}

/// The instant, in nanoseconds, that a timestamp text names under strict RFC 3339.
pub open spec fn rfc3339_instant(s: Seq<char>) -> Option<int> {
    match rfc3339_parse_of(s) {
        Some(p) => Some(nanos_of(p)),
        None => None,
    }
}

/// Bound on the nanosecond instants that the parsers give.
pub open spec fn instant_in_range(t: int) -> bool {
    -281474976710656_000_000_000 < t < 281474976710658_000_000_000
}

fn to_nanos(p: (i64, u32)) -> (r: i128)
    requires
        chrono_range(p),
    ensures
        r == nanos_of(p),
        instant_in_range(r as int),
{
    p.0 as i128 * 1_000_000_000 + p.1 as i128
}

/// Parses a timestamp under the relaxed reading, as nanoseconds since the epoch.
pub fn instant_utc(s: &str) -> (r: Option<i128>)
    ensures
        r == (match utc_instant(s@) {
            Some(t) => Some(t as i128),
            None => None::<i128>,
        }),
        r matches Some(t) ==> instant_in_range(t as int),
{
    match parse_utc(s) {
        Some(p) => Some(to_nanos(p)),
        None => None,
    }
}

/// Parses a timestamp under strict RFC 3339, as nanoseconds since the epoch.
pub fn instant_rfc3339(s: &str) -> (r: Option<i128>)
    ensures
        r == (match rfc3339_instant(s@) {
            Some(t) => Some(t as i128),
            None => None::<i128>,
        }),
        r matches Some(t) ==> instant_in_range(t as int),
{
    match parse_rfc3339(s) {
        Some(p) => Some(to_nanos(p)),
        None => None,
    }
}

/// The span from `start` to `end` in whole seconds, truncated toward zero.
pub fn span_seconds(start: i128, end: i128) -> (r: i64)
    requires
        instant_in_range(start as int),
        instant_in_range(end as int),
    ensures
        r == whole_seconds(end - start),
{
    let d: i128 = end - start;
    if d >= 0 {
        (d / 1_000_000_000) as i64
    } else {
        let m: i128 = -d;
        -((m / 1_000_000_000) as i64)
    }
}

} // verus!

//! Timestamps and their RFC 3339 text form. Sessions carry Unix-epoch
//! seconds; the persisted store and the exported views carry RFC 3339
//! strings, so the two conversions below are the bridge between them.

use vstd::prelude::*;

verus! {

/// Largest timestamp (Unix seconds) the library handles:
/// 9999-12-31T23:59:59 UTC, the last instant with a four-digit year, which
/// RFC 3339 requires.
pub const TS_MAX: i64 = 253402300799;

/// The RFC 3339 rendering of a timestamp; the result of `ts_to_rfc3339`.
pub uninterp spec fn rfc3339_of(t: int) -> Seq<char>;

/// The timestamp an RFC 3339 string denotes, when it parses; the result
/// of `rfc3339_to_ts`.
pub uninterp spec fn rfc3339_parsed(s: Seq<char>) -> Option<int>;

/// Relies on chrono's `DateTime::from_timestamp` and `DateTime::to_rfc3339`:
/// renders a Unix timestamp as an RFC 3339 string. The rendering depends on
/// the timestamp alone, and chrono documents that `from_timestamp`
/// round-trips with `timestamp`, so parsing the rendered string yields the
/// same timestamp back.
#[verifier::external_body]
pub fn ts_to_rfc3339(t: i64) -> (r: String)
    requires
        0 <= t <= TS_MAX,
    ensures
        r@ == rfc3339_of(t as int),
        rfc3339_parsed(r@) == Some(t as int),
{
    chrono::DateTime::<chrono::Utc>::from_timestamp(t, 0)
        .expect("timestamp within the supported range")
        .to_rfc3339()
}

/// Relies on chrono's `DateTime::parse_from_rfc3339` and `timestamp`:
/// parses an RFC 3339 string to the Unix timestamp of the instant it
/// denotes, or `None` when the string is not valid RFC 3339. The result
/// depends on the characters alone.
#[verifier::external_body]
pub fn rfc3339_to_ts(s: &str) -> (r: Option<i64>)
    ensures
        match r {
            Some(t) => rfc3339_parsed(s@) == Some(t as int),
            None => rfc3339_parsed(s@) is None,
        },
{
    match chrono::DateTime::parse_from_rfc3339(s) {
        Ok(dt) => Some(dt.timestamp()),
        Err(_) => None,
    }
}

} // verus!

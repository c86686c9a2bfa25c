//! Timestamps. A point in time is a number of whole seconds since the Unix
//! epoch, kept inside a range that the RFC 3339 encoding supports.

use vstd::prelude::*;

verus! {

/// 9999-12-31T23:59:59Z, the last second the durable encoding supports.
pub const MAX_TIMESTAMP: i64 = 253402300799;

/// A timestamp the engine accepts: non-negative and encodable.
pub open spec fn valid_timestamp(t: int) -> bool {
    0 <= t <= MAX_TIMESTAMP
}

/// The RFC 3339 encoding of a timestamp. The encoding depends on the
/// timestamp alone, so it is named rather than spelled out.
pub uninterp spec fn rfc3339_of(t: int) -> Seq<char>;

/// Relies on chrono's Utc::now: the wall-clock time now. Nothing is assumed
/// of the value; `now_timestamp` clamps it into the supported range.
#[verifier::external_body]
fn system_now_seconds() -> i64 {
    chrono::Utc::now().timestamp()
}

/// The current time, clamped into the supported timestamp range.
pub fn now_timestamp() -> (t: i64)
    ensures
        valid_timestamp(t as int),
{
    let raw = system_now_seconds();
    if raw < 0 {
        0
    } else if raw > MAX_TIMESTAMP {
        MAX_TIMESTAMP
    } else {
        raw
    }
}

/// Relies on chrono's DateTime::from_timestamp and DateTime::to_rfc3339:
/// encoding a timestamp in range yields its RFC 3339 form, a function of the
/// timestamp alone, named `rfc3339_of`.
#[verifier::external_body]
pub fn format_rfc3339(t: i64) -> (r: String)
    requires
        valid_timestamp(t as int),
    ensures
        r@ == rfc3339_of(t as int),
{
    match chrono::DateTime::from_timestamp(t, 0) {
        Some(dt) => dt.to_rfc3339(),
        None => String::new(),
    }
}

/// Relies on chrono's DateTime::parse_from_rfc3339: parsing the canonical
/// encoding of a timestamp gives that timestamp back; other inputs give an
/// unconstrained result.
#[verifier::external_body]
pub fn parse_rfc3339(s: &str) -> (r: Option<i64>)
    ensures
        forall|t: int| valid_timestamp(t) && s@ == rfc3339_of(t) ==> r == Some(t as i64),
{
    match chrono::DateTime::parse_from_rfc3339(s) {
        Ok(dt) => Some(dt.timestamp()),
        Err(_) => None,
    }
}

} // verus!

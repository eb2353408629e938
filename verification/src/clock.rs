//! Trusted wrappers around chrono: the current time, and the RFC 3339
//! rendering of the whole-second UTC timestamps a project carries.

use vstd::prelude::*;

verus! {

/// The largest timestamp the vault stores: 9999-12-31T23:59:59 UTC.
pub const TS_MAX: i64 = 253402300799;

/// The RFC 3339 rendering that chrono gives a whole-second UTC timestamp:
/// a pure function of the timestamp.
pub uninterp spec fn rfc3339_of(ts: i64) -> Seq<char>;

/// Relies on chrono's `Utc::now`: the current time as seconds since the
/// epoch. Nothing is promised of the value.
#[verifier::external_body]
pub fn now_timestamp() -> i64 {
    chrono::Utc::now().timestamp()
}

/// Relies on chrono's `DateTime::from_timestamp` and `to_rfc3339`: a pure
/// rendering of the timestamp, named `rfc3339_of` here; for the admitted
/// range `from_timestamp` always succeeds.
#[verifier::external_body]
pub fn format_rfc3339(ts: i64) -> (r: String)
    requires
        0 <= ts <= TS_MAX,
    ensures
        r@ == rfc3339_of(ts),
{
    match chrono::DateTime::from_timestamp(ts, 0) {
        Some(dt) => dt.to_rfc3339(),
        None => String::new(),
    }
}

/// Relies on chrono's `DateTime::parse_from_rfc3339` and `timestamp`:
/// parsing the rendering of a timestamp yields that timestamp back.
#[verifier::external_body]
pub fn parse_rfc3339(s: &str) -> (r: Option<i64>)
    ensures
        forall|t: i64| 0 <= t <= TS_MAX && s@ == #[trigger] rfc3339_of(t) ==> r == Some(t),
{
    match chrono::DateTime::parse_from_rfc3339(s) {
        Ok(dt) => Some(dt.timestamp()),
        Err(_) => None,
    }
}

} // verus!

//! Timestamp handling at the sort-key boundary.
//!
//! Time-series sort keys embed an RFC 3339 rendering whose lexicographic
//! order agrees with chronological order. Range bounds for queries come
//! from client-supplied RFC 3339 strings shifted by one second to make an
//! exclusive bound inclusive, or from sentinel timestamps at the far ends
//! of the representable range when a bound is absent.

use vstd::prelude::*;

use chrono::{DateTime, Duration, Utc};

use crate::errors::DataError;
use crate::keys::concat2;

verus! {

/// The RFC 3339 rendering of the parsed input shifted by one second
/// (forward when the flag is set, backward otherwise), or nothing when
/// the input does not parse or the shift leaves the representable range.
pub uninterp spec fn shifted_rfc3339(s: Seq<char>, forward: bool) -> Option<Seq<char>>;

/// Relies on chrono's RFC 3339 parser, checked timestamp arithmetic and
/// UTC rendering: the outcome depends on the input alone.
#[verifier::external_body]
fn shift_rfc3339(s: &str, forward: bool) -> (r: Result<String, ()>)
    ensures
        match r {
            Ok(v) => shifted_rfc3339(s@, forward) == Some(v@),
            Err(_) => shifted_rfc3339(s@, forward) is None,
        },
{
    let delta: i64 = if forward {
        1
    } else {
        -1
    };
    match DateTime::parse_from_rfc3339(s) {
        Ok(t) => match t.with_timezone(&Utc).checked_add_signed(Duration::seconds(delta)) {
            Some(shifted) => Ok(format!("{:?}", shifted)),
            None => Err(()),
        },
        Err(_) => Err(()),
    }
}

/// The RFC 3339 rendering, in UTC, of the instant the input names, or
/// nothing when the input does not parse.
pub uninterp spec fn utc_rfc3339_of(s: Seq<char>) -> Option<Seq<char>>;

/// Relies on chrono's RFC 3339 parser and UTC rendering: re-renders the
/// parsed instant normalized to UTC. The outcome depends on the input
/// alone.
#[verifier::external_body]
pub fn normalize_rfc3339(s: &str) -> (r: Result<String, ()>)
    ensures
        match r {
            Ok(v) => utc_rfc3339_of(s@) == Some(v@),
            Err(_) => utc_rfc3339_of(s@) is None,
        },
{
    match DateTime::parse_from_rfc3339(s) {
        Ok(t) => Ok(format!("{:?}", t.with_timezone(&Utc))),
        Err(_) => Err(()),
    }
}

/// Relies on chrono's clock: the current instant, rendered as RFC 3339
/// in UTC. Nothing can be promised of the clock's reading.
#[verifier::external_body]
pub fn now_rfc3339() -> String {
    format!("{:?}", Utc::now())
}

/// Relies on chrono's RFC 3339 parser and clock: whether the instant the
/// input names lies before now. The result depends on the clock; input
/// that does not parse reads as not past.
#[verifier::external_body]
pub fn timestamp_in_past(s: &str) -> bool {
    match DateTime::parse_from_rfc3339(s) {
        Ok(t) => t.with_timezone(&Utc) < Utc::now(),
        Err(_) => false,
    }
}

/// The sort-key bound for one end of a time range query: the declared
/// prefix followed by the client's timestamp shifted one second inward
/// (so the exclusive cursor bound becomes inclusive), or by the sentinel
/// at the range's far end when no bound was given. A timestamp that does
/// not parse, or cannot be shifted, is a `ValidationError`.
pub fn sk_time(prefix: &str, time: Option<&str>, after: bool) -> (r: Result<String, DataError>)
    ensures
        match time {
            None => match r {
                Ok(v) => v@ == prefix@ + (if after {
                    "0001-01-01T00:00:00Z"@
                } else {
                    "9999-12-31T23:59:59Z"@
                }),
                Err(_) => false,
            },
            Some(t) => match shifted_rfc3339(t@, after) {
                Some(shifted) => r matches Ok(v) && v@ == prefix@ + shifted,
                None => r matches Err(e) && e == DataError::ValidationError,
            },
        },
{
    match time {
        None => {
            if after {
                Ok(concat2(prefix, "0001-01-01T00:00:00Z"))
            } else {
                Ok(concat2(prefix, "9999-12-31T23:59:59Z"))
            }
        },
        Some(t) => match shift_rfc3339(t, after) {
            Ok(shifted) => Ok(concat2(prefix, shifted.as_str())),
            Err(_) => Err(DataError::ValidationError),
        },
    }
}

} // verus!

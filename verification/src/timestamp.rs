//! Reading RFC 3339 timestamps.
//!
//! The daemon reports a finished task's start and end as RFC 3339 text.
//! What such a text denotes in Unix milliseconds depends on the text
//! alone, so the library gives that value a name and relies on chrono to
//! compute it.

use vstd::prelude::*;

verus! {

/// The Unix-millisecond reading of an RFC 3339 text: `Some` for the
/// texts the format accepts, `None` for the rest.  The value is a
/// function of the characters alone.
pub uninterp spec fn rfc3339_millis(s: Seq<char>) -> Option<i64>;

/// Relies on chrono's `DateTime::parse_from_rfc3339` (which accepts a
/// text or rejects it on the characters alone) and `timestamp_millis`
/// (which turns the parsed instant into Unix milliseconds).
#[verifier::external_body]
pub(crate) fn rfc3339_to_millis(s: &str) -> (r: Option<i64>)
    ensures
        r == rfc3339_millis(s@),
{
    chrono::DateTime::parse_from_rfc3339(s).ok().map(|d| d.timestamp_millis())
}

} // verus!

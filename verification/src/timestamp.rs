//! RFC 3339 date-times, as `chrono` reads them.

use vstd::prelude::*;

verus! {

/// Whether `chrono` reads the text as an RFC 3339 date-time.
///
/// The grammar and the calendar rules are those of `chrono`; this crate
/// states nothing of them but that the answer depends on the text alone.
pub uninterp spec fn is_rfc3339(text: Seq<char>) -> bool;

/// Asks `chrono::DateTime::parse_from_rfc3339` whether it can read `text`.
///
/// Believed, not proved: the answer is the one that `is_rfc3339` names for
/// the characters of `text`.
#[verifier::external_body]
pub(crate) fn parses_as_rfc3339(text: &str) -> (ok: bool)
    ensures
        ok == is_rfc3339(text@),
{
    chrono::DateTime::parse_from_rfc3339(text).is_ok()
}

} // verus!

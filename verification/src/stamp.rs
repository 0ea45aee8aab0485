//! Validation of timestamps, done by the `chrono` crate.

use vstd::prelude::*;

verus! {

/// Whether `chrono::DateTime::parse_from_rfc3339` accepts `text`: a date, a
/// time and a UTC offset as RFC 3339 writes them.
pub uninterp spec fn rfc3339(text: Seq<char>) -> bool;

/// What every text that `chrono` accepts has: it begins with a digit of the
/// year and holds no tab.
pub open spec fn timestamp_shape(text: Seq<char>) -> bool {
    text.len() > 0 && '0' <= text[0] <= '9' && !text.contains('\t')
}

/// Whether `text` is a timestamp.
pub open spec fn is_timestamp(text: Seq<char>) -> bool {
    rfc3339(text) && timestamp_shape(text)
}

/// Asks `chrono::DateTime::parse_from_rfc3339` whether `text` is a
/// timestamp.  Nothing is proved of the answer; it depends on `text` alone.
/// The parser takes four digits first, and after them only digits, `-`,
/// `:`, `.`, `+`, a minus sign, `T`, `Z` or one space, so what it accepts
/// has the shape that the contract adds.
#[verifier::external_body]
pub(crate) fn is_rfc3339(text: &str) -> (ok: bool)
    ensures
        ok == (rfc3339(text@) && timestamp_shape(text@)),
{
    chrono::DateTime::parse_from_rfc3339(text).is_ok()
}

} // verus!

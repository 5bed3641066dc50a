//! The time at which rows are stamped.

use vstd::prelude::*;

verus! {

/// `text` ends in the offset of UTC, `+00:00`.
pub open spec fn has_utc_offset(text: Seq<char>) -> bool {
    text.len() >= 6 && text.subrange(text.len() - 6, text.len() as int) == "+00:00"@
}

/// The current time. Calls `chrono::Utc::now` and renders it with
/// `DateTime::to_rfc3339`, which writes the date, a `T`, the time and the
/// offset, and for UTC writes the offset as `+00:00`. The text depends on
/// the clock, so only that ending is claimed of it. The call panics where
/// the system clock stands before 1970.
#[verifier::external_body]
pub(crate) fn timestamp_now() -> (now: String)
    ensures
        has_utc_offset(now@),
{
    chrono::Utc::now().to_rfc3339()
}

} // verus!

use vstd::prelude::*;

verus! {

/// What the RFC 3339 parser yields for a string: the POSIX seconds of the
/// instant it denotes, or `None` when the string is not a valid RFC 3339
/// timestamp.  The result depends on the string alone.
pub uninterp spec fn rfc3339_epoch(s: Seq<char>) -> Option<i64>;

/// Relies on chrono's `DateTime::parse_from_rfc3339`: parsing is a function
/// of the string alone, here named `rfc3339_epoch`.
#[verifier::external_body]
pub fn parse_rfc3339_epoch(s: &str) -> (r: Option<i64>)
    ensures
        r == rfc3339_epoch(s@),
{
    chrono::DateTime::parse_from_rfc3339(s).ok().map(|dt| dt.timestamp())
}

} // verus!

//! The local wall clock, read as text.

use crate::text::is_digit;
use vstd::prelude::*;

verus! {

/// The pattern that timestamps are written in: year, month, day, hour,
/// minute and second.
pub const TIMESTAMP_PATTERN: &'static str = "%Y-%m-%d %H:%M:%S";

/// The shape of a timestamp: a year of four or more characters, then
/// `-MM-DD HH:MM:SS`, each field two digits wide.
pub open spec fn is_timestamp(s: Seq<char>) -> bool {
    let n = s.len() as int;
    &&& n >= 19
    &&& s[n - 15] == '-'
    &&& is_digit(s[n - 14])
    &&& is_digit(s[n - 13])
    &&& s[n - 12] == '-'
    &&& is_digit(s[n - 11])
    &&& is_digit(s[n - 10])
    &&& s[n - 9] == ' '
    &&& is_digit(s[n - 8])
    &&& is_digit(s[n - 7])
    &&& s[n - 6] == ':'
    &&& is_digit(s[n - 5])
    &&& is_digit(s[n - 4])
    &&& s[n - 3] == ':'
    &&& is_digit(s[n - 2])
    &&& is_digit(s[n - 1])
}

/// Reads the clock with `chrono::Local::now` and writes the moment with
/// `DateTime::format`. Which moment comes back is the clock's affair; the
/// contract claims only the shape that the timestamp pattern gives every
/// moment: chrono writes a year in at least four characters and each of the
/// other fields in exactly two digits. Only the timestamp pattern is admitted,
/// since chrono panics on a pattern that it cannot read. It also panics where
/// the system clock stands before 1970.
#[verifier::external_body]
pub(crate) fn local_time_text(pattern: &str) -> (stamp: String)
    requires
        pattern@ == TIMESTAMP_PATTERN@,
    ensures
        is_timestamp(stamp@),
{
    chrono::Local::now().format(pattern).to_string()
}

/// The current local time as a timestamp.
pub fn timestamp_now() -> (stamp: String)
    ensures
        is_timestamp(stamp@),
{
    local_time_text(TIMESTAMP_PATTERN)
}

} // verus!

//! The present time, as it is written down.

use vstd::prelude::*;
use crate::text;

verus! {

/// Whether two digits stand at the given position of a text.
pub open spec fn two_digits(s: Seq<char>, i: int) -> bool {
    text::is_ascii_digit(s[i]) && text::is_ascii_digit(s[i + 1])
}

/// Whether a text is a date, a `T` at the given position, a time, and an
/// offset from universal time. The year has four or more characters; the
/// seconds may have a fraction of three, six or nine digits.
pub open spec fn is_time_around(s: Seq<char>, t: int) -> bool {
    let end = s.len() - 6;
    &&& 10 <= t
    &&& s[t] == 'T'
    &&& text::is_ascii_digit(s[t - 10]) && text::is_ascii_digit(s[t - 9])
    &&& text::is_ascii_digit(s[t - 8]) && text::is_ascii_digit(s[t - 7])
    &&& s[t - 6] == '-' && two_digits(s, t - 5)
    &&& s[t - 3] == '-' && two_digits(s, t - 2)
    &&& two_digits(s, t + 1) && s[t + 3] == ':'
    &&& two_digits(s, t + 4) && s[t + 6] == ':'
    &&& two_digits(s, t + 7)
    &&& end == t + 9 || ((end == t + 13 || end == t + 16 || end == t + 19) && s[t + 9] == '.'
        && forall|i: int| t + 10 <= i < end ==> text::is_ascii_digit(#[trigger] s[i]))
    &&& s[end] == '+' || s[end] == '-'
    &&& two_digits(s, end + 1) && s[end + 3] == ':' && two_digits(s, end + 4)
}

/// Whether a text is a date, a time and an offset from universal time.
pub open spec fn is_time(s: Seq<char>) -> bool {
    exists|t: int| is_time_around(s, t)
}

/// Whether a text ends with a date, an underscore and a time, in digits.
pub open spec fn ends_with_stamp(s: Seq<char>) -> bool {
    &&& s.len() >= 15
    &&& s[s.len() - 7] == '_'
    &&& forall|i: int|
        s.len() - 15 <= i < s.len() && i != s.len() - 7 ==> text::is_ascii_digit(#[trigger] s[i])
}

/// `chrono::Utc::now`, written by `to_rfc3339`: the present date and time,
/// with the offset of universal time behind it. Which time it is, is the
/// clock's affair.
#[verifier::external_body]
pub(crate) fn utc_now() -> (s: String)
    ensures
        is_time(s@),
        "+00:00"@.is_suffix_of(s@),
{
    chrono::Utc::now().to_rfc3339()
}

/// `chrono::Local::now`, written by `to_rfc3339`: the present date and time
/// with the offset from universal time behind it. Which time it is, is the
/// clock's affair.
#[verifier::external_body]
pub(crate) fn local_now() -> (s: String)
    ensures
        is_time(s@),
{
    chrono::Local::now().to_rfc3339()
}

/// `chrono::Local::now`, written by `format` as the year, month and day, an
/// underscore, and the hour, minute and second. A year outside of 0 to 9999
/// has a sign, and further digits before its last four. Which time it is, is
/// the clock's affair.
#[verifier::external_body]
pub(crate) fn local_stamp() -> (s: String)
    ensures
        ends_with_stamp(s@),
{
    chrono::Local::now().format("%Y%m%d_%H%M%S").to_string()
}

} // verus!

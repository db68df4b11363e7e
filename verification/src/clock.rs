//! The time stamp `[HH:MM:SS]` that the server puts in front of its log
//! lines and the client in front of the messages it shows.
use vstd::prelude::*;

verus! {

/// `c` is one of `0`–`9`.
pub open spec fn is_digit(c: char) -> bool {
    '0' <= c <= '9'
}

/// The number written by the two digits `a` and `b`.
pub open spec fn two_digits(a: char, b: char) -> int {
    (a as int - '0' as int) * 10 + (b as int - '0' as int)
}

/// `s` reads `[HH:MM:SS]`: an hour 00–23, a minute 00–59 and a second
/// 00–60 (60 during a leap second), two digits each.
pub open spec fn is_clock_stamp(s: Seq<char>) -> bool {
    &&& s.len() == 10
    &&& s[0] == '[' && s[3] == ':' && s[6] == ':' && s[9] == ']'
    &&& is_digit(s[1]) && is_digit(s[2]) && is_digit(s[4]) && is_digit(s[5])
    &&& is_digit(s[7]) && is_digit(s[8])
    &&& two_digits(s[1], s[2]) <= 23
    &&& two_digits(s[4], s[5]) <= 59
    &&& two_digits(s[7], s[8]) <= 60
}

/// Calls `chrono::Local::now()` and formats it with `chrono`'s `format`.
/// The one pattern admitted is `[%H:%M:%S]`, for which chrono's
/// documentation gives the hour (00–23), the minute (00–59) and the second
/// (00–60), each zero-padded to two digits.  Which time it reads depends on
/// the clock and the time zone of the machine, so nothing more is claimed.
#[verifier::external_body]
fn local_now_formatted(pattern: &str) -> (r: String)
    requires
        pattern@ == "[%H:%M:%S]"@,
    ensures
        is_clock_stamp(r@),
{
    chrono::Local::now().format(pattern).to_string()
}

/// The local time of day, as `[HH:MM:SS]`.
pub fn get_time() -> (r: String)
    ensures
        is_clock_stamp(r@),
{
    local_now_formatted("[%H:%M:%S]")
}

} // verus!

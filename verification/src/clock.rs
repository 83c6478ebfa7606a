//! The current date and time, from the system clock.

use vstd::prelude::*;

verus! {

/// The layout of the time stamps in the `.aff` header: year-month-day hour:minute.
pub const DATE_FMT: &'static str = "%Y-%m-%d %H:%M";

/// Whether `c` is a decimal digit.
pub open spec fn is_digit(c: char) -> bool {
    '0' <= c && c <= '9'
}

/// A time stamp rendered in `DATE_FMT`: a year of at least four characters (digits, with a
/// sign before a year outside 0 to 9999), then `-`, two digits of month, `-`, two digits of
/// day, a space, two digits of hour, `:` and two digits of minute. Counted from the end, the
/// separators stand at fixed places; every character is a digit, `-`, `+`, `:` or a space.
pub open spec fn is_time_stamp(s: Seq<char>) -> bool {
    let n = s.len() as int;
    &&& n >= 16
    &&& forall|i: int|
        0 <= i < n ==> {
            let c = #[trigger] s[i];
            is_digit(c) || c == '-' || c == '+' || c == ':' || c == ' '
        }
    &&& forall|i: int| 0 <= i < n - 12 ==> is_digit(#[trigger] s[i]) || s[i] == '-' || s[i] == '+'
    &&& s[n - 12] == '-' && s[n - 9] == '-' && s[n - 6] == ' ' && s[n - 3] == ':'
    &&& is_digit(s[n - 11]) && is_digit(s[n - 10])
    &&& is_digit(s[n - 8]) && is_digit(s[n - 7])
    &&& is_digit(s[n - 5]) && is_digit(s[n - 4])
    &&& is_digit(s[n - 2]) && is_digit(s[n - 1])
}

/// The current local time, rendered by `chrono::DateTime::<chrono::Local>::format` after
/// `chrono::Local::now`. Which time comes back depends on the clock and the time zone; what is
/// stated is the shape chrono gives every time in this format: the year zero-padded to four
/// digits (one outside 0 to 9999 with its sign, padded to five characters), then month, day,
/// hour and minute as two zero-padded digits each, joined by the format's `-`, space and `:`.
/// The format is limited to the header's own, which chrono renders without error. The call
/// panics only on the machine's state: a system clock before 1970 (in `chrono::Utc::now`,
/// under `Local::now`) or a failed time zone lookup.
#[verifier::external_body]
pub(crate) fn local_now_formatted(fmt: &str) -> (s: String)
    requires
        fmt@ == DATE_FMT@,
    ensures
        is_time_stamp(s@),
{
    chrono::Local::now().format(fmt).to_string()
}

/// The current UTC time, rendered by `chrono::DateTime::<chrono::Utc>::format` after
/// `chrono::Utc::now`. Which time comes back depends on the clock; its shape is stated as for
/// [`local_now_formatted`]. The call panics only if the system clock reads a time before
/// 1970.
#[verifier::external_body]
pub(crate) fn utc_now_formatted(fmt: &str) -> (s: String)
    requires
        fmt@ == DATE_FMT@,
    ensures
        is_time_stamp(s@),
{
    chrono::Utc::now().format(fmt).to_string()
}

} // verus!

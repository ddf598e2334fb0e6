//! What the machine is asked: its name and its local time.

use crate::digits::{all_digits, is_digit};
use vstd::prelude::*;
use vstd::string::*;

verus! {

/// The layout of the time in the header: year, month and day, then hour,
/// minute and second.
pub open spec fn time_layout() -> Seq<char> {
    "%Y-%m-%d %H:%M:%S"@
}

/// `y` is a year as the header writes it: four digits, or, for a year before
/// 0 or after 9999, a sign and four digits or more.
pub open spec fn is_year_text(y: Seq<char>) -> bool {
    ||| y.len() == 4 && all_digits(y)
    ||| y.len() >= 5 && (y[0] == '+' || y[0] == '-') && all_digits(y.subrange(1, y.len() as int))
}

/// `s` is a time as the header writes it: the year, then `-MM-DD HH:MM:SS`
/// with two digits for each of month, day, hour, minute and second.
pub open spec fn is_timestamp(s: Seq<char>) -> bool {
    let y = s.len() - 15;
    &&& s.len() >= 19
    &&& is_year_text(s.subrange(0, y))
    &&& s[y] == '-'
    &&& is_digit(s[y + 1]) && is_digit(s[y + 2])
    &&& s[y + 3] == '-'
    &&& is_digit(s[y + 4]) && is_digit(s[y + 5])
    &&& s[y + 6] == ' '
    &&& is_digit(s[y + 7]) && is_digit(s[y + 8])
    &&& s[y + 9] == ':'
    &&& is_digit(s[y + 10]) && is_digit(s[y + 11])
    &&& s[y + 12] == ':'
    &&& is_digit(s[y + 13]) && is_digit(s[y + 14])
}

/// The name shown in the header where the machine's name cannot be had.
pub open spec fn unknown_host() -> Seq<char> {
    "unknown"@
}

/// Calls `gethostname::gethostname` and gives the name where it is valid
/// text. Trusted; nothing is claimed of the name, which is the machine's.
#[verifier::external_body]
fn system_hostname() -> (name: Option<String>) {
    gethostname::gethostname().into_string().ok()
}

/// Calls `chrono::Local::now` and writes the time with `format`, in the one
/// layout that the header uses. Trusted: which time it is depends on the
/// clock and the time zone, and nothing is claimed of that; what is claimed is
/// the shape that the layout gives every time, a year of four digits (signed
/// and possibly longer outside 0 to 9999) and two digits for each other part.
/// The call does not come back where the clock stands before 1970, or where
/// the zone data of the machine gives no local time.
#[verifier::external_body]
fn local_time_text(layout: &str) -> (text: String)
    requires
        layout@ == time_layout(),
    ensures
        is_timestamp(text@),
{
    chrono::Local::now().format(layout).to_string()
}

/// The name to show for the machine: its own, or `unknown`.
pub fn host_label(name: Option<String>) -> (r: String)
    ensures
        r@ == (match name {
            Some(n) => n@,
            None => unknown_host(),
        }),
{
    match name {
        Some(n) => n,
        None => String::from_str("unknown"),
    }
}

/// The machine's name as the header shows it. It is the machine's to say, so
/// nothing is promised of it.
pub fn hostname() -> (r: String) {
    host_label(system_hostname())
}

/// The local time as the header shows it, `2024-03-01 17:45:09`. Which time
/// it is, is the clock's to say; its shape is that of every time. On a
/// machine whose clock stands before 1970, or whose zone data gives no local
/// time, there is no time to show and the call does not come back.
pub fn timestamp() -> (r: String)
    ensures
        is_timestamp(r@),
{
    local_time_text("%Y-%m-%d %H:%M:%S")
}

} // verus!

//! Calendar dates: reading ISO and RFC 3339 dates and writing them long-form
//! ("December 30, 2025"), through `chrono`.
use chrono::Datelike;
use vstd::prelude::*;

verus! {

/// Leap years of the proleptic Gregorian calendar.
pub open spec fn is_leap_year(y: int) -> bool {
    (y % 4 == 0 && y % 100 != 0) || y % 400 == 0
}

/// The number of days in month `m` (1 to 12) of year `y`.
pub open spec fn days_in_month(y: int, m: int) -> int {
    if m == 2 {
        if is_leap_year(y) {
            29
        } else {
            28
        }
    } else if m == 4 || m == 6 || m == 9 || m == 11 {
        30
    } else {
        31
    }
}

/// A day that `chrono::NaiveDate` can hold: a real calendar day in a year
/// from -262143 to 262142.
pub open spec fn is_calendar_date(y: int, m: int, d: int) -> bool {
    &&& -262143 <= y <= 262142
    &&& 1 <= m <= 12
    &&& 1 <= d <= days_in_month(y, m)
}

/// The English name of month `m`.
pub open spec fn month_name(m: int) -> Seq<char> {
    if m == 1 {
        seq!['J', 'a', 'n', 'u', 'a', 'r', 'y']
    } else if m == 2 {
        seq!['F', 'e', 'b', 'r', 'u', 'a', 'r', 'y']
    } else if m == 3 {
        seq!['M', 'a', 'r', 'c', 'h']
    } else if m == 4 {
        seq!['A', 'p', 'r', 'i', 'l']
    } else if m == 5 {
        seq!['M', 'a', 'y']
    } else if m == 6 {
        seq!['J', 'u', 'n', 'e']
    } else if m == 7 {
        seq!['J', 'u', 'l', 'y']
    } else if m == 8 {
        seq!['A', 'u', 'g', 'u', 's', 't']
    } else if m == 9 {
        seq!['S', 'e', 'p', 't', 'e', 'm', 'b', 'e', 'r']
    } else if m == 10 {
        seq!['O', 'c', 't', 'o', 'b', 'e', 'r']
    } else if m == 11 {
        seq!['N', 'o', 'v', 'e', 'm', 'b', 'e', 'r']
    } else {
        seq!['D', 'e', 'c', 'e', 'm', 'b', 'e', 'r']
    }
}

/// The decimal digit for `n` (0 to 9).
pub open spec fn digit(n: int) -> char {
    if n == 0 {
        '0'
    } else if n == 1 {
        '1'
    } else if n == 2 {
        '2'
    } else if n == 3 {
        '3'
    } else if n == 4 {
        '4'
    } else if n == 5 {
        '5'
    } else if n == 6 {
        '6'
    } else if n == 7 {
        '7'
    } else if n == 8 {
        '8'
    } else {
        '9'
    }
}

/// The decimal numeral of `n`, without leading zeros.
pub open spec fn decimal(n: nat) -> Seq<char>
    decreases n,
{
    if n < 10 {
        seq![digit(n as int)]
    } else {
        decimal(n / 10).push(digit((n % 10) as int))
    }
}

/// `s` preceded by zeros up to `width` characters.
pub open spec fn zero_padded(s: Seq<char>, width: nat) -> Seq<char> {
    if s.len() >= width {
        s
    } else {
        Seq::new((width - s.len()) as nat, |i: int| '0') + s
    }
}

/// A year as `%Y` writes it: four digits at least, with a sign outside 0 to 9999.
pub open spec fn year_text(y: int) -> Seq<char> {
    if y < 0 {
        seq!['-'] + zero_padded(decimal((-y) as nat), 4)
    } else if y > 9999 {
        seq!['+'] + zero_padded(decimal(y as nat), 4)
    } else {
        zero_padded(decimal(y as nat), 4)
    }
}

/// The long form of a date, as `chrono` formats it with `"%B %d, %Y"`.
pub open spec fn long_date_text(y: int, m: int, d: int) -> Seq<char> {
    month_name(m) + seq![' '] + zero_padded(decimal(d as nat), 2) + seq![',', ' '] + year_text(y)
}

/// What `chrono::NaiveDate::parse_from_str(s, "%Y-%m-%d")` reads from `s`,
/// as year, month and day.
pub uninterp spec fn iso_date_of(s: Seq<char>) -> Option<(i32, u32, u32)>;

/// What `chrono::DateTime::parse_from_rfc3339(s)` reads from `s`, as the
/// year, month and day of its local date.
pub uninterp spec fn rfc3339_date_of(s: Seq<char>) -> Option<(i32, u32, u32)>;

/// Calls `chrono::NaiveDate::parse_from_str` with the format `"%Y-%m-%d"`.
/// Claimed: the result is a function of the text alone, and a date that
/// `NaiveDate` holds is a calendar day in its range of years.
#[verifier::external_body]
pub(crate) fn parse_iso_date(s: &str) -> (r: Option<(i32, u32, u32)>)
    ensures
        r == iso_date_of(s@),
        r matches Some((y, m, d)) ==> is_calendar_date(y as int, m as int, d as int),
{
    match chrono::NaiveDate::parse_from_str(s, "%Y-%m-%d") {
        Ok(date) => Some((date.year(), date.month(), date.day())),
        Err(_) => None,
    }
}

/// Calls `chrono::DateTime::parse_from_rfc3339` and reads the local date of
/// the result. Claimed: the result is a function of the text alone, and it
/// is a calendar day in the range of `NaiveDate`.
#[verifier::external_body]
pub(crate) fn parse_rfc3339_date(s: &str) -> (r: Option<(i32, u32, u32)>)
    ensures
        r == rfc3339_date_of(s@),
        r matches Some((y, m, d)) ==> is_calendar_date(y as int, m as int, d as int),
{
    match chrono::DateTime::parse_from_rfc3339(s) {
        Ok(moment) => Some((moment.year(), moment.month(), moment.day())),
        Err(_) => None,
    }
}

/// Calls `chrono`'s `format("%B %d, %Y")` on the date. Claimed: the English
/// month name, a space, the day in two digits, a comma and a space, and the
/// year as `%Y` writes it.
#[verifier::external_body]
pub(crate) fn format_long_date(y: i32, m: u32, d: u32) -> (r: String)
    requires
        is_calendar_date(y as int, m as int, d as int),
    ensures
        r@ == long_date_text(y as int, m as int, d as int),
{
    chrono::NaiveDate::from_ymd_opt(y, m, d).unwrap().format("%B %d, %Y").to_string()
}

/// The long form of an ISO date (`YYYY-MM-DD`), if it is one.
pub open spec fn iso_long_date(s: Seq<char>) -> Option<Seq<char>> {
    match iso_date_of(s) {
        Some((y, m, d)) => Some(long_date_text(y as int, m as int, d as int)),
        None => None,
    }
}

/// The long form of an RFC 3339 time stamp's date, if it is one.
pub open spec fn rfc3339_long_date(s: Seq<char>) -> Option<Seq<char>> {
    match rfc3339_date_of(s) {
        Some((y, m, d)) => Some(long_date_text(y as int, m as int, d as int)),
        None => None,
    }
}

/// Rewrites an ISO date long-form; `None` when the text is not one.
pub fn display_iso_date(s: &str) -> (r: Option<String>)
    ensures
        match r {
            Some(t) => iso_long_date(s@) == Some(t@),
            None => iso_long_date(s@) is None,
        },
{
    match parse_iso_date(s) {
        Some((y, m, d)) => Some(format_long_date(y, m, d)),
        None => None,
    }
}

/// Rewrites the date of an RFC 3339 time stamp long-form; `None` when the
/// text is not one.
pub fn display_rfc3339_date(s: &str) -> (r: Option<String>)
    ensures
        match r {
            Some(t) => rfc3339_long_date(s@) == Some(t@),
            None => rfc3339_long_date(s@) is None,
        },
{
    match parse_rfc3339_date(s) {
        Some((y, m, d)) => Some(format_long_date(y, m, d)),
        None => None,
    }
}

} // verus!

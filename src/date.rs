//! Calendar dates as plain year, month and day values.
use chrono::Datelike;
use crate::text::trim_start;
use vstd::prelude::*;

verus! {

/// The earliest year that a date may have.
pub const MIN_YEAR: i32 = -262143;

/// The latest year that a date may have.
pub const MAX_YEAR: i32 = 262142;

/// Gregorian leap years, extended to years before the calendar's introduction.
pub open spec fn is_leap_year(y: int) -> bool {
    (y % 4 == 0 && y % 100 != 0) || y % 400 == 0
}

pub open spec fn days_in_month(y: int, m: int) -> int {
    if m == 2 {
        if is_leap_year(y) { 29 } else { 28 }
    } else if m == 4 || m == 6 || m == 9 || m == 11 {
        30
    } else {
        31
    }
}

/// A year, month and day that name an existing day within the supported years.
pub open spec fn valid_ymd(y: int, m: int, d: int) -> bool {
    MIN_YEAR <= y <= MAX_YEAR && 1 <= m <= 12 && 1 <= d <= days_in_month(y, m)
}

pub open spec fn valid_date(d: (int, int, int)) -> bool {
    valid_ymd(d.0, d.1, d.2)
}

/// The decimal digit for `n`, for `0 <= n < 10`.
pub open spec fn digit(n: int) -> char {
    if n == 0 { '0' }
    else if n == 1 { '1' }
    else if n == 2 { '2' }
    else if n == 3 { '3' }
    else if n == 4 { '4' }
    else if n == 5 { '5' }
    else if n == 6 { '6' }
    else if n == 7 { '7' }
    else if n == 8 { '8' }
    else { '9' }
}

pub open spec fn is_digit(c: char) -> bool {
    '0' <= c <= '9'
}

pub open spec fn digit_value(c: char) -> int {
    (c as u32) as int - ('0' as u32) as int
}

/// The decimal text of `n`, without leading zeros.
pub open spec fn decimal(n: nat) -> Seq<char>
    decreases n,
{
    if n < 10 {
        seq![digit(n as int)]
    } else {
        decimal(n / 10).push(digit((n % 10) as int))
    }
}

/// `n` in decimal, zero-padded to at least four digits.
pub open spec fn four_digits(n: nat) -> Seq<char> {
    if n < 10000 {
        seq![
            digit((n / 1000) as int),
            digit(((n / 100) % 10) as int),
            digit(((n / 10) % 10) as int),
            digit((n % 10) as int),
        ]
    } else {
        decimal(n)
    }
}

pub open spec fn two_digits(n: int) -> Seq<char> {
    seq![digit(n / 10), digit(n % 10)]
}

/// The year as `YYYY`: four digits for years 0 through 9999, and otherwise a
/// sign followed by at least four digits.
pub open spec fn year_text(y: int) -> Seq<char> {
    if 0 <= y <= 9999 {
        four_digits(y as nat)
    } else if y < 0 {
        seq!['-'] + four_digits((-y) as nat)
    } else {
        seq!['+'] + four_digits(y as nat)
    }
}

/// The `YYYY-MM-DD` text of a date.
pub open spec fn date_text(d: (int, int, int)) -> Seq<char> {
    year_text(d.0) + seq!['-'] + two_digits(d.1) + seq!['-'] + two_digits(d.2)
}

/// Ten characters of the form `YYYY-MM-DD`, all of the `Y`, `M` and `D` digits.
pub open spec fn is_plain_date_shape(s: Seq<char>) -> bool {
    &&& s.len() == 10
    &&& is_digit(s[0]) && is_digit(s[1]) && is_digit(s[2]) && is_digit(s[3])
    &&& s[4] == '-'
    &&& is_digit(s[5]) && is_digit(s[6])
    &&& s[7] == '-'
    &&& is_digit(s[8]) && is_digit(s[9])
}

/// The year, month and day written in a text of the shape `YYYY-MM-DD`.
pub open spec fn plain_date_fields(s: Seq<char>) -> (int, int, int) {
    (
        1000 * digit_value(s[0]) + 100 * digit_value(s[1]) + 10 * digit_value(s[2]) + digit_value(
            s[3],
        ),
        10 * digit_value(s[5]) + digit_value(s[6]),
        10 * digit_value(s[8]) + digit_value(s[9]),
    )
}

pub open spec fn all_digits(s: Seq<char>) -> bool {
    forall|i: int| 0 <= i < s.len() ==> is_digit(#[trigger] s[i])
}

/// The number that a sequence of decimal digits writes.
pub open spec fn digits_value(s: Seq<char>) -> int
    decreases s.len(),
{
    if s.len() == 0 {
        0
    } else {
        10 * digits_value(s.drop_last()) + digit_value(s.last())
    }
}

/// A sign, at least one year digit, then `-MM-DD`, all of `M` and `D` digits.
pub open spec fn is_signed_date_shape(s: Seq<char>) -> bool {
    &&& s.len() >= 8
    &&& (s[0] == '+' || s[0] == '-')
    &&& all_digits(s.subrange(1, s.len() - 6))
    &&& s[s.len() - 6] == '-'
    &&& is_digit(s[s.len() - 5]) && is_digit(s[s.len() - 4])
    &&& s[s.len() - 3] == '-'
    &&& is_digit(s[s.len() - 2]) && is_digit(s[s.len() - 1])
}

/// The year, month and day written in a text of the signed shape.
pub open spec fn signed_date_fields(s: Seq<char>) -> (int, int, int) {
    let v = digits_value(s.subrange(1, s.len() - 6));
    (
        if s[0] == '-' {
            -v
        } else {
            v
        },
        10 * digit_value(s[s.len() - 5]) + digit_value(s[s.len() - 4]),
        10 * digit_value(s[s.len() - 2]) + digit_value(s[s.len() - 1]),
    )
}

/// The number of ASCII digits that `s` starts with, at most `max`.
pub open spec fn digit_run(s: Seq<char>, max: int) -> int
    decreases s.len(),
{
    if s.len() == 0 || max <= 0 || !is_digit(s[0]) {
        0
    } else {
        1 + digit_run(s.drop_first(), max - 1)
    }
}

/// A number of one to `max` digits at the start of `s`, and what follows it.
pub open spec fn read_number(s: Seq<char>, max: int) -> Option<(int, Seq<char>)> {
    let k = digit_run(s, max);
    if k == 0 {
        None
    } else {
        Some((digits_value(s.take(k)), s.skip(k)))
    }
}

/// A year after optional white space: a sign and any number of digits, or
/// one to four digits.
pub open spec fn read_year(s: Seq<char>) -> Option<(int, Seq<char>)> {
    let u = trim_start(s);
    if u.len() > 0 && (u[0] == '+' || u[0] == '-') {
        match read_number(u.drop_first(), u.len() as int) {
            Some((v, rest)) => Some(
                (
                    if u[0] == '-' {
                        -v
                    } else {
                        v
                    },
                    rest,
                ),
            ),
            None => None,
        }
    } else {
        read_number(u, 4)
    }
}

/// What follows a `-` at the start of `s`.
pub open spec fn after_dash(s: Seq<char>) -> Option<Seq<char>> {
    if s.len() > 0 && s[0] == '-' {
        Some(s.drop_first())
    } else {
        None
    }
}

/// How `%Y-%m-%d` reads a whole text: a year, `-`, a month of one or two
/// digits after optional white space, `-`, a day likewise, and nothing after
/// it; the fields must name an existing day.
pub open spec fn read_ymd(s: Seq<char>) -> Option<(int, int, int)> {
    match read_year(s) {
        None => None,
        Some((y, r1)) => match after_dash(r1) {
            None => None,
            Some(r2) => match read_number(trim_start(r2), 2) {
                None => None,
                Some((m, r3)) => match after_dash(r3) {
                    None => None,
                    Some(r4) => match read_number(trim_start(r4), 2) {
                        None => None,
                        Some((d, r5)) => if r5.len() == 0 && valid_date((y, m, d)) {
                            Some((y, m, d))
                        } else {
                            None
                        },
                    },
                },
            },
        },
    }
}

/// The date that a text denotes, if any. The plain `YYYY-MM-DD` shape and
/// the signed shape are read as their fields say, which is what `read_ymd`
/// gives for them too; `read_ymd` reads every other text.
pub open spec fn date_of_text(s: Seq<char>) -> Option<(int, int, int)> {
    if is_plain_date_shape(s) {
        if valid_date(plain_date_fields(s)) {
            Some(plain_date_fields(s))
        } else {
            None
        }
    } else if is_signed_date_shape(s) {
        if valid_date(signed_date_fields(s)) {
            Some(signed_date_fields(s))
        } else {
            None
        }
    } else {
        read_ymd(s)
    }
}

/// Relies on chrono's `NaiveDate::parse_from_str` with the format `%Y-%m-%d`:
/// each numeric field skips leading white space; the year is a sign and any
/// number of digits or else one to four digits; month and day take one or
/// two digits; the literal dashes and the end of the text must follow; and
/// the fields must name a day that exists.
#[verifier::external_body]
fn parse_ymd(s: &str) -> (r: Option<(i32, u32, u32)>)
    ensures
        match r {
            Some((y, m, d)) => date_of_text(s@) == Some((y as int, m as int, d as int)),
            None => date_of_text(s@) is None,
        },
{
    match chrono::NaiveDate::parse_from_str(s, "%Y-%m-%d") {
        Ok(d) => Some((d.year(), d.month(), d.day())),
        Err(_) => None,
    }
}

/// Relies on chrono's `NaiveDate::from_ymd_opt` and its `%Y-%m-%d` formatting:
/// a four-digit year for years 0 through 9999, else a sign and at least four
/// digits; two-digit month and day.
#[verifier::external_body]
fn format_ymd(y: i32, m: u32, d: u32) -> (r: String)
    requires
        valid_ymd(y as int, m as int, d as int),
    ensures
        r@ == date_text((y as int, m as int, d as int)),
{
    chrono::NaiveDate::from_ymd_opt(y, m, d).unwrap().format("%Y-%m-%d").to_string()
}

/// A calendar date without a time of day.
#[derive(Debug, Clone, Copy, PartialEq, Eq, Hash)]
pub struct Date {
    year: i32,
    month: u32,
    day: u32,
}

impl View for Date {
    type V = (int, int, int);

    closed spec fn view(&self) -> (int, int, int) {
        (self.year as int, self.month as int, self.day as int)
    }
}

impl Date {
    #[verifier::type_invariant]
    closed spec fn inv(self) -> bool {
        valid_ymd(self.year as int, self.month as int, self.day as int)
    }

    /// The date with the given year, month and day, if that day exists.
    pub fn from_ymd_opt(year: i32, month: u32, day: u32) -> (r: Option<Date>)
        ensures
            r is Some <==> valid_ymd(year as int, month as int, day as int),
            r is Some ==> r->0@ == (year as int, month as int, day as int),
    {
        if year < MIN_YEAR || year > MAX_YEAR || month < 1 || month > 12 || day < 1 {
            return None;
        }
        let leap = (year % 4 == 0 && year % 100 != 0) || year % 400 == 0;
        let days: u32 = if month == 2 {
            if leap { 29 } else { 28 }
        } else if month == 4 || month == 6 || month == 9 || month == 11 {
            30
        } else {
            31
        };
        if day > days {
            None
        } else {
            Some(Date { year, month, day })
        }
    }

    pub(crate) fn from_valid(year: i32, month: u32, day: u32) -> (r: Date)
        requires
            valid_ymd(year as int, month as int, day as int),
        ensures
            r@ == (year as int, month as int, day as int),
    {
        Date { year, month, day }
    }

    pub fn year(&self) -> (r: i32)
        ensures
            r as int == self@.0,
    {
        self.year
    }

    pub fn month(&self) -> (r: u32)
        ensures
            r as int == self@.1,
    {
        self.month
    }

    pub fn day(&self) -> (r: u32)
        ensures
            r as int == self@.2,
    {
        self.day
    }

    /// The date that `s` denotes, read as `%Y-%m-%d`.
    pub fn parse(s: &str) -> (r: Option<Date>)
        ensures
            match r {
                Some(d) => date_of_text(s@) == Some(d@),
                None => date_of_text(s@) is None,
            },
    {
        match parse_ymd(s) {
            Some((y, m, d)) => Some(Date::from_valid(y, m, d)),
            None => None,
        }
    }

    /// The `YYYY-MM-DD` text of this date.
    pub fn to_text(&self) -> (r: String)
        ensures
            r@ == date_text(self@),
    {
        proof {
            use_type_invariant(self);
        }
        format_ymd(self.year, self.month, self.day)
    }

    /// Chronological order: `self` is on or before `other`.
    pub fn is_on_or_before(&self, other: &Date) -> (r: bool)
        ensures
            r == date_le(self@, other@),
    {
        if self.year != other.year {
            self.year < other.year
        } else if self.month != other.month {
            self.month < other.month
        } else {
            self.day <= other.day
        }
    }
}

/// Chronological order of valid dates, which is the order of their fields.
pub open spec fn date_le(a: (int, int, int), b: (int, int, int)) -> bool {
    a.0 < b.0 || (a.0 == b.0 && (a.1 < b.1 || (a.1 == b.1 && a.2 <= b.2)))
}

} // verus!

//! Calendar dates of the proleptic Gregorian calendar and their `YYYY-MM-DD`
//! form.

use vstd::prelude::*;
use vstd::string::*;
use chrono::Datelike;
use crate::text::{digit_value, is_digit};

verus! {

/// The first year that a date can lie in.
pub const MIN_YEAR: i32 = -262143;

/// The last year that a date can lie in.
pub const MAX_YEAR: i32 = 262142;

/// A day of the calendar, without a time or a time zone.
#[derive(Clone, Copy, Debug, PartialEq, Eq, Structural)]
pub struct Date {
    pub year: i32,
    pub month: u32,
    pub day: u32,
}

/// Whether the year has a 29th of February.
pub open spec fn is_leap_year(year: int) -> bool {
    year % 4 == 0 && (year % 100 != 0 || year % 400 == 0)
}

/// How many days the month has in that year.
pub open spec fn days_in_month(year: int, month: int) -> int {
    if month == 2 {
        if is_leap_year(year) {
            29
        } else {
            28
        }
    } else if month == 4 || month == 6 || month == 9 || month == 11 {
        30
    } else {
        31
    }
}

/// Whether the calendar has the day `day` of month `month` in year `year`.
pub open spec fn valid_ymd(year: int, month: int, day: int) -> bool {
    &&& MIN_YEAR <= year <= MAX_YEAR
    &&& 1 <= month <= 12
    &&& 1 <= day <= days_in_month(year, month)
}

/// The character of a decimal digit `0..=9`.
pub open spec fn digit_char(d: int) -> char {
    ((48 + d) as u8) as char
}

/// Ten characters: four digits of the year, two of the month and two of the
/// day, with hyphens between them.
pub open spec fn ymd_text(year: int, month: int, day: int) -> Seq<char> {
    seq![
        digit_char(year / 1000),
        digit_char(year / 100 % 10),
        digit_char(year / 10 % 10),
        digit_char(year % 10),
        '-',
        digit_char(month / 10),
        digit_char(month % 10),
        '-',
        digit_char(day / 10),
        digit_char(day % 10),
    ]
}

/// The decimal digits of a number, without leading zeros.
pub open spec fn decimal(n: int) -> Seq<char>
    decreases n,
{
    if n < 10 {
        seq![digit_char(n)]
    } else {
        decimal(n / 10).push(digit_char(n % 10))
    }
}

/// The text of a date whose year lies outside `0..=9999`: a sign, the
/// digits of the year without the sign, filled up to four with zeros, and
/// two digits each for the month and the day, with hyphens between them.
pub open spec fn signed_ymd_text(year: int, month: int, day: int) -> Seq<char> {
    let n = if year < 0 {
        -year
    } else {
        year
    };
    seq![if year < 0 {
        '-'
    } else {
        '+'
    }] + (if n <= 9999 {
        seq![
            digit_char(n / 1000),
            digit_char(n / 100 % 10),
            digit_char(n / 10 % 10),
            digit_char(n % 10),
        ]
    } else {
        decimal(n)
    }) + seq![
        '-',
        digit_char(month / 10),
        digit_char(month % 10),
        '-',
        digit_char(day / 10),
        digit_char(day % 10),
    ]
}

/// The text of a date: `YYYY-MM-DD` for a year of four digits, and the
/// signed form for the others.
pub open spec fn written_ymd(year: int, month: int, day: int) -> Seq<char> {
    if 0 <= year <= 9999 {
        ymd_text(year, month, day)
    } else {
        signed_ymd_text(year, month, day)
    }
}

impl Date {
    /// A date is well formed when the calendar has it.
    pub open spec fn wf(&self) -> bool {
        valid_ymd(self.year as int, self.month as int, self.day as int)
    }

    /// The order of dates in time: by year, then month, then day.
    pub open spec fn before(&self, other: &Date) -> bool {
        ||| self.year < other.year
        ||| self.year == other.year && self.month < other.month
        ||| self.year == other.year && self.month == other.month && self.day < other.day
    }

    /// The date's text in a task line.
    pub open spec fn text(&self) -> Seq<char> {
        written_ymd(self.year as int, self.month as int, self.day as int)
    }

    /// Whether `self` is earlier than `other`.
    pub fn is_before(&self, other: &Date) -> (r: bool)
        ensures
            r == self.before(other),
    {
        self.year < other.year || (self.year == other.year && (self.month < other.month || (
        self.month == other.month && self.day < other.day)))
    }

    /// The date of the given year, month and day, if the calendar has it.
    pub fn from_ymd(year: i32, month: u32, day: u32) -> (r: Option<Date>)
        ensures
            r == if valid_ymd(year as int, month as int, day as int) {
                Some(Date { year, month, day })
            } else {
                None
            },
    {
        if calendar_has(year, month, day) {
            Some(Date { year, month, day })
        } else {
            None
        }
    }

    /// The date in the form `YYYY-MM-DD`; a year outside `0..=9999` is
    /// written with a sign.
    pub fn format(&self) -> (r: String)
        requires
            self.wf(),
        ensures
            r@ == self.text(),
    {
        write_ymd(self.year, self.month, self.day)
    }
}

/// Calls chrono's `NaiveDate::from_ymd_opt` and reports whether it gave a
/// date. Trusted: it gives one exactly for the days that the proleptic
/// Gregorian calendar has in the years that chrono can hold.
#[verifier::external_body]
fn calendar_has(year: i32, month: u32, day: u32) -> (r: bool)
    ensures
        r == valid_ymd(year as int, month as int, day as int),
{
    chrono::NaiveDate::from_ymd_opt(year, month, day).is_some()
}

/// Formats a date with chrono's `NaiveDate::format` under `%Y-%m-%d`.
/// Trusted: the year is written with four digits, or outside `0..=9999`
/// with a sign and at least four digits; the month and the day with two
/// digits each; hyphens stand between them.
#[verifier::external_body]
fn write_ymd(year: i32, month: u32, day: u32) -> (r: String)
    requires
        valid_ymd(year as int, month as int, day as int),
    ensures
        r@ == written_ymd(year as int, month as int, day as int),
{
    chrono::NaiveDate::from_ymd_opt(year, month, day).unwrap().format("%Y-%m-%d").to_string()
}

/// Reads the local calendar date from the clock with chrono's `Local::now`.
/// Trusted: whatever the clock says, the result is a day of the calendar.
#[verifier::external_body]
pub(crate) fn today() -> (r: Date)
    ensures
        r.wf(),
{
    let now = chrono::Local::now();
    Date { year: now.year(), month: now.month(), day: now.day() }
}

/// Whether ten characters from `at` on have the shape `dddd-dd-dd`.
pub open spec fn has_date_shape(s: Seq<char>, at: int) -> bool {
    &&& 0 <= at
    &&& at + 10 <= s.len()
    &&& is_digit(s[at]) && is_digit(s[at + 1]) && is_digit(s[at + 2]) && is_digit(s[at + 3])
    &&& s[at + 4] == '-'
    &&& is_digit(s[at + 5]) && is_digit(s[at + 6])
    &&& s[at + 7] == '-'
    &&& is_digit(s[at + 8]) && is_digit(s[at + 9])
}

/// The number that the four digits of the year at `at` spell.
pub open spec fn shape_year(s: Seq<char>, at: int) -> int {
    digit_value(s[at]) * 1000 + digit_value(s[at + 1]) * 100 + digit_value(s[at + 2]) * 10
        + digit_value(s[at + 3])
}

/// The number that the two digits of the month spell.
pub open spec fn shape_month(s: Seq<char>, at: int) -> int {
    digit_value(s[at + 5]) * 10 + digit_value(s[at + 6])
}

/// The number that the two digits of the day spell.
pub open spec fn shape_day(s: Seq<char>, at: int) -> int {
    digit_value(s[at + 8]) * 10 + digit_value(s[at + 9])
}

/// The date written at `at`, where ten characters of the shape `dddd-dd-dd`
/// stand there and name a day of the calendar.
pub open spec fn date_at(s: Seq<char>, at: int) -> Option<Date> {
    if has_date_shape(s, at) && valid_ymd(shape_year(s, at), shape_month(s, at), shape_day(s, at)) {
        Some(
            Date {
                year: shape_year(s, at) as i32,
                month: shape_month(s, at) as u32,
                day: shape_day(s, at) as u32,
            },
        )
    } else {
        None
    }
}

fn digit_at(s: &Vec<char>, i: usize) -> (r: Option<u32>)
    requires
        i < s@.len(),
    ensures
        r is Some == is_digit(s@[i as int]),
        r is Some ==> r->0 == digit_value(s@[i as int]),
{
    let n: u32 = s[i] as u32;
    if 48 <= n && n <= 57 {
        Some(n - 48)
    } else {
        None
    }
}

/// A date read from ten characters is written as those ten characters.
pub proof fn lemma_date_text(s: Seq<char>)
    requires
        s.len() == 10,
        date_at(s, 0) is Some,
    ensures
        date_at(s, 0)->0.text() == s,
        date_at(s, 0)->0.wf(),
{
    let d = date_at(s, 0)->0;
    lemma_four_digits(
        digit_value(s[0]),
        digit_value(s[1]),
        digit_value(s[2]),
        digit_value(s[3]),
    );
    lemma_two_digits(digit_value(s[5]), digit_value(s[6]));
    lemma_two_digits(digit_value(s[8]), digit_value(s[9]));
    lemma_digit(s[0]);
    lemma_digit(s[1]);
    lemma_digit(s[2]);
    lemma_digit(s[3]);
    lemma_digit(s[5]);
    lemma_digit(s[6]);
    lemma_digit(s[8]);
    lemma_digit(s[9]);
    let t = ymd_text(d.year as int, d.month as int, d.day as int);
    assert(t.len() == 10);
    assert forall|i: int| 0 <= i < 10 implies t[i] == s[i] by {}
    assert(t =~= s);
}

#[verifier::spinoff_prover]
proof fn lemma_four_digits(a: int, b: int, c: int, d: int)
    requires
        0 <= a <= 9,
        0 <= b <= 9,
        0 <= c <= 9,
        0 <= d <= 9,
    ensures
        (a * 1000 + b * 100 + c * 10 + d) / 1000 == a,
        (a * 1000 + b * 100 + c * 10 + d) / 100 % 10 == b,
        (a * 1000 + b * 100 + c * 10 + d) / 10 % 10 == c,
        (a * 1000 + b * 100 + c * 10 + d) % 10 == d,
{
    let y = a * 1000 + b * 100 + c * 10 + d;
    assert(y == 1000 * a + (b * 100 + c * 10 + d));
    assert(y / 1000 == a);
    assert(y == 100 * (a * 10 + b) + (c * 10 + d));
    assert(y / 100 == a * 10 + b);
    assert(y == 10 * (a * 100 + b * 10 + c) + d);
    assert(y / 10 == a * 100 + b * 10 + c);
    lemma_two_digits(a, b);
    assert((a * 100 + b * 10 + c) == 10 * (a * 10 + b) + c);
    assert((a * 100 + b * 10 + c) % 10 == c);
}

#[verifier::spinoff_prover]
proof fn lemma_two_digits(a: int, b: int)
    requires
        0 <= a <= 9,
        0 <= b <= 9,
    ensures
        (a * 10 + b) / 10 == a,
        (a * 10 + b) % 10 == b,
{
}

proof fn lemma_digit(c: char)
    requires
        is_digit(c),
    ensures
        digit_char(digit_value(c)) == c,
        0 <= digit_value(c) <= 9,
{
}

/// Whether the shape `dddd-dd-dd` stands at `at`.
pub fn date_shape_at(s: &Vec<char>, at: usize) -> (r: bool)
    ensures
        r == has_date_shape(s@, at as int),
{
    if s.len() < 10 || at > s.len() - 10 {
        return false;
    }
    digit_at(s, at).is_some() && digit_at(s, at + 1).is_some() && digit_at(s, at + 2).is_some()
        && digit_at(s, at + 3).is_some() && s[at + 4] == '-' && digit_at(s, at + 5).is_some()
        && digit_at(s, at + 6).is_some() && s[at + 7] == '-' && digit_at(s, at + 8).is_some()
        && digit_at(s, at + 9).is_some()
}

/// Reads the date written at `at`.
pub fn read_date(s: &Vec<char>, at: usize) -> (r: Option<Date>)
    ensures
        r == date_at(s@, at as int),
        r matches Some(day) ==> day.wf(),
{
    if s.len() < 10 || at > s.len() - 10 || !date_shape_at(s, at) {
        return None;
    }
    let y: u32 = digit_at(s, at).unwrap() * 1000 + digit_at(s, at + 1).unwrap() * 100 + digit_at(
        s,
        at + 2,
    ).unwrap() * 10 + digit_at(s, at + 3).unwrap();
    let m: u32 = digit_at(s, at + 5).unwrap() * 10 + digit_at(s, at + 6).unwrap();
    let d: u32 = digit_at(s, at + 8).unwrap() * 10 + digit_at(s, at + 9).unwrap();
    Date::from_ymd(y as i32, m, d)
}

} // verus!

use vstd::prelude::*;

use crate::models::{Date, EventTime, Time};

verus! {

pub open spec fn decimal_digit(d: int) -> char {
    if d == 0 { '0' }
    else if d == 1 { '1' }
    else if d == 2 { '2' }
    else if d == 3 { '3' }
    else if d == 4 { '4' }
    else if d == 5 { '5' }
    else if d == 6 { '6' }
    else if d == 7 { '7' }
    else if d == 8 { '8' }
    else { '9' }
}

/// A number below 100 as two zero-padded decimal digits.
pub open spec fn two_digits(n: int) -> Seq<char> {
    seq![decimal_digit(n / 10), decimal_digit(n % 10)]
}

/// English three-letter month abbreviation.
pub open spec fn month_abbrev(month: int) -> Seq<char> {
    if month == 1 { seq!['J', 'a', 'n'] }
    else if month == 2 { seq!['F', 'e', 'b'] }
    else if month == 3 { seq!['M', 'a', 'r'] }
    else if month == 4 { seq!['A', 'p', 'r'] }
    else if month == 5 { seq!['M', 'a', 'y'] }
    else if month == 6 { seq!['J', 'u', 'n'] }
    else if month == 7 { seq!['J', 'u', 'l'] }
    else if month == 8 { seq!['A', 'u', 'g'] }
    else if month == 9 { seq!['S', 'e', 'p'] }
    else if month == 10 { seq!['O', 'c', 't'] }
    else if month == 11 { seq!['N', 'o', 'v'] }
    else { seq!['D', 'e', 'c'] }
}

/// The feed's request form of a date: two-digit day, a space, the month's
/// abbreviation, a space, and the last two digits of the year ("10 Dec 25").
pub open spec fn api_date_text(d: Date) -> Seq<char> {
    two_digits(d.day as int) + seq![' '] + month_abbrev(d.month as int) + seq![' '] + two_digits(
        (d.year as int) % 100,
    )
}

/// Relies on chrono's `NaiveDate::from_ymd_opt`, which gives `Some` for a
/// valid date, and on `NaiveDate::format` with `"%d %b %y"`: `%d` writes the
/// day as two zero-padded digits, `%b` the English month abbreviation, `%y`
/// the year's `rem_euclid(100)` as two zero-padded digits.
#[verifier::external_body]
fn chrono_api_date(d: Date) -> (r: String)
    requires
        d.wf(),
    ensures
        r@ == api_date_text(d),
{
    let date = chrono::NaiveDate::from_ymd_opt(d.year, d.month, d.day).expect("a valid date");
    date.format("%d %b %y").to_string()
}

/// Renders a date the way the feed expects it in a request, e.g. "10 Dec 25".
pub fn format_date_for_api(date: Date) -> (r: String)
    requires
        date.wf(),
    ensures
        r@ == api_date_text(date),
{
    chrono_api_date(date)
}

/// Decimal digits of a natural number, without leading zeros ("0" for zero).
pub open spec fn decimal_text(n: nat) -> Seq<char>
    decreases n,
{
    if n < 10 {
        seq![decimal_digit(n as int)]
    } else {
        decimal_text(n / 10) + seq![decimal_digit((n % 10) as int)]
    }
}

/// `s` with zeros in front up to `width` characters.
pub open spec fn zero_padded(s: Seq<char>, width: nat) -> Seq<char> {
    if s.len() >= width {
        s
    } else {
        Seq::new((width - s.len()) as nat, |i: int| '0') + s
    }
}

/// chrono's `%Y`: years 0 to 9999 as four digits; other years with their sign
/// and at least four digits.
pub open spec fn full_year_text(year: int) -> Seq<char> {
    if 0 <= year <= 9999 {
        zero_padded(decimal_text(year as nat), 4)
    } else if year < 0 {
        seq!['-'] + zero_padded(decimal_text((-year) as nat), 4)
    } else {
        seq!['+'] + zero_padded(decimal_text(year as nat), 4)
    }
}

/// A date for people to read: "10 Dec 2025".
pub open spec fn long_date_text(d: Date) -> Seq<char> {
    two_digits(d.day as int) + seq![' '] + month_abbrev(d.month as int) + seq![' '] + full_year_text(
        d.year as int,
    )
}

/// Relies on chrono's `NaiveDate::from_ymd_opt`, which gives `Some` for a
/// valid date, and on `NaiveDate::format` with `"%d %b %Y"`: day and month as
/// for `%d %b`, and `%Y` as `full_year_text` states it.
#[verifier::external_body]
fn chrono_long_date(d: Date) -> (r: String)
    requires
        d.wf(),
    ensures
        r@ == long_date_text(d),
{
    let date = chrono::NaiveDate::from_ymd_opt(d.year, d.month, d.day).expect("a valid date");
    date.format("%d %b %Y").to_string()
}

/// A time of day as `HH:MM`.
pub open spec fn clock_text(t: Time) -> Seq<char> {
    two_digits(t.hour as int) + seq![':'] + two_digits(t.minute as int)
}

/// Relies on chrono's `NaiveTime::from_hms_opt`, which gives `Some` for an
/// hour below 24 and a minute below 60, and on `NaiveTime::format` with
/// `"%H:%M"`: hour and minute as two zero-padded digits each.
#[verifier::external_body]
fn chrono_clock(t: Time) -> (r: String)
    requires
        t.wf(),
    ensures
        r@ == clock_text(t),
{
    let time = chrono::NaiveTime::from_hms_opt(t.hour, t.minute, 0).expect("a valid time");
    time.format("%H:%M").to_string()
}

/// How an event time reads: "10 Dec 2025 (All Day)" or "10 Dec 2025 at 08:30".
pub open spec fn event_time_text(t: EventTime) -> Seq<char> {
    match t {
        EventTime::AllDay(d) => long_date_text(d) + " (All Day)"@,
        EventTime::Specific { date, time } => long_date_text(date) + " at "@ + clock_text(time),
    }
}

impl EventTime {
    /// The event time as text for people to read.
    pub fn to_display_string(&self) -> (r: String)
        requires
            self.wf(),
        ensures
            r@ == event_time_text(*self),
    {
        match self {
            EventTime::AllDay(date) => {
                let mut s = chrono_long_date(*date);
                s.append(" (All Day)");
                s
            },
            EventTime::Specific { date, time } => {
                let mut s = chrono_long_date(*date);
                s.append(" at ");
                let clock = chrono_clock(*time);
                s.append(clock.as_str());
                s
            },
        }
    }
}

} // verus!

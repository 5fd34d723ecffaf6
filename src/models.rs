use vstd::prelude::*;

verus! {

/// Smallest year that chrono's `NaiveDate` represents.
pub const MIN_YEAR: i32 = -262143;

/// Largest year that chrono's `NaiveDate` represents.
pub const MAX_YEAR: i32 = 262142;

pub open spec fn is_leap_year(year: int) -> bool {
    (year % 4 == 0 && year % 100 != 0) || year % 400 == 0
}

pub open spec fn days_in_month(year: int, month: int) -> int {
    if month == 2 {
        if is_leap_year(year) { 29 } else { 28 }
    } else if month == 4 || month == 6 || month == 9 || month == 11 {
        30
    } else {
        31
    }
}

/// A proleptic Gregorian calendar date within the range chrono supports.
pub open spec fn is_valid_date(year: int, month: int, day: int) -> bool {
    &&& MIN_YEAR <= year <= MAX_YEAR
    &&& 1 <= month <= 12
    &&& 1 <= day <= days_in_month(year, month)
}

/// A calendar date, without time of day or time zone.
#[derive(Clone, Copy, Debug, PartialEq, Eq, Structural)]
pub struct Date {
    pub year: i32,
    pub month: u32,
    pub day: u32,
}

impl Date {
    pub open spec fn wf(&self) -> bool {
        is_valid_date(self.year as int, self.month as int, self.day as int)
    }

    /// Builds a date from year, month and day; `None` when no such date exists.
    pub fn from_ymd_opt(year: i32, month: u32, day: u32) -> (r: Option<Date>)
        ensures
            r.is_some() <==> is_valid_date(year as int, month as int, day as int),
            r matches Some(d) ==> d == (Date { year, month, day }),
    {
        if checked_ymd(year, month, day) {
            Some(Date { year, month, day })
        } else {
            None
        }
    }

    pub fn year(&self) -> (r: i32)
        ensures
            r == self.year,
    {
        self.year
    }

    pub fn month(&self) -> (r: u32)
        ensures
            r == self.month,
    {
        self.month
    }

    pub fn day(&self) -> (r: u32)
        ensures
            r == self.day,
    {
        self.day
    }

    /// Strict chronological order of two dates.
    pub fn is_before(&self, other: &Date) -> (r: bool)
        ensures
            r == date_lt(*self, *other),
    {
        self.year < other.year || (self.year == other.year && (self.month < other.month || (
        self.month == other.month && self.day < other.day)))
    }
}

/// Relies on chrono::NaiveDate::from_ymd_opt: it gives a date exactly when the
/// month is 1 to 12, the day exists in that month of the proleptic Gregorian
/// calendar, and the year lies within chrono's supported range.
#[verifier::external_body]
fn checked_ymd(year: i32, month: u32, day: u32) -> (r: bool)
    ensures
        r <==> is_valid_date(year as int, month as int, day as int),
{
    chrono::NaiveDate::from_ymd_opt(year, month, day).is_some()
}

/// Lexicographic order on (year, month, day).
pub open spec fn date_lt(a: Date, b: Date) -> bool {
    a.year < b.year || (a.year == b.year && (a.month < b.month || (a.month == b.month && a.day
        < b.day)))
}

/// A number that grows with the date: for valid dates, `date_lt(a, b)` iff
/// `date_ord(a) < date_ord(b)`.
pub open spec fn date_ord(d: Date) -> int {
    d.year * 512 + d.month * 32 + d.day
}

pub proof fn lemma_date_ord_monotone(a: Date, b: Date)
    requires
        a.wf(),
        b.wf(),
    ensures
        date_lt(a, b) <==> date_ord(a) < date_ord(b),
        a == b <==> date_ord(a) == date_ord(b),
{
}

/// A time of day with minute resolution.
#[derive(Clone, Copy, Debug, PartialEq, Eq, Structural)]
pub struct Time {
    pub hour: u32,
    pub minute: u32,
}

impl Time {
    pub open spec fn wf(&self) -> bool {
        self.hour < 24 && self.minute < 60
    }

    /// Builds a time of day; `None` unless the hour is below 24 and the minute below 60.
    pub fn from_hm_opt(hour: u32, minute: u32) -> (r: Option<Time>)
        ensures
            r.is_some() <==> (hour < 24 && minute < 60),
            r matches Some(t) ==> t == (Time { hour, minute }),
    {
        if hour < 24 && minute < 60 {
            Some(Time { hour, minute })
        } else {
            None
        }
    }

    pub fn hour(&self) -> (r: u32)
        ensures
            r == self.hour,
    {
        self.hour
    }

    pub fn minute(&self) -> (r: u32)
        ensures
            r == self.minute,
    {
        self.minute
    }

    /// One hour later on the clock, wrapping past midnight without a date change.
    pub fn plus_one_hour(&self) -> (r: Time)
        requires
            self.wf(),
        ensures
            r == (Time { hour: ((self.hour + 1) % 24) as u32, minute: self.minute }),
            r.wf(),
    {
        Time { hour: (self.hour + 1) % 24, minute: self.minute }
    }
}

/// When an event starts or ends: all day on a date, or a time on a date.
#[derive(Clone, Copy, Debug, PartialEq, Eq, Structural)]
pub enum EventTime {
    AllDay(Date),
    Specific { date: Date, time: Time },
}

impl EventTime {
    pub open spec fn spec_date(&self) -> Date {
        match self {
            EventTime::AllDay(d) => *d,
            EventTime::Specific { date, .. } => *date,
        }
    }

    pub open spec fn wf(&self) -> bool {
        match self {
            EventTime::AllDay(d) => d.wf(),
            EventTime::Specific { date, time } => date.wf() && time.wf(),
        }
    }

    pub fn date(&self) -> (r: Date)
        ensures
            r == self.spec_date(),
    {
        match self {
            EventTime::AllDay(date) => *date,
            EventTime::Specific { date, .. } => *date,
        }
    }

    pub fn is_all_day(&self) -> (r: bool)
        ensures
            r == (*self is AllDay),
    {
        matches!(self, EventTime::AllDay(_))
    }

    /// Whether `self` sorts no later than `other`: by date first, an all-day
    /// time before any time of day on the same date, then by hour and minute.
    pub fn sorts_before_or_with(&self, other: &EventTime) -> (r: bool)
        ensures
            r == event_time_le(*self, *other),
    {
        let a = self.date();
        let b = other.date();
        if a.is_before(&b) {
            true
        } else if a != b {
            false
        } else {
            match (self, other) {
                (EventTime::AllDay(_), _) => true,
                (EventTime::Specific { .. }, EventTime::AllDay(_)) => false,
                (EventTime::Specific { time: s, .. }, EventTime::Specific { time: o, .. }) => {
                    s.hour < o.hour || (s.hour == o.hour && s.minute <= o.minute)
                },
            }
        }
    }
}

/// The order events are sorted by: date-major, all-day first within a date,
/// then by time of day.
pub open spec fn event_time_le(a: EventTime, b: EventTime) -> bool {
    if date_lt(a.spec_date(), b.spec_date()) {
        true
    } else if a.spec_date() != b.spec_date() {
        false
    } else {
        match (a, b) {
            (EventTime::AllDay(_), _) => true,
            (EventTime::Specific { .. }, EventTime::AllDay(_)) => false,
            (EventTime::Specific { time: s, .. }, EventTime::Specific { time: o, .. }) => {
                s.hour < o.hour || (s.hour == o.hour && s.minute <= o.minute)
            },
        }
    }
}

/// `event_time_le` is a total preorder: every two times compare, and it is transitive.
pub proof fn lemma_event_time_le_total_preorder(a: EventTime, b: EventTime, c: EventTime)
    ensures
        event_time_le(a, b) || event_time_le(b, a),
        event_time_le(a, b) && event_time_le(b, c) ==> event_time_le(a, c),
        event_time_le(a, a),
{
}

/// One item of the feed as decoded, before normalisation: every field is text.
#[derive(Clone, Debug)]
pub struct CalendarEventXml {
    pub event_id: String,
    pub start_date: String,
    pub end_date: String,
    pub start_time: String,
    pub end_time: Option<String>,
    pub title: String,
    pub description: Option<String>,
    pub location: String,
    pub category: String,
}

/// The text of a decoded feed item.
pub struct RawEventView {
    pub event_id: Seq<char>,
    pub start_date: Seq<char>,
    pub end_date: Seq<char>,
    pub start_time: Seq<char>,
    pub end_time: Option<Seq<char>>,
    pub title: Seq<char>,
    pub description: Option<Seq<char>>,
    pub location: Seq<char>,
    pub category: Seq<char>,
}

pub open spec fn opt_view(o: Option<String>) -> Option<Seq<char>> {
    match o {
        Some(s) => Some(s@),
        None => None,
    }
}

impl View for CalendarEventXml {
    type V = RawEventView;

    open spec fn view(&self) -> RawEventView {
        RawEventView {
            event_id: self.event_id@,
            start_date: self.start_date@,
            end_date: self.end_date@,
            start_time: self.start_time@,
            end_time: opt_view(self.end_time),
            title: self.title@,
            description: opt_view(self.description),
            location: self.location@,
            category: self.category@,
        }
    }
}

/// A decoded feed document: its items in document order.
#[derive(Clone, Debug)]
pub struct SOCSCalendar {
    pub events: Vec<CalendarEventXml>,
}

/// A normalised calendar event.
#[derive(Clone, Debug)]
pub struct CalendarEvent {
    pub event_id: String,
    pub title: String,
    pub description: Option<String>,
    pub location: String,
    pub categories: Vec<String>,
    pub start: EventTime,
    pub end: EventTime,
}

/// The content of a normalised event.
pub struct EventView {
    pub event_id: Seq<char>,
    pub title: Seq<char>,
    pub description: Option<Seq<char>>,
    pub location: Seq<char>,
    pub categories: Seq<Seq<char>>,
    pub start: EventTime,
    pub end: EventTime,
}

impl View for CalendarEvent {
    type V = EventView;

    open spec fn view(&self) -> EventView {
        EventView {
            event_id: self.event_id@,
            title: self.title@,
            description: opt_view(self.description),
            location: self.location@,
            categories: self.categories@.map_values(|c: String| c@),
            start: self.start,
            end: self.end,
        }
    }
}

} // verus!

use vstd::prelude::*;

use crate::models::{
    is_valid_date, CalendarEvent, CalendarEventXml, Date, EventTime, EventView, RawEventView,
    SOCSCalendar, Time,
};
use crate::text::{
    eq_ignore_ascii_case, eq_ignore_ascii_case_spec, is_digit, parse_i32,
    parse_i32_spec, parse_u32, parse_u32_spec, split_on, split_spec, str_views, trim, trimmed,
};

verus! {

/// Which micro-format a field broke.
#[derive(Clone, Copy, Debug, PartialEq, Eq, Structural)]
pub enum ErrorKind {
    DateFormat,
    TimeFormat,
}

/// A field of a feed item that could not be read, with its text.
#[derive(Clone, Debug)]
pub struct ParseError {
    pub kind: ErrorKind,
    pub text: String,
}

pub open spec fn error_view(e: ParseError) -> (ErrorKind, Seq<char>) {
    (e.kind, e.text@)
}

/// The date a `DD/MM/YYYY` text denotes: three slash-separated numbers
/// (day and month as `u32`, year as `i32`) that form a valid date.
pub open spec fn date_spec(s: Seq<char>) -> Option<Date> {
    let parts = split_spec(s, '/');
    if parts.len() != 3 {
        None
    } else {
        match (parse_u32_spec(parts[0]), parse_u32_spec(parts[1]), parse_i32_spec(parts[2])) {
            (Some(day), Some(month), Some(year)) => if is_valid_date(
                year as int,
                month as int,
                day as int,
            ) {
                Some(Date { year, month, day })
            } else {
                None
            },
            _ => None,
        }
    }
}

/// Parses a `DD/MM/YYYY` date.
pub fn parse_date(date_str: &str) -> (r: Result<Date, ParseError>)
    ensures
        r matches Ok(d) ==> date_spec(date_str@) == Some(d) && d.wf(),
        r matches Err(e) ==> date_spec(date_str@) is None && error_view(e) == (
            ErrorKind::DateFormat,
            date_str@,
        ),
        r is Ok <==> date_spec(date_str@) is Some,
{
    let parts = split_on(date_str, '/');
    let ghost views = str_views(parts@);
    if parts.len() == 3 {
        assert(views[0] == parts@[0]@ && views[1] == parts@[1]@ && views[2] == parts@[2]@);
        let day = parse_u32(parts[0]);
        let month = parse_u32(parts[1]);
        let year = parse_i32(parts[2]);
        if let (Some(day), Some(month), Some(year)) = (day, month, year) {
            if let Some(d) = Date::from_ymd_opt(year, month, day) {
                return Ok(d);
            }
        }
    }
    Err(ParseError { kind: ErrorKind::DateFormat, text: String::from_str(date_str) })
}

pub open spec fn digit_value(c: char) -> int {
    (c as u32) as int - 48
}

/// The time of day a 24-hour `HH:MM` text denotes: exactly two digits, a
/// colon and two digits, with hour below 24 and minute below 60.
pub open spec fn time_of_day_spec(s: Seq<char>) -> Option<Time> {
    if s.len() == 5 && is_digit(s[0]) && is_digit(s[1]) && s[2] == ':' && is_digit(s[3])
        && is_digit(s[4]) && digit_value(s[0]) * 10 + digit_value(s[1]) < 24 && digit_value(s[3])
        * 10 + digit_value(s[4]) < 60 {
        Some(
            Time {
                hour: (digit_value(s[0]) * 10 + digit_value(s[1])) as u32,
                minute: (digit_value(s[3]) * 10 + digit_value(s[4])) as u32,
            },
        )
    } else {
        None
    }
}

pub open spec fn all_day_text() -> Seq<char> {
    seq!['a', 'l', 'l', ' ', 'd', 'a', 'y']
}

/// The time a field denotes on `date`: after trimming, "all day" in any
/// letter case or nothing at all is all-day; otherwise it must be `HH:MM`.
pub open spec fn event_time_spec(date: Date, s: Seq<char>) -> Option<EventTime> {
    let t = trimmed(s);
    if eq_ignore_ascii_case_spec(t, all_day_text()) || t.len() == 0 {
        Some(EventTime::AllDay(date))
    } else {
        match time_of_day_spec(t) {
            Some(time) => Some(EventTime::Specific { date, time }),
            None => None,
        }
    }
}

fn digit_of(c: char) -> (r: Option<u32>)
    ensures
        r is Some <==> is_digit(c),
        r matches Some(v) ==> v == digit_value(c),
{
    if '0' <= c && c <= '9' {
        Some(c as u32 - 48)
    } else {
        None
    }
}

fn parse_time_of_day(s: &str) -> (r: Option<Time>)
    ensures
        r == time_of_day_spec(s@),
        r matches Some(t) ==> t.wf(),
{
    if s.unicode_len() != 5 || s.get_char(2) != ':' {
        return None;
    }
    let h1 = digit_of(s.get_char(0));
    let h2 = digit_of(s.get_char(1));
    let m1 = digit_of(s.get_char(3));
    let m2 = digit_of(s.get_char(4));
    if let (Some(h1), Some(h2), Some(m1), Some(m2)) = (h1, h2, m1, m2) {
        Time::from_hm_opt(h1 * 10 + h2, m1 * 10 + m2)
    } else {
        None
    }
}

/// Parses a time field on `date`: "All Day" (any case) or empty gives an
/// all-day time, `HH:MM` a time of day.
pub fn parse_event_time(date: Date, time_str: &str) -> (r: Result<EventTime, ParseError>)
    ensures
        r matches Ok(t) ==> event_time_spec(date, time_str@) == Some(t),
        r matches Err(e) ==> event_time_spec(date, time_str@) is None && error_view(e) == (
            ErrorKind::TimeFormat,
            time_str@,
        ),
        r is Ok <==> event_time_spec(date, time_str@) is Some,
{
    let t = trim(time_str);
    let all_day = "all day";
    proof {
        reveal_strlit("all day");
    }
    assert(all_day@ =~= all_day_text());
    if eq_ignore_ascii_case(t, all_day) || t.unicode_len() == 0 {
        return Ok(EventTime::AllDay(date));
    }
    match parse_time_of_day(t) {
        Some(time) => Ok(EventTime::Specific { date, time }),
        None => Err(ParseError { kind: ErrorKind::TimeFormat, text: String::from_str(time_str) }),
    }
}

/// The end time when the feed gives no usable end-time text: all day on the
/// end date after an all-day start, else one hour after the start time on the
/// end date, wrapping past midnight without moving the date.
pub open spec fn default_end_spec(start: EventTime, end_date: Date) -> EventTime {
    match start {
        EventTime::AllDay(_) => EventTime::AllDay(end_date),
        EventTime::Specific { time, .. } => EventTime::Specific {
            date: end_date,
            time: Time { hour: ((time.hour + 1) % 24) as u32, minute: time.minute },
        },
    }
}

/// An end-time text counts when it is present and not blank.
pub open spec fn usable_end_time(end_time: Option<Seq<char>>) -> bool {
    end_time matches Some(t) && trimmed(t).len() > 0
}

pub open spec fn end_time_spec(start: EventTime, end_date: Date, end_time: Option<Seq<char>>) -> Option<EventTime> {
    if usable_end_time(end_time) {
        event_time_spec(end_date, end_time->Some_0)
    } else {
        Some(default_end_spec(start, end_date))
    }
}

pub open spec fn keep_trimmed_nonempty(pieces: Seq<Seq<char>>) -> Seq<Seq<char>>
    decreases pieces.len(),
{
    if pieces.len() == 0 {
        Seq::empty()
    } else {
        let r = keep_trimmed_nonempty(pieces.drop_last());
        let t = trimmed(pieces.last());
        if t.len() > 0 {
            r.push(t)
        } else {
            r
        }
    }
}

/// The categories of a comma-separated field: each piece trimmed, blank
/// pieces dropped, order kept.
pub open spec fn categories_spec(s: Seq<char>) -> Seq<Seq<char>> {
    keep_trimmed_nonempty(split_spec(s, ','))
}

pub open spec fn string_views(v: Seq<String>) -> Seq<Seq<char>> {
    v.map_values(|c: String| c@)
}

/// Splits a category field on commas, trims each piece and drops blank ones.
pub fn parse_categories(category: &str) -> (r: Vec<String>)
    ensures
        string_views(r@) == categories_spec(category@),
{
    let parts = split_on(category, ',');
    let ghost pieces = str_views(parts@);
    let mut out: Vec<String> = Vec::new();
    let mut i: usize = 0;
    assert(pieces.subrange(0, 0) =~= Seq::<Seq<char>>::empty());
    while i < parts.len()
        invariant
            i <= parts@.len(),
            pieces == str_views(parts@),
            string_views(out@) == keep_trimmed_nonempty(pieces.subrange(0, i as int)),
        decreases parts@.len() - i,
    {
        assert(pieces.subrange(0, i + 1).drop_last() =~= pieces.subrange(0, i as int));
        assert(pieces[i as int] == parts@[i as int]@);
        let t = trim(parts[i]);
        if t.unicode_len() > 0 {
            out.push(String::from_str(t));
            assert(string_views(out@) =~= keep_trimmed_nonempty(pieces.subrange(0, i + 1)));
        }
        i = i + 1;
    }
    assert(pieces.subrange(0, parts@.len() as int) =~= pieces);
    out
}

/// What normalising one feed item gives: the event, or the first field that
/// breaks its format (start date, end date, start time, end time, in that order).
pub open spec fn event_spec(x: RawEventView) -> Result<EventView, (ErrorKind, Seq<char>)> {
    match date_spec(x.start_date) {
        None => Err((ErrorKind::DateFormat, x.start_date)),
        Some(start_date) => match date_spec(x.end_date) {
            None => Err((ErrorKind::DateFormat, x.end_date)),
            Some(end_date) => match event_time_spec(start_date, x.start_time) {
                None => Err((ErrorKind::TimeFormat, x.start_time)),
                Some(start) => match end_time_spec(start, end_date, x.end_time) {
                    None => Err((ErrorKind::TimeFormat, x.end_time->Some_0)),
                    Some(end) => Ok(
                        EventView {
                            event_id: x.event_id,
                            title: x.title,
                            description: x.description,
                            location: x.location,
                            categories: categories_spec(x.category),
                            start,
                            end,
                        },
                    ),
                },
            },
        },
    }
}

pub open spec fn event_result_view(r: Result<CalendarEvent, ParseError>) -> Result<
    EventView,
    (ErrorKind, Seq<char>),
> {
    match r {
        Ok(e) => Ok(e@),
        Err(e) => Err(error_view(e)),
    }
}

/// Normalises one feed item into an event.
pub fn parse_event(event: CalendarEventXml) -> (r: Result<CalendarEvent, ParseError>)
    ensures
        event_result_view(r) == event_spec(event@),
        r matches Ok(e) ==> e.start.wf() && e.end.wf(),
{
    let start_date = match parse_date(event.start_date.as_str()) {
        Ok(d) => d,
        Err(e) => return Err(e),
    };
    let end_date = match parse_date(event.end_date.as_str()) {
        Ok(d) => d,
        Err(e) => return Err(e),
    };
    let start = match parse_event_time(start_date, event.start_time.as_str()) {
        Ok(t) => t,
        Err(e) => return Err(e),
    };
    let mut usable = false;
    if let Some(t) = &event.end_time {
        usable = trim(t.as_str()).unicode_len() > 0;
    }
    let end = if usable {
        let t = event.end_time.unwrap();
        match parse_event_time(end_date, t.as_str()) {
            Ok(e) => e,
            Err(e) => return Err(e),
        }
    } else {
        match start {
            EventTime::AllDay(_) => EventTime::AllDay(end_date),
            EventTime::Specific { time, .. } => EventTime::Specific {
                date: end_date,
                time: time.plus_one_hour(),
            },
        }
    };
    let categories = parse_categories(event.category.as_str());
    Ok(
        CalendarEvent {
            event_id: event.event_id,
            title: event.title,
            description: event.description,
            location: event.location,
            categories,
            start,
            end,
        },
    )
}

pub open spec fn raw_views(v: Seq<CalendarEventXml>) -> Seq<RawEventView> {
    v.map_values(|x: CalendarEventXml| x@)
}

pub open spec fn event_views(v: Seq<CalendarEvent>) -> Seq<EventView> {
    v.map_values(|e: CalendarEvent| e@)
}

/// What normalising a document's items gives: all events in document order,
/// or the error of the first item that fails.
pub open spec fn calendar_spec(items: Seq<RawEventView>) -> Result<
    Seq<EventView>,
    (ErrorKind, Seq<char>),
>
    decreases items.len(),
{
    if items.len() == 0 {
        Ok(Seq::empty())
    } else {
        match calendar_spec(items.drop_last()) {
            Err(e) => Err(e),
            Ok(done) => match event_spec(items.last()) {
                Err(e) => Err(e),
                Ok(ev) => Ok(done.push(ev)),
            },
        }
    }
}

pub open spec fn calendar_result_view(r: Result<Vec<CalendarEvent>, ParseError>) -> Result<
    Seq<EventView>,
    (ErrorKind, Seq<char>),
> {
    match r {
        Ok(v) => Ok(event_views(v@)),
        Err(e) => Err(error_view(e)),
    }
}

/// Normalises every item of a decoded document, keeping document order; the
/// first item that fails fails the whole document.
pub fn parse_calendar(calendar: SOCSCalendar) -> (r: Result<Vec<CalendarEvent>, ParseError>)
    ensures
        calendar_result_view(r) == calendar_spec(raw_views(calendar.events@)),
        r matches Ok(v) ==> forall|i: int|
            0 <= i < v@.len() ==> (#[trigger] v@[i]).start.wf() && v@[i].end.wf(),
{
    let ghost all = raw_views(calendar.events@);
    let mut items = calendar.events;
    let n: usize = items.len();
    let mut out: Vec<CalendarEvent> = Vec::new();
    let mut i: usize = 0;
    assert(all.subrange(0, 0) =~= Seq::<RawEventView>::empty());
    assert(event_views(out@) =~= Seq::<EventView>::empty());
    while items.len() > 0
        invariant
            i + items@.len() == n,
            all.len() == n,
            all == raw_views(calendar.events@),
            raw_views(items@) =~= all.subrange(i as int, n as int),
            n == calendar.events@.len(),
            calendar_spec(all.subrange(0, i as int)) == Ok::<Seq<EventView>, (ErrorKind, Seq<char>)>(event_views(out@)),
            forall|k: int|
                0 <= k < out@.len() ==> (#[trigger] out@[k]).start.wf() && out@[k].end.wf(),
        decreases items@.len(),
    {
        let ghost before = items@;
        let item = items.remove(0);
        assert(raw_views(before)[0] == item@);
        assert(all[i as int] == item@);
        assert(all.subrange(0, i + 1).drop_last() =~= all.subrange(0, i as int));
        assert(raw_views(items@) =~= all.subrange(i + 1, n as int)) by {
            assert(items@ =~= before.subrange(1, before.len() as int));
            assert forall|k: int| 0 <= k < items@.len() implies #[trigger] raw_views(items@)[k]
                == all[i + 1 + k] by {
                assert(raw_views(items@)[k] == items@[k]@);
                assert(items@[k] == before[k + 1]);
                assert(raw_views(before)[k + 1] == before[k + 1]@);
                assert(all.subrange(i as int, n as int)[k + 1] == all[i + 1 + k]);
            }
        }
        assert(all.subrange(0, i + 1).last() == all[i as int]);
        match parse_event(item) {
            Ok(ev) => {
                let ghost out_before = out@;
                assert(event_spec(all[i as int]) == Ok::<EventView, (ErrorKind, Seq<char>)>(ev@));
                out.push(ev);
                assert(out@.drop_last() =~= out_before);
                assert(event_views(out@) =~= event_views(out_before).push(ev@));
                assert(calendar_spec(all.subrange(0, i + 1)) == Ok::<Seq<EventView>, (ErrorKind, Seq<char>)>(event_views(out@)));
            },
            Err(e) => {
                assert(all.subrange(0, i + 1).last() == all[i as int]);
                assert(calendar_spec(all.subrange(0, i + 1)) == Err::<Seq<EventView>, (ErrorKind, Seq<char>)>(error_view(e)));
                proof {
                    lemma_calendar_error_persists(all, i as int + 1);
                }
                assert(calendar_result_view(Err::<Vec<CalendarEvent>, ParseError>(e)) == calendar_spec(all));
                assert(all.subrange(0, n as int) =~= all);
                return Err(e);
            },
        }
        i = i + 1;
    }
    assert(all.subrange(0, n as int) =~= all);
    Ok(out)
}

proof fn lemma_calendar_error_persists(items: Seq<RawEventView>, k: int)
    requires
        0 <= k <= items.len(),
        calendar_spec(items.subrange(0, k)) is Err,
    ensures
        calendar_spec(items) == calendar_spec(items.subrange(0, k)),
    decreases items.len() - k,
{
    if k == items.len() {
        assert(items.subrange(0, k) =~= items);
    } else {
        assert(items.subrange(0, k + 1).drop_last() =~= items.subrange(0, k));
        lemma_calendar_error_persists(items, k + 1);
    }
}

/// Normalising depends on the text of the items alone: two documents whose
/// items read the same give the same events, field by field and in the same
/// order, or the same error.
pub proof fn lemma_parse_deterministic(a: SOCSCalendar, b: SOCSCalendar)
    requires
        raw_views(a.events@) == raw_views(b.events@),
    ensures
        calendar_spec(raw_views(a.events@)) == calendar_spec(raw_views(b.events@)),
{
}

} // verus!

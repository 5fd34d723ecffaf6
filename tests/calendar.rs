use socs_calendar::{
    calendar_url, finalize_events, format_date_for_api, parse_calendar, parse_categories,
    parse_date, parse_event, parse_event_time, CalendarEvent, CalendarEventXml, Date, ErrorKind,
    EventTime, Pagination, SOCSCalendar, Time,
};

fn date(y: i32, m: u32, d: u32) -> Date {
    Date::from_ymd_opt(y, m, d).unwrap()
}

fn raw(id: &str, start_date: &str, start_time: &str, end_time: Option<&str>, category: &str) -> CalendarEventXml {
    CalendarEventXml {
        event_id: id.to_string(),
        start_date: start_date.to_string(),
        end_date: start_date.to_string(),
        start_time: start_time.to_string(),
        end_time: end_time.map(|s| s.to_string()),
        title: format!("Event {}", id),
        description: None,
        location: "Hall".to_string(),
        category: category.to_string(),
    }
}

fn event(id: &str, start: EventTime) -> CalendarEvent {
    CalendarEvent {
        event_id: id.to_string(),
        title: String::new(),
        description: None,
        location: String::new(),
        categories: Vec::new(),
        start,
        end: start,
    }
}

#[test]
fn test_format_date_for_api() {
    let date = Date::from_ymd_opt(2025, 12, 10).unwrap();
    let formatted = format_date_for_api(date);
    assert_eq!(formatted, "10 Dec 25");
}

#[test]
fn test_parse_date() {
    let date = parse_date("10/12/2025").unwrap();
    assert_eq!(date.day(), 10);
    assert_eq!(date.month(), 12);
    assert_eq!(date.year(), 2025);
}

#[test]
fn test_parse_all_day_time() {
    let date = Date::from_ymd_opt(2025, 12, 10).unwrap();
    let event_time = parse_event_time(date, "All Day").unwrap();
    assert!(event_time.is_all_day());
}

#[test]
fn test_parse_specific_time() {
    let date = Date::from_ymd_opt(2025, 12, 10).unwrap();
    let event_time = parse_event_time(date, "08:30").unwrap();
    assert!(!event_time.is_all_day());

    if let EventTime::Specific { time, .. } = event_time {
        assert_eq!(time.hour(), 8);
        assert_eq!(time.minute(), 30);
    } else {
        panic!("Expected specific time");
    }
}

#[test]
fn format_date_pads_day_and_year() {
    assert_eq!(format_date_for_api(date(2009, 3, 5)), "05 Mar 09");
    assert_eq!(format_date_for_api(date(2000, 1, 31)), "31 Jan 00");
}

#[test]
fn invalid_dates_are_rejected() {
    for text in ["32/01/2025", "10/13/2025", "31/04/2025", "29/02/2025", "10/12", "10/12/2025/1", "a/12/2025", "", "10-12-2025", " 10/12/2025"] {
        let err = parse_date(text).unwrap_err();
        assert_eq!(err.kind, ErrorKind::DateFormat);
        assert_eq!(err.text, text);
    }
}

#[test]
fn leap_day_and_signs_parse() {
    assert_eq!(parse_date("29/02/2024").unwrap(), date(2024, 2, 29));
    assert_eq!(parse_date("+1/+2/+2025").unwrap(), date(2025, 2, 1));
    assert_eq!(parse_date("01/01/-5").unwrap(), date(-5, 1, 1));
    assert!(parse_date("29/02/1900").is_err());
    assert!(parse_date("29/02/2000").is_ok());
}

#[test]
fn all_day_in_any_case_and_blank() {
    let d = date(2025, 12, 10);
    for text in ["All Day", "ALL DAY", "all day", "  aLl dAy  ", "", "   "] {
        assert_eq!(parse_event_time(d, text).unwrap(), EventTime::AllDay(d));
    }
}

#[test]
fn bad_times_are_rejected() {
    let d = date(2025, 12, 10);
    for text in ["8:30", "08:70", "24:00", "0830", "08:30:00", "noon", "all-day"] {
        let err = parse_event_time(d, text).unwrap_err();
        assert_eq!(err.kind, ErrorKind::TimeFormat);
        assert_eq!(err.text, text);
    }
}

#[test]
fn time_is_trimmed() {
    let d = date(2025, 12, 10);
    let t = parse_event_time(d, " 23:59 ").unwrap();
    assert_eq!(t, EventTime::Specific { date: d, time: Time::from_hm_opt(23, 59).unwrap() });
}

#[test]
fn end_defaults_to_all_day_on_end_date() {
    let mut x = raw("1", "10/12/2025", "All Day", None, "");
    x.end_date = "12/12/2025".to_string();
    let e = parse_event(x).unwrap();
    assert_eq!(e.start, EventTime::AllDay(date(2025, 12, 10)));
    assert_eq!(e.end, EventTime::AllDay(date(2025, 12, 12)));
}

#[test]
fn end_wraps_past_midnight_on_end_date() {
    for end_time in [None, Some(""), Some("  ")] {
        let mut x = raw("1", "10/12/2025", "23:30", end_time, "");
        x.end_date = "11/12/2025".to_string();
        let e = parse_event(x).unwrap();
        assert_eq!(e.end, EventTime::Specific { date: date(2025, 12, 11), time: Time::from_hm_opt(0, 30).unwrap() });
    }
}

#[test]
fn end_defaults_one_hour_later() {
    let e = parse_event(raw("1", "10/12/2025", "08:30", None, "")).unwrap();
    assert_eq!(e.end, EventTime::Specific { date: date(2025, 12, 10), time: Time::from_hm_opt(9, 30).unwrap() });
}

#[test]
fn given_end_time_is_parsed_on_end_date() {
    let mut x = raw("1", "10/12/2025", "08:30", Some("17:15"), "");
    x.end_date = "13/12/2025".to_string();
    let e = parse_event(x).unwrap();
    assert_eq!(e.end, EventTime::Specific { date: date(2025, 12, 13), time: Time::from_hm_opt(17, 15).unwrap() });
}

#[test]
fn field_errors_in_order() {
    let mut x = raw("1", "10/12/2025", "8:30", Some("bad"), "");
    x.end_date = "40/12/2025".to_string();
    let err = parse_event(x).unwrap_err();
    assert_eq!((err.kind, err.text.as_str()), (ErrorKind::DateFormat, "40/12/2025"));
    let err = parse_event(raw("1", "10/12/2025", "8:30", Some("bad"), "")).unwrap_err();
    assert_eq!((err.kind, err.text.as_str()), (ErrorKind::TimeFormat, "8:30"));
    let err = parse_event(raw("1", "10/12/2025", "08:30", Some("bad"), "")).unwrap_err();
    assert_eq!((err.kind, err.text.as_str()), (ErrorKind::TimeFormat, "bad"));
}

#[test]
fn categories_are_split_trimmed_and_filtered() {
    assert_eq!(parse_categories("A, B ,, C"), vec!["A", "B", "C"]);
    assert!(parse_categories("").is_empty());
    assert!(parse_categories(" , ,").is_empty());
    assert_eq!(parse_categories("Sport and Games"), vec!["Sport and Games"]);
}

#[test]
fn event_fields_pass_through() {
    let mut x = raw("E7", "10/12/2025", "All Day", None, "A, B ,, C");
    x.description = Some("desc".to_string());
    x.title = String::new();
    let e = parse_event(x).unwrap();
    assert_eq!(e.event_id, "E7");
    assert_eq!(e.title, "");
    assert_eq!(e.description.as_deref(), Some("desc"));
    assert_eq!(e.location, "Hall");
    assert_eq!(e.categories, vec!["A", "B", "C"]);
}

#[test]
fn calendar_keeps_document_order() {
    let cal = SOCSCalendar { events: vec![raw("2", "11/12/2025", "09:00", None, ""), raw("1", "10/12/2025", "All Day", None, "")] };
    let events = parse_calendar(cal).unwrap();
    let ids: Vec<&str> = events.iter().map(|e| e.event_id.as_str()).collect();
    assert_eq!(ids, vec!["2", "1"]);
    assert!(parse_calendar(SOCSCalendar { events: vec![] }).unwrap().is_empty());
}

#[test]
fn calendar_fails_on_first_bad_item() {
    let cal = SOCSCalendar { events: vec![raw("1", "10/12/2025", "All Day", None, ""), raw("2", "99/12/2025", "x", None, ""), raw("3", "10/12/2025", "x", None, "")] };
    let err = parse_calendar(cal).unwrap_err();
    assert_eq!((err.kind, err.text.as_str()), (ErrorKind::DateFormat, "99/12/2025"));
}

#[test]
fn parsing_twice_gives_the_same_events() {
    let make = || SOCSCalendar { events: vec![raw("1", "10/12/2025", "08:30", Some(""), "A, B"), raw("2", "10/12/2025", "all day", None, "")] };
    let a = parse_calendar(make()).unwrap();
    let b = parse_calendar(make()).unwrap();
    assert_eq!(a.len(), b.len());
    for (x, y) in a.iter().zip(b.iter()) {
        assert_eq!(x.event_id, y.event_id);
        assert_eq!(x.title, y.title);
        assert_eq!(x.description, y.description);
        assert_eq!(x.location, y.location);
        assert_eq!(x.categories, y.categories);
        assert_eq!(x.start, y.start);
        assert_eq!(x.end, y.end);
    }
}

#[test]
fn url_holds_encoded_dates_and_flags() {
    let url = calendar_url("https://example.org/cal.ashx?ID=1&key=k", date(2025, 12, 10), date(2026, 1, 5));
    assert_eq!(
        url,
        "https://example.org/cal.ashx?ID=1&key=k&startdate=10%20Dec%2025&enddate=05%20Jan%2026&Sport=0&CoCurricular=0&IncludeInternal=1&IncludeUnpublished=1"
    );
}

#[test]
fn display_text() {
    let d = date(2025, 12, 10);
    assert_eq!(EventTime::AllDay(d).to_display_string(), "10 Dec 2025 (All Day)");
    let t = EventTime::Specific { date: d, time: Time::from_hm_opt(8, 5).unwrap() };
    assert_eq!(t.to_display_string(), "10 Dec 2025 at 08:05");
    assert_eq!(EventTime::AllDay(date(33, 1, 2)).to_display_string(), "02 Jan 0033 (All Day)");
}

#[test]
fn event_time_order_is_date_major() {
    let d1 = date(2025, 12, 10);
    let d2 = date(2025, 12, 11);
    let late = EventTime::Specific { date: d1, time: Time::from_hm_opt(23, 0).unwrap() };
    let early = EventTime::Specific { date: d1, time: Time::from_hm_opt(7, 0).unwrap() };
    assert!(EventTime::AllDay(d1).sorts_before_or_with(&early));
    assert!(early.sorts_before_or_with(&late));
    assert!(!late.sorts_before_or_with(&early));
    assert!(late.sorts_before_or_with(&EventTime::AllDay(d2)));
    assert!(!EventTime::AllDay(d2).sorts_before_or_with(&late));
    assert_eq!(late.date(), d1);
}

#[test]
fn empty_first_batch_ends_retrieval() {
    let mut p = Pagination::new(date(2025, 1, 1), date(2025, 12, 31));
    assert_eq!(p.next_range(), Some((date(2025, 1, 1), date(2025, 12, 31))));
    p.accept_batch(Vec::new());
    assert!(p.is_finished());
    assert_eq!(p.next_range(), None);
    assert!(p.into_events().is_empty());
}

#[test]
fn pagination_follows_last_start_date_until_end() {
    let end = date(2025, 1, 31);
    let mut p = Pagination::new(date(2025, 1, 1), end);
    p.accept_batch(vec![
        event("c", EventTime::AllDay(date(2025, 1, 3))),
        event("a", EventTime::AllDay(date(2025, 1, 1))),
        event("b", EventTime::AllDay(date(2025, 1, 10))),
    ]);
    assert_eq!(p.next_range(), Some((date(2025, 1, 10), end)));
    p.accept_batch(vec![
        event("b", EventTime::AllDay(date(2025, 1, 10))),
        event("d", EventTime::Specific { date: date(2025, 1, 20), time: Time::from_hm_opt(9, 0).unwrap() }),
    ]);
    assert_eq!(p.next_range(), Some((date(2025, 1, 20), end)));
    p.accept_batch(vec![
        event("d", EventTime::Specific { date: date(2025, 1, 20), time: Time::from_hm_opt(9, 0).unwrap() }),
        event("e", EventTime::AllDay(date(2025, 2, 2))),
    ]);
    assert!(p.is_finished());
    let ids: Vec<String> = p.into_events().into_iter().map(|e| e.event_id).collect();
    assert_eq!(ids, vec!["a", "c", "b", "d", "e"]);
}

#[test]
fn duplicate_ids_across_batches_are_kept_once() {
    let mut p = Pagination::new(date(2025, 1, 1), date(2025, 1, 5));
    p.accept_batch(vec![event("x", EventTime::AllDay(date(2025, 1, 2)))]);
    assert!(!p.is_finished());
    p.accept_batch(vec![event("x", EventTime::AllDay(date(2025, 1, 2))), event("y", EventTime::AllDay(date(2025, 1, 5)))]);
    assert!(p.is_finished());
    let events = p.into_events();
    assert_eq!(events.len(), 2);
    assert_eq!(events.iter().filter(|e| e.event_id == "x").count(), 1);
}

#[test]
fn finalize_keeps_first_of_each_id_and_sorts() {
    let d = date(2025, 3, 1);
    let mut first = event("a", EventTime::AllDay(date(2025, 3, 2)));
    first.title = "first".to_string();
    let mut second = event("a", EventTime::AllDay(d));
    second.title = "second".to_string();
    let out = finalize_events(vec![first, event("b", EventTime::Specific { date: d, time: Time::from_hm_opt(1, 0).unwrap() }), second, event("c", EventTime::AllDay(d))]);
    let got: Vec<(&str, &str)> = out.iter().map(|e| (e.event_id.as_str(), e.title.as_str())).collect();
    assert_eq!(got, vec![("c", ""), ("b", ""), ("a", "first")]);
}

#[test]
fn date_range_matches_supported_years() {
    assert!(Date::from_ymd_opt(262142, 12, 31).is_some());
    assert!(Date::from_ymd_opt(262143, 1, 1).is_none());
    assert!(Date::from_ymd_opt(-262143, 1, 1).is_some());
    assert!(Date::from_ymd_opt(-262144, 12, 31).is_none());
    assert!(Date::from_ymd_opt(2025, 0, 1).is_none());
    assert!(Date::from_ymd_opt(2025, 6, 31).is_none());
    assert!(Date::from_ymd_opt(2025, 1, 0).is_none());
}

use vstd::prelude::*;

pub mod client;
pub mod format;
pub mod models;
pub mod paging;
pub mod parser;
pub mod text;

pub use client::calendar_url;
pub use format::format_date_for_api;
pub use models::{CalendarEvent, CalendarEventXml, Date, EventTime, SOCSCalendar, Time};
pub use paging::{finalize_events, Pagination};
pub use parser::{
    parse_calendar, parse_categories, parse_date, parse_event, parse_event_time, ErrorKind,
    ParseError,
};

verus! {

} // verus!

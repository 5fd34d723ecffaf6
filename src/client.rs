use vstd::prelude::*;

use crate::format::{api_date_text, decimal_digit, format_date_for_api, month_abbrev, two_digits};
use crate::models::Date;

verus! {

pub open spec fn is_ascii_char(c: char) -> bool {
    (c as u32) < 128
}

/// Characters that percent-encoding leaves as they are.
pub open spec fn is_unreserved(c: char) -> bool {
    ('0' <= c && c <= '9') || ('A' <= c && c <= 'Z') || ('a' <= c && c <= 'z') || c == '-'
        || c == '.' || c == '_' || c == '~'
}

pub open spec fn hex_digit_upper(d: int) -> char {
    if d < 10 {
        decimal_digit(d)
    } else if d == 10 { 'A' }
    else if d == 11 { 'B' }
    else if d == 12 { 'C' }
    else if d == 13 { 'D' }
    else if d == 14 { 'E' }
    else { 'F' }
}

/// Percent-encoding of ASCII text: unreserved characters stay, every other
/// one becomes `%` and two upper-case hex digits of its code.
pub open spec fn percent_encoded(s: Seq<char>) -> Seq<char>
    decreases s.len(),
{
    if s.len() == 0 {
        Seq::empty()
    } else {
        let c = s.last();
        percent_encoded(s.drop_last()) + if is_unreserved(c) {
            seq![c]
        } else {
            seq!['%', hex_digit_upper((c as u32) as int / 16), hex_digit_upper((c as u32) as int % 16)]
        }
    }
}

/// Relies on `urlencoding::encode`: every byte but ASCII alphanumerics and
/// `-`, `_`, `.`, `~` becomes `%` with two upper-case hex digits; on ASCII
/// text each character is one byte.
#[verifier::external_body]
fn url_encode(s: &str) -> (r: String)
    requires
        forall|i: int| 0 <= i < s@.len() ==> is_ascii_char(#[trigger] s@[i]),
    ensures
        r@ == percent_encoded(s@),
{
    urlencoding::encode(s).into_owned()
}

proof fn lemma_api_date_ascii(d: Date)
    ensures
        forall|i: int| 0 <= i < api_date_text(d).len() ==> is_ascii_char(#[trigger] api_date_text(d)[i]),
{
    let t = api_date_text(d);
    assert forall|i: int| 0 <= i < t.len() implies is_ascii_char(#[trigger] t[i]) by {
        let a = two_digits(d.day as int);
        let m = month_abbrev(d.month as int);
        let y = two_digits((d.year as int) % 100);
        assert(t =~= a + seq![' '] + m + seq![' '] + y);
        assert(t.len() == 9);
        if i < 2 {
            assert(t[i] == a[i]);
        } else if i == 2 || i == 6 {
        } else if i < 6 {
            assert(t[i] == m[i - 3]);
        } else {
            assert(t[i] == y[i - 7]);
        }
    }
}

pub open spec fn calendar_query(base_url: Seq<char>, start_date: Date, end_date: Date) -> Seq<char> {
    base_url + "&startdate="@ + percent_encoded(api_date_text(start_date)) + "&enddate="@
        + percent_encoded(api_date_text(end_date))
        + "&Sport=0&CoCurricular=0&IncludeInternal=1&IncludeUnpublished=1"@
}

/// The request URL for one date range: the caller's base URL, both dates in
/// the feed's form and percent-encoded, then the feed's fixed flags (no sport,
/// no co-curricular, internal and unpublished events included).
pub fn calendar_url(base_url: &str, start_date: Date, end_date: Date) -> (r: String)
    requires
        start_date.wf(),
        end_date.wf(),
    ensures
        r@ == calendar_query(base_url@, start_date, end_date),
{
    let start_text = format_date_for_api(start_date);
    let end_text = format_date_for_api(end_date);
    proof {
        lemma_api_date_ascii(start_date);
        lemma_api_date_ascii(end_date);
    }
    let start_enc = url_encode(start_text.as_str());
    let end_enc = url_encode(end_text.as_str());
    let mut url = String::from_str(base_url);
    url.append("&startdate=");
    url.append(start_enc.as_str());
    url.append("&enddate=");
    url.append(end_enc.as_str());
    url.append("&Sport=0&CoCurricular=0&IncludeInternal=1&IncludeUnpublished=1");
    url
}

} // verus!

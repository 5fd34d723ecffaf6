use vstd::prelude::*;

use crate::models::{date_lt, date_ord, event_time_le, lemma_event_time_le_total_preorder, CalendarEvent, Date};

verus! {

broadcast use vstd::seq_lib::group_to_multiset_ensures;

/// Whether an event with identifier `id` occurs in `s`.
pub open spec fn id_seen(s: Seq<CalendarEvent>, id: Seq<char>) -> bool {
    exists|j: int| 0 <= j < s.len() && (#[trigger] s[j]).event_id@ == id
}

/// `s` without repeated identifiers: the first event of each identifier stays.
pub open spec fn dedup_by_id(s: Seq<CalendarEvent>) -> Seq<CalendarEvent>
    decreases s.len(),
{
    if s.len() == 0 {
        Seq::empty()
    } else {
        let d = dedup_by_id(s.drop_last());
        if id_seen(s.drop_last(), s.last().event_id@) {
            d
        } else {
            d.push(s.last())
        }
    }
}

/// Events in ascending order of their start times.
pub open spec fn sorted_by_start(s: Seq<CalendarEvent>) -> bool {
    forall|i: int, j: int| 0 <= i < j < s.len() ==> event_time_le(#[trigger] s[i].start, #[trigger] s[j].start)
}

/// Removing repeated identifiers leaves each identifier of the input exactly
/// once: no two events of the result share one, and an identifier occurs in
/// the result exactly when it occurs in the input.
pub proof fn lemma_dedup_one_per_id(s: Seq<CalendarEvent>)
    ensures
        forall|i: int, j: int|
            0 <= i < j < dedup_by_id(s).len() ==> (#[trigger] dedup_by_id(s)[i]).event_id@
                != (#[trigger] dedup_by_id(s)[j]).event_id@,
        forall|id: Seq<char>| id_seen(dedup_by_id(s), id) <==> #[trigger] id_seen(s, id),
    decreases s.len(),
{
    if s.len() > 0 {
        let p = s.drop_last();
        let d = dedup_by_id(p);
        lemma_dedup_one_per_id(p);
        assert forall|id: Seq<char>| #[trigger] id_seen(s, id) <==> (id_seen(p, id) || s.last().event_id@ == id) by {
            if id_seen(s, id) {
                let j = choose|j: int| 0 <= j < s.len() && (#[trigger] s[j]).event_id@ == id;
                if j < p.len() {
                    assert(p[j] == s[j]);
                }
            }
            if id_seen(p, id) {
                let j = choose|j: int| 0 <= j < p.len() && (#[trigger] p[j]).event_id@ == id;
                assert(s[j] == p[j]);
            }
            if s.last().event_id@ == id {
                assert(s[s.len() - 1] == s.last());
            }
        }
        if !id_seen(p, s.last().event_id@) {
            let dn = d.push(s.last());
            assert forall|id: Seq<char>| id_seen(dn, id) <==> (id_seen(d, id) || s.last().event_id@ == id) by {
                if id_seen(dn, id) {
                    let j = choose|j: int| 0 <= j < dn.len() && (#[trigger] dn[j]).event_id@ == id;
                    if j < d.len() {
                        assert(d[j] == dn[j]);
                    }
                }
                if id_seen(d, id) {
                    let j = choose|j: int| 0 <= j < d.len() && (#[trigger] d[j]).event_id@ == id;
                    assert(dn[j] == d[j]);
                }
                if s.last().event_id@ == id {
                    assert(dn[dn.len() - 1] == s.last());
                }
            }
            assert forall|i: int, j: int|
                0 <= i < j < dn.len() implies (#[trigger] dn[i]).event_id@ != (#[trigger] dn[j]).event_id@ by {
                if j == dn.len() - 1 {
                    assert(dn[i] == d[i]);
                    if dn[i].event_id@ == dn[j].event_id@ {
                        assert(id_seen(d, s.last().event_id@));
                    }
                } else {
                    assert(dn[i] == d[i] && dn[j] == d[j]);
                }
            }
        }
    }
}

/// Keeps the first event of each identifier, in order.
fn dedup_events(events: Vec<CalendarEvent>) -> (r: Vec<CalendarEvent>)
    ensures
        r@ == dedup_by_id(events@),
{
    let ghost all = events@;
    let n: usize = events.len();
    let mut rest = events;
    let mut kept: Vec<CalendarEvent> = Vec::new();
    let mut i: usize = 0;
    assert(all.subrange(0, 0) =~= Seq::<CalendarEvent>::empty());
    while rest.len() > 0
        invariant
            i + rest@.len() == n,
            n == all.len(),
            rest@ == all.subrange(i as int, n as int),
            kept@ == dedup_by_id(all.subrange(0, i as int)),
        decreases rest@.len(),
    {
        let ghost prefix = all.subrange(0, i as int);
        proof {
            lemma_dedup_one_per_id(prefix);
        }
        let e = rest.remove(0);
        assert(rest@ =~= all.subrange(i + 1, n as int));
        assert(all.subrange(0, i + 1).drop_last() =~= prefix);
        assert(all.subrange(0, i + 1).last() == e);
        let mut seen = false;
        let mut k: usize = 0;
        while k < kept.len()
            invariant
                k <= kept@.len(),
                seen <==> exists|j: int| 0 <= j < k && (#[trigger] kept@[j]).event_id@ == e.event_id@,
            decreases kept@.len() - k,
        {
            if kept[k].event_id == e.event_id {
                seen = true;
            }
            k = k + 1;
        }
        assert(seen == id_seen(kept@, e.event_id@));
        if !seen {
            kept.push(e);
        }
        i = i + 1;
    }
    assert(all.subrange(0, n as int) =~= all);
    kept
}

/// Sorts events by start time; events that compare equal keep their order.
fn sort_by_start(events: Vec<CalendarEvent>) -> (r: Vec<CalendarEvent>)
    ensures
        sorted_by_start(r@),
        r@.to_multiset() == events@.to_multiset(),
{
    let ghost all = events@;
    let n: usize = events.len();
    let mut rest = events;
    let mut sorted: Vec<CalendarEvent> = Vec::new();
    let mut i: usize = 0;
    assert(all.subrange(0, 0) =~= Seq::<CalendarEvent>::empty());
    while rest.len() > 0
        invariant
            i + rest@.len() == n,
            n == all.len(),
            rest@ == all.subrange(i as int, n as int),
            sorted@.to_multiset() == all.subrange(0, i as int).to_multiset(),
            sorted_by_start(sorted@),
        decreases rest@.len(),
    {
        let e = rest.remove(0);
        assert(rest@ =~= all.subrange(i + 1, n as int));
        assert(all.subrange(0, i + 1) =~= all.subrange(0, i as int).push(e));
        let mut p: usize = 0;
        while p < sorted.len() && sorted[p].start.sorts_before_or_with(&e.start)
            invariant
                p <= sorted@.len(),
                forall|k: int| 0 <= k < p ==> event_time_le((#[trigger] sorted@[k]).start, e.start),
            decreases sorted@.len() - p,
        {
            p = p + 1;
        }
        let ghost before = sorted@;
        sorted.insert(p, e);
        assert(sorted_by_start(sorted@)) by {
            assert forall|a: int, b: int| 0 <= a < b < sorted@.len() implies event_time_le(
                #[trigger] sorted@[a].start,
                #[trigger] sorted@[b].start,
            ) by {
                if p < before.len() {
                    lemma_event_time_le_total_preorder(before[p as int].start, e.start, e.start);
                }
                if b < p {
                    assert(sorted@[a] == before[a] && sorted@[b] == before[b]);
                } else if a < p && b == p {
                } else if a < p && b > p {
                    assert(sorted@[b] == before[b - 1]);
                    assert(event_time_le(before[a].start, before[b - 1].start));
                } else if a == p {
                    assert(sorted@[b] == before[b - 1]);
                    if b - 1 > p {
                        assert(event_time_le(before[p as int].start, before[b - 1].start));
                        lemma_event_time_le_total_preorder(e.start, before[p as int].start, before[b - 1].start);
                    }
                } else {
                    assert(sorted@[a] == before[a - 1]);
                    assert(sorted@[b] == before[b - 1]);
                }
            }
        }
        i = i + 1;
    }
    assert(all.subrange(0, n as int) =~= all);
    sorted
}

/// The final result of a retrieval: the first event of each identifier,
/// sorted by start time.
pub fn finalize_events(events: Vec<CalendarEvent>) -> (r: Vec<CalendarEvent>)
    ensures
        sorted_by_start(r@),
        r@.to_multiset() == dedup_by_id(events@).to_multiset(),
{
    let unique = dedup_events(events);
    sort_by_start(unique)
}

/// The state of a retrieval: the start of the next request, the fixed end
/// date, the events gathered so far, and whether the retrieval is over.
pub struct PageState {
    pub current_start: Date,
    pub end_date: Date,
    pub events: Seq<CalendarEvent>,
    pub finished: bool,
}

pub open spec fn initial_state(start_date: Date, end_date: Date) -> PageState {
    PageState { current_start: start_date, end_date, events: Seq::empty(), finished: false }
}

/// The start date of the last event of a batch, in the feed's own order.
pub open spec fn last_start_date(batch: Seq<CalendarEvent>) -> Date {
    batch.last().start.spec_date()
}

/// What one fetched batch does to the state. An empty batch ends the
/// retrieval. Otherwise its events are gathered; the retrieval ends when the
/// batch's last start date is on or after the end date, and else the next
/// request starts on that date again.
pub open spec fn step_spec(s: PageState, batch: Seq<CalendarEvent>) -> PageState {
    if batch.len() == 0 {
        PageState { finished: true, ..s }
    } else if !date_lt(last_start_date(batch), s.end_date) {
        PageState { events: s.events + batch, finished: true, ..s }
    } else {
        PageState { current_start: last_start_date(batch), events: s.events + batch, ..s }
    }
}

/// The state after a run of batches; batches after the end are not asked for.
pub open spec fn run_batches(s: PageState, batches: Seq<Seq<CalendarEvent>>) -> PageState
    decreases batches.len(),
{
    if batches.len() == 0 || s.finished {
        s
    } else {
        run_batches(step_spec(s, batches[0]), batches.drop_first())
    }
}

/// All events of a run of batches, batch after batch.
pub open spec fn concat_batches(batches: Seq<Seq<CalendarEvent>>) -> Seq<CalendarEvent>
    decreases batches.len(),
{
    if batches.len() == 0 {
        Seq::empty()
    } else {
        batches[0] + concat_batches(batches.drop_first())
    }
}

/// How far the next request still is from the end date.
pub open spec fn distance_to_end(s: PageState) -> int {
    date_ord(s.end_date) - date_ord(s.current_start)
}

/// Drives a retrieval over a date range: it says which range to fetch next,
/// takes each parsed batch, and hands out the final events.
pub struct Pagination {
    current_start: Date,
    end_date: Date,
    events: Vec<CalendarEvent>,
    finished: bool,
}

impl View for Pagination {
    type V = PageState;

    closed spec fn view(&self) -> PageState {
        PageState {
            current_start: self.current_start,
            end_date: self.end_date,
            events: self.events@,
            finished: self.finished,
        }
    }
}

impl Pagination {
    /// Both dates of the state are valid calendar dates.
    pub open spec fn wf(&self) -> bool {
        self@.current_start.wf() && self@.end_date.wf()
    }

    pub fn new(start_date: Date, end_date: Date) -> (r: Pagination)
        requires
            start_date.wf(),
            end_date.wf(),
        ensures
            r@ == initial_state(start_date, end_date),
            r.wf(),
    {
        Pagination { current_start: start_date, end_date, events: Vec::new(), finished: false }
    }

    /// The range to fetch next, or `None` once the retrieval is over.
    pub fn next_range(&self) -> (r: Option<(Date, Date)>)
        requires
            self.wf(),
        ensures
            self@.finished ==> r is None,
            !self@.finished ==> r == Some((self@.current_start, self@.end_date)),
            r matches Some((a, b)) ==> a.wf() && b.wf(),
    {
        if self.finished {
            None
        } else {
            Some((self.current_start, self.end_date))
        }
    }

    pub fn is_finished(&self) -> (r: bool)
        ensures
            r == self@.finished,
    {
        self.finished
    }

    /// Takes the parsed events of the batch that `next_range` asked for.
    pub fn accept_batch(&mut self, batch: Vec<CalendarEvent>)
        requires
            old(self).wf(),
            !old(self)@.finished,
            forall|i: int| 0 <= i < batch@.len() ==> (#[trigger] batch@[i]).start.wf(),
        ensures
            final(self)@ == step_spec(old(self)@, batch@),
            final(self).wf(),
    {
        if batch.len() == 0 {
            self.finished = true;
            return;
        }
        let last = batch[batch.len() - 1].start.date();
        assert(batch@[batch@.len() - 1] == batch@.last());
        let mut batch = batch;
        self.events.append(&mut batch);
        if !last.is_before(&self.end_date) {
            self.finished = true;
        } else {
            self.current_start = last;
        }
    }

    /// The gathered events, first of each identifier, sorted by start time.
    pub fn into_events(self) -> (r: Vec<CalendarEvent>)
        ensures
            sorted_by_start(r@),
            r@.to_multiset() == dedup_by_id(self@.events).to_multiset(),
    {
        finalize_events(self.events)
    }
}

/// A retrieval ends: while it goes on, a batch whose last start date lies
/// after the current request's start either ends it or moves the next
/// request strictly closer to the end date, which stays ahead of it.
pub proof fn lemma_pagination_progress(s: PageState, batch: Seq<CalendarEvent>)
    requires
        !s.finished,
        s.current_start.wf(),
        s.end_date.wf(),
        batch.len() > 0,
        last_start_date(batch).wf(),
        date_lt(s.current_start, last_start_date(batch)),
    ensures
        step_spec(s, batch).finished || (0 < distance_to_end(step_spec(s, batch)) < distance_to_end(s)),
{
    crate::models::lemma_date_ord_monotone(s.current_start, last_start_date(batch));
    crate::models::lemma_date_ord_monotone(last_start_date(batch), s.end_date);
}

proof fn lemma_run_gathers(s: PageState, batches: Seq<Seq<CalendarEvent>>)
    requires
        !s.finished,
        batches.len() > 0,
        forall|i: int| 0 <= i < batches.len() ==> (#[trigger] batches[i]).len() > 0,
        forall|i: int| 0 <= i < batches.len() - 1 ==> date_lt(last_start_date(#[trigger] batches[i]), s.end_date),
        !date_lt(last_start_date(batches.last()), s.end_date),
    ensures
        run_batches(s, batches).finished,
        run_batches(s, batches).events == s.events + concat_batches(batches),
    decreases batches.len(),
{
    let next = step_spec(s, batches[0]);
    let rest = batches.drop_first();
    assert(batches[0].len() > 0);
    assert(run_batches(s, batches) == run_batches(next, rest));
    if batches.len() == 1 {
        assert(run_batches(next, rest) == next);
        assert(batches.last() == batches[0]);
        assert(rest.len() == 0);
        assert(concat_batches(rest) =~= Seq::<CalendarEvent>::empty());
        assert(next.events =~= s.events + concat_batches(batches));
    } else {
        assert(date_lt(last_start_date(batches[0]), s.end_date));
        assert(rest.last() == batches.last());
        assert forall|i: int| 0 <= i < rest.len() implies (#[trigger] rest[i]).len() > 0 by {
            assert(rest[i] == batches[i + 1]);
        }
        assert forall|i: int| 0 <= i < rest.len() - 1 implies date_lt(last_start_date(#[trigger] rest[i]), next.end_date) by {
            assert(rest[i] == batches[i + 1]);
        }
        lemma_run_gathers(next, rest);
        assert(next.events + concat_batches(rest) =~= s.events + concat_batches(batches));
    }
}

/// A feed whose batches are non-empty, whose batches before the last end
/// before the end date and whose last batch reaches it: the retrieval ends
/// after exactly those batches with every event of them gathered, and the
/// result is then the first event of each identifier, sorted by start time
/// (see `Pagination::into_events`).
pub proof fn lemma_pagination_gathers_all(
    start_date: Date,
    end_date: Date,
    batches: Seq<Seq<CalendarEvent>>,
)
    requires
        batches.len() > 0,
        forall|i: int| 0 <= i < batches.len() ==> (#[trigger] batches[i]).len() > 0,
        forall|i: int| 0 <= i < batches.len() - 1 ==> date_lt(last_start_date(#[trigger] batches[i]), end_date),
        !date_lt(last_start_date(batches.last()), end_date),
    ensures
        run_batches(initial_state(start_date, end_date), batches).finished,
        run_batches(initial_state(start_date, end_date), batches).events == concat_batches(batches),
{
    lemma_run_gathers(initial_state(start_date, end_date), batches);
    assert(Seq::<CalendarEvent>::empty() + concat_batches(batches) =~= concat_batches(batches));
}

/// An empty first batch ends the retrieval at once with no events, so the
/// result is empty.
pub proof fn lemma_empty_first_batch(start_date: Date, end_date: Date)
    ensures
        step_spec(initial_state(start_date, end_date), Seq::empty()).finished,
        step_spec(initial_state(start_date, end_date), Seq::empty()).events.len() == 0,
        dedup_by_id(step_spec(initial_state(start_date, end_date), Seq::empty()).events).len() == 0,
{
}

} // verus!

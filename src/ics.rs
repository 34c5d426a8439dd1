//! ICS feeds: the event components a feed holds, and the meetings each event
//! yields for today and tomorrow.

use crate::datetime::{
    day_in_range, day_of, ical_instant, instant_in_range, parse_ical_datetime,
};
use crate::meeting::{all_in_range, opt_view, views, Meeting, MeetingView};
use crate::recurrence::{expand_recurring_event, expansion, stamped};
use crate::schedule::{sort_by_start, sort_meetings, sorted_by_start};
use crate::text::same_text;
use vstd::prelude::*;

verus! {

/// One `NAME:value` line of a calendar component (parameters are not kept).
pub struct IcsProperty {
    pub name: String,
    pub value: Option<String>,
}

/// The properties of one `VEVENT` component, in feed order.
pub struct IcsEvent {
    pub properties: Vec<IcsProperty>,
}

impl View for IcsProperty {
    type V = (Seq<char>, Option<Seq<char>>);

    open spec fn view(&self) -> (Seq<char>, Option<Seq<char>>) {
        (self.name@, opt_view(self.value))
    }
}

impl View for IcsEvent {
    type V = Seq<(Seq<char>, Option<Seq<char>>)>;

    open spec fn view(&self) -> Seq<(Seq<char>, Option<Seq<char>>)> {
        self.properties@.map_values(|p: IcsProperty| p@)
    }
}

/// What the `ical` crate reads from a feed text: for each `VCALENDAR` in turn, its
/// events (each a list of property names and values), or nothing when that
/// calendar did not parse.
pub uninterp spec fn ics_calendars(text: Seq<char>) -> Seq<Option<Seq<Seq<(Seq<char>, Option<Seq<char>>)>>>>;

pub open spec fn calendars_view(c: Seq<Option<Vec<IcsEvent>>>) -> Seq<Option<Seq<Seq<(Seq<char>, Option<Seq<char>>)>>>> {
    c.map_values(
        |o: Option<Vec<IcsEvent>>|
            match o {
                Some(v) => Some(v@.map_values(|e: IcsEvent| e@)),
                None => None,
            },
    )
}

/// Relies on `ical::IcalParser` iterated over the feed bytes: one item per
/// calendar, each the events parsed or an error; its items depend on the text alone.
#[verifier::external_body]
fn read_ics_calendars(text: &str) -> (r: Vec<Option<Vec<IcsEvent>>>)
    ensures
        calendars_view(r@) == ics_calendars(text@),
{
    ical::IcalParser::new(text.as_bytes())
        .map(|c| c.ok().map(|c| c.events.into_iter().map(|e| IcsEvent {
            properties: e.properties.into_iter().map(|p| IcsProperty { name: p.name, value: p.value }).collect(),
        }).collect()))
        .collect()
}

/// The properties of an event that matter, as gathered in one pass (a later
/// occurrence of a property replaces an earlier one).
pub struct EventFields {
    pub title: Seq<char>,
    pub start: Option<int>,
    pub end: Option<int>,
    pub rrule: Option<Seq<char>>,
    pub description: Option<Seq<char>>,
    pub location: Option<Seq<char>>,
}

pub open spec fn no_fields() -> EventFields {
    EventFields {
        title: "Untitled Event"@,
        start: None,
        end: None,
        rrule: None,
        description: None,
        location: None,
    }
}

pub open spec fn with_property(f: EventFields, p: (Seq<char>, Option<Seq<char>>)) -> EventFields {
    match p.1 {
        None => f,
        Some(v) => if p.0 == "SUMMARY"@ {
            EventFields { title: v, ..f }
        } else if p.0 == "DTSTART"@ {
            EventFields { start: ical_instant(v), ..f }
        } else if p.0 == "DTEND"@ {
            EventFields { end: ical_instant(v), ..f }
        } else if p.0 == "RRULE"@ {
            EventFields { rrule: Some(v), ..f }
        } else if p.0 == "DESCRIPTION"@ {
            EventFields { description: Some(v), ..f }
        } else if p.0 == "LOCATION"@ {
            EventFields { location: Some(v), ..f }
        } else {
            f
        },
    }
}

pub open spec fn event_fields(props: Seq<(Seq<char>, Option<Seq<char>>)>) -> EventFields
    decreases props.len(),
{
    if props.len() == 0 {
        no_fields()
    } else {
        with_property(event_fields(props.drop_last()), props.last())
    }
}

/// The meetings an event yields: none without both a start and an end; the
/// occurrences of today and tomorrow for a recurring one; else the event itself.
pub open spec fn event_meetings(props: Seq<(Seq<char>, Option<Seq<char>>)>, today: int) -> Seq<MeetingView> {
    let f = event_fields(props);
    match (f.start, f.end) {
        (Some(s), Some(e)) => match f.rrule {
            Some(r) => stamped(expansion(s, e, r, today), f.title, f.description, f.location),
            None => seq![
                MeetingView {
                    title: f.title,
                    start_time: s,
                    end_time: e,
                    description: f.description,
                    location: f.location,
                    attendees: Seq::empty(),
                    response_status: None,
                },
            ],
        },
        _ => Seq::empty(),
    }
}

/// The meetings one event yields for `today` and the day after.
pub fn convert_ical_event_to_meeting(event: &IcsEvent, today: i64) -> (r: Vec<Meeting>)
    requires
        day_in_range(today as int),
    ensures
        views(r@) == event_meetings(event@, today as int),
        all_in_range(views(r@)),
{
    proof {
        reveal_strlit("Untitled Event");
        reveal_strlit("SUMMARY");
        reveal_strlit("DTSTART");
        reveal_strlit("DTEND");
        reveal_strlit("RRULE");
        reveal_strlit("DESCRIPTION");
        reveal_strlit("LOCATION");
    }
    let mut title = "Untitled Event".to_owned();
    let mut start_time: Option<i64> = None;
    let mut end_time: Option<i64> = None;
    let mut rrule: Option<String> = None;
    let mut description: Option<String> = None;
    let mut location: Option<String> = None;
    let mut i: usize = 0;
    while i < event.properties.len()
        invariant
            i <= event@.len(),
            event@.len() == event.properties@.len(),
            ({
                let f = event_fields(event@.subrange(0, i as int));
                &&& title@ == f.title
                &&& (match start_time {
                    Some(t) => f.start == Some(t as int),
                    None => f.start is None,
                })
                &&& (match end_time {
                    Some(t) => f.end == Some(t as int),
                    None => f.end is None,
                })
                &&& opt_view(rrule) == f.rrule
                &&& opt_view(description) == f.description
                &&& opt_view(location) == f.location
            }),
            start_time matches Some(t) ==> instant_in_range(t as int),
            end_time matches Some(t) ==> instant_in_range(t as int),
        decreases event@.len() - i,
    {
        let property = &event.properties[i];
        assert(event@.subrange(0, i + 1).drop_last() =~= event@.subrange(0, i as int));
        assert(event@.subrange(0, i + 1).last() == property@);
        if let Some(value) = &property.value {
            let name = property.name.as_str();
            if same_text(name, "SUMMARY") {
                title = value.clone();
            } else if same_text(name, "DTSTART") {
                start_time = parse_ical_datetime(value.as_str());
            } else if same_text(name, "DTEND") {
                end_time = parse_ical_datetime(value.as_str());
            } else if same_text(name, "RRULE") {
                rrule = Some(value.clone());
            } else if same_text(name, "DESCRIPTION") {
                description = Some(value.clone());
            } else if same_text(name, "LOCATION") {
                location = Some(value.clone());
            }
        }
        i = i + 1;
    }
    assert(event@.subrange(0, event@.len() as int) =~= event@);
    match (start_time, end_time) {
        (Some(start), Some(end)) => {
            match &rrule {
                Some(rule) => expand_recurring_event(
                    title,
                    start,
                    end,
                    rule.as_str(),
                    description,
                    location,
                    today,
                ),
                None => {
                    let mut meeting = Meeting::new(title, start, end);
                    if let Some(desc) = description {
                        meeting = meeting.with_description(desc);
                    }
                    if let Some(loc) = location {
                        meeting = meeting.with_location(loc);
                    }
                    let mut out: Vec<Meeting> = Vec::new();
                    out.push(meeting);
                    assert(views(out@) =~= event_meetings(event@, today as int));
                    assert(views(out@)[0] == out@[0]@);
                    out
                },
            }
        },
        _ => {
            let out: Vec<Meeting> = Vec::new();
            assert(views(out@) =~= event_meetings(event@, today as int));
            out
        },
    }
}

/// The meeting starts on `today` or on the day after.
pub open spec fn in_window(m: MeetingView, today: int) -> bool {
    day_of(m.start_time) == today || day_of(m.start_time) == today + 1
}

/// The meetings of `ms` that start today or tomorrow, in order.
pub open spec fn window(ms: Seq<MeetingView>, today: int) -> Seq<MeetingView>
    decreases ms.len(),
{
    if ms.len() == 0 {
        Seq::empty()
    } else {
        window(ms.drop_last(), today) + if in_window(ms.last(), today) {
            seq![ms.last()]
        } else {
            Seq::empty()
        }
    }
}

/// The meetings for today and tomorrow of the events of one calendar, in order.
pub open spec fn calendar_meetings(events: Seq<Seq<(Seq<char>, Option<Seq<char>>)>>, today: int) -> Seq<MeetingView>
    decreases events.len(),
{
    if events.len() == 0 {
        Seq::empty()
    } else {
        calendar_meetings(events.drop_last(), today) + window(
            event_meetings(events.last(), today),
            today,
        )
    }
}

/// The meetings for today and tomorrow of every calendar that parsed, in feed order.
pub open spec fn feed_meetings(calendars: Seq<Option<Seq<Seq<(Seq<char>, Option<Seq<char>>)>>>>, today: int) -> Seq<MeetingView>
    decreases calendars.len(),
{
    if calendars.len() == 0 {
        Seq::empty()
    } else {
        feed_meetings(calendars.drop_last(), today) + match calendars.last() {
            Some(events) => calendar_meetings(events, today),
            None => Seq::empty(),
        }
    }
}

/// Appends to `out` the meetings of `ms` that start today or tomorrow.
fn append_window(out: &mut Vec<Meeting>, ms: &Vec<Meeting>, today: i64)
    requires
        day_in_range(today as int),
        all_in_range(views(old(out)@)),
        all_in_range(views(ms@)),
    ensures
        views(final(out)@) == views(old(out)@) + window(views(ms@), today as int),
        all_in_range(views(final(out)@)),
{
    let mut i: usize = 0;
    while i < ms.len()
        invariant
            day_in_range(today as int),
            i <= ms@.len(),
            views(out@) == views(old(out)@) + window(views(ms@.subrange(0, i as int)), today as int),
            all_in_range(views(out@)),
            all_in_range(views(ms@)),
        decreases ms@.len() - i,
    {
        let m = &ms[i];
        assert(views(ms@.subrange(0, i + 1)).drop_last() =~= views(ms@.subrange(0, i as int)));
        assert(views(ms@.subrange(0, i + 1)).last() == m@);
        let d = crate::datetime::date_of(m.start_time);
        if d == today || d - 1 == today {
            let ghost before = out@;
            out.push(m.clone());
            assert(views(out@) =~= views(before).push(m@));
            assert(views(ms@)[i as int] == m@);
        }
        i = i + 1;
        assert(views(out@) =~= views(old(out)@) + window(views(ms@.subrange(0, i as int)), today as int));
    }
    assert(ms@.subrange(0, ms@.len() as int) =~= ms@);
}

/// The meetings of an ICS feed text that start today or tomorrow, sorted by
/// start (meetings that start together keep their feed order). A calendar that
/// does not parse contributes nothing; so does an event without a readable start
/// and end.
pub fn parse_ics_content(content: &str, today: i64) -> (r: Vec<Meeting>)
    requires
        day_in_range(today as int),
    ensures
        views(r@) == sort_by_start(feed_meetings(ics_calendars(content@), today as int)),
        sorted_by_start(views(r@)),
        views(r@).to_multiset() == feed_meetings(ics_calendars(content@), today as int).to_multiset(),
        all_in_range(views(r@)),
{
    let calendars = read_ics_calendars(content);
    let ghost cv = calendars_view(calendars@);
    let mut out: Vec<Meeting> = Vec::new();
    let mut i: usize = 0;
    while i < calendars.len()
        invariant
            day_in_range(today as int),
            cv == calendars_view(calendars@),
            i <= calendars@.len(),
            views(out@) == feed_meetings(cv.subrange(0, i as int), today as int),
            all_in_range(views(out@)),
        decreases calendars@.len() - i,
    {
        assert(cv.subrange(0, i + 1).drop_last() =~= cv.subrange(0, i as int));
        assert(cv.subrange(0, i + 1).last() == cv[i as int]);
        match &calendars[i] {
            Some(events) => {
                let ghost ev = events@.map_values(|e: IcsEvent| e@);
                assert(cv[i as int] == Some(ev));
                let ghost base = views(out@);
                let mut k: usize = 0;
                while k < events.len()
                    invariant
                        day_in_range(today as int),
                        ev == events@.map_values(|e: IcsEvent| e@),
                        k <= events@.len(),
                        views(out@) == base + calendar_meetings(ev.subrange(0, k as int), today as int),
                        all_in_range(views(out@)),
                    decreases events@.len() - k,
                {
                    assert(ev.subrange(0, k + 1).drop_last() =~= ev.subrange(0, k as int));
                    assert(ev.subrange(0, k + 1).last() == events[k as int]@);
                    let ms = convert_ical_event_to_meeting(&events[k], today);
                    append_window(&mut out, &ms, today);
                    k = k + 1;
                    assert(views(out@) =~= base + calendar_meetings(ev.subrange(0, k as int), today as int));
                }
                assert(ev.subrange(0, ev.len() as int) =~= ev);
            },
            None => {
                assert(feed_meetings(cv.subrange(0, i + 1), today as int) =~= feed_meetings(cv.subrange(0, i as int), today as int));
            },
        }
        i = i + 1;
    }
    assert(cv.subrange(0, cv.len() as int) =~= cv);
    sort_meetings(out)
}

} // verus!

//! Events of the external calendar API: their wire shape, their conversion
//! into meetings, and the request URL for today and tomorrow.

use crate::datetime::{
    format_instant, instant_in_range, instant_text, CHRONO_MAX_SECONDS, ISO_UTC_PATTERN,
    PRINTABLE_MAX_SECONDS,
};
use crate::meeting::{opt_view, views, Meeting, MeetingView};
use crate::text::is_ascii_text;
use vstd::prelude::*;
use vstd::string::*;

verus! {

/// The OAuth client registered with the external calendar.
#[derive(Debug, Clone)]
pub struct GoogleOAuthConfig {
    pub client_id: String,
    pub client_secret: String,
    pub redirect_uri: String,
}

/// Tokens of an authorised session; `expires_at` is an instant in seconds.
#[derive(Debug, Clone)]
pub struct GoogleTokens {
    pub access_token: String,
    pub refresh_token: Option<String>,
    pub expires_at: Option<i64>,
}

/// A start or end as the API gives it: an RFC 3339 `dateTime` for timed events,
/// a `date` for all-day ones.
#[derive(Debug, Clone)]
pub struct GoogleEventTime {
    pub date_time: Option<String>,
    pub date: Option<String>,
    pub time_zone: Option<String>,
}

#[derive(Debug, Clone)]
pub struct GoogleCalendarEvent {
    pub id: String,
    pub summary: Option<String>,
    pub start: Option<GoogleEventTime>,
    pub end: Option<GoogleEventTime>,
    pub description: Option<String>,
    pub location: Option<String>,
}

#[derive(Debug, Clone)]
pub struct GoogleCalendarResponse {
    pub items: Option<Vec<GoogleCalendarEvent>>,
}

#[derive(Debug, Clone, Copy, PartialEq, Eq, Structural)]
pub enum GoogleEventError {
    /// A timed event whose start is no RFC 3339 timestamp.
    InvalidStartTime,
    /// A timed event whose end is no RFC 3339 timestamp.
    InvalidEndTime,
}

/// The instant `chrono::DateTime::parse_from_rfc3339` reads from a text.
pub uninterp spec fn rfc3339_seconds(text: Seq<char>) -> Option<i64>;

/// Relies on `chrono::DateTime::parse_from_rfc3339` (then `timestamp()`): its
/// result depends on the text alone and lies within the range chrono supports.
#[verifier::external_body]
fn instant_from_rfc3339(text: &str) -> (r: Option<i64>)
    ensures
        r == rfc3339_seconds(text@),
        r matches Some(t) ==> -CHRONO_MAX_SECONDS <= t <= CHRONO_MAX_SECONDS,
{
    match chrono::DateTime::parse_from_rfc3339(text) {
        Ok(d) => Some(d.timestamp()),
        Err(_) => None,
    }
}

/// The meeting an API event gives: none for an event without timed start and
/// end; an error when a timed start or end does not parse.
pub open spec fn converted_event(e: GoogleCalendarEvent) -> Result<Option<MeetingView>, GoogleEventError> {
    match (e.start, e.end) {
        (Some(s), Some(n)) => match (s.date_time, n.date_time) {
            (Some(sd), Some(nd)) => match rfc3339_seconds(sd@) {
                None => Err(GoogleEventError::InvalidStartTime),
                Some(st) => match rfc3339_seconds(nd@) {
                    None => Err(GoogleEventError::InvalidEndTime),
                    Some(et) => Ok(
                        Some(
                            MeetingView {
                                title: match e.summary {
                                    Some(t) => t@,
                                    None => "Untitled Event"@,
                                },
                                start_time: st as int,
                                end_time: et as int,
                                description: opt_view(e.description),
                                location: opt_view(e.location),
                                attendees: Seq::empty(),
                                response_status: None,
                            },
                        ),
                    ),
                },
            },
            _ => Ok(None),
        },
        _ => Ok(None),
    }
}

/// The meetings of a list of API events, in order; the first error stops the list.
pub open spec fn converted_events(es: Seq<GoogleCalendarEvent>) -> Result<Seq<MeetingView>, GoogleEventError>
    decreases es.len(),
{
    if es.len() == 0 {
        Ok(Seq::empty())
    } else {
        match converted_events(es.drop_last()) {
            Err(e) => Err(e),
            Ok(ms) => match converted_event(es.last()) {
                Err(e) => Err(e),
                Ok(Some(m)) => Ok(ms.push(m)),
                Ok(None) => Ok(ms),
            },
        }
    }
}

/// Converts one API event into a meeting.
pub fn convert_single_event_to_meeting(event: &GoogleCalendarEvent) -> (r: Result<Option<Meeting>, GoogleEventError>)
    ensures
        match r {
            Ok(Some(m)) => converted_event(*event) == Ok::<Option<MeetingView>, GoogleEventError>(Some(m@)) && instant_in_range(m.start_time as int) && instant_in_range(m.end_time as int),
            Ok(None) => converted_event(*event) == Ok::<Option<MeetingView>, GoogleEventError>(None),
            Err(e) => converted_event(*event) == Err::<Option<MeetingView>, GoogleEventError>(e),
        },
{
    proof {
        reveal_strlit("Untitled Event");
    }
    let (start_text, end_text) = match (&event.start, &event.end) {
        (Some(start), Some(end)) => match (&start.date_time, &end.date_time) {
            (Some(s), Some(e)) => (s, e),
            _ => {
                return Ok(None);
            },
        },
        _ => {
            return Ok(None);
        },
    };
    let start_time = match instant_from_rfc3339(start_text.as_str()) {
        Some(t) => t,
        None => {
            return Err(GoogleEventError::InvalidStartTime);
        },
    };
    let end_time = match instant_from_rfc3339(end_text.as_str()) {
        Some(t) => t,
        None => {
            return Err(GoogleEventError::InvalidEndTime);
        },
    };
    let title = match &event.summary {
        Some(t) => t.clone(),
        None => "Untitled Event".to_owned(),
    };
    let mut meeting = Meeting::new(title, start_time, end_time);
    if let Some(description) = &event.description {
        meeting = meeting.with_description(description.clone());
    }
    if let Some(location) = &event.location {
        meeting = meeting.with_location(location.clone());
    }
    Ok(Some(meeting))
}

/// Converts the events of an API response into meetings, in order.
pub fn convert_google_events_to_meetings(response: &GoogleCalendarResponse) -> (r: Result<Vec<Meeting>, GoogleEventError>)
    ensures
        match r {
            Ok(v) => converted_events(match response.items {
                Some(items) => items@,
                None => Seq::empty(),
            }) == Ok::<Seq<MeetingView>, GoogleEventError>(views(v@)) && crate::meeting::all_in_range(views(v@)),
            Err(e) => converted_events(match response.items {
                Some(items) => items@,
                None => Seq::empty(),
            }) == Err::<Seq<MeetingView>, GoogleEventError>(e),
        },
{
    let mut meetings: Vec<Meeting> = Vec::new();
    match &response.items {
        Some(events) => {
            let mut i: usize = 0;
            assert(events@.subrange(0, 0) =~= Seq::<GoogleCalendarEvent>::empty());
            assert(views(meetings@) =~= Seq::<MeetingView>::empty());
            while i < events.len()
                invariant
                    response.items == Some(*events),
                    i <= events@.len(),
                    converted_events(events@.subrange(0, i as int)) == Ok::<Seq<MeetingView>, GoogleEventError>(views(meetings@)),
                    crate::meeting::all_in_range(views(meetings@)),
                decreases events@.len() - i,
            {
                assert(events@.subrange(0, i + 1).drop_last() =~= events@.subrange(0, i as int));
                assert(events@.subrange(0, i + 1).last() == events@[i as int]);
                match convert_single_event_to_meeting(&events[i]) {
                    Ok(Some(m)) => {
                        let ghost before = views(meetings@);
                        let ghost mv = m@;
                        meetings.push(m);
                        assert(views(meetings@) =~= before.push(mv));
                        assert(views(meetings@)[views(meetings@).len() - 1] == mv);
                    },
                    Ok(None) => {},
                    Err(e) => {
                        assert(converted_events(events@.subrange(0, i + 1)) == Err::<Seq<MeetingView>, GoogleEventError>(e));
                        proof {
                            lemma_converted_events_error_stays(events@, i as int + 1);
                        }
                        assert(converted_events(events@) == Err::<Seq<MeetingView>, GoogleEventError>(e));
                        assert(response.items == Some(*events));
                        return Err(e);
                    },
                }
                i = i + 1;
            }
            assert(events@.subrange(0, events@.len() as int) =~= events@);
            Ok(meetings)
        },
        None => {
            assert(views(meetings@) =~= Seq::<MeetingView>::empty());
            Ok(meetings)
        },
    }
}

/// Once a prefix of the events fails to convert, the whole list fails the same way.
proof fn lemma_converted_events_error_stays(es: Seq<GoogleCalendarEvent>, k: int)
    requires
        0 <= k <= es.len(),
        converted_events(es.subrange(0, k)) is Err,
    ensures
        converted_events(es) == converted_events(es.subrange(0, k)),
    decreases es.len() - k,
{
    if k < es.len() {
        assert(es.subrange(0, k + 1).drop_last() =~= es.subrange(0, k));
        lemma_converted_events_error_stays(es, k + 1);
    } else {
        assert(es.subrange(0, k) =~= es);
    }
}

/// A character `urlencoding::encode` leaves as it is.
pub open spec fn url_safe(c: char) -> bool {
    ('0' <= c <= '9') || ('A' <= c <= 'Z') || ('a' <= c <= 'z') || c == '-' || c == '.' || c == '_'
        || c == '~'
}

pub open spec fn hex_digit(d: int) -> char {
    seq!['0', '1', '2', '3', '4', '5', '6', '7', '8', '9', 'A', 'B', 'C', 'D', 'E', 'F'][d]
}

/// Percent-encoding of an ASCII text: safe characters stay, every other one
/// becomes `%` and two upper-case hex digits.
pub open spec fn percent_encoded(s: Seq<char>) -> Seq<char>
    decreases s.len(),
{
    if s.len() == 0 {
        Seq::empty()
    } else {
        percent_encoded(s.drop_last()) + if url_safe(s.last()) {
            seq![s.last()]
        } else {
            seq!['%', hex_digit((s.last() as u32) as int / 16), hex_digit((s.last() as u32) as int % 16)]
        }
    }
}

/// Relies on `urlencoding::encode`: each byte other than ASCII letters, digits
/// and `-._~` becomes `%XX` with upper-case hex digits.
#[verifier::external_body]
fn url_encode(text: &str) -> (r: String)
    ensures
        is_ascii_text(text@) ==> r@ == percent_encoded(text@),
{
    urlencoding::encode(text).into_owned()
}

/// The request for the primary calendar's events from `now` to a day later.
pub open spec fn events_url(now: i64) -> Seq<char> {
    "https://www.googleapis.com/calendar/v3/calendars/primary/events?timeMin="@ + percent_encoded(
        instant_text(now, ISO_UTC_PATTERN@),
    ) + "&timeMax="@ + percent_encoded(instant_text((now + 86400) as i64, ISO_UTC_PATTERN@))
        + "&singleEvents=true&orderBy=startTime&maxResults=50"@
}

/// The events request for the day that starts at `now`.
pub fn calendar_events_url(now: i64) -> (r: String)
    requires
        -PRINTABLE_MAX_SECONDS <= now <= PRINTABLE_MAX_SECONDS - 86400,
    ensures
        r@ == events_url(now),
{
    let time_min = format_instant(now, ISO_UTC_PATTERN);
    let time_max = format_instant(now + 86400, ISO_UTC_PATTERN);
    let mut url = "https://www.googleapis.com/calendar/v3/calendars/primary/events?timeMin=".to_owned();
    url.append(url_encode(time_min.as_str()).as_str());
    url.append("&timeMax=");
    url.append(url_encode(time_max.as_str()).as_str());
    url.append("&singleEvents=true&orderBy=startTime&maxResults=50");
    url
}

} // verus!

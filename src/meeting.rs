//! The canonical meeting record and its per-instant status.

use crate::datetime::{
    current_timestamp, format_instant, instant_in_range, instant_text, second_of_day, time_of_day,
    ISO_DATE_PATTERN, PRINTABLE_MAX_SECONDS,
};
use crate::text::{append_two_digits, chars_of, substring, two_digit_text};
use vstd::string::*;
use vstd::prelude::*;

verus! {

#[derive(Clone, Copy, Debug, PartialEq, Eq, Structural)]
pub enum ResponseStatus {
    Accepted,
    Declined,
    Tentative,
    NoResponse,
}

#[derive(Clone, Copy, Debug, PartialEq, Eq, Structural)]
pub enum MeetingStatus {
    Upcoming,
    InProgress,
    Ended,
}

/// One calendar entry. Times are UTC instants in whole seconds since the epoch.
#[derive(Debug)]
pub struct Meeting {
    pub title: String,
    pub start_time: i64,
    pub end_time: i64,
    pub description: Option<String>,
    pub location: Option<String>,
    pub attendees: Vec<String>,
    pub response_status: Option<ResponseStatus>,
}

/// The mathematical content of a [`Meeting`].
pub struct MeetingView {
    pub title: Seq<char>,
    pub start_time: int,
    pub end_time: int,
    pub description: Option<Seq<char>>,
    pub location: Option<Seq<char>>,
    pub attendees: Seq<Seq<char>>,
    pub response_status: Option<ResponseStatus>,
}

pub open spec fn opt_view(o: Option<String>) -> Option<Seq<char>> {
    match o {
        Some(s) => Some(s@),
        None => None,
    }
}

impl View for Meeting {
    type V = MeetingView;

    open spec fn view(&self) -> MeetingView {
        MeetingView {
            title: self.title@,
            start_time: self.start_time as int,
            end_time: self.end_time as int,
            description: opt_view(self.description),
            location: opt_view(self.location),
            attendees: self.attendees@.map_values(|a: String| a@),
            response_status: self.response_status,
        }
    }
}

/// The views of a list of meetings.
pub open spec fn views(s: Seq<Meeting>) -> Seq<MeetingView> {
    s.map_values(|m: Meeting| m@)
}

fn clone_opt_string(o: &Option<String>) -> (r: Option<String>)
    ensures
        opt_view(r) == opt_view(*o),
{
    match o {
        Some(s) => Some(s.clone()),
        None => None,
    }
}

impl Clone for Meeting {
    fn clone(&self) -> (r: Self)
        ensures
            r@ == self@,
    {
        let mut attendees: Vec<String> = Vec::new();
        let mut i: usize = 0;
        while i < self.attendees.len()
            invariant
                i <= self.attendees@.len(),
                attendees@.len() == i,
                forall|j: int| 0 <= j < i ==> attendees@[j]@ == self.attendees@[j]@,
            decreases self.attendees@.len() - i,
        {
            attendees.push(self.attendees[i].clone());
            i = i + 1;
        }
        assert(attendees@.map_values(|a: String| a@) =~= self.attendees@.map_values(
            |a: String| a@,
        ));
        Meeting {
            title: self.title.clone(),
            start_time: self.start_time,
            end_time: self.end_time,
            description: clone_opt_string(&self.description),
            location: clone_opt_string(&self.location),
            attendees,
            response_status: self.response_status,
        }
    }
}

/// Every start and end in `s` lies in range.
pub open spec fn all_in_range(s: Seq<MeetingView>) -> bool {
    forall|i: int| 0 <= i < s.len() ==> instant_in_range(#[trigger] s[i].start_time) && instant_in_range(s[i].end_time)
}

/// The status of a meeting running from `start` to `end` at instant `now`;
/// both ends of the running interval are inclusive.
pub open spec fn status_spec(start: int, end: int, now: int) -> MeetingStatus {
    if now < start {
        MeetingStatus::Upcoming
    } else if now <= end {
        MeetingStatus::InProgress
    } else {
        MeetingStatus::Ended
    }
}

/// At every instant a meeting is in exactly one of its three states, and it is
/// in progress exactly from its start through its end.
pub proof fn lemma_status_exclusive(start: int, end: int, now: int)
    ensures
        (status_spec(start, end, now) == MeetingStatus::Upcoming) as int + (status_spec(start, end, now)
            == MeetingStatus::InProgress) as int + (status_spec(start, end, now) == MeetingStatus::Ended) as int == 1,
        (status_spec(start, end, now) == MeetingStatus::InProgress) <==> (start <= now <= end),
        (status_spec(start, end, now) == MeetingStatus::Upcoming) <==> now < start,
{
}

/// The display label for a response status: none for an accepted or absent one.
pub open spec fn status_label(s: Option<ResponseStatus>) -> Option<Seq<char>> {
    match s {
        Some(ResponseStatus::NoResponse) => Some("Not Responded"@),
        Some(ResponseStatus::Tentative) => Some("Tentative"@),
        Some(ResponseStatus::Declined) => Some("Declined"@),
        _ => None,
    }
}

/// A title wrapped in `[` and `]` marks a time block rather than a meeting.
pub open spec fn is_time_block_title(t: Seq<char>) -> bool {
    t.len() > 0 && t[0] == '[' && t[t.len() - 1] == ']'
}

/// `HH:MM` of the wall-clock time at instant `t` (UTC).
pub open spec fn clock_text(t: int) -> Seq<char> {
    two_digit_text((second_of_day(t) / 3600) as nat) + seq![':'] + two_digit_text(
        ((second_of_day(t) % 3600) / 60) as nat,
    )
}

/// Countdown text for `s` seconds: `MM:SS` below an hour, `HH:MM:SS` from an hour on,
/// `00:00` when nothing is left.
pub open spec fn countdown_text(s: int) -> Seq<char> {
    if s <= 0 {
        "00:00"@
    } else if s / 60 >= 60 {
        two_digit_text((s / 3600) as nat) + seq![':'] + two_digit_text(((s / 60) % 60) as nat)
            + seq![':'] + two_digit_text((s % 60) as nat)
    } else {
        two_digit_text((s / 60) as nat) + seq![':'] + two_digit_text((s % 60) as nat)
    }
}

/// Seconds counted down at instant `now`: to the end while running, to the start
/// while upcoming, none once ended.
pub open spec fn remaining_seconds(m: MeetingView, now: int) -> int {
    match status_spec(m.start_time, m.end_time, now) {
        MeetingStatus::InProgress => m.end_time - now,
        MeetingStatus::Upcoming => m.start_time - now,
        MeetingStatus::Ended => 0,
    }
}

impl Meeting {
    pub fn new(title: String, start_time: i64, end_time: i64) -> (r: Meeting)
        ensures
            r@ == (MeetingView {
                title: title@,
                start_time: start_time as int,
                end_time: end_time as int,
                description: None,
                location: None,
                attendees: Seq::empty(),
                response_status: None,
            }),
    {
        let r = Meeting {
            title,
            start_time,
            end_time,
            description: None,
            location: None,
            attendees: Vec::new(),
            response_status: None,
        };
        assert(r.attendees@.map_values(|a: String| a@) =~= Seq::<Seq<char>>::empty());
        r
    }

    pub fn with_description(self, description: String) -> (r: Meeting)
        ensures
            r@ == (MeetingView { description: Some(description@), ..self@ }),
    {
        Meeting { description: Some(description), ..self }
    }

    pub fn with_location(self, location: String) -> (r: Meeting)
        ensures
            r@ == (MeetingView { location: Some(location@), ..self@ }),
    {
        Meeting { location: Some(location), ..self }
    }

    pub fn with_response_status(self, response_status: ResponseStatus) -> (r: Meeting)
        ensures
            r@ == (MeetingView { response_status: Some(response_status), ..self@ }),
    {
        Meeting { response_status: Some(response_status), ..self }
    }

    pub fn with_attendees(self, attendees: Vec<String>) -> (r: Meeting)
        ensures
            r@ == (MeetingView { attendees: attendees@.map_values(|a: String| a@), ..self@ }),
    {
        Meeting { attendees, ..self }
    }

    /// Declined meetings are hidden; every other one is shown.
    pub fn should_display(&self) -> (r: bool)
        ensures
            r == (self.response_status != Some(ResponseStatus::Declined)),
    {
        match self.response_status {
            Some(ResponseStatus::Declined) => false,
            _ => true,
        }
    }

    pub fn response_status_label(&self) -> (r: Option<String>)
        ensures
            opt_view(r) == status_label(self.response_status),
    {
        proof {
            reveal_strlit("Not Responded");
            reveal_strlit("Tentative");
            reveal_strlit("Declined");
        }
        match self.response_status {
            Some(ResponseStatus::NoResponse) => Some("Not Responded".to_owned()),
            Some(ResponseStatus::Tentative) => Some("Tentative".to_owned()),
            Some(ResponseStatus::Accepted) => None,
            Some(ResponseStatus::Declined) => Some("Declined".to_owned()),
            None => None,
        }
    }

    /// The status of this meeting at instant `now`.
    pub fn status_at(&self, now: i64) -> (r: MeetingStatus)
        ensures
            r == status_spec(self.start_time as int, self.end_time as int, now as int),
    {
        if now < self.start_time {
            MeetingStatus::Upcoming
        } else if now >= self.start_time && now <= self.end_time {
            MeetingStatus::InProgress
        } else {
            MeetingStatus::Ended
        }
    }

    /// The status of this meeting at the present instant.
    pub fn status(&self) -> (r: MeetingStatus)
        ensures
            exists|now: int| r == status_spec(self.start_time as int, self.end_time as int, now),
    {
        self.status_at(current_timestamp())
    }

    pub fn is_active_at(&self, now: i64) -> (r: bool)
        ensures
            r == (status_spec(self.start_time as int, self.end_time as int, now as int)
                == MeetingStatus::InProgress),
    {
        self.status_at(now) == MeetingStatus::InProgress
    }

    pub fn is_upcoming_at(&self, now: i64) -> (r: bool)
        ensures
            r == (status_spec(self.start_time as int, self.end_time as int, now as int)
                == MeetingStatus::Upcoming),
    {
        self.status_at(now) == MeetingStatus::Upcoming
    }

    pub fn has_ended_at(&self, now: i64) -> (r: bool)
        ensures
            r == (status_spec(self.start_time as int, self.end_time as int, now as int)
                == MeetingStatus::Ended),
    {
        self.status_at(now) == MeetingStatus::Ended
    }

    /// Whether the meeting is running now.
    pub fn is_active(&self) -> (r: bool)
        ensures
            exists|now: int| r == (status_spec(self.start_time as int, self.end_time as int, now) == MeetingStatus::InProgress),
    {
        self.is_active_at(current_timestamp())
    }

    /// Whether the meeting is still to start.
    pub fn is_upcoming(&self) -> (r: bool)
        ensures
            exists|now: int| r == (status_spec(self.start_time as int, self.end_time as int, now) == MeetingStatus::Upcoming),
    {
        self.is_upcoming_at(current_timestamp())
    }

    /// Whether the meeting is over.
    pub fn has_ended(&self) -> (r: bool)
        ensures
            exists|now: int| r == (status_spec(self.start_time as int, self.end_time as int, now) == MeetingStatus::Ended),
    {
        self.has_ended_at(current_timestamp())
    }

    /// Seconds from `now` until the start (negative once started).
    pub fn time_until_start_at(&self, now: i64) -> (r: i64)
        requires
            instant_in_range(self.start_time as int),
            instant_in_range(now as int),
        ensures
            r == self.start_time - now,
    {
        self.start_time - now
    }

    /// Seconds from `now` until the end (negative once ended).
    pub fn time_until_end_at(&self, now: i64) -> (r: i64)
        requires
            instant_in_range(self.end_time as int),
            instant_in_range(now as int),
        ensures
            r == self.end_time - now,
    {
        self.end_time - now
    }

    /// Seconds from the present until the start.
    pub fn time_until_start(&self) -> (r: i64)
        requires
            instant_in_range(self.start_time as int),
        ensures
            exists|now: int| instant_in_range(now) && r == self.start_time - now,
    {
        self.time_until_start_at(current_timestamp())
    }

    /// Seconds from the present until the end.
    pub fn time_until_end(&self) -> (r: i64)
        requires
            instant_in_range(self.end_time as int),
        ensures
            exists|now: int| instant_in_range(now) && r == self.end_time - now,
    {
        self.time_until_end_at(current_timestamp())
    }

    /// Whole minutes from start to end, truncated toward zero.
    pub fn duration_minutes(&self) -> (r: i64)
        requires
            instant_in_range(self.start_time as int),
            instant_in_range(self.end_time as int),
        ensures
            self.end_time >= self.start_time ==> r == (self.end_time - self.start_time) / 60,
            self.end_time < self.start_time ==> r == -((self.start_time - self.end_time) / 60),
    {
        let d = self.end_time - self.start_time;
        if d >= 0 {
            d / 60
        } else {
            -((-d) / 60)
        }
    }

    /// The countdown shown for this meeting at instant `now`.
    pub fn format_time_remaining_at(&self, now: i64) -> (r: String)
        requires
            instant_in_range(self.start_time as int),
            instant_in_range(self.end_time as int),
            instant_in_range(now as int),
        ensures
            r@ == countdown_text(remaining_seconds(self@, now as int)),
    {
        let seconds: i64 = match self.status_at(now) {
            MeetingStatus::InProgress => self.end_time - now,
            MeetingStatus::Upcoming => self.start_time - now,
            MeetingStatus::Ended => 0,
        };
        if seconds <= 0 {
            proof {
                reveal_strlit("00:00");
            }
            return "00:00".to_owned();
        }
        let s = seconds as u64;
        let minutes = s / 60;
        let mut out = String::new();
        if minutes >= 60 {
            append_two_digits(&mut out, minutes / 60);
            out.append(":");
            append_two_digits(&mut out, minutes % 60);
        } else {
            append_two_digits(&mut out, minutes);
        }
        out.append(":");
        append_two_digits(&mut out, s % 60);
        proof {
            reveal_strlit(":");
            assert(s / 60 / 60 == s / 3600) by (nonlinear_arith)
                requires
                    s >= 0,
            ;
        }
        assert(out@ =~= countdown_text(remaining_seconds(self@, now as int)));
        out
    }

    /// The countdown shown for this meeting at the present instant.
    pub fn format_time_remaining(&self) -> (r: String)
        requires
            instant_in_range(self.start_time as int),
            instant_in_range(self.end_time as int),
        ensures
            exists|now: int| r@ == countdown_text(remaining_seconds(self@, now)),
    {
        self.format_time_remaining_at(current_timestamp())
    }

    /// `HH:MM` of the start (UTC).
    pub fn formatted_start_time(&self) -> (r: String)
        ensures
            r@ == clock_text(self.start_time as int),
    {
        let mut out = String::new();
        append_clock(&mut out, self.start_time);
        assert(out@ =~= clock_text(self.start_time as int));
        out
    }

    /// `YYYY-MM-DD` of the start (UTC).
    pub fn formatted_date(&self) -> (r: String)
        requires
            -PRINTABLE_MAX_SECONDS <= self.start_time <= PRINTABLE_MAX_SECONDS,
        ensures
            r@ == instant_text(self.start_time, ISO_DATE_PATTERN@),
    {
        format_instant(self.start_time, ISO_DATE_PATTERN)
    }

    /// `HH:MM - HH:MM` of the start and end (UTC).
    pub fn formatted_time_range(&self) -> (r: String)
        ensures
            r@ == clock_text(self.start_time as int) + " - "@ + clock_text(self.end_time as int),
    {
        let mut out = String::new();
        append_clock(&mut out, self.start_time);
        out.append(" - ");
        append_clock(&mut out, self.end_time);
        assert(out@ =~= clock_text(self.start_time as int) + " - "@ + clock_text(self.end_time as int));
        out
    }

    pub fn is_time_block(&self) -> (r: bool)
        ensures
            r == is_time_block_title(self.title@),
    {
        let cs = chars_of(self.title.as_str());
        cs.len() > 0 && cs[0] == '[' && cs[cs.len() - 1] == ']'
    }

    /// The name inside the brackets of a time block, when there is one.
    pub fn time_block_name(&self) -> (r: Option<String>)
        ensures
            is_time_block_title(self.title@) && self.title@.len() > 2 ==> opt_view(r) == Some(
                self.title@.subrange(1, self.title@.len() - 1),
            ),
            !(is_time_block_title(self.title@) && self.title@.len() > 2) ==> r is None,
    {
        let n = chars_of(self.title.as_str()).len();
        if self.is_time_block() && n > 2 {
            Some(substring(self.title.as_str(), 1, n - 1))
        } else {
            None
        }
    }
}

fn append_clock(out: &mut String, t: i64)
    ensures
        final(out)@ == old(out)@ + clock_text(t as int),
{
    let s = time_of_day(t) as u64;
    append_two_digits(out, s / 3600);
    out.append(":");
    append_two_digits(out, (s % 3600) / 60);
    proof {
        reveal_strlit(":");
    }
    assert(final(out)@ =~= old(out)@ + clock_text(t as int));
}

} // verus!

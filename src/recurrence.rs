//! Weekly recurrence: which of today and tomorrow a rule selects, and the
//! occurrences it produces there.

use crate::datetime::{
    compact_date,
    adjust_time_to_date, at_day, date_of, day_in_range, day_of, instant_in_range, naive_date_days,
    weekday_of, weekday_spec, Weekday, DATE_FORMAT, day_from_text,
};
use crate::meeting::{all_in_range, opt_view, views, Meeting, MeetingView};
use crate::text::{
    char_index_spec, chars_of, contains, contains_seq, find_from, find_spec, index_of_char_from,
    substring,
};
use vstd::prelude::*;

verus! {

/// The two-letter RRULE code of a weekday.
pub open spec fn weekday_code(w: Weekday) -> Seq<char> {
    match w {
        Weekday::Mon => "MO"@,
        Weekday::Tue => "TU"@,
        Weekday::Wed => "WE"@,
        Weekday::Thu => "TH"@,
        Weekday::Fri => "FR"@,
        Weekday::Sat => "SA"@,
        Weekday::Sun => "SU"@,
    }
}

/// The value of the first `key` part of a rule: the text after `key` up to the
/// next `;` or the end.
pub open spec fn rule_field(rule: Seq<char>, key: Seq<char>) -> Option<Seq<char>> {
    match find_spec(rule, key, 0) {
        Some(i) => Some(
            rule.subrange(i + key.len(), char_index_spec(rule, ';', i + key.len())),
        ),
        None => None,
    }
}

/// The last day a rule allows: the date in the first eight characters of its
/// `UNTIL` value.
pub open spec fn rule_until(rule: Seq<char>) -> Option<int> {
    match rule_field(rule, "UNTIL="@) {
        Some(v) => if v.len() >= 8 {
            match naive_date_days(v.subrange(0, 8), DATE_FORMAT@) {
                Some(d) => Some(d as int),
                None => None,
            }
        } else {
            None
        },
        None => None,
    }
}

/// Whether a rule selects day `day`: by its `BYDAY` list when it has one,
/// else by the weekday of the anchor.
pub open spec fn occurs_on_day(rule: Seq<char>, day: int, anchor: Weekday) -> bool {
    match rule_field(rule, "BYDAY="@) {
        Some(days) => contains(days, weekday_code(weekday_spec(day))),
        None => weekday_spec(day) == anchor,
    }
}

/// The occurrence on day `day` of an event anchored at `start`..`end`: the same
/// wall-clock times, the end one day later when the anchor crossed midnight.
pub open spec fn occurrence(start: int, end: int, day: int) -> (int, int) {
    (
        at_day(start, day),
        at_day(end, day) + if day_of(start) != day_of(end) {
            86400int
        } else {
            0int
        },
    )
}

/// Day `day` is not after the rule's `UNTIL` date, which is an inclusive bound.
pub open spec fn within_until(rule: Seq<char>, day: int) -> bool {
    rule_until(rule) matches Some(u) ==> day <= u
}

/// The occurrences, on `today` and then on the day after, of a weekly rule;
/// a day after the `UNTIL` date yields none.
pub open spec fn expansion(start: int, end: int, rule: Seq<char>, today: int) -> Seq<(int, int)> {
    let anchor = weekday_spec(day_of(start));
    if !contains(rule, "FREQ=WEEKLY"@) {
        Seq::empty()
    } else {
        (if within_until(rule, today) && occurs_on_day(rule, today, anchor) {
            seq![occurrence(start, end, today)]
        } else {
            Seq::empty()
        }) + (if within_until(rule, today + 1) && occurs_on_day(rule, today + 1, anchor) {
            seq![occurrence(start, end, today + 1)]
        } else {
            Seq::empty()
        })
    }
}

pub open spec fn pair_views(s: Seq<(i64, i64)>) -> Seq<(int, int)> {
    s.map_values(|p: (i64, i64)| (p.0 as int, p.1 as int))
}

/// The text after the first `key` of `rule` up to the next `;` or the end.
fn rule_field_exec(rule: &str, key: &str) -> (r: Option<String>)
    ensures
        opt_view(r) == rule_field(rule@, key@),
{
    let cs = chars_of(rule);
    let ks = chars_of(key);
    match find_from(&cs, &ks, 0) {
        Some(i) => {
            let start = i + ks.len();
            let end = index_of_char_from(&cs, ';', start);
            Some(substring(rule, start, end))
        },
        None => None,
    }
}

/// The `UNTIL` date of a rule, as a day number; `None` when the rule has none
/// or its first eight characters are no date.
pub fn parse_rrule_until(rrule: &str) -> (r: Option<i64>)
    ensures
        match r {
            Some(d) => rule_until(rrule@) == Some(d as int) && day_in_range(d as int),
            None => rule_until(rrule@) is None,
        },
        rule_field(rrule@, "UNTIL="@) matches Some(v) && v.len() >= 8 && compact_date(v.subrange(0, 8)) is Some ==> r == Some(compact_date(rule_field(rrule@, "UNTIL="@)->0.subrange(0, 8))->0 as i64),
{
    proof {
        reveal_strlit("UNTIL=");
    }
    match rule_field_exec(rrule, "UNTIL=") {
        Some(v) => {
            let n = chars_of(v.as_str()).len();
            if n >= 8 {
                let date_part = substring(v.as_str(), 0, 8);
                day_from_text(date_part.as_str(), DATE_FORMAT)
            } else {
                None
            }
        },
        None => None,
    }
}

/// The two-letter code of a weekday.
fn weekday_code_str(w: Weekday) -> (r: &'static str)
    ensures
        r@ == weekday_code(w),
{
    match w {
        Weekday::Mon => "MO",
        Weekday::Tue => "TU",
        Weekday::Wed => "WE",
        Weekday::Thu => "TH",
        Weekday::Fri => "FR",
        Weekday::Sat => "SA",
        Weekday::Sun => "SU",
    }
}

/// Whether a weekly rule selects day `date` for an event anchored on `anchor_weekday`.
pub fn should_occur_on_day(rrule: &str, date: i64, anchor_weekday: Weekday) -> (r: bool)
    ensures
        r == occurs_on_day(rrule@, date as int, anchor_weekday),
{
    let weekday = weekday_of(date);
    match rule_field_exec(rrule, "BYDAY=") {
        Some(days) => {
            let code = chars_of(weekday_code_str(weekday));
            contains_seq(&chars_of(days.as_str()), &code)
        },
        None => weekday == anchor_weekday,
    }
}

/// The occurrences, on `today` and then on the day after, of an event anchored
/// at `start`..`end` and repeated by `rrule`. Only weekly rules are expanded.
pub fn expand_occurrences(start: i64, end: i64, rrule: &str, today: i64) -> (r: Vec<(i64, i64)>)
    requires
        instant_in_range(start as int),
        instant_in_range(end as int),
        day_in_range(today as int),
    ensures
        pair_views(r@) == expansion(start as int, end as int, rrule@, today as int),
        r@.len() <= 2,
        forall|k: int| 0 <= k < r@.len() ==> instant_in_range(#[trigger] r@[k].0 as int) && instant_in_range(r@[k].1 as int),
{
    proof {
        reveal_strlit("FREQ=WEEKLY");
    }
    let mut out: Vec<(i64, i64)> = Vec::new();
    if !contains_seq(&chars_of(rrule), &chars_of("FREQ=WEEKLY")) {
        assert(pair_views(out@) =~= Seq::<(int, int)>::empty());
        return out;
    }
    let tomorrow = today + 1;
    let until = parse_rrule_until(rrule);
    let today_allowed = match until {
        Some(u) => today <= u,
        None => true,
    };
    let tomorrow_allowed = match until {
        Some(u) => tomorrow <= u,
        None => true,
    };
    let crosses_midnight = date_of(start) != date_of(end);
    let anchor_weekday = weekday_of(date_of(start));
    if today_allowed && should_occur_on_day(rrule, today, anchor_weekday) {
        let s = adjust_time_to_date(start, today);
        let e = adjust_time_to_date(end, today);
        let e = if crosses_midnight {
            e + 86400
        } else {
            e
        };
        out.push((s, e));
    }
    if tomorrow_allowed && should_occur_on_day(rrule, tomorrow, anchor_weekday) {
        let s = adjust_time_to_date(start, tomorrow);
        let e = adjust_time_to_date(end, tomorrow);
        let e = if crosses_midnight {
            e + 86400
        } else {
            e
        };
        out.push((s, e));
    }
    assert(pair_views(out@) =~= expansion(start as int, end as int, rrule@, today as int));
    out
}

/// A weekly rule without `BYDAY` or `UNTIL`, asked on a day of the anchor's
/// weekday, yields exactly that day's occurrence and none for the day after.
pub proof fn lemma_weekly_anchor_weekday_once(start: int, end: int, rule: Seq<char>, today: int)
    requires
        contains(rule, "FREQ=WEEKLY"@),
        rule_field(rule, "BYDAY="@) is None,
        rule_until(rule) is None,
        weekday_spec(day_of(start)) == weekday_spec(today),
    ensures
        expansion(start, end, rule, today) == seq![occurrence(start, end, today)],
{
    assert(weekday_spec(today + 1) != weekday_spec(today));
    assert(expansion(start, end, rule, today) =~= seq![occurrence(start, end, today)]);
}

/// Once today lies after the `UNTIL` date (and so tomorrow too), a rule yields nothing.
pub proof fn lemma_expansion_after_until(start: int, end: int, rule: Seq<char>, today: int)
    requires
        rule_until(rule) matches Some(u) && today > u,
    ensures
        expansion(start, end, rule, today) == Seq::<(int, int)>::empty(),
{
    assert(expansion(start, end, rule, today) =~= Seq::<(int, int)>::empty());
}

proof fn lemma_occurrence_day(start: int, end: int, day: int)
    ensures
        day_of(occurrence(start, end, day).0) == day,
{
    let sod = start % 86400;
    assert(0 <= sod < 86400);
    assert((day * 86400 + sod) / 86400 == day) by (nonlinear_arith)
        requires
            0 <= sod < 86400,
    ;
}

/// Every occurrence a rule yields starts on a day not after its `UNTIL` date;
/// asked on the `UNTIL` date itself, only today's occurrence can come out.
pub proof fn lemma_expansion_within_until(start: int, end: int, rule: Seq<char>, today: int)
    ensures
        forall|k: int| 0 <= k < expansion(start, end, rule, today).len() ==> within_until(rule, day_of(#[trigger] expansion(start, end, rule, today)[k].0)),
        rule_until(rule) matches Some(u) && today == u ==> expansion(start, end, rule, today).len() <= 1,
        rule_until(rule) matches Some(u) && today == u && contains(rule, "FREQ=WEEKLY"@) && occurs_on_day(rule, today, weekday_spec(day_of(start))) ==> expansion(start, end, rule, today) == seq![occurrence(start, end, today)],
{
    lemma_occurrence_day(start, end, today);
    lemma_occurrence_day(start, end, today + 1);
    let e = expansion(start, end, rule, today);
    assert forall|k: int| 0 <= k < e.len() implies within_until(rule, day_of(#[trigger] e[k].0)) by {
        let anchor = weekday_spec(day_of(start));
        let a: Seq<(int, int)> = if within_until(rule, today) && occurs_on_day(rule, today, anchor) {
            seq![occurrence(start, end, today)]
        } else {
            Seq::empty()
        };
        let b: Seq<(int, int)> = if within_until(rule, today + 1) && occurs_on_day(rule, today + 1, anchor) {
            seq![occurrence(start, end, today + 1)]
        } else {
            Seq::empty()
        };
        assert(e == a + b);
        if k < a.len() {
            assert(e[k] == a[k]);
        } else {
            assert(e[k] == b[k - a.len()]);
        }
    }
    if rule_until(rule) matches Some(u) && today == u && contains(rule, "FREQ=WEEKLY"@) && occurs_on_day(rule, today, weekday_spec(day_of(start))) {
        assert(expansion(start, end, rule, today) =~= seq![occurrence(start, end, today)]);
    }
}

/// A meeting for each occurrence, stamped with the shared title, description and location.
pub open spec fn stamped(
    occurrences: Seq<(int, int)>,
    title: Seq<char>,
    description: Option<Seq<char>>,
    location: Option<Seq<char>>,
) -> Seq<MeetingView> {
    occurrences.map_values(
        |p: (int, int)|
            MeetingView {
                title: title,
                start_time: p.0,
                end_time: p.1,
                description: description,
                location: location,
                attendees: Seq::empty(),
                response_status: None,
            },
    )
}

/// The meetings a recurring event yields today and tomorrow.
pub fn expand_recurring_event(
    title: String,
    start: i64,
    end: i64,
    rrule: &str,
    description: Option<String>,
    location: Option<String>,
    today: i64,
) -> (r: Vec<Meeting>)
    requires
        instant_in_range(start as int),
        instant_in_range(end as int),
        day_in_range(today as int),
    ensures
        views(r@) == stamped(
            expansion(start as int, end as int, rrule@, today as int),
            title@,
            opt_view(description),
            opt_view(location),
        ),
        all_in_range(views(r@)),
{
    let occurrences = expand_occurrences(start, end, rrule, today);
    let mut meetings: Vec<Meeting> = Vec::new();
    let mut i: usize = 0;
    while i < occurrences.len()
        invariant
            i <= occurrences@.len(),
            forall|k: int| 0 <= k < occurrences@.len() ==> instant_in_range(#[trigger] occurrences@[k].0 as int) && instant_in_range(occurrences@[k].1 as int),
            all_in_range(views(meetings@)),
            views(meetings@) == stamped(
                pair_views(occurrences@.subrange(0, i as int)),
                title@,
                opt_view(description),
                opt_view(location),
            ),
        decreases occurrences@.len() - i,
    {
        let (s, e) = occurrences[i];
        let mut meeting = Meeting::new(title.clone(), s, e);
        if let Some(desc) = &description {
            meeting = meeting.with_description(desc.clone());
        }
        if let Some(loc) = &location {
            meeting = meeting.with_location(loc.clone());
        }
        let ghost expected = MeetingView {
            title: title@,
            start_time: s as int,
            end_time: e as int,
            description: opt_view(description),
            location: opt_view(location),
            attendees: Seq::empty(),
            response_status: None,
        };
        assert(meeting@ == expected);
        let ghost before = meetings@;
        meetings.push(meeting);
        assert(views(meetings@) =~= views(before).push(expected));
        assert(instant_in_range(occurrences@[i as int].0 as int));
        assert(pair_views(occurrences@.subrange(0, i + 1)) =~= pair_views(
            occurrences@.subrange(0, i as int),
        ).push((s as int, e as int)));
        i = i + 1;
        assert(views(meetings@) =~= stamped(
            pair_views(occurrences@.subrange(0, i as int)),
            title@,
            opt_view(description),
            opt_view(location),
        ));
    }
    assert(occurrences@.subrange(0, occurrences@.len() as int) =~= occurrences@);
    meetings
}

} // verus!

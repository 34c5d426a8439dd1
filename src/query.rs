//! Questions asked of a meeting list sorted by start: what runs now, what comes
//! next, which time blocks are active; and the merge with an external source.

use crate::datetime::instant_in_range;
use crate::meeting::{
    all_in_range, is_time_block_title, status_spec, views, Meeting, MeetingStatus, MeetingView,
};
use vstd::prelude::*;

verus! {

pub open spec fn in_progress(m: MeetingView, now: int) -> bool {
    status_spec(m.start_time, m.end_time, now) == MeetingStatus::InProgress
}

pub open spec fn upcoming(m: MeetingView, now: int) -> bool {
    status_spec(m.start_time, m.end_time, now) == MeetingStatus::Upcoming
}

/// A meeting (not a time block) running at `now`.
pub open spec fn current_candidate(m: MeetingView, now: int) -> bool {
    !is_time_block_title(m.title) && in_progress(m, now)
}

/// A meeting (not a time block) still to start at `now`.
pub open spec fn next_candidate(m: MeetingView, now: int) -> bool {
    !is_time_block_title(m.title) && upcoming(m, now)
}

/// A time block running at `now`.
pub open spec fn active_block(m: MeetingView, now: int) -> bool {
    is_time_block_title(m.title) && in_progress(m, now)
}

/// The first entry of `s` (by position) that `p` accepts.
pub open spec fn first_where(s: Seq<MeetingView>, p: spec_fn(MeetingView) -> bool) -> Option<MeetingView>
    decreases s.len(),
{
    if s.len() == 0 {
        None
    } else if p(s[0]) {
        Some(s[0])
    } else {
        first_where(s.drop_first(), p)
    }
}

/// The entries of `s` that `p` accepts, in order.
pub open spec fn all_where(s: Seq<MeetingView>, p: spec_fn(MeetingView) -> bool) -> Seq<MeetingView>
    decreases s.len(),
{
    if s.len() == 0 {
        Seq::empty()
    } else {
        all_where(s.drop_last(), p) + if p(s.last()) {
            seq![s.last()]
        } else {
            Seq::empty()
        }
    }
}

pub open spec fn current_spec(s: Seq<MeetingView>, now: int) -> Option<MeetingView> {
    first_where(s, |m: MeetingView| current_candidate(m, now))
}

pub open spec fn next_spec(s: Seq<MeetingView>, now: int) -> Option<MeetingView> {
    first_where(s, |m: MeetingView| next_candidate(m, now))
}

pub open spec fn active_blocks_spec(s: Seq<MeetingView>, now: int) -> Seq<MeetingView> {
    all_where(s, |m: MeetingView| active_block(m, now))
}

pub open spec fn opt_meeting_view(o: Option<Meeting>) -> Option<MeetingView> {
    match o {
        Some(m) => Some(m@),
        None => None,
    }
}

proof fn lemma_first_where_step(s: Seq<MeetingView>, p: spec_fn(MeetingView) -> bool, i: int)
    requires
        0 <= i < s.len(),
        forall|k: int| 0 <= k < i ==> !p(s[k]),
    ensures
        first_where(s, p) == first_where(s.subrange(i, s.len() as int), p),
    decreases i,
{
    if i > 0 {
        assert(!p(s[0]));
        let t = s.drop_first();
        assert forall|k: int| 0 <= k < i - 1 implies !p(t[k]) by {
            assert(t[k] == s[k + 1]);
        }
        lemma_first_where_step(t, p, i - 1);
        assert(t.subrange(i - 1, t.len() as int) =~= s.subrange(i, s.len() as int));
    } else {
        assert(s.subrange(0, s.len() as int) =~= s);
    }
}

proof fn lemma_first_where_none(s: Seq<MeetingView>, p: spec_fn(MeetingView) -> bool)
    requires
        forall|k: int| 0 <= k < s.len() ==> !p(s[k]),
    ensures
        first_where(s, p) is None,
    decreases s.len(),
{
    if s.len() > 0 {
        let t = s.drop_first();
        assert forall|k: int| 0 <= k < t.len() implies !p(t[k]) by {
            assert(t[k] == s[k + 1]);
        }
        lemma_first_where_none(t, p);
    }
}

/// The first meeting of `meetings` (by position) that is running at `now`,
/// time blocks excluded.
pub fn current_meeting(meetings: &Vec<Meeting>, now: i64) -> (r: Option<Meeting>)
    ensures
        opt_meeting_view(r) == current_spec(views(meetings@), now as int),
        r matches Some(m) ==> !is_time_block_title(m.title@) && in_progress(m@, now as int),
{
    let ghost s = views(meetings@);
    let ghost p = |m: MeetingView| current_candidate(m, now as int);
    let mut i: usize = 0;
    while i < meetings.len()
        invariant
            s == views(meetings@),
            p == (|m: MeetingView| current_candidate(m, now as int)),
            i <= meetings@.len(),
            forall|k: int| 0 <= k < i ==> !p(s[k]),
        decreases meetings@.len() - i,
    {
        let m = &meetings[i];
        if !m.is_time_block() && m.is_active_at(now) {
            proof {
                lemma_first_where_step(s, p, i as int);
            }
            return Some(m.clone());
        }
        assert(s[i as int] == m@);
        i = i + 1;
    }
    proof {
        lemma_first_where_none(s, p);
    }
    None
}

/// The first meeting of `meetings` (by position) that is still to start at
/// `now`, time blocks excluded.
pub fn next_meeting(meetings: &Vec<Meeting>, now: i64) -> (r: Option<Meeting>)
    ensures
        opt_meeting_view(r) == next_spec(views(meetings@), now as int),
        r matches Some(m) ==> !is_time_block_title(m.title@) && upcoming(m@, now as int),
{
    let ghost s = views(meetings@);
    let ghost p = |m: MeetingView| next_candidate(m, now as int);
    let mut i: usize = 0;
    while i < meetings.len()
        invariant
            s == views(meetings@),
            p == (|m: MeetingView| next_candidate(m, now as int)),
            i <= meetings@.len(),
            forall|k: int| 0 <= k < i ==> !p(s[k]),
        decreases meetings@.len() - i,
    {
        let m = &meetings[i];
        if !m.is_time_block() && m.is_upcoming_at(now) {
            proof {
                lemma_first_where_step(s, p, i as int);
            }
            return Some(m.clone());
        }
        assert(s[i as int] == m@);
        i = i + 1;
    }
    proof {
        lemma_first_where_none(s, p);
    }
    None
}

/// The time blocks of `meetings` running at `now`, in order.
pub fn active_time_blocks(meetings: &Vec<Meeting>, now: i64) -> (r: Vec<Meeting>)
    ensures
        views(r@) == active_blocks_spec(views(meetings@), now as int),
{
    let ghost s = views(meetings@);
    let ghost p = |m: MeetingView| active_block(m, now as int);
    let mut out: Vec<Meeting> = Vec::new();
    let mut i: usize = 0;
    while i < meetings.len()
        invariant
            s == views(meetings@),
            p == (|m: MeetingView| active_block(m, now as int)),
            i <= meetings@.len(),
            views(out@) == all_where(s.subrange(0, i as int), p),
        decreases meetings@.len() - i,
    {
        let m = &meetings[i];
        assert(s.subrange(0, i + 1).drop_last() =~= s.subrange(0, i as int));
        assert(s.subrange(0, i + 1).last() == m@);
        if m.is_time_block() && m.is_active_at(now) {
            let ghost before = views(out@);
            out.push(m.clone());
            assert(views(out@) =~= before.push(m@));
        }
        i = i + 1;
        assert(views(out@) =~= all_where(s.subrange(0, i as int), p));
    }
    assert(s.subrange(0, s.len() as int) =~= s);
    out
}

proof fn lemma_first_where_found(s: Seq<MeetingView>, p: spec_fn(MeetingView) -> bool)
    ensures
        first_where(s, p) matches Some(m) ==> p(m) && s.contains(m),
    decreases s.len(),
{
    if s.len() > 0 && !p(s[0]) {
        lemma_first_where_found(s.drop_first(), p);
        if first_where(s.drop_first(), p) is Some {
            let m = first_where(s.drop_first(), p)->0;
            let k = choose|k: int| 0 <= k < s.drop_first().len() && s.drop_first()[k] == m;
            assert(s[k + 1] == m);
        }
    } else if s.len() > 0 {
        assert(s[0] == s[0]);
    }
}

proof fn lemma_all_where_complete(s: Seq<MeetingView>, p: spec_fn(MeetingView) -> bool, i: int)
    requires
        0 <= i < s.len(),
        p(s[i]),
    ensures
        all_where(s, p).contains(s[i]),
    decreases s.len(),
{
    if i == s.len() - 1 {
        let r = all_where(s, p);
        assert(r[r.len() - 1] == s.last());
    } else {
        lemma_all_where_complete(s.drop_last(), p, i);
        let q = all_where(s.drop_last(), p);
        let k = choose|k: int| 0 <= k < q.len() && q[k] == s.drop_last()[i];
        assert(all_where(s, p)[k] == q[k]);
    }
}

/// Time blocks never answer "current" or "next"; every time block running at
/// `now` is among the active time blocks.
pub proof fn lemma_time_blocks_filtered(s: Seq<MeetingView>, now: int)
    ensures
        current_spec(s, now) matches Some(m) ==> !is_time_block_title(m.title) && in_progress(m, now),
        next_spec(s, now) matches Some(m) ==> !is_time_block_title(m.title) && upcoming(m, now),
        forall|i: int| 0 <= i < s.len() && is_time_block_title(s[i].title) && in_progress(s[i], now) ==> active_blocks_spec(s, now).contains(#[trigger] s[i]),
{
    lemma_first_where_found(s, |m: MeetingView| current_candidate(m, now));
    lemma_first_where_found(s, |m: MeetingView| next_candidate(m, now));
    assert forall|i: int| 0 <= i < s.len() && is_time_block_title(s[i].title) && in_progress(s[i], now) implies active_blocks_spec(s, now).contains(#[trigger] s[i]) by {
        lemma_all_where_complete(s, |m: MeetingView| active_block(m, now), i);
    }
}

/// The external candidate takes a slot that is empty locally, or whose local
/// meeting starts strictly later.
pub open spec fn prefer_external(local: Option<MeetingView>, external: Option<MeetingView>) -> Option<MeetingView> {
    match external {
        Some(e) => match local {
            Some(l) => if e.start_time < l.start_time {
                Some(e)
            } else {
                Some(l)
            },
            None => Some(e),
        },
        None => local,
    }
}

fn prefer(local: Option<Meeting>, external: Option<Meeting>) -> (r: Option<Meeting>)
    ensures
        opt_meeting_view(r) == prefer_external(opt_meeting_view(local), opt_meeting_view(external)),
{
    match external {
        Some(e) => match local {
            Some(l) => if e.start_time < l.start_time {
                Some(e)
            } else {
                Some(l)
            },
            None => Some(e),
        },
        None => local,
    }
}

/// Reconciles the local current and next meetings with an external meeting
/// list: each slot takes the external candidate when the local one is missing
/// or starts later.
pub fn merge_external(
    current: Option<Meeting>,
    next: Option<Meeting>,
    external: &Vec<Meeting>,
    now: i64,
) -> (r: (Option<Meeting>, Option<Meeting>))
    ensures
        opt_meeting_view(r.0) == prefer_external(opt_meeting_view(current), current_spec(views(external@), now as int)),
        opt_meeting_view(r.1) == prefer_external(opt_meeting_view(next), next_spec(views(external@), now as int)),
{
    let external_current = current_meeting(external, now);
    let external_next = next_meeting(external, now);
    (prefer(current, external_current), prefer(next, external_next))
}

/// What the monitor pushes each tick.
pub struct MeetingUpdate {
    pub current_meeting: Option<Meeting>,
    pub next_meeting: Option<Meeting>,
    /// Seconds until the current meeting ends; present exactly when there is one.
    pub countdown_seconds: Option<i64>,
    pub active_time_blocks: Vec<Meeting>,
}

/// The current meeting a snapshot and an external list agree on at `now`.
pub open spec fn merged_current(local: Seq<MeetingView>, external: Seq<MeetingView>, now: int) -> Option<MeetingView> {
    prefer_external(current_spec(local, now), current_spec(external, now))
}

/// The next meeting a snapshot and an external list agree on at `now`.
pub open spec fn merged_next(local: Seq<MeetingView>, external: Seq<MeetingView>, now: int) -> Option<MeetingView> {
    prefer_external(next_spec(local, now), next_spec(external, now))
}

/// The update for instant `now` from the sorted local meetings and an external
/// meeting list.
pub fn meeting_update(local: &Vec<Meeting>, external: &Vec<Meeting>, now: i64) -> (r: MeetingUpdate)
    requires
        instant_in_range(now as int),
        all_in_range(views(local@)),
        all_in_range(views(external@)),
    ensures
        opt_meeting_view(r.current_meeting) == merged_current(views(local@), views(external@), now as int),
        opt_meeting_view(r.next_meeting) == merged_next(views(local@), views(external@), now as int),
        r.countdown_seconds == match r.current_meeting {
            Some(m) => Some((m.end_time - now) as i64),
            None => None::<i64>,
        },
        r.current_meeting matches Some(m) ==> r.countdown_seconds == Some((m.end_time - now) as i64) && m.end_time - now >= 0,
        views(r.active_time_blocks@) == active_blocks_spec(views(local@), now as int),
{
    proof {
        lemma_first_where_found(views(local@), |m: MeetingView| current_candidate(m, now as int));
        lemma_first_where_found(views(external@), |m: MeetingView| current_candidate(m, now as int));
    }
    let current = current_meeting(local, now);
    let next = next_meeting(local, now);
    let (current, next) = merge_external(current, next, external, now);
    let countdown_seconds = match &current {
        Some(m) => {
            proof {
                let v = m@;
                let l = views(local@);
                let e = views(external@);
                if l.contains(v) {
                    let k = choose|k: int| 0 <= k < l.len() && l[k] == v;
                    assert(instant_in_range(l[k].end_time));
                } else {
                    let k = choose|k: int| 0 <= k < e.len() && e[k] == v;
                    assert(instant_in_range(e[k].end_time));
                }
            }
            Some(m.end_time - now)
        },
        None => None,
    };
    MeetingUpdate {
        current_meeting: current,
        next_meeting: next,
        countdown_seconds,
        active_time_blocks: active_time_blocks(local, now),
    }
}

} // verus!

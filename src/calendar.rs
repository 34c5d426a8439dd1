//! The aggregation cache: which sources to read, the last snapshot and when it
//! was taken, and the queries answered from it.
//!
//! Reading a source is left to the caller: when [`CalendarService::is_cache_valid`]
//! says the snapshot is stale, the caller fetches every source and hands the
//! texts (or the failures) to [`CalendarService::refresh`].

use crate::config::{Config, EnvVars, EnvView, DEFAULT_CACHE_TTL};
use crate::datetime::{date_of, day_in_range, day_of, instant_in_range};
use crate::ics::{feed_meetings, ics_calendars, parse_ics_content};
use crate::meeting::{all_in_range, views, Meeting, MeetingView};
use crate::query::{
    active_blocks_spec, active_time_blocks, current_meeting, current_spec, meeting_update,
    merged_current, merged_next, next_meeting, next_spec, opt_meeting_view, MeetingUpdate,
};
use crate::recurrence::{parse_rrule_until, rule_until};
use crate::schedule::{dedup_meetings, dedup_spec, sort_by_start, sort_meetings, sorted_by_start};
use crate::text::{
    chars_of, comma_list, matches_at, split_comma_list, starts_with, string_views,
};
use vstd::prelude::*;

verus! {

/// Where a calendar feed is read from.
#[derive(Debug)]
pub enum Source {
    /// A path on the local file system.
    Local(String),
    /// An `http://` or `https://` URL.
    Remote(String),
}

/// Why a source gave no text.
#[derive(Debug, Clone, Copy, PartialEq, Eq, Structural)]
pub enum SourceError {
    /// The local path does not exist.
    SourceNotFound,
    /// The network fetch failed or answered with a non-success status.
    SourceUnavailable,
}

pub open spec fn is_remote_locator(s: Seq<char>) -> bool {
    starts_with(s, "http://"@) || starts_with(s, "https://"@)
}

impl Source {
    /// A locator starting with `http://` or `https://` is remote; anything else is a path.
    pub fn from_locator(locator: &str) -> (r: Source)
        ensures
            r matches Source::Remote(u) ==> is_remote_locator(locator@) && u@ == locator@,
            r matches Source::Local(p) ==> !is_remote_locator(locator@) && p@ == locator@,
    {
        proof {
            reveal_strlit("http://");
            reveal_strlit("https://");
        }
        let cs = chars_of(locator);
        if matches_at(&cs, &chars_of("http://"), 0) || matches_at(&cs, &chars_of("https://"), 0) {
            Source::Remote(locator.to_owned())
        } else {
            Source::Local(locator.to_owned())
        }
    }
}

/// A snapshot: the meetings of one refresh and the instant it ran.
pub struct CacheEntry {
    pub meetings: Vec<Meeting>,
    pub fetched_at: i64,
}

pub open spec fn fetched_view(f: Seq<Result<String, SourceError>>) -> Seq<Result<Seq<char>, SourceError>> {
    f.map_values(
        |r: Result<String, SourceError>|
            match r {
                Ok(t) => Ok(t@),
                Err(e) => Err(e),
            },
    )
}

/// The meetings for today and tomorrow of every source that gave a text: each
/// source's list sorted by start, the lists in source order.
pub open spec fn source_meetings(fetched: Seq<Result<Seq<char>, SourceError>>, today: int) -> Seq<MeetingView>
    decreases fetched.len(),
{
    if fetched.len() == 0 {
        Seq::empty()
    } else {
        source_meetings(fetched.drop_last(), today) + match fetched.last() {
            Ok(text) => sort_by_start(feed_meetings(ics_calendars(text), today)),
            Err(_) => Seq::empty(),
        }
    }
}

/// The snapshot a refresh computes: all sources merged, sorted by start, deduplicated.
pub open spec fn refreshed(fetched: Seq<Result<Seq<char>, SourceError>>, today: int) -> Seq<MeetingView> {
    dedup_spec(sort_by_start(source_meetings(fetched, today)))
}

/// A snapshot taken at `fetched_at` is served at `now` while it is younger than the TTL.
pub open spec fn fresh(fetched_at: int, ttl: int, now: int) -> bool {
    fetched_at <= now && now - fetched_at < ttl
}

/// Paths listed once each, in the order first seen.
pub open spec fn add_unique(acc: Seq<Seq<char>>, items: Seq<Seq<char>>) -> Seq<Seq<char>>
    decreases items.len(),
{
    if items.len() == 0 {
        acc
    } else {
        let a = add_unique(acc, items.drop_last());
        if a.contains(items.last()) {
            a
        } else {
            a.push(items.last())
        }
    }
}

/// The ICS paths the environment names: `ICS_FILE_PATH` first, then the items of
/// `ICS_FILE_PATHS` not already listed.
pub open spec fn env_paths(env: EnvView) -> Seq<Seq<char>> {
    let single = match env.ics_file_path {
        Some(p) => seq![p],
        None => Seq::empty(),
    };
    match env.ics_file_paths {
        Some(v) => add_unique(single, comma_list(v)),
        None => single,
    }
}

fn contains_string(v: &Vec<String>, s: &String) -> (r: bool)
    ensures
        r == string_views(v@).contains(s@),
{
    let mut i: usize = 0;
    while i < v.len()
        invariant
            i <= v@.len(),
            forall|k: int| 0 <= k < i ==> string_views(v@)[k] != s@,
        decreases v@.len() - i,
    {
        if v[i] == *s {
            assert(string_views(v@)[i as int] == s@);
            return true;
        }
        i = i + 1;
    }
    false
}

fn paths_from_env(env: &EnvVars) -> (r: Vec<String>)
    ensures
        string_views(r@) == env_paths(env@),
{
    let mut paths: Vec<String> = Vec::new();
    if let Some(single) = &env.ics_file_path {
        paths.push(single.clone());
    }
    let ghost single = string_views(paths@);
    assert(single =~= match env@.ics_file_path {
        Some(p) => seq![p],
        None => Seq::<Seq<char>>::empty(),
    });
    if let Some(multiple) = &env.ics_file_paths {
        let items = split_comma_list(multiple.as_str());
        let mut i: usize = 0;
        while i < items.len()
            invariant
                i <= items@.len(),
                string_views(paths@) == add_unique(single, string_views(items@).subrange(0, i as int)),
            decreases items@.len() - i,
        {
            assert(string_views(items@).subrange(0, i + 1).drop_last() =~= string_views(items@).subrange(0, i as int));
            assert(string_views(items@).subrange(0, i + 1).last() == items@[i as int]@);
            if !contains_string(&paths, &items[i]) {
                let ghost before = string_views(paths@);
                paths.push(items[i].clone());
                assert(string_views(paths@) =~= before.push(items@[i as int]@));
            }
            i = i + 1;
        }
        assert(string_views(items@).subrange(0, items@.len() as int) =~= string_views(items@));
    }
    paths
}

/// Paths, TTL and the last snapshot of an aggregation cache.
pub struct CalendarService {
    ics_file_paths: Vec<String>,
    snapshot: Option<CacheEntry>,
    cache_duration_secs: u64,
}

impl CalendarService {
    #[verifier::type_invariant]
    spec fn inv(&self) -> bool {
        self.snapshot matches Some(e) ==> all_in_range(views(e.meetings@)) && sorted_by_start(
            views(e.meetings@),
        )
    }

    /// The configured ICS locators.
    pub closed spec fn paths(&self) -> Seq<Seq<char>> {
        string_views(self.ics_file_paths@)
    }

    /// The TTL of a snapshot, in seconds.
    pub closed spec fn ttl(&self) -> int {
        self.cache_duration_secs as int
    }

    /// The stored meetings and the instant they were fetched, if a refresh ran.
    pub closed spec fn snapshot_view(&self) -> Option<(Seq<MeetingView>, int)> {
        match self.snapshot {
            Some(e) => Some((views(e.meetings@), e.fetched_at as int)),
            None => None,
        }
    }

    /// The meetings queries run on: the snapshot, or none before the first refresh.
    pub open spec fn meetings_view(&self) -> Seq<MeetingView> {
        match self.snapshot_view() {
            Some((ms, _)) => ms,
            None => Seq::empty(),
        }
    }

    /// A cache with no sources and the default TTL.
    pub fn new() -> (r: CalendarService)
        ensures
            r.paths() == Seq::<Seq<char>>::empty(),
            r.ttl() == DEFAULT_CACHE_TTL,
            r.snapshot_view() is None,
    {
        let r = CalendarService { ics_file_paths: Vec::new(), snapshot: None, cache_duration_secs: DEFAULT_CACHE_TTL };
        assert(r.paths() =~= Seq::<Seq<char>>::empty());
        r
    }

    /// A cache reading one ICS locator.
    pub fn new_with_ics_file(file_path: String) -> (r: CalendarService)
        ensures
            r.paths() == seq![file_path@],
            r.ttl() == DEFAULT_CACHE_TTL,
            r.snapshot_view() is None,
    {
        let mut paths: Vec<String> = Vec::new();
        paths.push(file_path);
        let r = CalendarService { ics_file_paths: paths, snapshot: None, cache_duration_secs: DEFAULT_CACHE_TTL };
        assert(r.paths() =~= seq![file_path@]);
        r
    }

    /// A cache reading the given ICS locators.
    pub fn new_with_ics_files(file_paths: Vec<String>) -> (r: CalendarService)
        ensures
            r.paths() == string_views(file_paths@),
            r.ttl() == DEFAULT_CACHE_TTL,
            r.snapshot_view() is None,
    {
        CalendarService { ics_file_paths: file_paths, snapshot: None, cache_duration_secs: DEFAULT_CACHE_TTL }
    }

    /// A cache reading the ICS locators the environment names.
    pub fn new_from_env(env: &EnvVars) -> (r: CalendarService)
        ensures
            r.paths() == env_paths(env@),
            r.ttl() == DEFAULT_CACHE_TTL,
            r.snapshot_view() is None,
    {
        CalendarService { ics_file_paths: paths_from_env(env), snapshot: None, cache_duration_secs: DEFAULT_CACHE_TTL }
    }

    /// A cache with the configured locators and TTL; when the configuration lists
    /// no locator, those the environment names.
    pub fn new_from_config(config: &Config, env: &EnvVars) -> (r: CalendarService)
        ensures
            r.paths() == (if config@.file_paths.len() > 0 {
                config@.file_paths
            } else {
                env_paths(env@)
            }),
            r.ttl() == config.server.cache_ttl_seconds,
            r.snapshot_view() is None,
    {
        let paths = if config.ics.file_paths.len() > 0 {
            let mut paths: Vec<String> = Vec::new();
            let mut i: usize = 0;
            while i < config.ics.file_paths.len()
                invariant
                    i <= config.ics.file_paths@.len(),
                    string_views(paths@) == string_views(config.ics.file_paths@).subrange(0, i as int),
                decreases config.ics.file_paths@.len() - i,
            {
                let ghost before = string_views(paths@);
                paths.push(config.ics.file_paths[i].clone());
                assert(string_views(paths@) =~= before.push(config.ics.file_paths@[i as int]@));
                assert(string_views(config.ics.file_paths@).subrange(0, i + 1) =~= string_views(config.ics.file_paths@).subrange(0, i as int).push(config.ics.file_paths@[i as int]@));
                i = i + 1;
            }
            assert(string_views(config.ics.file_paths@).subrange(0, config.ics.file_paths@.len() as int) =~= string_views(config.ics.file_paths@));
            paths
        } else {
            paths_from_env(env)
        };
        CalendarService { ics_file_paths: paths, snapshot: None, cache_duration_secs: config.server.cache_ttl_seconds }
    }

    /// The configured locators, each classified as local or remote.
    pub fn sources(&self) -> (r: Vec<Source>)
        ensures
            r@.len() == self.paths().len(),
            forall|i: int| 0 <= i < r@.len() ==> match #[trigger] r@[i] {
                Source::Remote(u) => is_remote_locator(self.paths()[i]) && u@ == self.paths()[i],
                Source::Local(p) => !is_remote_locator(self.paths()[i]) && p@ == self.paths()[i],
            },
    {
        let mut out: Vec<Source> = Vec::new();
        let mut i: usize = 0;
        while i < self.ics_file_paths.len()
            invariant
                i <= self.ics_file_paths@.len(),
                out@.len() == i,
                forall|k: int| 0 <= k < i ==> match #[trigger] out@[k] {
                    Source::Remote(u) => is_remote_locator(self.paths()[k]) && u@ == self.paths()[k],
                    Source::Local(p) => !is_remote_locator(self.paths()[k]) && p@ == self.paths()[k],
                },
            decreases self.ics_file_paths@.len() - i,
        {
            let s = Source::from_locator(self.ics_file_paths[i].as_str());
            assert(self.paths()[i as int] == self.ics_file_paths@[i as int]@);
            out.push(s);
            i = i + 1;
        }
        out
    }

    /// The TTL of a snapshot, in seconds.
    pub fn cache_ttl(&self) -> (r: u64)
        ensures
            r == self.ttl(),
    {
        self.cache_duration_secs
    }

    /// Whether the snapshot may be served at `now`: one exists and is younger than the TTL.
    pub fn is_cache_valid(&self, now: i64) -> (r: bool)
        ensures
            r == (self.snapshot_view() matches Some((_, f)) && fresh(f, self.ttl(), now as int)),
    {
        match &self.snapshot {
            Some(e) => e.fetched_at <= now && (now as i128 - e.fetched_at as i128) < self.cache_duration_secs as i128,
            None => false,
        }
    }

    /// The snapshot when it may be served at `now`; `None` when a refresh is due.
    pub fn get_meetings_for_today_and_tomorrow(&self, now: i64) -> (r: Option<Vec<Meeting>>)
        ensures
            match r {
                Some(v) => self.snapshot_view() matches Some((ms, f)) && fresh(f, self.ttl(), now as int) && views(v@) == ms,
                None => !(self.snapshot_view() matches Some((_, f)) && fresh(f, self.ttl(), now as int)),
            },
    {
        if self.is_cache_valid(now) {
            match &self.snapshot {
                Some(e) => Some(clone_meetings(&e.meetings)),
                None => None,
            }
        } else {
            None
        }
    }

    /// Builds a new snapshot from the texts the sources gave (failed sources give
    /// nothing) and stores it as fetched at `now`, even when it is empty.
    pub fn refresh(&mut self, fetched: Vec<Result<String, SourceError>>, now: i64, today: i64) -> (r: Vec<Meeting>)
        requires
            day_in_range(today as int),
        ensures
            views(r@) == refreshed(fetched_view(fetched@), today as int),
            final(self).snapshot_view() == Some((views(r@), now as int)),
            final(self).paths() == old(self).paths(),
            final(self).ttl() == old(self).ttl(),
    {
        let ghost fv = fetched_view(fetched@);
        let mut all: Vec<Meeting> = Vec::new();
        let mut i: usize = 0;
        while i < fetched.len()
            invariant
                day_in_range(today as int),
                fv == fetched_view(fetched@),
                i <= fetched@.len(),
                views(all@) == source_meetings(fv.subrange(0, i as int), today as int),
                all_in_range(views(all@)),
            decreases fetched@.len() - i,
        {
            assert(fv.subrange(0, i + 1).drop_last() =~= fv.subrange(0, i as int));
            assert(fv.subrange(0, i + 1).last() == fv[i as int]);
            match &fetched[i] {
                Ok(text) => {
                    let mut ms = parse_ics_content(text.as_str(), today);
                    let ghost before = views(all@);
                    let ghost added = views(ms@);
                    all.append(&mut ms);
                    assert(views(all@) =~= before + added);
                    assert forall|k: int| 0 <= k < views(all@).len() implies instant_in_range(#[trigger] views(all@)[k].start_time) && instant_in_range(views(all@)[k].end_time) by {
                        if k < before.len() {
                            assert(views(all@)[k] == before[k]);
                        } else {
                            assert(views(all@)[k] == added[k - before.len()]);
                        }
                    }
                },
                Err(_) => {},
            }
            i = i + 1;
        }
        assert(fv.subrange(0, fv.len() as int) =~= fv);
        let sorted = sort_meetings(all);
        let result = dedup_meetings(&sorted);
        proof {
            crate::schedule::lemma_dedup_sorted(views(sorted@));
        }
        proof {
            use_type_invariant(&*self);
        }
        self.snapshot = Some(CacheEntry { meetings: clone_meetings(&result), fetched_at: now });
        result
    }

    /// The current and next meetings of the snapshot at `now`, time blocks excluded.
    pub fn get_current_and_next_meetings(&self, now: i64) -> (r: (Option<Meeting>, Option<Meeting>))
        ensures
            opt_meeting_view(r.0) == current_spec(self.meetings_view(), now as int),
            opt_meeting_view(r.1) == next_spec(self.meetings_view(), now as int),
    {
        match &self.snapshot {
            Some(e) => (current_meeting(&e.meetings, now), next_meeting(&e.meetings, now)),
            None => {
                let empty: Vec<Meeting> = Vec::new();
                assert(views(empty@) =~= Seq::<MeetingView>::empty());
                (current_meeting(&empty, now), next_meeting(&empty, now))
            },
        }
    }

    /// The meetings of the snapshot that start on the day of `now`.
    pub fn get_meetings_for_today(&self, now: i64) -> (r: Vec<Meeting>)
        ensures
            views(r@) == crate::query::all_where(self.meetings_view(), |m: MeetingView| day_of(m.start_time) == day_of(now as int)),
    {
        let today = date_of(now);
        let ghost p = |m: MeetingView| day_of(m.start_time) == day_of(now as int);
        let ghost s = self.meetings_view();
        let mut out: Vec<Meeting> = Vec::new();
        match &self.snapshot {
            Some(e) => {
                let mut i: usize = 0;
                while i < e.meetings.len()
                    invariant
                        s == views(e.meetings@),
                        today == day_of(now as int),
                        p == (|m: MeetingView| day_of(m.start_time) == day_of(now as int)),
                        i <= e.meetings@.len(),
                        views(out@) == crate::query::all_where(s.subrange(0, i as int), p),
                    decreases e.meetings@.len() - i,
                {
                    let m = &e.meetings[i];
                    assert(s.subrange(0, i + 1).drop_last() =~= s.subrange(0, i as int));
                    assert(s.subrange(0, i + 1).last() == m@);
                    if date_of(m.start_time) == today {
                        let ghost before = views(out@);
                        out.push(m.clone());
                        assert(views(out@) =~= before.push(m@));
                    }
                    i = i + 1;
                    assert(views(out@) =~= crate::query::all_where(s.subrange(0, i as int), p));
                }
                assert(s.subrange(0, s.len() as int) =~= s);
            },
            None => {
                assert(views(out@) =~= Seq::<MeetingView>::empty());
            },
        }
        out
    }

    /// The time blocks of the snapshot running at `now`.
    pub fn get_active_time_blocks(&self, now: i64) -> (r: Vec<Meeting>)
        ensures
            views(r@) == active_blocks_spec(self.meetings_view(), now as int),
    {
        match &self.snapshot {
            Some(e) => active_time_blocks(&e.meetings, now),
            None => {
                let empty: Vec<Meeting> = Vec::new();
                assert(views(empty@) =~= Seq::<MeetingView>::empty());
                active_time_blocks(&empty, now)
            },
        }
    }

    /// The update pushed at `now`: the snapshot merged with an external meeting list.
    pub fn meeting_update(&self, external: &Vec<Meeting>, now: i64) -> (r: MeetingUpdate)
        requires
            instant_in_range(now as int),
            all_in_range(views(external@)),
        ensures
            opt_meeting_view(r.current_meeting) == merged_current(self.meetings_view(), views(external@), now as int),
            opt_meeting_view(r.next_meeting) == merged_next(self.meetings_view(), views(external@), now as int),
            r.current_meeting matches Some(m) ==> r.countdown_seconds == Some((m.end_time - now) as i64),
            r.current_meeting is None ==> r.countdown_seconds is None,
            views(r.active_time_blocks@) == active_blocks_spec(self.meetings_view(), now as int),
    {
        proof {
            use_type_invariant(self);
        }
        match &self.snapshot {
            Some(e) => meeting_update(&e.meetings, external, now),
            None => {
                let empty: Vec<Meeting> = Vec::new();
                assert(views(empty@) =~= Seq::<MeetingView>::empty());
                meeting_update(&empty, external, now)
            },
        }
    }

    /// The `UNTIL` date of a recurrence rule, as a day number.
    pub fn parse_rrule_until(&self, rrule: &str) -> (r: Option<i64>)
        ensures
            match r {
                Some(d) => rule_until(rrule@) == Some(d as int),
                None => rule_until(rrule@) is None,
            },
    {
        parse_rrule_until(rrule)
    }
}

impl Default for CalendarService {
    fn default() -> (r: CalendarService)
        ensures
            r.paths() == Seq::<Seq<char>>::empty(),
            r.ttl() == DEFAULT_CACHE_TTL,
            r.snapshot_view() is None,
    {
        CalendarService::new()
    }
}

/// A copy of each meeting, in order.
pub fn clone_meetings(v: &Vec<Meeting>) -> (r: Vec<Meeting>)
    ensures
        views(r@) == views(v@),
{
    let mut out: Vec<Meeting> = Vec::new();
    let mut i: usize = 0;
    while i < v.len()
        invariant
            i <= v@.len(),
            views(out@) == views(v@).subrange(0, i as int),
        decreases v@.len() - i,
    {
        let ghost before = views(out@);
        out.push(v[i].clone());
        assert(views(out@) =~= before.push(v@[i as int]@));
        assert(views(v@).subrange(0, i + 1) =~= views(v@).subrange(0, i as int).push(v@[i as int]@));
        i = i + 1;
    }
    assert(views(v@).subrange(0, v@.len() as int) =~= views(v@));
    out
}

/// Every instant chrono can print falls on a day [`CalendarService::refresh`]
/// accepts, so a refresh can run at any such instant.
pub proof fn lemma_printable_day_in_range(now: int)
    requires
        -crate::datetime::PRINTABLE_MAX_SECONDS <= now <= crate::datetime::PRINTABLE_MAX_SECONDS,
    ensures
        day_in_range(day_of(now)),
{
}

/// Within the TTL a snapshot is served unchanged; from the TTL on a refresh is due.
pub proof fn lemma_cache_ttl(fetched_at: int, ttl: int, elapsed: int)
    requires
        elapsed >= 0,
    ensures
        fresh(fetched_at, ttl, fetched_at + elapsed) <==> elapsed < ttl,
{
}

} // verus!

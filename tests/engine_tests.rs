use calendar_monitor::calendar::{CalendarService, Source, SourceError};
use calendar_monitor::datetime::{date_of, parse_ical_datetime, time_of_day, weekday_of, Weekday};
use calendar_monitor::ics::{convert_ical_event_to_meeting, parse_ics_content, IcsEvent, IcsProperty};
use calendar_monitor::meeting::{Meeting, MeetingStatus};
use calendar_monitor::query::{
    active_time_blocks, current_meeting, meeting_update, merge_external, next_meeting,
};
use calendar_monitor::recurrence::{expand_occurrences, expand_recurring_event, should_occur_on_day};
use calendar_monitor::schedule::{dedup_meetings, sort_meetings};
use chrono::{NaiveDate, TimeZone, Utc};

fn day(y: i32, m: u32, d: u32) -> i64 {
    NaiveDate::from_ymd_opt(y, m, d)
        .unwrap()
        .signed_duration_since(NaiveDate::from_ymd_opt(1970, 1, 1).unwrap())
        .num_days()
}

fn at(y: i32, mo: u32, d: u32, h: u32, mi: u32, s: u32) -> i64 {
    Utc.with_ymd_and_hms(y, mo, d, h, mi, s).unwrap().timestamp()
}

fn prop(name: &str, value: &str) -> IcsProperty {
    IcsProperty {
        name: name.to_string(),
        value: Some(value.to_string()),
    }
}

fn titles(ms: &[Meeting]) -> Vec<String> {
    ms.iter().map(|m| m.title.clone()).collect()
}

#[test]
fn ics_timestamps_normalise_to_utc() {
    assert_eq!(parse_ical_datetime("20231225T120000Z"), Some(at(2023, 12, 25, 12, 0, 0)));
    assert_eq!(parse_ical_datetime("20231225T120000"), Some(at(2023, 12, 25, 9, 0, 0)));
    assert_eq!(parse_ical_datetime("20231225"), Some(at(2023, 12, 25, 0, 0, 0)));
    assert_eq!(parse_ical_datetime("not-a-date"), None);
    assert_eq!(parse_ical_datetime("20231325T120000Z"), None);
    assert_eq!(parse_ical_datetime(""), None);
    assert_eq!(parse_ical_datetime("T20231225"), None);
    assert_eq!(parse_ical_datetime("20240101T010000"), Some(at(2023, 12, 31, 22, 0, 0)));
}

#[test]
fn day_arithmetic() {
    assert_eq!(date_of(0), 0);
    assert_eq!(date_of(-1), -1);
    assert_eq!(date_of(86399), 0);
    assert_eq!(date_of(-86400), -1);
    assert_eq!(date_of(-86401), -2);
    assert_eq!(time_of_day(-1), 86399);
    assert_eq!(time_of_day(at(2024, 1, 15, 9, 30, 5)), 9 * 3600 + 30 * 60 + 5);
    assert_eq!(weekday_of(0), Weekday::Thu);
    assert_eq!(weekday_of(-1), Weekday::Wed);
    assert_eq!(weekday_of(day(2024, 1, 15)), Weekday::Mon);
    assert_eq!(weekday_of(day(2024, 1, 21)), Weekday::Sun);
}

#[test]
fn weekly_rule_without_byday_keeps_anchor_weekday() {
    let start = at(2024, 1, 15, 9, 0, 0);
    let end = at(2024, 1, 15, 9, 30, 0);
    let today = day(2024, 1, 22);
    let occurrences = expand_occurrences(start, end, "FREQ=WEEKLY", today);
    assert_eq!(occurrences, vec![(at(2024, 1, 22, 9, 0, 0), at(2024, 1, 22, 9, 30, 0))]);
}

#[test]
fn until_before_today_gives_nothing() {
    let start = at(2024, 1, 15, 9, 0, 0);
    let end = at(2024, 1, 15, 9, 30, 0);
    let today = day(2025, 1, 2);
    assert!(expand_occurrences(start, end, "FREQ=WEEKLY;UNTIL=20250101;BYDAY=MO,TU,WE,TH,FR,SA,SU", today).is_empty());
    assert!(expand_occurrences(start, end, "FREQ=WEEKLY;UNTIL=20250101", today).is_empty());
    let on_until = expand_occurrences(start, end, "FREQ=WEEKLY;UNTIL=20250102;BYDAY=TH,FR", today);
    assert_eq!(on_until, vec![(at(2025, 1, 2, 9, 0, 0), at(2025, 1, 2, 9, 30, 0))]);
    let wednesday = day(2025, 1, 1);
    let last_day = expand_occurrences(start, end, "FREQ=WEEKLY;UNTIL=20250101;BYDAY=WE,TH", wednesday);
    assert_eq!(last_day, vec![(at(2025, 1, 1, 9, 0, 0), at(2025, 1, 1, 9, 30, 0))]);
    let before_until = expand_occurrences(start, end, "FREQ=WEEKLY;UNTIL=20250102;BYDAY=WE,TH", wednesday);
    assert_eq!(before_until.len(), 2);
}

#[test]
fn byday_selects_today_and_tomorrow() {
    let start = at(2024, 1, 15, 22, 0, 0);
    let end = at(2024, 1, 16, 1, 0, 0);
    let today = day(2024, 2, 1);
    let occurrences = expand_occurrences(start, end, "FREQ=WEEKLY;BYDAY=TH,FR", today);
    assert_eq!(
        occurrences,
        vec![
            (at(2024, 2, 1, 22, 0, 0), at(2024, 2, 2, 1, 0, 0)),
            (at(2024, 2, 2, 22, 0, 0), at(2024, 2, 3, 1, 0, 0)),
        ]
    );
    assert!(expand_occurrences(start, end, "FREQ=DAILY", today).is_empty());
    assert!(should_occur_on_day("FREQ=WEEKLY;BYDAY=MO", day(2024, 1, 22), Weekday::Fri));
    assert!(!should_occur_on_day("FREQ=WEEKLY", day(2024, 1, 22), Weekday::Fri));
}

#[test]
fn recurring_event_is_stamped() {
    let start = at(2024, 1, 15, 9, 0, 0);
    let end = at(2024, 1, 15, 9, 30, 0);
    let ms = expand_recurring_event(
        "Standup".to_string(),
        start,
        end,
        "FREQ=WEEKLY;BYDAY=MO,TU",
        Some("Daily".to_string()),
        None,
        day(2024, 1, 22),
    );
    assert_eq!(titles(&ms), vec!["Standup", "Standup"]);
    assert_eq!(ms[1].start_time, at(2024, 1, 23, 9, 0, 0));
    assert_eq!(ms[0].description, Some("Daily".to_string()));
    assert_eq!(ms[0].location, None);
}

#[test]
fn event_properties_become_a_meeting() {
    let event = IcsEvent {
        properties: vec![
            prop("SUMMARY", "Planning"),
            prop("DTSTART", "20240115T100000Z"),
            prop("DTEND", "20240115T110000Z"),
            prop("LOCATION", "Room 1"),
            prop("ATTENDEE", "mailto:someone@example.com"),
        ],
    };
    let ms = convert_ical_event_to_meeting(&event, day(2024, 1, 15));
    assert_eq!(ms.len(), 1);
    assert_eq!(ms[0].title, "Planning");
    assert_eq!(ms[0].start_time, at(2024, 1, 15, 10, 0, 0));
    assert_eq!(ms[0].location, Some("Room 1".to_string()));
    assert_eq!(ms[0].response_status, None);

    let untitled = IcsEvent {
        properties: vec![prop("DTSTART", "20240115"), prop("DTEND", "20240116")],
    };
    let ms = convert_ical_event_to_meeting(&untitled, day(2024, 1, 15));
    assert_eq!(titles(&ms), vec!["Untitled Event"]);

    let missing_end = IcsEvent {
        properties: vec![prop("SUMMARY", "x"), prop("DTSTART", "20240115T100000Z")],
    };
    assert!(convert_ical_event_to_meeting(&missing_end, day(2024, 1, 15)).is_empty());

    let bad_start = IcsEvent {
        properties: vec![prop("DTSTART", "garbageZ"), prop("DTEND", "20240115T110000Z")],
    };
    assert!(convert_ical_event_to_meeting(&bad_start, day(2024, 1, 15)).is_empty());
}

const FEED: &str = "BEGIN:VCALENDAR\r\nVERSION:2.0\r\nBEGIN:VEVENT\r\nSUMMARY:Later\r\nDTSTART:20240115T150000Z\r\nDTEND:20240115T160000Z\r\nEND:VEVENT\r\nBEGIN:VEVENT\r\nSUMMARY:Standup\r\nDTSTART:20240108T090000Z\r\nDTEND:20240108T091500Z\r\nRRULE:FREQ=WEEKLY\r\nEND:VEVENT\r\nBEGIN:VEVENT\r\nSUMMARY:Old\r\nDTSTART:20240101T090000Z\r\nDTEND:20240101T100000Z\r\nEND:VEVENT\r\nEND:VCALENDAR\r\n";

#[test]
fn feed_yields_meetings_of_today_and_tomorrow() {
    let ms = parse_ics_content(FEED, day(2024, 1, 15));
    assert_eq!(titles(&ms), vec!["Standup", "Later"]);
    assert_eq!(ms[0].start_time, at(2024, 1, 15, 9, 0, 0));
    assert!(parse_ics_content("not a calendar", day(2024, 1, 15)).is_empty());
}

#[test]
fn dedup_keeps_longer_duplicate() {
    let a = Meeting::new("Sync".to_string(), 1000, 2000);
    let b = Meeting::new("Sync".to_string(), 1000, 3000);
    let c = Meeting::new("Other".to_string(), 1000, 1500);
    let once = dedup_meetings(&vec![a.clone(), c.clone(), b.clone()]);
    assert_eq!(titles(&once), vec!["Other", "Sync"]);
    assert_eq!(once[1].end_time, 3000);
    let twice = dedup_meetings(&once);
    assert_eq!(titles(&twice), titles(&once));
    let reversed = dedup_meetings(&vec![b, a]);
    assert_eq!(reversed.len(), 1);
    assert_eq!(reversed[0].end_time, 3000);
    assert!(dedup_meetings(&vec![]).is_empty());
}

#[test]
fn one_survivor_per_group_with_latest_end() {
    let ms = vec![
        Meeting::new("Sync".to_string(), 1000, 2000),
        Meeting::new("Sync".to_string(), 1000, 4000),
        Meeting::new("Lunch".to_string(), 1000, 1500),
        Meeting::new("Sync".to_string(), 1000, 3000),
        Meeting::new("Sync".to_string(), 1000, 4000),
    ];
    let kept = dedup_meetings(&ms);
    let syncs: Vec<&Meeting> = kept.iter().filter(|m| m.title == "Sync").collect();
    assert_eq!(syncs.len(), 1);
    assert_eq!(syncs[0].end_time, 4000);
    assert_eq!(kept.len(), 2);
}

#[test]
fn sort_is_stable_for_equal_starts() {
    let ms = vec![
        Meeting::new("b".to_string(), 20, 30),
        Meeting::new("a1".to_string(), 10, 30),
        Meeting::new("a2".to_string(), 10, 20),
    ];
    assert_eq!(titles(&sort_meetings(ms)), vec!["a1", "a2", "b"]);
}

#[test]
fn time_blocks_never_current_or_next() {
    let now = 10_000;
    let ms = vec![
        Meeting::new("[Focus]".to_string(), now - 100, now + 100),
        Meeting::new("[Later block]".to_string(), now + 500, now + 600),
        Meeting::new("Standup".to_string(), now - 50, now + 50),
        Meeting::new("Review".to_string(), now + 1000, now + 2000),
    ];
    assert_eq!(current_meeting(&ms, now).unwrap().title, "Standup");
    assert_eq!(next_meeting(&ms, now).unwrap().title, "Review");
    assert_eq!(titles(&active_time_blocks(&ms, now)), vec!["[Focus]"]);

    let only_block = vec![Meeting::new("[Focus]".to_string(), now - 100, now + 100)];
    assert!(current_meeting(&only_block, now).is_none());
    assert!(next_meeting(&only_block, now).is_none());
    assert_eq!(active_time_blocks(&only_block, now).len(), 1);
}

#[test]
fn status_boundaries_are_inclusive() {
    let m = Meeting::new("m".to_string(), 100, 200);
    assert_eq!(m.status_at(99), MeetingStatus::Upcoming);
    assert_eq!(m.status_at(100), MeetingStatus::InProgress);
    assert_eq!(m.status_at(200), MeetingStatus::InProgress);
    assert_eq!(m.status_at(201), MeetingStatus::Ended);
    assert_eq!(m.duration_minutes(), 1);
}

#[test]
fn countdown_and_clock_formats() {
    let m = Meeting::new("m".to_string(), at(2024, 1, 15, 9, 5, 0), at(2024, 1, 15, 10, 0, 0));
    let start = m.start_time;
    assert_eq!(m.format_time_remaining_at(start - 90), "01:30");
    assert_eq!(m.format_time_remaining_at(start - 3 * 3600 - 61), "03:01:01");
    assert_eq!(m.format_time_remaining_at(start + 10), "54:50");
    assert_eq!(m.format_time_remaining_at(m.end_time + 1), "00:00");
    assert_eq!(m.formatted_start_time(), "09:05");
    assert_eq!(m.formatted_time_range(), "09:05 - 10:00");
    assert_eq!(m.formatted_date(), "2024-01-15");
    let block = Meeting::new("[Deep work]".to_string(), 0, 1);
    assert_eq!(block.time_block_name(), Some("Deep work".to_string()));
    assert_eq!(Meeting::new("[]".to_string(), 0, 1).time_block_name(), None);
}

#[test]
fn external_source_wins_when_earlier_or_alone() {
    let now = 10_000;
    let local = vec![
        Meeting::new("Local now".to_string(), now - 100, now + 100),
        Meeting::new("Local next".to_string(), now + 500, now + 600),
    ];
    let external = vec![
        Meeting::new("External now".to_string(), now - 200, now + 50),
        Meeting::new("External next".to_string(), now + 700, now + 800),
    ];
    let (current, next) = merge_external(
        current_meeting(&local, now),
        next_meeting(&local, now),
        &external,
        now,
    );
    assert_eq!(current.unwrap().title, "External now");
    assert_eq!(next.unwrap().title, "Local next");

    let (current, next) = merge_external(None, None, &external, now);
    assert_eq!(current.unwrap().title, "External now");
    assert_eq!(next.unwrap().title, "External next");

    let update = meeting_update(&local, &vec![], now);
    assert_eq!(update.current_meeting.unwrap().title, "Local now");
    assert_eq!(update.countdown_seconds, Some(100));
    let update = meeting_update(&vec![], &vec![], now);
    assert!(update.current_meeting.is_none());
    assert_eq!(update.countdown_seconds, None);
}

#[test]
fn cache_serves_within_ttl_and_refreshes_after() {
    let mut service = CalendarService::new_with_ics_file("calendar.ics".to_string());
    let fetched_at = at(2024, 1, 15, 8, 0, 0);
    assert!(!service.is_cache_valid(fetched_at));
    assert!(service.get_meetings_for_today_and_tomorrow(fetched_at).is_none());

    let stored = service.refresh(
        vec![Ok(FEED.to_string()), Err(SourceError::SourceUnavailable), Ok(FEED.to_string())],
        fetched_at,
        day(2024, 1, 15),
    );
    assert_eq!(titles(&stored), vec!["Standup", "Later"]);

    let served = service.get_meetings_for_today_and_tomorrow(fetched_at + 299).unwrap();
    assert_eq!(titles(&served), titles(&stored));
    assert!(service.is_cache_valid(fetched_at + 299));
    assert!(!service.is_cache_valid(fetched_at + 300));
    assert!(service.get_meetings_for_today_and_tomorrow(fetched_at + 301).is_none());
    assert!(!service.is_cache_valid(fetched_at - 1));

    let (current, next) = service.get_current_and_next_meetings(at(2024, 1, 15, 9, 10, 0));
    assert_eq!(current.unwrap().title, "Standup");
    assert_eq!(next.unwrap().title, "Later");
}

#[test]
fn empty_refresh_still_resets_ttl() {
    let mut service = CalendarService::new_with_ics_file("calendar.ics".to_string());
    let stored = service.refresh(vec![Err(SourceError::SourceNotFound)], 5_000, 0);
    assert!(stored.is_empty());
    assert_eq!(service.get_meetings_for_today_and_tomorrow(5_100).map(|v| v.len()), Some(0));
}

#[test]
fn locators_are_classified() {
    assert!(matches!(Source::from_locator("https://example.com/a.ics"), Source::Remote(_)));
    assert!(matches!(Source::from_locator("http://example.com/a.ics"), Source::Remote(_)));
    assert!(matches!(Source::from_locator("./local.ics"), Source::Local(_)));
    assert!(matches!(Source::from_locator("httpx://odd"), Source::Local(_)));
}

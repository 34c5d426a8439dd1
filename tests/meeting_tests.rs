use calendar_monitor::meeting::{Meeting, ResponseStatus};
use calendar_monitor::schedule::{dedup_meetings, sort_meetings};
use chrono::Utc;

fn now() -> i64 {
    Utc::now().timestamp()
}

#[test]
fn test_meeting_deduplication_logic() {
    let now = now();
    let meeting1 = Meeting::new("Duplicate Meeting".to_string(), now, now + 3600);
    let meeting2 = Meeting::new("Duplicate Meeting".to_string(), now, now + 2 * 3600);

    assert_eq!(meeting1.title, meeting2.title);
    assert_eq!(meeting1.start_time, meeting2.start_time);
    assert!(meeting2.end_time > meeting1.end_time);

    let kept = dedup_meetings(&vec![meeting1, meeting2]);
    assert_eq!(kept.len(), 1);
    assert_eq!(kept[0].end_time, now + 2 * 3600);
}

#[test]
fn test_meeting_filtering_by_status() {
    let now = now();
    let meetings = vec![
        Meeting::new("Past Meeting".to_string(), now - 2 * 3600, now - 3600),
        Meeting::new("Current Meeting".to_string(), now - 30 * 60, now + 30 * 60),
        Meeting::new("Future Meeting".to_string(), now + 3600, now + 2 * 3600),
    ];

    let current_meetings: Vec<_> = meetings.iter().filter(|m| m.is_active()).collect();
    let upcoming_meetings: Vec<_> = meetings.iter().filter(|m| m.is_upcoming()).collect();
    let ended_meetings: Vec<_> = meetings.iter().filter(|m| m.has_ended()).collect();

    assert_eq!(current_meetings.len(), 1);
    assert_eq!(upcoming_meetings.len(), 1);
    assert_eq!(ended_meetings.len(), 1);

    assert_eq!(current_meetings[0].title, "Current Meeting");
    assert_eq!(upcoming_meetings[0].title, "Future Meeting");
    assert_eq!(ended_meetings[0].title, "Past Meeting");
}

#[test]
fn test_time_blocks_vs_regular_meetings() {
    let meetings = vec![
        Meeting::new("[Time Block]".to_string(), now(), now() + 3600),
        Meeting::new("Regular Meeting".to_string(), now(), now() + 3600),
        Meeting::new("[Another Time Block]".to_string(), now(), now() + 3600),
    ];

    let time_blocks: Vec<_> = meetings.iter().filter(|m| m.is_time_block()).collect();
    let regular_meetings: Vec<_> = meetings.iter().filter(|m| !m.is_time_block()).collect();

    assert_eq!(time_blocks.len(), 2);
    assert_eq!(regular_meetings.len(), 1);
    assert_eq!(regular_meetings[0].title, "Regular Meeting");
}

#[test]
fn test_meeting_sorting() {
    let now = now();
    let meetings = vec![
        Meeting::new("Third".to_string(), now + 2 * 3600, now + 3 * 3600),
        Meeting::new("First".to_string(), now, now + 3600),
        Meeting::new("Second".to_string(), now + 3600, now + 2 * 3600),
    ];

    let meetings = sort_meetings(meetings);

    assert_eq!(meetings[0].title, "First");
    assert_eq!(meetings[1].title, "Second");
    assert_eq!(meetings[2].title, "Third");
}

#[test]
fn test_response_status_functionality() {
    let now = now();
    let meeting = Meeting::new("Test Meeting".to_string(), now, now + 3600)
        .with_response_status(ResponseStatus::Tentative);
    assert_eq!(meeting.response_status, Some(ResponseStatus::Tentative));

    let meeting_no_status = Meeting::new("Test Meeting".to_string(), now, now + 3600);
    assert_eq!(meeting_no_status.response_status, None);
}

#[test]
fn test_should_display_filtering() {
    let now = now();

    let accepted = Meeting::new("Accepted Meeting".to_string(), now, now + 3600)
        .with_response_status(ResponseStatus::Accepted);
    assert!(accepted.should_display());

    let tentative = Meeting::new("Tentative Meeting".to_string(), now, now + 3600)
        .with_response_status(ResponseStatus::Tentative);
    assert!(tentative.should_display());

    let no_response = Meeting::new("No Response Meeting".to_string(), now, now + 3600)
        .with_response_status(ResponseStatus::NoResponse);
    assert!(no_response.should_display());

    let declined = Meeting::new("Declined Meeting".to_string(), now, now + 3600)
        .with_response_status(ResponseStatus::Declined);
    assert!(!declined.should_display());

    let no_status = Meeting::new("ICS Meeting".to_string(), now, now + 3600);
    assert!(no_status.should_display());
}

#[test]
fn test_response_status_labels() {
    let now = now();

    let no_response = Meeting::new("Meeting".to_string(), now, now + 3600)
        .with_response_status(ResponseStatus::NoResponse);
    assert_eq!(no_response.response_status_label(), Some("Not Responded".to_string()));

    let tentative = Meeting::new("Meeting".to_string(), now, now + 3600)
        .with_response_status(ResponseStatus::Tentative);
    assert_eq!(tentative.response_status_label(), Some("Tentative".to_string()));

    let declined = Meeting::new("Meeting".to_string(), now, now + 3600)
        .with_response_status(ResponseStatus::Declined);
    assert_eq!(declined.response_status_label(), Some("Declined".to_string()));

    let accepted = Meeting::new("Meeting".to_string(), now, now + 3600)
        .with_response_status(ResponseStatus::Accepted);
    assert_eq!(accepted.response_status_label(), None);

    let no_status = Meeting::new("Meeting".to_string(), now, now + 3600);
    assert_eq!(no_status.response_status_label(), None);
}

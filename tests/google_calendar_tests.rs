use calendar_monitor::google_calendar::{
    calendar_events_url, convert_google_events_to_meetings, convert_single_event_to_meeting,
    GoogleCalendarEvent, GoogleCalendarResponse, GoogleEventError, GoogleEventTime, GoogleOAuthConfig,
};

fn timed(value: &str) -> Option<GoogleEventTime> {
    Some(GoogleEventTime {
        date_time: Some(value.to_string()),
        date: None,
        time_zone: None,
    })
}

fn event(summary: Option<&str>, start: Option<GoogleEventTime>, end: Option<GoogleEventTime>) -> GoogleCalendarEvent {
    GoogleCalendarEvent {
        id: "test_event_id".to_string(),
        summary: summary.map(|s| s.to_string()),
        start,
        end,
        description: Some("Test description".to_string()),
        location: Some("Test location".to_string()),
    }
}

#[test]
fn test_google_oauth_config_creation() {
    let config = GoogleOAuthConfig {
        client_id: "test_client_id".to_string(),
        client_secret: "test_client_secret".to_string(),
        redirect_uri: "http://localhost:3000/auth/google/callback".to_string(),
    };

    assert_eq!(config.client_id, "test_client_id");
    assert_eq!(config.client_secret, "test_client_secret");
    assert_eq!(config.redirect_uri, "http://localhost:3000/auth/google/callback");
}

#[test]
fn test_google_event_time_parsing() {
    let event_time = GoogleEventTime {
        date_time: Some("2024-01-15T10:00:00Z".to_string()),
        date: None,
        time_zone: None,
    };

    assert_eq!(event_time.date_time, Some("2024-01-15T10:00:00Z".to_string()));
    assert!(event_time.date.is_none());
}

#[test]
fn timed_event_becomes_meeting() {
    let e = event(Some("Test Meeting"), timed("2024-01-15T10:00:00Z"), timed("2024-01-15T11:00:00+01:00"));
    let m = convert_single_event_to_meeting(&e).unwrap().unwrap();
    assert_eq!(m.title, "Test Meeting");
    assert_eq!(m.start_time, 1705312800);
    assert_eq!(m.end_time, 1705312800);
    assert_eq!(m.description, Some("Test description".to_string()));
    assert_eq!(m.location, Some("Test location".to_string()));
    assert_eq!(m.response_status, None);
}

#[test]
fn untitled_and_all_day_events() {
    let e = event(None, timed("2024-01-15T10:00:00Z"), timed("2024-01-15T10:30:00Z"));
    let m = convert_single_event_to_meeting(&e).unwrap().unwrap();
    assert_eq!(m.title, "Untitled Event");
    assert_eq!(m.end_time - m.start_time, 1800);

    let all_day = GoogleEventTime {
        date_time: None,
        date: Some("2024-01-15".to_string()),
        time_zone: None,
    };
    let e = event(Some("Holiday"), Some(all_day.clone()), Some(all_day));
    assert!(convert_single_event_to_meeting(&e).unwrap().is_none());

    let e = event(Some("No times"), None, None);
    assert!(convert_single_event_to_meeting(&e).unwrap().is_none());
}

#[test]
fn bad_times_are_errors() {
    let e = event(Some("Bad"), timed("yesterday"), timed("2024-01-15T10:30:00Z"));
    assert_eq!(convert_single_event_to_meeting(&e).unwrap_err(), GoogleEventError::InvalidStartTime);
    let e = event(Some("Bad"), timed("2024-01-15T10:30:00Z"), timed("later"));
    assert_eq!(convert_single_event_to_meeting(&e).unwrap_err(), GoogleEventError::InvalidEndTime);
}

#[test]
fn response_conversion_keeps_order_and_skips_untimed() {
    let response = GoogleCalendarResponse {
        items: Some(vec![
            event(Some("A"), timed("2024-01-15T10:00:00Z"), timed("2024-01-15T11:00:00Z")),
            event(Some("Skipped"), None, None),
            event(Some("B"), timed("2024-01-15T09:00:00Z"), timed("2024-01-15T09:30:00Z")),
        ]),
    };
    let meetings = convert_google_events_to_meetings(&response).unwrap();
    assert_eq!(meetings.len(), 2);
    assert_eq!(meetings[0].title, "A");
    assert_eq!(meetings[1].title, "B");

    let empty = GoogleCalendarResponse { items: None };
    assert!(convert_google_events_to_meetings(&empty).unwrap().is_empty());

    let failing = GoogleCalendarResponse {
        items: Some(vec![
            event(Some("A"), timed("2024-01-15T10:00:00Z"), timed("2024-01-15T11:00:00Z")),
            event(Some("Bad"), timed("nope"), timed("2024-01-15T11:00:00Z")),
        ]),
    };
    assert_eq!(convert_google_events_to_meetings(&failing).unwrap_err(), GoogleEventError::InvalidStartTime);
}

#[test]
fn events_url_encodes_the_window() {
    let url = calendar_events_url(1705312800);
    assert_eq!(
        url,
        "https://www.googleapis.com/calendar/v3/calendars/primary/events?timeMin=2024-01-15T10%3A00%3A00Z&timeMax=2024-01-16T10%3A00%3A00Z&singleEvents=true&orderBy=startTime&maxResults=50"
    );
}

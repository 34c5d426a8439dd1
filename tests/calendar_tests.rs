use calendar_monitor::calendar::CalendarService;
use calendar_monitor::config::{Config, EnvVars, GoogleConfig, IcsConfig, ServerConfig};
use calendar_monitor::meeting::{Meeting, ResponseStatus};
use chrono::{NaiveDate, Utc};

fn day_number(date: NaiveDate) -> i64 {
    date.signed_duration_since(NaiveDate::from_ymd_opt(1970, 1, 1).unwrap()).num_days()
}

fn now() -> i64 {
    Utc::now().timestamp()
}

fn create_test_config() -> Config {
    Config {
        server: ServerConfig {
            host: "127.0.0.1".to_string(),
            port: 3000,
            cache_ttl_seconds: 300,
        },
        ics: IcsConfig {
            file_paths: vec![
                "test_calendar1.ics".to_string(),
                "test_calendar2.ics".to_string(),
            ],
        },
        google: GoogleConfig {
            client_id: None,
            client_secret: None,
            redirect_uri: None,
        },
    }
}

fn create_test_service() -> CalendarService {
    let config = create_test_config();
    CalendarService::new_from_config(&config, &EnvVars::default())
}

#[test]
fn test_calendar_service_from_config() {
    let config = create_test_config();
    let service = CalendarService::new_from_config(&config, &EnvVars::default());
    assert_eq!(service.cache_ttl(), 300);
    assert_eq!(service.sources().len(), 2);
}

#[test]
fn test_calendar_service_from_config_no_ics() {
    let config = Config {
        server: ServerConfig {
            host: "127.0.0.1".to_string(),
            port: 3000,
            cache_ttl_seconds: 600,
        },
        ics: IcsConfig { file_paths: vec![] },
        google: GoogleConfig {
            client_id: None,
            client_secret: None,
            redirect_uri: None,
        },
    };
    let service = CalendarService::new_from_config(&config, &EnvVars::default());
    assert_eq!(service.cache_ttl(), 600);
    assert_eq!(service.sources().len(), 0);
}

#[test]
fn test_parse_rrule_until() {
    let service = create_test_service();

    let rrule = "FREQ=WEEKLY;WKST=MO;UNTIL=20250620T235959Z;BYDAY=MO,TU,WE,TH,FR";
    let until_date = service.parse_rrule_until(rrule);
    assert_eq!(until_date, Some(day_number(NaiveDate::from_ymd_opt(2025, 6, 20).unwrap())));

    let rrule2 = "FREQ=WEEKLY;UNTIL=20251225";
    let until_date2 = service.parse_rrule_until(rrule2);
    assert_eq!(until_date2, Some(day_number(NaiveDate::from_ymd_opt(2025, 12, 25).unwrap())));

    let rrule3 = "FREQ=WEEKLY;BYDAY=MO,TU,WE,TH,FR";
    let until_date3 = service.parse_rrule_until(rrule3);
    assert_eq!(until_date3, None);

    let rrule4 = "FREQ=WEEKLY;UNTIL=invalid-date";
    let until_date4 = service.parse_rrule_until(rrule4);
    assert_eq!(until_date4, None);
}

#[test]
fn test_meeting_status() {
    let now = now();

    let current_meeting = Meeting::new("Current Meeting".to_string(), now - 30 * 60, now + 30 * 60);
    assert!(current_meeting.is_active());
    assert!(!current_meeting.is_upcoming());
    assert!(!current_meeting.has_ended());

    let upcoming_meeting = Meeting::new("Upcoming Meeting".to_string(), now + 30 * 60, now + 90 * 60);
    assert!(!upcoming_meeting.is_active());
    assert!(upcoming_meeting.is_upcoming());
    assert!(!upcoming_meeting.has_ended());

    let ended_meeting = Meeting::new("Ended Meeting".to_string(), now - 90 * 60, now - 30 * 60);
    assert!(!ended_meeting.is_active());
    assert!(!ended_meeting.is_upcoming());
    assert!(ended_meeting.has_ended());
}

#[test]
fn test_time_block_detection() {
    let meeting1 = Meeting::new("[Time Block]".to_string(), now(), now() + 3600);
    assert!(meeting1.is_time_block());

    let meeting2 = Meeting::new("Regular Meeting".to_string(), now(), now() + 3600);
    assert!(!meeting2.is_time_block());
}

#[test]
fn test_meeting_countdown() {
    let now = now();
    let meeting = Meeting::new("Test Meeting".to_string(), now - 30 * 60, now + 30 * 60);

    let countdown = meeting.time_until_end();
    assert!(countdown > 25 * 60);
    assert!(countdown < 35 * 60);
}

#[test]
fn test_meeting_builder() {
    let meeting = Meeting::new("Test Meeting".to_string(), now(), now() + 3600)
        .with_description("Test description".to_string())
        .with_location("Test location".to_string());

    assert_eq!(meeting.title, "Test Meeting");
    assert_eq!(meeting.description, Some("Test description".to_string()));
    assert_eq!(meeting.location, Some("Test location".to_string()));
}

#[test]
fn test_ics_attendee_status_parsing() {
    let accepted_meeting = Meeting::new("Accepted ICS Event".to_string(), now(), now() + 3600)
        .with_response_status(ResponseStatus::Accepted);
    assert!(accepted_meeting.should_display());
    assert_eq!(accepted_meeting.response_status_label(), None);

    let declined_meeting = Meeting::new("Declined ICS Event".to_string(), now(), now() + 3600)
        .with_response_status(ResponseStatus::Declined);
    assert!(!declined_meeting.should_display());
    assert_eq!(declined_meeting.response_status_label(), Some("Declined".to_string()));

    let tentative_meeting = Meeting::new("Tentative ICS Event".to_string(), now(), now() + 3600)
        .with_response_status(ResponseStatus::Tentative);
    assert!(tentative_meeting.should_display());
    assert_eq!(tentative_meeting.response_status_label(), Some("Tentative".to_string()));

    let no_response_meeting = Meeting::new("No Response ICS Event".to_string(), now(), now() + 3600)
        .with_response_status(ResponseStatus::NoResponse);
    assert!(no_response_meeting.should_display());
    assert_eq!(no_response_meeting.response_status_label(), Some("Not Responded".to_string()));
}

#[test]
fn test_ics_filtering_consistency_with_google_calendar() {
    let test_cases = [
        (ResponseStatus::Accepted, true, None),
        (ResponseStatus::Declined, false, Some("Declined".to_string())),
        (ResponseStatus::Tentative, true, Some("Tentative".to_string())),
        (ResponseStatus::NoResponse, true, Some("Not Responded".to_string())),
    ];

    for (status, should_display, expected_label) in test_cases {
        let meeting = Meeting::new(format!("ICS Event - {:?}", status), now(), now() + 3600)
            .with_response_status(status);

        assert_eq!(meeting.should_display(), should_display, "Response status {:?} should_display mismatch", status);
        assert_eq!(meeting.response_status_label(), expected_label, "Response status {:?} label mismatch", status);
    }
}

#[test]
fn test_ics_events_without_response_status() {
    let meeting_no_status = Meeting::new("Regular ICS Event".to_string(), now(), now() + 3600);

    assert!(meeting_no_status.should_display());
    assert_eq!(meeting_no_status.response_status_label(), None);
    assert_eq!(meeting_no_status.response_status, None);
}

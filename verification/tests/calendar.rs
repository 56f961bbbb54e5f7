use base64::Engine;
use chrono::NaiveDate;
use workout_plans::{
    create_calendar_from_input, create_workout_calendar, create_workouts, deobfuscation, segment,
    PlanError,
};

fn encode(text: &str) -> String {
    base64::engine::general_purpose::STANDARD.encode(text.as_bytes())
}

#[test]
fn decoding_inverts_encoding() {
    let doc = "1. TAG: Grüße\nKörper und Geist\n";
    assert_eq!(deobfuscation(&encode(doc)).unwrap(), doc);
    assert_eq!(deobfuscation("").unwrap(), "");
}

#[test]
fn decoding_recovers_text() {
    assert_eq!(deobfuscation("aGk=").unwrap(), "hi");
}

#[test]
fn invalid_encoded_data_is_refused() {
    assert!(matches!(
        deobfuscation("not valid encoded data!!"),
        Err(PlanError::DecodeError)
    ));
}

#[test]
fn invalid_utf8_is_refused() {
    let bad = base64::engine::general_purpose::STANDARD.encode([0xFFu8, 0xFE]);
    assert!(matches!(deobfuscation(&bad), Err(PlanError::EncodingError)));
}

#[test]
fn test_create_workout_calendar() {
    let workouts = create_workouts(segment("1. TAG\nabc\n2. TAG\ndef\n3. TAG\nghi")).unwrap();
    let cal = create_workout_calendar(NaiveDate::from_ymd_opt(2000, 1, 2).unwrap(), workouts)
        .unwrap();
    let cal = cal.to_string();
    assert!(cal.contains("X-WR-CALNAME"));
    assert!(cal.contains("DTEND;VALUE=DATE:20000102"));
    assert!(cal.contains("DTSTART;VALUE=DATE:20000102"));
    assert!(cal.contains("DESCRIPTION:3. TAG"));
    assert!(cal.contains("ghi"));
    assert!(cal.contains("SUMMARY:3. TAG"));
}

#[test]
fn events_fall_on_consecutive_dates() {
    let workouts = create_workouts(segment("2. TAG\ndef\n3. TAG\nghi")).unwrap();
    let cal = create_workout_calendar(NaiveDate::from_ymd_opt(2000, 1, 2).unwrap(), workouts)
        .unwrap();
    let cal = cal.to_string();
    assert!(cal.contains("DTSTART;VALUE=DATE:20000102"));
    assert!(cal.contains("DTSTART;VALUE=DATE:20000103"));
    assert!(cal.contains("DESCRIPTION:2. TAG\\ndef"));
    assert!(cal.contains("DESCRIPTION:3. TAG\\nghi"));
}

fn sixty_day_encoded_document() -> String {
    let mut doc = String::new();
    for i in 1..=60 {
        if i == 59 {
            doc.push_str("59. TAG: ENJOY\n");
        } else {
            doc.push_str(&format!("{}. TAG\n", i));
        }
        if i == 60 {
            doc.push_str("Pause\n");
        } else {
            doc.push_str("Training\n");
        }
    }
    encode(&doc)
}

#[test]
fn test_create_calendar_from_input() {
    let cal = create_calendar_from_input(
        &sixty_day_encoded_document(),
        NaiveDate::from_ymd_opt(2025, 12, 31).unwrap(),
        59,
    )
    .unwrap();
    let cal = cal.to_string();
    assert!(cal.contains("DESCRIPTION:59. TAG: ENJOY"));
    assert!(cal.contains("DESCRIPTION:60. TAG"));
    assert!(cal.contains("DTEND;VALUE=DATE:20260101"));
    assert!(cal.contains("Pause"));
}

#[test]
fn dates_beyond_the_calendar_range_are_refused() {
    let workouts = create_workouts(segment("1. TAG\na\n2. TAG\nb")).unwrap();
    let err = create_workout_calendar(NaiveDate::MAX, workouts).unwrap_err();
    assert!(matches!(err, PlanError::DateOutOfRange));
}

#[test]
fn pipeline_propagates_decode_errors() {
    let err = create_calendar_from_input(
        "!!!",
        NaiveDate::from_ymd_opt(2020, 5, 29).unwrap(),
        1,
    )
    .unwrap_err();
    assert!(matches!(err, PlanError::DecodeError));
}

#[test]
fn pipeline_of_markerless_document_is_an_empty_calendar() {
    let cal = create_calendar_from_input(
        &encode("nothing to schedule here"),
        NaiveDate::from_ymd_opt(2020, 5, 29).unwrap(),
        1,
    )
    .unwrap();
    let cal = cal.to_string();
    assert!(!cal.contains("VEVENT"));
    assert!(cal.contains("X-WR-CALNAME:FitmacherFormel"));
}

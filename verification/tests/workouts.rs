use workout_plans::{create_workouts, segment, select, PlanError, Workout};

#[test]
fn test_new_workout() {
    let workout = Workout::new("1. Tag".to_string(), "abc  \n  ".to_string()).unwrap();
    assert_eq!(workout.day, 1);
    assert_eq!(workout.title, "1. Tag");
    assert_eq!(workout.body, "abc");
}

fn sixty_day_document() -> String {
    let mut doc = String::new();
    for i in 1..=60 {
        if i == 59 {
            doc.push_str("59. TAG: ENJOY\n");
        } else {
            doc.push_str(&format!("{}. TAG\n", i));
        }
        let body = match i {
            1 => "Atmen",
            2 => "Muskelkater",
            3 => "halte durch",
            _ => "Pause und Wasser",
        };
        doc.push_str(body);
        doc.push('\n');
    }
    doc
}

#[test]
fn test_create_workouts() {
    let workouts = create_workouts(segment(&sixty_day_document())).unwrap();
    assert_eq!(60, workouts.len());
    assert_eq!(workouts[0].day, 1);
    assert!(workouts[0].title.contains("1. TAG"));
    assert!(workouts[0].body.contains("Atmen"));
    assert_eq!(workouts[1].day, 2);
    assert!(workouts[1].title.contains("2. TAG"));
    assert!(workouts[1].body.contains("Muskelkater"));
    assert_eq!(workouts[2].day, 3);
    assert!(workouts[2].title.contains("3. TAG"));
    assert!(workouts[2].body.contains("halte durch"));
    assert_eq!(workouts[59].day, 60);
    assert!(workouts[59].title.contains("60. TAG"));
}

#[test]
fn segment_three_markers() {
    let chunks = segment("1. TAG\nabc\n2. TAG\ndef\n3. TAG\nghi");
    let expected: Vec<String> = vec![
        "1. TAG".to_string(),
        "\nabc\n".to_string(),
        "2. TAG".to_string(),
        "\ndef\n".to_string(),
        "3. TAG".to_string(),
        "\nghi".to_string(),
    ];
    assert_eq!(chunks, expected);
}

#[test]
fn build_three_records() {
    let workouts = create_workouts(segment("1. TAG\nabc\n2. TAG\ndef\n3. TAG\nghi")).unwrap();
    assert_eq!(workouts.len(), 3);
    assert_eq!(workouts[0].title, "1. TAG");
    assert_eq!(workouts[0].body, "\nabc");
    assert_eq!(workouts[0].day, 1);
    assert_eq!(workouts[1].title, "2. TAG");
    assert_eq!(workouts[1].body, "\ndef");
    assert_eq!(workouts[1].day, 2);
    assert_eq!(workouts[2].title, "3. TAG");
    assert_eq!(workouts[2].body, "\nghi");
    assert_eq!(workouts[2].day, 3);
}

#[test]
fn select_keeps_days_at_threshold() {
    let workouts = create_workouts(segment("1. TAG\nabc\n2. TAG\ndef\n3. TAG\nghi")).unwrap();
    let kept = select(workouts, 2);
    assert_eq!(kept.len(), 2);
    assert_eq!(kept[0].day, 2);
    assert_eq!(kept[0].body, "\ndef");
    assert_eq!(kept[1].day, 3);
    assert_eq!(kept[1].body, "\nghi");
}

#[test]
fn select_zero_keeps_everything() {
    let workouts = create_workouts(segment("1. TAG\nabc\n2. TAG\ndef")).unwrap();
    let kept = select(workouts, 0);
    assert_eq!(kept.len(), 2);
    assert_eq!(kept[0].day, 1);
    assert_eq!(kept[1].day, 2);
}

#[test]
fn selecting_twice_changes_nothing() {
    let workouts = create_workouts(segment("1. TAG\na\n2. TAG\nb\n3. TAG\nc")).unwrap();
    let once = select(workouts, 2);
    let twice = select(once.clone(), 2);
    assert_eq!(once.len(), twice.len());
    for (a, b) in once.iter().zip(twice.iter()) {
        assert_eq!(a.title, b.title);
        assert_eq!(a.body, b.body);
        assert_eq!(a.day, b.day);
    }
}

#[test]
fn select_above_all_days_is_empty() {
    let workouts = create_workouts(segment("1. TAG\nabc\n2. TAG\ndef")).unwrap();
    let kept = select(workouts, 99);
    assert!(kept.is_empty());
}

#[test]
fn malformed_title_is_refused() {
    let err = Workout::new("TAG\nabc".to_string(), "body".to_string()).unwrap_err();
    match err {
        PlanError::MalformedWorkoutTitle(t) => assert_eq!(t, "TAG\nabc"),
        other => panic!("wrong error: {:?}", other),
    }
}

#[test]
fn malformed_title_fails_the_build() {
    let err = create_workouts(vec!["TAG\nabc".to_string(), "body".to_string()]).unwrap_err();
    assert!(matches!(err, PlanError::MalformedWorkoutTitle(_)));
}

#[test]
fn day_above_range_is_refused() {
    assert!(Workout::new("256. TAG".to_string(), String::new()).is_err());
    assert!(Workout::new("007. TAG".to_string(), String::new()).unwrap().day == 7);
    assert!(Workout::new("1.2. TAG".to_string(), String::new()).unwrap().day == 1);
}

#[test]
fn segment_without_markers_is_empty() {
    assert!(segment("").is_empty());
    assert!(segment("no markers in this text\nat all").is_empty());
}

#[test]
fn segment_discards_text_before_first_marker() {
    let chunks = segment("preamble text\n12. TAG rest\nbody");
    let expected: Vec<String> = vec!["12. TAG rest".to_string(), "\nbody".to_string()];
    assert_eq!(chunks, expected);
}

#[test]
fn trailing_marker_gets_empty_body() {
    let workouts = create_workouts(segment("1. TAG")).unwrap();
    assert_eq!(workouts.len(), 1);
    assert_eq!(workouts[0].title, "1. TAG");
    assert_eq!(workouts[0].body, "");
}

#[test]
fn markers_on_consecutive_lines_give_empty_body() {
    let workouts = create_workouts(segment("1. TAG\n2. TAG\nx")).unwrap();
    assert_eq!(workouts.len(), 2);
    assert_eq!(workouts[0].body, "");
    assert_eq!(workouts[1].body, "\nx");
}

#[test]
fn build_length_pairs_chunks() {
    for doc in ["1. TAG", "1. TAG\na", "1. TAG\na\n2. TAG", "1. TAG\na\n2. TAG\nb"] {
        let chunks = segment(doc);
        let n = chunks.len();
        let workouts = create_workouts(chunks).unwrap();
        assert_eq!(workouts.len(), n.div_ceil(2));
    }
}

#[test]
fn days_increase_in_document_order() {
    let workouts = create_workouts(segment(&sixty_day_document())).unwrap();
    for pair in workouts.windows(2) {
        assert!(pair[0].day < pair[1].day);
    }
}

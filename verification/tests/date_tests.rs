use do_tasks::date::{parse_date, validate_date};

fn valid(s: &str) -> bool {
    validate_date(&s.to_string())
}

#[test]
fn accepts_well_formed_dates() {
    assert!(valid("05-03-2024"));
    assert!(valid("01-01-0000"));
    assert!(valid("31-12-9999"));
    assert!(valid("10-07-2025"));
}

#[test]
fn rejects_bad_shapes() {
    assert!(!valid(""));
    assert!(!valid("5-3-2024"));
    assert!(!valid("05/03/2024"));
    assert!(!valid("05-03-24"));
    assert!(!valid("05-03-20244"));
    assert!(!valid("ab-cd-efgh"));
    assert!(!valid("05-03-2024 "));
}

#[test]
fn rejects_impossible_calendar_days() {
    assert!(!valid("31-13-2024"));
    assert!(!valid("00-01-2024"));
    assert!(!valid("01-00-2024"));
    assert!(!valid("32-01-2024"));
    assert!(!valid("31-04-2024"));
    assert!(!valid("31-06-2024"));
    assert!(!valid("31-09-2024"));
    assert!(!valid("31-11-2024"));
}

#[test]
fn knows_leap_years() {
    assert!(valid("29-02-2024"));
    assert!(valid("29-02-2000"));
    assert!(!valid("29-02-2023"));
    assert!(!valid("29-02-1900"));
    assert!(!valid("30-02-2024"));
}

#[test]
fn parse_returns_the_supplied_components() {
    assert_eq!(parse_date(&"05-03-2024".to_string()), Some((5, 3, 2024)));
    assert_eq!(parse_date(&"29-02-2024".to_string()), Some((29, 2, 2024)));
    assert_eq!(parse_date(&"31-12-0001".to_string()), Some((31, 12, 1)));
    assert_eq!(parse_date(&"31-13-2024".to_string()), None);
}

#[test]
fn accepted_dates_round_trip() {
    for s in ["05-03-2024", "29-02-2024", "01-01-0000", "31-12-9999", "10-07-2025"] {
        let (d, m, y) = parse_date(&s.to_string()).unwrap();
        let rendered = format!("{:02}-{:02}-{:04}", d, m, y);
        assert_eq!(rendered, s);
    }
}

use cyu_calendar::date::{CyuDate, CyuDateTime};

#[test]
fn date_new_accepts_proper_dates() {
    assert!(CyuDate::new(2024, 9, 29).is_some());
    assert!(CyuDate::new(2024, 2, 29).is_some());
    assert!(CyuDate::new(2000, 2, 29).is_some());
    assert!(CyuDate::new(0, 1, 1).is_some());
    assert!(CyuDate::new(9999, 12, 31).is_some());
}

#[test]
fn date_new_rejects_improper_dates() {
    assert!(CyuDate::new(2023, 2, 29).is_none());
    assert!(CyuDate::new(1900, 2, 29).is_none());
    assert!(CyuDate::new(2024, 13, 1).is_none());
    assert!(CyuDate::new(2024, 0, 1).is_none());
    assert!(CyuDate::new(2024, 4, 31).is_none());
    assert!(CyuDate::new(2024, 1, 0).is_none());
    assert!(CyuDate::new(10000, 1, 1).is_none());
}

#[test]
fn date_wire_form_is_padded() {
    let d = CyuDate::new(987, 4, 5).unwrap();
    assert_eq!(d.to_wire(), "0987-04-05");
    assert_eq!(d.to_compact(), "09870405");
}

#[test]
fn date_time_wire_form_is_exact() {
    let dt = CyuDateTime::new(2024, 9, 29, 8, 5, 0).unwrap();
    assert_eq!(dt.to_wire(), "2024-09-29T08:05:00");
    assert_eq!(dt.to_compact(), "20240929T080500Z");
}

#[test]
fn date_time_new_rejects_improper_times() {
    assert!(CyuDateTime::new(2024, 9, 29, 24, 0, 0).is_none());
    assert!(CyuDateTime::new(2024, 9, 29, 0, 60, 0).is_none());
    assert!(CyuDateTime::new(2024, 9, 29, 0, 0, 60).is_none());
    assert!(CyuDateTime::new(2024, 2, 30, 0, 0, 0).is_none());
}

#[test]
fn date_parse_round_trips() {
    let d = CyuDate::parse_wire("2024-09-29").unwrap();
    assert_eq!(d.to_wire(), "2024-09-29");
    assert_eq!(d.year(), 2024);
    assert_eq!(d.month(), 9);
    assert_eq!(d.day(), 29);
}

#[test]
fn date_parse_rejects_wrong_shapes() {
    assert!(CyuDate::parse_wire("2024-9-29").is_none());
    assert!(CyuDate::parse_wire("2024-09-29 ").is_none());
    assert!(CyuDate::parse_wire("2024/09/29").is_none());
    assert!(CyuDate::parse_wire("2023-02-29").is_none());
    assert!(CyuDate::parse_wire("").is_none());
}

#[test]
fn date_time_parse_round_trips() {
    let dt = CyuDateTime::parse_wire("2025-01-31T23:59:59").unwrap();
    assert_eq!(dt.to_wire(), "2025-01-31T23:59:59");
    let date = dt.date();
    assert_eq!(date.to_wire(), "2025-01-31");
}

#[test]
fn date_time_parse_rejects_wrong_shapes() {
    assert!(CyuDateTime::parse_wire("2025-01-31 23:59:59").is_none());
    assert!(CyuDateTime::parse_wire("2025-01-31T24:00:00").is_none());
    assert!(CyuDateTime::parse_wire("2025-01-31T23:59").is_none());
    assert!(CyuDateTime::parse_wire("2025-01-32T00:00:00").is_none());
    assert!(CyuDateTime::parse_wire("").is_none());
}

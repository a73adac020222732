use cyu_calendar::calendar::GetCalendarResponseElement;
use cyu_calendar::date::CyuDateTime;
use cyu_calendar::ics::serialize;

fn event(
    id: &str,
    all_day: bool,
    end: Option<CyuDateTime>,
    category: &str,
    description: &str,
) -> GetCalendarResponseElement {
    GetCalendarResponseElement::new(
        id.to_string(),
        CyuDateTime::new(2025, 1, 15, 8, 0, 0).unwrap(),
        end,
        all_day,
        description.to_string(),
        "#fff".to_string(),
        "CS".to_string(),
        None,
        category.to_string(),
        None,
        None,
    )
}

fn an_end() -> CyuDateTime {
    CyuDateTime::new(2025, 1, 15, 10, 30, 0).unwrap()
}

#[test]
fn empty_serialization_is_the_bare_document() {
    let text = serialize(&Vec::new());
    assert_eq!(
        text,
        "BEGIN:VCALENDAR\r\nVERSION:2.0\r\nPRODID:-//cyu-calendar//EN\r\nNAME:CYU Calendar\r\nX-WC-CALNAME:CYU Calendar\r\nEND:VCALENDAR\r\n"
    );
}

#[test]
fn all_day_yields_a_date_only_record() {
    // The end value is present but must be ignored for an all-day event.
    let text = serialize(&vec![event("7", true, Some(an_end()), "EXAM", "x")]);
    assert!(text.contains("DTSTART;VALUE=DATE:20250115\r\n"));
    assert!(!text.contains("DTEND"));
    assert!(text.contains("UID:7@cyu-calendar\r\n"));
}

#[test]
fn all_day_without_end_still_yields_a_record() {
    let text = serialize(&vec![event("7", true, None, "EXAM", "x")]);
    assert!(text.contains("DTSTART;VALUE=DATE:20250115\r\n"));
}

#[test]
fn open_ended_timed_event_is_excluded() {
    let text = serialize(&vec![event("7", false, None, "EXAM", "x")]);
    assert!(!text.contains("BEGIN:VEVENT"));
    assert!(!text.contains("7@cyu-calendar"));
}

#[test]
fn timed_event_with_end_yields_start_and_end() {
    let text = serialize(&vec![event("7", false, Some(an_end()), "EXAM", "x")]);
    assert!(text.contains("DTSTART:20250115T080000Z\r\n"));
    assert!(text.contains("DTEND:20250115T103000Z\r\n"));
}

#[test]
fn one_record_per_includable_event() {
    let events = vec![
        event("1", true, None, "EXAM", "x"),
        event("2", false, None, "EXAM", "x"),
        event("3", false, Some(an_end()), "EXAM", "x"),
    ];
    let text = serialize(&events);
    assert_eq!(text.matches("BEGIN:VEVENT\r\n").count(), 2);
    assert_eq!(text.matches("END:VEVENT\r\n").count(), 2);
    assert!(text.contains("UID:1@cyu-calendar\r\n"));
    assert!(!text.contains("UID:2@cyu-calendar\r\n"));
    assert!(text.contains("UID:3@cyu-calendar\r\n"));
}

#[test]
fn special_category_summary_uses_the_third_last_line() {
    // Five lines; the third from the end carries the label, with the
    // category text removed from it.
    let desc = "Info\r\nTD x\r\nCM Algebra\r\nRoom 101\r\nTeacher";
    let text = serialize(&vec![event("7", true, None, "CM", desc)]);
    assert!(text.contains("SUMMARY:CM  Algebra\r\n"));
}

#[test]
fn special_category_with_short_description_keeps_the_bare_category() {
    let text = serialize(&vec![event("7", true, None, "TD", "one line")]);
    assert!(text.contains("SUMMARY:TD \r\n"));
}

#[test]
fn ordinary_category_is_its_own_summary() {
    let desc = "Info\r\nTD x\r\nCM Algebra\r\nRoom 101\r\nTeacher";
    let text = serialize(&vec![event("7", true, None, "EXAM", desc)]);
    assert!(text.contains("SUMMARY:EXAM\r\n"));
}

#[test]
fn description_newlines_use_the_lower_case_escape() {
    let text = serialize(&vec![event("7", true, None, "EXAM", "line one<br />line two")]);
    assert!(text.contains("DESCRIPTION:line one\\nline two\r\n"));
    assert!(!text.contains("\\N"));
}

#[test]
fn description_special_characters_are_escaped() {
    let text = serialize(&vec![event("7", true, None, "EXAM", "a,b;c")]);
    assert!(text.contains("DESCRIPTION:a\\,b\\;c\r\n"));
}

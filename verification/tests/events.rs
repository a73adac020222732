use cyu_calendar::calendar::{
    calendar_data_url, calendar_form, calendar_from_response, event_from_raw, limits_url,
    CalendarView, ColorBy, GetCalendarQuery, GetCalendarResponseElement, RawCalendarEvent,
};
use cyu_calendar::date::{CyuDate, CyuDateTime};
use cyu_calendar::Error;

fn raw(start: &str, end: Option<&str>) -> RawCalendarEvent {
    RawCalendarEvent {
        id: "42".to_string(),
        start: start.to_string(),
        end: end.map(|s| s.to_string()),
        all_day: false,
        description: "desc".to_string(),
        background_color: "#abcdef".to_string(),
        department: "CS".to_string(),
        faculty: None,
        event_category: "CM".to_string(),
        sites: Some(vec!["PARC".to_string()]),
        modules: None,
    }
}

#[test]
fn event_from_raw_reads_the_dates() {
    let e = event_from_raw(raw("2025-01-15T08:00:00", Some("2025-01-15T10:30:00"))).unwrap();
    assert_eq!(e.id(), "42");
    assert_eq!(e.start().to_wire(), "2025-01-15T08:00:00");
    assert_eq!(e.end().unwrap().to_wire(), "2025-01-15T10:30:00");
    assert!(!e.all_day());
    assert_eq!(e.event_category(), "CM");
}

#[test]
fn event_from_raw_keeps_an_open_end() {
    let e = event_from_raw(raw("2025-01-15T08:00:00", None)).unwrap();
    assert!(e.end().is_none());
}

#[test]
fn event_from_raw_rejects_malformed_dates() {
    assert_eq!(event_from_raw(raw("2025-01-15 08:00:00", None)).unwrap_err(), Error::Remote);
    assert_eq!(
        event_from_raw(raw("2025-01-15T08:00:00", Some("soon"))).unwrap_err(),
        Error::Remote
    );
}

#[test]
fn blank_failed_response_is_unauthorized() {
    // The upstream signals a silently expired session by answering an empty
    // body under an apparent success.
    assert_eq!(calendar_from_response("", None).unwrap_err(), Error::Unauthorized);
    assert_eq!(calendar_from_response("  \r\n ", None).unwrap_err(), Error::Unauthorized);
}

#[test]
fn non_blank_failed_response_is_remote() {
    assert_eq!(
        calendar_from_response("<html>maintenance</html>", None).unwrap_err(),
        Error::Remote
    );
}

#[test]
fn parsed_response_becomes_events() {
    let raws = vec![
        raw("2025-01-15T08:00:00", Some("2025-01-15T10:30:00")),
        raw("2025-01-16T08:00:00", None),
    ];
    let events = calendar_from_response("[...]", Some(raws)).unwrap();
    assert_eq!(events.len(), 2);
}

#[test]
fn one_bad_record_fails_the_answer() {
    let raws = vec![raw("2025-01-15T08:00:00", None), raw("later", None)];
    assert_eq!(calendar_from_response("[...]", Some(raws)).unwrap_err(), Error::Remote);
}

#[test]
fn calendar_form_is_exact() {
    let query = GetCalendarQuery {
        id: "X9".to_string(),
        token: "session".to_string(),
        start: CyuDate::new(2024, 9, 2).unwrap(),
        end: CyuDate::new(2025, 5, 31).unwrap(),
        view: CalendarView::Day,
        color_by: ColorBy::EventCategory,
    };
    let form = calendar_form(&query);
    assert_eq!(form.len(), 6);
    assert_eq!(form[0], ("federationIds[]".to_string(), "X9".to_string()));
    assert_eq!(form[1], ("resType".to_string(), "104".to_string()));
    assert_eq!(form[2], ("start".to_string(), "2024-09-02".to_string()));
    assert_eq!(form[3], ("end".to_string(), "2025-05-31".to_string()));
    assert_eq!(form[4], ("calView".to_string(), "agendaDay".to_string()));
    assert_eq!(form[5], ("colourScheme".to_string(), "3".to_string()));
}

#[test]
fn view_and_color_wire_names() {
    assert_eq!(CalendarView::Day.wire_name(), "agendaDay");
    assert_eq!(CalendarView::Week.wire_name(), "week");
    assert_eq!(CalendarView::Month.wire_name(), "month");
    assert_eq!(ColorBy::EventCategory.code(), 3);
    assert_eq!(ColorBy::Subject.code(), 6);
    assert_eq!(ColorBy::Subject.wire_name(), "6");
}

#[test]
fn urls_are_fixed() {
    assert_eq!(
        calendar_data_url(),
        "https://services-web.cyu.fr/calendar/Home/GetCalendarData"
    );
    let url = limits_url("X9");
    assert!(url.starts_with("https://services-web.cyu.fr/calendar/?CalendarViewType=Month"));
    assert!(url.contains("&FederationIds=X9&CalendarViewStr=month"));
}

fn event_with_sites(sites: Option<Vec<&str>>) -> GetCalendarResponseElement {
    GetCalendarResponseElement::new(
        "1".to_string(),
        CyuDateTime::new(2025, 1, 15, 8, 0, 0).unwrap(),
        None,
        true,
        "x".to_string(),
        "#fff".to_string(),
        "CS".to_string(),
        None,
        "CM".to_string(),
        sites.map(|v| v.into_iter().map(|s| s.to_string()).collect()),
        None,
    )
}

#[test]
fn coords_cover_the_known_sites() {
    assert_eq!(
        event_with_sites(Some(vec!["PARC"])).coords(),
        Some((490350203, 20695627))
    );
    assert_eq!(
        event_with_sites(Some(vec!["CHENES"])).coords(),
        Some((490389900, 20749315))
    );
    assert_eq!(
        event_with_sites(Some(vec!["SAINT MARTIN"])).coords(),
        Some((490436640, 20844198))
    );
    assert_eq!(
        event_with_sites(Some(vec!["PORT"])).coords(),
        Some((490326943, 20665439))
    );
}

#[test]
fn coords_use_the_first_site_only() {
    assert_eq!(
        event_with_sites(Some(vec!["PORT", "PARC"])).coords(),
        Some((490326943, 20665439))
    );
    assert_eq!(event_with_sites(Some(vec!["ELSEWHERE", "PARC"])).coords(), None);
}

#[test]
fn coords_without_known_site_are_none() {
    assert_eq!(event_with_sites(Some(vec!["ELSEWHERE"])).coords(), None);
    assert_eq!(event_with_sites(Some(vec![])).coords(), None);
    assert_eq!(event_with_sites(None).coords(), None);
}

fn event_with_description(desc: &str) -> GetCalendarResponseElement {
    GetCalendarResponseElement::new(
        "1".to_string(),
        CyuDateTime::new(2025, 1, 15, 8, 0, 0).unwrap(),
        None,
        true,
        desc.to_string(),
        "#fff".to_string(),
        "CS".to_string(),
        None,
        "CM".to_string(),
        None,
        None,
    )
}

#[test]
fn description_collapses_break_runs() {
    let e = event_with_description("A\r\n\r\nB<br />C\r\n<br />D");
    assert_eq!(e.description(), "A\nB\nC\nD");
}

#[test]
fn description_trims_the_ends() {
    let e = event_with_description("  A\r\nB \r\n");
    assert_eq!(e.description(), "A\nB");
}

#[test]
fn description_decodes_entities_last() {
    let e = event_with_description("Salle A&amp;B<br />Cours d&#39;essai");
    assert_eq!(e.description(), "Salle A&B\nCours d'essai");
}

#[test]
fn description_keeps_plain_text() {
    let e = event_with_description("already plain");
    assert_eq!(e.description(), "already plain");
}

#[test]
fn parse_description_is_exposed() {
    assert_eq!(cyu_calendar::description::parse_description(" a<br />b "), "a\nb");
}

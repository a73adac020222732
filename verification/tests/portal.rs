use cyu_calendar::auth::{
    display_names_form, extract_federation_id, extract_security_token, finish_login,
    get_auth_from_cookies, identify, infos_from_entries, prepare_login, InfosResponse,
};
use cyu_calendar::limits::limits_from_page;
use cyu_calendar::Error;

const LOGIN_PAGE: &str = "<html><body><form><input name=\"__RequestVerificationToken\" type=\"hidden\" value=\"tok-123\" /></form></body></html>";

#[test]
fn security_token_is_lifted_from_the_page() {
    assert_eq!(extract_security_token(LOGIN_PAGE).unwrap(), "tok-123");
}

#[test]
fn security_token_takes_the_first_tag() {
    let page = "<input name=\"__RequestVerificationToken\" type=\"hidden\" value=\"first\" /><input name=\"__RequestVerificationToken\" type=\"hidden\" value=\"second\" />";
    assert_eq!(extract_security_token(page).unwrap(), "first");
}

#[test]
fn security_token_skips_broken_tags() {
    let page = "<input name=\"__RequestVerificationToken\" type=\"hidden\" value=\"\" /><input name=\"__RequestVerificationToken\" type=\"hidden\" value=\"good\" />";
    assert_eq!(extract_security_token(page).unwrap(), "good");
}

#[test]
fn security_token_absent_means_none() {
    assert!(extract_security_token("<html>login moved</html>").is_none());
    assert!(extract_security_token("").is_none());
}

#[test]
fn prepare_login_without_cookie_is_remote() {
    let r = prepare_login(None, LOGIN_PAGE, "u", "p");
    assert_eq!(r.unwrap_err(), Error::Remote);
}

#[test]
fn prepare_login_without_token_is_remote() {
    let r = prepare_login(Some("c=1".to_string()), "<html></html>", "u", "p");
    assert_eq!(r.unwrap_err(), Error::Remote);
}

#[test]
fn prepare_login_builds_the_form() {
    let req = prepare_login(Some("c=1".to_string()), LOGIN_PAGE, "alice", "pw").unwrap();
    assert_eq!(req.cookie, "c=1");
    assert_eq!(req.form.len(), 3);
    assert_eq!(req.form[0], ("Name".to_string(), "alice".to_string()));
    assert_eq!(req.form[1], ("Password".to_string(), "pw".to_string()));
    assert_eq!(
        req.form[2],
        ("__RequestVerificationToken".to_string(), "tok-123".to_string())
    );
}

#[test]
fn finish_login_needs_a_redirect() {
    let cookies = vec!["a=1".to_string(), "b=2".to_string()];
    assert_eq!(finish_login(false, &cookies).unwrap_err(), Error::Unauthorized);
}

#[test]
fn finish_login_joins_cookies_in_order() {
    let cookies = vec!["a=1".to_string(), "b=2".to_string(), "c=3".to_string()];
    assert_eq!(finish_login(true, &cookies).unwrap(), "a=1;b=2;c=3");
    assert_eq!(finish_login(true, &vec!["only=1".to_string()]).unwrap(), "only=1");
    assert_eq!(finish_login(true, &Vec::new()).unwrap(), "");
}

#[test]
fn federation_id_is_lifted_from_the_page() {
    let page = "<script>var federationIdStr = 'ABC123';</script>";
    assert_eq!(extract_federation_id(page).unwrap(), "ABC123");
}

#[test]
fn federation_id_may_be_empty() {
    let page = "var federationIdStr = '';";
    assert_eq!(extract_federation_id(page).unwrap(), "");
}

#[test]
fn federation_id_stops_at_line_breaks() {
    // A line break before the closing quote breaks the assignment shape.
    let page = "var federationIdStr = 'AB\nC';";
    assert!(extract_federation_id(page).is_none());
}

#[test]
fn missing_federation_id_is_unauthorized() {
    // A success page that is really the login page again: the silent expiry.
    assert_eq!(identify("<html>please log in</html>").unwrap_err(), Error::Unauthorized);
}

#[test]
fn identify_returns_the_id() {
    assert_eq!(identify("var federationIdStr = 'X9';").unwrap(), "X9");
}

#[test]
fn display_names_form_is_exact() {
    let form = display_names_form("X9");
    assert_eq!(form.len(), 2);
    assert_eq!(form[0], ("federationIds[]".to_string(), "X9".to_string()));
    assert_eq!(form[1], ("resType".to_string(), "104".to_string()));
}

#[test]
fn infos_take_the_first_entry() {
    let entries = vec![
        InfosResponse { federation_id: "X9".to_string(), display_name: "Alice".to_string() },
        InfosResponse { federation_id: "Y1".to_string(), display_name: "Bob".to_string() },
    ];
    let info = infos_from_entries(Some(entries)).unwrap();
    assert_eq!(info.federation_id, "X9");
    assert_eq!(info.display_name, "Alice");
}

#[test]
fn infos_need_a_nonempty_array() {
    assert_eq!(infos_from_entries(Some(Vec::new())).unwrap_err(), Error::Remote);
    assert_eq!(infos_from_entries(None).unwrap_err(), Error::Remote);
}

#[test]
fn auth_needs_both_cookies() {
    let auth = get_auth_from_cookies(Some("s".to_string()), Some("X9".to_string())).unwrap();
    assert_eq!(auth.token, "s");
    assert_eq!(auth.id, "X9");
    assert!(get_auth_from_cookies(Some("s".to_string()), None).is_none());
    assert!(get_auth_from_cookies(None, Some("X9".to_string())).is_none());
    assert!(get_auth_from_cookies(None, None).is_none());
}

fn extents_page() -> String {
    "<script>\r\nvar dateExtents = {\r\n        earliest: new Date(2024, 9 - 1, 2),\r\n        latest: new Date(2025, 5 - 1, 31)\r\n    };\r\n</script>"
        .to_string()
}

#[test]
fn limits_read_both_dates() {
    let (a, b) = limits_from_page(&extents_page()).unwrap();
    assert_eq!(a.to_wire(), "2024-09-02");
    assert_eq!(b.to_wire(), "2025-05-31");
}

#[test]
fn limits_missing_script_is_remote() {
    assert_eq!(limits_from_page("<html>no calendar here</html>").unwrap_err(), Error::Remote);
    assert_eq!(limits_from_page("").unwrap_err(), Error::Remote);
}

#[test]
fn limits_improper_date_is_remote() {
    let page = "var dateExtents = {\r\n earliest: new Date(2024, 13 - 1, 2),\r\n latest: new Date(2025, 5 - 1, 31)\r\n };";
    assert_eq!(limits_from_page(page).unwrap_err(), Error::Remote);
}

#[test]
fn limits_huge_component_is_remote() {
    let page = "var dateExtents = {\r\n earliest: new Date(99999999999999999999, 9 - 1, 2),\r\n latest: new Date(2025, 5 - 1, 31)\r\n };";
    assert_eq!(limits_from_page(page).unwrap_err(), Error::Remote);
}

#[test]
fn limits_take_the_first_object() {
    let page = format!("{}{}", extents_page(), "var dateExtents = {\r\n earliest: new Date(2000, 1 - 1, 1),\r\n latest: new Date(2000, 2 - 1, 1)\r\n };");
    let (a, b) = limits_from_page(&page).unwrap();
    assert_eq!(a.to_wire(), "2024-09-02");
    assert_eq!(b.to_wire(), "2025-05-31");
}

#[test]
fn limits_skip_a_broken_object() {
    let broken = "var dateExtents = {\r\n earliest: new Date(2000, 1 - 1, 1)\r\n };";
    let page = format!("{}{}", broken, extents_page());
    let (a, b) = limits_from_page(&page).unwrap();
    assert_eq!(a.to_wire(), "2024-09-02");
    assert_eq!(b.to_wire(), "2025-05-31");
}

#[test]
fn limits_need_the_exact_line_shape() {
    // Unix line ends do not match the upstream's CRLF shape.
    let page = "var dateExtents = {\n earliest: new Date(2024, 9 - 1, 2),\n latest: new Date(2025, 5 - 1, 31)\n };";
    assert_eq!(limits_from_page(page).unwrap_err(), Error::Remote);
}

//! Session acquisition and identity resolution.
//!
//! The upstream exposes no API: logging in means fetching its login page,
//! lifting the anti-forgery token out of a hidden-input tag, posting the
//! credentials with the page cookie attached, and collecting the cookies of
//! the redirect answer. The identity comes from an inline-script variable on
//! the calendar root page. The network calls stay with the caller; this
//! module holds every decision and every piece of parsing, each with its
//! exact contract.

use vstd::prelude::*;

verus! {

use vstd::string::*;
use crate::text::{match_at, find_from, find_char_from, matches_at, join_with, join_semicolon};
use crate::Error;

/// A logged-in session: upstream `set-cookie` values joined by `;`,
/// treated as an opaque capability.
pub struct Auth {
    pub token: String,
    pub id: String,
}

/// The account data the upstream reports for a federation id.
#[derive(Debug, Clone)]
pub struct InfosResponse {
    pub federation_id: String,
    pub display_name: String,
}

/// Where the login page is fetched.
pub fn login_url() -> (r: &'static str)
    ensures
        r@ == "https://services-web.cyu.fr/calendar/LdapLogin"@,
{
    "https://services-web.cyu.fr/calendar/LdapLogin"
}

/// Where the credentials are posted.
pub fn logon_url() -> (r: &'static str)
    ensures
        r@ == "https://services-web.cyu.fr/calendar/LdapLogin/Logon"@,
{
    "https://services-web.cyu.fr/calendar/LdapLogin/Logon"
}

/// Where the calendar root (carrying the federation id) is fetched.
pub fn calendar_root_url() -> (r: &'static str)
    ensures
        r@ == "https://services-web.cyu.fr/calendar"@,
{
    "https://services-web.cyu.fr/calendar"
}

/// Where the display-name lookup is posted.
pub fn display_names_url() -> (r: &'static str)
    ensures
        r@ == "https://services-web.cyu.fr/calendar/Home/LoadDisplayNames"@,
{
    "https://services-web.cyu.fr/calendar/Home/LoadDisplayNames"
}

/// The hidden-input tag up to its value, exactly as the upstream emits it.
pub open spec fn sec_token_prefix() -> Seq<char> {
    "<input name=\"__RequestVerificationToken\" type=\"hidden\" value=\""@
}

/// What closes the hidden-input tag after the value.
pub open spec fn sec_token_suffix() -> Seq<char> {
    "\" />"@
}

/// The token value ends at `j`: nothing before it is a quote, and the
/// closing `" />` follows. The value itself is non-empty.
pub open spec fn sec_token_value_end(s: Seq<char>, vs: int, j: int) -> bool {
    &&& vs < j
    &&& j + 4 <= s.len()
    &&& (forall|k: int| vs <= k < j ==> s[k] != '"')
    &&& s.subrange(j, j + 4) == sec_token_suffix()
}

/// The whole hidden-input pattern matches at `i`.
pub open spec fn sec_token_match_at(s: Seq<char>, i: int) -> bool {
    &&& match_at(s, i, sec_token_prefix())
    &&& exists|j: int| #[trigger] sec_token_value_end(s, i + sec_token_prefix().len(), j)
}

/// Lifts the anti-forgery token out of the login page: the value of the
/// first hidden-input tag of the exact shape the upstream emits.
pub fn extract_security_token(page: &str) -> (r: Option<String>)
    ensures
        r matches Some(t) ==> exists|i: int, j: int|
            #[trigger] sec_token_value_end(page@, i + sec_token_prefix().len(), j) && match_at(
                page@,
                i,
                sec_token_prefix(),
            ) && (forall|i2: int| 0 <= i2 < i ==> !sec_token_match_at(page@, i2)) && t@
                == page@.subrange(i + sec_token_prefix().len(), j),
        r is None ==> forall|i: int| !sec_token_match_at(page@, i),
{
    let prefix = "<input name=\"__RequestVerificationToken\" type=\"hidden\" value=\"";
    let suffix = "\" />";
    proof {
        assert(prefix@ == sec_token_prefix());
        assert(suffix@ == sec_token_suffix());
        reveal_strlit("\" />");
        reveal_strlit("<input name=\"__RequestVerificationToken\" type=\"hidden\" value=\"");
    }
    let n = page.unicode_len();
    let plen = prefix.unicode_len();
    let mut from: usize = 0;
    loop
        invariant
            from <= n,
            n == page@.len(),
            plen == sec_token_prefix().len(),
            plen >= 1,
            prefix@ == sec_token_prefix(),
            suffix@ == sec_token_suffix(),
            suffix@.len() == 4,
            suffix@[0] == '"',
            forall|i2: int| 0 <= i2 < from ==> !sec_token_match_at(page@, i2),
        decreases n - from,
    {
        let i = match find_from(page, from, prefix) {
            Some(i) => i,
            None => {
                proof {
                    assert forall|i2: int| !sec_token_match_at(page@, i2) by {
                        if i2 >= from {
                            assert(!match_at(page@, i2, sec_token_prefix()));
                        }
                    }
                }
                return None;
            },
        };
        let vs = i + plen;
        let q = match find_char_from(page, vs, '"') {
            Some(q) => q,
            None => {
                // Any match here or later would close its value with a quote
                // at or after this point; there is none.
                proof {
                    assert forall|i2: int| !sec_token_match_at(page@, i2) by {
                        if i2 >= from && sec_token_match_at(page@, i2) {
                            let j = choose|j: int| #[trigger] sec_token_value_end(
                                page@,
                                i2 + sec_token_prefix().len(),
                                j,
                            );
                            assert(page@[j] == sec_token_suffix()[0]);
                            assert(i2 + sec_token_prefix().len() >= vs || !match_at(
                                page@,
                                i2,
                                sec_token_prefix(),
                            ));
                            assert(j >= vs);
                            assert(page@[j] != '"');
                        }
                    }
                }
                return None;
            },
        };
        // The value cannot hold a quote, so it can only end at the first
        // quote after it; the tag matches here exactly when that quote
        // begins the closing `" />` and the value is non-empty.
        if q > vs && matches_at(page, q, suffix) {
            let token = page.substring_char(vs, q).to_owned();
            proof {
                assert(sec_token_value_end(page@, i + sec_token_prefix().len(), q as int));
            }
            return Some(token);
        }
        proof {
            assert forall|j: int| !sec_token_value_end(page@, vs as int, j) by {
                if sec_token_value_end(page@, vs as int, j) {
                    assert(page@[j] == sec_token_suffix()[0]);
                    if j < q {
                        assert(page@[j] != '"');
                    } else if j > q {
                        assert(page@[q as int] != '"');
                    } else {
                        // At the quote itself: either the value would be
                        // empty, or the closing `" />` is not there.
                        if vs < j {
                            assert(match_at(page@, j, sec_token_suffix()));
                        }
                    }
                }
            }
        }
        from = i + 1;
    }
}

/// The inline-script assignment up to the quoted federation id.
pub open spec fn fed_id_prefix() -> Seq<char> {
    "var federationIdStr = '"@
}

/// The id value ends at `j`: `';` follows, no earlier `';` occurs, and no
/// line break falls inside the value.
pub open spec fn fed_id_value_end(s: Seq<char>, vs: int, j: int) -> bool {
    &&& vs <= j
    &&& j + 2 <= s.len()
    &&& s[j] == '\'' && s[j + 1] == ';'
    &&& (forall|k: int| vs <= k < j ==> !(#[trigger] s[k] == '\'' && s[k + 1] == ';'))
    &&& (forall|k: int| vs <= k < j ==> s[k] != '\n')
}

/// The whole assignment pattern matches at `i`.
pub open spec fn fed_id_match_at(s: Seq<char>, i: int) -> bool {
    &&& match_at(s, i, fed_id_prefix())
    &&& exists|j: int| #[trigger] fed_id_value_end(s, i + fed_id_prefix().len(), j)
}

/// Lifts the federation id out of the calendar root page: the single-quoted
/// value of the first inline-script assignment of the exact shape the
/// upstream emits. The value may be empty.
pub fn extract_federation_id(page: &str) -> (r: Option<String>)
    ensures
        r matches Some(t) ==> exists|i: int, j: int|
            #[trigger] fed_id_value_end(page@, i + fed_id_prefix().len(), j) && match_at(
                page@,
                i,
                fed_id_prefix(),
            ) && (forall|i2: int| 0 <= i2 < i ==> !fed_id_match_at(page@, i2)) && t@
                == page@.subrange(i + fed_id_prefix().len(), j),
        r is None ==> forall|i: int| !fed_id_match_at(page@, i),
{
    let prefix = "var federationIdStr = '";
    let closer = "';";
    proof {
        assert(prefix@ == fed_id_prefix());
        reveal_strlit("';");
        reveal_strlit("var federationIdStr = '");
    }
    let n = page.unicode_len();
    let plen = prefix.unicode_len();
    let mut from: usize = 0;
    loop
        invariant
            from <= n,
            n == page@.len(),
            plen == fed_id_prefix().len(),
            plen >= 1,
            prefix@ == fed_id_prefix(),
            closer@.len() == 2,
            closer@[0] == '\'',
            closer@[1] == ';',
            forall|i2: int| 0 <= i2 < from ==> !fed_id_match_at(page@, i2),
        decreases n - from,
    {
        let i = match find_from(page, from, prefix) {
            Some(i) => i,
            None => {
                proof {
                    assert forall|i2: int| !fed_id_match_at(page@, i2) by {
                        if i2 >= from {
                            assert(!match_at(page@, i2, fed_id_prefix()));
                        }
                    }
                }
                return None;
            },
        };
        let vs = i + plen;
        let q = match find_from(page, vs, closer) {
            Some(q) => q,
            None => {
                // Any match here or later would need a closing `';` at or
                // after this point; there is none.
                proof {
                    assert forall|i2: int| !fed_id_match_at(page@, i2) by {
                        if i2 >= from && fed_id_match_at(page@, i2) {
                            let j = choose|j: int| #[trigger] fed_id_value_end(
                                page@,
                                i2 + fed_id_prefix().len(),
                                j,
                            );
                            assert(j >= vs);
                            assert(!match_at(page@, j, closer@)) by {
                                assert(j + closer@.len() <= page@.len());
                            }
                            assert(page@.subrange(j, j + 2) =~= closer@);
                        }
                    }
                }
                return None;
            },
        };
        // The value ends at the first `';`; the assignment matches here
        // exactly when no line break falls before it.
        match find_char_from_bounded(page, vs, q, '\n') {
            None => {
                let id = page.substring_char(vs, q).to_owned();
                proof {
                    assert(page@.subrange(q as int, q + 2) =~= closer@);
                    assert(fed_id_value_end(page@, vs as int, q as int)) by {
                        assert forall|k: int| vs <= k < q implies !(#[trigger] page@[k] == '\'' && page@[k
                            + 1] == ';') by {
                            if page@[k] == '\'' && page@[k + 1] == ';' {
                                assert(match_at(page@, k, closer@)) by {
                                    assert(page@.subrange(k, k + 2) =~= closer@);
                                }
                            }
                        }
                    }
                }
                return Some(id);
            },
            Some(nl) => {
                // The line break sits before the first `';`, so it sits
                // inside any candidate value, which the pattern forbids.
                proof {
                    assert forall|j: int| !fed_id_value_end(page@, vs as int, j) by {
                        if fed_id_value_end(page@, vs as int, j) {
                            assert(page@.subrange(j, j + 2) =~= closer@);
                            assert(match_at(page@, j, closer@));
                            assert(page@[nl as int] != '\n');
                        }
                    }
                }
                from = i + 1;
            },
        }
    }
}

/// First position in `[start, end)` holding the character `c`.
fn find_char_from_bounded(hay: &str, start: usize, end: usize, c: char) -> (r: Option<usize>)
    requires
        start <= end <= hay@.len(),
    ensures
        r matches Some(i) ==> start <= i < end && hay@[i as int] == c && i < end,
        r is None ==> forall|j: int| start <= j < end ==> hay@[j] != c,
{
    let mut i: usize = start;
    while i < end
        invariant
            start <= i <= end <= hay@.len(),
            forall|j: int| start <= j < i ==> hay@[j] != c,
        decreases end - i,
    {
        if hay.get_char(i) == c {
            return Some(i);
        }
        i += 1;
    }
    None
}

/// What one login attempt sends: the page cookie to attach and the form
/// fields to post.
#[derive(Debug, Clone)]
pub struct LoginRequest {
    pub cookie: String,
    pub form: Vec<(String, String)>,
}

/// Decides the first half of a login from the login-page answer: without a
/// page cookie or without the anti-forgery token the upstream is broken
/// (`Remote`); otherwise the credentials and token become the form to post.
pub fn prepare_login(
    page_cookie: Option<String>,
    page_body: &str,
    username: &str,
    password: &str,
) -> (r: Result<LoginRequest, Error>)
    ensures
        page_cookie is None ==> r == Err::<LoginRequest, Error>(Error::Remote),
        page_cookie matches Some(c) ==> {
            &&& r is Ok <==> exists|i: int| sec_token_match_at(page_body@, i)
            &&& (r matches Ok(req) ==> req.cookie@ == c@ && req.form@.len() == 3 && req.form@[0].0@
                == "Name"@ && req.form@[0].1@ == username@ && req.form@[1].0@ == "Password"@
                && req.form@[1].1@ == password@ && req.form@[2].0@
                == "__RequestVerificationToken"@ && exists|i: int, j: int|
                #[trigger] sec_token_value_end(page_body@, i + sec_token_prefix().len(), j)
                    && match_at(page_body@, i, sec_token_prefix()) && req.form@[2].1@
                    == page_body@.subrange(i + sec_token_prefix().len(), j))
            &&& (r is Err ==> r == Err::<LoginRequest, Error>(Error::Remote))
        },
{
    let cookie = match page_cookie {
        Some(c) => c,
        None => {
            return Err(Error::Remote);
        },
    };
    let token = match extract_security_token(page_body) {
        Some(t) => {
            proof {
                let (i, j) = choose|i: int, j: int|
                    #[trigger] sec_token_value_end(page_body@, i + sec_token_prefix().len(), j)
                        && match_at(page_body@, i, sec_token_prefix()) && t@ == page_body@.subrange(
                        i + sec_token_prefix().len(),
                        j,
                    );
                assert(sec_token_match_at(page_body@, i));
            }
            t
        },
        None => {
            return Err(Error::Remote);
        },
    };
    let mut form: Vec<(String, String)> = Vec::new();
    form.push((String::from_str("Name"), username.to_owned()));
    form.push((String::from_str("Password"), password.to_owned()));
    form.push((String::from_str("__RequestVerificationToken"), token));
    Ok(LoginRequest { cookie, form })
}

/// Decides the second half of a login from the logon answer: a redirect
/// means success and the answer's `set-cookie` values, joined by `;` in
/// order, become the session; anything else means the credentials were
/// rejected.
pub fn finish_login(is_redirect: bool, set_cookies: &Vec<String>) -> (r: Result<String, Error>)
    ensures
        !is_redirect ==> r == Err::<String, Error>(Error::Unauthorized),
        is_redirect ==> (r matches Ok(session) && session@ == join_with(
            set_cookies@.map_values(|c: String| c@),
            ';',
        )),
{
    if !is_redirect {
        return Err(Error::Unauthorized);
    }
    Ok(join_semicolon(set_cookies))
}

/// Decides identity from the calendar-root answer: a missing federation id
/// is how a silently expired session shows itself (`Unauthorized`).
pub fn identify(page_body: &str) -> (r: Result<String, Error>)
    ensures
        r is Ok <==> exists|i: int| fed_id_match_at(page_body@, i),
        r matches Ok(id) ==> exists|i: int, j: int|
            #[trigger] fed_id_value_end(page_body@, i + fed_id_prefix().len(), j) && match_at(
                page_body@,
                i,
                fed_id_prefix(),
            ) && id@ == page_body@.subrange(i + fed_id_prefix().len(), j),
        r is Err ==> r == Err::<String, Error>(Error::Unauthorized),
{
    match extract_federation_id(page_body) {
        Some(id) => {
            proof {
                let (i, j) = choose|i: int, j: int|
                    #[trigger] fed_id_value_end(page_body@, i + fed_id_prefix().len(), j)
                        && match_at(page_body@, i, fed_id_prefix()) && id@ == page_body@.subrange(
                        i + fed_id_prefix().len(),
                        j,
                    );
                assert(fed_id_match_at(page_body@, i));
            }
            Ok(id)
        },
        None => Err(Error::Unauthorized),
    }
}

/// The form posted for the display-name lookup.
pub fn display_names_form(federation_id: &str) -> (r: Vec<(String, String)>)
    ensures
        r@.len() == 2,
        r@[0].0@ == "federationIds[]"@ && r@[0].1@ == federation_id@,
        r@[1].0@ == "resType"@ && r@[1].1@ == "104"@,
{
    let mut form: Vec<(String, String)> = Vec::new();
    form.push((String::from_str("federationIds[]"), federation_id.to_owned()));
    form.push((String::from_str("resType"), String::from_str("104")));
    form
}

/// An authenticated caller, when both its cookies are present.
pub fn get_auth_from_cookies(token: Option<String>, id: Option<String>) -> (r: Option<Auth>)
    ensures
        r is Some <==> token is Some && id is Some,
        r matches Some(auth) ==> (token matches Some(t) && auth.token@ == t@) && (id matches Some(
            i,
        ) && auth.id@ == i@),
{
    match (token, id) {
        (Some(token), Some(id)) => Some(Auth { token, id }),
        _ => None,
    }
}

/// Decides identity data from the display-name answer: the first entry of
/// the parsed array, `Remote` when the body was not a non-empty array.
pub fn infos_from_entries(entries: Option<Vec<InfosResponse>>) -> (r: Result<InfosResponse, Error>)
    ensures
        r matches Ok(info) ==> entries matches Some(v) && v@.len() > 0 && info.federation_id@
            == v@[0].federation_id@ && info.display_name@ == v@[0].display_name@,
        r is Err <==> (entries is None || (entries matches Some(v) && v@.len() == 0)),
        r is Err ==> r == Err::<InfosResponse, Error>(Error::Remote),
{
    match entries {
        Some(mut v) => {
            if v.len() == 0 {
                Err(Error::Remote)
            } else {
                let first = v.remove(0);
                Ok(first)
            }
        },
        None => Err(Error::Remote),
    }
}

} // verus!

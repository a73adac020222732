//! Enrollment-window discovery. The upstream enforces an implicit per-account
//! date window and silently returns empty data outside it, so "all events"
//! queries first read the window off a month-view page: an inline script
//! holds a `dateExtents` object with two `new Date(year, month - 1, day)`
//! entries. This module matches that exact shape and turns the two triples
//! into dates; a page without the script, or with improper date components,
//! is a remote failure, never a panic.

use vstd::prelude::*;

verus! {

use vstd::string::*;
use crate::text::{match_at, find_from, matches_at, scan_digits, scan_spaces, parse_u32_digits,
    is_digit, digits_value};
use crate::date::{CyuDate, DateView, valid_date};
use crate::Error;

/// Opening of the inline script object.
pub open spec fn ext_prefix() -> Seq<char> {
    "var dateExtents = {\r\n"@
}

/// Start of the earliest-date entry.
pub open spec fn ext_earliest() -> Seq<char> {
    "earliest: new Date("@
}

/// Start of the latest-date entry.
pub open spec fn ext_latest() -> Seq<char> {
    "latest: new Date("@
}

/// Only spaces between `a` and `b`.
pub open spec fn spaces_between(s: Seq<char>, a: int, b: int) -> bool {
    a <= b && (forall|k: int| a <= k < b ==> #[trigger] s[k] == ' ')
}

/// A non-empty digit run fills `a` to `b`.
pub open spec fn digits_between(s: Seq<char>, a: int, b: int) -> bool {
    a < b && (forall|k: int| a <= k < b ==> is_digit(#[trigger] s[k]))
}

/// Where the parts of one `dateExtents` object stand in the page: `at` the
/// opening, `el`/`ll` the two entries, the six digit runs ending at the
/// given positions.
pub struct ExtentsLayout {
    pub at: int,
    pub el: int,
    pub y1e: int,
    pub m1e: int,
    pub d1e: int,
    pub ll: int,
    pub y2e: int,
    pub m2e: int,
    pub d2e: int,
    pub cl: int,
}

/// The exact `dateExtents` shape stands in `s` at the places `e` names.
pub open spec fn extents_match(s: Seq<char>, e: ExtentsLayout) -> bool {
    &&& match_at(s, e.at, ext_prefix())
    &&& spaces_between(s, e.at + ext_prefix().len(), e.el)
    &&& match_at(s, e.el, ext_earliest())
    &&& digits_between(s, e.el + ext_earliest().len(), e.y1e)
    &&& match_at(s, e.y1e, ", "@)
    &&& digits_between(s, e.y1e + 2, e.m1e)
    &&& match_at(s, e.m1e, " - 1, "@)
    &&& digits_between(s, e.m1e + 6, e.d1e)
    &&& match_at(s, e.d1e, "),\r\n"@)
    &&& spaces_between(s, e.d1e + 4, e.ll)
    &&& match_at(s, e.ll, ext_latest())
    &&& digits_between(s, e.ll + ext_latest().len(), e.y2e)
    &&& match_at(s, e.y2e, ", "@)
    &&& digits_between(s, e.y2e + 2, e.m2e)
    &&& match_at(s, e.m2e, " - 1, "@)
    &&& digits_between(s, e.m2e + 6, e.d2e)
    &&& match_at(s, e.d2e, ")\r\n"@)
    &&& spaces_between(s, e.d2e + 3, e.cl)
    &&& match_at(s, e.cl, "};"@)
}

/// The earliest date named by the matched object.
pub open spec fn extents_first(s: Seq<char>, e: ExtentsLayout) -> DateView {
    DateView {
        y: digits_value(s.subrange(e.el + ext_earliest().len(), e.y1e)) as int,
        m: digits_value(s.subrange(e.y1e + 2, e.m1e)) as int,
        d: digits_value(s.subrange(e.m1e + 6, e.d1e)) as int,
    }
}

/// The latest date named by the matched object.
pub open spec fn extents_second(s: Seq<char>, e: ExtentsLayout) -> DateView {
    DateView {
        y: digits_value(s.subrange(e.ll + ext_latest().len(), e.y2e)) as int,
        m: digits_value(s.subrange(e.y2e + 2, e.m2e)) as int,
        d: digits_value(s.subrange(e.m2e + 6, e.d2e)) as int,
    }
}

/// Both named dates are proper calendar dates.
pub open spec fn extents_values_valid(s: Seq<char>, e: ExtentsLayout) -> bool {
    &&& valid_date(extents_first(s, e).y, extents_first(s, e).m, extents_first(s, e).d)
    &&& valid_date(extents_second(s, e).y, extents_second(s, e).m, extents_second(s, e).d)
}

/// Two runs of digits from one start, each ending at the run's end or at a
/// non-digit, end at the same place.
proof fn lemma_run_end_forced(s: Seq<char>, a: int, b1: int, b2: int)
    requires
        0 <= a,
        b1 <= s.len(),
        b2 <= s.len(),
        a <= b1 && (forall|k: int| a <= k < b1 ==> is_digit(#[trigger] s[k])),
        a <= b2 && (forall|k: int| a <= k < b2 ==> is_digit(#[trigger] s[k])),
        b1 < s.len() ==> !is_digit(s[b1]),
        b2 < s.len() ==> !is_digit(s[b2]),
    ensures
        b1 == b2,
{
}

/// Two space runs from one start, each ending at a non-space, end at the
/// same place.
proof fn lemma_space_end_forced(s: Seq<char>, a: int, b1: int, b2: int)
    requires
        0 <= a,
        b1 <= s.len(),
        b2 <= s.len(),
        a <= b1 && (forall|k: int| a <= k < b1 ==> #[trigger] s[k] == ' '),
        a <= b2 && (forall|k: int| a <= k < b2 ==> #[trigger] s[k] == ' '),
        b1 < s.len() ==> s[b1] != ' ',
        b2 < s.len() ==> s[b2] != ' ',
    ensures
        b1 == b2,
{
}


/// The first character after each piece of a matched object: known from the
/// literal that follows, so no space run or digit run can reach past it.
proof fn lemma_extents_enders(s: Seq<char>, e: ExtentsLayout)
    requires
        extents_match(s, e),
    ensures
        e.el < s.len() && s[e.el] != ' ',
        e.y1e < s.len() && !is_digit(s[e.y1e]),
        e.m1e < s.len() && !is_digit(s[e.m1e]),
        e.d1e < s.len() && !is_digit(s[e.d1e]),
        e.ll < s.len() && s[e.ll] != ' ',
        e.y2e < s.len() && !is_digit(s[e.y2e]),
        e.m2e < s.len() && !is_digit(s[e.m2e]),
        e.d2e < s.len() && !is_digit(s[e.d2e]),
        e.cl < s.len() && s[e.cl] != ' ',
{
    reveal_strlit("earliest: new Date(");
    reveal_strlit("latest: new Date(");
    reveal_strlit(", ");
    reveal_strlit(" - 1, ");
    reveal_strlit("),\r\n");
    reveal_strlit(")\r\n");
    reveal_strlit("};");
    lemma_match_first_char(s, e.el, ext_earliest());
    lemma_match_first_char(s, e.y1e, ", "@);
    lemma_match_first_char(s, e.m1e, " - 1, "@);
    lemma_match_first_char(s, e.d1e, "),\r\n"@);
    lemma_match_first_char(s, e.ll, ext_latest());
    lemma_match_first_char(s, e.y2e, ", "@);
    lemma_match_first_char(s, e.m2e, " - 1, "@);
    lemma_match_first_char(s, e.d2e, ")\r\n"@);
    lemma_match_first_char(s, e.cl, "};"@);
}

/// The first character under a match is the pattern's first character.
proof fn lemma_match_first_char(s: Seq<char>, i: int, pat: Seq<char>)
    requires
        match_at(s, i, pat),
        pat.len() >= 1,
    ensures
        i < s.len(),
        s[i] == pat[0],
{
    assert(s.subrange(i, i + pat.len())[0] == s[i]);
}

/// Where the pieces of a successful match stand, as positions in the page.
struct ExtentsPos {
    el: usize,
    y1s: usize,
    y1e: usize,
    m1s: usize,
    m1e: usize,
    d1s: usize,
    d1e: usize,
    ll: usize,
    y2s: usize,
    y2e: usize,
    m2s: usize,
    m2e: usize,
    d2s: usize,
    d2e: usize,
}

/// The layout a position record stands for.
spec fn pos_layout(i: int, p: ExtentsPos, cl: int) -> ExtentsLayout {
    ExtentsLayout {
        at: i,
        el: p.el as int,
        y1e: p.y1e as int,
        m1e: p.m1e as int,
        d1e: p.d1e as int,
        ll: p.ll as int,
        y2e: p.y2e as int,
        m2e: p.m2e as int,
        d2e: p.d2e as int,
        cl: cl,
    }
}

/// Tries the whole `dateExtents` shape right after a matched opening at `i`.
#[verifier::rlimit(100)]
fn extents_try_at(page: &str, i: usize) -> (r: Option<ExtentsPos>)
    requires
        i <= page@.len(),
        match_at(page@, i as int, ext_prefix()),
    ensures
        r matches Some(p) ==> (exists|cl: int| extents_match(page@, pos_layout(i as int, p, cl)))
            && p.y1s == p.el + ext_earliest().len() && p.m1s == p.y1e + 2 && p.d1s == p.m1e + 6
            && p.y2s == p.ll + ext_latest().len() && p.m2s == p.y2e + 2 && p.d2s == p.m2e + 6
            && p.y1s < p.y1e && p.m1s < p.m1e && p.d1s < p.d1e && p.y2s < p.y2e && p.m2s < p.m2e
            && p.d2s < p.d2e && p.d2e as int + 3 <= page@.len() && (forall|k: int|
            p.y1s <= k < p.y1e ==> is_digit(#[trigger] page@[k])) && (forall|k: int|
            p.m1s <= k < p.m1e ==> is_digit(#[trigger] page@[k])) && (forall|k: int|
            p.d1s <= k < p.d1e ==> is_digit(#[trigger] page@[k])) && (forall|k: int|
            p.y2s <= k < p.y2e ==> is_digit(#[trigger] page@[k])) && (forall|k: int|
            p.m2s <= k < p.m2e ==> is_digit(#[trigger] page@[k])) && (forall|k: int|
            p.d2s <= k < p.d2e ==> is_digit(#[trigger] page@[k])),
        r is None ==> forall|e: ExtentsLayout| e.at == i ==> !extents_match(page@, e),
{
    let lit_prefix = "var dateExtents = {\r\n";
    let lit_earliest = "earliest: new Date(";
    let lit_latest = "latest: new Date(";
    let lit_comma = ", ";
    let lit_minus = " - 1, ";
    let lit_mid = "),\r\n";
    let lit_end = ")\r\n";
    let lit_close = "};";
    proof {
        reveal_strlit("var dateExtents = {\r\n");
        reveal_strlit("earliest: new Date(");
        reveal_strlit("latest: new Date(");
        reveal_strlit(", ");
        reveal_strlit(" - 1, ");
        reveal_strlit("),\r\n");
        reveal_strlit(")\r\n");
        reveal_strlit("};");
    }
    let n = page.unicode_len();
    let s = page;
    // Spaces, then the earliest entry.
    let sp1 = i + lit_prefix.unicode_len();
    let el = scan_spaces(s, sp1);
    if !matches_at(s, el, lit_earliest) {
        proof {
            assert forall|e: ExtentsLayout| e.at == i implies !extents_match(page@, e) by {
                if extents_match(page@, e) {
                    lemma_extents_enders(page@, e);
                    lemma_space_end_forced(page@, sp1 as int, e.el, el as int);
                }
            }
        }
        return None;
    }
    // Year, month, day of the earliest entry.
    let y1s = el + lit_earliest.unicode_len();
    let y1e = scan_digits(s, y1s);
    if y1e == y1s || !matches_at(s, y1e, lit_comma) {
        proof {
            assert forall|e: ExtentsLayout| e.at == i implies !extents_match(page@, e) by {
                if extents_match(page@, e) {
                    lemma_extents_enders(page@, e);
                    lemma_space_end_forced(page@, sp1 as int, e.el, el as int);
                    lemma_run_end_forced(page@, y1s as int, e.y1e, y1e as int);
                }
            }
        }
        return None;
    }
    let m1s = y1e + 2;
    let m1e = scan_digits(s, m1s);
    if m1e == m1s || !matches_at(s, m1e, lit_minus) {
        proof {
            assert forall|e: ExtentsLayout| e.at == i implies !extents_match(page@, e) by {
                if extents_match(page@, e) {
                    lemma_extents_enders(page@, e);
                    lemma_space_end_forced(page@, sp1 as int, e.el, el as int);
                    lemma_run_end_forced(page@, y1s as int, e.y1e, y1e as int);
                    lemma_run_end_forced(page@, m1s as int, e.m1e, m1e as int);
                }
            }
        }
        return None;
    }
    let d1s = m1e + 6;
    let d1e = scan_digits(s, d1s);
    if d1e == d1s || !matches_at(s, d1e, lit_mid) {
        proof {
            assert forall|e: ExtentsLayout| e.at == i implies !extents_match(page@, e) by {
                if extents_match(page@, e) {
                    lemma_extents_enders(page@, e);
                    lemma_space_end_forced(page@, sp1 as int, e.el, el as int);
                    lemma_run_end_forced(page@, y1s as int, e.y1e, y1e as int);
                    lemma_run_end_forced(page@, m1s as int, e.m1e, m1e as int);
                    lemma_run_end_forced(page@, d1s as int, e.d1e, d1e as int);
                }
            }
        }
        return None;
    }
    // Spaces, then the latest entry.
    let sp2 = d1e + 4;
    let ll = scan_spaces(s, sp2);
    if !matches_at(s, ll, lit_latest) {
        proof {
            assert forall|e: ExtentsLayout| e.at == i implies !extents_match(page@, e) by {
                if extents_match(page@, e) {
                    lemma_extents_enders(page@, e);
                    lemma_space_end_forced(page@, sp1 as int, e.el, el as int);
                    lemma_run_end_forced(page@, y1s as int, e.y1e, y1e as int);
                    lemma_run_end_forced(page@, m1s as int, e.m1e, m1e as int);
                    lemma_run_end_forced(page@, d1s as int, e.d1e, d1e as int);
                    lemma_space_end_forced(page@, sp2 as int, e.ll, ll as int);
                }
            }
        }
        return None;
    }
    // Year, month, day of the latest entry.
    let y2s = ll + lit_latest.unicode_len();
    let y2e = scan_digits(s, y2s);
    if y2e == y2s || !matches_at(s, y2e, lit_comma) {
        proof {
            assert forall|e: ExtentsLayout| e.at == i implies !extents_match(page@, e) by {
                if extents_match(page@, e) {
                    lemma_extents_enders(page@, e);
                    lemma_space_end_forced(page@, sp1 as int, e.el, el as int);
                    lemma_run_end_forced(page@, y1s as int, e.y1e, y1e as int);
                    lemma_run_end_forced(page@, m1s as int, e.m1e, m1e as int);
                    lemma_run_end_forced(page@, d1s as int, e.d1e, d1e as int);
                    lemma_space_end_forced(page@, sp2 as int, e.ll, ll as int);
                    lemma_run_end_forced(page@, y2s as int, e.y2e, y2e as int);
                }
            }
        }
        return None;
    }
    let m2s = y2e + 2;
    let m2e = scan_digits(s, m2s);
    if m2e == m2s || !matches_at(s, m2e, lit_minus) {
        proof {
            assert forall|e: ExtentsLayout| e.at == i implies !extents_match(page@, e) by {
                if extents_match(page@, e) {
                    lemma_extents_enders(page@, e);
                    lemma_space_end_forced(page@, sp1 as int, e.el, el as int);
                    lemma_run_end_forced(page@, y1s as int, e.y1e, y1e as int);
                    lemma_run_end_forced(page@, m1s as int, e.m1e, m1e as int);
                    lemma_run_end_forced(page@, d1s as int, e.d1e, d1e as int);
                    lemma_space_end_forced(page@, sp2 as int, e.ll, ll as int);
                    lemma_run_end_forced(page@, y2s as int, e.y2e, y2e as int);
                    lemma_run_end_forced(page@, m2s as int, e.m2e, m2e as int);
                }
            }
        }
        return None;
    }
    let d2s = m2e + 6;
    let d2e = scan_digits(s, d2s);
    if d2e == d2s || !matches_at(s, d2e, lit_end) {
        proof {
            assert forall|e: ExtentsLayout| e.at == i implies !extents_match(page@, e) by {
                if extents_match(page@, e) {
                    lemma_extents_enders(page@, e);
                    lemma_space_end_forced(page@, sp1 as int, e.el, el as int);
                    lemma_run_end_forced(page@, y1s as int, e.y1e, y1e as int);
                    lemma_run_end_forced(page@, m1s as int, e.m1e, m1e as int);
                    lemma_run_end_forced(page@, d1s as int, e.d1e, d1e as int);
                    lemma_space_end_forced(page@, sp2 as int, e.ll, ll as int);
                    lemma_run_end_forced(page@, y2s as int, e.y2e, y2e as int);
                    lemma_run_end_forced(page@, m2s as int, e.m2e, m2e as int);
                    lemma_run_end_forced(page@, d2s as int, e.d2e, d2e as int);
                }
            }
        }
        return None;
    }
    // Spaces, then the closing brace.
    let sp3 = d2e + 3;
    let cl = scan_spaces(s, sp3);
    if !matches_at(s, cl, lit_close) {
        proof {
            assert forall|e: ExtentsLayout| e.at == i implies !extents_match(page@, e) by {
                if extents_match(page@, e) {
                    lemma_extents_enders(page@, e);
                    lemma_space_end_forced(page@, sp1 as int, e.el, el as int);
                    lemma_run_end_forced(page@, y1s as int, e.y1e, y1e as int);
                    lemma_run_end_forced(page@, m1s as int, e.m1e, m1e as int);
                    lemma_run_end_forced(page@, d1s as int, e.d1e, d1e as int);
                    lemma_space_end_forced(page@, sp2 as int, e.ll, ll as int);
                    lemma_run_end_forced(page@, y2s as int, e.y2e, y2e as int);
                    lemma_run_end_forced(page@, m2s as int, e.m2e, m2e as int);
                    lemma_run_end_forced(page@, d2s as int, e.d2e, d2e as int);
                    lemma_space_end_forced(page@, sp3 as int, e.cl, cl as int);
                }
            }
        }
        return None;
    }
    let p = ExtentsPos { el, y1s, y1e, m1s, m1e, d1s, d1e, ll, y2s, y2e, m2s, m2e, d2s, d2e };
    proof {
        assert(extents_match(page@, pos_layout(i as int, p, cl as int)));
    }
    Some(p)
}

/// Reads the enrollment window off a month-view page.
///
/// The result is the pair of dates of the first `dateExtents` object on the
/// page. A page without the object — including any page from which the
/// upstream dropped the script — and an object whose components do not form
/// proper dates both come back as `Remote`.
pub fn limits_from_page(page: &str) -> (r: Result<(CyuDate, CyuDate), Error>)
    ensures
        r matches Ok(lim) ==> exists|e: ExtentsLayout|
            #[trigger] extents_match(page@, e) && (forall|e2: ExtentsLayout|
                extents_match(page@, e2) ==> e.at <= e2.at) && extents_values_valid(page@, e)
                && lim.0@ == extents_first(page@, e) && lim.1@ == extents_second(page@, e),
        (forall|e: ExtentsLayout| !extents_match(page@, e)) ==> r == Err::<(CyuDate, CyuDate),
            Error,
        >(Error::Remote),
        r is Err ==> r == Err::<(CyuDate, CyuDate), Error>(Error::Remote) && ((
        forall|e: ExtentsLayout| !extents_match(page@, e)) || (exists|e: ExtentsLayout|
            #[trigger] extents_match(page@, e) && (forall|e2: ExtentsLayout|
                extents_match(page@, e2) ==> e.at <= e2.at) && !extents_values_valid(page@, e))),
{
    let lit_prefix = "var dateExtents = {\r\n";
    proof {
        reveal_strlit("var dateExtents = {\r\n");
    }
    let n = page.unicode_len();
    let mut from: usize = 0;
    loop
        invariant
            from <= n,
            n == page@.len(),
            lit_prefix@ == ext_prefix(),
            lit_prefix@.len() >= 1,
            forall|e: ExtentsLayout| e.at < from ==> !extents_match(page@, e),
        decreases n - from,
    {
        let i = match find_from(page, from, lit_prefix) {
            Some(i) => i,
            None => {
                proof {
                    assert forall|e: ExtentsLayout| !extents_match(page@, e) by {
                        if extents_match(page@, e) && e.at >= from {
                            assert(!match_at(page@, e.at, ext_prefix()));
                        }
                    }
                }
                return Err(Error::Remote);
            },
        };
        match extents_try_at(page, i) {
            Some(p) => {
                proof {
                    assert forall|e: ExtentsLayout| e.at < i implies !extents_match(page@, e) by {
                        if e.at >= from {
                            assert(!match_at(page@, e.at, ext_prefix()));
                        }
                    }
                }
                let first = build_date(page, p.y1s, p.y1e, p.m1s, p.m1e, p.d1s, p.d1e);
                let second = build_date(page, p.y2s, p.y2e, p.m2s, p.m2e, p.d2s, p.d2e);
                let ghost cl = choose|cl: int|
                    extents_match(page@, pos_layout(i as int, p, cl));
                let ghost e0 = pos_layout(i as int, p, cl);
                match (first, second) {
                    (Some(a), Some(b)) => {
                        proof {
                            assert(extents_match(page@, e0));
                            assert(a@ == extents_first(page@, e0));
                            assert(b@ == extents_second(page@, e0));
                        }
                        return Ok((a, b));
                    },
                    _ => {
                        proof {
                            assert(extents_match(page@, e0));
                            assert(!extents_values_valid(page@, e0));
                        }
                        return Err(Error::Remote);
                    },
                }
            },
            None => {
                proof {
                    assert forall|e: ExtentsLayout| e.at < i + 1 implies !extents_match(
                        page@,
                        e,
                    ) by {
                        if from <= e.at < i {
                            assert(!match_at(page@, e.at, ext_prefix()));
                        }
                    }
                }
                from = i + 1;
            },
        }
    }
}

/// Builds the date named by one `new Date(year, month - 1, day)` entry,
/// exactly when its components form a proper date.
fn build_date(page: &str, ys: usize, ye: usize, ms: usize, me: usize, ds: usize, de: usize) -> (r:
    Option<CyuDate>)
    requires
        ys < ye <= page@.len(),
        ms < me <= page@.len(),
        ds < de <= page@.len(),
        forall|k: int| ys <= k < ye ==> is_digit(#[trigger] page@[k]),
        forall|k: int| ms <= k < me ==> is_digit(#[trigger] page@[k]),
        forall|k: int| ds <= k < de ==> is_digit(#[trigger] page@[k]),
    ensures
        r is Some <==> valid_date(
            digits_value(page@.subrange(ys as int, ye as int)) as int,
            digits_value(page@.subrange(ms as int, me as int)) as int,
            digits_value(page@.subrange(ds as int, de as int)) as int,
        ),
        r matches Some(v) ==> v@ == (DateView {
            y: digits_value(page@.subrange(ys as int, ye as int)) as int,
            m: digits_value(page@.subrange(ms as int, me as int)) as int,
            d: digits_value(page@.subrange(ds as int, de as int)) as int,
        }),
{
    let y = parse_u32_digits(page, ys, ye);
    let m = parse_u32_digits(page, ms, me);
    let d = parse_u32_digits(page, ds, de);
    match (y, m, d) {
        (Some(y), Some(m), Some(d)) => CyuDate::new(y, m, d),
        _ => {
            // A component too large for `u32` is far past any proper date.
            None
        },
    }
}

} // verus!

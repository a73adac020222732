//! Event descriptions arrive HTML-escaped, with runs of `\r\n` or literal
//! `<br />` as line breaks. Decoding is pure and repeatable: every run of
//! break tokens collapses to one line feed, the ends are trimmed, and HTML
//! entities are decoded last. Decoding happens at read time, never at fetch
//! time; the raw text is kept verbatim.

use vstd::prelude::*;

verus! {

use vstd::string::*;
use crate::text::{match_at, matches_at};

/// A line-break token (`\r\n` or `<br />`) starts at `i`.
pub open spec fn break_at(s: Seq<char>, i: int) -> bool {
    match_at(s, i, "\r\n"@) || match_at(s, i, "<br />"@)
}

/// How many characters the break token at `i` takes.
pub open spec fn break_len(s: Seq<char>, i: int) -> int {
    if match_at(s, i, "\r\n"@) {
        2
    } else {
        6
    }
}

/// The text after all break tokens at the front are dropped.
pub open spec fn skip_breaks(s: Seq<char>) -> Seq<char>
    decreases s.len(),
    via skip_breaks_decreases
{
    if break_at(s, 0) {
        skip_breaks(s.skip(break_len(s, 0)))
    } else {
        s
    }
}

#[via_fn]
proof fn skip_breaks_decreases(s: Seq<char>) {
    reveal_strlit("\r\n");
    reveal_strlit("<br />");
}

/// The text with every run of break tokens replaced by one line feed.
pub open spec fn collapse_breaks(s: Seq<char>) -> Seq<char>
    decreases s.len(),
    via collapse_breaks_decreases
{
    if s.len() == 0 {
        seq![]
    } else if break_at(s, 0) {
        seq!['\n'] + collapse_breaks(skip_breaks(s))
    } else {
        seq![s[0]] + collapse_breaks(s.skip(1))
    }
}

/// Dropping the front break tokens leaves a strictly shorter text.
proof fn lemma_skip_breaks_shorter(s: Seq<char>)
    requires
        break_at(s, 0),
    ensures
        skip_breaks(s).len() < s.len(),
        !break_at(skip_breaks(s), 0),
    decreases s.len(),
{
    reveal_strlit("\r\n");
    reveal_strlit("<br />");
    let l = break_len(s, 0);
    assert(l == 2 || l == 6);
    assert(l <= s.len());
    let rest = s.skip(l);
    assert(rest.len() == s.len() - l);
    if break_at(rest, 0) {
        lemma_skip_breaks_shorter(rest);
    } else {
        assert(skip_breaks(rest) == rest);
    }
}

#[via_fn]
proof fn collapse_breaks_decreases(s: Seq<char>) {
    reveal_strlit("\r\n");
    reveal_strlit("<br />");
    if s.len() != 0 && break_at(s, 0) {
        lemma_skip_breaks_shorter(s);
    }
}

/// An ASCII whitespace character, as they occur at the ends of upstream
/// descriptions.
pub open spec fn is_space_char(c: char) -> bool {
    c == ' ' || c == '\t' || c == '\n' || c == '\r'
}

/// The text after leading whitespace.
pub open spec fn trim_front(s: Seq<char>) -> Seq<char>
    decreases s.len(),
{
    if s.len() > 0 && is_space_char(s[0]) {
        trim_front(s.skip(1))
    } else {
        s
    }
}

/// The text before trailing whitespace.
pub open spec fn trim_back(s: Seq<char>) -> Seq<char>
    decreases s.len(),
{
    if s.len() > 0 && is_space_char(s[s.len() - 1]) {
        trim_back(s.take(s.len() - 1))
    } else {
        s
    }
}

/// The text with whitespace removed from both ends.
pub open spec fn trim_spec(s: Seq<char>) -> Seq<char> {
    trim_back(trim_front(s))
}

/// What `html_escape::decode_html_entities` returns for a text: a function
/// of the characters alone.
pub uninterp spec fn html_unescaped_of(s: Seq<char>) -> Seq<char>;

/// Relies on `html_escape::decode_html_entities`: the decoding depends on
/// the text alone, and a text without `&` has no entity to decode.
#[verifier::external_body]
fn html_unescape(s: &str) -> (r: String)
    ensures
        r@ == html_unescaped_of(s@),
        !s@.contains('&') ==> r@ == s@,
{
    html_escape::decode_html_entities(s).into_owned()
}

/// The normalized plain-text form of a raw description.
pub open spec fn decoded_description(raw: Seq<char>) -> Seq<char> {
    html_unescaped_of(trim_spec(collapse_breaks(raw)))
}

/// Width of the break token at `pos`, or zero when none starts there.
fn break_token_len(s: &str, pos: usize) -> (r: usize)
    requires
        pos <= s@.len(),
    ensures
        r == 0 ==> !break_at(s@.skip(pos as int), 0),
        r != 0 ==> break_at(s@.skip(pos as int), 0) && r == break_len(s@.skip(pos as int), 0)
            && pos + r <= s@.len() && s@.skip(pos as int).skip(r as int) == s@.skip(pos + r),
{
    let crlf = "\r\n";
    let br = "<br />";
    proof {
        reveal_strlit("\r\n");
        reveal_strlit("<br />");
    }
    let ghost tail = s@.skip(pos as int);
    if matches_at(s, pos, crlf) {
        proof {
            assert(tail.subrange(0, 2) =~= s@.subrange(pos as int, pos + 2));
            assert(match_at(tail, 0, "\r\n"@));
            assert(tail.skip(2) =~= s@.skip(pos + 2));
        }
        2
    } else if matches_at(s, pos, br) {
        proof {
            assert(tail.subrange(0, 6) =~= s@.subrange(pos as int, pos + 6));
            assert(match_at(tail, 0, "<br />"@));
            assert(!match_at(tail, 0, "\r\n"@)) by {
                assert(tail[0] == '<');
            }
            assert(tail.skip(6) =~= s@.skip(pos + 6));
        }
        6
    } else {
        proof {
            assert(!break_at(tail, 0)) by {
                if match_at(tail, 0, "\r\n"@) {
                    assert(s@.subrange(pos as int, pos + 2) =~= tail.subrange(0, 2));
                }
                if match_at(tail, 0, "<br />"@) {
                    assert(s@.subrange(pos as int, pos + 6) =~= tail.subrange(0, 6));
                }
            }
        }
        0
    }
}

/// Collapses the break-token runs of `s` into single line feeds.
fn collapse_break_runs(s: &str) -> (r: String)
    ensures
        r@ == collapse_breaks(s@),
{
    let n = s.unicode_len();
    let mut out = String::new();
    let mut pos: usize = 0;
    proof {
        assert(s@.skip(0) =~= s@);
    }
    while pos < n
        invariant
            pos <= n,
            n == s@.len(),
            collapse_breaks(s@) == out@ + collapse_breaks(s@.skip(pos as int)),
        decreases n - pos,
    {
        let mut step = break_token_len(s, pos);
        if step != 0 {
            let ghost run_start = pos as int;
            out.append("\n");
            proof {
                reveal_strlit("\n");
            }
            // Walk past the whole run of break tokens.
            while step != 0
                invariant
                    pos <= n,
                    n == s@.len(),
                    run_start < pos || step != 0,
                    run_start <= pos,
                    break_at(s@.skip(run_start), 0),
                    skip_breaks(s@.skip(run_start)) == skip_breaks(s@.skip(pos as int)),
                    step != 0 ==> break_at(s@.skip(pos as int), 0) && step == break_len(
                        s@.skip(pos as int),
                        0,
                    ) && pos + step <= n && s@.skip(pos as int).skip(step as int) == s@.skip(
                        pos + step,
                    ),
                    step == 0 ==> !break_at(s@.skip(pos as int), 0),
                decreases n - pos,
            {
                pos += step;
                step = break_token_len(s, pos);
            }
            proof {
                assert(skip_breaks(s@.skip(pos as int)) == s@.skip(pos as int));
                assert(collapse_breaks(s@.skip(run_start)) == seq!['\n'] + collapse_breaks(
                    s@.skip(pos as int),
                ));
                assert(out@ + collapse_breaks(s@.skip(pos as int)) =~= collapse_breaks(s@));
            }
        } else {
            let c = s.get_char(pos);
            proof {
                let tail = s@.skip(pos as int);
                assert(tail.len() > 0);
                assert(tail[0] == s@[pos as int]);
                assert(tail.skip(1) =~= s@.skip(pos + 1));
            }
            push_one(&mut out, c);
            proof {
                assert(out@ + collapse_breaks(s@.skip(pos + 1)) =~= collapse_breaks(s@));
            }
            pos += 1;
        }
    }
    proof {
        assert(s@.skip(n as int) =~= Seq::<char>::empty());
        assert(out@ =~= collapse_breaks(s@));
    }
    out
}

/// Appends one character.
pub(crate) fn push_one(out: &mut String, c: char)
    ensures
        final(out)@ == old(out)@.push(c),
{
    let mut buf = [0u8; 4];
    let piece: &str = char_to_str(c, &mut buf);
    out.append(piece);
    proof {
        assert(old(out)@ + piece@ =~= old(out)@.push(c));
    }
}

/// Relies on `char::encode_utf8`: the returned slice reads back as the one
/// encoded character.
#[verifier::external_body]
fn char_to_str<'a>(c: char, buf: &'a mut [u8; 4]) -> (r: &'a str)
    ensures
        r@ == seq![c],
{
    c.encode_utf8(buf)
}

/// Removes ASCII whitespace from both ends of `s`.
fn trim_ends(s: &str) -> (r: String)
    ensures
        r@ == trim_spec(s@),
{
    let n = s.unicode_len();
    let mut start: usize = 0;
    while start < n && is_space(s.get_char(start))
        invariant
            start <= n,
            n == s@.len(),
            forall|k: int| 0 <= k < start ==> is_space_char(s@[k]),
        decreases n - start,
    {
        start += 1;
    }
    let mut end: usize = n;
    while end > start && is_space(s.get_char(end - 1))
        invariant
            start <= end <= n,
            n == s@.len(),
            forall|k: int| 0 <= k < start ==> is_space_char(s@[k]),
            forall|k: int| end <= k < n ==> is_space_char(s@[k]),
        decreases end,
    {
        end -= 1;
    }
    let r = s.substring_char(start, end).to_owned();
    proof {
        lemma_trim_front_at(s@, start as int);
        let f = s@.skip(start as int);
        lemma_trim_back_at(f, end - start);
        assert(f.take(end - start) =~= s@.subrange(start as int, end as int));
        if start < n && end == start {
            assert(is_space_char(s@[start as int]) ==> false);
        }
    }
    r
}

/// Whether `c` is ASCII whitespace.
fn is_space(c: char) -> (r: bool)
    ensures
        r == is_space_char(c),
{
    c == ' ' || c == '\t' || c == '\n' || c == '\r'
}

/// Skipping the leading whitespace is what `trim_front` does.
proof fn lemma_trim_front_at(s: Seq<char>, k: int)
    requires
        0 <= k <= s.len(),
        forall|j: int| 0 <= j < k ==> is_space_char(s[j]),
        k < s.len() ==> !is_space_char(s[k]),
    ensures
        trim_front(s) == s.skip(k),
    decreases k,
{
    if k == 0 {
        if s.len() > 0 && is_space_char(s[0]) {
            assert(false);
        }
        assert(s.skip(0) =~= s);
    } else {
        let t = s.skip(1);
        lemma_trim_front_at(t, k - 1);
        assert(t.skip(k - 1) =~= s.skip(k));
    }
}

/// Cutting the trailing whitespace is what `trim_back` does.
proof fn lemma_trim_back_at(s: Seq<char>, k: int)
    requires
        0 <= k <= s.len(),
        forall|j: int| k <= j < s.len() ==> is_space_char(s[j]),
        k > 0 ==> !is_space_char(s[k - 1]),
    ensures
        trim_back(s) == s.take(k),
    decreases s.len(),
{
    if k == s.len() {
        if k > 0 {
            assert(!(s.len() > 0 && is_space_char(s[s.len() - 1])));
        }
        assert(s.take(k) =~= s);
    } else {
        let t = s.take(s.len() - 1);
        lemma_trim_back_at(t, k);
        assert(t.take(k) =~= s.take(k));
    }
}

/// The normalized plain-text form of a raw description: break-token runs
/// become line feeds, the ends are trimmed, HTML entities are decoded.
pub fn parse_description(description: &str) -> (r: String)
    ensures
        r@ == decoded_description(description@),
{
    let collapsed = collapse_break_runs(description);
    let trimmed = trim_ends(collapsed.as_str());
    html_unescape(trimmed.as_str())
}

} // verus!

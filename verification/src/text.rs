//! Verified text scanning: substring search, digit runs, decimal values,
//! and joining. The upstream pages are plain text, so all extraction logic
//! is built from these primitives.

use vstd::prelude::*;

verus! {

use vstd::string::*;

/// `pat` occurs in `hay` starting at position `i`.
pub open spec fn match_at(hay: Seq<char>, i: int, pat: Seq<char>) -> bool {
    0 <= i && i + pat.len() <= hay.len() && hay.subrange(i, i + pat.len()) == pat
}

/// A decimal digit.
pub open spec fn is_digit(c: char) -> bool {
    '0' <= c && c <= '9'
}

/// Numeric value of a run of decimal digits, most significant first.
pub open spec fn digits_value(s: Seq<char>) -> nat
    decreases s.len(),
{
    if s.len() == 0 {
        0
    } else {
        digits_value(s.drop_last()) * 10 + (s.last() as nat - ('0' as nat)) as nat
    }
}

/// The pieces joined with one `sep` between neighbours, order kept.
pub open spec fn join_with(parts: Seq<Seq<char>>, sep: char) -> Seq<char>
    decreases parts.len(),
{
    if parts.len() == 0 {
        Seq::empty()
    } else if parts.len() == 1 {
        parts[0]
    } else {
        join_with(parts.drop_last(), sep) + seq![sep] + parts.last()
    }
}

/// Whether `pat` occurs in `hay` starting exactly at `i`.
pub(crate) fn matches_at(hay: &str, i: usize, pat: &str) -> (r: bool)
    requires
        i <= hay@.len(),
    ensures
        r == match_at(hay@, i as int, pat@),
{
    let n: usize = hay.unicode_len();
    let m: usize = pat.unicode_len();
    if m > n - i {
        return false;
    }
    let mut j: usize = 0;
    while j < m
        invariant
            i + m <= n,
            n == hay@.len(),
            m == pat@.len(),
            j <= m,
            forall|k: int| 0 <= k < j ==> hay@[i + k] == pat@[k],
        decreases m - j,
    {
        if hay.get_char(i + j) != pat.get_char(j) {
            return false;
        }
        j += 1;
    }
    proof {
        assert(hay@.subrange(i as int, i + pat@.len()) =~= pat@);
    }
    true
}

/// First position at or after `start` where `pat` occurs in `hay`.
pub(crate) fn find_from(hay: &str, start: usize, pat: &str) -> (r: Option<usize>)
    requires
        start <= hay@.len(),
        pat@.len() >= 1,
    ensures
        r matches Some(i) ==> start <= i && match_at(hay@, i as int, pat@) && forall|j: int|
            start <= j < i ==> !match_at(hay@, j, pat@),
        r is None ==> forall|j: int| start <= j ==> !match_at(hay@, j, pat@),
{
    let n: usize = hay.unicode_len();
    let mut i: usize = start;
    while i < n
        invariant
            start <= i,
            n == hay@.len(),
            i <= n,
            pat@.len() >= 1,
            forall|j: int| start <= j < i ==> !match_at(hay@, j, pat@),
        decreases n - i,
    {
        if matches_at(hay, i, pat) {
            return Some(i);
        }
        i += 1;
    }
    None
}

/// First position at or after `start` holding the character `c`.
pub(crate) fn find_char_from(hay: &str, start: usize, c: char) -> (r: Option<usize>)
    requires
        start <= hay@.len(),
    ensures
        r matches Some(i) ==> start <= i < hay@.len() && hay@[i as int] == c && forall|j: int|
            start <= j < i ==> hay@[j] != c,
        r is None ==> forall|j: int| start <= j < hay@.len() ==> hay@[j] != c,
{
    let n: usize = hay.unicode_len();
    let mut i: usize = start;
    while i < n
        invariant
            start <= i <= n,
            n == hay@.len(),
            forall|j: int| start <= j < i ==> hay@[j] != c,
        decreases n - i,
    {
        if hay.get_char(i) == c {
            return Some(i);
        }
        i += 1;
    }
    None
}

/// First position at or after `start` that does not hold a decimal digit.
pub(crate) fn scan_digits(s: &str, start: usize) -> (r: usize)
    requires
        start <= s@.len(),
    ensures
        start <= r <= s@.len(),
        forall|k: int| start <= k < r ==> is_digit(s@[k]),
        r < s@.len() ==> !is_digit(s@[r as int]),
{
    let n: usize = s.unicode_len();
    let mut i: usize = start;
    while i < n
        invariant
            start <= i <= n,
            n == s@.len(),
            forall|k: int| start <= k < i ==> is_digit(s@[k]),
        decreases n - i,
    {
        let c = s.get_char(i);
        if !('0' <= c && c <= '9') {
            return i;
        }
        i += 1;
    }
    n
}

/// First position at or after `start` that does not hold a space.
pub(crate) fn scan_spaces(s: &str, start: usize) -> (r: usize)
    requires
        start <= s@.len(),
    ensures
        start <= r <= s@.len(),
        forall|k: int| start <= k < r ==> s@[k] == ' ',
        r < s@.len() ==> s@[r as int] != ' ',
{
    let n: usize = s.unicode_len();
    let mut i: usize = start;
    while i < n
        invariant
            start <= i <= n,
            n == s@.len(),
            forall|k: int| start <= k < i ==> s@[k] == ' ',
        decreases n - i,
    {
        if s.get_char(i) != ' ' {
            return i;
        }
        i += 1;
    }
    n
}

/// A longer run of digits has at least the value of its prefix.
proof fn lemma_digits_value_grows(s: Seq<char>, k: int)
    requires
        0 <= k <= s.len(),
    ensures
        digits_value(s.subrange(0, k)) <= digits_value(s),
    decreases s.len() - k,
{
    if k < s.len() {
        let t = s.subrange(0, s.len() - 1);
        assert(t.subrange(0, k) =~= s.subrange(0, k));
        assert(t =~= s.drop_last());
        lemma_digits_value_grows(t, k);
    } else {
        assert(s.subrange(0, k) =~= s);
    }
}

/// Value of the digit run `s[from..to]`, or `None` when it exceeds `u32`.
pub(crate) fn parse_u32_digits(s: &str, from: usize, to: usize) -> (r: Option<u32>)
    requires
        from <= to <= s@.len(),
        forall|k: int| from <= k < to ==> is_digit(s@[k]),
    ensures
        r matches Some(v) ==> v as nat == digits_value(s@.subrange(from as int, to as int)),
        r is None ==> digits_value(s@.subrange(from as int, to as int)) > u32::MAX,
{
    let mut acc: u32 = 0;
    let mut i: usize = from;
    while i < to
        invariant
            from <= i <= to <= s@.len(),
            forall|k: int| from <= k < to ==> is_digit(s@[k]),
            acc as nat == digits_value(s@.subrange(from as int, i as int)),
        decreases to - i,
    {
        let c = s.get_char(i);
        let d: u32 = (c as u32) - 48;
        proof {
            assert(is_digit(s@[i as int]));
        }
        if acc > (u32::MAX - d) / 10 {
            proof {
                let cur = s@.subrange(from as int, i + 1);
                assert(cur.drop_last() =~= s@.subrange(from as int, i as int));
                assert(digits_value(cur) > u32::MAX);
                lemma_digits_value_grows(
                    s@.subrange(from as int, to as int),
                    i + 1 - from,
                );
                assert(s@.subrange(from as int, to as int).subrange(0, i + 1 - from) =~= cur);
            }
            return None;
        }
        proof {
            let cur = s@.subrange(from as int, i + 1);
            assert(cur.drop_last() =~= s@.subrange(from as int, i as int));
        }
        acc = acc * 10 + d;
        i += 1;
    }
    Some(acc)
}

/// Whether two texts hold the same characters.
pub(crate) fn str_eq(a: &str, b: &str) -> (r: bool)
    ensures
        r == (a@ == b@),
{
    let n: usize = a.unicode_len();
    let m: usize = b.unicode_len();
    if n != m {
        return false;
    }
    let mut i: usize = 0;
    while i < n
        invariant
            i <= n,
            n == a@.len(),
            n == b@.len(),
            forall|k: int| 0 <= k < i ==> a@[k] == b@[k],
        decreases n - i,
    {
        if a.get_char(i) != b.get_char(i) {
            return false;
        }
        i += 1;
    }
    proof {
        assert(a@ =~= b@);
    }
    true
}

/// The pieces joined with one `;` between neighbours, order kept.
pub fn join_semicolon(parts: &Vec<String>) -> (r: String)
    ensures
        r@ == join_with(parts@.map_values(|p: String| p@), ';'),
{
    let ghost view_parts = parts@.map_values(|p: String| p@);
    let mut out = String::new();
    let mut i: usize = 0;
    while i < parts.len()
        invariant
            i <= parts@.len(),
            view_parts == parts@.map_values(|p: String| p@),
            view_parts.len() == parts@.len(),
            out@ == join_with(view_parts.subrange(0, i as int), ';'),
        decreases parts@.len() - i,
    {
        if i > 0 {
            out.append(";");
            proof {
                reveal_strlit(";");
            }
        }
        out.append(parts[i].as_str());
        proof {
            let pre = view_parts.subrange(0, i as int);
            let cur = view_parts.subrange(0, i + 1);
            assert(cur.drop_last() =~= pre);
            assert(cur.last() == view_parts[i as int]);
            if i == 0 {
                assert(out@ =~= join_with(cur, ';'));
            } else {
                assert(out@ =~= join_with(cur, ';'));
            }
        }
        i += 1;
    }
    proof {
        assert(view_parts.subrange(0, parts@.len() as int) =~= view_parts);
    }
    out
}

} // verus!

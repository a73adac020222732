//! Calendar dates and date-times, modelled as plain year/month/day
//! (hour/minute/second) fields with a proper-calendar invariant, together
//! with the exact wire formats the upstream exchanges: `YYYY-MM-DD` for
//! plain dates and `YYYY-MM-DDTHH:MM:SS` for date-times.

use vstd::prelude::*;

verus! {

use vstd::string::*;
use crate::text::is_digit;

/// Mathematical value of a date.
pub struct DateView {
    pub y: int,
    pub m: int,
    pub d: int,
}

/// Mathematical value of a date-time.
pub struct DateTimeView {
    pub date: DateView,
    pub h: int,
    pub mi: int,
    pub s: int,
}

pub open spec fn is_leap_year(y: int) -> bool {
    (y % 4 == 0 && y % 100 != 0) || y % 400 == 0
}

pub open spec fn days_in_month(y: int, m: int) -> int {
    if m == 2 {
        if is_leap_year(y) {
            29
        } else {
            28
        }
    } else if m == 4 || m == 6 || m == 9 || m == 11 {
        30
    } else {
        31
    }
}

/// A proper calendar date whose year fits the four-digit wire format.
pub open spec fn valid_date(y: int, m: int, d: int) -> bool {
    &&& 0 <= y <= 9999
    &&& 1 <= m <= 12
    &&& 1 <= d <= days_in_month(y, m)
}

pub open spec fn valid_time(h: int, mi: int, s: int) -> bool {
    0 <= h < 24 && 0 <= mi < 60 && 0 <= s < 60
}

pub open spec fn valid_date_view(v: DateView) -> bool {
    valid_date(v.y, v.m, v.d)
}

pub open spec fn valid_date_time_view(v: DateTimeView) -> bool {
    valid_date_view(v.date) && valid_time(v.h, v.mi, v.s)
}

/// The character for one decimal digit.
pub open spec fn digit_char(d: int) -> char {
    if d == 0 {
        '0'
    } else if d == 1 {
        '1'
    } else if d == 2 {
        '2'
    } else if d == 3 {
        '3'
    } else if d == 4 {
        '4'
    } else if d == 5 {
        '5'
    } else if d == 6 {
        '6'
    } else if d == 7 {
        '7'
    } else if d == 8 {
        '8'
    } else {
        '9'
    }
}

/// Two decimal digits, zero padded.
pub open spec fn dec2(v: int) -> Seq<char> {
    seq![digit_char(v / 10), digit_char(v % 10)]
}

/// Four decimal digits, zero padded.
pub open spec fn dec4(v: int) -> Seq<char> {
    seq![
        digit_char(v / 1000),
        digit_char((v / 100) % 10),
        digit_char((v / 10) % 10),
        digit_char(v % 10),
    ]
}

/// The `YYYY-MM-DD` form of a date.
pub open spec fn date_wire(v: DateView) -> Seq<char> {
    dec4(v.y) + seq!['-'] + dec2(v.m) + seq!['-'] + dec2(v.d)
}

/// The `YYYY-MM-DDTHH:MM:SS` form of a date-time.
pub open spec fn date_time_wire(v: DateTimeView) -> Seq<char> {
    date_wire(v.date) + seq!['T'] + dec2(v.h) + seq![':'] + dec2(v.mi) + seq![':'] + dec2(v.s)
}

/// The compact `YYYYMMDD` form of a date.
pub open spec fn date_compact(v: DateView) -> Seq<char> {
    dec4(v.y) + dec2(v.m) + dec2(v.d)
}

/// The compact `YYYYMMDDTHHMMSSZ` form of a date-time.
pub open spec fn date_time_compact(v: DateTimeView) -> Seq<char> {
    date_compact(v.date) + seq!['T'] + dec2(v.h) + dec2(v.mi) + dec2(v.s) + seq!['Z']
}

/// Appends the digit character for `d`.
pub(crate) fn push_digit(out: &mut String, d: u32)
    requires
        d < 10,
    ensures
        final(out)@ == old(out)@.push(digit_char(d as int)),
{
    let table = "0123456789";
    proof {
        reveal_strlit("0123456789");
    }
    let piece = table.substring_ascii(d as usize, d as usize + 1);
    out.append(piece);
    proof {
        assert(old(out)@ + piece@ =~= old(out)@.push(digit_char(d as int)));
    }
}

/// Appends `v` as two zero-padded digits.
pub(crate) fn push_dec2(out: &mut String, v: u32)
    requires
        v < 100,
    ensures
        final(out)@ == old(out)@ + dec2(v as int),
{
    push_digit(out, v / 10);
    push_digit(out, v % 10);
    proof {
        assert(final(out)@ =~= old(out)@ + dec2(v as int));
    }
}

/// Appends `v` as four zero-padded digits.
pub(crate) fn push_dec4(out: &mut String, v: u32)
    requires
        v < 10000,
    ensures
        final(out)@ == old(out)@ + dec4(v as int),
{
    push_digit(out, v / 1000);
    push_digit(out, (v / 100) % 10);
    push_digit(out, (v / 10) % 10);
    push_digit(out, v % 10);
    proof {
        assert(final(out)@ =~= old(out)@ + dec4(v as int));
    }
}

/// A calendar date, always proper.
#[derive(Debug, Clone, Copy, PartialEq, Eq, Structural)]
pub struct CyuDate {
    year: u32,
    month: u32,
    day: u32,
}

impl View for CyuDate {
    type V = DateView;

    closed spec fn view(&self) -> DateView {
        DateView { y: self.year as int, m: self.month as int, d: self.day as int }
    }
}

impl CyuDate {
    #[verifier::type_invariant]
    pub closed spec fn inv(&self) -> bool {
        valid_date_view(self@)
    }

    /// The date `year-month-day`, exactly when those form a proper date.
    pub fn new(year: u32, month: u32, day: u32) -> (r: Option<CyuDate>)
        ensures
            r is Some <==> valid_date(year as int, month as int, day as int),
            r matches Some(v) ==> v@ == (DateView { y: year as int, m: month as int, d: day as int }),
    {
        if year > 9999 || month < 1 || month > 12 {
            return None;
        }
        let leap = (year % 4 == 0 && year % 100 != 0) || year % 400 == 0;
        let max_day: u32 = if month == 2 {
            if leap {
                29
            } else {
                28
            }
        } else if month == 4 || month == 6 || month == 9 || month == 11 {
            30
        } else {
            31
        };
        if day < 1 || day > max_day {
            return None;
        }
        Some(CyuDate { year, month, day })
    }

    pub fn year(&self) -> (r: u32)
        ensures
            r as int == self@.y,
    {
        self.year
    }

    pub fn month(&self) -> (r: u32)
        ensures
            r as int == self@.m,
    {
        self.month
    }

    pub fn day(&self) -> (r: u32)
        ensures
            r as int == self@.d,
    {
        self.day
    }

    /// The `YYYY-MM-DD` wire form.
    pub fn to_wire(&self) -> (r: String)
        ensures
            r@ == date_wire(self@),
    {
        proof {
            use_type_invariant(self);
        }
        let mut out = String::new();
        push_dec4(&mut out, self.year);
        out.append("-");
        push_dec2(&mut out, self.month);
        out.append("-");
        push_dec2(&mut out, self.day);
        proof {
            reveal_strlit("-");
            assert(out@ =~= date_wire(self@));
        }
        out
    }

    /// The compact `YYYYMMDD` form.
    pub fn to_compact(&self) -> (r: String)
        ensures
            r@ == date_compact(self@),
    {
        proof {
            use_type_invariant(self);
        }
        let mut out = String::new();
        push_dec4(&mut out, self.year);
        push_dec2(&mut out, self.month);
        push_dec2(&mut out, self.day);
        proof {
            assert(out@ =~= date_compact(self@));
        }
        out
    }
}

/// A date-time on a proper date, with a valid time of day.
#[derive(Debug, Clone, Copy, PartialEq, Eq, Structural)]
pub struct CyuDateTime {
    date: CyuDate,
    hour: u32,
    minute: u32,
    second: u32,
}

impl View for CyuDateTime {
    type V = DateTimeView;

    closed spec fn view(&self) -> DateTimeView {
        DateTimeView {
            date: self.date@,
            h: self.hour as int,
            mi: self.minute as int,
            s: self.second as int,
        }
    }
}

impl CyuDateTime {
    #[verifier::type_invariant]
    pub closed spec fn inv(&self) -> bool {
        valid_date_time_view(self@)
    }

    /// The date-time from its components, exactly when they are proper.
    pub fn new(year: u32, month: u32, day: u32, hour: u32, min: u32, sec: u32) -> (r: Option<
        CyuDateTime,
    >)
        ensures
            r is Some <==> valid_date(year as int, month as int, day as int) && valid_time(
                hour as int,
                min as int,
                sec as int,
            ),
            r matches Some(v) ==> v@ == (DateTimeView {
                date: DateView { y: year as int, m: month as int, d: day as int },
                h: hour as int,
                mi: min as int,
                s: sec as int,
            }),
    {
        let date = match CyuDate::new(year, month, day) {
            Some(d) => d,
            None => {
                return None;
            },
        };
        if hour >= 24 || min >= 60 || sec >= 60 {
            return None;
        }
        Some(CyuDateTime { date, hour, minute: min, second: sec })
    }

    /// The calendar-date part.
    pub fn date(&self) -> (r: CyuDate)
        ensures
            r@ == self@.date,
    {
        proof {
            use_type_invariant(self);
        }
        self.date
    }

    /// The `YYYY-MM-DDTHH:MM:SS` wire form.
    pub fn to_wire(&self) -> (r: String)
        ensures
            r@ == date_time_wire(self@),
    {
        proof {
            use_type_invariant(self);
        }
        let mut out = self.date.to_wire();
        out.append("T");
        push_dec2(&mut out, self.hour);
        out.append(":");
        push_dec2(&mut out, self.minute);
        out.append(":");
        push_dec2(&mut out, self.second);
        proof {
            reveal_strlit("T");
            reveal_strlit(":");
            assert(out@ =~= date_time_wire(self@));
        }
        out
    }

    /// The compact `YYYYMMDDTHHMMSSZ` form.
    pub fn to_compact(&self) -> (r: String)
        ensures
            r@ == date_time_compact(self@),
    {
        proof {
            use_type_invariant(self);
        }
        let mut out = self.date.to_compact();
        out.append("T");
        push_dec2(&mut out, self.hour);
        push_dec2(&mut out, self.minute);
        push_dec2(&mut out, self.second);
        out.append("Z");
        proof {
            reveal_strlit("T");
            reveal_strlit("Z");
            assert(out@ =~= date_time_compact(self@));
        }
        out
    }
}

/// Reads the two digits at `i`, when both positions hold digits.
fn read_dec2(s: &str, i: usize) -> (r: Option<u32>)
    requires
        i + 2 <= s@.len(),
        s@.len() <= usize::MAX,
    ensures
        r matches Some(v) ==> v < 100 && dec2(v as int) =~= s@.subrange(i as int, i + 2),
        r is None ==> !(is_digit(s@[i as int]) && is_digit(s@[i + 1])),
{
    let c0 = s.get_char(i);
    let c1 = s.get_char(i + 1);
    match (digit_of(c0), digit_of(c1)) {
        (Some(d0), Some(d1)) => {
            let v = d0 * 10 + d1;
            proof {
                assert(dec2(v as int) =~= s@.subrange(i as int, i + 2));
            }
            Some(v)
        },
        _ => None,
    }
}

/// Reads the four digits at `i`, when all four positions hold digits.
fn read_dec4(s: &str, i: usize) -> (r: Option<u32>)
    requires
        i + 4 <= s@.len(),
        s@.len() <= usize::MAX,
    ensures
        r matches Some(v) ==> v < 10000 && dec4(v as int) =~= s@.subrange(i as int, i + 4),
        r is None ==> !(is_digit(s@[i as int]) && is_digit(s@[i + 1]) && is_digit(s@[i + 2])
            && is_digit(s@[i + 3])),
{
    let c0 = s.get_char(i);
    let c1 = s.get_char(i + 1);
    let c2 = s.get_char(i + 2);
    let c3 = s.get_char(i + 3);
    match (digit_of(c0), digit_of(c1), digit_of(c2), digit_of(c3)) {
        (Some(d0), Some(d1), Some(d2), Some(d3)) => {
            let v = ((d0 * 10 + d1) * 10 + d2) * 10 + d3;
            proof {
                assert(dec4(v as int) =~= s@.subrange(i as int, i + 4));
            }
            Some(v)
        },
        _ => None,
    }
}

/// The value of one digit character.
fn digit_of(c: char) -> (r: Option<u32>)
    ensures
        r matches Some(d) ==> d < 10 && is_digit(c) && digit_char(d as int) == c,
        r is None ==> !is_digit(c),
{
    if c == '0' {
        Some(0)
    } else if c == '1' {
        Some(1)
    } else if c == '2' {
        Some(2)
    } else if c == '3' {
        Some(3)
    } else if c == '4' {
        Some(4)
    } else if c == '5' {
        Some(5)
    } else if c == '6' {
        Some(6)
    } else if c == '7' {
        Some(7)
    } else if c == '8' {
        Some(8)
    } else if c == '9' {
        Some(9)
    } else {
        None
    }
}

impl CyuDate {
    /// Reads a date from its exact `YYYY-MM-DD` wire form.
    pub fn parse_wire(s: &str) -> (r: Option<CyuDate>)
        ensures
            r matches Some(v) ==> s@ == date_wire(v@) && valid_date_view(v@),
            r is None ==> forall|v: DateView| valid_date_view(v) ==> s@ != #[trigger] date_wire(v),
    {
        if s.unicode_len() != 10 {
            proof {
                lemma_date_wire_len();
            }
            return None;
        }
        if s.get_char(4) != '-' || s.get_char(7) != '-' {
            proof {
                lemma_date_wire_shape();
            }
            return None;
        }
        let (y, m, d) = match (read_dec4(s, 0), read_dec2(s, 5), read_dec2(s, 8)) {
            (Some(y), Some(m), Some(d)) => (y, m, d),
            _ => {
                proof {
                    lemma_date_wire_shape();
                }
                return None;
            },
        };
        match CyuDate::new(y, m, d) {
            Some(date) => {
                proof {
                    assert(s@ =~= date_wire(date@));
                }
                Some(date)
            },
            None => {
                proof {
                    lemma_date_wire_shape();
                    assert forall|v: DateView| valid_date_view(v) implies s@ != #[trigger] date_wire(v) by {
                        if s@ == date_wire(v) {
                            assert(dec4(v.y) == dec4(y as int));
                            assert(dec2(v.m) == dec2(m as int));
                            assert(dec2(v.d) == dec2(d as int));
                            lemma_dec4_injective(v.y, y as int);
                            lemma_dec2_injective(v.m, m as int);
                            lemma_dec2_injective(v.d, d as int);
                        }
                    }
                }
                None
            },
        }
    }
}

impl CyuDateTime {
    /// Reads a date-time from its exact `YYYY-MM-DDTHH:MM:SS` wire form.
    pub fn parse_wire(s: &str) -> (r: Option<CyuDateTime>)
        ensures
            r matches Some(v) ==> s@ == date_time_wire(v@) && valid_date_time_view(v@),
            r is None ==> forall|v: DateTimeView| valid_date_time_view(v) ==> s@ != #[trigger] date_time_wire(v),
    {
        if s.unicode_len() != 19 {
            proof {
                lemma_date_wire_len();
            }
            return None;
        }
        if s.get_char(4) != '-' || s.get_char(7) != '-' || s.get_char(10) != 'T' || s.get_char(13)
            != ':' || s.get_char(16) != ':' {
            proof {
                lemma_date_time_wire_shape();
            }
            return None;
        }
        let parts = (
            read_dec4(s, 0),
            read_dec2(s, 5),
            read_dec2(s, 8),
            read_dec2(s, 11),
            read_dec2(s, 14),
            read_dec2(s, 17),
        );
        let (y, m, d, h, mi, sec) = match parts {
            (Some(y), Some(m), Some(d), Some(h), Some(mi), Some(sec)) => (y, m, d, h, mi, sec),
            _ => {
                proof {
                    lemma_date_time_wire_shape();
                }
                return None;
            },
        };
        if h >= 24 || mi >= 60 || sec >= 60 {
            proof {
                lemma_date_time_wire_shape();
                assert forall|v: DateTimeView| valid_date_time_view(v) implies s@ != #[trigger] date_time_wire(v) by {
                    if s@ == date_time_wire(v) {
                        assert(dec2(v.h) == dec2(h as int));
                        assert(dec2(v.mi) == dec2(mi as int));
                        assert(dec2(v.s) == dec2(sec as int));
                        lemma_dec2_injective(v.h, h as int);
                        lemma_dec2_injective(v.mi, mi as int);
                        lemma_dec2_injective(v.s, sec as int);
                    }
                }
            }
            return None;
        }
        match CyuDateTime::new(y, m, d, h, mi, sec) {
            Some(dt) => {
                proof {
                    assert(s@ =~= date_time_wire(dt@));
                }
                Some(dt)
            },
            None => {
                proof {
                    lemma_date_time_wire_shape();
                    assert forall|v: DateTimeView| valid_date_time_view(v) implies s@ != #[trigger] date_time_wire(v) by {
                        if s@ == date_time_wire(v) {
                            assert(dec4(v.date.y) == dec4(y as int));
                            assert(dec2(v.date.m) == dec2(m as int));
                            assert(dec2(v.date.d) == dec2(d as int));
                            lemma_dec4_injective(v.date.y, y as int);
                            lemma_dec2_injective(v.date.m, m as int);
                            lemma_dec2_injective(v.date.d, d as int);
                        }
                    }
                }
                None
            },
        }
    }
}

/// Reading back the two digit characters of a value below 100 yields it.
proof fn lemma_dec2_injective(a: int, b: int)
    requires
        0 <= a < 100,
        0 <= b < 100,
        dec2(a) == dec2(b),
    ensures
        a == b,
{
    assert(digit_char(a / 10) == dec2(a)[0]);
    assert(digit_char(a % 10) == dec2(a)[1]);
    assert(a == (a / 10) * 10 + a % 10);
    assert(b == (b / 10) * 10 + b % 10);
}

/// Reading back the four digit characters of a value below 10000 yields it.
proof fn lemma_dec4_injective(a: int, b: int)
    requires
        0 <= a < 10000,
        0 <= b < 10000,
        dec4(a) == dec4(b),
    ensures
        a == b,
{
    assert(digit_char(a / 1000) == dec4(a)[0]);
    assert(digit_char((a / 100) % 10) == dec4(a)[1]);
    assert(digit_char((a / 10) % 10) == dec4(a)[2]);
    assert(digit_char(a % 10) == dec4(a)[3]);
    assert(a == ((a / 1000) * 10 + (a / 100) % 10) * 100 + ((a / 10) % 10) * 10 + a % 10) by (nonlinear_arith)
        requires 0 <= a < 10000;
    assert(b == ((b / 1000) * 10 + (b / 100) % 10) * 100 + ((b / 10) % 10) * 10 + b % 10) by (nonlinear_arith)
        requires 0 <= b < 10000;
}

/// Every date wire form has ten characters.
proof fn lemma_date_wire_len()
    ensures
        forall|v: DateView| (#[trigger] date_wire(v)).len() == 10,
        forall|v: DateTimeView| (#[trigger] date_time_wire(v)).len() == 19,
{
}

/// Positions of separators and digits in a date wire form.
proof fn lemma_date_wire_shape()
    ensures
        forall|v: DateView| valid_date_view(v) ==> (#[trigger] date_wire(v)).len() == 10
            && date_wire(v)[4] == '-' && date_wire(v)[7] == '-' && is_digit(date_wire(v)[0])
            && is_digit(date_wire(v)[1]) && is_digit(date_wire(v)[2]) && is_digit(date_wire(v)[3])
            && is_digit(date_wire(v)[5]) && is_digit(date_wire(v)[6]) && is_digit(date_wire(v)[8])
            && is_digit(date_wire(v)[9]) && dec4(v.y) =~= date_wire(v).subrange(0, 4) && dec2(v.m)
            =~= date_wire(v).subrange(5, 7) && dec2(v.d) =~= date_wire(v).subrange(8, 10),
{
}

/// Positions of separators and digits in a date-time wire form.
proof fn lemma_date_time_wire_shape()
    ensures
        forall|v: DateTimeView| valid_date_time_view(v) ==> (#[trigger] date_time_wire(v)).len()
            == 19 && date_time_wire(v)[4] == '-' && date_time_wire(v)[7] == '-'
            && date_time_wire(v)[10] == 'T' && date_time_wire(v)[13] == ':' && date_time_wire(
            v,
        )[16] == ':' && dec4(v.date.y) =~= date_time_wire(v).subrange(0, 4) && dec2(v.date.m) =~= date_time_wire(
            v,
        ).subrange(5, 7) && dec2(v.date.d) =~= date_time_wire(v).subrange(8, 10) && dec2(v.h) =~= date_time_wire(
            v,
        ).subrange(11, 13) && dec2(v.mi) =~= date_time_wire(v).subrange(14, 16) && dec2(v.s) =~= date_time_wire(
            v,
        ).subrange(17, 19) && is_digit(date_time_wire(v)[0]) && is_digit(date_time_wire(v)[1])
            && is_digit(date_time_wire(v)[2]) && is_digit(date_time_wire(v)[3]) && is_digit(
            date_time_wire(v)[5],
        ) && is_digit(date_time_wire(v)[6]) && is_digit(date_time_wire(v)[8]) && is_digit(
            date_time_wire(v)[9],
        ) && is_digit(date_time_wire(v)[11]) && is_digit(date_time_wire(v)[12]) && is_digit(
            date_time_wire(v)[14],
        ) && is_digit(date_time_wire(v)[15]) && is_digit(date_time_wire(v)[17]) && is_digit(
            date_time_wire(v)[18],
        ),
{
}

} // verus!

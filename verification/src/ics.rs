//! Calendar-interchange serialization.
//!
//! Every normalized event maps to at most one interchange record: all-day
//! events to a date-only record whatever their end, timed events with an end
//! to a start/end record, and open-ended timed events to none at all — the
//! format cannot carry them faithfully, so they are dropped by policy, not
//! by error. The record id suffixes the upstream event id with a fixed
//! namespace; the summary comes from the category, rebuilt for the two
//! special codes out of the description body; and a final pass rewrites the
//! upper-case newline escape to its lower-case form, a compatibility fix-up
//! the consumers need.

use vstd::prelude::*;

verus! {

use vstd::string::*;
use crate::text::match_at;
use crate::date::{CyuDate, CyuDateTime, DateView, DateTimeView, date_compact, date_time_compact};
use crate::description::decoded_description;
use crate::calendar::{GetCalendarResponseElement, EventView};

/// When a record happens: on one whole day, or between two instants.
pub enum IcsTime {
    AllDay(CyuDate),
    Timed(CyuDateTime, CyuDateTime),
}

/// Mathematical value of a record time.
pub enum TimeView {
    AllDay(DateView),
    Timed(DateTimeView, DateTimeView),
}

impl View for IcsTime {
    type V = TimeView;

    closed spec fn view(&self) -> TimeView {
        match self {
            IcsTime::AllDay(d) => TimeView::AllDay(d@),
            IcsTime::Timed(a, b) => TimeView::Timed(a@, b@),
        }
    }
}

/// One interchange record, ready to be written out.
pub struct IcsEvent {
    pub uid: String,
    pub summary: String,
    pub description: String,
    pub time: IcsTime,
}

/// Mathematical value of a record.
pub struct RecordView {
    pub uid: Seq<char>,
    pub summary: Seq<char>,
    pub description: Seq<char>,
    pub time: TimeView,
}

impl View for IcsEvent {
    type V = RecordView;

    closed spec fn view(&self) -> RecordView {
        RecordView {
            uid: self.uid@,
            summary: self.summary@,
            description: self.description@,
            time: self.time@,
        }
    }
}

/// The text with every occurrence of `pat` removed, left to right.
pub open spec fn remove_all(s: Seq<char>, pat: Seq<char>) -> Seq<char>
    decreases s.len(),
{
    if s.len() == 0 {
        seq![]
    } else if pat.len() >= 1 && match_at(s, 0, pat) {
        remove_all(s.skip(pat.len() as int), pat)
    } else {
        seq![s[0]] + remove_all(s.skip(1), pat)
    }
}

/// Index of the last line feed in `s`; meaningful only when one exists.
pub open spec fn last_nl(s: Seq<char>) -> int
    decreases s.len(),
{
    if s.len() == 0 {
        0
    } else if s[s.len() - 1] == '\n' {
        s.len() - 1
    } else {
        last_nl(s.take(s.len() - 1))
    }
}

/// The third line counted from the end of `s`, or the empty text when `s`
/// has fewer than three lines.
pub open spec fn third_last_line(s: Seq<char>) -> Seq<char> {
    if !s.contains('\n') {
        seq![]
    } else {
        let p1 = last_nl(s);
        let t = s.take(p1);
        if !t.contains('\n') {
            seq![]
        } else {
            let p2 = last_nl(t);
            let u = s.take(p2);
            let start = if u.contains('\n') {
                last_nl(u) + 1
            } else {
                0
            };
            s.subrange(start, p2)
        }
    }
}

/// The summary a record carries. For the two special category codes the
/// upstream hides the real label in the description body: the summary is
/// then the category plus the third-from-last description line with the
/// category text removed. Every other category is its own summary.
pub open spec fn summary_of(category: Seq<char>, raw_description: Seq<char>) -> Seq<char> {
    if category == "CM"@ || category == "TD"@ {
        category + seq![' '] + remove_all(
            third_last_line(decoded_description(raw_description)),
            category,
        )
    } else {
        category
    }
}

/// Whether an event yields a record at all: all-day events always do, timed
/// events only with an end.
pub open spec fn includable(e: EventView) -> bool {
    e.all_day || e.end is Some
}

/// The record an event yields, if any.
pub open spec fn record_of(e: EventView) -> Option<RecordView> {
    let base = RecordView {
        uid: e.id + "@cyu-calendar"@,
        summary: summary_of(e.event_category, e.description),
        description: decoded_description(e.description),
        time: TimeView::AllDay(e.start.date),
    };
    if e.all_day {
        Option::Some(base)
    } else {
        match e.end {
            Option::Some(end) => Option::Some(
                RecordView { time: TimeView::Timed(e.start, end), ..base },
            ),
            Option::None => Option::None,
        }
    }
}

/// The records of a list of events, in order, one per includable event.
pub open spec fn projected(events: Seq<EventView>) -> Seq<RecordView>
    decreases events.len(),
{
    if events.len() == 0 {
        seq![]
    } else {
        projected(events.drop_last()) + (match record_of(events.last()) {
            Option::Some(r) => seq![r],
            Option::None => seq![],
        })
    }
}

/// How many events of a list are includable.
pub open spec fn count_includable(events: Seq<EventView>) -> nat
    decreases events.len(),
{
    if events.len() == 0 {
        0
    } else {
        count_includable(events.drop_last()) + (if includable(events.last()) {
            1nat
        } else {
            0nat
        })
    }
}

/// An all-day event always yields a date-only record — whatever its end
/// holds — under its id, summary and decoded description.
pub proof fn lemma_all_day_record(e: EventView)
    requires
        e.all_day,
    ensures
        record_of(e) matches Some(r) && r.time == TimeView::AllDay(e.start.date) && r.uid == e.id
            + "@cyu-calendar"@ && r.summary == summary_of(e.event_category, e.description)
            && r.description == decoded_description(e.description),
{
}

/// A timed event yields a start/end record exactly when it has an end; an
/// open-ended timed event yields none and is thereby excluded.
pub proof fn lemma_timed_record(e: EventView)
    requires
        !e.all_day,
    ensures
        record_of(e) is Some <==> e.end is Some,
        e.end matches Some(end) ==> record_of(e) matches Some(r) && r.time == TimeView::Timed(
            e.start,
            end,
        ),
{
}

/// An event yields a record exactly when it is includable.
pub proof fn lemma_record_iff_includable(e: EventView)
    ensures
        record_of(e) is Some <==> includable(e),
{
}

/// For the two special category codes the summary is the category plus the
/// cleaned third-from-last description line; for every other category it is
/// the category itself.
pub proof fn lemma_summary_rule(category: Seq<char>, raw_description: Seq<char>)
    ensures
        category == "CM"@ || category == "TD"@ ==> summary_of(category, raw_description)
            == category + seq![' '] + remove_all(
            third_last_line(decoded_description(raw_description)),
            category,
        ),
        category != "CM"@ && category != "TD"@ ==> summary_of(category, raw_description)
            == category,
{
}

/// The serialized document holds exactly one record per includable event.
pub proof fn lemma_one_record_per_includable(events: Seq<EventView>)
    ensures
        projected(events).len() == count_includable(events),
    decreases events.len(),
{
    if events.len() != 0 {
        lemma_one_record_per_includable(events.drop_last());
        lemma_record_iff_includable(events.last());
    }
}

/// How one character is written in a record's text fields.
pub open spec fn esc_char(c: char) -> Seq<char> {
    if c == '\\' {
        seq!['\\', '\\']
    } else if c == ';' {
        seq!['\\', ';']
    } else if c == ',' {
        seq!['\\', ',']
    } else if c == '\n' {
        seq!['\\', 'N']
    } else {
        seq![c]
    }
}

/// A text with every character written in its escaped form.
pub open spec fn ics_escaped(s: Seq<char>) -> Seq<char>
    decreases s.len(),
{
    if s.len() == 0 {
        seq![]
    } else {
        ics_escaped(s.drop_last()) + esc_char(s.last())
    }
}

/// The lines a record's time takes in the document.
pub open spec fn time_text(t: TimeView) -> Seq<char> {
    match t {
        TimeView::AllDay(d) => "DTSTART;VALUE=DATE:"@ + date_compact(d) + "\r\n"@,
        TimeView::Timed(a, b) => "DTSTART:"@ + date_time_compact(a) + "\r\n"@ + "DTEND:"@
            + date_time_compact(b) + "\r\n"@,
    }
}

/// The lines one record takes in the document.
pub open spec fn record_text(r: RecordView) -> Seq<char> {
    "BEGIN:VEVENT\r\n"@ + "UID:"@ + r.uid + "\r\n"@ + "SUMMARY:"@ + ics_escaped(r.summary)
        + "\r\n"@ + "DESCRIPTION:"@ + ics_escaped(r.description) + "\r\n"@ + time_text(r.time)
        + "END:VEVENT\r\n"@
}

/// The lines of all records, in order.
pub open spec fn records_text(rs: Seq<RecordView>) -> Seq<char>
    decreases rs.len(),
{
    if rs.len() == 0 {
        seq![]
    } else {
        records_text(rs.drop_last()) + record_text(rs.last())
    }
}

/// The document's opening, with its fixed title.
pub open spec fn ics_header() -> Seq<char> {
    "BEGIN:VCALENDAR\r\nVERSION:2.0\r\nPRODID:-//cyu-calendar//EN\r\nNAME:CYU Calendar\r\nX-WC-CALNAME:CYU Calendar\r\n"@
}

/// The whole document around a list of records.
pub open spec fn ics_document(rs: Seq<RecordView>) -> Seq<char> {
    ics_header() + records_text(rs) + "END:VCALENDAR\r\n"@
}

/// The document with every upper-case newline escape rewritten to the
/// lower-case form the consumers expect.
pub open spec fn fix_newline_escapes(s: Seq<char>) -> Seq<char>
    decreases s.len(),
{
    if s.len() == 0 {
        seq![]
    } else if match_at(s, 0, seq!['\\', 'N']) {
        seq!['\\', 'n'] + fix_newline_escapes(s.skip(2))
    } else {
        seq![s[0]] + fix_newline_escapes(s.skip(1))
    }
}

/// The serialized calendar of a list of events.
pub open spec fn ics_text_of(events: Seq<EventView>) -> Seq<char> {
    fix_newline_escapes(ics_document(projected(events)))
}

/// Appends `s` with every character escaped.
fn escape_append(out: &mut String, s: &str)
    ensures
        final(out)@ == old(out)@ + ics_escaped(s@),
{
    let n = s.unicode_len();
    let mut i: usize = 0;
    proof {
        assert(s@.subrange(0, 0) =~= Seq::<char>::empty());
        assert(old(out)@ + ics_escaped(s@.subrange(0, 0)) =~= old(out)@);
    }
    while i < n
        invariant
            i <= n,
            n == s@.len(),
            out@ == old(out)@ + ics_escaped(s@.subrange(0, i as int)),
        decreases n - i,
    {
        let c = s.get_char(i);
        if c == '\\' {
            crate::description::push_one(out, '\\');
            crate::description::push_one(out, '\\');
        } else if c == ';' {
            crate::description::push_one(out, '\\');
            crate::description::push_one(out, ';');
        } else if c == ',' {
            crate::description::push_one(out, '\\');
            crate::description::push_one(out, ',');
        } else if c == '\n' {
            crate::description::push_one(out, '\\');
            crate::description::push_one(out, 'N');
        } else {
            crate::description::push_one(out, c);
        }
        proof {
            let pre = s@.subrange(0, i as int);
            let cur = s@.subrange(0, i + 1);
            assert(cur.drop_last() =~= pre);
            assert(cur.last() == s@[i as int]);
            assert(out@ =~= old(out)@ + ics_escaped(cur));
        }
        i += 1;
    }
    proof {
        assert(s@.subrange(0, n as int) =~= s@);
    }
}

/// Appends the lines of one record.
fn push_record(out: &mut String, ev: &IcsEvent)
    ensures
        final(out)@ == old(out)@ + record_text(ev@),
{
    out.append("BEGIN:VEVENT\r\n");
    out.append("UID:");
    out.append(ev.uid.as_str());
    out.append("\r\n");
    out.append("SUMMARY:");
    escape_append(out, ev.summary.as_str());
    out.append("\r\n");
    out.append("DESCRIPTION:");
    escape_append(out, ev.description.as_str());
    out.append("\r\n");
    match &ev.time {
        IcsTime::AllDay(d) => {
            out.append("DTSTART;VALUE=DATE:");
            let stamp = d.to_compact();
            out.append(stamp.as_str());
            out.append("\r\n");
        },
        IcsTime::Timed(a, b) => {
            out.append("DTSTART:");
            let sa = a.to_compact();
            out.append(sa.as_str());
            out.append("\r\n");
            out.append("DTEND:");
            let sb = b.to_compact();
            out.append(sb.as_str());
            out.append("\r\n");
        },
    }
    out.append("END:VEVENT\r\n");
    proof {
        assert(out@ =~= old(out)@ + record_text(ev@));
    }
}

/// Writes the whole document around the given records.
fn render(records: &Vec<IcsEvent>) -> (r: String)
    ensures
        r@ == ics_document(records@.map_values(|x: IcsEvent| x@)),
{
    let ghost views = records@.map_values(|x: IcsEvent| x@);
    let mut out = String::from_str(
        "BEGIN:VCALENDAR\r\nVERSION:2.0\r\nPRODID:-//cyu-calendar//EN\r\nNAME:CYU Calendar\r\nX-WC-CALNAME:CYU Calendar\r\n",
    );
    let mut i: usize = 0;
    proof {
        assert(views.subrange(0, 0) =~= Seq::<RecordView>::empty());
        assert(out@ =~= ics_header() + records_text(views.subrange(0, 0)));
    }
    while i < records.len()
        invariant
            i <= records@.len(),
            views == records@.map_values(|x: IcsEvent| x@),
            views.len() == records@.len(),
            out@ == ics_header() + records_text(views.subrange(0, i as int)),
        decreases records@.len() - i,
    {
        push_record(&mut out, &records[i]);
        proof {
            let pre = views.subrange(0, i as int);
            let cur = views.subrange(0, i + 1);
            assert(cur.drop_last() =~= pre);
            assert(cur.last() == views[i as int]);
            assert(out@ =~= ics_header() + records_text(cur));
        }
        i += 1;
    }
    proof {
        assert(views.subrange(0, views.len() as int) =~= views);
    }
    out.append("END:VCALENDAR\r\n");
    out
}

/// Rewrites every `\N` in the document to `\n`.
fn fix_escapes(s: &str) -> (r: String)
    ensures
        r@ == fix_newline_escapes(s@),
{
    let n = s.unicode_len();
    let mut out = String::new();
    let mut i: usize = 0;
    proof {
        assert(s@.skip(0) =~= s@);
    }
    while i < n
        invariant
            i <= n,
            n == s@.len(),
            fix_newline_escapes(s@) == out@ + fix_newline_escapes(s@.skip(i as int)),
        decreases n - i,
    {
        let ghost tail = s@.skip(i as int);
        let c = s.get_char(i);
        if c == '\\' && i + 1 < n && s.get_char(i + 1) == 'N' {
            crate::description::push_one(&mut out, '\\');
            crate::description::push_one(&mut out, 'n');
            proof {
                assert(tail.subrange(0, 2) =~= seq!['\\', 'N']);
                assert(match_at(tail, 0, seq!['\\', 'N']));
                assert(tail.skip(2) =~= s@.skip(i + 2));
                assert(out@ + fix_newline_escapes(s@.skip(i + 2)) =~= fix_newline_escapes(s@));
            }
            i += 2;
        } else {
            proof {
                assert(!match_at(tail, 0, seq!['\\', 'N'])) by {
                    if match_at(tail, 0, seq!['\\', 'N']) {
                        assert(tail.subrange(0, 2)[0] == tail[0]);
                        assert(tail.subrange(0, 2)[1] == tail[1]);
                    }
                }
                assert(tail[0] == s@[i as int]);
                assert(tail.skip(1) =~= s@.skip(i + 1));
            }
            crate::description::push_one(&mut out, c);
            proof {
                assert(out@ + fix_newline_escapes(s@.skip(i + 1)) =~= fix_newline_escapes(s@));
            }
            i += 1;
        }
    }
    proof {
        assert(s@.skip(n as int) =~= Seq::<char>::empty());
        assert(out@ =~= fix_newline_escapes(s@));
    }
    out
}

/// The records of the given events, one per includable event, in order.
pub fn project(events: &Vec<GetCalendarResponseElement>) -> (r: Vec<IcsEvent>)
    ensures
        r@.map_values(|x: IcsEvent| x@) == projected(
            events@.map_values(|e: GetCalendarResponseElement| e@),
        ),
{
    let ghost evs = events@.map_values(|e: GetCalendarResponseElement| e@);
    let mut out: Vec<IcsEvent> = Vec::new();
    let mut i: usize = 0;
    proof {
        assert(evs.subrange(0, 0) =~= Seq::<EventView>::empty());
        assert(out@.map_values(|x: IcsEvent| x@) =~= projected(evs.subrange(0, 0)));
    }
    while i < events.len()
        invariant
            i <= events@.len(),
            evs == events@.map_values(|e: GetCalendarResponseElement| e@),
            evs.len() == events@.len(),
            out@.map_values(|x: IcsEvent| x@) == projected(evs.subrange(0, i as int)),
        decreases events@.len() - i,
    {
        let ev = &events[i];
        proof {
            assert(evs[i as int] == ev@);
        }
        let included: Option<IcsTime> = if ev.all_day() {
            Some(IcsTime::AllDay(ev.start().date()))
        } else {
            match ev.end() {
                Some(end) => Some(IcsTime::Timed(*ev.start(), *end)),
                None => None,
            }
        };
        match included {
            Some(time) => {
                let mut uid = ev.id().clone();
                uid.append("@cyu-calendar");
                let description = ev.description();
                let summary = build_summary(ev.event_category().as_str(), description.as_str());
                let rec = IcsEvent { uid, summary, description, time };
                proof {
                    assert(record_of(evs[i as int]) == Option::Some(rec@));
                }
                out.push(rec);
            },
            None => {
                proof {
                    assert(record_of(evs[i as int]) is None);
                }
            },
        }
        proof {
            let pre = evs.subrange(0, i as int);
            let cur = evs.subrange(0, i + 1);
            assert(cur.drop_last() =~= pre);
            assert(cur.last() == evs[i as int]);
            assert(out@.map_values(|x: IcsEvent| x@) =~= projected(cur));
        }
        i += 1;
    }
    proof {
        assert(evs.subrange(0, evs.len() as int) =~= evs);
    }
    out
}

/// The summary for a category and an already-decoded description.
fn build_summary(category: &str, decoded: &str) -> (r: String)
    ensures
        (category@ == "CM"@ || category@ == "TD"@) ==> r@ == category@ + seq![' '] + remove_all(
            third_last_line(decoded@),
            category@,
        ),
        !(category@ == "CM"@ || category@ == "TD"@) ==> r@ == category@,
{
    let special = crate::text::str_eq(category, "CM") || crate::text::str_eq(category, "TD");
    if special {
        proof {
            reveal_strlit("CM");
            reveal_strlit("TD");
        }
        let line = third_last_line_str(decoded);
        let cleaned = remove_all_str(line.as_str(), category);
        let mut r = category.to_owned();
        r.append(" ");
        r.append(cleaned.as_str());
        proof {
            reveal_strlit(" ");
            assert(r@ =~= category@ + seq![' '] + remove_all(third_last_line(decoded@), category@));
        }
        r
    } else {
        category.to_owned()
    }
}

/// Last line feed strictly before `end`.
fn rfind_nl(s: &str, end: usize) -> (r: Option<usize>)
    requires
        end <= s@.len(),
    ensures
        r matches Some(i) ==> i < end && s@[i as int] == '\n' && (forall|k: int|
            i < k < end ==> s@[k] != '\n'),
        r is None ==> forall|k: int| 0 <= k < end ==> s@[k] != '\n',
{
    let mut j: usize = end;
    while j > 0
        invariant
            j <= end <= s@.len(),
            forall|k: int| j <= k < end ==> s@[k] != '\n',
        decreases j,
    {
        j -= 1;
        if s.get_char(j) == '\n' {
            return Some(j);
        }
    }
    None
}

/// A line feed with none after it is the last one.
proof fn lemma_last_nl_at(s: Seq<char>, i: int)
    requires
        0 <= i < s.len(),
        s[i] == '\n',
        forall|k: int| i < k < s.len() ==> s[k] != '\n',
    ensures
        s.contains('\n'),
        last_nl(s) == i,
    decreases s.len(),
{
    if i == s.len() - 1 {
    } else {
        let t = s.take(s.len() - 1);
        lemma_last_nl_at(t, i);
    }
}

/// A text with no line feed anywhere contains none.
proof fn lemma_no_nl(s: Seq<char>)
    requires
        forall|k: int| 0 <= k < s.len() ==> s[k] != '\n',
    ensures
        !s.contains('\n'),
{
    if s.contains('\n') {
        let j = choose|j: int| 0 <= j < s.len() && s[j] == '\n';
        assert(s[j] != '\n');
    }
}

/// The third line from the end, or the empty text with fewer than three
/// lines.
fn third_last_line_str(s: &str) -> (r: String)
    ensures
        r@ == third_last_line(s@),
{
    let n = s.unicode_len();
    let p1 = match rfind_nl(s, n) {
        Some(p) => p,
        None => {
            proof {
                lemma_no_nl(s@);
            }
            return String::new();
        },
    };
    proof {
        lemma_last_nl_at(s@, p1 as int);
    }
    let p2 = match rfind_nl(s, p1) {
        Some(p) => p,
        None => {
            proof {
                let t = s@.take(p1 as int);
                lemma_no_nl(t);
            }
            return String::new();
        },
    };
    proof {
        let t = s@.take(p1 as int);
        lemma_last_nl_at(t, p2 as int);
    }
    let start = match rfind_nl(s, p2) {
        Some(p3) => {
            proof {
                let u = s@.take(p2 as int);
                lemma_last_nl_at(u, p3 as int);
            }
            p3 + 1
        },
        None => {
            proof {
                let u = s@.take(p2 as int);
                lemma_no_nl(u);
            }
            0
        },
    };
    let r = s.substring_char(start, p2).to_owned();
    r
}

/// The text with every occurrence of `pat` removed, scanning left to right.
fn remove_all_str(s: &str, pat: &str) -> (r: String)
    requires
        pat@.len() >= 1,
    ensures
        r@ == remove_all(s@, pat@),
{
    let n = s.unicode_len();
    let plen = pat.unicode_len();
    let mut out = String::new();
    let mut i: usize = 0;
    proof {
        assert(s@.skip(0) =~= s@);
    }
    while i < n
        invariant
            i <= n,
            n == s@.len(),
            plen == pat@.len(),
            plen >= 1,
            remove_all(s@, pat@) == out@ + remove_all(s@.skip(i as int), pat@),
        decreases n - i,
    {
        let ghost tail = s@.skip(i as int);
        if crate::text::matches_at(s, i, pat) {
            proof {
                assert(tail.subrange(0, plen as int) =~= s@.subrange(i as int, i + plen));
                assert(match_at(tail, 0, pat@));
                assert(tail.skip(plen as int) =~= s@.skip(i + plen));
                assert(out@ + remove_all(s@.skip(i + plen), pat@) =~= remove_all(s@, pat@));
            }
            i += plen;
        } else {
            proof {
                assert(!match_at(tail, 0, pat@)) by {
                    if match_at(tail, 0, pat@) {
                        assert(s@.subrange(i as int, i + plen) =~= tail.subrange(0, plen as int));
                    }
                }
                assert(tail[0] == s@[i as int]);
                assert(tail.skip(1) =~= s@.skip(i + 1));
            }
            let c = s.get_char(i);
            crate::description::push_one(&mut out, c);
            proof {
                assert(out@ + remove_all(s@.skip(i + 1), pat@) =~= remove_all(s@, pat@));
            }
            i += 1;
        }
    }
    proof {
        assert(s@.skip(n as int) =~= Seq::<char>::empty());
        assert(out@ =~= remove_all(s@, pat@));
    }
    out
}

/// Projects the events into the interchange document: the fixed title, one
/// record per includable event, and the newline-escape fix-up applied last.
pub fn serialize(events: &Vec<GetCalendarResponseElement>) -> (r: String)
    ensures
        r@ == ics_text_of(events@.map_values(|e: GetCalendarResponseElement| e@)),
{
    let records = project(events);
    let document = render(&records);
    fix_escapes(document.as_str())
}

} // verus!

//! Calendar events and the calendar-data exchange.
//!
//! The upstream answers the calendar-data post with a JSON array of event
//! records. The caller parses the array into plain raw records and hands
//! them in; this module validates and normalizes them, builds the exact
//! form body and URLs, classifies failed answers — an empty success body is
//! a silently expired session, not a remote fault — and serves the derived
//! views: the decoded description and the campus coordinates.

use vstd::prelude::*;

verus! {

use vstd::string::*;
use crate::text::str_eq;
use crate::date::{CyuDate, CyuDateTime, DateTimeView, date_wire, date_time_wire,
    valid_date_time_view};
use crate::description::{decoded_description, parse_description, is_space_char};
use crate::Error;

/// The display shape a query asks the upstream for. It never changes which
/// events exist, only the upstream's expected rendering of the answer.
#[derive(Debug, Clone, Copy, PartialEq, Eq, Structural)]
pub enum CalendarView {
    Day,
    Week,
    Month,
}

/// What the upstream writes for each view in a form body.
pub open spec fn view_wire(v: CalendarView) -> Seq<char> {
    match v {
        CalendarView::Day => "agendaDay"@,
        CalendarView::Week => "week"@,
        CalendarView::Month => "month"@,
    }
}

impl CalendarView {
    /// The form-body name of this view.
    pub fn wire_name(&self) -> (r: &'static str)
        ensures
            r@ == view_wire(*self),
    {
        match self {
            CalendarView::Day => "agendaDay",
            CalendarView::Week => "week",
            CalendarView::Month => "month",
        }
    }
}

/// Which upstream colour scheme the events are asked in. Each is bound to a
/// fixed upstream integer code.
#[derive(Debug, Clone, Copy, PartialEq, Eq, Structural)]
pub enum ColorBy {
    EventCategory,
    Subject,
}

/// What the upstream reads for each colour scheme in a form body.
pub open spec fn color_by_wire(c: ColorBy) -> Seq<char> {
    match c {
        ColorBy::EventCategory => "3"@,
        ColorBy::Subject => "6"@,
    }
}

impl ColorBy {
    /// The upstream integer code of this scheme.
    pub fn code(&self) -> (r: u8)
        ensures
            *self is EventCategory ==> r == 3,
            *self is Subject ==> r == 6,
    {
        match self {
            ColorBy::EventCategory => 3,
            ColorBy::Subject => 6,
        }
    }

    /// The form-body text of this scheme's code.
    pub fn wire_name(&self) -> (r: &'static str)
        ensures
            r@ == color_by_wire(*self),
    {
        match self {
            ColorBy::EventCategory => "3",
            ColorBy::Subject => "6",
        }
    }
}

/// One calendar-data query.
pub struct GetCalendarQuery {
    pub id: String,
    pub token: String,
    pub start: CyuDate,
    pub end: CyuDate,
    pub view: CalendarView,
    pub color_by: ColorBy,
}

/// One enrollment-window query.
pub struct GetLimitsQuery<'a> {
    pub id: &'a str,
    pub token: &'a str,
}

/// One whole-window query.
pub struct GetAllQuery {
    pub id: String,
    pub token: String,
    pub color_by: ColorBy,
}

/// The calendar-data query that fetches one whole enrollment window: the
/// window's two dates, asked for under the month view.
pub fn whole_window_query(query: GetAllQuery, start: CyuDate, end: CyuDate) -> (r:
    GetCalendarQuery)
    ensures
        r.id@ == query.id@,
        r.token@ == query.token@,
        r.start@ == start@,
        r.end@ == end@,
        r.view is Month,
        r.color_by == query.color_by,
{
    GetCalendarQuery {
        id: query.id,
        token: query.token,
        start,
        end,
        view: CalendarView::Month,
        color_by: query.color_by,
    }
}

/// Where the calendar data is posted.
pub fn calendar_data_url() -> (r: &'static str)
    ensures
        r@ == "https://services-web.cyu.fr/calendar/Home/GetCalendarData"@,
{
    "https://services-web.cyu.fr/calendar/Home/GetCalendarData"
}

/// Where the month view scoped to an identity is fetched for window
/// discovery.
pub fn limits_url(id: &str) -> (r: String)
    ensures
        r@ == "https://services-web.cyu.fr/calendar/?CalendarViewType=Month&CalendarDate=09/29/2024 00:00:00&EntityType=Student&FederationIds="@
            + id@ + "&CalendarViewStr=month&EntityTypeAsIntegerString=104&IsValid=True&NotAllowedToBrowse=False"@,
{
    let mut url = String::from_str(
        "https://services-web.cyu.fr/calendar/?CalendarViewType=Month&CalendarDate=09/29/2024 00:00:00&EntityType=Student&FederationIds=",
    );
    url.append(id);
    url.append("&CalendarViewStr=month&EntityTypeAsIntegerString=104&IsValid=True&NotAllowedToBrowse=False");
    url
}

/// The form body of a calendar-data post, field for field as the upstream
/// expects it.
pub fn calendar_form(query: &GetCalendarQuery) -> (r: Vec<(String, String)>)
    ensures
        r@.len() == 6,
        r@[0].0@ == "federationIds[]"@ && r@[0].1@ == query.id@,
        r@[1].0@ == "resType"@ && r@[1].1@ == "104"@,
        r@[2].0@ == "start"@ && r@[2].1@ == date_wire(query.start@),
        r@[3].0@ == "end"@ && r@[3].1@ == date_wire(query.end@),
        r@[4].0@ == "calView"@ && r@[4].1@ == view_wire(query.view),
        r@[5].0@ == "colourScheme"@ && r@[5].1@ == color_by_wire(query.color_by),
{
    let mut form: Vec<(String, String)> = Vec::new();
    form.push((String::from_str("federationIds[]"), query.id.clone()));
    form.push((String::from_str("resType"), String::from_str("104")));
    form.push((String::from_str("start"), query.start.to_wire()));
    form.push((String::from_str("end"), query.end.to_wire()));
    form.push((String::from_str("calView"), String::from_str(query.view.wire_name())));
    form.push((String::from_str("colourScheme"), String::from_str(query.color_by.wire_name())));
    form
}

/// One event as the JSON array carries it, dates still text.
pub struct RawCalendarEvent {
    pub id: String,
    pub start: String,
    pub end: Option<String>,
    pub all_day: bool,
    pub description: String,
    pub background_color: String,
    pub department: String,
    pub faculty: Option<String>,
    pub event_category: String,
    pub sites: Option<Vec<String>>,
    pub modules: Option<Vec<String>>,
}

/// Mathematical value of a normalized event.
pub struct EventView {
    pub id: Seq<char>,
    pub start: DateTimeView,
    pub end: Option<DateTimeView>,
    pub all_day: bool,
    pub description: Seq<char>,
    pub background_color: Seq<char>,
    pub department: Seq<char>,
    pub faculty: Option<Seq<char>>,
    pub event_category: Seq<char>,
    pub sites: Option<Seq<Seq<char>>>,
    pub modules: Option<Seq<Seq<char>>>,
}

/// The text of an optional text field.
pub open spec fn opt_string_view(o: Option<String>) -> Option<Seq<char>> {
    match o {
        Option::Some(s) => Option::Some(s@),
        Option::None => Option::None,
    }
}

/// The texts of an optional list field.
pub open spec fn opt_strings_view(o: Option<Vec<String>>) -> Option<Seq<Seq<char>>> {
    match o {
        Option::Some(v) => Option::Some(v@.map_values(|s: String| s@)),
        Option::None => Option::None,
    }
}

/// One normalized calendar event. If `all_day` holds, `end` is never
/// consulted; otherwise a missing `end` means the event is open-ended,
/// which is distinct from all-day.
#[derive(Debug, Clone)]
pub struct GetCalendarResponseElement {
    id: String,
    start: CyuDateTime,
    end: Option<CyuDateTime>,
    all_day: bool,
    description: String,
    background_color: String,
    department: String,
    faculty: Option<String>,
    event_category: String,
    sites: Option<Vec<String>>,
    modules: Option<Vec<String>>,
}

impl View for GetCalendarResponseElement {
    type V = EventView;

    closed spec fn view(&self) -> EventView {
        EventView {
            id: self.id@,
            start: self.start@,
            end: match self.end {
                Option::Some(dt) => Option::Some(dt@),
                Option::None => Option::None,
            },
            all_day: self.all_day,
            description: self.description@,
            background_color: self.background_color@,
            department: self.department@,
            faculty: opt_string_view(self.faculty),
            event_category: self.event_category@,
            sites: opt_strings_view(self.sites),
            modules: opt_strings_view(self.modules),
        }
    }
}

/// The fixed campus coordinates, in ten-millionths of a degree, for the
/// small set of known site names; every other site has none.
pub open spec fn location_coords(name: Seq<char>) -> Option<(i64, i64)> {
    if name == "PARC"@ {
        Option::Some((490350203i64, 20695627i64))
    } else if name == "CHENES"@ {
        Option::Some((490389900i64, 20749315i64))
    } else if name == "SAINT MARTIN"@ {
        Option::Some((490436640i64, 20844198i64))
    } else if name == "PORT"@ {
        Option::Some((490326943i64, 20665439i64))
    } else {
        Option::None
    }
}

/// The coordinates an event exposes: those of its first site name, when
/// that name is known.
pub open spec fn coords_of(v: EventView) -> Option<(i64, i64)> {
    match v.sites {
        Option::Some(sites) => if sites.len() > 0 {
            location_coords(sites[0])
        } else {
            Option::None
        },
        Option::None => Option::None,
    }
}

impl GetCalendarResponseElement {
    /// A normalized event from its parts.
    pub fn new(
        id: String,
        start: CyuDateTime,
        end: Option<CyuDateTime>,
        all_day: bool,
        description: String,
        background_color: String,
        department: String,
        faculty: Option<String>,
        event_category: String,
        sites: Option<Vec<String>>,
        modules: Option<Vec<String>>,
    ) -> (r: GetCalendarResponseElement)
        ensures
            r@ == (EventView {
                id: id@,
                start: start@,
                end: match end {
                    Option::Some(dt) => Option::Some(dt@),
                    Option::None => Option::None,
                },
                all_day: all_day,
                description: description@,
                background_color: background_color@,
                department: department@,
                faculty: opt_string_view(faculty),
                event_category: event_category@,
                sites: opt_strings_view(sites),
                modules: opt_strings_view(modules),
            }),
    {
        GetCalendarResponseElement {
            id,
            start,
            end,
            all_day,
            description,
            background_color,
            department,
            faculty,
            event_category,
            sites,
            modules,
        }
    }

    pub fn id(&self) -> (r: &String)
        ensures
            r@ == self@.id,
    {
        &self.id
    }

    pub fn start(&self) -> (r: &CyuDateTime)
        ensures
            r@ == self@.start,
    {
        &self.start
    }

    pub fn end(&self) -> (r: &Option<CyuDateTime>)
        ensures
            self@.end == (match *r {
                Option::Some(dt) => Option::Some(dt@),
                Option::None => Option::None::<DateTimeView>,
            }),
    {
        &self.end
    }

    pub fn all_day(&self) -> (r: bool)
        ensures
            r == self@.all_day,
    {
        self.all_day
    }

    pub fn background_color(&self) -> (r: &String)
        ensures
            r@ == self@.background_color,
    {
        &self.background_color
    }

    pub fn department(&self) -> (r: &String)
        ensures
            r@ == self@.department,
    {
        &self.department
    }

    pub fn faculty(&self) -> (r: &Option<String>)
        ensures
            self@.faculty == opt_string_view(*r),
    {
        &self.faculty
    }

    pub fn event_category(&self) -> (r: &String)
        ensures
            r@ == self@.event_category,
    {
        &self.event_category
    }

    pub fn sites(&self) -> (r: &Option<Vec<String>>)
        ensures
            self@.sites == opt_strings_view(*r),
    {
        &self.sites
    }

    pub fn modules(&self) -> (r: &Option<Vec<String>>)
        ensures
            self@.modules == opt_strings_view(*r),
    {
        &self.modules
    }

    /// The normalized plain-text form of the stored description; decoding
    /// happens here, at read time.
    pub fn description(&self) -> (r: String)
        ensures
            r@ == decoded_description(self@.description),
    {
        parse_description(self.description.as_str())
    }

    /// The coordinates of the event's first site name, for the known campus
    /// sites; a static table, not a network call.
    pub fn coords(&self) -> (r: Option<(i64, i64)>)
        ensures
            r == coords_of(self@),
    {
        match &self.sites {
            Option::Some(sites) => {
                if sites.len() > 0 {
                    let site: &String = &sites[0];
                    proof {
                        assert(self@.sites matches Option::Some(sv) && sv[0] == site@);
                    }
                    if str_eq(site.as_str(), "PARC") {
                        Some((490350203i64, 20695627i64))
                    } else if str_eq(site.as_str(), "CHENES") {
                        Some((490389900i64, 20749315i64))
                    } else if str_eq(site.as_str(), "SAINT MARTIN") {
                        Some((490436640i64, 20844198i64))
                    } else if str_eq(site.as_str(), "PORT") {
                        Some((490326943i64, 20665439i64))
                    } else {
                        None
                    }
                } else {
                    None
                }
            },
            Option::None => None,
        }
    }
}

/// Both date texts of a raw record are exact wire forms of proper
/// date-times.
pub open spec fn raw_parses(raw: RawCalendarEvent) -> bool {
    &&& exists|dt: DateTimeView| valid_date_time_view(dt) && raw.start@ == #[trigger] date_time_wire(
        dt,
    )
    &&& (raw.end matches Some(s) ==> exists|dt: DateTimeView| valid_date_time_view(dt) && s@
        == #[trigger] date_time_wire(dt))
}

/// The normalized event carries the raw record's data: every field moved
/// verbatim, the date texts read into their date-time values.
pub open spec fn event_matches_raw(v: EventView, raw: RawCalendarEvent) -> bool {
    &&& v.id == raw.id@
    &&& raw.start@ == date_time_wire(v.start)
    &&& match (raw.end, v.end) {
        (Option::None, Option::None) => true,
        (Option::Some(s), Option::Some(dt)) => s@ == date_time_wire(dt),
        _ => false,
    }
    &&& v.all_day == raw.all_day
    &&& v.description == raw.description@
    &&& v.background_color == raw.background_color@
    &&& v.department == raw.department@
    &&& v.faculty == opt_string_view(raw.faculty)
    &&& v.event_category == raw.event_category@
    &&& v.sites == opt_strings_view(raw.sites)
    &&& v.modules == opt_strings_view(raw.modules)
}

/// Normalizes one raw record: exactly the records whose date texts are
/// proper wire forms become events; anything else is a malformed upstream
/// answer.
pub fn event_from_raw(raw: RawCalendarEvent) -> (r: Result<GetCalendarResponseElement, Error>)
    ensures
        r is Ok <==> raw_parses(raw),
        r matches Ok(e) ==> event_matches_raw(e@, raw),
        r is Err ==> r == Err::<GetCalendarResponseElement, Error>(Error::Remote),
{
    let RawCalendarEvent {
        id,
        start,
        end,
        all_day,
        description,
        background_color,
        department,
        faculty,
        event_category,
        sites,
        modules,
    } = raw;
    let start_dt = match CyuDateTime::parse_wire(start.as_str()) {
        Some(dt) => dt,
        None => {
            return Err(Error::Remote);
        },
    };
    let end_dt = match end {
        Some(s) => {
            match CyuDateTime::parse_wire(s.as_str()) {
                Some(dt) => Some(dt),
                None => {
                    return Err(Error::Remote);
                },
            }
        },
        None => None,
    };
    Ok(
        GetCalendarResponseElement {
            id,
            start: start_dt,
            end: end_dt,
            all_day,
            description,
            background_color,
            department,
            faculty,
            event_category,
            sites,
            modules,
        },
    )
}

/// Normalizes a parsed answer record by record: the whole answer stands or
/// falls together, as one malformed record means a malformed answer.
pub fn events_from_raw(raws: Vec<RawCalendarEvent>) -> (r: Result<
    Vec<GetCalendarResponseElement>,
    Error,
>)
    ensures
        r matches Ok(v) ==> v@.len() == raws@.len() && (forall|k: int|
            0 <= k < raws@.len() ==> event_matches_raw(#[trigger] v@[k]@, raws@[k])),
        r is Ok <==> (forall|k: int| 0 <= k < raws@.len() ==> raw_parses(#[trigger] raws@[k])),
        r is Err ==> r == Err::<Vec<GetCalendarResponseElement>, Error>(Error::Remote),
{
    let mut work = raws;
    let mut out: Vec<GetCalendarResponseElement> = Vec::new();
    let ghost all = work@;
    let total = work.len();
    let mut i: usize = 0;
    while work.len() > 0
        invariant
            all == raws@,
            total == all.len(),
            i + work@.len() == total,
            work@ == all.skip(i as int),
            out@.len() == i,
            forall|k: int| 0 <= k < i ==> event_matches_raw(#[trigger] out@[k]@, all[k]),
            forall|k: int| 0 <= k < i ==> raw_parses(#[trigger] all[k]),
        decreases work@.len(),
    {
        let raw = work.remove(0);
        proof {
            assert(all.skip(i as int)[0] == all[i as int]);
            assert(all.skip(i as int).skip(1) =~= all.skip(i + 1));
        }
        match event_from_raw(raw) {
            Ok(e) => {
                out.push(e);
            },
            Err(_) => {
                return Err(Error::Remote);
            },
        }
        i += 1;
    }
    proof {
        assert(all.skip(i as int).len() == 0);
        assert(i == all.len());
    }
    Ok(out)
}

/// A body with no visible content: empty or whitespace only. The upstream
/// answers this shape, with a success status, when a session has silently
/// expired.
pub open spec fn blank_body(s: Seq<char>) -> bool {
    forall|k: int| 0 <= k < s.len() ==> is_space_char(#[trigger] s[k])
}

/// Whether the body holds no visible content.
fn body_is_blank(body: &str) -> (r: bool)
    ensures
        r == blank_body(body@),
{
    let n = body.unicode_len();
    let mut i: usize = 0;
    while i < n
        invariant
            i <= n,
            n == body@.len(),
            forall|k: int| 0 <= k < i ==> is_space_char(#[trigger] body@[k]),
        decreases n - i,
    {
        let c = body.get_char(i);
        if !(c == ' ' || c == '\t' || c == '\n' || c == '\r') {
            return false;
        }
        i += 1;
    }
    true
}

/// Decides a calendar-data answer. `parsed` is the answer's JSON array when
/// it parsed, `None` when it did not; `body` is the answer text itself.
///
/// A parse failure over a blank body despite the apparent success is the
/// upstream's way of signalling an expired session, so it surfaces as
/// `Unauthorized`; a parse failure with visible content is a remote fault.
pub fn calendar_from_response(body: &str, parsed: Option<Vec<RawCalendarEvent>>) -> (r: Result<
    Vec<GetCalendarResponseElement>,
    Error,
>)
    ensures
        parsed is None && blank_body(body@) ==> r == Err::<
            Vec<GetCalendarResponseElement>,
            Error,
        >(Error::Unauthorized),
        parsed is None && !blank_body(body@) ==> r == Err::<
            Vec<GetCalendarResponseElement>,
            Error,
        >(Error::Remote),
        parsed matches Some(raws) ==> {
            &&& (r matches Ok(v) ==> v@.len() == raws@.len() && (forall|k: int|
                0 <= k < raws@.len() ==> event_matches_raw(#[trigger] v@[k]@, raws@[k])))
            &&& (r is Ok <==> (forall|k: int|
                0 <= k < raws@.len() ==> raw_parses(#[trigger] raws@[k])))
            &&& (r is Err ==> r == Err::<Vec<GetCalendarResponseElement>, Error>(Error::Remote))
        },
{
    match parsed {
        Some(raws) => events_from_raw(raws),
        None => {
            if body_is_blank(body) {
                Err(Error::Unauthorized)
            } else {
                Err(Error::Remote)
            }
        },
    }
}

} // verus!

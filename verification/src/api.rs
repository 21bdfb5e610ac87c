//! What the HTTP layer hands out and checks: calendar listings with their
//! feed links, delta requests and responses, and Basic credentials.

use vstd::prelude::*;
use vstd::string::StringSliceAdditionalSpecFns;
use vstd::utf8::encode_utf8;

use crate::db::{delta_type_name, delta_type_named, Calendar, DeltaType, OverlayDelta};
use crate::overlay::OverlayEvent;
use crate::text::{push_char, push_signed_decimal, signed_decimal};

verus! {

/// A forked calendar as the admin panel lists it.
#[derive(Debug, PartialEq, Eq)]
pub struct CalendarResponse {
    pub id: i64,
    pub name: String,
    pub rapla_url: String,
    pub forked_ics_url: String,
}

/// A request to fork a calendar.
#[derive(Debug, PartialEq, Eq)]
pub struct CreateCalendarRequest {
    pub name: String,
    pub rapla_url: String,
}

/// A request to create or replace a delta; `delta_type` is the requested
/// kind by name.
#[derive(Debug, PartialEq, Eq)]
pub struct CreateDeltaRequest {
    pub delta_type: String,
    pub match_key: Option<String>,
    pub event: Option<OverlayEvent>,
}

/// A delta as the admin panel shows it; `id` is the delta's UUID as a
/// 128-bit number.
#[derive(Debug, PartialEq, Eq)]
pub struct DeltaResponse {
    pub id: u128,
    pub calendar_id: i64,
    pub delta_type: String,
    pub match_key: Option<String>,
    pub event: Option<OverlayEvent>,
}

/// The credentials that the admin routes accept.
#[derive(Debug, PartialEq, Eq)]
pub struct AuthState {
    pub credentials: String,
}

/// The public link of a calendar's forked ICS feed:
/// `<server_url>/api/calendars/<id>/forked.ics`.
pub open spec fn forked_ics_url_text(server_url: Seq<char>, id: i64) -> Seq<char> {
    server_url + "/api/calendars/"@ + signed_decimal(id as int) + "/forked.ics"@
}

/// The public link of a calendar's forked ICS feed.
pub fn forked_ics_url(server_url: &str, id: i64) -> (r: String)
    ensures
        r@ == forked_ics_url_text(server_url@, id),
{
    let mut s = String::from_str(server_url);
    s.append("/api/calendars/");
    push_signed_decimal(&mut s, id);
    s.append("/forked.ics");
    assert(s@ =~= forked_ics_url_text(server_url@, id));
    s
}

impl CalendarResponse {
    /// The listing entry of a stored calendar.
    pub fn from_calendar(calendar: &Calendar, server_url: &str) -> (r: CalendarResponse)
        ensures
            lists(r, *calendar, server_url@),
    {
        CalendarResponse {
            id: calendar.id,
            name: calendar.name.clone(),
            rapla_url: calendar.rapla_url.clone(),
            forked_ics_url: forked_ics_url(server_url, calendar.id),
        }
    }
}

/// `r` is the listing entry of `c` under the server URL `server_url`.
pub open spec fn lists(r: CalendarResponse, c: Calendar, server_url: Seq<char>) -> bool {
    &&& r.id == c.id
    &&& r.name@ == c.name@
    &&& r.rapla_url@ == c.rapla_url@
    &&& r.forked_ics_url@ == forked_ics_url_text(server_url, c.id)
}

/// The listing of stored calendars, one entry each, in their order.
pub fn calendar_responses(calendars: &[Calendar], server_url: &str) -> (r: Vec<CalendarResponse>)
    ensures
        r@.len() == calendars@.len(),
        forall|i: int| 0 <= i < r@.len() ==> lists(#[trigger] r@[i], calendars@[i], server_url@),
{
    let mut out: Vec<CalendarResponse> = Vec::new();
    let n = calendars.len();
    for i in 0..n
        invariant
            n == calendars@.len(),
            out@.len() == i,
            forall|k: int| 0 <= k < i ==> lists(#[trigger] out@[k], calendars@[k], server_url@),
    {
        out.push(CalendarResponse::from_calendar(&calendars[i], server_url));
    }
    out
}

impl CreateDeltaRequest {
    /// The requested kind of delta; `None` where the name is not `delete`,
    /// `modify` or `add`, which the API answers with "invalid type".
    pub fn requested_type(&self) -> (r: Option<DeltaType>)
        ensures
            r == delta_type_named(self.delta_type@),
    {
        DeltaType::from_name(self.delta_type.as_str())
    }
}

impl DeltaResponse {
    /// The response for a stored delta; `event` is the event read from the
    /// delta's JSON, if any.
    pub fn from_delta(delta: &OverlayDelta, event: Option<OverlayEvent>) -> (r: DeltaResponse)
        ensures
            r.id == delta.id,
            r.calendar_id == delta.calendar_id,
            r.delta_type@ == delta_type_name(delta.delta_type),
            crate::calendar::text_view(r.match_key) == crate::calendar::text_view(delta.match_key),
            r.event == event,
    {
        DeltaResponse {
            id: delta.id,
            calendar_id: delta.calendar_id,
            delta_type: String::from_str(delta.delta_type.as_str()),
            match_key: crate::calendar::copy_text(&delta.match_key),
            event,
        }
    }
}

/// The character of a six-bit value in the standard base64 alphabet.
pub open spec fn base64_char(v: int) -> char {
    if v < 26 {
        (65 + v) as char
    } else if v < 52 {
        (97 + v - 26) as char
    } else if v < 62 {
        (48 + v - 52) as char
    } else if v == 62 {
        '+'
    } else {
        '/'
    }
}

/// Standard base64 with `=` padding: each group of three bytes becomes four
/// characters; a last group of one or two bytes is padded to four.
pub open spec fn base64_encode(b: Seq<u8>) -> Seq<char>
    decreases b.len(),
{
    if b.len() == 0 {
        seq![]
    } else {
        let b0 = b[0] as int;
        let b1 = if b.len() > 1 { b[1] as int } else { 0 };
        let b2 = if b.len() > 2 { b[2] as int } else { 0 };
        if b.len() == 1 {
            seq![base64_char(b0 / 4), base64_char((b0 % 4) * 16), '=', '=']
        } else if b.len() == 2 {
            seq![
                base64_char(b0 / 4),
                base64_char((b0 % 4) * 16 + b1 / 16),
                base64_char((b1 % 16) * 4),
                '=',
            ]
        } else {
            seq![
                base64_char(b0 / 4),
                base64_char((b0 % 4) * 16 + b1 / 16),
                base64_char((b1 % 16) * 4 + b2 / 64),
                base64_char(b2 % 64),
            ] + base64_encode(b.skip(3))
        }
    }
}

/// The length of the padded base64 text of `n` bytes.
pub open spec fn base64_len(n: nat) -> nat {
    4 * ((n + 2) / 3)
}

/// Encodes the UTF-8 bytes of a text with base64's `STANDARD` engine.
/// Trusted: the result is the standard-alphabet, padded base64 text of those
/// bytes. The engine panics where the encoded length overflows `usize`,
/// which the precondition leaves out.
#[verifier::external_body]
fn encode_base64(text: &str) -> (r: String)
    requires
        base64_len(text.spec_bytes().len()) <= usize::MAX,
    ensures
        r@ == base64_encode(text.spec_bytes()),
{
    base64::Engine::encode(&base64::engine::general_purpose::STANDARD, text)
}

/// The `Authorization` value of HTTP Basic authentication for a user name
/// and a password: `Basic ` and the base64 text of `<username>:<password>`.
pub open spec fn basic_credentials_text(username: Seq<char>, password: Seq<char>) -> Seq<char> {
    "Basic "@ + base64_encode(encode_utf8(username + seq![':'] + password))
}

impl AuthState {
    /// The credentials that admit a user name and a password.
    pub fn new(username: &str, password: &str) -> (r: AuthState)
        requires
            base64_len(encode_utf8(username@ + seq![':'] + password@).len()) <= usize::MAX,
        ensures
            r.credentials@ == basic_credentials_text(username@, password@),
    {
        let mut joined = String::from_str(username);
        push_char(&mut joined, ':');
        joined.append(password);
        assert(joined@ =~= username@ + seq![':'] + password@);
        let encoded = encode_base64(joined.as_str());
        let mut credentials = String::from_str("Basic ");
        credentials.append(encoded.as_str());
        AuthState { credentials }
    }

    /// Whether a request with this `Authorization` header value, if any, is
    /// let through: only a value equal to the credentials is.
    pub fn admits(&self, header: Option<&str>) -> (r: bool)
        ensures
            r == (header matches Some(v) && v@ == self.credentials@),
    {
        match header {
            Some(v) => String::from_str(v) == self.credentials.clone(),
            None => false,
        }
    }
}

}

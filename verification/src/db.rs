//! The stored records: forked calendars and the overlay deltas that rewrite
//! them, with the names under which a delta's kind is stored and requested.

use vstd::prelude::*;

verus! {

/// A forked calendar as it is stored.
#[derive(Debug, PartialEq, Eq)]
pub struct Calendar {
    pub id: i64,
    pub name: String,
    pub rapla_url: String,
}

/// What a delta does to the calendar it belongs to.
#[derive(Clone, Copy, Debug, PartialEq, Eq, Structural)]
pub enum DeltaType {
    /// Drop every event with the delta's match key.
    Delete,
    /// Replace every event with the delta's match key by the delta's event.
    Modify,
    /// Append the delta's event.
    Add,
}

/// One stored change to a calendar. `id` holds the delta's UUID as a 128-bit
/// number; `event_json` holds the replacement or added event as JSON.
#[derive(Debug, PartialEq, Eq)]
pub struct OverlayDelta {
    pub id: u128,
    pub calendar_id: i64,
    pub delta_type: DeltaType,
    pub match_key: Option<String>,
    pub event_json: Option<String>,
}

/// The name under which a kind of delta is stored and requested.
pub open spec fn delta_type_name(t: DeltaType) -> Seq<char> {
    match t {
        DeltaType::Delete => "delete"@,
        DeltaType::Modify => "modify"@,
        DeltaType::Add => "add"@,
    }
}

/// The kind of delta that a name denotes, if any.
pub open spec fn delta_type_named(name: Seq<char>) -> Option<DeltaType> {
    if name == "delete"@ {
        Some(DeltaType::Delete)
    } else if name == "modify"@ {
        Some(DeltaType::Modify)
    } else if name == "add"@ {
        Some(DeltaType::Add)
    } else {
        None
    }
}

impl DeltaType {
    /// The name of this kind of delta: `delete`, `modify` or `add`.
    pub fn as_str(&self) -> (r: &'static str)
        ensures
            r@ == delta_type_name(*self),
    {
        match self {
            DeltaType::Delete => "delete",
            DeltaType::Modify => "modify",
            DeltaType::Add => "add",
        }
    }

    /// The kind of delta named `name`; `None` for any other text.
    pub fn from_name(name: &str) -> (r: Option<DeltaType>)
        ensures
            r == delta_type_named(name@),
    {
        let given = String::from_str(name);
        if given == String::from_str("delete") {
            Some(DeltaType::Delete)
        } else if given == String::from_str("modify") {
            Some(DeltaType::Modify)
        } else if given == String::from_str("add") {
            Some(DeltaType::Add)
        } else {
            None
        }
    }
}

/// Reading back the name of a kind of delta gives that kind again, and a
/// name that is read as some kind is that kind's name.
pub proof fn lemma_delta_type_name_round_trip(t: DeltaType, name: Seq<char>)
    ensures
        delta_type_named(delta_type_name(t)) == Some(t),
        delta_type_named(name) matches Some(u) ==> delta_type_name(u) == name,
{
    reveal_strlit("delete");
    reveal_strlit("modify");
    reveal_strlit("add");
    assert("delete"@[0] != "modify"@[0]);
    assert("delete"@.len() != "add"@.len());
    assert("modify"@.len() != "add"@.len());
}

/// What `uuid::Uuid::parse_str(text)` gives for `text`, as a 128-bit
/// number, or `None` where it fails.
pub uninterp spec fn parsed_uuid(text: Seq<char>) -> Option<u128>;

/// Reads a UUID with `uuid::Uuid::parse_str` and hands it back as a 128-bit
/// number (`Uuid::as_u128`). Trusted: the result is `parsed_uuid(text)`.
#[verifier::external_body]
fn parse_uuid(text: &str) -> (r: Option<u128>)
    ensures
        r == parsed_uuid(text@),
{
    match uuid::Uuid::parse_str(text) {
        Ok(u) => Some(u.as_u128()),
        Err(_) => None,
    }
}

/// What `serde_json::from_str::<String>(text)` gives for `text`: the value
/// of the one JSON string that `text` holds, or `None` where it holds none.
pub uninterp spec fn json_string_value(text: Seq<char>) -> Option<Seq<char>>;

/// The text consists of lowercase ASCII letters only.
pub open spec fn lowercase_letters(s: Seq<char>) -> bool {
    forall|i: int| 0 <= i < s.len() ==> 'a' <= #[trigger] s[i] <= 'z'
}

/// Reads one JSON string with `serde_json::from_str::<String>`. Trusted: the
/// result is `json_string_value(text)`; and lowercase letters between two
/// double quotes read as those letters, since the reader copies every byte
/// that is not a quote, a backslash or a control character. What escapes
/// give is left to the name.
#[verifier::external_body]
fn parse_json_string(text: &str) -> (r: Option<String>)
    ensures
        crate::calendar::text_view(r) == json_string_value(text@),
        forall|s: Seq<char>|
            lowercase_letters(s) && text@ == #[trigger] (seq!['"'] + s + seq!['"']) ==> (
            crate::calendar::text_view(r) == Some(s)),
{
    serde_json::from_str::<String>(text).ok()
}

/// The kind of a stored delta: its name read as the JSON string `"<name>"`,
/// and a delete where that does not give `delete`, `modify` or `add`.
pub open spec fn stored_delta_type(type_text: Seq<char>) -> DeltaType {
    match json_string_value(seq!['"'] + type_text + seq!['"']) {
        Some(v) => match delta_type_named(v) {
            Some(t) => t,
            None => DeltaType::Delete,
        },
        None => DeltaType::Delete,
    }
}

/// The kind of a stored delta, read from its stored name as a JSON string;
/// a delete where the name does not read as `delete`, `modify` or `add`.
/// The name under which a kind is stored reads back as that kind.
pub fn delta_type_from_stored(type_text: &str) -> (r: DeltaType)
    ensures
        r == stored_delta_type(type_text@),
        forall|t: DeltaType| #[trigger] delta_type_name(t) == type_text@ ==> r == t,
{
    let mut quoted = String::new();
    crate::text::push_char(&mut quoted, '"');
    quoted.append(type_text);
    crate::text::push_char(&mut quoted, '"');
    assert(quoted@ =~= seq!['"'] + type_text@ + seq!['"']);
    let r = match parse_json_string(quoted.as_str()) {
        Some(v) => match DeltaType::from_name(v.as_str()) {
            Some(t) => t,
            None => DeltaType::Delete,
        },
        None => DeltaType::Delete,
    };
    proof {
        reveal_strlit("delete");
        reveal_strlit("modify");
        reveal_strlit("add");
        assert forall|t: DeltaType| #[trigger] delta_type_name(t) == type_text@ implies r == t by {
            assert(lowercase_letters(delta_type_name(t)));
            lemma_delta_type_name_round_trip(t, type_text@);
        }
    }
    r
}

/// The delta that a stored row describes: an id that does not read as a
/// UUID becomes the nil UUID (0), and the kind is read from its stored name
/// as `delta_type_from_stored` reads it.
pub fn delta_from_row(
    id_text: &str,
    calendar_id: i64,
    type_text: &str,
    match_key: Option<String>,
    event_json: Option<String>,
) -> (r: OverlayDelta)
    ensures
        r.id == (match parsed_uuid(id_text@) {
            Some(v) => v,
            None => 0,
        }),
        r.calendar_id == calendar_id,
        r.delta_type == stored_delta_type(type_text@),
        r.match_key == match_key,
        r.event_json == event_json,
{
    let id = match parse_uuid(id_text) {
        Some(v) => v,
        None => 0,
    };
    let delta_type = delta_type_from_stored(type_text);
    OverlayDelta { id, calendar_id, delta_type, match_key, event_json }
}

}

use base64::Engine;
use rapla_ical_proxy::api::{
    calendar_responses, forked_ics_url, AuthState, CalendarResponse, CreateDeltaRequest,
    DeltaResponse,
};
use rapla_ical_proxy::db::{delta_from_row, delta_type_from_stored, Calendar, DeltaType, OverlayDelta};
use rapla_ical_proxy::web::asset_path;

#[test]
fn feed_link_layout() {
    assert_eq!(forked_ics_url("http://127.0.0.1:8080", 5), "http://127.0.0.1:8080/api/calendars/5/forked.ics");
    assert_eq!(forked_ics_url("https://x", -12), "https://x/api/calendars/-12/forked.ics");
    assert_eq!(
        forked_ics_url("", i64::MIN),
        format!("/api/calendars/{}/forked.ics", i64::MIN)
    );
}

#[test]
fn listing_entries() {
    let cals = [
        Calendar { id: 1, name: "A".into(), rapla_url: "https://rapla.dhbw.de/a".into() },
        Calendar { id: 20, name: "B".into(), rapla_url: "https://rapla.dhbw.de/b".into() },
    ];
    let list = calendar_responses(&cals, "http://h");
    assert_eq!(
        list,
        vec![
            CalendarResponse {
                id: 1,
                name: "A".into(),
                rapla_url: "https://rapla.dhbw.de/a".into(),
                forked_ics_url: "http://h/api/calendars/1/forked.ics".into(),
            },
            CalendarResponse {
                id: 20,
                name: "B".into(),
                rapla_url: "https://rapla.dhbw.de/b".into(),
                forked_ics_url: "http://h/api/calendars/20/forked.ics".into(),
            },
        ]
    );
}

#[test]
fn basic_credentials() {
    let auth = AuthState::new("user", "pass");
    assert_eq!(auth.credentials, "Basic dXNlcjpwYXNz");
    for (u, p) in [("", ""), ("a", "b"), ("admin", "s3cr3t!"), ("jörg", "pässwört"), ("x", "yz")] {
        let expected = format!(
            "Basic {}",
            base64::engine::general_purpose::STANDARD.encode(format!("{u}:{p}"))
        );
        assert_eq!(AuthState::new(u, p).credentials, expected);
    }
}

#[test]
fn only_exact_credentials_are_admitted() {
    let auth = AuthState::new("user", "pass");
    assert!(auth.admits(Some("Basic dXNlcjpwYXNz")));
    assert!(!auth.admits(Some("Basic dXNlcjpwYXNz ")));
    assert!(!auth.admits(Some("basic dXNlcjpwYXNz")));
    assert!(!auth.admits(None));
}

#[test]
fn delta_type_names() {
    assert_eq!(DeltaType::Delete.as_str(), "delete");
    assert_eq!(DeltaType::Modify.as_str(), "modify");
    assert_eq!(DeltaType::Add.as_str(), "add");
    for t in [DeltaType::Delete, DeltaType::Modify, DeltaType::Add] {
        assert_eq!(DeltaType::from_name(t.as_str()), Some(t));
    }
    assert_eq!(DeltaType::from_name("Delete"), None);
    assert_eq!(DeltaType::from_name(""), None);
}

#[test]
fn invalid_requested_type() {
    let req = CreateDeltaRequest { delta_type: "remove".into(), match_key: None, event: None };
    assert_eq!(req.requested_type(), None);
    let req = CreateDeltaRequest { delta_type: "modify".into(), match_key: None, event: None };
    assert_eq!(req.requested_type(), Some(DeltaType::Modify));
}

#[test]
fn delta_response_fields() {
    let d = OverlayDelta {
        id: 0x1234,
        calendar_id: 3,
        delta_type: DeltaType::Add,
        match_key: Some("k".into()),
        event_json: Some("{}".into()),
    };
    let r = DeltaResponse::from_delta(&d, None);
    assert_eq!(r.id, 0x1234);
    assert_eq!(r.calendar_id, 3);
    assert_eq!(r.delta_type, "add");
    assert_eq!(r.match_key.as_deref(), Some("k"));
    assert_eq!(r.event, None);
}

#[test]
fn asset_paths() {
    for p in ["/web/app.js", "/web//web/x.css", "/web/web/index.html", "/webx", "/web/", "/web/web/", "assets/x"] {
        assert_eq!(asset_path(p), p.trim_start_matches("/web/"), "{p}");
    }
    assert_eq!(asset_path("/web/app.js"), "app.js");
}

#[test]
fn stored_rows_become_deltas() {
    let d = delta_from_row(
        "550e8400-e29b-41d4-a716-446655440000",
        9,
        "modify",
        Some("k".into()),
        Some("{}".into()),
    );
    assert_eq!(d.id, 0x550e8400_e29b_41d4_a716_446655440000u128);
    assert_eq!(d.calendar_id, 9);
    assert_eq!(d.delta_type, DeltaType::Modify);
    assert_eq!(d.match_key.as_deref(), Some("k"));
    assert_eq!(d.event_json.as_deref(), Some("{}"));
    let bad = delta_from_row("not-a-uuid", 1, "rename", None, None);
    assert_eq!(bad.id, 0);
    assert_eq!(bad.delta_type, DeltaType::Delete);
    let add = delta_from_row("550e8400e29b41d4a716446655440000", 1, "add", None, None);
    assert_eq!(add.id, uuid::Uuid::parse_str("550e8400e29b41d4a716446655440000").unwrap().as_u128());
    assert_eq!(add.delta_type, DeltaType::Add);
}

#[test]
fn stored_kind_is_read_as_a_json_string() {
    assert_eq!(delta_type_from_stored("delete"), DeltaType::Delete);
    assert_eq!(delta_type_from_stored("modify"), DeltaType::Modify);
    assert_eq!(delta_type_from_stored("add"), DeltaType::Add);
    assert_eq!(delta_type_from_stored("\\u0061dd"), DeltaType::Add);
    assert_eq!(delta_type_from_stored("mo\\u0064ify"), DeltaType::Modify);
    assert_eq!(delta_type_from_stored("Add"), DeltaType::Delete);
    assert_eq!(delta_type_from_stored("add\""), DeltaType::Delete);
    assert_eq!(delta_type_from_stored(""), DeltaType::Delete);
    let d = delta_from_row("x", 1, "\\u0061dd", None, None);
    assert_eq!(d.delta_type, DeltaType::Add);
}

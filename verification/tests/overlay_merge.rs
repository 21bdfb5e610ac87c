use rapla_ical_proxy::calendar::{Calendar, Date, Event, Time};
use rapla_ical_proxy::db::{DeltaType, OverlayDelta};
use rapla_ical_proxy::overlay::{
    event_match_key, merge_calendar, merge_events, overlay_event_to_event, replacement_events,
    OverlayEvent,
};

fn event(y: i32, mo: u32, d: u32, sh: u32, sm: u32, eh: u32, em: u32, title: &str) -> Event {
    Event {
        date: Date { year: y, month: mo, day: d },
        start: Time { hour: sh, minute: sm, second: 0 },
        end: Time { hour: eh, minute: em, second: 0 },
        title: title.to_string(),
        location: Some("Room 1".to_string()),
        organizer: None,
        description: None,
    }
}

fn overlay(date: &str, start: &str, end: &str, title: &str) -> OverlayEvent {
    OverlayEvent {
        date: date.to_string(),
        start: start.to_string(),
        end: end.to_string(),
        title: title.to_string(),
        location: None,
        organizer: Some("Dr. X".to_string()),
        description: Some("moved".to_string()),
    }
}

fn delta(t: DeltaType, key: Option<&str>) -> OverlayDelta {
    OverlayDelta {
        id: 7,
        calendar_id: 1,
        delta_type: t,
        match_key: key.map(|k| k.to_string()),
        event_json: None,
    }
}

fn calendar(events: Vec<Event>) -> Calendar {
    Calendar { name: "TINF23".to_string(), events }
}

fn titles(c: &Calendar) -> Vec<String> {
    c.events.iter().map(|e| e.title.clone()).collect()
}

#[test]
fn match_key_layout() {
    let e = event(2024, 3, 5, 8, 0, 9, 30, "Math");
    assert_eq!(event_match_key(&e), "2024-03-05|08:00-09:30|Math");
}

#[test]
fn match_key_ignores_seconds_and_details() {
    let mut a = event(2024, 3, 5, 8, 0, 9, 30, "Math");
    a.start.second = 42;
    a.location = None;
    assert_eq!(event_match_key(&a), "2024-03-05|08:00-09:30|Math");
}

#[test]
fn overlay_converts_to_event() {
    let e = overlay_event_to_event(&overlay("2024-04-01", "10:15", "11:45", "Physics")).unwrap();
    assert_eq!(e.date, Date { year: 2024, month: 4, day: 1 });
    assert_eq!(e.start, Time { hour: 10, minute: 15, second: 0 });
    assert_eq!(e.end, Time { hour: 11, minute: 45, second: 0 });
    assert_eq!(e.title, "Physics");
    assert_eq!(e.location, None);
    assert_eq!(e.organizer.as_deref(), Some("Dr. X"));
    assert_eq!(e.description.as_deref(), Some("moved"));
}

#[test]
fn overlay_with_bad_date_or_time_is_rejected() {
    assert!(overlay_event_to_event(&overlay("2024-02-30", "10:15", "11:45", "x")).is_none());
    assert!(overlay_event_to_event(&overlay("2024-13-01", "10:15", "11:45", "x")).is_none());
    assert!(overlay_event_to_event(&overlay("tomorrow", "10:15", "11:45", "x")).is_none());
    assert!(overlay_event_to_event(&overlay("2024-04-01", "24:00", "11:45", "x")).is_none());
    assert!(overlay_event_to_event(&overlay("2024-04-01", "10:15", "11:60", "x")).is_none());
}

#[test]
fn overlay_reading_agrees_with_chrono() {
    for (d, s) in [("2024-4-1", "9:05"), ("+2024-04-01", "09:05"), ("2024-04-01 ", "09:05")] {
        let ours = overlay_event_to_event(&overlay(d, s, s, "t"));
        let date = chrono::NaiveDate::parse_from_str(d, "%Y-%m-%d").ok();
        let time = chrono::NaiveTime::parse_from_str(s, "%H:%M").ok();
        assert_eq!(ours.is_some(), date.is_some() && time.is_some(), "{d} {s}");
    }
}

#[test]
fn merge_without_deltas_keeps_calendar() {
    let cal = calendar(vec![event(2024, 3, 5, 8, 0, 9, 30, "Math"), event(2024, 3, 6, 8, 0, 9, 30, "Art")]);
    let expected: Vec<Event> = cal.events.iter().map(|e| e.duplicate()).collect();
    let merged = merge_calendar(cal, &[], &[], Some("CM"));
    assert_eq!(merged.name, "TINF23");
    assert_eq!(merged.events, expected);
}

#[test]
fn delete_delta_drops_every_matching_event() {
    let cal = calendar(vec![
        event(2024, 3, 5, 8, 0, 9, 30, "Math"),
        event(2024, 3, 6, 8, 0, 9, 30, "Art"),
        event(2024, 3, 5, 8, 0, 9, 30, "Math"),
    ]);
    let deltas = [delta(DeltaType::Delete, Some("2024-03-05|08:00-09:30|Math"))];
    let merged = merge_calendar(cal, &deltas, &[None], None);
    assert_eq!(titles(&merged), vec!["Art"]);
}

#[test]
fn modify_delta_replaces_and_tags() {
    let cal = calendar(vec![event(2024, 3, 5, 8, 0, 9, 30, "Math"), event(2024, 3, 6, 8, 0, 9, 30, "Art")]);
    let deltas = [delta(DeltaType::Modify, Some("2024-03-05|08:00-09:30|Math"))];
    let overlays = [Some(overlay("2024-03-07", "13:00", "14:00", "Math (moved)"))];
    let merged = merge_calendar(cal, &deltas, &overlays, Some("CM"));
    assert_eq!(titles(&merged), vec!["[CM] Math (moved)", "Art"]);
    assert_eq!(merged.events[0].date, Date { year: 2024, month: 3, day: 7 });
    assert_eq!(merged.events[1].location.as_deref(), Some("Room 1"));
}

#[test]
fn modify_without_readable_event_drops_the_event() {
    let cal = calendar(vec![event(2024, 3, 5, 8, 0, 9, 30, "Math")]);
    let deltas = [delta(DeltaType::Modify, Some("2024-03-05|08:00-09:30|Math"))];
    let overlays = [Some(overlay("2024-03-07", "1pm", "14:00", "Math"))];
    assert!(merge_calendar(cal, &deltas, &overlays, None).events.is_empty());
    let cal = calendar(vec![event(2024, 3, 5, 8, 0, 9, 30, "Math")]);
    assert!(merge_calendar(cal, &deltas, &[None], None).events.is_empty());
}

#[test]
fn add_deltas_append_in_order() {
    let cal = calendar(vec![event(2024, 3, 5, 8, 0, 9, 30, "Math")]);
    let deltas = [
        delta(DeltaType::Add, None),
        delta(DeltaType::Add, Some("2024-03-05|08:00-09:30|Math")),
        delta(DeltaType::Add, None),
    ];
    let overlays = [
        Some(overlay("2024-03-08", "10:00", "11:00", "Extra 1")),
        Some(overlay("2024-03-09", "10:00", "11:00", "Extra 2")),
        None,
    ];
    let merged = merge_calendar(cal, &deltas, &overlays, None);
    assert_eq!(titles(&merged), vec!["Math", "Extra 1", "Extra 2"]);
}

#[test]
fn last_delta_on_a_key_decides() {
    let key = "2024-03-05|08:00-09:30|Math";
    let cal = calendar(vec![event(2024, 3, 5, 8, 0, 9, 30, "Math")]);
    let deltas = [delta(DeltaType::Delete, Some(key)), delta(DeltaType::Modify, Some(key))];
    let overlays = [None, Some(overlay("2024-03-05", "08:00", "09:30", "Math II"))];
    assert_eq!(titles(&merge_calendar(cal, &deltas, &overlays, None)), vec!["Math II"]);

    let cal = calendar(vec![event(2024, 3, 5, 8, 0, 9, 30, "Math")]);
    let deltas = [delta(DeltaType::Modify, Some(key)), delta(DeltaType::Delete, Some(key))];
    let overlays = [Some(overlay("2024-03-05", "08:00", "09:30", "Math II")), None];
    assert!(merge_calendar(cal, &deltas, &overlays, None).events.is_empty());
}

#[test]
fn unmatched_keys_change_nothing() {
    let cal = calendar(vec![event(2024, 3, 5, 8, 0, 9, 30, "Math")]);
    let deltas = [
        delta(DeltaType::Delete, Some("2024-03-05|08:00-09:30|math")),
        delta(DeltaType::Modify, None),
    ];
    let overlays = [None, Some(overlay("2024-03-05", "08:00", "09:30", "X"))];
    assert_eq!(titles(&merge_calendar(cal, &deltas, &overlays, Some("T"))), vec!["Math"]);
}

#[test]
fn replacements_are_tagged() {
    let overlays = [Some(overlay("2024-03-05", "08:00", "09:30", "Lab")), None];
    let reps = replacement_events(&overlays, Some("CM"));
    assert_eq!(reps.len(), 2);
    assert_eq!(reps[0].as_ref().unwrap().title, "[CM] Lab");
    assert!(reps[1].is_none());
    let untagged = replacement_events(&overlays, None);
    assert_eq!(untagged[0].as_ref().unwrap().title, "Lab");
}

#[test]
fn merge_events_uses_given_replacements() {
    let events = vec![event(2024, 3, 5, 8, 0, 9, 30, "Math")];
    let deltas = [delta(DeltaType::Modify, Some("2024-03-05|08:00-09:30|Math"))];
    let reps = [Some(event(2024, 3, 5, 10, 0, 11, 0, "Late Math"))];
    let out = merge_events(&events, &deltas, &reps);
    assert_eq!(out, vec![event(2024, 3, 5, 10, 0, 11, 0, "Late Math")]);
}

#[test]
fn events_are_rewritten_one_by_one() {
    let key = "2024-03-05|08:00-09:30|Math";
    let deltas = [delta(DeltaType::Modify, Some(key)), delta(DeltaType::Delete, Some("2024-03-06|08:00-09:30|Art"))];
    let reps = [Some(event(2024, 3, 5, 10, 0, 11, 0, "Late Math")), None];
    let a = vec![event(2024, 3, 5, 8, 0, 9, 30, "Math"), event(2024, 3, 6, 8, 0, 9, 30, "Art")];
    let b = vec![event(2024, 3, 7, 8, 0, 9, 30, "Bio"), event(2024, 3, 5, 8, 0, 9, 30, "Math")];
    let both: Vec<Event> = a.iter().chain(b.iter()).map(|e| e.duplicate()).collect();
    let mut separate = merge_events(&a, &deltas, &reps);
    separate.extend(merge_events(&b, &deltas, &reps));
    let together = merge_events(&both, &deltas, &reps);
    assert_eq!(together, separate);
    assert!(together.len() <= both.len() + deltas.len());
    for e in &together {
        assert!(both.contains(e) || reps.iter().any(|r| r.as_ref() == Some(e)));
    }
}

#[test]
fn zero_padded_overlay_keys_itself() {
    let o = overlay("2024-03-07", "13:00", "14:05", "Lab");
    let e = overlay_event_to_event(&o).unwrap();
    assert_eq!(event_match_key(&e), "2024-03-07|13:00-14:05|Lab");
    let o = overlay("0999-01-02", "00:00", "23:59", "Old");
    let e = overlay_event_to_event(&o).unwrap();
    assert_eq!(event_match_key(&e), "0999-01-02|00:00-23:59|Old");
}

#[test]
fn tag_only_retitles_built_events() {
    let key = "2024-03-05|08:00-09:30|Math";
    let mk = || calendar(vec![event(2024, 3, 5, 8, 0, 9, 30, "Math"), event(2024, 3, 6, 8, 0, 9, 30, "Art")]);
    let deltas = [delta(DeltaType::Modify, Some(key)), delta(DeltaType::Add, None)];
    let overlays = [
        Some(overlay("2024-03-05", "08:00", "09:30", "Math B")),
        Some(overlay("2024-03-09", "08:00", "09:30", "Extra")),
    ];
    let tagged = merge_calendar(mk(), &deltas, &overlays, Some("CM"));
    let plain = merge_calendar(mk(), &deltas, &overlays, None);
    assert_eq!(titles(&tagged), vec!["[CM] Math B", "Art", "[CM] Extra"]);
    assert_eq!(titles(&plain), vec!["Math B", "Art", "Extra"]);
    for (a, b) in tagged.events.iter().zip(plain.events.iter()) {
        assert_eq!(a.date, b.date);
        assert!(a.title == b.title || a.title == format!("[CM] {}", b.title));
    }
}

#[test]
fn keyless_deltas_and_add_keys_have_no_effect() {
    let key = "2024-03-05|08:00-09:30|Math";
    let mk = || calendar(vec![event(2024, 3, 5, 8, 0, 9, 30, "Math"), event(2024, 3, 6, 8, 0, 9, 30, "Art")]);
    let deltas = [delta(DeltaType::Delete, Some(key)), delta(DeltaType::Add, None)];
    let overlays = [None, Some(overlay("2024-03-09", "08:00", "09:30", "Extra"))];
    let base = merge_calendar(mk(), &deltas, &overlays, Some("T"));
    let deltas2 = [
        delta(DeltaType::Modify, None),
        delta(DeltaType::Delete, Some(key)),
        delta(DeltaType::Delete, None),
        delta(DeltaType::Add, Some("2024-03-06|08:00-09:30|Art")),
    ];
    let overlays2 = [
        Some(overlay("2024-03-10", "08:00", "09:30", "Ghost")),
        None,
        None,
        Some(overlay("2024-03-09", "08:00", "09:30", "Extra")),
    ];
    let other = merge_calendar(mk(), &deltas2, &overlays2, Some("T"));
    assert_eq!(titles(&base), vec!["Art", "[T] Extra"]);
    assert_eq!(base, other);
}

//! Overlays: how stored deltas rewrite the events of a fetched calendar.
//!
//! An event is found again by its match key, the text
//! `<date>|<start>-<end>|<title>`. A delete delta drops every event with its
//! key, a modify delta replaces every such event by the delta's own event,
//! and an add delta appends its event after all others. Where several delete
//! or modify deltas share a key, the last of them decides.

use vstd::prelude::*;

use crate::calendar::{
    date_text, event_view_opt, event_views, hour_minute_text, lemma_date_text_injective,
    lemma_date_text_len, lemma_hour_minute_text_injective, lemma_hour_minute_text_len,
    push_date_text, push_hour_minute_text, Calendar, Date, Event, EventView, Time,
};
use crate::text::lemma_concat_split;
use crate::db::{DeltaType, OverlayDelta};
use crate::text::push_char;

verus! {

/// An event as the web panel sends it: date as `YYYY-MM-DD`, times as `HH:MM`.
#[derive(Debug, PartialEq, Eq)]
pub struct OverlayEvent {
    pub date: String,
    pub start: String,
    pub end: String,
    pub title: String,
    pub location: Option<String>,
    pub organizer: Option<String>,
    pub description: Option<String>,
}

/// The match key of an event: `<date>|<start>-<end>|<title>`, with the date
/// as `%Y-%m-%d` and the times as `%H:%M`.
pub open spec fn match_key_text(e: EventView) -> Seq<char> {
    date_text(e.date) + seq!['|'] + hour_minute_text(e.start) + seq!['-'] + hour_minute_text(e.end)
        + seq!['|'] + e.title
}

/// The match key of an event.
pub fn event_match_key(event: &Event) -> (r: String)
    ensures
        r@ == match_key_text(event@),
{
    let mut s = String::new();
    push_date_text(&mut s, &event.date);
    push_char(&mut s, '|');
    push_hour_minute_text(&mut s, &event.start);
    push_char(&mut s, '-');
    push_hour_minute_text(&mut s, &event.end);
    push_char(&mut s, '|');
    s.append(event.title.as_str());
    assert(s@ =~= match_key_text(event@));
    s
}

/// What `chrono::NaiveDate::parse_from_str(text, "%Y-%m-%d")` gives for
/// `text`, as year, month and day, or `None` where it fails.
pub uninterp spec fn parsed_date(text: Seq<char>) -> Option<(i32, u32, u32)>;

/// What `chrono::NaiveTime::parse_from_str(text, "%H:%M")` gives for `text`,
/// as hour, minute and second, or `None` where it fails.
pub uninterp spec fn parsed_hour_minute(text: Seq<char>) -> Option<(u32, u32, u32)>;

/// Reads a date with `chrono::NaiveDate::parse_from_str(text, "%Y-%m-%d")`.
/// Trusted: the result is `parsed_date(text)`; a date that chrono hands back
/// is a real calendar date within chrono's range of years; and the text that
/// `%Y-%m-%d` writes of a valid date reads back as that date. What else
/// chrono accepts (leading blanks, signs, short fields) is left to the name.
#[verifier::external_body]
fn parse_date(text: &str) -> (r: Option<(i32, u32, u32)>)
    ensures
        r == parsed_date(text@),
        r matches Some((y, m, d)) ==> (Date { year: y, month: m, day: d }).is_valid(),
        forall|d: Date|
            d.is_valid() && #[trigger] date_text(d) == text@ ==> r == Some((d.year, d.month, d.day)),
{
    match chrono::NaiveDate::parse_from_str(text, "%Y-%m-%d") {
        Ok(d) => Some((
            chrono::Datelike::year(&d),
            chrono::Datelike::month(&d),
            chrono::Datelike::day(&d),
        )),
        Err(_) => None,
    }
}

/// Reads a time with `chrono::NaiveTime::parse_from_str(text, "%H:%M")`.
/// Trusted: the result is `parsed_hour_minute(text)`; a time that chrono hands
/// back has an hour below 24 and a minute below 60, and, since the format
/// names no seconds, its second is 0; and the text that `%H:%M` writes of a
/// valid time reads back as its hour and minute. What else chrono accepts is
/// left to the name.
#[verifier::external_body]
fn parse_hour_minute(text: &str) -> (r: Option<(u32, u32, u32)>)
    ensures
        r == parsed_hour_minute(text@),
        r matches Some((h, m, s)) ==> h < 24 && m < 60 && s == 0,
        forall|t: Time|
            t.is_valid() && #[trigger] hour_minute_text(t) == text@ ==> r == Some(
                (t.hour, t.minute, 0u32),
            ),
{
    match chrono::NaiveTime::parse_from_str(text, "%H:%M") {
        Ok(t) => Some((
            chrono::Timelike::hour(&t),
            chrono::Timelike::minute(&t),
            chrono::Timelike::second(&t),
        )),
        Err(_) => None,
    }
}

/// The event made of an overlay's texts and its date and times as read,
/// or `None` where one of them could not be read.
pub open spec fn event_from_parts(
    overlay: OverlayEvent,
    date: Option<(i32, u32, u32)>,
    start: Option<(u32, u32, u32)>,
    end: Option<(u32, u32, u32)>,
) -> Option<EventView> {
    match (date, start, end) {
        (Some((y, mo, d)), Some((sh, sm, ss)), Some((eh, em, es))) => Some(
            EventView {
                date: Date { year: y, month: mo, day: d },
                start: Time { hour: sh, minute: sm, second: ss },
                end: Time { hour: eh, minute: em, second: es },
                title: overlay.title@,
                location: crate::calendar::text_view(overlay.location),
                organizer: crate::calendar::text_view(overlay.organizer),
                description: crate::calendar::text_view(overlay.description),
            },
        ),
        _ => None,
    }
}

/// The event that an overlay describes, or `None` where its date or one of
/// its times cannot be read.
pub open spec fn overlay_event_view(overlay: OverlayEvent) -> Option<EventView> {
    event_from_parts(
        overlay,
        parsed_date(overlay.date@),
        parsed_hour_minute(overlay.start@),
        parsed_hour_minute(overlay.end@),
    )
}

/// Builds the event of an overlay from its date and times as they were read.
pub fn assemble_event(
    overlay: &OverlayEvent,
    date: Option<(i32, u32, u32)>,
    start: Option<(u32, u32, u32)>,
    end: Option<(u32, u32, u32)>,
) -> (r: Option<Event>)
    ensures
        event_view_opt(r) == event_from_parts(*overlay, date, start, end),
        r is Some <==> (date is Some && start is Some && end is Some),
        r matches Some(e) ==> {
            &&& e.title == overlay.title
            &&& e.location == overlay.location
            &&& e.organizer == overlay.organizer
            &&& e.description == overlay.description
            &&& date == Some((e.date.year, e.date.month, e.date.day))
            &&& start == Some((e.start.hour, e.start.minute, e.start.second))
            &&& end == Some((e.end.hour, e.end.minute, e.end.second))
        },
{
    match (date, start, end) {
        (Some((y, mo, d)), Some((sh, sm, ss)), Some((eh, em, es))) => Some(
            Event {
                date: Date { year: y, month: mo, day: d },
                start: Time { hour: sh, minute: sm, second: ss },
                end: Time { hour: eh, minute: em, second: es },
                title: overlay.title.clone(),
                location: crate::calendar::copy_text(&overlay.location),
                organizer: crate::calendar::copy_text(&overlay.organizer),
                description: crate::calendar::copy_text(&overlay.description),
            },
        ),
        _ => None,
    }
}

/// The overlay's texts are the zero-padded `%Y-%m-%d` and `%H:%M` texts of
/// the valid date `d` and the valid times `s` and `e`.
pub open spec fn written_from(overlay: OverlayEvent, d: Date, s: Time, e: Time) -> bool {
    &&& d.is_valid()
    &&& s.is_valid()
    &&& e.is_valid()
    &&& date_text(d) == overlay.date@
    &&& hour_minute_text(s) == overlay.start@
    &&& hour_minute_text(e) == overlay.end@
}

/// `r` is an event on the date `d` from `s` to `e` (to the minute), whose
/// match key is the overlay's own texts joined as a key.
pub open spec fn read_back(r: Option<Event>, overlay: OverlayEvent, d: Date, s: Time, e: Time) -> bool {
    match r {
        Some(ev) => {
            &&& ev.date == d
            &&& ev.start.hour == s.hour
            &&& ev.start.minute == s.minute
            &&& ev.end.hour == e.hour
            &&& ev.end.minute == e.minute
            &&& match_key_text(ev@) == overlay.date@ + seq!['|'] + overlay.start@ + seq!['-']
                + overlay.end@ + seq!['|'] + overlay.title@
        },
        None => false,
    }
}

/// The event that an overlay describes; `None` where its date is not
/// `%Y-%m-%d` or one of its times is not `%H:%M`. An overlay written in the
/// zero-padded form of a valid date and valid times is read as them, and
/// the match key of the event is then the overlay's own texts joined.
pub fn overlay_event_to_event(overlay: &OverlayEvent) -> (r: Option<Event>)
    ensures
        event_view_opt(r) == overlay_event_view(*overlay),
        r matches Some(e) ==> e@.is_valid() && e.start.second == 0 && e.end.second == 0,
        forall|d: Date, s: Time, e: Time|
            #[trigger] written_from(*overlay, d, s, e) ==> read_back(r, *overlay, d, s, e),
{
    let date = parse_date(overlay.date.as_str());
    let start = parse_hour_minute(overlay.start.as_str());
    let end = parse_hour_minute(overlay.end.as_str());
    let r = assemble_event(overlay, date, start, end);
    assert forall|d: Date, s: Time, e: Time|
        #[trigger] written_from(*overlay, d, s, e) implies read_back(r, *overlay, d, s, e) by {
        assert(date_text(d) == overlay.date@);
        assert(hour_minute_text(s) == overlay.start@);
        assert(hour_minute_text(e) == overlay.end@);
        assert(date == Some((d.year, d.month, d.day)));
        assert(start == Some((s.hour, s.minute, 0u32)));
        assert(end == Some((e.hour, e.minute, 0u32)));
        let ev = r.unwrap();
        assert(hour_minute_text(ev.start) == hour_minute_text(s));
        assert(hour_minute_text(ev.end) == hour_minute_text(e));
    }
    r
}

/// The characters of an optional tag.
pub open spec fn tag_view(tag: Option<&str>) -> Option<Seq<char>> {
    match tag {
        Some(t) => Some(t@),
        None => None,
    }
}

/// A title marked with a tag: `[<tag>] <title>`; unchanged without a tag.
pub open spec fn tagged_title(tag: Option<Seq<char>>, title: Seq<char>) -> Seq<char> {
    match tag {
        Some(t) => seq!['['] + t + seq![']', ' '] + title,
        None => title,
    }
}

/// An event whose title is marked with a tag.
pub open spec fn with_tag(e: EventView, tag: Option<Seq<char>>) -> EventView {
    EventView {
        date: e.date,
        start: e.start,
        end: e.end,
        title: tagged_title(tag, e.title),
        location: e.location,
        organizer: e.organizer,
        description: e.description,
    }
}

/// The event that an overlay puts into a calendar: the event it describes,
/// tagged; `None` where there is no overlay or it cannot be read.
pub open spec fn replacement_view(overlay: Option<OverlayEvent>, tag: Option<Seq<char>>) -> Option<
    EventView,
> {
    match overlay {
        Some(o) => match overlay_event_view(o) {
            Some(e) => Some(with_tag(e, tag)),
            None => None,
        },
        None => None,
    }
}

/// The events that a list of overlays puts into a calendar.
pub open spec fn replacement_views(
    overlays: Seq<Option<OverlayEvent>>,
    tag: Option<Seq<char>>,
) -> Seq<Option<EventView>> {
    overlays.map_values(|o: Option<OverlayEvent>| replacement_view(o, tag))
}

/// The views of a list of optional events.
pub open spec fn event_view_opts(events: Seq<Option<Event>>) -> Seq<Option<EventView>> {
    events.map_values(|e: Option<Event>| event_view_opt(e))
}

/// Marks the title of an event with a tag, as `[<tag>] <title>`.
pub fn tag_event(event: &mut Event, tag: Option<&str>)
    ensures
        final(event)@ == with_tag(old(event)@, tag_view(tag)),
        final(event).date == old(event).date,
        final(event).start == old(event).start,
        final(event).end == old(event).end,
        final(event).location == old(event).location,
        final(event).organizer == old(event).organizer,
        final(event).description == old(event).description,
        match tag {
            Some(t) => final(event).title@ == seq!['['] + t@ + seq![']', ' '] + old(event).title@,
            None => final(event).title == old(event).title,
        },
{
    if let Some(t) = tag {
        let mut title = String::new();
        push_char(&mut title, '[');
        title.append(t);
        push_char(&mut title, ']');
        push_char(&mut title, ' ');
        title.append(event.title.as_str());
        event.title = title;
        assert(event@.title =~= tagged_title(tag_view(tag), old(event)@.title));
    }
}

/// The events that each overlay puts into a calendar: the event it
/// describes, tagged, or `None` where it has none or it cannot be read.
pub fn replacement_events(overlays: &[Option<OverlayEvent>], tag: Option<&str>) -> (r: Vec<
    Option<Event>,
>)
    ensures
        r@.len() == overlays@.len(),
        event_view_opts(r@) == replacement_views(overlays@, tag_view(tag)),
{
    let mut out: Vec<Option<Event>> = Vec::new();
    let n = overlays.len();
    for i in 0..n
        invariant
            n == overlays@.len(),
            out@.len() == i,
            event_view_opts(out@) == replacement_views(overlays@.take(i as int), tag_view(tag)),
    {
        let next = match &overlays[i] {
            Some(o) => match overlay_event_to_event(o) {
                Some(e) => {
                    let mut e = e;
                    tag_event(&mut e, tag);
                    Some(e)
                },
                None => None,
            },
            None => None,
        };
        assert(event_view_opt(next) == replacement_view(overlays@[i as int], tag_view(tag)));
        let ghost before = out@;
        out.push(next);
        assert(out@ =~= before.push(next));
        assert(event_view_opts(out@) =~= event_view_opts(before).push(event_view_opt(next)));
        assert(overlays@.take(i + 1) =~= overlays@.take(i as int).push(overlays@[i as int]));
        assert(replacement_views(overlays@.take(i + 1), tag_view(tag)) =~= replacement_views(
            overlays@.take(i as int),
            tag_view(tag),
        ).push(replacement_view(overlays@[i as int], tag_view(tag))));
    }
    assert(overlays@.take(n as int) =~= overlays@);
    out
}

/// The delta targets events with the given match key: it deletes or
/// modifies and carries that key.
pub open spec fn targets(d: OverlayDelta, key: Seq<char>) -> bool {
    &&& d.delta_type != DeltaType::Add
    &&& d.match_key matches Some(k) && k@ == key
}

/// The position of the last delta that targets a match key, if any.
pub open spec fn last_target(deltas: Seq<OverlayDelta>, key: Seq<char>) -> Option<int>
    decreases deltas.len(),
{
    if deltas.len() == 0 {
        None
    } else if targets(deltas.last(), key) {
        Some(deltas.len() - 1)
    } else {
        last_target(deltas.drop_last(), key)
    }
}

/// What an event becomes: itself where no delta targets its key; nothing
/// where the last such delta deletes; the replacement of that delta where it
/// modifies, or nothing where the delta has no readable event.
pub open spec fn rewrite_event(
    e: EventView,
    deltas: Seq<OverlayDelta>,
    replacements: Seq<Option<EventView>>,
) -> Seq<EventView> {
    match last_target(deltas, match_key_text(e)) {
        None => seq![e],
        Some(i) => if deltas[i].delta_type == DeltaType::Modify {
            match replacements[i] {
                Some(n) => seq![n],
                None => seq![],
            }
        } else {
            seq![]
        },
    }
}

/// The events of a calendar after the delete and modify deltas, in order.
pub open spec fn rewrite_events(
    events: Seq<EventView>,
    deltas: Seq<OverlayDelta>,
    replacements: Seq<Option<EventView>>,
) -> Seq<EventView>
    decreases events.len(),
{
    if events.len() == 0 {
        seq![]
    } else {
        rewrite_events(events.drop_last(), deltas, replacements) + rewrite_event(
            events.last(),
            deltas,
            replacements,
        )
    }
}

/// The events that the add deltas among `deltas` append, in order; the
/// replacement of a delta stands at the delta's position.
pub open spec fn added_events(deltas: Seq<OverlayDelta>, replacements: Seq<Option<EventView>>) -> Seq<
    EventView,
>
    decreases deltas.len(),
{
    if deltas.len() == 0 {
        seq![]
    } else {
        added_events(deltas.drop_last(), replacements) + if deltas.last().delta_type
            == DeltaType::Add {
            match replacements[deltas.len() - 1] {
                Some(n) => seq![n],
                None => seq![],
            }
        } else {
            seq![]
        }
    }
}

/// The events of a calendar once a list of deltas is laid over it.
pub open spec fn merged_events(
    events: Seq<EventView>,
    deltas: Seq<OverlayDelta>,
    replacements: Seq<Option<EventView>>,
) -> Seq<EventView> {
    rewrite_events(events, deltas, replacements) + added_events(deltas, replacements)
}

/// The position of the last delta that targets `key`.
fn find_last_target(deltas: &[OverlayDelta], key: &String) -> (r: Option<usize>)
    ensures
        match r {
            Some(i) => i < deltas@.len() && last_target(deltas@, key@) == Some(i as int),
            None => last_target(deltas@, key@) == None::<int>,
        },
{
    let mut k = deltas.len();
    assert(deltas@.take(k as int) =~= deltas@);
    while k > 0
        invariant
            k <= deltas@.len(),
            last_target(deltas@, key@) == last_target(deltas@.take(k as int), key@),
        decreases k,
    {
        let d = &deltas[k - 1];
        assert(deltas@.take(k as int).last() == deltas@[k - 1]);
        assert(deltas@.take(k as int).drop_last() =~= deltas@.take(k - 1));
        if d.delta_type != DeltaType::Add {
            if let Some(mk) = &d.match_key {
                if *mk == *key {
                    return Some(k - 1);
                }
            }
        }
        k = k - 1;
    }
    None
}

/// Lays deltas over a list of events: each event is kept, dropped or
/// replaced as the last delete or modify delta on its match key says, and
/// the events of the add deltas follow, in order. `replacements[i]` is the
/// event that delta `i` carries.
pub fn merge_events(
    events: &[Event],
    deltas: &[OverlayDelta],
    replacements: &[Option<Event>],
) -> (r: Vec<Event>)
    requires
        replacements@.len() == deltas@.len(),
    ensures
        event_views(r@) == merged_events(
            event_views(events@),
            deltas@,
            event_view_opts(replacements@),
        ),
{
    let ghost reps = event_view_opts(replacements@);
    let ghost evs = event_views(events@);
    let mut out: Vec<Event> = Vec::new();
    let n = events.len();
    for i in 0..n
        invariant
            n == events@.len(),
            replacements@.len() == deltas@.len(),
            reps == event_view_opts(replacements@),
            evs == event_views(events@),
            event_views(out@) == rewrite_events(evs.take(i as int), deltas@, reps),
    {
        let key = event_match_key(&events[i]);
        let ghost before = out@;
        assert(evs.take(i + 1).drop_last() =~= evs.take(i as int));
        assert(evs.take(i + 1).last() == events@[i as int]@);
        match find_last_target(deltas, &key) {
            None => {
                out.push(events[i].duplicate());
            },
            Some(j) => {
                if deltas[j].delta_type == DeltaType::Modify {
                    match &replacements[j] {
                        Some(e) => {
                            out.push(e.duplicate());
                        },
                        None => {},
                    }
                }
            },
        }
        assert(event_views(out@) =~= event_views(before) + rewrite_event(
            events@[i as int]@,
            deltas@,
            reps,
        ));
    }
    assert(evs.take(n as int) =~= evs);
    let ghost kept = event_views(out@);
    let m = deltas.len();
    for k in 0..m
        invariant
            m == deltas@.len(),
            replacements@.len() == deltas@.len(),
            reps == event_view_opts(replacements@),
            event_views(out@) == kept + added_events(deltas@.take(k as int), reps),
    {
        let ghost before = out@;
        assert(deltas@.take(k + 1).drop_last() =~= deltas@.take(k as int));
        assert(deltas@.take(k + 1).last() == deltas@[k as int]);
        assert(reps[k as int] == event_view_opt(replacements@[k as int]));
        if deltas[k].delta_type == DeltaType::Add {
            match &replacements[k] {
                Some(e) => {
                    out.push(e.duplicate());
                    assert(event_views(out@) =~= event_views(before).push(e@));
                },
                None => {},
            }
        }
        assert(added_events(deltas@.take(k + 1), reps) == added_events(deltas@.take(k as int), reps)
            + if deltas@[k as int].delta_type == DeltaType::Add {
            match reps[k as int] {
                Some(x) => seq![x],
                None => seq![],
            }
        } else {
            seq![]
        });
        assert(event_views(out@) =~= kept + added_events(deltas@.take(k + 1), reps));
    }
    assert(deltas@.take(m as int) =~= deltas@);
    out
}

/// Lays deltas over a fetched calendar. `overlays[i]` is the event that
/// delta `i` carries, as read from its JSON (`None` where it has none or it
/// is not an event); events that deltas modify or add get their title tagged.
pub fn merge_calendar(
    calendar: Calendar,
    deltas: &[OverlayDelta],
    overlays: &[Option<OverlayEvent>],
    tag: Option<&str>,
) -> (r: Calendar)
    requires
        overlays@.len() == deltas@.len(),
    ensures
        r.name == calendar.name,
        event_views(r.events@) == merged_events(
            event_views(calendar.events@),
            deltas@,
            replacement_views(overlays@, tag_view(tag)),
        ),
{
    let replacements = replacement_events(overlays, tag);
    let events = merge_events(calendar.events.as_slice(), deltas, replacements.as_slice());
    Calendar { name: calendar.name, events }
}

/// The match key of an event depends on its date, the hours and minutes of
/// its times, and its title, and on nothing else.
pub proof fn lemma_match_key_ignores_details(a: EventView, b: EventView)
    requires
        a.date == b.date,
        a.start.hour == b.start.hour,
        a.start.minute == b.start.minute,
        a.end.hour == b.end.hour,
        a.end.minute == b.end.minute,
        a.title == b.title,
    ensures
        match_key_text(a) == match_key_text(b),
{
}

/// Without deltas a calendar's events stay as they are.
pub proof fn lemma_merge_without_deltas(
    events: Seq<EventView>,
    deltas: Seq<OverlayDelta>,
    replacements: Seq<Option<EventView>>,
)
    requires
        deltas.len() == 0,
    ensures
        merged_events(events, deltas, replacements) == events,
{
    lemma_untargeted_events_kept(events, deltas, replacements);
    assert(merged_events(events, deltas, replacements) =~= events);
}

/// Events whose match key no delete or modify delta carries are kept,
/// unchanged and in their order.
pub proof fn lemma_untargeted_events_kept(
    events: Seq<EventView>,
    deltas: Seq<OverlayDelta>,
    replacements: Seq<Option<EventView>>,
)
    requires
        forall|i: int| 0 <= i < events.len() ==> last_target(deltas, match_key_text(events[i])) is None,
    ensures
        rewrite_events(events, deltas, replacements) == events,
    decreases events.len(),
{
    if events.len() > 0 {
        let rest = events.drop_last();
        assert forall|i: int| 0 <= i < rest.len() implies last_target(
            deltas,
            match_key_text(rest[i]),
        ) is None by {
            assert(rest[i] == events[i]);
        }
        lemma_untargeted_events_kept(rest, deltas, replacements);
        assert(last_target(deltas, match_key_text(events[events.len() - 1])) is None);
        assert(rewrite_events(events, deltas, replacements) =~= events);
    }
}

/// Events are rewritten one by one: the rewrite of two lists laid end to end
/// is the rewrite of the first followed by that of the second.
pub proof fn lemma_rewrite_distributes(
    a: Seq<EventView>,
    b: Seq<EventView>,
    deltas: Seq<OverlayDelta>,
    replacements: Seq<Option<EventView>>,
)
    ensures
        rewrite_events(a + b, deltas, replacements) == rewrite_events(a, deltas, replacements)
            + rewrite_events(b, deltas, replacements),
    decreases b.len(),
{
    if b.len() == 0 {
        assert(a + b =~= a);
        assert(rewrite_events(a, deltas, replacements) + rewrite_events(b, deltas, replacements)
            =~= rewrite_events(a, deltas, replacements));
    } else {
        assert((a + b).drop_last() =~= a + b.drop_last());
        assert((a + b).last() == b.last());
        lemma_rewrite_distributes(a, b.drop_last(), deltas, replacements);
        assert(rewrite_events(a + b, deltas, replacements) =~= rewrite_events(a, deltas, replacements)
            + rewrite_events(b, deltas, replacements));
    }
}

/// Where every delta is a delete, the merged calendar holds exactly the
/// events whose match key no delta carries, in their order.
pub proof fn lemma_deletes_filter(
    events: Seq<EventView>,
    deltas: Seq<OverlayDelta>,
    replacements: Seq<Option<EventView>>,
)
    requires
        forall|i: int| 0 <= i < deltas.len() ==> deltas[i].delta_type == DeltaType::Delete,
    ensures
        merged_events(events, deltas, replacements) == events.filter(
            |e: EventView| last_target(deltas, match_key_text(e)) is None,
        ),
{
    lemma_no_additions(deltas, replacements);
    lemma_deletes_filter_rewrite(events, deltas, replacements);
    assert(merged_events(events, deltas, replacements) =~= rewrite_events(
        events,
        deltas,
        replacements,
    ));
}

proof fn lemma_no_additions(deltas: Seq<OverlayDelta>, replacements: Seq<Option<EventView>>)
    requires
        forall|i: int| 0 <= i < deltas.len() ==> deltas[i].delta_type != DeltaType::Add,
    ensures
        added_events(deltas, replacements) == Seq::<EventView>::empty(),
    decreases deltas.len(),
{
    if deltas.len() > 0 {
        let rest = deltas.drop_last();
        assert forall|i: int| 0 <= i < rest.len() implies rest[i].delta_type != DeltaType::Add by {
            assert(rest[i] == deltas[i]);
        }
        lemma_no_additions(rest, replacements);
        assert(deltas.last().delta_type != DeltaType::Add);
        assert(added_events(deltas, replacements) =~= Seq::<EventView>::empty());
    }
}

proof fn lemma_last_target_in_range(deltas: Seq<OverlayDelta>, key: Seq<char>)
    ensures
        last_target(deltas, key) matches Some(i) ==> 0 <= i < deltas.len() && targets(
            deltas[i],
            key,
        ),
    decreases deltas.len(),
{
    if deltas.len() > 0 && !targets(deltas.last(), key) {
        lemma_last_target_in_range(deltas.drop_last(), key);
    }
}

proof fn lemma_deletes_filter_rewrite(
    events: Seq<EventView>,
    deltas: Seq<OverlayDelta>,
    replacements: Seq<Option<EventView>>,
)
    requires
        forall|i: int| 0 <= i < deltas.len() ==> deltas[i].delta_type == DeltaType::Delete,
    ensures
        rewrite_events(events, deltas, replacements) == events.filter(
            |e: EventView| last_target(deltas, match_key_text(e)) is None,
        ),
    decreases events.len(),
{
    reveal(Seq::filter);
    let pred = |e: EventView| last_target(deltas, match_key_text(e)) is None;
    if events.len() > 0 {
        lemma_deletes_filter_rewrite(events.drop_last(), deltas, replacements);
        let e = events.last();
        lemma_last_target_in_range(deltas, match_key_text(e));
        if pred(e) {
            assert(rewrite_event(e, deltas, replacements) =~= seq![e]);
        } else {
            assert(rewrite_event(e, deltas, replacements) =~= Seq::<EventView>::empty());
        }
        assert(rewrite_events(events, deltas, replacements) =~= events.filter(pred));
    } else {
        assert(events.filter(pred) =~= events);
    }
}

/// The last delete or modify delta on a match key decides what becomes of
/// the events with that key, whatever deltas came before it.
pub proof fn lemma_last_delta_decides(
    e: EventView,
    earlier: Seq<OverlayDelta>,
    last: OverlayDelta,
    replacements: Seq<Option<EventView>>,
)
    requires
        targets(last, match_key_text(e)),
    ensures
        rewrite_event(e, earlier.push(last), replacements) == (if last.delta_type
            == DeltaType::Modify {
            match replacements[earlier.len() as int] {
                Some(n) => seq![n],
                None => seq![],
            }
        } else {
            Seq::<EventView>::empty()
        }),
{
    assert(earlier.push(last).last() == last);
    assert(earlier.push(last)[earlier.len() as int] == last);
}

/// Merging never makes a calendar longer than its events and its deltas
/// together.
pub proof fn lemma_merge_length_bound(
    events: Seq<EventView>,
    deltas: Seq<OverlayDelta>,
    replacements: Seq<Option<EventView>>,
)
    ensures
        rewrite_events(events, deltas, replacements).len() <= events.len(),
        added_events(deltas, replacements).len() <= deltas.len(),
        merged_events(events, deltas, replacements).len() <= events.len() + deltas.len(),
    decreases events.len() + deltas.len(),
{
    if events.len() > 0 {
        lemma_merge_length_bound(events.drop_last(), seq![], replacements);
        lemma_merge_length_bound(events.drop_last(), deltas, replacements);
    }
    if deltas.len() > 0 {
        lemma_merge_length_bound(seq![], deltas.drop_last(), replacements);
    }
}

/// Every event of a merged calendar is one of the calendar's own events or
/// the event that one of the deltas carries.
pub proof fn lemma_merge_introduces_nothing_else(
    events: Seq<EventView>,
    deltas: Seq<OverlayDelta>,
    replacements: Seq<Option<EventView>>,
    j: int,
)
    requires
        replacements.len() == deltas.len(),
        0 <= j < merged_events(events, deltas, replacements).len(),
    ensures
        events.contains(merged_events(events, deltas, replacements)[j]) || exists|i: int|
            0 <= i < replacements.len() && replacements[i] == Some(
                merged_events(events, deltas, replacements)[j],
            ),
{
    let x = merged_events(events, deltas, replacements)[j];
    let kept = rewrite_events(events, deltas, replacements);
    if j < kept.len() {
        lemma_rewrite_origin(events, deltas, replacements, j);
    } else {
        lemma_added_origin(deltas, replacements, j - kept.len());
    }
}

proof fn lemma_rewrite_origin(
    events: Seq<EventView>,
    deltas: Seq<OverlayDelta>,
    replacements: Seq<Option<EventView>>,
    j: int,
)
    requires
        replacements.len() == deltas.len(),
        0 <= j < rewrite_events(events, deltas, replacements).len(),
    ensures
        events.contains(rewrite_events(events, deltas, replacements)[j]) || exists|i: int|
            0 <= i < replacements.len() && replacements[i] == Some(
                rewrite_events(events, deltas, replacements)[j],
            ),
    decreases events.len(),
{
    let x = rewrite_events(events, deltas, replacements)[j];
    if events.len() > 0 {
        let rest = events.drop_last();
        let front = rewrite_events(rest, deltas, replacements);
        let e = events.last();
        if j < front.len() {
            lemma_rewrite_origin(rest, deltas, replacements, j);
            if rest.contains(x) {
                let k = choose|k: int| 0 <= k < rest.len() && rest[k] == x;
                assert(events[k] == x);
            }
        } else {
            lemma_last_target_in_range(deltas, match_key_text(e));
            match last_target(deltas, match_key_text(e)) {
                None => {
                    assert(events[events.len() - 1] == x);
                },
                Some(i) => {
                    assert(replacements[i] == Some(x));
                },
            }
        }
    }
}

proof fn lemma_added_origin(
    deltas: Seq<OverlayDelta>,
    replacements: Seq<Option<EventView>>,
    j: int,
)
    requires
        deltas.len() <= replacements.len(),
        0 <= j < added_events(deltas, replacements).len(),
    ensures
        exists|i: int|
            0 <= i < replacements.len() && replacements[i] == Some(
                added_events(deltas, replacements)[j],
            ),
    decreases deltas.len(),
{
    let x = added_events(deltas, replacements)[j];
    if deltas.len() > 0 {
        let front = added_events(deltas.drop_last(), replacements);
        if j < front.len() {
            lemma_added_origin(deltas.drop_last(), replacements, j);
        } else {
            assert(replacements[deltas.len() - 1] == Some(x));
        }
    }
}

/// Where every delta is an add, the merged calendar is the calendar's own
/// events, unchanged, followed by the events that the deltas carry.
pub proof fn lemma_adds_append(
    events: Seq<EventView>,
    deltas: Seq<OverlayDelta>,
    replacements: Seq<Option<EventView>>,
)
    requires
        forall|i: int| 0 <= i < deltas.len() ==> deltas[i].delta_type == DeltaType::Add,
    ensures
        merged_events(events, deltas, replacements) == events + added_events(
            deltas,
            replacements,
        ),
{
    assert forall|i: int| 0 <= i < events.len() implies last_target(
        deltas,
        match_key_text(events[i]),
    ) is None by {
        lemma_last_target_in_range(deltas, match_key_text(events[i]));
    }
    lemma_untargeted_events_kept(events, deltas, replacements);
}

/// On valid events of the years 0 through 9999, two match keys are equal
/// exactly when the dates, the hours and minutes of both times, and the
/// titles are: a `|` in a title cannot make two different events clash.
pub proof fn lemma_match_key_identifies_event(a: EventView, b: EventView)
    requires
        a.is_valid(),
        b.is_valid(),
        0 <= a.date.year <= 9999,
        0 <= b.date.year <= 9999,
    ensures
        match_key_text(a) == match_key_text(b) <==> {
            &&& a.date == b.date
            &&& a.start.hour == b.start.hour
            &&& a.start.minute == b.start.minute
            &&& a.end.hour == b.end.hour
            &&& a.end.minute == b.end.minute
            &&& a.title == b.title
        },
{
    if match_key_text(a) == match_key_text(b) {
        lemma_date_text_len(a.date);
        lemma_date_text_len(b.date);
        lemma_hour_minute_text_len(a.start);
        lemma_hour_minute_text_len(b.start);
        lemma_hour_minute_text_len(a.end);
        lemma_hour_minute_text_len(b.end);
        let da = date_text(a.date);
        let db = date_text(b.date);
        let sa = hour_minute_text(a.start);
        let sb = hour_minute_text(b.start);
        let ea = hour_minute_text(a.end);
        let eb = hour_minute_text(b.end);
        let bar = seq!['|'];
        let dash = seq!['-'];
        lemma_concat_split(da + bar + sa + dash + ea + bar, a.title, db + bar + sb + dash + eb + bar, b.title);
        lemma_concat_split(da + bar + sa + dash + ea, bar, db + bar + sb + dash + eb, bar);
        lemma_concat_split(da + bar + sa + dash, ea, db + bar + sb + dash, eb);
        lemma_concat_split(da + bar + sa, dash, db + bar + sb, dash);
        lemma_concat_split(da + bar, sa, db + bar, sb);
        lemma_concat_split(da, bar, db, bar);
        lemma_date_text_injective(a.date, b.date);
        lemma_hour_minute_text_injective(a.start, b.start);
        lemma_hour_minute_text_injective(a.end, b.end);
    }
}

/// `a` is `b` or `b` with its title marked with `tag`.
pub open spec fn retitled(a: EventView, b: EventView, tag: Option<Seq<char>>) -> bool {
    a == b || a == with_tag(b, tag)
}

/// Position by position, the events of `a` are those of `b`, some of them
/// with their titles marked with `tag`.
pub open spec fn retitled_all(a: Seq<EventView>, b: Seq<EventView>, tag: Option<Seq<char>>) -> bool {
    &&& a.len() == b.len()
    &&& forall|i: int| 0 <= i < a.len() ==> retitled(#[trigger] a[i], b[i], tag)
}

/// Position by position, the replacements `ra` are those of `rb` with their
/// titles marked with `tag`.
pub open spec fn tagged_replacements(
    ra: Seq<Option<EventView>>,
    rb: Seq<Option<EventView>>,
    tag: Option<Seq<char>>,
) -> bool {
    &&& ra.len() == rb.len()
    &&& forall|i: int|
        0 <= i < ra.len() ==> match (#[trigger] ra[i], rb[i]) {
            (Some(x), Some(y)) => x == with_tag(y, tag),
            (None, None) => true,
            _ => false,
        }
}

proof fn lemma_retitled_concat(
    a1: Seq<EventView>,
    b1: Seq<EventView>,
    a2: Seq<EventView>,
    b2: Seq<EventView>,
    tag: Option<Seq<char>>,
)
    requires
        retitled_all(a1, b1, tag),
        retitled_all(a2, b2, tag),
    ensures
        retitled_all(a1 + a2, b1 + b2, tag),
{
    assert forall|i: int| 0 <= i < (a1 + a2).len() implies retitled(
        #[trigger] (a1 + a2)[i],
        (b1 + b2)[i],
        tag,
    ) by {
        if i < a1.len() {
            assert(retitled(a1[i], b1[i], tag));
        } else {
            assert(retitled(a2[i - a1.len()], b2[i - a1.len()], tag));
        }
    }
}

proof fn lemma_retitled_rewrite(
    events: Seq<EventView>,
    deltas: Seq<OverlayDelta>,
    ra: Seq<Option<EventView>>,
    rb: Seq<Option<EventView>>,
    tag: Option<Seq<char>>,
)
    requires
        tagged_replacements(ra, rb, tag),
        ra.len() == deltas.len(),
    ensures
        retitled_all(rewrite_events(events, deltas, ra), rewrite_events(events, deltas, rb), tag),
    decreases events.len(),
{
    if events.len() == 0 {
        assert(retitled_all(seq![], seq![], tag));
    } else {
        lemma_retitled_rewrite(events.drop_last(), deltas, ra, rb, tag);
        let e = events.last();
        lemma_last_target_in_range(deltas, match_key_text(e));
        let xa = rewrite_event(e, deltas, ra);
        let xb = rewrite_event(e, deltas, rb);
        match last_target(deltas, match_key_text(e)) {
            None => {
                assert(retitled(xa[0], xb[0], tag));
            },
            Some(i) => {
                let pair = (ra[i], rb[i]);
                if deltas[i].delta_type == DeltaType::Modify {
                    match pair {
                        (Some(x), Some(y)) => {
                            assert(retitled(xa[0], xb[0], tag));
                        },
                        _ => {},
                    }
                }
            },
        }
        assert(retitled_all(xa, xb, tag));
        lemma_retitled_concat(
            rewrite_events(events.drop_last(), deltas, ra),
            rewrite_events(events.drop_last(), deltas, rb),
            xa,
            xb,
            tag,
        );
    }
}

proof fn lemma_retitled_added(
    deltas: Seq<OverlayDelta>,
    ra: Seq<Option<EventView>>,
    rb: Seq<Option<EventView>>,
    tag: Option<Seq<char>>,
)
    requires
        tagged_replacements(ra, rb, tag),
        deltas.len() <= ra.len(),
    ensures
        retitled_all(added_events(deltas, ra), added_events(deltas, rb), tag),
    decreases deltas.len(),
{
    if deltas.len() == 0 {
        assert(retitled_all(seq![], seq![], tag));
    } else {
        lemma_retitled_added(deltas.drop_last(), ra, rb, tag);
        let k = deltas.len() - 1;
        let xa = if deltas.last().delta_type == DeltaType::Add {
            match ra[k] {
                Some(n) => seq![n],
                None => seq![],
            }
        } else {
            seq![]
        };
        let xb = if deltas.last().delta_type == DeltaType::Add {
            match rb[k] {
                Some(n) => seq![n],
                None => seq![],
            }
        } else {
            seq![]
        };
        let pair = (ra[k], rb[k]);
        match pair {
            (Some(x), Some(y)) => {
                if deltas.last().delta_type == DeltaType::Add {
                    assert(retitled(xa[0], xb[0], tag));
                }
            },
            _ => {},
        }
        assert(retitled_all(xa, xb, tag));
        lemma_retitled_concat(
            added_events(deltas.drop_last(), ra),
            added_events(deltas.drop_last(), rb),
            xa,
            xb,
            tag,
        );
    }
}

/// The tag only retitles: merging with a tag gives, position by position,
/// the events that merging without it gives, where those built from deltas
/// have their titles marked `[<tag>] ` and the calendar's own events are
/// unchanged.
pub proof fn lemma_tag_only_retitles(
    events: Seq<EventView>,
    deltas: Seq<OverlayDelta>,
    overlays: Seq<Option<OverlayEvent>>,
    tag: Seq<char>,
)
    requires
        overlays.len() == deltas.len(),
    ensures
        retitled_all(
            merged_events(events, deltas, replacement_views(overlays, Some(tag))),
            merged_events(events, deltas, replacement_views(overlays, None)),
            Some(tag),
        ),
{
    let ra = replacement_views(overlays, Some(tag));
    let rb = replacement_views(overlays, None);
    assert forall|i: int| 0 <= i < ra.len() implies match (#[trigger] ra[i], rb[i]) {
        (Some(x), Some(y)) => x == with_tag(y, Some(tag)),
        (None, None) => true,
        _ => false,
    } by {
        match overlays[i] {
            Some(o) => match overlay_event_view(o) {
                Some(e) => {
                    assert(with_tag(with_tag(e, None), Some(tag)) == with_tag(e, Some(tag)));
                },
                None => {},
            },
            None => {},
        }
    }
    lemma_retitled_rewrite(events, deltas, ra, rb, Some(tag));
    lemma_retitled_added(deltas, ra, rb, Some(tag));
    lemma_retitled_concat(
        rewrite_events(events, deltas, ra),
        rewrite_events(events, deltas, rb),
        added_events(deltas, ra),
        added_events(deltas, rb),
        Some(tag),
    );
}

/// Two deltas act alike: they are of the same kind and, unless they add,
/// carry the same match key.
pub open spec fn acts_alike(a: OverlayDelta, b: OverlayDelta) -> bool {
    &&& a.delta_type == b.delta_type
    &&& a.delta_type != DeltaType::Add ==> crate::calendar::text_view(a.match_key)
        == crate::calendar::text_view(b.match_key)
}

/// A delete or modify delta without a match key.
pub open spec fn keyless(d: OverlayDelta) -> bool {
    d.delta_type != DeltaType::Add && d.match_key is None
}

proof fn lemma_alike_last_target(d1: Seq<OverlayDelta>, d2: Seq<OverlayDelta>, key: Seq<char>)
    requires
        d1.len() == d2.len(),
        forall|i: int| 0 <= i < d1.len() ==> acts_alike(#[trigger] d1[i], d2[i]),
    ensures
        last_target(d1, key) == last_target(d2, key),
    decreases d1.len(),
{
    if d1.len() > 0 {
        assert(acts_alike(d1[d1.len() - 1], d2[d2.len() - 1]));
        assert(targets(d1.last(), key) == targets(d2.last(), key));
        assert forall|i: int| 0 <= i < d1.drop_last().len() implies acts_alike(
            #[trigger] d1.drop_last()[i],
            d2.drop_last()[i],
        ) by {
            assert(acts_alike(d1[i], d2[i]));
        }
        lemma_alike_last_target(d1.drop_last(), d2.drop_last(), key);
    }
}

proof fn lemma_alike_added(
    d1: Seq<OverlayDelta>,
    d2: Seq<OverlayDelta>,
    replacements: Seq<Option<EventView>>,
)
    requires
        d1.len() == d2.len(),
        forall|i: int| 0 <= i < d1.len() ==> acts_alike(#[trigger] d1[i], d2[i]),
    ensures
        added_events(d1, replacements) == added_events(d2, replacements),
    decreases d1.len(),
{
    if d1.len() > 0 {
        assert(acts_alike(d1[d1.len() - 1], d2[d2.len() - 1]));
        assert forall|i: int| 0 <= i < d1.drop_last().len() implies acts_alike(
            #[trigger] d1.drop_last()[i],
            d2.drop_last()[i],
        ) by {
            assert(acts_alike(d1[i], d2[i]));
        }
        lemma_alike_added(d1.drop_last(), d2.drop_last(), replacements);
    }
}

proof fn lemma_alike_rewrite(
    events: Seq<EventView>,
    d1: Seq<OverlayDelta>,
    d2: Seq<OverlayDelta>,
    replacements: Seq<Option<EventView>>,
)
    requires
        d1.len() == d2.len(),
        forall|i: int| 0 <= i < d1.len() ==> acts_alike(#[trigger] d1[i], d2[i]),
    ensures
        rewrite_events(events, d1, replacements) == rewrite_events(events, d2, replacements),
    decreases events.len(),
{
    if events.len() > 0 {
        lemma_alike_rewrite(events.drop_last(), d1, d2, replacements);
        let key = match_key_text(events.last());
        lemma_alike_last_target(d1, d2, key);
        lemma_last_target_in_range(d1, key);
        if let Some(i) = last_target(d1, key) {
            assert(acts_alike(d1[i], d2[i]));
        }
    }
}

/// Only the kind of each delta and, for deletes and modifies, its match key
/// matter: deltas that act alike position by position give the same merge.
/// In particular the match key of an add delta has no effect.
pub proof fn lemma_only_kinds_and_keys_matter(
    events: Seq<EventView>,
    d1: Seq<OverlayDelta>,
    d2: Seq<OverlayDelta>,
    replacements: Seq<Option<EventView>>,
)
    requires
        d1.len() == d2.len(),
        forall|i: int| 0 <= i < d1.len() ==> acts_alike(#[trigger] d1[i], d2[i]),
    ensures
        merged_events(events, d1, replacements) == merged_events(events, d2, replacements),
{
    lemma_alike_rewrite(events, d1, d2, replacements);
    lemma_alike_added(d1, d2, replacements);
}

proof fn lemma_insert_last_target(deltas: Seq<OverlayDelta>, k: int, d: OverlayDelta, key: Seq<char>)
    requires
        0 <= k <= deltas.len(),
        keyless(d),
    ensures
        last_target(deltas.insert(k, d), key) == match last_target(deltas, key) {
            None => None,
            Some(i) => Some(if i < k { i } else { i + 1 }),
        },
    decreases deltas.len(),
{
    lemma_last_target_in_range(deltas, key);
    let d2 = deltas.insert(k, d);
    if k == deltas.len() {
        assert(d2.drop_last() =~= deltas);
        assert(d2.last() == d);
    } else {
        assert(d2.drop_last() =~= deltas.drop_last().insert(k, d));
        assert(d2.last() == deltas.last());
        if !targets(deltas.last(), key) {
            lemma_insert_last_target(deltas.drop_last(), k, d, key);
        }
    }
}

proof fn lemma_added_prefix(
    deltas: Seq<OverlayDelta>,
    r1: Seq<Option<EventView>>,
    r2: Seq<Option<EventView>>,
)
    requires
        deltas.len() <= r1.len(),
        deltas.len() <= r2.len(),
        forall|j: int| 0 <= j < deltas.len() ==> #[trigger] r1[j] == r2[j],
    ensures
        added_events(deltas, r1) == added_events(deltas, r2),
    decreases deltas.len(),
{
    if deltas.len() > 0 {
        assert(r1[deltas.len() - 1] == r2[deltas.len() - 1]);
        lemma_added_prefix(deltas.drop_last(), r1, r2);
    }
}

proof fn lemma_insert_added(
    deltas: Seq<OverlayDelta>,
    replacements: Seq<Option<EventView>>,
    k: int,
    d: OverlayDelta,
    r: Option<EventView>,
)
    requires
        0 <= k <= deltas.len(),
        deltas.len() <= replacements.len(),
        keyless(d),
    ensures
        added_events(deltas.insert(k, d), replacements.insert(k, r)) == added_events(
            deltas,
            replacements,
        ),
    decreases deltas.len(),
{
    let d2 = deltas.insert(k, d);
    let r2 = replacements.insert(k, r);
    if k == deltas.len() {
        assert(d2.drop_last() =~= deltas);
        assert(d2.last() == d);
        assert forall|j: int| 0 <= j < deltas.len() implies #[trigger] replacements[j] == r2[j] by {}
        lemma_added_prefix(deltas, replacements, r2);
    } else {
        assert(d2.drop_last() =~= deltas.drop_last().insert(k, d));
        assert(d2.last() == deltas.last());
        assert(r2[d2.len() - 1] == replacements[deltas.len() - 1]);
        lemma_insert_added(deltas.drop_last(), replacements, k, d, r);
    }
}

proof fn lemma_insert_rewrite(
    events: Seq<EventView>,
    deltas: Seq<OverlayDelta>,
    replacements: Seq<Option<EventView>>,
    k: int,
    d: OverlayDelta,
    r: Option<EventView>,
)
    requires
        0 <= k <= deltas.len(),
        deltas.len() == replacements.len(),
        keyless(d),
    ensures
        rewrite_events(events, deltas.insert(k, d), replacements.insert(k, r)) == rewrite_events(
            events,
            deltas,
            replacements,
        ),
    decreases events.len(),
{
    if events.len() > 0 {
        lemma_insert_rewrite(events.drop_last(), deltas, replacements, k, d, r);
        let key = match_key_text(events.last());
        lemma_insert_last_target(deltas, k, d, key);
        lemma_last_target_in_range(deltas, key);
        if let Some(i) = last_target(deltas, key) {
            let j = if i < k { i } else { i + 1 };
            assert(deltas.insert(k, d)[j] == deltas[i]);
            assert(replacements.insert(k, r)[j] == replacements[i]);
        }
    }
}

/// A delete or modify delta without a match key has no effect, wherever it
/// stands among the deltas and whatever event it carries.
pub proof fn lemma_keyless_delta_ignored(
    events: Seq<EventView>,
    deltas: Seq<OverlayDelta>,
    overlays: Seq<Option<OverlayEvent>>,
    tag: Option<Seq<char>>,
    k: int,
    d: OverlayDelta,
    overlay: Option<OverlayEvent>,
)
    requires
        overlays.len() == deltas.len(),
        0 <= k <= deltas.len(),
        keyless(d),
    ensures
        merged_events(
            events,
            deltas.insert(k, d),
            replacement_views(overlays.insert(k, overlay), tag),
        ) == merged_events(events, deltas, replacement_views(overlays, tag)),
{
    let reps = replacement_views(overlays, tag);
    assert(replacement_views(overlays.insert(k, overlay), tag) =~= reps.insert(
        k,
        replacement_view(overlay, tag),
    ));
    lemma_insert_rewrite(events, deltas, reps, k, d, replacement_view(overlay, tag));
    lemma_insert_added(deltas, reps, k, d, replacement_view(overlay, tag));
}

proof fn lemma_last_target_exact(deltas: Seq<OverlayDelta>, key: Seq<char>)
    ensures
        last_target(deltas, key) is None <==> forall|i: int|
            0 <= i < deltas.len() ==> !targets(#[trigger] deltas[i], key),
        last_target(deltas, key) matches Some(j) ==> {
            &&& 0 <= j < deltas.len()
            &&& targets(deltas[j], key)
            &&& forall|i: int| j < i < deltas.len() ==> !targets(#[trigger] deltas[i], key)
        },
    decreases deltas.len(),
{
    if deltas.len() > 0 {
        let rest = deltas.drop_last();
        lemma_last_target_exact(rest, key);
        if !targets(deltas.last(), key) {
            if last_target(rest, key) is None {
                assert forall|i: int| 0 <= i < deltas.len() implies !targets(
                    #[trigger] deltas[i],
                    key,
                ) by {
                    if i < rest.len() {
                        assert(rest[i] == deltas[i]);
                    }
                }
            } else {
                let j = last_target(rest, key)->0;
                assert(rest[j] == deltas[j]);
                assert forall|i: int| j < i < deltas.len() implies !targets(
                    #[trigger] deltas[i],
                    key,
                ) by {
                    if i < rest.len() {
                        assert(rest[i] == deltas[i]);
                    }
                }
            }
        } else {
            assert(targets(deltas[deltas.len() - 1], key));
        }
    }
}

proof fn lemma_rewrite_single(
    e: EventView,
    deltas: Seq<OverlayDelta>,
    replacements: Seq<Option<EventView>>,
)
    ensures
        rewrite_events(seq![e], deltas, replacements) == rewrite_event(e, deltas, replacements),
{
    let s = seq![e];
    assert(s.drop_last() =~= Seq::<EventView>::empty());
    assert(s.last() == e);
    assert(rewrite_events(s.drop_last(), deltas, replacements) == Seq::<EventView>::empty());
    assert(rewrite_events(s, deltas, replacements) =~= rewrite_event(e, deltas, replacements));
}

/// An event that no delete or modify delta carries the match key of stays
/// as it is, whatever deltas carry other keys.
pub proof fn lemma_event_without_delta_kept(
    e: EventView,
    deltas: Seq<OverlayDelta>,
    replacements: Seq<Option<EventView>>,
)
    requires
        forall|i: int|
            0 <= i < deltas.len() ==> !(#[trigger] deltas[i].delta_type != DeltaType::Add && (
            deltas[i].match_key matches Some(k) && k@ == match_key_text(e))),
    ensures
        rewrite_events(seq![e], deltas, replacements) == seq![e],
{
    lemma_last_target_exact(deltas, match_key_text(e));
    assert forall|i: int| 0 <= i < deltas.len() implies !targets(
        #[trigger] deltas[i],
        match_key_text(e),
    ) by {
        assert(!(deltas[i].delta_type != DeltaType::Add && (deltas[i].match_key matches Some(k)
            && k@ == match_key_text(e))));
    }
    lemma_rewrite_single(e, deltas, replacements);
    assert(rewrite_events(seq![e], deltas, replacements) =~= seq![e]);
}

/// Where delta `j` is the last delete or modify delta that carries an
/// event's match key, it alone decides what becomes of the event, whatever
/// deltas carry other keys before or after it: a delete drops the event, a
/// modify puts the delta's event in its place (or drops it where the delta
/// has no readable event).
pub proof fn lemma_last_delta_on_key_decides(
    e: EventView,
    deltas: Seq<OverlayDelta>,
    replacements: Seq<Option<EventView>>,
    j: int,
)
    requires
        0 <= j < deltas.len(),
        replacements.len() == deltas.len(),
        deltas[j].delta_type != DeltaType::Add,
        deltas[j].match_key matches Some(k) && k@ == match_key_text(e),
        forall|i: int|
            j < i < deltas.len() ==> !(#[trigger] deltas[i].delta_type != DeltaType::Add && (
            deltas[i].match_key matches Some(k) && k@ == match_key_text(e))),
    ensures
        rewrite_events(seq![e], deltas, replacements) == (if deltas[j].delta_type
            == DeltaType::Modify {
            match replacements[j] {
                Some(n) => seq![n],
                None => Seq::<EventView>::empty(),
            }
        } else {
            Seq::<EventView>::empty()
        }),
{
    let key = match_key_text(e);
    lemma_last_target_exact(deltas, key);
    assert(targets(deltas[j], key));
    assert forall|i: int| j < i < deltas.len() implies !targets(#[trigger] deltas[i], key) by {
        assert(!(deltas[i].delta_type != DeltaType::Add && (deltas[i].match_key matches Some(k)
            && k@ == key)));
    }
    match last_target(deltas, key) {
        None => {
            assert(!targets(deltas[j], key));
        },
        Some(m) => {
            if m < j {
                assert(!targets(deltas[j], key));
            }
            if m > j {
                assert(!targets(deltas[m], key));
            }
            assert(m == j);
        },
    }
    lemma_rewrite_single(e, deltas, replacements);
}

/// Where every delta is a delete, the merged calendar holds, in their order,
/// exactly the events whose match key no delta carries.
pub proof fn lemma_deletes_drop_exactly_their_keys(
    events: Seq<EventView>,
    deltas: Seq<OverlayDelta>,
    replacements: Seq<Option<EventView>>,
)
    requires
        forall|i: int| 0 <= i < deltas.len() ==> #[trigger] deltas[i].delta_type == DeltaType::Delete,
    ensures
        merged_events(events, deltas, replacements) == events.filter(
            |e: EventView|
                !exists|i: int|
                    0 <= i < deltas.len() && (#[trigger] deltas[i].match_key matches Some(k) && k@
                        == match_key_text(e)),
        ),
{
    lemma_deletes_filter(events, deltas, replacements);
    let p1 = |e: EventView| last_target(deltas, match_key_text(e)) is None;
    let p2 = |e: EventView|
        !exists|i: int|
            0 <= i < deltas.len() && (#[trigger] deltas[i].match_key matches Some(k) && k@
                == match_key_text(e));
    assert forall|e: EventView| #[trigger] p1(e) == p2(e) by {
        let key = match_key_text(e);
        lemma_last_target_exact(deltas, key);
        if p1(e) {
            if !p2(e) {
                let i = choose|i: int|
                    0 <= i < deltas.len() && (#[trigger] deltas[i].match_key matches Some(k) && k@
                        == key);
                assert(targets(deltas[i], key));
            }
        } else {
            let j = last_target(deltas, key)->0;
            assert(targets(deltas[j], key));
            assert(0 <= j < deltas.len() && (deltas[j].match_key matches Some(k) && k@ == key));
        }
    }
    assert(p1 =~= p2);
}

/// Tagging changes only the title, which becomes `[<tag>] <title>`.
pub proof fn lemma_tag_changes_only_title(e: EventView, tag: Option<Seq<char>>)
    ensures
        with_tag(e, tag).date == e.date,
        with_tag(e, tag).start == e.start,
        with_tag(e, tag).end == e.end,
        with_tag(e, tag).location == e.location,
        with_tag(e, tag).organizer == e.organizer,
        with_tag(e, tag).description == e.description,
        with_tag(e, tag).title == match tag {
            Some(t) => seq!['['] + t + seq![']', ' '] + e.title,
            None => e.title,
        },
{
}

/// Merging with a tag and without one gives, position by position, events
/// that differ at most in their titles, each either unchanged or prefixed
/// with `[<tag>] `.
pub proof fn lemma_tag_changes_only_titles(
    events: Seq<EventView>,
    deltas: Seq<OverlayDelta>,
    overlays: Seq<Option<OverlayEvent>>,
    tag: Seq<char>,
)
    requires
        overlays.len() == deltas.len(),
    ensures
        merged_events(events, deltas, replacement_views(overlays, Some(tag))).len()
            == merged_events(events, deltas, replacement_views(overlays, None)).len(),
        forall|i: int|
            0 <= i < merged_events(events, deltas, replacement_views(overlays, None)).len() ==> {
                let a = merged_events(events, deltas, replacement_views(overlays, Some(tag)))[i];
                let b = #[trigger] merged_events(events, deltas, replacement_views(overlays, None))[i];
                &&& a.date == b.date
                &&& a.start == b.start
                &&& a.end == b.end
                &&& a.location == b.location
                &&& a.organizer == b.organizer
                &&& a.description == b.description
                &&& (a.title == b.title || a.title == seq!['['] + tag + seq![']', ' '] + b.title)
            },
{
    lemma_tag_only_retitles(events, deltas, overlays, tag);
    let ma = merged_events(events, deltas, replacement_views(overlays, Some(tag)));
    let mb = merged_events(events, deltas, replacement_views(overlays, None));
    assert forall|i: int| 0 <= i < mb.len() implies {
        let a = ma[i];
        let b = #[trigger] mb[i];
        &&& a.date == b.date
        &&& a.start == b.start
        &&& a.end == b.end
        &&& a.location == b.location
        &&& a.organizer == b.organizer
        &&& a.description == b.description
        &&& (a.title == b.title || a.title == seq!['['] + tag + seq![']', ' '] + b.title)
    } by {
        assert(retitled(ma[i], mb[i], Some(tag)));
        lemma_tag_changes_only_title(mb[i], Some(tag));
    }
}

/// The event read from an overlay carries the overlay's own title, location,
/// organizer and description, and the date and times as they were read; it
/// is there exactly when the date and both times could be read.
pub proof fn lemma_overlay_event_carries_texts(
    overlay: OverlayEvent,
    date: Option<(i32, u32, u32)>,
    start: Option<(u32, u32, u32)>,
    end: Option<(u32, u32, u32)>,
)
    ensures
        event_from_parts(overlay, date, start, end) is Some <==> (date is Some && start is Some
            && end is Some),
        event_from_parts(overlay, date, start, end) matches Some(e) ==> {
            &&& e.title == overlay.title@
            &&& e.location == crate::calendar::text_view(overlay.location)
            &&& e.organizer == crate::calendar::text_view(overlay.organizer)
            &&& e.description == crate::calendar::text_view(overlay.description)
            &&& date == Some((e.date.year, e.date.month, e.date.day))
            &&& start == Some((e.start.hour, e.start.minute, e.start.second))
            &&& end == Some((e.end.hour, e.end.minute, e.end.second))
        },
{
}

}

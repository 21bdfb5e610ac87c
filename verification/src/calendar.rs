//! The calendar model: dates, times of day, events and named calendars, with
//! the text that `%Y-%m-%d` and `%H:%M` give of a date and a time.

use vstd::prelude::*;

use crate::text::{
    lemma_concat_split, lemma_padded_injective, lemma_padded_len, padded, pow10, push_char,
    push_padded,
};

verus! {

/// The earliest year a calendar date can have.
pub const MIN_YEAR: i32 = -262143;

/// The latest year a calendar date can have.
pub const MAX_YEAR: i32 = 262142;

/// A day of the proleptic Gregorian calendar.
#[derive(Clone, Copy, Debug, PartialEq, Eq, Structural)]
pub struct Date {
    pub year: i32,
    pub month: u32,
    pub day: u32,
}

/// A time of day, to the second.
#[derive(Clone, Copy, Debug, PartialEq, Eq, Structural)]
pub struct Time {
    pub hour: u32,
    pub minute: u32,
    pub second: u32,
}

/// One entry of a class schedule.
#[derive(Debug, PartialEq, Eq)]
pub struct Event {
    pub date: Date,
    pub start: Time,
    pub end: Time,
    pub title: String,
    pub location: Option<String>,
    pub organizer: Option<String>,
    pub description: Option<String>,
}

/// A named list of events.
#[derive(Debug, PartialEq, Eq)]
pub struct Calendar {
    pub name: String,
    pub events: Vec<Event>,
}

/// What an event says, with its texts as character sequences.
pub struct EventView {
    pub date: Date,
    pub start: Time,
    pub end: Time,
    pub title: Seq<char>,
    pub location: Option<Seq<char>>,
    pub organizer: Option<Seq<char>>,
    pub description: Option<Seq<char>>,
}

/// The characters of an optional text.
pub open spec fn text_view(t: Option<String>) -> Option<Seq<char>> {
    match t {
        Some(s) => Some(s@),
        None => None,
    }
}

impl View for Event {
    type V = EventView;

    open spec fn view(&self) -> EventView {
        EventView {
            date: self.date,
            start: self.start,
            end: self.end,
            title: self.title@,
            location: text_view(self.location),
            organizer: text_view(self.organizer),
            description: text_view(self.description),
        }
    }
}

/// The views of a sequence of events.
pub open spec fn event_views(events: Seq<Event>) -> Seq<EventView> {
    events.map_values(|e: Event| e@)
}

/// The view of an optional event.
pub open spec fn event_view_opt(e: Option<Event>) -> Option<EventView> {
    match e {
        Some(x) => Some(x@),
        None => None,
    }
}

pub open spec fn is_leap_year(y: int) -> bool {
    y % 4 == 0 && (y % 100 != 0 || y % 400 == 0)
}

pub open spec fn days_in_month(y: int, m: int) -> int {
    if m == 2 {
        if is_leap_year(y) {
            29
        } else {
            28
        }
    } else if m == 4 || m == 6 || m == 9 || m == 11 {
        30
    } else {
        31
    }
}

impl Date {
    /// The date exists in the calendar and lies in the supported range of years.
    pub open spec fn is_valid(self) -> bool {
        &&& MIN_YEAR <= self.year <= MAX_YEAR
        &&& 1 <= self.month <= 12
        &&& 1 <= self.day <= days_in_month(self.year as int, self.month as int)
    }
}

impl Time {
    /// Hours, minutes and seconds lie in their ranges.
    pub open spec fn is_valid(self) -> bool {
        self.hour < 24 && self.minute < 60 && self.second < 60
    }
}

impl Event {
    /// The event's date and both of its times are valid.
    pub open spec fn is_valid(self) -> bool {
        self.date.is_valid() && self.start.is_valid() && self.end.is_valid()
    }
}

impl EventView {
    /// The event's date and both of its times are valid.
    pub open spec fn is_valid(self) -> bool {
        self.date.is_valid() && self.start.is_valid() && self.end.is_valid()
    }
}

/// The text of a year under `%Y`: four digits or more, zero-padded, with a
/// sign outside the years 0 through 9999.
pub open spec fn year_text(y: int) -> Seq<char> {
    if 0 <= y <= 9999 {
        padded(y as nat, 4)
    } else if y > 0 {
        seq!['+'] + padded(y as nat, 4)
    } else {
        seq!['-'] + padded((-y) as nat, 4)
    }
}

/// The text of a date under `%Y-%m-%d`.
pub open spec fn date_text(d: Date) -> Seq<char> {
    year_text(d.year as int) + seq!['-'] + padded(d.month as nat, 2) + seq!['-'] + padded(
        d.day as nat,
        2,
    )
}

/// The text of a time under `%H:%M`.
pub open spec fn hour_minute_text(t: Time) -> Seq<char> {
    padded(t.hour as nat, 2) + seq![':'] + padded(t.minute as nat, 2)
}

/// Appends the `%Y-%m-%d` text of a date.
pub fn push_date_text(s: &mut String, d: &Date)
    ensures
        final(s)@ == old(s)@ + date_text(*d),
{
    let y = d.year;
    if 0 <= y && y <= 9999 {
        push_padded(s, y as u64, 4);
    } else if y > 0 {
        push_char(s, '+');
        push_padded(s, y as u64, 4);
    } else {
        push_char(s, '-');
        let m: i64 = -(y as i64);
        push_padded(s, m as u64, 4);
    }
    push_char(s, '-');
    push_padded(s, d.month as u64, 2);
    push_char(s, '-');
    push_padded(s, d.day as u64, 2);
    assert(s@ =~= old(s)@ + date_text(*d));
}

/// Appends the `%H:%M` text of a time.
pub fn push_hour_minute_text(s: &mut String, t: &Time)
    ensures
        final(s)@ == old(s)@ + hour_minute_text(*t),
{
    push_padded(s, t.hour as u64, 2);
    push_char(s, ':');
    push_padded(s, t.minute as u64, 2);
    assert(s@ =~= old(s)@ + hour_minute_text(*t));
}

/// The `%Y-%m-%d` text of a date.
pub fn format_date(d: &Date) -> (r: String)
    ensures
        r@ == date_text(*d),
{
    let mut s = String::new();
    push_date_text(&mut s, d);
    assert(s@ =~= date_text(*d));
    s
}

/// The `%H:%M` text of a time.
pub fn format_hour_minute(t: &Time) -> (r: String)
    ensures
        r@ == hour_minute_text(*t),
{
    let mut s = String::new();
    push_hour_minute_text(&mut s, t);
    assert(s@ =~= hour_minute_text(*t));
    s
}

/// A copy of an optional text.
pub fn copy_text(t: &Option<String>) -> (r: Option<String>)
    ensures
        r == *t,
{
    match t {
        Some(x) => Some(x.clone()),
        None => None,
    }
}

impl Event {
    /// A field-by-field copy of the event.
    pub fn duplicate(&self) -> (r: Event)
        ensures
            r == *self,
            r@ == self@,
    {
        Event {
            date: self.date,
            start: self.start,
            end: self.end,
            title: self.title.clone(),
            location: copy_text(&self.location),
            organizer: copy_text(&self.organizer),
            description: copy_text(&self.description),
        }
    }
}

proof fn lemma_two_digit_len(n: nat)
    requires
        n < 100,
    ensures
        padded(n, 2).len() == 2,
{
    assert(pow10(2) == 100) by {
        reveal_with_fuel(pow10, 3);
    }
    lemma_padded_len(n, 2);
}

/// The `%Y-%m-%d` text of a valid date of the years 0 through 9999 has ten
/// characters.
pub proof fn lemma_date_text_len(d: Date)
    requires
        d.is_valid(),
        0 <= d.year <= 9999,
    ensures
        date_text(d).len() == 10,
{
    assert(pow10(4) == 10000) by {
        reveal_with_fuel(pow10, 5);
    }
    lemma_padded_len(d.year as nat, 4);
    lemma_two_digit_len(d.month as nat);
    lemma_two_digit_len(d.day as nat);
}

/// The `%H:%M` text of a valid time has five characters.
pub proof fn lemma_hour_minute_text_len(t: Time)
    requires
        t.is_valid(),
    ensures
        hour_minute_text(t).len() == 5,
{
    lemma_two_digit_len(t.hour as nat);
    lemma_two_digit_len(t.minute as nat);
}

/// Valid dates of the years 0 through 9999 with equal `%Y-%m-%d` texts are
/// equal.
pub proof fn lemma_date_text_injective(a: Date, b: Date)
    requires
        a.is_valid(),
        b.is_valid(),
        0 <= a.year <= 9999,
        0 <= b.year <= 9999,
        date_text(a) == date_text(b),
    ensures
        a == b,
{
    assert(pow10(4) == 10000) by {
        reveal_with_fuel(pow10, 5);
    }
    lemma_padded_len(a.year as nat, 4);
    lemma_padded_len(b.year as nat, 4);
    lemma_two_digit_len(a.month as nat);
    lemma_two_digit_len(b.month as nat);
    lemma_two_digit_len(a.day as nat);
    lemma_two_digit_len(b.day as nat);
    let ya = padded(a.year as nat, 4);
    let yb = padded(b.year as nat, 4);
    let ma = padded(a.month as nat, 2);
    let mb = padded(b.month as nat, 2);
    let da = padded(a.day as nat, 2);
    let db = padded(b.day as nat, 2);
    lemma_concat_split(ya + seq!['-'] + ma + seq!['-'], da, yb + seq!['-'] + mb + seq!['-'], db);
    lemma_concat_split(ya + seq!['-'] + ma, seq!['-'], yb + seq!['-'] + mb, seq!['-']);
    lemma_concat_split(ya + seq!['-'], ma, yb + seq!['-'], mb);
    lemma_concat_split(ya, seq!['-'], yb, seq!['-']);
    lemma_padded_injective(a.year as nat, b.year as nat, 4);
    lemma_padded_injective(a.month as nat, b.month as nat, 2);
    lemma_padded_injective(a.day as nat, b.day as nat, 2);
}

/// Valid times with equal `%H:%M` texts have equal hours and minutes.
pub proof fn lemma_hour_minute_text_injective(a: Time, b: Time)
    requires
        a.is_valid(),
        b.is_valid(),
        hour_minute_text(a) == hour_minute_text(b),
    ensures
        a.hour == b.hour,
        a.minute == b.minute,
{
    lemma_two_digit_len(a.hour as nat);
    lemma_two_digit_len(b.hour as nat);
    let ha = padded(a.hour as nat, 2);
    let hb = padded(b.hour as nat, 2);
    lemma_concat_split(ha + seq![':'], padded(a.minute as nat, 2), hb + seq![':'], padded(b.minute as nat, 2));
    lemma_concat_split(ha, seq![':'], hb, seq![':']);
    lemma_padded_injective(a.hour as nat, b.hour as nat, 2);
    lemma_padded_injective(a.minute as nat, b.minute as nat, 2);
}

}

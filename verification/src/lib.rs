//! Calendar overlays for Rapla class schedules: the data model, the rules by
//! which stored deltas rewrite a fetched calendar, and the small pieces of
//! text that the HTTP layer produces (match keys, feed links, credentials).

pub mod text;
pub mod calendar;
pub mod db;
pub mod overlay;
pub mod api;
pub mod web;

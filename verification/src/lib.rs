//! Registration, contribution and bookkeeping rules of an event site: how many spots a
//! guest may still reserve, how RSVP forms are parsed and checked, how coupons are judged,
//! how webhook signatures are checked, and the small decisions that the web handlers make.
//!
//! Timestamps are plain `i64` microseconds since the Unix epoch (UTC).

pub mod app;
pub mod calendar;
pub mod clock;
pub mod cookies;
pub mod db;
pub mod text;

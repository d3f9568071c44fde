use vstd::prelude::*;

verus! {

/// A place on an event's waitlist. Timestamps are microseconds.
#[derive(Clone, Copy, Debug, PartialEq, Eq)]
pub struct Waitlist {
    pub id: i64,
    pub event_id: i64,
    pub user_id: i64,
    pub created_at: i64,
    pub notified_at: Option<i64>,
}

/// The fields of a new waitlist entry.
#[derive(Clone, Copy, Debug, PartialEq, Eq)]
pub struct CreateWaitlist {
    pub event_id: i64,
    pub user_id: i64,
}

} // verus!

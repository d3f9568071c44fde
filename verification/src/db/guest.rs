use vstd::prelude::*;

verus! {

/// A guest invited to an event. Timestamps are microseconds.
#[derive(Clone, Copy, Debug, PartialEq, Eq)]
pub struct Guest {
    pub id: i64,
    pub event_id: i64,
    pub inviter_id: i64,
    pub guest_id: i64,
    pub created_at: i64,
}

/// The fields of a new guest entry.
#[derive(Clone, Copy, Debug, PartialEq, Eq)]
pub struct CreateGuest {
    pub event_id: i64,
    pub inviter_id: i64,
    pub guest_id: i64,
}

} // verus!

use vstd::prelude::*;

verus! {

/// An attendee added by hand by an admin. Timestamps are microseconds.
#[derive(Clone, Debug)]
pub struct ManualRsvp {
    pub event_id: i64,
    pub user_id: i64,
    pub creator_user_id: i64,
    pub created_at: i64,
    pub updated_at: i64,
    pub checkin_at: Option<i64>,
    pub note: Option<String>,
}

} // verus!

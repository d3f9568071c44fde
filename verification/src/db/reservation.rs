use vstd::prelude::*;

verus! {

/// A row of the older `reservations` table. Timestamps are microseconds.
#[derive(Clone, Copy, Debug, PartialEq, Eq)]
pub struct Rsvp {
    pub id: i64,
    pub user_id: i64,
    pub event_id: i64,
    pub spot_id: i64,
    pub transaction_id: Option<i64>,
    pub created_at: i64,
    pub updated_at: i64,
    pub checkin_at: Option<i64>,
}

/// A reserved spot and its price, if any.
#[derive(Clone, Copy, Debug, PartialEq, Eq)]
pub struct EventRsvp {
    pub spot_id: i64,
    pub price: Option<i64>,
}

/// The editable fields of a reservation.
#[derive(Clone, Copy, Debug, PartialEq, Eq)]
pub struct UpdateRsvp {
    pub user_id: i64,
    pub event_id: i64,
    pub spot_id: i64,
    pub transaction_id: Option<i64>,
    pub checkin_at: Option<i64>,
}

} // verus!

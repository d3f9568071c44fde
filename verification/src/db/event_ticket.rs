use vstd::prelude::*;

verus! {

/// A ticket offered at an event, with its price and quantity there.
#[derive(Clone, Copy, Debug, PartialEq, Eq)]
pub struct EventTicket {
    pub event_id: i64,
    pub ticket_id: i64,
    pub price: i64,
    pub quantity: i64,
    pub sort: i64,
}

/// The editable fields of an event ticket.
#[derive(Clone, Copy, Debug, PartialEq, Eq)]
pub struct UpdateEventTicket {
    pub price: i64,
    pub quantity: i64,
    pub sort: i64,
}

} // verus!

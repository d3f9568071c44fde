use vstd::prelude::*;

verus! {

/// A kind of ticket. Timestamps are microseconds.
#[derive(Clone, Debug)]
pub struct Ticket {
    pub id: i64,
    pub name: String,
    pub description: String,
    pub qty_total: i64,
    pub qty_per_person: i64,
    pub kind: String,
    pub sort: i64,
    /// kind = 'fixed'
    pub price: Option<i64>,
    /// kind = 'variable'
    pub price_min: Option<i64>,
    pub price_max: Option<i64>,
    pub price_default: Option<i64>,
    /// kind = 'work'
    pub notice_hours: Option<i64>,
    pub created_at: i64,
    pub updated_at: Option<i64>,
}

/// A ticket as submitted by the ticket editor.
#[derive(Clone, Debug)]
pub struct UpdateTicket {
    pub id: Option<i64>,
    pub name: String,
    pub description: String,
    pub qty_total: i64,
    pub qty_per_person: i64,
    pub kind: String,
    pub sort: i64,
    pub price: Option<i64>,
    pub price_min: Option<i64>,
    pub price_max: Option<i64>,
    pub price_default: Option<i64>,
    pub notice_hours: Option<i64>,
}

impl Ticket {
    /// A free ticket.
    pub const FREE: &'static str = "free";
    /// A fixed-price ticket.
    pub const FIXED: &'static str = "fixed";
    /// A variable-price ticket.
    pub const VARIABLE: &'static str = "variable";
    /// A work trade ticket.
    pub const WORK: &'static str = "work";
}

} // verus!

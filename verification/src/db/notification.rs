use vstd::prelude::*;

verus! {

/// A notification email template. Timestamps are microseconds.
#[derive(Clone, Debug)]
pub struct Notification {
    pub id: i64,
    /// Set when this notification is specific to an individual event, rather
    /// than a generically applicable notification for a certain type of event.
    pub event_id: Option<i64>,
    pub name: String,
    pub content: String,
    pub created_at: i64,
    pub updated_at: i64,
}

/// The editable fields of a notification.
#[derive(Clone, Debug)]
pub struct UpdateNotification {
    pub event_id: Option<i64>,
    pub name: String,
    pub content: String,
}

} // verus!

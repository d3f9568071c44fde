use vstd::prelude::*;

verus! {

/// A record of an email which has been sent. Timestamps are microseconds.
#[derive(Clone, Debug)]
pub struct Email {
    pub id: i64,
    pub kind: String,
    pub user_id: i64,
    pub user_version: i64,
    pub address: String,
    pub post_id: Option<i64>,
    pub list_id: Option<i64>,
    pub event_id: Option<i64>,
    pub notification_id: Option<i64>,
    pub error: Option<String>,
    pub created_at: i64,
    pub sent_at: Option<i64>,
    pub opened_at: Option<i64>,
}

impl Email {
    /// A login email.
    pub const LOGIN: &'static str = "login";
    /// An email containing a post.
    pub const POST: &'static str = "post";
    /// An event invitation email.
    pub const EVENT_INVITE: &'static str = "event/invite";
    /// An event purchase confirmation email.
    pub const EVENT_CONFIRMATION: &'static str = "event/confirmation";
    /// An event day-of info email.
    pub const EVENT_DAYOF: &'static str = "event/dayof";
}

/// The emails of a batch that still have to be sent: those without `sent_at`, in order.
pub open spec fn unsent(emails: Seq<Email>) -> Seq<Email>
    decreases emails.len(),
{
    if emails.len() == 0 {
        Seq::empty()
    } else if emails.last().sent_at is None {
        unsent(emails.drop_last()).push(emails.last())
    } else {
        unsent(emails.drop_last())
    }
}

/// The ids and addresses of the emails of a batch that were not sent yet, in order; a batch
/// re-created for resending includes emails already sent, which are skipped.
pub fn unsent_emails(emails: &[Email]) -> (r: Vec<(i64, String)>)
    ensures
        r@.map_values(|p: (i64, String)| (p.0, p.1@)) == unsent(emails@).map_values(|e: Email| (e.id, e.address@)),
{
    let mut r: Vec<(i64, String)> = Vec::new();
    let mut i: usize = 0;
    while i < emails.len()
        invariant
            i <= emails@.len(),
            r@.map_values(|p: (i64, String)| (p.0, p.1@)) == unsent(emails@.take(i as int)).map_values(|e: Email| (e.id, e.address@)),
        decreases emails@.len() - i,
    {
        assert(emails@.take(i + 1).drop_last() =~= emails@.take(i as int));
        let e = &emails[i];
        let ghost old_r = r@;
        if e.sent_at.is_none() {
            r.push((e.id, e.address.clone()));
            assert(r@.map_values(|p: (i64, String)| (p.0, p.1@)) =~= old_r.map_values(|p: (i64, String)| (p.0, p.1@)).push((e.id, e.address@)));
            assert(unsent(emails@.take(i + 1)).map_values(|e: Email| (e.id, e.address@)) =~= unsent(emails@.take(i as int)).map_values(|e: Email| (e.id, e.address@)).push((e.id, e.address@)));
        }
        i = i + 1;
    }
    assert(emails@.take(i as int) =~= emails@);
    r
}

} // verus!

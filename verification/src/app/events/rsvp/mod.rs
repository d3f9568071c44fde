//! The RSVP flow: choosing spots, naming attendees, contributing, and managing the result.
pub mod goto;
pub mod parse;
pub mod validate;

use vstd::prelude::*;

use crate::db::event::Event;
use std::collections::HashMap;

use crate::db::rsvp::{count_spot, AttendeeRsvp, ContributionRsvp, EventRsvp};
use crate::db::rsvp_session::RsvpSession;
use crate::text::{contains_str, find_char, first_index, has_substring, str_eq, trim_start, trim_start_char};
use goto::is_live_status;

verus! {

/// The query of the RSVP button: the email a guest-list invitation was sent to, if any.
#[derive(Clone, Debug)]
pub struct RsvpQuery {
    pub email: Option<String>,
}

/// The "Are you on the list?" form.
#[derive(Clone, Debug)]
pub struct GuestlistForm {
    pub email: String,
}

/// The "Choose a contribution" form: the selection as JSON.
#[derive(Clone, Debug)]
pub struct SelectionForm {
    pub rsvps: String,
}

/// The "Who will be attending?" form: the attendees as JSON.
#[derive(Clone, Debug)]
pub struct AttendeesForm {
    pub attendees: String,
}

/// The query naming a reservation by its session token.
#[derive(Clone, Debug)]
pub struct SessionQuery {
    pub reservation: String,
}

/// What to do when the primary attendee already holds another session for the event.
#[derive(Clone, Copy, Debug, PartialEq, Eq)]
pub enum PrimaryConflictAction {
    /// The other session is still a draft: delete it and go on.
    Takeover,
    /// The other session holds its spots: refuse.
    Refuse,
}

/// A draft session (selection or attendees) is taken over; one that holds its spots is not.
pub fn primary_conflict_action(status: &str) -> (r: PrimaryConflictAction)
    requires
        is_live_status(status@),
    ensures
        r == (if status@ == RsvpSession::ATTENDEES@ || status@ == RsvpSession::SELECTION@ {
            PrimaryConflictAction::Takeover
        } else {
            PrimaryConflictAction::Refuse
        }),
{
    if str_eq(status, RsvpSession::ATTENDEES) || str_eq(status, RsvpSession::SELECTION) {
        PrimaryConflictAction::Takeover
    } else {
        PrimaryConflictAction::Refuse
    }
}

/// What the "Manage your RSVP" page does with a session of a given status.
#[derive(Clone, Copy, Debug, PartialEq, Eq)]
pub enum ManageStep {
    /// Back to choosing spots.
    Selection,
    /// Back to naming attendees.
    Attendees,
    /// Hold the spots and expect the payment later: move to payment_pending, then show.
    HoldPending,
    /// Pending or confirmed: show the reservation.
    Show,
}

pub fn manage_step(status: &str) -> (r: ManageStep)
    requires
        is_live_status(status@),
    ensures
        r == (if status@ == RsvpSession::SELECTION@ {
            ManageStep::Selection
        } else if status@ == RsvpSession::ATTENDEES@ {
            ManageStep::Attendees
        } else if status@ == RsvpSession::CONTRIBUTION@ {
            ManageStep::HoldPending
        } else {
            ManageStep::Show
        }),
{
    if str_eq(status, RsvpSession::SELECTION) {
        ManageStep::Selection
    } else if str_eq(status, RsvpSession::ATTENDEES) {
        ManageStep::Attendees
    } else if str_eq(status, RsvpSession::CONTRIBUTION) {
        ManageStep::HoldPending
    } else {
        ManageStep::Show
    }
}

/// The emails the "Manage your RSVP" page sends.
#[derive(Clone, Copy, Debug, PartialEq, Eq)]
pub struct ManageEmails {
    pub confirmation: bool,
    pub dayof: bool,
}

/// The confirmation goes out once; a guest confirmed after the day-of email went out to
/// the others gets that one with it.
pub fn manage_emails(confirmation_sent: bool, dayof_sent: bool) -> (r: ManageEmails)
    ensures
        r.confirmation == !confirmation_sent,
        r.dayof == (!confirmation_sent && dayof_sent),
{
    ManageEmails { confirmation: !confirmation_sent, dayof: !confirmation_sent && dayof_sent }
}

/// Whether a session may be deleted from the debug view: not once it holds a payment.
pub fn session_deletable(status: &str) -> (r: bool)
    ensures
        r == !(status@ == RsvpSession::PAYMENT_PENDING@ || status@ == RsvpSession::PAYMENT_CONFIRMED@),
{
    !(str_eq(status, RsvpSession::PAYMENT_PENDING) || str_eq(status, RsvpSession::PAYMENT_CONFIRMED))
}

/// Sum of the pledges of `rsvps`.
pub open spec fn pledged(rsvps: Seq<ContributionRsvp>) -> int
    decreases rsvps.len(),
{
    if rsvps.len() == 0 {
        0
    } else {
        pledged(rsvps.drop_last()) + rsvps.last().contribution
    }
}

/// Sum of the pledges of `rsvps`.
pub open spec fn pledged_attendees(rsvps: Seq<AttendeeRsvp>) -> int
    decreases rsvps.len(),
{
    if rsvps.len() == 0 {
        0
    } else {
        pledged_attendees(rsvps.drop_last()) + rsvps.last().contribution
    }
}

/// The price of a session: the sum of its pledges.
pub fn contribution_price(rsvps: &[ContributionRsvp]) -> (price: i64)
    requires
        forall|k: int| 0 <= k <= rsvps@.len() ==> i64::MIN <= #[trigger] pledged(rsvps@.take(k)) <= i64::MAX,
    ensures
        price == pledged(rsvps@),
{
    let mut price: i64 = 0;
    let mut i: usize = 0;
    while i < rsvps.len()
        invariant
            i <= rsvps@.len(),
            forall|k: int| 0 <= k <= rsvps@.len() ==> i64::MIN <= #[trigger] pledged(rsvps@.take(k)) <= i64::MAX,
            price == pledged(rsvps@.take(i as int)),
        decreases rsvps@.len() - i,
    {
        assert(rsvps@.take(i + 1).drop_last() =~= rsvps@.take(i as int));
        assert(i64::MIN <= pledged(rsvps@.take(i + 1)) <= i64::MAX);
        price = price + rsvps[i].contribution;
        i = i + 1;
    }
    assert(rsvps@.take(i as int) =~= rsvps@);
    price
}

/// The price shown on the attendees page: the sum of the pledges.
pub fn attendees_price(rsvps: &[AttendeeRsvp]) -> (price: i64)
    requires
        forall|k: int| 0 <= k <= rsvps@.len() ==> i64::MIN <= #[trigger] pledged_attendees(rsvps@.take(k)) <= i64::MAX,
    ensures
        price == pledged_attendees(rsvps@),
{
    let mut price: i64 = 0;
    let mut i: usize = 0;
    while i < rsvps.len()
        invariant
            i <= rsvps@.len(),
            forall|k: int| 0 <= k <= rsvps@.len() ==> i64::MIN <= #[trigger] pledged_attendees(rsvps@.take(k)) <= i64::MAX,
            price == pledged_attendees(rsvps@.take(i as int)),
        decreases rsvps@.len() - i,
    {
        assert(rsvps@.take(i + 1).drop_last() =~= rsvps@.take(i as int));
        assert(i64::MIN <= pledged_attendees(rsvps@.take(i + 1)) <= i64::MAX);
        price = price + rsvps[i].contribution;
        i = i + 1;
    }
    assert(rsvps@.take(i as int) =~= rsvps@);
    price
}

/// The subject of the confirmation email: the event's own, or "Confirmation for {title}".
pub fn confirmation_subject(event: &Event) -> (subject: String)
    ensures
        subject@ == match event.confirmation_subject {
            Some(s) => s@,
            None => "Confirmation for "@ + event.title@,
        },
{
    match &event.confirmation_subject {
        Some(s) => s.clone(),
        None => {
            let mut subject = String::from_str("Confirmation for ");
            subject.append(event.title.as_str());
            subject
        },
    }
}

/// Where a request for a step of the flow goes, by the session's status.
#[derive(Clone, Copy, Debug, PartialEq, Eq)]
pub enum SessionRoute {
    /// Serve the page.
    Proceed,
    /// The RSVP is complete: go to the manage page instead.
    Manage,
}

/// A draft session may visit every step; a completed one only the manage page, that is a
/// path holding `manage` (which also avoids a redirect loop).
pub fn session_route(status: &str, path: &str) -> (r: SessionRoute)
    requires
        is_live_status(status@),
    ensures
        r == (if goto::is_draft_status(status@) || has_substring(path@, "manage"@) {
            SessionRoute::Proceed
        } else {
            SessionRoute::Manage
        }),
{
    if str_eq(status, RsvpSession::SELECTION) || str_eq(status, RsvpSession::ATTENDEES) || str_eq(
        status,
        RsvpSession::CONTRIBUTION,
    ) {
        SessionRoute::Proceed
    } else if contains_str(path, "manage") {
        SessionRoute::Proceed
    } else {
        SessionRoute::Manage
    }
}

/// What the contribution page does about the Stripe checkout of a session.
#[derive(Clone, Copy, Debug, PartialEq, Eq)]
pub enum StripeSecretStep {
    /// Nothing to pay: no checkout.
    Free,
    /// The session's checkout is still fresh: use it.
    Keep,
    /// Start a checkout.
    Create,
    /// The checkout expired: clear it and start a new one.
    Replace,
}

/// A session with something to pay gets a checkout: its own while fresh, a new one once
/// expired or when it has none.
pub fn stripe_secret_step(price: i64, has_secret: bool, secret_expired: bool) -> (r: StripeSecretStep)
    ensures
        r == (if price <= 0 {
            StripeSecretStep::Free
        } else if !has_secret {
            StripeSecretStep::Create
        } else if secret_expired {
            StripeSecretStep::Replace
        } else {
            StripeSecretStep::Keep
        }),
{
    if price <= 0 {
        StripeSecretStep::Free
    } else if !has_secret {
        StripeSecretStep::Create
    } else if secret_expired {
        StripeSecretStep::Replace
    } else {
        StripeSecretStep::Keep
    }
}

/// The event slug of a path `/e/{slug}/...`: leading slashes are skipped, the first segment
/// must be `e`, and the slug must be followed by another `/`.
pub open spec fn slug_of_path(path: Seq<char>) -> Option<Seq<char>> {
    let u = trim_start_char(path, '/');
    let i = first_index(u, '/');
    if i < 0 {
        None
    } else if u.take(i) != "e"@ {
        None
    } else {
        let rest = u.skip(i + 1);
        let j = first_index(rest, '/');
        if j < 0 { None } else { Some(rest.take(j)) }
    }
}

/// Reads the event slug of an RSVP page's path.
pub fn parse_slug(path: &str) -> (r: Option<String>)
    ensures
        (match r {
            Some(s) => Some(s@),
            None => None::<Seq<char>>,
        }) == slug_of_path(path@),
{
    let u = trim_start(path, '/');
    let us = u.as_str();
    let n = us.unicode_len();
    let i = match find_char(us, '/') {
        None => {
            return None;
        },
        Some(i) => i,
    };
    let e = us.substring_char(0, i);
    proof {
        assert(e@ =~= us@.take(i as int));
    }
    if !str_eq(e, "e") {
        return None;
    }
    let rest = us.substring_char(i + 1, n);
    proof {
        assert(rest@ =~= us@.skip(i + 1));
    }
    let j = match find_char(rest, '/') {
        None => {
            return None;
        },
        Some(j) => j,
    };
    let slug = rest.substring_char(0, j);
    proof {
        assert(slug@ =~= rest@.take(j as int));
    }
    Some(String::from_str(slug))
}

/// Where the RSVP button leads.
#[derive(Clone, Copy, Debug, PartialEq, Eq)]
pub enum RsvpEntry {
    /// Choose spots.
    Selection,
    /// Ask whether the guest is on the list.
    Guestlist,
    /// The invited email is not on the list.
    NotOnList,
}

/// An event without a guest list goes straight to choosing spots. With one, a session whose
/// user is on the list goes on, another session is asked; without a session, the email the
/// invitation was sent to decides, and without one the guest is asked.
/// `session_user_on_list` is `None` without a session, `Some(false)` for a session without
/// a user or whose user is not on the list; `email_on_list` is `None` without an email.
pub fn rsvp_entry(has_guest_list: bool, session_user_on_list: Option<bool>, email_on_list: Option<bool>) -> (r: RsvpEntry)
    ensures
        r == (if !has_guest_list {
            RsvpEntry::Selection
        } else {
            match session_user_on_list {
                Some(true) => RsvpEntry::Selection,
                Some(false) => RsvpEntry::Guestlist,
                None => match email_on_list {
                    Some(true) => RsvpEntry::Selection,
                    Some(false) => RsvpEntry::NotOnList,
                    None => RsvpEntry::Guestlist,
                },
            }
        }),
{
    if !has_guest_list {
        return RsvpEntry::Selection;
    }
    match session_user_on_list {
        Some(true) => RsvpEntry::Selection,
        Some(false) => RsvpEntry::Guestlist,
        None => match email_on_list {
            Some(true) => RsvpEntry::Selection,
            Some(false) => RsvpEntry::NotOnList,
            None => RsvpEntry::Guestlist,
        },
    }
}

/// The pledge of the last of `rsvps` that holds `spot_id`, if any.
pub open spec fn last_contribution(rsvps: Seq<EventRsvp>, spot_id: i64) -> Option<i64>
    decreases rsvps.len(),
{
    if rsvps.len() == 0 {
        None
    } else if rsvps.last().spot_id == spot_id {
        Some(rsvps.last().contribution)
    } else {
        last_contribution(rsvps.drop_last(), spot_id)
    }
}

/// What the selection page shows of the session's own RSVPs: how many of each spot it
/// holds, and the pledge last made for each.
#[derive(Debug)]
pub struct SelectionPrefill {
    pub qtys: HashMap<i64, usize>,
    pub contributions: HashMap<i64, i64>,
}

/// Counts the session's RSVPs per spot and keeps the last pledge for each spot.
pub fn selection_prefill(rsvps: &[EventRsvp]) -> (r: SelectionPrefill)
    ensures
        forall|id: i64| #[trigger] r.qtys@.contains_key(id) <==> count_spot(rsvps@, id) > 0,
        forall|id: i64| #[trigger] r.qtys@.contains_key(id) ==> r.qtys@[id] == count_spot(rsvps@, id),
        forall|id: i64| #[trigger] r.contributions@.contains_key(id) <==> last_contribution(rsvps@, id) is Some,
        forall|id: i64| #[trigger] r.contributions@.contains_key(id) ==> Some(r.contributions@[id]) == last_contribution(rsvps@, id),
{
    broadcast use vstd::std_specs::hash::group_hash_axioms;
    let mut qtys: HashMap<i64, usize> = HashMap::new();
    let mut contributions: HashMap<i64, i64> = HashMap::new();
    let mut i: usize = 0;
    while i < rsvps.len()
        invariant
            i <= rsvps@.len(),
            forall|id: i64| #[trigger] qtys@.contains_key(id) <==> count_spot(rsvps@.take(i as int), id) > 0,
            forall|id: i64| #[trigger] qtys@.contains_key(id) ==> qtys@[id] == count_spot(rsvps@.take(i as int), id),
            forall|id: i64| #[trigger] contributions@.contains_key(id) <==> last_contribution(rsvps@.take(i as int), id) is Some,
            forall|id: i64|
                #[trigger] contributions@.contains_key(id) ==> Some(contributions@[id]) == last_contribution(rsvps@.take(i as int), id),
        decreases rsvps@.len() - i,
    {
        let r = rsvps[i];
        proof {
            assert(rsvps@.take(i + 1).drop_last() =~= rsvps@.take(i as int));
            assert(rsvps@.take(i + 1).last() == r);
            crate::db::rsvp::lemma_count_spot_bound(rsvps@.take(i as int), r.spot_id);
        }
        let n: usize = match qtys.get(&r.spot_id) {
            Some(q) => *q,
            None => 0,
        };
        qtys.insert(r.spot_id, n + 1);
        contributions.insert(r.spot_id, r.contribution);
        i = i + 1;
    }
    proof {
        assert(rsvps@.take(i as int) =~= rsvps@);
    }
    SelectionPrefill { qtys, contributions }
}

} // verus!

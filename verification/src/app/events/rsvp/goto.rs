//! Where each step of the RSVP flow sends the guest, and the messages of its error pages.
use vstd::prelude::*;

use crate::db::event::Event;
use crate::db::rsvp_session::RsvpSession;
use crate::text::str_eq;

verus! {

/// The rsvp page path `/e/{slug}/rsvp/{step}`.
pub open spec fn rsvp_path(slug: Seq<char>, step: Seq<char>) -> Seq<char> {
    "/e/"@ + slug + "/rsvp/"@ + step
}

fn rsvp_step_path(slug: &str, step: &str) -> (r: String)
    ensures
        r@ == rsvp_path(slug@, step@),
{
    let mut r = String::new();
    r.append("/e/");
    r.append(slug);
    r.append("/rsvp/");
    r.append(step);
    r
}

/// Redirect target of the "Are you on the list?" page.
pub fn guestlist_page(event: &Event) -> (r: String)
    ensures
        r@ == rsvp_path(event.slug@, "guestlist"@),
{
    rsvp_step_path(event.slug.as_str(), "guestlist")
}

/// Redirect target of the "Who will be attending?" page.
pub fn attendees_page(event: &Event) -> (r: String)
    ensures
        r@ == rsvp_path(event.slug@, "attendees"@),
{
    rsvp_step_path(event.slug.as_str(), "attendees")
}

/// Redirect target of the "Make your contribution" page.
pub fn contribution_page(event: &Event) -> (r: String)
    ensures
        r@ == rsvp_path(event.slug@, "contribution"@),
{
    rsvp_step_path(event.slug.as_str(), "contribution")
}

/// Redirect target of the "Choose a contribution" page.
pub fn selection_page(event: &Event) -> (r: String)
    ensures
        r@ == rsvp_path(event.slug@, "selection"@),
{
    rsvp_step_path(event.slug.as_str(), "selection")
}

/// Redirect target of the "Manage your RSVP" page of a session.
pub fn manage_page(session: &RsvpSession, event: &Event) -> (r: String)
    ensures
        r@ == rsvp_path(event.slug@, "manage?reservation="@) + session.token@,
{
    let mut r = rsvp_step_path(event.slug.as_str(), "manage?reservation=");
    r.append(session.token.as_str());
    r
}

/// The message of the page shown to someone who is not on the guest list.
pub fn error_not_on_guestlist() -> (message: String)
    ensures
        message@ == "Sorry, you're not on the list."@,
{
    String::from_str("Sorry, you're not on the list.")
}

/// The statuses a session can have while its owner is still RSVPing or has RSVPed.
pub open spec fn is_live_status(status: Seq<char>) -> bool {
    ||| status == RsvpSession::SELECTION@
    ||| status == RsvpSession::ATTENDEES@
    ||| status == RsvpSession::CONTRIBUTION@
    ||| status == RsvpSession::PAYMENT_PENDING@
    ||| status == RsvpSession::PAYMENT_CONFIRMED@
}

/// Whether a status is one of the draft steps of the flow.
pub open spec fn is_draft_status(status: Seq<char>) -> bool {
    ||| status == RsvpSession::SELECTION@
    ||| status == RsvpSession::ATTENDEES@
    ||| status == RsvpSession::CONTRIBUTION@
}

/// How a conflicting reservation is described.
pub open spec fn conflict_wording(status: Seq<char>) -> Seq<char> {
    if is_draft_status(status) {
        "is currently in the process of RSVPing"@
    } else {
        "has already RSVPed"@
    }
}

/// The message of the page shown when `email` already holds a reservation with `status`.
pub fn error_conflict(email: &str, status: &str) -> (message: String)
    requires
        is_live_status(status@),
    ensures
        message@ == "Someone "@ + conflict_wording(status@) + " for "@ + email@ + "."@,
{
    let wording = if str_eq(status, RsvpSession::SELECTION) || str_eq(status, RsvpSession::ATTENDEES)
        || str_eq(status, RsvpSession::CONTRIBUTION) {
        "is currently in the process of RSVPing"
    } else {
        "has already RSVPed"
    };
    let mut message = String::from_str("Someone ");
    message.append(wording);
    message.append(" for ");
    message.append(email);
    message.append(".");
    message
}

} // verus!

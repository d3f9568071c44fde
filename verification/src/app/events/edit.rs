//! The event editor's forms, and which spots an edit removes.
use std::collections::HashMap;
use vstd::prelude::*;

use crate::db::event::{Event, UpdateEvent};
use crate::db::spot::UpdateSpot;

verus! {

broadcast use vstd::std_specs::hash::group_hash_axioms;

/// An event edit: the event's fields and its spots; `id` is `None` for a new event.
#[derive(Clone, Debug)]
pub struct EditForm {
    pub id: Option<i64>,
    pub event: UpdateEvent,
    pub spots: Vec<UpdateSpot>,
}

/// A new invite email for an event.
#[derive(Clone, Debug)]
pub struct EditInviteForm {
    pub id: i64,
    pub subject: String,
    pub content: String,
}

/// The answer to an invite edit; `updated_at` is in milliseconds.
#[derive(Clone, Debug)]
pub struct EditInviteResponse {
    pub id: Option<i64>,
    pub updated_at: Option<i64>,
    pub error: Option<String>,
}

/// A new confirmation email for an event.
#[derive(Clone, Debug)]
pub struct EditConfirmationForm {
    pub id: i64,
    pub subject: String,
    pub content: String,
}

/// The answer to a confirmation edit; `updated_at` is in milliseconds.
#[derive(Clone, Debug)]
pub struct EditConfirmationResponse {
    pub id: Option<i64>,
    pub updated_at: Option<i64>,
    pub error: Option<String>,
}

/// A new day-of email for an event.
#[derive(Clone, Debug)]
pub struct EditDayofForm {
    pub id: i64,
    pub subject: String,
    pub content: String,
}

/// The answer to a day-of edit; `updated_at` is in milliseconds.
#[derive(Clone, Debug)]
pub struct EditDayofResponse {
    pub id: Option<i64>,
    pub updated_at: Option<i64>,
    pub error: Option<String>,
}

/// A new description for an event.
#[derive(Clone, Debug)]
pub struct EditDescriptionForm {
    pub id: i64,
    pub content: String,
}

/// The answer to a description edit; `updated_at` is in milliseconds.
#[derive(Clone, Debug)]
pub struct EditDescriptionResponse {
    pub id: Option<i64>,
    pub updated_at: Option<i64>,
    pub error: Option<String>,
}

/// The path of a check-in request.
#[derive(Clone, Debug)]
pub struct CheckinPath {
    pub slug: String,
    pub rsvp_id: i64,
}

/// Why invitations to an event cannot be sent.
#[derive(Clone, Copy, Debug, PartialEq, Eq, Structural)]
pub enum InviteRefusal {
    /// The event has no guest list to invite.
    NoGuestList,
}

/// The guest list whose members a batch of invitations goes to: the event's own; an event
/// without one is refused as an invalid request.
pub fn invite_guest_list(event: &Event) -> (r: Result<i64, InviteRefusal>)
    ensures
        match event.guest_list_id {
            Some(id) => r matches Ok(l) && l == id,
            None => r matches Err(e) && e == InviteRefusal::NoGuestList,
        },
{
    match event.guest_list_id {
        Some(id) => Ok(id),
        None => Err(InviteRefusal::NoGuestList),
    }
}

/// The RSVP count of a spot, zero for one without RSVPs.
pub open spec fn rsvp_count_of(counts: Map<i64, i64>, spot_id: i64) -> int {
    if counts.contains_key(spot_id) { counts[spot_id] as int } else { 0 }
}

/// The spots of the event that the edit dropped and that nobody has reserved, in order.
pub open spec fn spots_to_delete_spec(existing: Seq<i64>, kept: Seq<i64>, counts: Map<i64, i64>) -> Seq<i64>
    decreases existing.len(),
{
    if existing.len() == 0 {
        Seq::empty()
    } else {
        let prev = spots_to_delete_spec(existing.drop_last(), kept, counts);
        let id = existing.last();
        if !kept.contains(id) && rsvp_count_of(counts, id) == 0 {
            prev.push(id)
        } else {
            prev
        }
    }
}

/// An edit detaches only spots that nobody has reserved: an id is detached exactly when the
/// event had that spot, the edit no longer lists it, and it has no RSVPs.
pub proof fn lemma_only_unreserved_spots_deleted(existing: Seq<i64>, kept: Seq<i64>, counts: Map<i64, i64>)
    ensures
        forall|id: i64|
            #[trigger] spots_to_delete_spec(existing, kept, counts).contains(id) <==> (existing.contains(id)
                && !kept.contains(id) && rsvp_count_of(counts, id) == 0),
    decreases existing.len(),
{
    if existing.len() > 0 {
        let prev = spots_to_delete_spec(existing.drop_last(), kept, counts);
        lemma_only_unreserved_spots_deleted(existing.drop_last(), kept, counts);
        let last = existing.last();
        assert forall|id: i64|
            #[trigger] spots_to_delete_spec(existing, kept, counts).contains(id) <==> (existing.contains(id)
                && !kept.contains(id) && rsvp_count_of(counts, id) == 0) by {
            let out = spots_to_delete_spec(existing, kept, counts);
            if existing.contains(id) {
                let k = choose|k: int| 0 <= k < existing.len() && existing[k] == id;
                if k < existing.len() - 1 {
                    assert(existing.drop_last()[k] == id);
                }
            }
            if existing.drop_last().contains(id) {
                let k = choose|k: int| 0 <= k < existing.drop_last().len() && existing.drop_last()[k] == id;
                assert(existing[k] == id);
            }
            if !kept.contains(last) && rsvp_count_of(counts, last) == 0 {
                assert(out == prev.push(last));
                if prev.contains(id) {
                    let k = choose|k: int| 0 <= k < prev.len() && prev[k] == id;
                    assert(out[k] == id);
                }
                if out.contains(id) {
                    let k = choose|k: int| 0 <= k < out.len() && out[k] == id;
                    if k < prev.len() {
                        assert(prev[k] == id);
                    }
                }
                if id == last {
                    assert(out[prev.len() as int] == id);
                }
            }
        }
    }
}

/// The ids of the submitted spots that already exist.
pub open spec fn kept_ids(spots: Seq<UpdateSpot>) -> Seq<i64>
    decreases spots.len(),
{
    if spots.len() == 0 {
        Seq::empty()
    } else {
        match spots.last().id {
            Some(id) => kept_ids(spots.drop_last()).push(id),
            None => kept_ids(spots.drop_last()),
        }
    }
}

/// Of the spots the event had before an edit, those to detach from it: the ones the edit
/// no longer lists, as long as they have no RSVPs.
pub fn spots_to_delete(existing: &[i64], spots: &[UpdateSpot], rsvp_counts: &HashMap<i64, i64>) -> (r: Vec<i64>)
    ensures
        r@ == spots_to_delete_spec(existing@, kept_ids(spots@), rsvp_counts@),
{
    let mut kept: Vec<i64> = Vec::new();
    let mut k: usize = 0;
    while k < spots.len()
        invariant
            k <= spots@.len(),
            kept@ == kept_ids(spots@.take(k as int)),
        decreases spots@.len() - k,
    {
        assert(spots@.take(k + 1).drop_last() =~= spots@.take(k as int));
        match spots[k].id {
            Some(id) => kept.push(id),
            None => {},
        }
        k = k + 1;
    }
    assert(spots@.take(k as int) =~= spots@);
    let mut r: Vec<i64> = Vec::new();
    let mut i: usize = 0;
    while i < existing.len()
        invariant
            i <= existing@.len(),
            kept@ == kept_ids(spots@),
            r@ == spots_to_delete_spec(existing@.take(i as int), kept@, rsvp_counts@),
        decreases existing@.len() - i,
    {
        assert(existing@.take(i + 1).drop_last() =~= existing@.take(i as int));
        let id = existing[i];
        let mut j: usize = 0;
        let mut listed = false;
        while j < kept.len() && !listed
            invariant
                j <= kept@.len(),
                listed ==> j < kept@.len() && kept@[j as int] == id,
                forall|m: int| 0 <= m < j ==> kept@[m] != id,
            decreases kept@.len() - j, if listed { 0int } else { 1int },
        {
            if kept[j] == id {
                listed = true;
            } else {
                j = j + 1;
            }
        }
        let count = match rsvp_counts.get(&id) {
            Some(c) => *c,
            None => 0,
        };
        proof {
            if kept@.contains(id) && !listed {
                let m = choose|m: int| 0 <= m < kept@.len() && kept@[m] == id;
            }
        }
        if !listed && count == 0 {
            r.push(id);
        }
        i = i + 1;
    }
    assert(existing@.take(i as int) =~= existing@);
    r
}

} // verus!

//! Checks made before a selection or a set of attendees is accepted.
use vstd::prelude::*;

use crate::db::event::{
    capacity_limit, fits_i64, lemma_spot_limits_map_distinct, limits_in_range, person_limit, spot_limit, spot_limits_map,
    sum_spot_limits, total_limit, Event, EventLimits,
};
use crate::db::spot::Spot;
use crate::db::rsvp::{count_for_spot, count_spot, lemma_count_spot_positive, lemma_count_spot_witness, EventRsvp, UserRsvp};
use crate::db::user::CreateUser;

verus! {

broadcast use vstd::std_specs::hash::group_hash_axioms;

/// Whether the RSVP flow accepts new steps for this event.
pub fn registration_open(event: &Event) -> (r: bool)
    ensures
        r == !event.closed,
{
    !event.closed
}

/// The per-spot limit of `spot_id`, zero for a spot without one.
pub open spec fn spot_limit_for(limits: Map<i64, i64>, spot_id: i64) -> int {
    if limits.contains_key(spot_id) { limits[spot_id] as int } else { 0 }
}

/// `rsvps` fit under the total limit and every spot's limit.
pub open spec fn within_limits_spec(total_limit: i64, spot_limits: Map<i64, i64>, rsvps: Seq<EventRsvp>) -> bool {
    &&& rsvps.len() <= total_limit
    &&& forall|i: int| 0 <= i < rsvps.len() ==> count_spot(rsvps, #[trigger] rsvps[i].spot_id) <= spot_limit_for(spot_limits, rsvps[i].spot_id)
}

/// Returns true if rsvps satisfy total and per-spot limits.
pub fn within_limits(limits: &EventLimits, rsvps: &[EventRsvp]) -> (r: bool)
    requires
        rsvps@.len() <= i64::MAX,
    ensures
        r == within_limits_spec(limits.total_limit, limits.spot_limits@, rsvps@),
{
    let total_qty = rsvps.len() as i64;
    if total_qty > limits.total_limit {
        return false;
    }
    let mut i: usize = 0;
    while i < rsvps.len()
        invariant
            i <= rsvps@.len(),
            rsvps@.len() <= i64::MAX,
            forall|k: int| 0 <= k < i ==> count_spot(rsvps@, #[trigger] rsvps@[k].spot_id) <= spot_limit_for(limits.spot_limits@, rsvps@[k].spot_id),
        decreases rsvps@.len() - i,
    {
        let spot_id = rsvps[i].spot_id;
        let qty = count_for_spot(rsvps, spot_id);
        let limit = match limits.spot_limits.get(&spot_id) {
            Some(l) => *l,
            None => 0,
        };
        if qty > limit {
            return false;
        }
        i = i + 1;
    }
    true
}

/// A selection that passes `within_limits` against the limits computed for the event never
/// overbooks it: the reserved spots, the manual RSVPs and the selection fit in the capacity,
/// the guest stays within the per-person limit, every selected spot is one of the event's
/// spots, and no spot is taken beyond its quantity or its per-person quantity.
pub proof fn lemma_within_limits_never_overbooks(
    event: Event,
    spots: Seq<Spot>,
    all_rsvps: Seq<EventRsvp>,
    user_rsvps: Seq<EventRsvp>,
    manual_count: i64,
    selection: Seq<EventRsvp>,
)
    requires
        limits_in_range(event, spots, all_rsvps, user_rsvps, manual_count),
        forall|a: int, b: int| 0 <= a < b < spots.len() ==> spots[a].id != spots[b].id,
        within_limits_spec(
            total_limit(event, spots, all_rsvps, user_rsvps, manual_count) as i64,
            spot_limits_map(spots, all_rsvps, user_rsvps),
            selection,
        ),
        selection.len() > 0,
    ensures
        all_rsvps.len() + manual_count + selection.len() <= event.capacity,
        event.spots_per_person is Some ==> user_rsvps.len() + selection.len() <= event.spots_per_person->0,
        forall|i: int| 0 <= i < selection.len() ==> exists|k: int| 0 <= k < spots.len() && spots[k].id == #[trigger] selection[i].spot_id,
        forall|k: int| #![trigger spots[k]]
            0 <= k < spots.len() && count_spot(selection, spots[k].id) > 0 ==> {
                &&& count_spot(selection, spots[k].id) + count_spot(all_rsvps, spots[k].id) <= spots[k].qty_total
                &&& count_spot(selection, spots[k].id) + count_spot(user_rsvps, spots[k].id) <= spots[k].qty_per_person
            },
{
    let t = total_limit(event, spots, all_rsvps, user_rsvps, manual_count);
    assert(fits_i64(t)) by {
        assert(fits_i64(sum_spot_limits(spots.take(spots.len() as int), all_rsvps, user_rsvps)));
        assert(spots.take(spots.len() as int) =~= spots);
    }
    assert(selection.len() <= t);
    assert(t <= capacity_limit(event, all_rsvps, manual_count));
    assert(t <= person_limit(event, user_rsvps));
    let m = spot_limits_map(spots, all_rsvps, user_rsvps);
    lemma_spot_limits_map_distinct(spots, all_rsvps, user_rsvps);
    assert(forall|j: int| 0 <= j < selection.len() ==> count_spot(selection, #[trigger] selection[j].spot_id) <= spot_limit_for(m, selection[j].spot_id));
    assert forall|i: int| 0 <= i < selection.len() implies exists|k: int| 0 <= k < spots.len() && spots[k].id == #[trigger] selection[i].spot_id by {
        lemma_count_spot_positive(selection, i);
        assert(count_spot(selection, selection[i].spot_id) <= spot_limit_for(m, selection[i].spot_id));
        assert(m.contains_key(selection[i].spot_id));
    }
    assert forall|k: int| #![trigger spots[k]]
        0 <= k < spots.len() && count_spot(selection, spots[k].id) > 0 implies {
            &&& count_spot(selection, spots[k].id) + count_spot(all_rsvps, spots[k].id) <= spots[k].qty_total
            &&& count_spot(selection, spots[k].id) + count_spot(user_rsvps, spots[k].id) <= spots[k].qty_per_person
        } by {
        let id = spots[k].id;
        lemma_count_spot_witness(selection, id);
        let i = choose|i: int| 0 <= i < selection.len() && selection[i].spot_id == id;
        assert(count_spot(selection, selection[i].spot_id) <= spot_limit_for(m, selection[i].spot_id));
        assert(fits_i64(spots[k].qty_total - count_spot(all_rsvps, spots[k].id)));
        assert(fits_i64(spots[k].qty_per_person - count_spot(user_rsvps, spots[k].id)));
        assert(m.contains_key(spots[k].id));
        assert(m[id] == spot_limit(spots[k], all_rsvps, user_rsvps) as i64);
    }
}

/// Someone whose email already holds a reservation for the event.
#[derive(Clone, Debug)]
pub enum Conflict {
    Primary { email: String, status: String },
    Guest { email: String, status: String },
}

/// A conflict as plain values: (whether it is the primary attendee's, email, status).
pub open spec fn conflict_view(c: Conflict) -> (bool, Seq<char>, Seq<char>) {
    match c {
        Conflict::Primary { email, status } => (true, email@, status@),
        Conflict::Guest { email, status } => (false, email@, status@),
    }
}

/// Whether some guest has the email `email`.
pub open spec fn has_guest_email(guests: Seq<CreateUser>, email: Seq<char>) -> bool {
    exists|g: int| 0 <= g < guests.len() && #[trigger] guests[g].email@ == email
}

/// The first reserved attendee whose email is the primary's or a guest's: the primary
/// attendee is checked before the guests for each reserved attendee in turn.
pub open spec fn first_conflict(others: Seq<UserRsvp>, primary: Seq<char>, guests: Seq<CreateUser>) -> Option<
    (bool, Seq<char>, Seq<char>),
>
    decreases others.len(),
{
    if others.len() == 0 {
        None
    } else {
        let o = others[0];
        if primary == o.email@ {
            Some((true, o.email@, o.status@))
        } else if has_guest_email(guests, o.email@) {
            Some((false, o.email@, o.status@))
        } else {
            first_conflict(others.drop_first(), primary, guests)
        }
    }
}

fn has_guest(guests: &[CreateUser], email: &String) -> (r: bool)
    ensures
        r == has_guest_email(guests@, email@),
{
    let mut g: usize = 0;
    while g < guests.len()
        invariant
            g <= guests@.len(),
            forall|k: int| 0 <= k < g ==> guests@[k].email@ != email@,
        decreases guests@.len() - g,
    {
        if guests[g].email == *email {
            proof {
                assert(guests@[g as int].email@ == email@);
            }
            return true;
        }
        g = g + 1;
    }
    false
}

/// Finds the first attendee of another session whose email is the primary attendee's or a guest's.
pub fn no_conflicts(other_users: &[UserRsvp], primary: &CreateUser, guests: &[CreateUser]) -> (r: Option<Conflict>)
    ensures
        match r {
            None => first_conflict(other_users@, primary.email@, guests@) is None,
            Some(c) => first_conflict(other_users@, primary.email@, guests@) == Some(conflict_view(c)),
        },
{
    let mut i: usize = 0;
    assert(other_users@.skip(0) =~= other_users@);
    while i < other_users.len()
        invariant
            i <= other_users@.len(),
            first_conflict(other_users@, primary.email@, guests@) == first_conflict(other_users@.skip(i as int), primary.email@, guests@),
        decreases other_users@.len() - i,
    {
        let other_user = &other_users[i];
        proof {
            assert(other_users@.skip(i as int)[0] == other_users@[i as int]);
            assert(other_users@.skip(i as int).drop_first() =~= other_users@.skip(i + 1));
        }
        if primary.email == other_user.email {
            return Some(Conflict::Primary { email: other_user.email.clone(), status: other_user.status.clone() });
        }
        if has_guest(guests, &other_user.email) {
            return Some(Conflict::Guest { email: other_user.email.clone(), status: other_user.status.clone() });
        }
        i = i + 1;
    }
    proof {
        assert(other_users@.skip(i as int).len() == 0);
    }
    None
}

} // verus!

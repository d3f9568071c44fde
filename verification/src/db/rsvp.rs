use vstd::prelude::*;

use crate::db::rsvp_session::RsvpSession;
use crate::text::str_eq;

verus! {

/// One reserved spot: which spot it holds and what was pledged for it.
#[derive(Clone, Copy, Debug, PartialEq, Eq)]
pub struct EventRsvp {
    pub rsvp_id: i64,
    pub spot_id: i64,
    pub contribution: i64,
}

/// How many of `rsvps` hold the spot `spot_id`.
pub open spec fn count_spot(rsvps: Seq<EventRsvp>, spot_id: i64) -> nat
    decreases rsvps.len(),
{
    if rsvps.len() == 0 {
        0
    } else {
        count_spot(rsvps.drop_last(), spot_id) + if rsvps.last().spot_id == spot_id { 1nat } else { 0nat }
    }
}

/// The pledges of `rsvps` that hold the spot `spot_id`, in order.
pub open spec fn contributions_for(rsvps: Seq<EventRsvp>, spot_id: i64) -> Seq<i64>
    decreases rsvps.len(),
{
    if rsvps.len() == 0 {
        Seq::empty()
    } else {
        let prev = contributions_for(rsvps.drop_last(), spot_id);
        if rsvps.last().spot_id == spot_id { prev.push(rsvps.last().contribution) } else { prev }
    }
}

pub proof fn lemma_count_spot_bound(rsvps: Seq<EventRsvp>, spot_id: i64)
    ensures
        count_spot(rsvps, spot_id) <= rsvps.len(),
    decreases rsvps.len(),
{
    if rsvps.len() > 0 {
        lemma_count_spot_bound(rsvps.drop_last(), spot_id);
    }
}

pub proof fn lemma_count_spot_push(rsvps: Seq<EventRsvp>, r: EventRsvp, spot_id: i64)
    ensures
        count_spot(rsvps.push(r), spot_id) == count_spot(rsvps, spot_id) + if r.spot_id == spot_id { 1int } else { 0int },
{
    assert(rsvps.push(r).drop_last() =~= rsvps);
}

pub proof fn lemma_count_spot_positive(rsvps: Seq<EventRsvp>, i: int)
    requires
        0 <= i < rsvps.len(),
    ensures
        count_spot(rsvps, rsvps[i].spot_id) >= 1,
    decreases rsvps.len(),
{
    if i < rsvps.len() - 1 {
        lemma_count_spot_positive(rsvps.drop_last(), i);
        assert(rsvps.drop_last()[i] == rsvps[i]);
    }
}

pub proof fn lemma_count_spot_witness(rsvps: Seq<EventRsvp>, spot_id: i64)
    requires
        count_spot(rsvps, spot_id) > 0,
    ensures
        exists|i: int| 0 <= i < rsvps.len() && rsvps[i].spot_id == spot_id,
    decreases rsvps.len(),
{
    if rsvps.last().spot_id == spot_id {
        assert(rsvps[rsvps.len() - 1].spot_id == spot_id);
    } else {
        lemma_count_spot_witness(rsvps.drop_last(), spot_id);
        let i = choose|i: int| 0 <= i < rsvps.drop_last().len() && rsvps.drop_last()[i].spot_id == spot_id;
        assert(rsvps[i].spot_id == spot_id);
    }
}

pub proof fn lemma_count_spot_remove(s: Seq<EventRsvp>, i: int, spot_id: i64)
    requires
        0 <= i < s.len(),
    ensures
        count_spot(s, spot_id) == count_spot(s.remove(i), spot_id) + if s[i].spot_id == spot_id { 1int } else { 0int },
    decreases s.len(),
{
    if i == s.len() - 1 {
        assert(s.remove(i) =~= s.drop_last());
    } else {
        lemma_count_spot_remove(s.drop_last(), i, spot_id);
        assert(s.remove(i).drop_last() =~= s.drop_last().remove(i));
        assert(s.remove(i).last() == s.last());
    }
}

pub proof fn lemma_contributions_remove(s: Seq<EventRsvp>, i: int, spot_id: i64)
    requires
        0 <= i < s.len(),
    ensures
        contributions_for(s, spot_id).to_multiset() == if s[i].spot_id == spot_id {
            contributions_for(s.remove(i), spot_id).to_multiset().insert(s[i].contribution)
        } else {
            contributions_for(s.remove(i), spot_id).to_multiset()
        },
    decreases s.len(),
{
    broadcast use vstd::seq_lib::to_multiset_build;
    if i == s.len() - 1 {
        assert(s.remove(i) =~= s.drop_last());
    } else {
        lemma_contributions_remove(s.drop_last(), i, spot_id);
        assert(s.remove(i).drop_last() =~= s.drop_last().remove(i));
        assert(s.remove(i).last() == s.last());
        broadcast use vstd::multiset::group_multiset_axioms;
        let a = contributions_for(s.drop_last().remove(i), spot_id).to_multiset();
        if s[i].spot_id == spot_id && s.last().spot_id == spot_id {
            assert(a.insert(s[i].contribution).insert(s.last().contribution) =~= a.insert(s.last().contribution).insert(
                s[i].contribution,
            ));
        }
    }
}

/// Holding no more RSVPs of each kind means holding no more of any spot, and no more in all.
pub proof fn lemma_count_spot_submultiset(s: Seq<EventRsvp>, t: Seq<EventRsvp>, spot_id: i64)
    requires
        s.to_multiset().subset_of(t.to_multiset()),
    ensures
        count_spot(s, spot_id) <= count_spot(t, spot_id),
        s.len() <= t.len(),
    decreases s.len(),
{
    broadcast use vstd::seq_lib::group_to_multiset_ensures;
    broadcast use vstd::multiset::group_multiset_axioms;
    if s.len() > 0 {
        let x = s.last();
        let s1 = s.drop_last();
        assert(s1.push(x) =~= s);
        assert(s.to_multiset() =~= s1.to_multiset().insert(x));
        assert(s.to_multiset().count(x) >= 1);
        assert(t.to_multiset().count(x) >= 1);
        assert(t.contains(x));
        let j = choose|j: int| 0 <= j < t.len() && t[j] == x;
        let t1 = t.remove(j);
        assert(t1.to_multiset() == t.to_multiset().remove(x));
        assert forall|v: EventRsvp| s1.to_multiset().count(v) <= t1.to_multiset().count(v) by {
            assert(s.to_multiset().count(v) <= t.to_multiset().count(v));
        }
        lemma_count_spot_submultiset(s1, t1, spot_id);
        lemma_count_spot_remove(t, j, spot_id);
    }
}

/// The same RSVPs in any order pledge the same amounts for each spot.
pub proof fn lemma_contributions_permutation(s: Seq<EventRsvp>, t: Seq<EventRsvp>, spot_id: i64)
    requires
        s.to_multiset() == t.to_multiset(),
    ensures
        contributions_for(s, spot_id).to_multiset() == contributions_for(t, spot_id).to_multiset(),
    decreases s.len(),
{
    broadcast use vstd::seq_lib::group_to_multiset_ensures;
    broadcast use vstd::multiset::group_multiset_axioms;
    if s.len() == 0 {
        assert(t.to_multiset().len() == 0);
        assert(t.len() == 0);
        assert(t =~= s);
    } else {
        let x = s.last();
        let s1 = s.drop_last();
        assert(s1.push(x) =~= s);
        assert(s.to_multiset() =~= s1.to_multiset().insert(x));
        assert(t.to_multiset().count(x) >= 1);
        assert(t.contains(x));
        let j = choose|j: int| 0 <= j < t.len() && t[j] == x;
        let t1 = t.remove(j);
        assert(t1.to_multiset() == t.to_multiset().remove(x));
        assert(s1.to_multiset() =~= t1.to_multiset());
        lemma_contributions_permutation(s1, t1, spot_id);
        lemma_contributions_remove(t, j, spot_id);
    }
}

/// RSVPs for other spots add no pledges for `spot_id`.
pub proof fn lemma_contributions_other_spots(s: Seq<EventRsvp>, extra: Seq<EventRsvp>, spot_id: i64)
    requires
        forall|i: int| 0 <= i < extra.len() ==> #[trigger] extra[i].spot_id != spot_id,
    ensures
        contributions_for(s + extra, spot_id) == contributions_for(s, spot_id),
    decreases extra.len(),
{
    if extra.len() == 0 {
        assert(s + extra =~= s);
    } else {
        assert((s + extra).drop_last() =~= s + extra.drop_last());
        assert(extra[extra.len() - 1].spot_id != spot_id);
        lemma_contributions_other_spots(s, extra.drop_last(), spot_id);
    }
}

/// Counts the members of `rsvps` that hold the spot `spot_id`.
pub fn count_for_spot(rsvps: &[EventRsvp], spot_id: i64) -> (n: i64)
    requires
        rsvps@.len() <= i64::MAX,
    ensures
        n == count_spot(rsvps@, spot_id),
{
    let mut n: i64 = 0;
    let mut i: usize = 0;
    while i < rsvps.len()
        invariant
            i <= rsvps@.len(),
            rsvps@.len() <= i64::MAX,
            n == count_spot(rsvps@.take(i as int), spot_id),
            n <= i,
        decreases rsvps@.len() - i,
    {
        assert(rsvps@.take(i + 1).drop_last() =~= rsvps@.take(i as int));
        if rsvps[i].spot_id == spot_id {
            n = n + 1;
        }
        i = i + 1;
    }
    assert(rsvps@.take(i as int) =~= rsvps@);
    n
}

} // verus!

verus! {

/// A row of the `rsvps` table.
#[derive(Clone, Debug)]
pub struct Rsvp {
    pub id: i64,
    pub session_id: i64,
    pub spot_id: i64,
    pub contribution: i64,
    pub user_id: Option<i64>,
    pub user_version: Option<i64>,
    pub created_at: i64,
    pub updated_at: i64,
    pub checkin_at: Option<i64>,
}

/// The fields of a new RSVP.
#[derive(Clone, Copy, Debug)]
pub struct CreateRsvp {
    pub session_id: i64,
    pub spot_id: i64,
    pub contribution: i64,
    pub user_id: Option<i64>,
    pub user_version: Option<i64>,
}

/// An RSVP with the attendee filled in so far, for the "Who will be attending?" page.
#[derive(Clone, Debug)]
pub struct AttendeeRsvp {
    pub rsvp_id: i64,
    pub user_id: Option<i64>,
    pub spot_name: String,
    pub first_name: Option<String>,
    pub last_name: Option<String>,
    pub email: Option<String>,
    pub phone: Option<String>,
    pub contribution: i64,
}

/// An RSVP with its attendee, for the contribution and manage pages.
#[derive(Clone, Debug)]
pub struct ContributionRsvp {
    pub spot_name: String,
    pub first_name: String,
    pub last_name: String,
    pub email: String,
    pub phone: Option<String>,
    pub contribution: i64,
}

/// An attendee already holding a reservation for an event.
#[derive(Clone, Debug)]
pub struct UserRsvp {
    pub status: String,
    pub email: String,
    /// The user_id of the attendee whose email this is.
    pub attendee_user_id: i64,
    /// The user_id who owns the session this attendee is reserved under.
    pub owner_user_id: Option<i64>,
    pub owner_first_name: Option<String>,
    pub owner_last_name: Option<String>,
}

/// A row of the admin attendee list.
#[derive(Clone, Debug)]
pub struct AdminAttendeesRsvp {
    pub user_id: i64,
    pub first_name: String,
    pub last_name: String,
    pub email: String,
    pub guest_of: Option<String>,
    pub spot_name: Option<String>,
    pub contribution: i64,
    pub is_manual: bool,
    pub created_at: i64,
    pub session_id: i64,
    pub session_token: Option<String>,
    pub status: String,
    pub note: Option<String>,
}

/// The label shown for a status in the admin attendee list.
pub open spec fn status_label_of(status: Seq<char>) -> Seq<char> {
    if status == RsvpSession::PAYMENT_CONFIRMED@ {
        "Confirmed"@
    } else if status == RsvpSession::PAYMENT_PENDING@ {
        "Unpaid"@
    } else if status == RsvpSession::REFUND_PENDING@ || status == RsvpSession::REFUND_CONFIRMED@ {
        "Refunded"@
    } else if status == "manual"@ {
        "Manual"@
    } else {
        ""@
    }
}

impl AdminAttendeesRsvp {
    pub fn is_refunded(&self) -> (r: bool)
        ensures
            r == (self.status@ == RsvpSession::REFUND_PENDING@ || self.status@ == RsvpSession::REFUND_CONFIRMED@),
    {
        str_eq(self.status.as_str(), RsvpSession::REFUND_PENDING) || str_eq(
            self.status.as_str(),
            RsvpSession::REFUND_CONFIRMED,
        )
    }

    /// Human label for the status column.
    pub fn status_label(&self) -> (r: &'static str)
        ensures
            r@ == status_label_of(self.status@),
    {
        let s = self.status.as_str();
        if str_eq(s, RsvpSession::PAYMENT_CONFIRMED) {
            "Confirmed"
        } else if str_eq(s, RsvpSession::PAYMENT_PENDING) {
            "Unpaid"
        } else if str_eq(s, RsvpSession::REFUND_PENDING) || str_eq(s, RsvpSession::REFUND_CONFIRMED) {
            "Refunded"
        } else if str_eq(s, "manual") {
            "Manual"
        } else {
            ""
        }
    }
}

} // verus!

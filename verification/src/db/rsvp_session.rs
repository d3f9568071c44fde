use vstd::prelude::*;

use crate::clock::now_micros;
use crate::cookies::{cookie_domain, path_cookie, strict_cookie_head, SameSitePolicy};
use crate::db::rsvp::ContributionRsvp;
use crate::db::event::div_trunc;
use crate::text::str_eq;

verus! {

/// A guest's pass through the RSVP flow for one event. Timestamps are microseconds.
#[derive(Clone, Debug)]
pub struct RsvpSession {
    pub id: i64,
    pub event_id: i64,
    pub token: String,
    pub status: String,
    pub user_id: Option<i64>,
    pub user_version: Option<i64>,
    pub parent_session_id: Option<i64>,
    pub stripe_checkout_session_id: Option<String>,
    pub stripe_client_secret: Option<String>,
    pub stripe_payment_intent_id: Option<String>,
    pub stripe_charge_id: Option<i64>,
    pub stripe_refund_id: Option<String>,
    pub created_at: i64,
    pub updated_at: i64,
}

/// One line of a checkout: a spot name, how many of it, and the price of each.
#[derive(Clone, Debug)]
pub struct LineItem {
    pub name: String,
    pub quantity: i64,
    pub price: i64,
}

/// A line item as plain values: (name, quantity, price).
pub open spec fn line_item_view(item: LineItem) -> (Seq<char>, int, int) {
    (item.name@, item.quantity as int, item.price as int)
}

/// Position of the line item named `name` in `items`, or -1.
pub open spec fn item_index(items: Seq<(Seq<char>, int, int)>, name: Seq<char>) -> int
    decreases items.len(),
{
    if items.len() == 0 {
        -1
    } else if items.last().0 == name {
        items.len() - 1
    } else {
        item_index(items.drop_last(), name)
    }
}

/// The RSVPs grouped by spot name in order of first appearance: each group counts its
/// RSVPs and is priced at the first RSVP's contribution.
pub open spec fn group_line_items(rsvps: Seq<ContributionRsvp>) -> Seq<(Seq<char>, int, int)>
    decreases rsvps.len(),
{
    if rsvps.len() == 0 {
        Seq::empty()
    } else {
        let prev = group_line_items(rsvps.drop_last());
        let r = rsvps.last();
        let k = item_index(prev, r.spot_name@);
        if k < 0 {
            prev.push((r.spot_name@, 1, r.contribution as int))
        } else {
            prev.update(k, (prev[k].0, prev[k].1 + 1, prev[k].2))
        }
    }
}

pub proof fn lemma_item_index(items: Seq<(Seq<char>, int, int)>, name: Seq<char>)
    ensures
        -1 <= item_index(items, name) < items.len(),
        item_index(items, name) >= 0 ==> items[item_index(items, name)].0 == name,
        item_index(items, name) < 0 ==> forall|k: int| 0 <= k < items.len() ==> items[k].0 != name,
    decreases items.len(),
{
    if items.len() > 0 {
        lemma_item_index(items.drop_last(), name);
        assert forall|k: int| 0 <= k < items.len() - 1 implies items.drop_last()[k] == items[k] by {}
    }
}

pub proof fn lemma_group_line_items(rsvps: Seq<ContributionRsvp>)
    ensures
        group_line_items(rsvps).len() <= rsvps.len(),
        forall|a: int, b: int|
            0 <= a < b < group_line_items(rsvps).len() ==> group_line_items(rsvps)[a].0 != group_line_items(rsvps)[b].0,
        forall|k: int| 0 <= k < group_line_items(rsvps).len() ==> 1 <= #[trigger] group_line_items(rsvps)[k].1 <= rsvps.len(),
    decreases rsvps.len(),
{
    if rsvps.len() > 0 {
        let prev = group_line_items(rsvps.drop_last());
        lemma_group_line_items(rsvps.drop_last());
        lemma_item_index(prev, rsvps.last().spot_name@);
    }
}

/// The sum of the quantities of `items`.
pub open spec fn total_quantity(items: Seq<(Seq<char>, int, int)>) -> int
    decreases items.len(),
{
    if items.len() == 0 {
        0
    } else {
        total_quantity(items.drop_last()) + items.last().1
    }
}

proof fn lemma_total_quantity_update(items: Seq<(Seq<char>, int, int)>, k: int, item: (Seq<char>, int, int))
    requires
        0 <= k < items.len(),
    ensures
        total_quantity(items.update(k, item)) == total_quantity(items) - items[k].1 + item.1,
    decreases items.len(),
{
    let u = items.update(k, item);
    if k == items.len() - 1 {
        assert(u.drop_last() =~= items.drop_last());
    } else {
        assert(u.drop_last() =~= items.drop_last().update(k, item));
        lemma_total_quantity_update(items.drop_last(), k, item);
    }
}

/// Checkout bills every RSVP exactly once: each RSVP's spot has a line item, no two line
/// items share a spot name, and the quantities add up to the number of RSVPs.
pub proof fn lemma_line_items_count_every_rsvp(rsvps: Seq<ContributionRsvp>)
    ensures
        ({
            let items = group_line_items(rsvps);
            &&& total_quantity(items) == rsvps.len()
            &&& forall|a: int, b: int| 0 <= a < b < items.len() ==> #[trigger] items[a].0 != #[trigger] items[b].0
            &&& forall|i: int|
                0 <= i < rsvps.len() ==> exists|k: int| 0 <= k < items.len() && #[trigger] items[k].0 == (
                #[trigger] rsvps[i]).spot_name@
        }),
    decreases rsvps.len(),
{
    lemma_group_line_items(rsvps);
    if rsvps.len() > 0 {
        let prev = group_line_items(rsvps.drop_last());
        let items = group_line_items(rsvps);
        let r = rsvps.last();
        lemma_line_items_count_every_rsvp(rsvps.drop_last());
        lemma_item_index(prev, r.spot_name@);
        let k = item_index(prev, r.spot_name@);
        if k < 0 {
            assert(items.drop_last() =~= prev);
        } else {
            lemma_total_quantity_update(prev, k, (prev[k].0, prev[k].1 + 1, prev[k].2));
        }
        assert forall|i: int| 0 <= i < rsvps.len() implies exists|j: int| 0 <= j < items.len() && #[trigger] items[j].0 == (
            #[trigger] rsvps[i]).spot_name@ by {
            if i == rsvps.len() - 1 {
                if k < 0 {
                    assert(items[prev.len() as int].0 == r.spot_name@);
                } else {
                    assert(items[k].0 == r.spot_name@);
                }
            } else {
                assert(rsvps.drop_last()[i] == rsvps[i]);
                let j = choose|j: int| 0 <= j < prev.len() && #[trigger] prev[j].0 == rsvps.drop_last()[i].spot_name@;
                assert(items[j].0 == prev[j].0);
            }
        }
    }
}

/// The RSVPs for the spot named `name`, in order.
pub open spec fn rsvps_for_spot(rsvps: Seq<ContributionRsvp>, name: Seq<char>) -> Seq<ContributionRsvp> {
    rsvps.filter(|r: ContributionRsvp| r.spot_name@ == name)
}

proof fn lemma_rsvps_for_spot_last(rsvps: Seq<ContributionRsvp>, name: Seq<char>)
    requires
        rsvps.len() > 0,
    ensures
        rsvps_for_spot(rsvps, name) == if rsvps.last().spot_name@ == name {
            rsvps_for_spot(rsvps.drop_last(), name).push(rsvps.last())
        } else {
            rsvps_for_spot(rsvps.drop_last(), name)
        },
{
    reveal(Seq::filter);
}

/// Each line item bills exactly the RSVPs for its spot: its quantity is the number of
/// RSVPs with that spot name, and its price is the contribution of the first of them; and
/// every spot name that has an RSVP has a line item.
pub proof fn lemma_line_item_quantity_counts_its_spot(rsvps: Seq<ContributionRsvp>)
    ensures
        forall|k: int| 0 <= k < group_line_items(rsvps).len() ==> {
            let item = #[trigger] group_line_items(rsvps)[k];
            let named = rsvps_for_spot(rsvps, item.0);
            &&& named.len() > 0
            &&& item.1 == named.len()
            &&& item.2 == named[0].contribution as int
        },
        forall|name: Seq<char>|
            #[trigger] rsvps_for_spot(rsvps, name).len() > 0 ==> exists|k: int|
                0 <= k < group_line_items(rsvps).len() && group_line_items(rsvps)[k].0 == name,
    decreases rsvps.len(),
{
    if rsvps.len() == 0 {
        assert forall|name: Seq<char>| #[trigger] rsvps_for_spot(rsvps, name).len() == 0 by {
            reveal(Seq::filter);
        }
    } else {
        let prev_rsvps = rsvps.drop_last();
        let prev = group_line_items(prev_rsvps);
        let items = group_line_items(rsvps);
        let r = rsvps.last();
        let rn = r.spot_name@;
        lemma_line_item_quantity_counts_its_spot(prev_rsvps);
        lemma_group_line_items(prev_rsvps);
        lemma_item_index(prev, rn);
        let k = item_index(prev, rn);
        assert forall|j: int| 0 <= j < items.len() implies {
            let item = #[trigger] items[j];
            let named = rsvps_for_spot(rsvps, item.0);
            &&& named.len() > 0
            &&& item.1 == named.len()
            &&& item.2 == named[0].contribution as int
        } by {
            lemma_rsvps_for_spot_last(rsvps, items[j].0);
            if k < 0 {
                if j == prev.len() {
                    if rsvps_for_spot(prev_rsvps, rn).len() > 0 {
                        let m = choose|m: int| 0 <= m < prev.len() && prev[m].0 == rn;
                        assert(prev[m].0 != rn);
                    }
                    assert(items[j] == (rn, 1int, r.contribution as int));
                } else {
                    assert(items[j] == prev[j]);
                    assert(prev[j].0 != rn);
                }
            } else {
                if j == k {
                    assert(items[j].0 == rn);
                    assert(prev[k].0 == rn);
                } else {
                    assert(items[j] == prev[j]);
                    assert(prev[j].0 != prev[k].0);
                }
            }
        }
        assert forall|name: Seq<char>| #[trigger] rsvps_for_spot(rsvps, name).len() > 0 implies exists|j: int|
            0 <= j < items.len() && items[j].0 == name by {
            lemma_rsvps_for_spot_last(rsvps, name);
            if name == rn {
                if k < 0 {
                    assert(items[prev.len() as int].0 == name);
                } else {
                    assert(items[k].0 == name);
                }
            } else {
                assert(rsvps_for_spot(prev_rsvps, name).len() > 0);
                let m = choose|m: int| 0 <= m < prev.len() && prev[m].0 == name;
                assert(items[m].0 == name);
            }
        }
    }
}

/// Whether a client secret last updated at `updated_at` is expired at `now`.
pub open spec fn stripe_expired_at(updated_at: i64, now: i64) -> bool {
    now - updated_at >= RsvpSession::STRIPE_EXPIRY_MINUTES * MICROS_PER_MINUTE
}

/// Microseconds in a minute.
pub const MICROS_PER_MINUTE: i64 = 60_000_000;

impl RsvpSession {
    pub const SELECTION: &'static str = "selection";
    pub const ATTENDEES: &'static str = "attendees";
    pub const CONTRIBUTION: &'static str = "contribution";
    pub const PAYMENT_PENDING: &'static str = "payment_pending";
    pub const PAYMENT_CONFIRMED: &'static str = "payment_confirmed";
    pub const REFUND_PENDING: &'static str = "refund_pending";
    pub const REFUND_CONFIRMED: &'static str = "refund_confirmed";

    pub const EXPIRY_TIME_SQL: &'static str = "-31 minutes";
    /// A Stripe client secret is expired once it is older than this many minutes.
    pub const STRIPE_EXPIRY_MINUTES: i64 = 14;

    /// Whether the stripe client secret has expired at `now` (older than 14 minutes): at
    /// least `STRIPE_EXPIRY_MINUTES` whole minutes have passed since the last update.
    pub fn is_stripe_expired_at(&self, now: i64) -> (r: bool)
        ensures
            r == (now - self.updated_at >= RsvpSession::STRIPE_EXPIRY_MINUTES * MICROS_PER_MINUTE),
    {
        let limit: i64 = RsvpSession::STRIPE_EXPIRY_MINUTES * MICROS_PER_MINUTE;
        let age: i128 = now as i128 - self.updated_at as i128;
        age >= limit as i128
    }

    /// Group RSVPs into checkout line items, one per spot name, priced at the first
    /// RSVP's contribution for that name.
    pub fn line_items(&self, rsvps: &[ContributionRsvp]) -> (items: Vec<LineItem>)
        requires
            rsvps@.len() <= i64::MAX,
        ensures
            items@.map_values(|i: LineItem| line_item_view(i)) == group_line_items(rsvps@),
    {
        let mut items: Vec<LineItem> = Vec::new();
        let mut i: usize = 0;
        while i < rsvps.len()
            invariant
                i <= rsvps@.len(),
                rsvps@.len() <= i64::MAX,
                items@.map_values(|i: LineItem| line_item_view(i)) == group_line_items(rsvps@.take(i as int)),
            decreases rsvps@.len() - i,
        {
            let ghost prev = group_line_items(rsvps@.take(i as int));
            proof {
                assert(rsvps@.take(i + 1).drop_last() =~= rsvps@.take(i as int));
                assert(rsvps@.take(i + 1).last() == rsvps@[i as int]);
                lemma_group_line_items(rsvps@.take(i as int));
                lemma_item_index(prev, rsvps@[i as int].spot_name@);
            }
            let rsvp = &rsvps[i];
            let mut j: usize = 0;
            let mut found = false;
            while j < items.len() && !found
                invariant
                    j <= items@.len(),
                    prev == items@.map_values(|i: LineItem| line_item_view(i)),
                    found ==> j < items@.len() && items@[j as int].name@ == rsvp.spot_name@,
                    forall|k: int| 0 <= k < j ==> items@[k].name@ != rsvp.spot_name@,
                decreases items@.len() - j, if found { 0int } else { 1int },
            {
                if str_eq(items[j].name.as_str(), rsvp.spot_name.as_str()) {
                    found = true;
                } else {
                    j = j + 1;
                }
            }
            if found {
                proof {
                    assert(prev[j as int].0 == rsvp.spot_name@);
                    // names in `prev` are distinct, so `j` is the group of this name
                    if item_index(prev, rsvp.spot_name@) != j as int {
                        let k = item_index(prev, rsvp.spot_name@);
                        assert(k >= 0);
                        assert(prev[k].0 == rsvp.spot_name@);
                    }
                    assert(item_index(prev, rsvp.spot_name@) == j as int);
                    assert(prev[j as int].1 <= i);
                }
                let old = &items[j];
                let updated = LineItem { name: old.name.clone(), quantity: old.quantity + 1, price: old.price };
                items.set(j, updated);
            } else {
                proof {
                    assert forall|k: int| 0 <= k < prev.len() implies prev[k].0 != rsvp.spot_name@ by {
                        assert(prev[k] == line_item_view(items@[k]));
                    }
                    assert(item_index(prev, rsvp.spot_name@) < 0);
                }
                items.push(LineItem { name: rsvp.spot_name.clone(), quantity: 1, price: rsvp.contribution });
            }
            proof {
                assert(items@.map_values(|i: LineItem| line_item_view(i)) =~= group_line_items(rsvps@.take(i + 1)));
            }
            i = i + 1;
        }
        proof {
            assert(rsvps@.take(rsvps@.len() as int) =~= rsvps@);
        }
        items
    }

    /// The `Set-Cookie` value that carries this session's token, scoped to `path` on
    /// `domain`; `secure` when the site is served over TLS.
    pub fn cookie(&self, path: &str, secure: bool, domain: &str) -> (c: String)
        ensures
            c@ == strict_cookie_head("rsvp_session"@, self.token@, secure) + "; Path="@ + path@ + "; Domain="@
                + cookie_domain(domain@),
    {
        path_cookie("rsvp_session", self.token.as_str(), true, SameSitePolicy::Strict, secure, domain, path)
    }

    /// The same for the cookie of a child session (a guest's own RSVP).
    pub fn child_cookie(&self, path: &str, secure: bool, domain: &str) -> (c: String)
        ensures
            c@ == strict_cookie_head("rsvp_child_session"@, self.token@, secure) + "; Path="@ + path@ + "; Domain="@
                + cookie_domain(domain@),
    {
        path_cookie("rsvp_child_session", self.token.as_str(), true, SameSitePolicy::Strict, secure, domain, path)
    }

    /// Whether the stripe client secret is expired (older than 14 minutes); reads the clock.
    /// The answer is `is_stripe_expired_at` at the instant the clock reported, so a secret
    /// updated less than 14 minutes before the last instant is never expired.
    pub fn is_stripe_expired(&self) -> (r: bool)
        ensures
            exists|now: i64| r == #[trigger] stripe_expired_at(self.updated_at, now),
            self.updated_at > i64::MAX - RsvpSession::STRIPE_EXPIRY_MINUTES * MICROS_PER_MINUTE ==> !r,
    {
        let now = now_micros();
        let r = self.is_stripe_expired_at(now);
        assert(r == stripe_expired_at(self.updated_at, now));
        r
    }
}

/// The fields of a session that the admin can set by hand.
#[derive(Clone, Debug)]
pub struct UpdateRsvpSession {
    pub status: String,
    pub transaction_id: Option<i64>,
    pub refund_id: Option<i64>,
}

/// A session of a recent event as read for the debug view. Timestamps are microseconds.
#[derive(Clone, Debug)]
pub struct DebugSessionRow {
    pub id: i64,
    pub token: String,
    pub status: String,
    pub created_at: i64,
    pub updated_at: i64,
    pub event_title: String,
    pub event_slug: String,
    pub user_email: Option<String>,
    pub parent_token: Option<String>,
}

/// An RSVP as shown in the debug view.
#[derive(Clone, Debug)]
pub struct DebugRsvp {
    pub session_id: i64,
    pub spot_name: String,
    pub contribution: i64,
    pub email: Option<String>,
}

/// A session in the debug view, with its RSVPs and the minutes left before it expires.
#[derive(Clone, Debug)]
pub struct DebugSession {
    pub id: i64,
    pub token: String,
    pub status: String,
    pub created_at: i64,
    pub updated_at: i64,
    pub event_title: String,
    pub event_slug: String,
    pub user_email: Option<String>,
    pub parent_token: Option<String>,
    pub rsvps: Vec<DebugRsvp>,
    pub expires_in: i64,
}

/// The minutes left before a draft session updated at `updated_at` expires, at `now`:
/// 31 less the whole minutes since the update.
pub open spec fn expires_in_at(updated_at: i64, now: i64) -> int {
    31 - div_trunc(now - updated_at, MICROS_PER_MINUTE as int)
}

/// Whether row `i` repeats the id of an earlier row (its RSVPs went to that one).
pub open spec fn repeats_earlier_id(rows: Seq<DebugSessionRow>, i: int) -> bool {
    exists|j: int| 0 <= j < i && #[trigger] rows[j].id == rows[i].id
}

/// The RSVPs of session `id`, in order.
pub open spec fn rsvps_of_session(rsvps: Seq<DebugRsvp>, id: i64) -> Seq<DebugRsvp> {
    rsvps.filter(|r: DebugRsvp| r.session_id == id)
}

/// The debug view of `rows`: each row in order, with the RSVPs of its session (none for a
/// row whose id an earlier row already took) and its minutes left at `now`.
pub open spec fn debug_session_of(rows: Seq<DebugSessionRow>, rsvps: Seq<DebugRsvp>, now: i64, i: int, s: DebugSession) -> bool {
    let row = rows[i];
    &&& s.id == row.id
    &&& s.token == row.token
    &&& s.status == row.status
    &&& s.created_at == row.created_at
    &&& s.updated_at == row.updated_at
    &&& s.event_title == row.event_title
    &&& s.event_slug == row.event_slug
    &&& s.user_email == row.user_email
    &&& s.parent_token == row.parent_token
    &&& s.rsvps@ == (if repeats_earlier_id(rows, i) { Seq::empty() } else { rsvps_of_session(rsvps, row.id) })
    &&& s.expires_in == expires_in_at(row.updated_at, now)
}

/// The index of the first row whose id is `id`, if any.
fn first_row_with_id(ids: &Vec<i64>, id: i64) -> (k: Option<usize>)
    ensures
        match k {
            Some(k) => k < ids@.len() && ids@[k as int] == id && forall|j: int| 0 <= j < k ==> ids@[j] != id,
            None => forall|j: int| 0 <= j < ids@.len() ==> ids@[j] != id,
        },
{
    let mut j: usize = 0;
    while j < ids.len()
        invariant
            j <= ids@.len(),
            forall|m: int| 0 <= m < j ==> ids@[m] != id,
        decreases ids@.len() - j,
    {
        if ids[j] == id {
            return Some(j);
        }
        j = j + 1;
    }
    None
}

proof fn lemma_filter_front(r: DebugRsvp, tail: Seq<DebugRsvp>, id: i64)
    ensures
        rsvps_of_session(seq![r] + tail, id) == if r.session_id == id {
            seq![r] + rsvps_of_session(tail, id)
        } else {
            rsvps_of_session(tail, id)
        },
{
    let f = |x: DebugRsvp| x.session_id == id;
    Seq::filter_distributes_over_add(seq![r], tail, f);
    reveal(Seq::filter);
    assert(seq![r].drop_last() =~= Seq::<DebugRsvp>::empty());
    assert(Seq::<DebugRsvp>::empty().filter(f) =~= Seq::<DebugRsvp>::empty());
    if r.session_id == id {
        assert(seq![r].filter(f) =~= seq![r]);
    } else {
        assert(seq![r].filter(f) =~= Seq::<DebugRsvp>::empty());
    }
}

/// Builds the debug view: each session with its RSVPs and the minutes before it expires.
pub fn debug_sessions(rows: Vec<DebugSessionRow>, rsvps: Vec<DebugRsvp>, now: i64) -> (out: Vec<DebugSession>)
    ensures
        out@.len() == rows@.len(),
        forall|i: int| 0 <= i < rows@.len() ==> debug_session_of(rows@, rsvps@, now, i, #[trigger] out@[i]),
{
    let ghost rows0 = rows@;
    let ghost rsvps0 = rsvps@;
    // The ids of the rows, and one bucket of RSVPs per row.
    let mut ids: Vec<i64> = Vec::new();
    let mut buckets: Vec<Vec<DebugRsvp>> = Vec::new();
    let mut i: usize = 0;
    while i < rows.len()
        invariant
            i <= rows@.len(),
            rows@ == rows0,
            ids@.len() == i,
            buckets@.len() == i,
            forall|m: int| 0 <= m < i ==> ids@[m] == rows0[m].id,
            forall|m: int| 0 <= m < i ==> (#[trigger] buckets@[m])@ == Seq::<DebugRsvp>::empty(),
        decreases rows@.len() - i,
    {
        ids.push(rows[i].id);
        buckets.push(Vec::new());
        i = i + 1;
    }
    proof {
        assert forall|m: int| 0 <= m < rows0.len() implies (#[trigger] buckets@[m])@ == (if repeats_earlier_id(rows0, m) {
            Seq::<DebugRsvp>::empty()
        } else {
            rsvps_of_session(rsvps0.skip(rsvps0.len() as int), rows0[m].id)
        }) by {
            assert(rsvps0.skip(rsvps0.len() as int) =~= Seq::<DebugRsvp>::empty());
            assert(Seq::<DebugRsvp>::empty().filter(|r: DebugRsvp| r.session_id == rows0[m].id) =~= Seq::<DebugRsvp>::empty()) by {
                reveal(Seq::filter);
            }
        }
    }
    // Deal the RSVPs, last first, to the front of the bucket of the first row of their session.
    let mut rest = rsvps;
    while rest.len() > 0
        invariant
            rest@.len() <= rsvps0.len(),
            rest@ == rsvps0.take(rest@.len() as int),
            ids@.len() == rows0.len(),
            buckets@.len() == rows0.len(),
            forall|m: int| 0 <= m < rows0.len() ==> ids@[m] == rows0[m].id,
            forall|m: int|
                0 <= m < rows0.len() ==> (#[trigger] buckets@[m])@ == (if repeats_earlier_id(rows0, m) {
                    Seq::<DebugRsvp>::empty()
                } else {
                    rsvps_of_session(rsvps0.skip(rest@.len() as int), rows0[m].id)
                }),
        decreases rest@.len(),
    {
        let ghost before = buckets@;
        let ghost len = rest@.len() as int;
        let r = rest.pop().unwrap();
        proof {
            assert(r == rsvps0[len - 1]);
            assert(rest@ =~= rsvps0.take(len - 1));
            assert(rsvps0.skip(len - 1) =~= seq![r] + rsvps0.skip(len));
        }
        match first_row_with_id(&ids, r.session_id) {
            Some(m) => {
                let ghost old_bucket = buckets@[m as int]@;
                buckets[m].insert(0, r);
                proof {
                    assert(!repeats_earlier_id(rows0, m as int)) by {
                        assert forall|j: int| 0 <= j < m implies #[trigger] rows0[j].id != rows0[m as int].id by {
                            assert(ids@[j] == rows0[j].id);
                        }
                    }
                    assert(buckets@[m as int]@ =~= seq![r] + old_bucket);
                    assert forall|q: int| 0 <= q < rows0.len() implies (#[trigger] buckets@[q])@ == (if repeats_earlier_id(rows0, q) {
                        Seq::<DebugRsvp>::empty()
                    } else {
                        rsvps_of_session(rsvps0.skip(len - 1), rows0[q].id)
                    }) by {
                        lemma_filter_front(r, rsvps0.skip(len), rows0[q].id);
                        if q != m {
                            assert(buckets@[q] == before[q]);
                            if rows0[q].id == r.session_id && !repeats_earlier_id(rows0, q) {
                                if q > m {
                                    assert(rows0[m as int].id == rows0[q].id);
                                } else {
                                    assert(ids@[q] == r.session_id);
                                }
                            }
                        }
                    }
                }
            },
            None => {
                proof {
                    assert forall|q: int| 0 <= q < rows0.len() implies (#[trigger] buckets@[q])@ == (if repeats_earlier_id(rows0, q) {
                        Seq::<DebugRsvp>::empty()
                    } else {
                        rsvps_of_session(rsvps0.skip(len - 1), rows0[q].id)
                    }) by {
                        lemma_filter_front(r, rsvps0.skip(len), rows0[q].id);
                        assert(ids@[q] != r.session_id);
                    }
                }
            },
        }
    }
    proof {
        assert(rsvps0.skip(0) =~= rsvps0);
    }
    // Pair each row with its bucket, in order.
    let mut out: Vec<DebugSession> = Vec::new();
    let mut rows_left = rows;
    let mut buckets_left = buckets;
    let ghost done_rsvps = buckets_left@;
    while rows_left.len() > 0
        invariant
            rows_left@.len() == buckets_left@.len(),
            out@.len() + rows_left@.len() == rows0.len(),
            rows_left@ == rows0.skip(out@.len() as int),
            buckets_left@ == done_rsvps.skip(out@.len() as int),
            done_rsvps.len() == rows0.len(),
            forall|m: int|
                0 <= m < rows0.len() ==> (#[trigger] done_rsvps[m])@ == (if repeats_earlier_id(rows0, m) {
                    Seq::<DebugRsvp>::empty()
                } else {
                    rsvps_of_session(rsvps0, rows0[m].id)
                }),
            forall|m: int| 0 <= m < out@.len() ==> debug_session_of(rows0, rsvps0, now, m, #[trigger] out@[m]),
        decreases rows_left@.len(),
    {
        let ghost k = out@.len() as int;
        let row = rows_left.remove(0);
        let bucket = buckets_left.remove(0);
        proof {
            assert(row == rows0[k]);
            assert(bucket == done_rsvps[k]);
            assert(rows_left@ =~= rows0.skip(k + 1));
            assert(buckets_left@ =~= done_rsvps.skip(k + 1));
        }
        let age: i128 = now as i128 - row.updated_at as i128;
        let minutes: i128 = age / (MICROS_PER_MINUTE as i128);
        proof {
            assert(-18446744073709551616 <= age <= 18446744073709551616);
        }
        let expires_in: i64 = (31 - minutes) as i64;
        let session = DebugSession {
            id: row.id,
            token: row.token,
            status: row.status,
            created_at: row.created_at,
            updated_at: row.updated_at,
            event_title: row.event_title,
            event_slug: row.event_slug,
            user_email: row.user_email,
            parent_token: row.parent_token,
            rsvps: bucket,
            expires_in,
        };
        out.push(session);
    }
    out
}

} // verus!

use std::collections::HashMap;
use vstd::prelude::*;

use crate::db::event::{div_trunc, fits_i64};
use crate::db::rsvp::{contributions_for, lemma_contributions_other_spots, lemma_contributions_permutation, EventRsvp};
use crate::text::str_eq;
use vstd::relations::*;
use vstd::seq_lib::lemma_sorted_unique;

verus! {

broadcast use vstd::std_specs::hash::group_hash_axioms;

/// RSVP counts per spot split by status.
#[derive(Clone, Copy, Debug, PartialEq, Eq)]
pub struct SpotCounts {
    /// Confirmed RSVPs (payment_pending or payment_confirmed)
    pub rsvp_count: i64,
    /// In-progress checkouts (selection, attendees, contribution)
    pub cart_count: i64,
}

/// A kind of place at an event that guests can reserve.
#[derive(Clone, Debug)]
pub struct Spot {
    pub id: i64,
    pub name: String,
    pub description: String,
    pub qty_total: i64,
    pub qty_per_person: i64,
    pub kind: String,
    pub sort: i64,
    /// kind = 'fixed'
    pub required_contribution: Option<i64>,
    /// kind = 'variable'
    pub min_contribution: Option<i64>,
    pub max_contribution: Option<i64>,
    pub suggested_contribution: Option<i64>,
    /// kind = 'work'
    pub required_notice_hours: Option<i64>,
    pub created_at: i64,
    pub updated_at: Option<i64>,
}

/// A spot as submitted by the event editor; `id` is `None` for a new one.
#[derive(Clone, Debug)]
pub struct UpdateSpot {
    pub id: Option<i64>,
    pub name: String,
    pub description: String,
    pub qty_total: i64,
    pub qty_per_person: i64,
    pub kind: String,
    pub sort: i64,
    pub required_contribution: Option<i64>,
    pub min_contribution: Option<i64>,
    pub max_contribution: Option<i64>,
    pub suggested_contribution: Option<i64>,
    pub required_notice_hours: Option<i64>,
}

/// Contribution statistics of the variable spots, keyed by spot id.
#[derive(Debug)]
pub struct SpotStats {
    pub stats: HashMap<i64, Vec<SpotStat>>,
}

/// A statistic of a variable spot, such as the median contribution.
#[derive(Clone, Debug)]
pub struct SpotStat {
    pub name: String,
    pub value: i64,
}

/// The order in which contributions are sorted.
pub open spec fn leq_i64() -> spec_fn(i64, i64) -> bool {
    |a: i64, b: i64| a <= b
}

/// `values` in ascending order.
pub open spec fn sorted_values(values: Seq<i64>) -> Seq<i64> {
    values.sort_by(leq_i64())
}

/// The median of an ascending sequence: the middle value, or the mean of the two middle
/// values rounded toward zero.
pub open spec fn median_of(sorted: Seq<i64>) -> int {
    let n = sorted.len() as int;
    if n % 2 == 0 {
        div_trunc(sorted[n / 2 - 1] + sorted[n / 2], 2)
    } else {
        sorted[n / 2] as int
    }
}

/// A statistic as plain values: (name, value).
pub open spec fn stat_view(s: SpotStat) -> (Seq<char>, int) {
    (s.name@, s.value as int)
}

/// The statistics shown for a variable spot with these contributions: the median, and the
/// maximum where it differs from the median.
pub open spec fn stats_of(values: Seq<i64>) -> Seq<(Seq<char>, int)> {
    let sorted = sorted_values(values);
    let median = median_of(sorted);
    let max = sorted.last() as int;
    if max > median {
        seq![("Median"@, median), ("Max"@, max)]
    } else {
        seq![("Median"@, median)]
    }
}

/// The statistics of the variable spots among `spots` that have RSVPs, keyed by spot id.
pub open spec fn spot_stats_map(spots: Seq<Spot>, rsvps: Seq<EventRsvp>) -> Map<i64, Seq<(Seq<char>, int)>>
    decreases spots.len(),
{
    if spots.len() == 0 {
        Map::empty()
    } else {
        let prev = spot_stats_map(spots.drop_last(), rsvps);
        let spot = spots.last();
        let values = contributions_for(rsvps, spot.id);
        if spot.kind@ == Spot::VARIABLE@ && values.len() > 0 {
            prev.insert(spot.id, stats_of(values))
        } else {
            prev
        }
    }
}

/// The median of every variable spot with an even number of RSVPs can be taken
/// without overflowing `i64`.
pub open spec fn stats_in_range(spots: Seq<Spot>, rsvps: Seq<EventRsvp>) -> bool {
    forall|i: int| 0 <= i < spots.len() ==> {
        let values = sorted_values(contributions_for(rsvps, #[trigger] spots[i].id));
        let n = values.len() as int;
        (spots[i].kind@ == Spot::VARIABLE@ && n > 0 && n % 2 == 0) ==> fits_i64(values[n / 2 - 1] + values[n / 2])
    }
}

/// The median shown for a variable spot lies between its smallest and largest
/// contribution, so the "Max" statistic, when shown, is above the median.
pub proof fn lemma_median_between_extremes(values: Seq<i64>)
    requires
        values.len() > 0,
    ensures
        ({
            let sorted = sorted_values(values);
            &&& sorted.len() == values.len()
            &&& forall|i: int| 0 <= i < values.len() ==> sorted[0] <= #[trigger] values[i] <= sorted.last()
            &&& sorted[0] <= median_of(sorted) <= sorted.last()
        }),
{
    let leq = leq_i64();
    assert(total_ordering(leq)) by {
        assert(reflexive(leq));
        assert(antisymmetric(leq));
        assert(transitive(leq));
        assert(strongly_connected(leq));
    }
    values.lemma_sort_by_ensures(leq);
    let sorted = sorted_values(values);
    assert(sorted.len() == values.len()) by {
        assert(values.to_multiset().len() == values.len()) by {
            broadcast use vstd::seq_lib::group_to_multiset_ensures;
        }
        assert(sorted.to_multiset().len() == sorted.len()) by {
            broadcast use vstd::seq_lib::group_to_multiset_ensures;
        }
    }
    assert forall|i: int| 0 <= i < values.len() implies sorted[0] <= #[trigger] values[i] <= sorted.last() by {
        broadcast use vstd::seq_lib::group_to_multiset_ensures;
        assert(values.to_multiset().count(values[i]) > 0);
        assert(sorted.to_multiset().count(values[i]) > 0);
        assert(sorted.contains(values[i]));
        let k = choose|k: int| 0 <= k < sorted.len() && sorted[k] == values[i];
        if k > 0 {
            assert(leq(sorted[0], sorted[k]));
        }
        if k < sorted.len() - 1 {
            assert(leq(sorted[k], sorted[sorted.len() - 1]));
        }
    }
    let n = sorted.len() as int;
    if n % 2 == 0 {
        let l = sorted[n / 2 - 1];
        let r = sorted[n / 2];
        if n / 2 - 1 > 0 {
            assert(leq(sorted[0], l));
        }
        assert(leq(l, r));
        if n / 2 < n - 1 {
            assert(leq(r, sorted[n - 1]));
        }
    } else {
        if n / 2 > 0 {
            assert(leq(sorted[0], sorted[n / 2]));
        }
        if n / 2 < n - 1 {
            assert(leq(sorted[n / 2], sorted[n - 1]));
        }
    }
}

/// How many of `values` satisfy `p`.
pub open spec fn count_where(values: Seq<i64>, p: spec_fn(i64) -> bool) -> nat
    decreases values.len(),
{
    if values.len() == 0 {
        0
    } else {
        count_where(values.drop_last(), p) + if p(values.last()) { 1nat } else { 0nat }
    }
}

/// How many of `values` lie strictly below `x`.
pub open spec fn count_below(values: Seq<i64>, x: int) -> nat {
    count_where(values, |v: i64| v < x)
}

/// How many of `values` lie at or below `x`.
pub open spec fn count_at_most(values: Seq<i64>, x: int) -> nat {
    count_where(values, |v: i64| v <= x)
}

/// `x` is the `i`-th smallest of `values`, counting from 0: it is one of them, at most `i`
/// of them lie below it, and more than `i` lie at or below it.
pub open spec fn is_ith_smallest(values: Seq<i64>, i: int, x: i64) -> bool {
    &&& values.contains(x)
    &&& count_below(values, x as int) <= i
    &&& count_at_most(values, x as int) >= i + 1
}

proof fn lemma_count_split(s: Seq<i64>, p: spec_fn(i64) -> bool, k: int)
    requires
        0 <= k <= s.len(),
    ensures
        count_where(s, p) == count_where(s.take(k), p) + count_where(s.skip(k), p),
    decreases s.len(),
{
    if k == s.len() {
        assert(s.take(k) =~= s);
        assert(s.skip(k) =~= Seq::<i64>::empty());
    } else {
        lemma_count_split(s.drop_last(), p, k);
        assert(s.drop_last().take(k) =~= s.take(k));
        assert(s.drop_last().skip(k) =~= s.skip(k).drop_last());
        assert(s.skip(k).last() == s.last());
    }
}

proof fn lemma_count_bounds(s: Seq<i64>, p: spec_fn(i64) -> bool)
    ensures
        count_where(s, p) <= s.len(),
        (forall|j: int| 0 <= j < s.len() ==> !p(#[trigger] s[j])) ==> count_where(s, p) == 0,
        (forall|j: int| 0 <= j < s.len() ==> p(#[trigger] s[j])) ==> count_where(s, p) == s.len(),
    decreases s.len(),
{
    if s.len() > 0 {
        lemma_count_bounds(s.drop_last(), p);
        if forall|j: int| 0 <= j < s.len() ==> !p(#[trigger] s[j]) {
            assert forall|j: int| 0 <= j < s.drop_last().len() implies !p(#[trigger] s.drop_last()[j]) by {
                assert(s.drop_last()[j] == s[j]);
            }
            assert(!p(s[s.len() - 1]));
        }
        if forall|j: int| 0 <= j < s.len() ==> p(#[trigger] s[j]) {
            assert forall|j: int| 0 <= j < s.drop_last().len() implies p(#[trigger] s.drop_last()[j]) by {
                assert(s.drop_last()[j] == s[j]);
            }
            assert(p(s[s.len() - 1]));
        }
    }
}

proof fn lemma_count_remove(t: Seq<i64>, p: spec_fn(i64) -> bool, j: int)
    requires
        0 <= j < t.len(),
    ensures
        count_where(t, p) == count_where(t.remove(j), p) + if p(t[j]) { 1nat } else { 0nat },
    decreases t.len(),
{
    if j == t.len() - 1 {
        assert(t.remove(j) =~= t.drop_last());
    } else {
        lemma_count_remove(t.drop_last(), p, j);
        assert(t.remove(j).drop_last() =~= t.drop_last().remove(j));
        assert(t.remove(j).last() == t.last());
        assert(t.drop_last()[j] == t[j]);
    }
}

proof fn lemma_count_permutation(s: Seq<i64>, t: Seq<i64>, p: spec_fn(i64) -> bool)
    requires
        s.to_multiset() == t.to_multiset(),
    ensures
        count_where(s, p) == count_where(t, p),
    decreases s.len(),
{
    broadcast use vstd::seq_lib::group_to_multiset_ensures;
    if s.len() == 0 {
        assert(s.to_multiset().len() == s.len());
        assert(t.to_multiset().len() == t.len());
        assert(t.len() == 0);
        assert(t =~= s);
    } else {
        let x = s.last();
        assert(s =~= s.drop_last().push(x));
        assert(s.to_multiset().count(x) > 0);
        assert(t.contains(x));
        let j = choose|j: int| 0 <= j < t.len() && t[j] == x;
        assert(t.remove(j).to_multiset() =~= t.to_multiset().remove(x));
        assert(s.drop_last().to_multiset() =~= s.to_multiset().remove(x));
        lemma_count_permutation(s.drop_last(), t.remove(j), p);
        lemma_count_remove(t, p, j);
    }
}

proof fn lemma_sorted_ith(s: Seq<i64>, i: int)
    requires
        sorted_by(s, leq_i64()),
        0 <= i < s.len(),
    ensures
        is_ith_smallest(s, i, s[i]),
{
    let x = s[i];
    let below = |v: i64| v < x as int;
    let at_most = |v: i64| v <= x as int;
    assert(s.contains(x));
    lemma_count_split(s, below, i);
    lemma_count_bounds(s.take(i), below);
    assert forall|j: int| 0 <= j < s.skip(i).len() implies !below(#[trigger] s.skip(i)[j]) by {
        assert(s.skip(i)[j] == s[i + j]);
        if j > 0 {
            assert(leq_i64()(s[i], s[i + j]));
        }
    }
    lemma_count_bounds(s.skip(i), below);
    lemma_count_split(s, at_most, i + 1);
    assert forall|j: int| 0 <= j < s.take(i + 1).len() implies at_most(#[trigger] s.take(i + 1)[j]) by {
        assert(s.take(i + 1)[j] == s[j]);
        if j < i {
            assert(leq_i64()(s[j], s[i]));
        }
    }
    lemma_count_bounds(s.take(i + 1), at_most);
    assert(count_below(s, x as int) == count_where(s, below));
    assert(count_at_most(s, x as int) == count_where(s, at_most));
}

proof fn lemma_ith_smallest_of_sorted(values: Seq<i64>, i: int)
    requires
        0 <= i < values.len(),
    ensures
        sorted_values(values).len() == values.len(),
        is_ith_smallest(values, i, sorted_values(values)[i]),
{
    let leq = leq_i64();
    assert(total_ordering(leq)) by {
        assert(reflexive(leq));
        assert(antisymmetric(leq));
        assert(transitive(leq));
        assert(strongly_connected(leq));
    }
    values.lemma_sort_by_ensures(leq);
    let sorted = sorted_values(values);
    assert(sorted.len() == values.len()) by {
        broadcast use vstd::seq_lib::group_to_multiset_ensures;
        assert(values.to_multiset().len() == values.len());
        assert(sorted.to_multiset().len() == sorted.len());
    }
    lemma_sorted_ith(sorted, i);
    let x = sorted[i];
    lemma_count_permutation(sorted, values, |v: i64| v < x as int);
    lemma_count_permutation(sorted, values, |v: i64| v <= x as int);
    assert(values.contains(x)) by {
        broadcast use vstd::seq_lib::group_to_multiset_ensures;
        assert(sorted.to_multiset().count(x) > 0);
    }
}

/// Whether `st` describes the contributions `values` in their own terms: the median of an
/// odd number of them is the middle one (as many at or below it as at or above it); of an
/// even number, the mean, rounded toward zero, of the two middle ones; and the maximum,
/// shown only where it exceeds the median, is the largest contribution.
pub open spec fn stats_describe(st: Seq<(Seq<char>, int)>, values: Seq<i64>) -> bool {
    let n = values.len() as int;
    &&& 1 <= st.len() <= 2
    &&& st[0].0 == "Median"@
    &&& n % 2 == 1 ==> exists|m: i64| #[trigger] is_ith_smallest(values, n / 2, m) && st[0].1 == m
    &&& n % 2 == 0 ==> exists|l: i64, r: i64|
        #[trigger] is_ith_smallest(values, n / 2 - 1, l) && #[trigger] is_ith_smallest(values, n / 2, r)
            && st[0].1 == div_trunc(l + r, 2)
    &&& (st.len() == 2) == (exists|i: int| 0 <= i < n && values[i] > st[0].1)
    &&& st.len() == 2 ==> st[1].0 == "Max"@ && values.contains(st[1].1 as i64) && forall|i: int|
        0 <= i < n ==> values[i] <= st[1].1
}

/// The statistics of a nonempty list of contributions describe them: median and maximum
/// as `stats_describe` says.
pub proof fn lemma_stats_describe_contributions(values: Seq<i64>)
    requires
        values.len() > 0,
    ensures
        stats_describe(stats_of(values), values),
{
    let sorted = sorted_values(values);
    let n = values.len() as int;
    lemma_median_between_extremes(values);
    lemma_ith_smallest_of_sorted(values, n / 2);
    if n % 2 == 0 {
        lemma_ith_smallest_of_sorted(values, n / 2 - 1);
    }
    lemma_ith_smallest_of_sorted(values, n - 1);
    let st = stats_of(values);
    let median = median_of(sorted);
    let max = sorted.last();
    assert(sorted[n - 1] == max);
    if max > median {
        assert(values.contains(max));
        let i = choose|i: int| 0 <= i < values.len() && values[i] == max;
        assert(values[i] > st[0].1);
    } else {
        assert forall|i: int| 0 <= i < n implies !(values[i] > st[0].1) by {
            assert(values[i] <= sorted.last());
        }
    }
}

/// Every spot that `Spot::stats` reports is a variable spot of the event with RSVPs, and
/// its statistics describe the contributions of the RSVPs for it.
pub proof fn lemma_spot_stats_describe_contributions(spots: Seq<Spot>, rsvps: Seq<EventRsvp>, id: i64)
    requires
        spot_stats_map(spots, rsvps).contains_key(id),
    ensures
        exists|k: int| 0 <= k < spots.len() && (#[trigger] spots[k]).id == id && spots[k].kind@ == Spot::VARIABLE@,
        contributions_for(rsvps, id).len() > 0,
        stats_describe(spot_stats_map(spots, rsvps)[id], contributions_for(rsvps, id)),
    decreases spots.len(),
{
    let prev = spot_stats_map(spots.drop_last(), rsvps);
    let spot = spots.last();
    let values = contributions_for(rsvps, spot.id);
    if spot.kind@ == Spot::VARIABLE@ && values.len() > 0 && spot.id == id {
        lemma_stats_describe_contributions(values);
        assert(spots[spots.len() - 1] == spot);
    } else {
        lemma_spot_stats_describe_contributions(spots.drop_last(), rsvps, id);
        let k = choose|k: int| 0 <= k < spots.drop_last().len() && (#[trigger] spots.drop_last()[k]).id == id
            && spots.drop_last()[k].kind@ == Spot::VARIABLE@;
        assert(spots[k] == spots.drop_last()[k]);
    }
}

/// Every variable spot of the event that has RSVPs gets statistics.
pub proof fn lemma_spot_stats_cover_variable_spots(spots: Seq<Spot>, rsvps: Seq<EventRsvp>, k: int)
    requires
        0 <= k < spots.len(),
        spots[k].kind@ == Spot::VARIABLE@,
        contributions_for(rsvps, spots[k].id).len() > 0,
    ensures
        spot_stats_map(spots, rsvps).contains_key(spots[k].id),
    decreases spots.len(),
{
    if k < spots.len() - 1 {
        assert(spots.drop_last()[k] == spots[k]);
        lemma_spot_stats_cover_variable_spots(spots.drop_last(), rsvps, k);
    }
}

proof fn lemma_sorted_values_by_multiset(a: Seq<i64>, b: Seq<i64>)
    requires
        a.to_multiset() == b.to_multiset(),
    ensures
        sorted_values(a) == sorted_values(b),
        a.len() == b.len(),
{
    let leq = leq_i64();
    assert(total_ordering(leq)) by {
        assert(reflexive(leq));
        assert(antisymmetric(leq));
        assert(transitive(leq));
        assert(strongly_connected(leq));
    }
    a.lemma_sort_by_ensures(leq);
    b.lemma_sort_by_ensures(leq);
    lemma_sorted_unique(a.sort_by(leq), b.sort_by(leq), leq);
    assert(a.len() == b.len()) by {
        assert(a.to_multiset().len() == a.len()) by {
            broadcast use vstd::seq_lib::group_to_multiset_ensures;
        }
        assert(b.to_multiset().len() == b.len()) by {
            broadcast use vstd::seq_lib::group_to_multiset_ensures;
        }
    }
}

/// The statistics do not depend on the order of the RSVPs, nor on RSVPs for spots that are
/// not variable spots of the event; neither does whether they can be taken within `i64`, so
/// a call that may be made on the one list may be made on the other.
pub proof fn lemma_stats_ignore_order_and_other_spots(
    spots: Seq<Spot>,
    rsvps: Seq<EventRsvp>,
    reordered: Seq<EventRsvp>,
    extra: Seq<EventRsvp>,
)
    requires
        reordered.to_multiset() == rsvps.to_multiset(),
        forall|i: int, k: int|
            0 <= i < extra.len() && 0 <= k < spots.len() && spots[k].kind@ == Spot::VARIABLE@ ==> #[trigger] extra[i].spot_id
                != #[trigger] spots[k].id,
    ensures
        spot_stats_map(spots, reordered) == spot_stats_map(spots, rsvps),
        spot_stats_map(spots, rsvps + extra) == spot_stats_map(spots, rsvps),
        stats_in_range(spots, reordered) == stats_in_range(spots, rsvps),
        stats_in_range(spots, rsvps + extra) == stats_in_range(spots, rsvps),
    decreases spots.len(),
{
    assert forall|i: int| 0 <= i < spots.len() implies sorted_values(contributions_for(reordered, #[trigger] spots[i].id))
        == sorted_values(contributions_for(rsvps, spots[i].id)) by {
        lemma_contributions_permutation(reordered, rsvps, spots[i].id);
        lemma_sorted_values_by_multiset(contributions_for(reordered, spots[i].id), contributions_for(rsvps, spots[i].id));
    }
    assert forall|i: int| 0 <= i < spots.len() && spots[i].kind@ == Spot::VARIABLE@ implies contributions_for(
        rsvps + extra,
        #[trigger] spots[i].id,
    ) == contributions_for(rsvps, spots[i].id) by {
        assert forall|j: int| 0 <= j < extra.len() implies #[trigger] extra[j].spot_id != spots[i].id by {
            assert(extra[j].spot_id != spots[i].id);
        }
        lemma_contributions_other_spots(rsvps, extra, spots[i].id);
    }
    if spots.len() > 0 {
        let prev = spots.drop_last();
        assert forall|i: int, k: int|
            0 <= i < extra.len() && 0 <= k < prev.len() && prev[k].kind@ == Spot::VARIABLE@ implies #[trigger] extra[i].spot_id
                != #[trigger] prev[k].id by {
            assert(prev[k] == spots[k]);
        }
        lemma_stats_ignore_order_and_other_spots(prev, rsvps, reordered, extra);
        let spot = spots.last();
        assert(spot == spots[spots.len() - 1]);
        lemma_contributions_permutation(reordered, rsvps, spot.id);
        lemma_sorted_values_by_multiset(contributions_for(reordered, spot.id), contributions_for(rsvps, spot.id));
        if spot.kind@ == Spot::VARIABLE@ {
            assert forall|i: int| 0 <= i < extra.len() implies #[trigger] extra[i].spot_id != spot.id by {
                assert(extra[i].spot_id != spots[spots.len() - 1].id);
            }
            lemma_contributions_other_spots(rsvps, extra, spot.id);
        }
    }
}

/// Sorts `values` ascending.
pub fn sort_values(values: &Vec<i64>) -> (sorted: Vec<i64>)
    ensures
        sorted@ == sorted_values(values@),
{
    broadcast use vstd::seq_lib::group_to_multiset_ensures;

    let mut out: Vec<i64> = Vec::new();
    let mut i: usize = 0;
    while i < values.len()
        invariant
            i <= values@.len(),
            sorted_by(out@, leq_i64()),
            out@.to_multiset() == values@.take(i as int).to_multiset(),
        decreases values@.len() - i,
    {
        let x = values[i];
        let mut p: usize = 0;
        while p < out.len() && out[p] <= x
            invariant
                p <= out@.len(),
                forall|k: int| 0 <= k < p ==> out@[k] <= x,
            decreases out@.len() - p,
        {
            p = p + 1;
        }
        let ghost before = out@;
        proof {
            assert(p < before.len() ==> before[p as int] > x);
            assert forall|k: int| p <= k < before.len() implies before[k] > x by {
                if p < before.len() {
                    assert(leq_i64()(before[p as int], before[k]) || k == p);
                }
            }
        }
        out.insert(p, x);
        proof {
            assert(out@ == before.insert(p as int, x));
            assert forall|a: int, b: int| 0 <= a < b < out@.len() implies #[trigger] leq_i64()(out@[a], out@[b]) by {
                if b < p {
                    assert(leq_i64()(before[a], before[b]));
                } else if a < p && b == p {
                } else if a < p {
                    assert(out@[b] == before[b - 1]);
                } else if a == p {
                    assert(out@[b] == before[b - 1]);
                } else {
                    assert(leq_i64()(before[a - 1], before[b - 1]));
                }
            }
            assert(values@.take(i + 1) =~= values@.take(i as int).push(x));
            vstd::seq_lib::to_multiset_build(values@.take(i as int), x);
            vstd::seq_lib::to_multiset_insert(before, p as int, x);
        }
        i = i + 1;
    }
    proof {
        assert(values@.take(values@.len() as int) =~= values@);
        let leq = leq_i64();
        assert(total_ordering(leq)) by {
            assert(reflexive(leq));
            assert(antisymmetric(leq));
            assert(transitive(leq));
            assert(strongly_connected(leq));
        }
        values@.lemma_sort_by_ensures(leq);
        lemma_sorted_unique(out@, values@.sort_by(leq), leq);
    }
    out
}

/// The pledges of `rsvps` for the spot `spot_id`, in order.
pub fn spot_contributions(rsvps: &[EventRsvp], spot_id: i64) -> (values: Vec<i64>)
    ensures
        values@ == contributions_for(rsvps@, spot_id),
{
    let mut values: Vec<i64> = Vec::new();
    let mut i: usize = 0;
    while i < rsvps.len()
        invariant
            i <= rsvps@.len(),
            values@ == contributions_for(rsvps@.take(i as int), spot_id),
        decreases rsvps@.len() - i,
    {
        assert(rsvps@.take(i + 1).drop_last() =~= rsvps@.take(i as int));
        if rsvps[i].spot_id == spot_id {
            values.push(rsvps[i].contribution);
        }
        i = i + 1;
    }
    assert(rsvps@.take(i as int) =~= rsvps@);
    values
}

impl Spot {
    /// A free spot.
    pub const FREE: &'static str = "free";
    /// A fixed contribution spot.
    pub const FIXED: &'static str = "fixed";
    /// A variable contribution spot.
    pub const VARIABLE: &'static str = "variable";
    /// A work trade spot.
    pub const WORK: &'static str = "work";

    /// Compute contribution statistics for VARIABLE spots given a list of rsvps.
    pub fn stats(spots: &[Spot], rsvps: &[EventRsvp]) -> (r: SpotStats)
        requires
            stats_in_range(spots@, rsvps@),
        ensures
            r.stats@.dom() == spot_stats_map(spots@, rsvps@).dom(),
            forall|k: i64| #[trigger] r.stats@.contains_key(k) ==> r.stats@[k]@.map_values(|s: SpotStat| stat_view(s)) == spot_stats_map(spots@, rsvps@)[k],
    {
        let mut stats: HashMap<i64, Vec<SpotStat>> = HashMap::new();
        let mut i: usize = 0;
        while i < spots.len()
            invariant
                i <= spots@.len(),
                stats_in_range(spots@, rsvps@),
                stats@.dom() == spot_stats_map(spots@.take(i as int), rsvps@).dom(),
                forall|k: i64| #[trigger] stats@.contains_key(k) ==> stats@[k]@.map_values(|s: SpotStat| stat_view(s)) == spot_stats_map(spots@.take(i as int), rsvps@)[k],
            decreases spots@.len() - i,
        {
            let ghost prev = spot_stats_map(spots@.take(i as int), rsvps@);
            proof {
                assert(spots@.take(i + 1).drop_last() =~= spots@.take(i as int));
                assert(spots@.take(i + 1).last() == spots@[i as int]);
            }
            let spot = &spots[i];
            if str_eq(spot.kind.as_str(), Spot::VARIABLE) {
                let values = spot_contributions(rsvps, spot.id);
                if values.len() > 0 {
                    let sorted = sort_values(&values);
                    proof {
                        let leq = leq_i64();
                        assert(total_ordering(leq)) by {
                            assert(reflexive(leq));
                            assert(antisymmetric(leq));
                            assert(transitive(leq));
                            assert(strongly_connected(leq));
                        }
                        values@.lemma_sort_by_ensures(leq);
                        assert(values@.to_multiset().len() == values@.len()) by {
                            broadcast use vstd::seq_lib::group_to_multiset_ensures;
                        }
                        assert(sorted@.to_multiset().len() == sorted@.len()) by {
                            broadcast use vstd::seq_lib::group_to_multiset_ensures;
                        }
                    }
                    let n = sorted.len();
                    let median = if n % 2 == 0 {
                        let l = sorted[n / 2 - 1];
                        let r = sorted[n / 2];
                        proof {
                            assert(fits_i64(l + r));
                        }
                        (l + r) / 2
                    } else {
                        sorted[n / 2]
                    };
                    let max = sorted[n - 1];
                    let mut spot_stats: Vec<SpotStat> = Vec::new();
                    spot_stats.push(SpotStat { name: "Median".to_string(), value: median });
                    if max > median {
                        spot_stats.push(SpotStat { name: "Max".to_string(), value: max });
                    }
                    proof {
                        assert(spot_stats@.map_values(|s: SpotStat| stat_view(s)) =~= stats_of(values@));
                    }
                    stats.insert(spot.id, spot_stats);
                }
            }
            proof {
                let next = spot_stats_map(spots@.take(i + 1), rsvps@);
                assert(stats@.dom() =~= next.dom());
            }
            i = i + 1;
        }
        proof {
            assert(spots@.take(spots@.len() as int) =~= spots@);
        }
        SpotStats { stats }
    }
}

} // verus!

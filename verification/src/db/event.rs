use std::collections::HashMap;
use vstd::prelude::*;

use crate::db::rsvp::{
    count_for_spot, count_spot, lemma_count_spot_bound, lemma_count_spot_push, lemma_count_spot_submultiset, EventRsvp,
};
use crate::clock::now_micros;
use crate::db::spot::Spot;
use crate::text::{decimal_digits, decimal_string, lemma_decimal_digits_value, str_eq};
use crate::calendar::{day_after, following_day, local_date, local_date_of, local_instant, local_instant_of};

verus! {

broadcast use vstd::std_specs::hash::group_hash_axioms;

/// An event, as stored. Timestamps are microseconds since the Unix epoch (UTC).
#[derive(Clone, Debug)]
pub struct Event {
    pub id: i64,
    pub token: String,
    pub kind: String,
    pub title: String,
    pub slug: String,
    pub url: Option<String>,
    pub start: i64,
    pub end: Option<i64>,
    pub capacity: i64,
    pub unlisted: bool,
    pub closed: bool,
    pub guest_list_id: Option<i64>,
    pub spots_per_person: Option<i64>,
    pub artist_share: i64,

    pub description_html: Option<String>,
    pub description_updated_at: Option<i64>,

    pub invite_subject: Option<String>,
    pub invite_html: Option<String>,
    pub invite_updated_at: Option<i64>,
    pub invite_sent_at: Option<i64>,

    pub confirmation_subject: Option<String>,
    pub confirmation_html: Option<String>,
    pub confirmation_updated_at: Option<i64>,

    pub dayof_subject: Option<String>,
    pub dayof_html: Option<String>,
    pub dayof_updated_at: Option<i64>,
    pub dayof_sent_at: Option<i64>,

    pub created_at: i64,
    pub updated_at: i64,
}

/// The editable fields of an event, as submitted by the event editor.
#[derive(Clone, Debug)]
pub struct UpdateEvent {
    pub kind: String,
    pub title: String,
    pub slug: String,
    pub url: Option<String>,
    pub start: i64,
    pub end: Option<i64>,
    pub capacity: i64,
    pub unlisted: bool,
    pub closed: bool,
    pub guest_list_id: Option<i64>,
    pub spots_per_person: Option<i64>,
    pub artist_share: i64,
}

/// Event with RSVP count for the admin list page.
#[derive(Clone, Debug)]
pub struct EventWithStats {
    pub id: i64,
    pub token: String,
    pub kind: String,
    pub title: String,
    pub slug: String,
    pub url: Option<String>,
    pub start: i64,
    pub guest_list_id: Option<i64>,
    pub capacity: i64,
    pub rsvp_count: i64,
    pub total_contributions: i64,
}

/// How many more spots may be reserved, in total and per spot id.
#[derive(Debug)]
pub struct EventLimits {
    pub total_limit: i64,
    pub spot_limits: HashMap<i64, i64>,
}

pub open spec fn min_int(a: int, b: int) -> int {
    if a <= b { a } else { b }
}

pub open spec fn max_int(a: int, b: int) -> int {
    if a >= b { a } else { b }
}

/// What may still be taken of `spot`: what is left of it overall, bounded by
/// what this guest may still take of it.
pub open spec fn spot_limit(spot: Spot, all_rsvps: Seq<EventRsvp>, user_rsvps: Seq<EventRsvp>) -> int {
    min_int(
        spot.qty_total - count_spot(all_rsvps, spot.id),
        spot.qty_per_person - count_spot(user_rsvps, spot.id),
    )
}

/// Sum of the per-spot limits of `spots`.
pub open spec fn sum_spot_limits(spots: Seq<Spot>, all_rsvps: Seq<EventRsvp>, user_rsvps: Seq<EventRsvp>) -> int
    decreases spots.len(),
{
    if spots.len() == 0 {
        0
    } else {
        sum_spot_limits(spots.drop_last(), all_rsvps, user_rsvps) + spot_limit(spots.last(), all_rsvps, user_rsvps)
    }
}

/// The per-spot limits of `spots` keyed by spot id; a later spot with the same id wins.
pub open spec fn spot_limits_map(spots: Seq<Spot>, all_rsvps: Seq<EventRsvp>, user_rsvps: Seq<EventRsvp>) -> Map<i64, i64>
    decreases spots.len(),
{
    if spots.len() == 0 {
        Map::empty()
    } else {
        spot_limits_map(spots.drop_last(), all_rsvps, user_rsvps).insert(
            spots.last().id,
            spot_limit(spots.last(), all_rsvps, user_rsvps) as i64,
        )
    }
}

/// Seats left under the event's capacity, never below zero.
pub open spec fn capacity_limit(event: Event, all_rsvps: Seq<EventRsvp>, manual_count: i64) -> int {
    max_int(event.capacity - all_rsvps.len() - manual_count, 0)
}

/// What this guest may still take under the event's per-person limit.
pub open spec fn person_limit(event: Event, user_rsvps: Seq<EventRsvp>) -> int {
    match event.spots_per_person {
        Some(p) => p - user_rsvps.len(),
        None => i64::MAX - user_rsvps.len(),
    }
}

/// The overall number of spots this guest may still reserve.
pub open spec fn total_limit(
    event: Event,
    spots: Seq<Spot>,
    all_rsvps: Seq<EventRsvp>,
    user_rsvps: Seq<EventRsvp>,
    manual_count: i64,
) -> int {
    min_int(
        min_int(capacity_limit(event, all_rsvps, manual_count), person_limit(event, user_rsvps)),
        sum_spot_limits(spots, all_rsvps, user_rsvps),
    )
}

pub open spec fn fits_i64(x: int) -> bool {
    i64::MIN <= x <= i64::MAX
}

/// The limits can be computed in `i64` arithmetic without overflow.
pub open spec fn limits_in_range(
    event: Event,
    spots: Seq<Spot>,
    all_rsvps: Seq<EventRsvp>,
    user_rsvps: Seq<EventRsvp>,
    manual_count: i64,
) -> bool {
    &&& all_rsvps.len() <= i64::MAX
    &&& user_rsvps.len() <= i64::MAX
    &&& fits_i64(event.capacity - all_rsvps.len())
    &&& fits_i64(event.capacity - all_rsvps.len() - manual_count)
    &&& fits_i64(person_limit(event, user_rsvps))
    &&& forall|i: int| 0 <= i < spots.len() ==> {
        &&& fits_i64(#[trigger] spots[i].qty_total - count_spot(all_rsvps, spots[i].id))
        &&& fits_i64(spots[i].qty_per_person - count_spot(user_rsvps, spots[i].id))
    }
    &&& forall|k: int| 0 <= k <= spots.len() ==> fits_i64(#[trigger] sum_spot_limits(spots.take(k), all_rsvps, user_rsvps))
}

proof fn lemma_sum_spot_limits_monotone(spots: Seq<Spot>, all: Seq<EventRsvp>, r: EventRsvp, user: Seq<EventRsvp>)
    ensures
        sum_spot_limits(spots, all.push(r), user) <= sum_spot_limits(spots, all, user),
    decreases spots.len(),
{
    if spots.len() > 0 {
        lemma_sum_spot_limits_monotone(spots.drop_last(), all, r, user);
        lemma_count_spot_push(all, r, spots.last().id);
    }
}

/// One more reserved RSVP never raises what a guest may still reserve: the limits only
/// shrink as the event fills up.
pub proof fn lemma_limits_shrink_as_event_fills(
    event: Event,
    spots: Seq<Spot>,
    all_rsvps: Seq<EventRsvp>,
    r: EventRsvp,
    user_rsvps: Seq<EventRsvp>,
    manual_count: i64,
)
    ensures
        total_limit(event, spots, all_rsvps.push(r), user_rsvps, manual_count) <= total_limit(
            event,
            spots,
            all_rsvps,
            user_rsvps,
            manual_count,
        ),
        forall|i: int|
            0 <= i < spots.len() ==> spot_limit(#[trigger] spots[i], all_rsvps.push(r), user_rsvps) <= spot_limit(
                spots[i],
                all_rsvps,
                user_rsvps,
            ),
{
    lemma_sum_spot_limits_monotone(spots, all_rsvps, r, user_rsvps);
    assert forall|i: int| 0 <= i < spots.len() implies spot_limit(#[trigger] spots[i], all_rsvps.push(r), user_rsvps)
        <= spot_limit(spots[i], all_rsvps, user_rsvps) by {
        lemma_count_spot_push(all_rsvps, r, spots[i].id);
    }
}

/// What a guest may still reserve in total is never more than the seats left under the
/// event's capacity (never below zero), never more than the per-person limit allows, and
/// never more than the sum of the per-spot limits.
pub proof fn lemma_total_limit_bounds(
    event: Event,
    spots: Seq<Spot>,
    all_rsvps: Seq<EventRsvp>,
    user_rsvps: Seq<EventRsvp>,
    manual_count: i64,
)
    ensures
        capacity_limit(event, all_rsvps, manual_count) >= 0,
        total_limit(event, spots, all_rsvps, user_rsvps, manual_count) <= capacity_limit(event, all_rsvps, manual_count),
        total_limit(event, spots, all_rsvps, user_rsvps, manual_count) <= person_limit(event, user_rsvps),
        total_limit(event, spots, all_rsvps, user_rsvps, manual_count) <= sum_spot_limits(spots, all_rsvps, user_rsvps),
{
}

proof fn lemma_sum_spot_limits_more(
    spots: Seq<Spot>,
    all: Seq<EventRsvp>,
    all2: Seq<EventRsvp>,
    user: Seq<EventRsvp>,
    user2: Seq<EventRsvp>,
)
    requires
        all.to_multiset().subset_of(all2.to_multiset()),
        user.to_multiset().subset_of(user2.to_multiset()),
    ensures
        sum_spot_limits(spots, all2, user2) <= sum_spot_limits(spots, all, user),
        forall|i: int| 0 <= i < spots.len() ==> spot_limit(#[trigger] spots[i], all2, user2) <= spot_limit(spots[i], all, user),
    decreases spots.len(),
{
    if spots.len() > 0 {
        lemma_sum_spot_limits_more(spots.drop_last(), all, all2, user, user2);
        assert forall|i: int| 0 <= i < spots.len() implies spot_limit(#[trigger] spots[i], all2, user2) <= spot_limit(
            spots[i],
            all,
            user,
        ) by {
            lemma_count_spot_submultiset(all, all2, spots[i].id);
            lemma_count_spot_submultiset(user, user2, spots[i].id);
        }
        assert(spots[spots.len() - 1] == spots.last());
    }
}

proof fn lemma_spot_limits_map_more(
    spots: Seq<Spot>,
    all: Seq<EventRsvp>,
    all2: Seq<EventRsvp>,
    user: Seq<EventRsvp>,
    user2: Seq<EventRsvp>,
)
    requires
        forall|i: int| 0 <= i < spots.len() ==> spot_limit(#[trigger] spots[i], all2, user2) <= spot_limit(spots[i], all, user),
        forall|i: int| 0 <= i < spots.len() ==> fits_i64(#[trigger] spot_limit(spots[i], all, user)) && fits_i64(
            spot_limit(spots[i], all2, user2),
        ),
    ensures
        spot_limits_map(spots, all2, user2).dom() == spot_limits_map(spots, all, user).dom(),
        forall|id: i64| #[trigger]
            spot_limits_map(spots, all, user).contains_key(id) ==> spot_limits_map(spots, all2, user2)[id]
                <= spot_limits_map(spots, all, user)[id],
    decreases spots.len(),
{
    if spots.len() > 0 {
        let prev = spots.drop_last();
        assert forall|i: int| 0 <= i < prev.len() implies spot_limit(#[trigger] prev[i], all2, user2) <= spot_limit(
            prev[i],
            all,
            user,
        ) && fits_i64(spot_limit(prev[i], all, user)) && fits_i64(spot_limit(prev[i], all2, user2)) by {
            assert(prev[i] == spots[i]);
        }
        lemma_spot_limits_map_more(prev, all, all2, user, user2);
        let last = spots.last();
        assert(last == spots[spots.len() - 1]);
        assert(spot_limits_map(spots, all2, user2).dom() =~= spot_limits_map(spots, all, user).dom());
    }
}

/// More reserved RSVPs, more of the guest's own, or more manual RSVPs never raise what a
/// guest may reserve: the total limit and every spot's limit only go down, and the limits
/// still cover the same spots. (Each set of limits is taken where it can be computed.)
pub proof fn lemma_limits_shrink_with_more_rsvps(
    event: Event,
    spots: Seq<Spot>,
    all_rsvps: Seq<EventRsvp>,
    more_rsvps: Seq<EventRsvp>,
    user_rsvps: Seq<EventRsvp>,
    more_user_rsvps: Seq<EventRsvp>,
    manual_count: i64,
    more_manual: i64,
)
    requires
        all_rsvps.to_multiset().subset_of(more_rsvps.to_multiset()),
        user_rsvps.to_multiset().subset_of(more_user_rsvps.to_multiset()),
        manual_count <= more_manual,
        limits_in_range(event, spots, all_rsvps, user_rsvps, manual_count),
        limits_in_range(event, spots, more_rsvps, more_user_rsvps, more_manual),
    ensures
        total_limit(event, spots, more_rsvps, more_user_rsvps, more_manual) <= total_limit(
            event,
            spots,
            all_rsvps,
            user_rsvps,
            manual_count,
        ),
        spot_limits_map(spots, more_rsvps, more_user_rsvps).dom() == spot_limits_map(spots, all_rsvps, user_rsvps).dom(),
        forall|id: i64| #[trigger]
            spot_limits_map(spots, all_rsvps, user_rsvps).contains_key(id) ==> spot_limits_map(
                spots,
                more_rsvps,
                more_user_rsvps,
            )[id] <= spot_limits_map(spots, all_rsvps, user_rsvps)[id],
{
    lemma_count_spot_submultiset(all_rsvps, more_rsvps, 0);
    lemma_count_spot_submultiset(user_rsvps, more_user_rsvps, 0);
    lemma_sum_spot_limits_more(spots, all_rsvps, more_rsvps, user_rsvps, more_user_rsvps);
    assert forall|i: int| 0 <= i < spots.len() implies fits_i64(#[trigger] spot_limit(spots[i], all_rsvps, user_rsvps))
        && fits_i64(spot_limit(spots[i], more_rsvps, more_user_rsvps)) by {
        assert(fits_i64(spots[i].qty_total - count_spot(all_rsvps, spots[i].id)));
        assert(fits_i64(spots[i].qty_per_person - count_spot(user_rsvps, spots[i].id)));
        assert(fits_i64(spots[i].qty_total - count_spot(more_rsvps, spots[i].id)));
        assert(fits_i64(spots[i].qty_per_person - count_spot(more_user_rsvps, spots[i].id)));
    }
    lemma_spot_limits_map_more(spots, all_rsvps, more_rsvps, user_rsvps, more_user_rsvps);
}

/// Where the spot ids are distinct, the limit kept for each spot's id is that spot's limit.
pub proof fn lemma_spot_limits_map_distinct(spots: Seq<Spot>, all: Seq<EventRsvp>, user: Seq<EventRsvp>)
    requires
        forall|a: int, b: int| 0 <= a < b < spots.len() ==> spots[a].id != spots[b].id,
    ensures
        forall|k: i64| #[trigger] spot_limits_map(spots, all, user).contains_key(k) ==> exists|i: int|
            0 <= i < spots.len() && spots[i].id == k,
        forall|i: int|
            0 <= i < spots.len() ==> #[trigger] spot_limits_map(spots, all, user).contains_key(spots[i].id)
                && spot_limits_map(spots, all, user)[spots[i].id] == spot_limit(spots[i], all, user) as i64,
    decreases spots.len(),
{
    if spots.len() > 0 {
        let prev = spots.drop_last();
        lemma_spot_limits_map_distinct(prev, all, user);
        let m = spot_limits_map(spots, all, user);
        assert forall|k: i64| #[trigger] m.contains_key(k) implies exists|i: int| 0 <= i < spots.len() && spots[i].id == k by {
            if k != spots.last().id {
                assert(spot_limits_map(prev, all, user).contains_key(k));
                let i = choose|i: int| 0 <= i < prev.len() && prev[i].id == k;
                assert(spots[i].id == k);
            } else {
                assert(spots[spots.len() - 1].id == k);
            }
        }
        assert forall|i: int| 0 <= i < spots.len() implies #[trigger] m.contains_key(spots[i].id) && m[spots[i].id]
            == spot_limit(spots[i], all, user) as i64 by {
            if i < spots.len() - 1 {
                assert(prev[i] == spots[i]);
                assert(spots[i].id != spots.last().id);
                assert(spot_limits_map(prev, all, user).contains_key(prev[i].id));
            }
        }
    }
}

/// The instant after which an event is over: its end, or else `start_day_end`.
pub open spec fn cutoff_of(end: Option<i64>, start_day_end: i64) -> i64 {
    match end {
        Some(e) => e,
        None => start_day_end,
    }
}

/// Whether an event with this end is over at `now`.
pub open spec fn over_at(end: Option<i64>, start_day_end: i64, now: i64) -> bool {
    now >= cutoff_of(end, start_day_end)
}

/// The first midnight after the local date of the instant `start` (UTC microseconds) in the
/// IANA time zone named `tz`, as UTC microseconds: none where that date cannot be had, where
/// it has no day after it, or where that midnight is not a single instant.
pub open spec fn start_day_end_of(start: i64, tz: Seq<char>) -> Option<i64> {
    match local_date_of(start, tz) {
        Some(date) => match day_after(date.0, date.1, date.2) {
            Some(next) => local_instant_of(next.0, next.1, next.2, 0, 0, 0, tz),
            None => None,
        },
        None => None,
    }
}

/// The instant after which an event is over in the time zone named `tz`: its end, or else
/// the first midnight after its start day.
pub open spec fn event_cutoff(event: Event, tz: Seq<char>) -> Option<i64> {
    match event.end {
        Some(e) => Some(e),
        None => start_day_end_of(event.start, tz),
    }
}

/// The slug tried for the copy of an event with slug `slug` under `suffix`: `slug-suffix`.
pub open spec fn copy_slug_of(slug: Seq<char>, suffix: nat) -> Seq<char> {
    slug + "-"@ + decimal_digits(suffix)
}

/// Different suffixes give different slugs, so the search for a free slug for a copy never
/// tries the same slug twice.
pub proof fn lemma_copy_slugs_differ(slug: Seq<char>, a: nat, b: nat)
    requires
        a != b,
    ensures
        copy_slug_of(slug, a) != copy_slug_of(slug, b),
{
    lemma_decimal_digits_value(a);
    lemma_decimal_digits_value(b);
    let p = slug + "-"@;
    if copy_slug_of(slug, a) == copy_slug_of(slug, b) {
        let sa = copy_slug_of(slug, a);
        assert(sa.subrange(p.len() as int, sa.len() as int) =~= decimal_digits(a));
        assert(sa.subrange(p.len() as int, sa.len() as int) =~= decimal_digits(b));
    }
}

/// Division rounding toward zero, as Rust's `/` on integers does.
pub open spec fn div_trunc(a: int, b: int) -> int {
    if a >= 0 { a / b } else { -((-a) / b) }
}

impl EventWithStats {
    pub fn is_external(&self) -> (r: bool)
        ensures
            r == (self.kind@ == Event::EXTERNAL@),
    {
        str_eq(self.kind.as_str(), Event::EXTERNAL)
    }
}

impl Event {
    pub const INTERNAL: &'static str = "internal";
    pub const EXTERNAL: &'static str = "external";

    pub fn is_external(&self) -> (r: bool)
        ensures
            r == (self.kind@ == Event::EXTERNAL@),
    {
        str_eq(self.kind.as_str(), Event::EXTERNAL)
    }

    /// Whether the event has not yet started, or has not yet ended, at `now`.
    pub fn is_upcoming(&self, now: i64) -> (r: bool)
        ensures
            r == (now <= self.start || (self.end is Some && now <= self.end->0)),
    {
        now <= self.start || match self.end {
            Some(end) => now <= end,
            None => false,
        }
    }

    /// True once `now` is past the event's end, or past `start_day_end` (the first midnight,
    /// in the site's time zone, after the start) when the event has no end.
    pub fn is_over_at(&self, now: i64, start_day_end: i64) -> (r: bool)
        ensures
            r == (now >= match self.end {
                Some(end) => end,
                None => start_day_end,
            }),
    {
        let cutoff = match self.end {
            Some(end) => end,
            None => start_day_end,
        };
        now >= cutoff
    }

    /// The first midnight, in the time zone named `tz`, after the local date of the start,
    /// as UTC microseconds: the start's local date, the day after it, and 00:00:00 of that
    /// day read back in the zone. None where the zone is unknown, a date is out of range, or
    /// that midnight is not a single instant.
    pub fn start_day_end(&self, tz: &str) -> (r: Option<i64>)
        ensures
            r == start_day_end_of(self.start, tz@),
    {
        let (year, month, day) = match local_date(self.start, tz) {
            Some(date) => date,
            None => {
                return None;
            },
        };
        let (next_year, next_month, next_day) = match following_day(year, month, day) {
            Some(next) => next,
            None => {
                return None;
            },
        };
        local_instant(next_year, next_month, next_day, 0, 0, 0, tz)
    }

    /// The instant after which the event is over, in the time zone named `tz`: its end, or
    /// else the first midnight after the start day; none where that midnight cannot be had.
    pub fn over_cutoff(&self, tz: &str) -> (r: Option<i64>)
        ensures
            r == event_cutoff(*self, tz@),
    {
        match self.end {
            Some(end) => Some(end),
            None => self.start_day_end(tz),
        }
    }

    /// True once the event is past its end time, or past midnight on the start day (in the
    /// time zone named `tz`) if none. Reads the clock: the answer is `is_over_at` at the
    /// instant the clock reported, so an event whose cutoff is the earliest instant is
    /// always over.
    pub fn is_over(&self, tz: &str) -> (r: bool)
        requires
            event_cutoff(*self, tz@) is Some,
        ensures
            exists|now: i64| r == #[trigger] over_at(Some(event_cutoff(*self, tz@)->0), 0, now),
            event_cutoff(*self, tz@)->0 == i64::MIN ==> r,
    {
        let cutoff = match self.over_cutoff(tz) {
            Some(c) => c,
            None => {
                return false;
            },
        };
        let now = now_micros();
        let r = now >= cutoff;
        assert(r == over_at(Some(cutoff), 0, now));
        r
    }

    /// Whether to allow starting the RSVP process at `now`.
    pub fn registration_open_at(&self, now: i64, start_day_end: i64) -> (r: bool)
        ensures
            r == (!self.closed && !(now >= match self.end {
                Some(end) => end,
                None => start_day_end,
            })),
    {
        !self.closed && !self.is_over_at(now, start_day_end)
    }

    /// Whether to allow starting the RSVP process: not closed and not over (in the time zone
    /// named `tz`); reads the clock. A closed event is never open, whatever the time; one
    /// that is not closed is open exactly while the clock is before its cutoff.
    pub fn registration_open(&self, tz: &str) -> (r: bool)
        requires
            self.closed || event_cutoff(*self, tz@) is Some,
        ensures
            self.closed ==> !r,
            !self.closed ==> exists|now: i64| r == !#[trigger] over_at(Some(event_cutoff(*self, tz@)->0), 0, now),
            !self.closed && event_cutoff(*self, tz@)->0 == i64::MIN ==> !r,
    {
        !self.closed && !self.is_over(tz)
    }

    /// Whether to allow starting the RSVP process, or none where the event has no end and
    /// its start day's midnight cannot be had in the time zone named `tz`.
    pub fn registration_open_checked(&self, tz: &str) -> (r: Option<bool>)
        ensures
            (r is None) == (!self.closed && event_cutoff(*self, tz@) is None),
            r matches Some(open) ==> (self.closed ==> !open) && (!self.closed ==> exists|now: i64|
                open == !#[trigger] over_at(Some(event_cutoff(*self, tz@)->0), 0, now)),
    {
        if !self.closed && self.over_cutoff(tz).is_none() {
            return None;
        }
        Some(self.registration_open(tz))
    }

    /// The slug tried for a copy of the event with slug `slug`: `slug-suffix`. A copy takes
    /// the first of these, counting the suffix up from 1, that no event has yet.
    pub fn copy_slug(slug: &str, suffix: u32) -> (r: String)
        ensures
            r@ == copy_slug_of(slug@, suffix as nat),
    {
        let mut r = String::from_str(slug);
        r.append("-");
        let digits = decimal_string(suffix as u64);
        r.append(digits.as_str());
        r
    }

    /// The title of a copy of the event titled `title`: `title (copy)`.
    pub fn copy_title(title: &str) -> (r: String)
        ensures
            r@ == title@ + " (copy)"@,
    {
        let mut r = String::from_str(title);
        r.append(" (copy)");
        r
    }

    /// Artist's share of `total` dollars per `artist_share` percent, fractional dollars round to the artist.
    pub fn artist_share(&self, total: i64) -> (r: i64)
        requires
            fits_i64(total * self.artist_share),
            fits_i64(total * self.artist_share + 99),
        ensures
            r == div_trunc(total * self.artist_share + 99, 100),
    {
        (total * self.artist_share + 99) / 100
    }
}

impl Event {
    /// Calculate number of spots available of each type for this event.
    /// `all_rsvps` = all reserved RSVPs counted toward capacity (may or may not include current session).
    /// `user_rsvps` = this user's reserved RSVPs across all their sessions (for per-person limits).
    /// `manual_count` = all manually added RSVPs counted toward capacity
    pub fn compute_limits(
        &self,
        spots: &[Spot],
        all_rsvps: &[EventRsvp],
        user_rsvps: &[EventRsvp],
        manual_count: i64,
    ) -> (limits: EventLimits)
        requires
            limits_in_range(*self, spots@, all_rsvps@, user_rsvps@, manual_count),
        ensures
            limits.total_limit == total_limit(*self, spots@, all_rsvps@, user_rsvps@, manual_count),
            limits.spot_limits@ == spot_limits_map(spots@, all_rsvps@, user_rsvps@),
    {
        let ghost all = all_rsvps@;
        let ghost user = user_rsvps@;
        // Overall event limits
        let n_all = all_rsvps.len() as i64;
        let n_user = user_rsvps.len() as i64;
        let left = self.capacity - n_all - manual_count;
        let capacity_limit = if left > 0 { left } else { 0 };
        let per_person_limit = match self.spots_per_person {
            Some(p) => p,
            None => i64::MAX,
        };
        let this_person_limit = per_person_limit - n_user;
        let limit = if capacity_limit < this_person_limit { capacity_limit } else { this_person_limit };

        // Per-spot limits
        let mut sum: i64 = 0;
        let mut spot_limits: HashMap<i64, i64> = HashMap::new();
        let mut i: usize = 0;
        while i < spots.len()
            invariant
                i <= spots@.len(),
                limits_in_range(*self, spots@, all, user, manual_count),
                all == all_rsvps@,
                user == user_rsvps@,
                sum == sum_spot_limits(spots@.take(i as int), all, user),
                spot_limits@ == spot_limits_map(spots@.take(i as int), all, user),
            decreases spots@.len() - i,
        {
            let spot = &spots[i];
            proof {
                assert(spots@.take(i + 1).drop_last() =~= spots@.take(i as int));
                assert(spots@.take(i + 1).last() == spots@[i as int]);
                assert(fits_i64(spots@[i as int].qty_total - count_spot(all, spots@[i as int].id)));
                assert(fits_i64(sum_spot_limits(spots@.take(i + 1), all, user)));
            }
            let taken = count_for_spot(all_rsvps, spot.id);
            let mine = count_for_spot(user_rsvps, spot.id);
            let spot_total_limit = spot.qty_total - taken;
            let spot_this_person_limit = spot.qty_per_person - mine;
            let spot_limit = if spot_total_limit < spot_this_person_limit {
                spot_total_limit
            } else {
                spot_this_person_limit
            };
            sum = sum + spot_limit;
            spot_limits.insert(spot.id, spot_limit);
            i = i + 1;
        }
        proof {
            assert(spots@.take(spots@.len() as int) =~= spots@);
        }
        // Final limit is no more than the sum of all per-spot limits
        let total = if limit < sum { limit } else { sum };
        EventLimits { total_limit: total, spot_limits }
    }
}

} // verus!

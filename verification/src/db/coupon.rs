use vstd::prelude::*;

use crate::clock::now_micros;
use crate::db::event::fits_i64;
use crate::db::rsvp::EventRsvp;
use crate::text::str_eq;

verus! {

/// A discount code. Timestamps are microseconds.
#[derive(Clone, Debug)]
pub struct Coupon {
    pub id: i64,
    pub creator_user_id: i64,
    pub event_id: Option<i64>,
    pub code: String,
    pub description: String,
    pub expires_at: Option<i64>,
    pub kind: String,
    pub percent_off: Option<i64>,
    pub dollars_off: Option<i64>,
    pub max_uses: Option<i64>,
    pub max_uses_per_user: Option<i64>,
    pub max_uses_per_event: Option<i64>,
    pub created_at: i64,
    pub updated_at: i64,
}

/// The editable fields of a coupon.
#[derive(Clone, Debug)]
pub struct UpdateCoupon {
    pub event_id: Option<i64>,
    pub code: String,
    pub description: String,
    pub expires_at: Option<i64>,
    pub kind: String,
    pub percent_off: Option<i64>,
    pub dollars_off: Option<i64>,
    pub max_uses: Option<i64>,
    pub max_uses_per_user: Option<i64>,
    pub max_uses_per_event: Option<i64>,
}

/// Coupon plus usage/display info for the admin list page.
#[derive(Clone, Debug)]
pub struct CouponWithUses {
    pub id: i64,
    pub creator: String,
    pub code: String,
    pub kind: String,
    pub description: String,
    pub event_title: Option<String>,
    pub expires_at: Option<i64>,
    pub percent_off: Option<i64>,
    pub dollars_off: Option<i64>,
    pub max_uses: Option<i64>,
    pub uses: i64,
    pub user_count: i64,
    pub first_user: Option<String>,
}

/// A use is one free RSVP for spot coupons, one checkout session otherwise.
#[derive(Clone, Copy, Debug, PartialEq, Eq)]
pub struct CouponUses {
    pub total: i64,
    pub by_user: i64,
}

/// The outcome of checking a code entered for a session.
#[derive(Clone, Debug)]
pub enum CouponCheck {
    Usable { coupon: Coupon, available: i64 },
    Expired,
    Exhausted,
    Invalid,
}

/// Whether a coupon expiring at `expires_at` has expired at `now`.
pub open spec fn expired_at(expires_at: Option<i64>, now: i64) -> bool {
    expires_at is Some && expires_at->0 <= now
}

impl CouponWithUses {
    /// Whether the coupon has expired at `now`.
    pub fn is_expired_at(&self, now: i64) -> (r: bool)
        ensures
            r == expired_at(self.expires_at, now),
    {
        match self.expires_at {
            Some(at) => at <= now,
            None => false,
        }
    }

    /// Whether the coupon has expired; reads the clock. The answer is `is_expired_at` at the
    /// instant the clock reported: one without an expiry never expires, one expiring at the
    /// earliest instant always has.
    pub fn is_expired(&self) -> (r: bool)
        ensures
            self.expires_at is None ==> !r,
            exists|now: i64| r == #[trigger] expired_at(self.expires_at, now),
            self.expires_at == Some(i64::MIN) ==> r,
    {
        let now = now_micros();
        let r = self.is_expired_at(now);
        assert(r == expired_at(self.expires_at, now));
        r
    }
}

/// The message shown for a check result: none for a usable code.
/// Unknown, wrong-event, and user-restricted codes all read "Invalid code."
pub open spec fn error_message_of(c: CouponCheck) -> Option<Seq<char>> {
    match c {
        CouponCheck::Usable { .. } => None,
        CouponCheck::Expired => Some("This code has expired."@),
        CouponCheck::Exhausted => Some("This code has already been used up."@),
        CouponCheck::Invalid => Some("Invalid code."@),
    }
}

impl CouponCheck {
    pub fn error_message(&self) -> (r: Option<&'static str>)
        ensures
            match r {
                None => error_message_of(*self) is None,
                Some(m) => error_message_of(*self) == Some(m@),
            },
    {
        match self {
            CouponCheck::Usable { .. } => None,
            CouponCheck::Expired => Some("This code has expired."),
            CouponCheck::Exhausted => Some("This code has already been used up."),
            CouponCheck::Invalid => Some("Invalid code."),
        }
    }
}

/// How many of `rsvps` have a positive price.
pub open spec fn paid_count(rsvps: Seq<EventRsvp>) -> nat
    decreases rsvps.len(),
{
    if rsvps.len() == 0 {
        0
    } else {
        paid_count(rsvps.drop_last()) + if rsvps.last().contribution > 0 { 1nat } else { 0nat }
    }
}

pub open spec fn min_int(a: int, b: int) -> int {
    if a <= b { a } else { b }
}

/// Whether the coupon's kind is one of the three known kinds.
pub open spec fn known_kind(kind: Seq<char>) -> bool {
    kind == Coupon::SPOT@ || kind == Coupon::FIXED@ || kind == Coupon::PERCENT@
}

/// The uses a coupon could still have in this session, before its overall and per-user
/// limits: once per paid RSVP (up to `max_uses_per_event`) for a spot coupon, once otherwise.
pub open spec fn kind_uses(coupon: Coupon, rsvps: Seq<EventRsvp>) -> int {
    if coupon.kind@ == Coupon::SPOT@ {
        match coupon.max_uses_per_event {
            Some(m) => min_int(paid_count(rsvps) as int, m as int),
            None => paid_count(rsvps) as int,
        }
    } else {
        1
    }
}

/// The uses left once the overall and per-user limits are applied.
pub open spec fn remaining_uses(coupon: Coupon, rsvps: Seq<EventRsvp>, past: CouponUses) -> int {
    let n = kind_uses(coupon, rsvps);
    let n = match coupon.max_uses {
        Some(max) => min_int(n, max - past.total),
        None => n,
    };
    match coupon.max_uses_per_user {
        Some(max) => min_int(n, max - past.by_user),
        None => n,
    }
}

/// Whether the check gets as far as counting uses.
pub open spec fn reaches_limits(coupon: Option<Coupon>, now: i64, event_id: i64, usable_by: bool) -> bool {
    &&& coupon is Some
    &&& !expired_at(coupon->0.expires_at, now)
    &&& !(coupon->0.event_id is Some && coupon->0.event_id->0 != event_id)
    &&& usable_by
}

/// The result of checking a code: unknown, expired, for another event, or restricted to other
/// users reads as invalid or expired; otherwise usable while uses remain.
pub open spec fn check_outcome(
    coupon: Option<Coupon>,
    now: i64,
    event_id: i64,
    usable_by: bool,
    past: CouponUses,
    rsvps: Seq<EventRsvp>,
) -> CouponCheck {
    match coupon {
        None => CouponCheck::Invalid,
        Some(c) => if expired_at(c.expires_at, now) {
            CouponCheck::Expired
        } else if c.event_id is Some && c.event_id->0 != event_id {
            CouponCheck::Invalid
        } else if !usable_by {
            CouponCheck::Invalid
        } else {
            let n = remaining_uses(c, rsvps, past);
            if n > 0 {
                CouponCheck::Usable { coupon: c, available: n as i64 }
            } else {
                CouponCheck::Exhausted
            }
        },
    }
}

pub proof fn lemma_paid_count_bound(rsvps: Seq<EventRsvp>)
    ensures
        paid_count(rsvps) <= rsvps.len(),
    decreases rsvps.len(),
{
    if rsvps.len() > 0 {
        lemma_paid_count_bound(rsvps.drop_last());
    }
}

/// A usable code always has a use left, and never more than its limits allow: a dollar or
/// percent code applies at most once per session, a spot code at most once per paid RSVP,
/// and never beyond its overall or per-user uses.
pub proof fn lemma_usable_within_limits(
    coupon: Option<Coupon>,
    now: i64,
    event_id: i64,
    usable_by: bool,
    past: CouponUses,
    rsvps: Seq<EventRsvp>,
)
    requires
        rsvps.len() <= i64::MAX,
        reaches_limits(coupon, now, event_id, usable_by) ==> {
            &&& known_kind(coupon->0.kind@)
            &&& coupon->0.max_uses is Some ==> fits_i64(coupon->0.max_uses->0 - past.total)
            &&& coupon->0.max_uses_per_user is Some ==> fits_i64(coupon->0.max_uses_per_user->0 - past.by_user)
        },
        check_outcome(coupon, now, event_id, usable_by, past, rsvps) is Usable,
    ensures
        ({
            let c = coupon->0;
            let n = check_outcome(coupon, now, event_id, usable_by, past, rsvps)->available;
            &&& coupon is Some
            &&& !expired_at(c.expires_at, now)
            &&& (c.event_id is None || c.event_id->0 == event_id)
            &&& usable_by
            &&& n >= 1
            &&& c.kind@ != Coupon::SPOT@ ==> n == 1
            &&& c.kind@ == Coupon::SPOT@ ==> n <= paid_count(rsvps)
            &&& c.max_uses is Some ==> n <= c.max_uses->0 - past.total
            &&& c.max_uses_per_user is Some ==> n <= c.max_uses_per_user->0 - past.by_user
        }),
{
    lemma_paid_count_bound(rsvps);
}

fn count_paid(rsvps: &[EventRsvp]) -> (n: i64)
    requires
        rsvps@.len() <= i64::MAX,
    ensures
        n == paid_count(rsvps@),
{
    let mut n: i64 = 0;
    let mut i: usize = 0;
    while i < rsvps.len()
        invariant
            i <= rsvps@.len(),
            rsvps@.len() <= i64::MAX,
            n == paid_count(rsvps@.take(i as int)),
            n <= i,
        decreases rsvps@.len() - i,
    {
        assert(rsvps@.take(i + 1).drop_last() =~= rsvps@.take(i as int));
        if rsvps[i].contribution > 0 {
            n = n + 1;
        }
        i = i + 1;
    }
    assert(rsvps@.take(i as int) =~= rsvps@);
    n
}

impl Coupon {
    /// Grants free RSVPs.
    pub const SPOT: &'static str = "spot";
    /// Dollars off the checkout total.
    pub const FIXED: &'static str = "fixed";
    /// Percent off each ticket.
    pub const PERCENT: &'static str = "percent";

    /// Whether the coupon has expired at `now`.
    pub fn is_expired_at(&self, now: i64) -> (r: bool)
        ensures
            r == expired_at(self.expires_at, now),
    {
        match self.expires_at {
            Some(at) => at <= now,
            None => false,
        }
    }

    /// Whether the coupon has expired; reads the clock. The answer is `is_expired_at` at the
    /// instant the clock reported: one without an expiry never expires, one expiring at the
    /// earliest instant always has.
    pub fn is_expired(&self) -> (r: bool)
        ensures
            self.expires_at is None ==> !r,
            exists|now: i64| r == #[trigger] expired_at(self.expires_at, now),
            self.expires_at == Some(i64::MIN) ==> r,
    {
        let now = now_micros();
        let r = self.is_expired_at(now);
        assert(r == expired_at(self.expires_at, now));
        r
    }

    /// Judge a code for a session at `now`, given the coupon found for the code (if any),
    /// whether the session's user may use it, and its past uses excluding this session.
    pub fn check_with(
        coupon: Option<Coupon>,
        now: i64,
        event_id: i64,
        usable_by: bool,
        past: CouponUses,
        rsvps: &[EventRsvp],
    ) -> (r: CouponCheck)
        requires
            rsvps@.len() <= i64::MAX,
            reaches_limits(coupon, now, event_id, usable_by) ==> {
                &&& known_kind(coupon->0.kind@)
                &&& coupon->0.max_uses is Some ==> fits_i64(coupon->0.max_uses->0 - past.total)
                &&& coupon->0.max_uses_per_user is Some ==> fits_i64(coupon->0.max_uses_per_user->0 - past.by_user)
            },
        ensures
            r == check_outcome(coupon, now, event_id, usable_by, past, rsvps@),
    {
        // No such code
        let coupon = match coupon {
            None => {
                return CouponCheck::Invalid;
            },
            Some(c) => c,
        };
        // Expired
        if coupon.is_expired_at(now) {
            return CouponCheck::Expired;
        }
        // For a different event
        match coupon.event_id {
            Some(id) => {
                if id != event_id {
                    return CouponCheck::Invalid;
                }
            },
            None => {},
        }
        // Not in list of allowed users
        if !usable_by {
            return CouponCheck::Invalid;
        }
        // Compute maximum potential remaining uses by kind.
        let mut remaining: i64 = if str_eq(coupon.kind.as_str(), Coupon::SPOT) {
            // Free RSVP coupons may be applied once per >$0 spot, subject to an optional limit.
            let n = count_paid(rsvps);
            match coupon.max_uses_per_event {
                Some(m) => if m < n { m } else { n },
                None => n,
            }
        } else {
            // $ and % off coupons may be applied at most once per RSVP session.
            1
        };
        // Overall max
        match coupon.max_uses {
            Some(max) => {
                let left = max - past.total;
                if left < remaining {
                    remaining = left;
                }
            },
            None => {},
        }
        // Per-user max
        match coupon.max_uses_per_user {
            Some(max) => {
                let left = max - past.by_user;
                if left < remaining {
                    remaining = left;
                }
            },
            None => {},
        }
        if remaining > 0 {
            CouponCheck::Usable { coupon, available: remaining }
        } else {
            CouponCheck::Exhausted
        }
    }
}

} // verus!

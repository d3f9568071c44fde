use vstd::prelude::*;

use crate::clock::now_micros;

verus! {

/// A promo code. Timestamps are microseconds.
#[derive(Clone, Debug)]
pub struct Promo {
    pub id: i64,
    pub code: String,
    pub user_id: Option<i64>,
    pub amount: i64,
    pub uses_remaining: Option<i64>,
    pub created_at: i64,
    pub expires_at: Option<i64>,
}

/// The fields of a new promo code.
#[derive(Clone, Debug)]
pub struct CreatePromoCode {
    pub code: String,
    pub user_id: Option<i64>,
    pub amount: i64,
    pub uses_remaining: Option<i64>,
    pub expires_at: Option<i64>,
}

/// A promo code is valid while not past its expiry and while it has uses left.
pub open spec fn promo_valid_at(promo: Promo, now: i64) -> bool {
    &&& !(promo.expires_at is Some && promo.expires_at->0 < now)
    &&& !(promo.uses_remaining is Some && promo.uses_remaining->0 <= 0)
}

impl Promo {
    /// Check if a promo code is valid at `now`.
    pub fn is_valid_at(&self, now: i64) -> (r: bool)
        ensures
            r == promo_valid_at(*self, now),
    {
        // Check if expired
        match self.expires_at {
            Some(expires_at) => {
                if expires_at < now {
                    return false;
                }
            },
            None => {},
        }
        // Check if uses remaining
        match self.uses_remaining {
            Some(uses_remaining) => {
                if uses_remaining <= 0 {
                    return false;
                }
            },
            None => {},
        }
        true
    }

    /// Check if a promo code is valid now; reads the clock. A code out of uses is never valid.
    /// The answer is `is_valid_at` at the instant the clock reported; without an expiry (or
    /// expiring at the last instant) a code is valid exactly while it has uses left.
    pub fn is_valid(&self) -> (r: bool)
        ensures
            self.uses_remaining is Some && self.uses_remaining->0 <= 0 ==> !r,
            exists|now: i64| r == #[trigger] promo_valid_at(*self, now),
            (self.expires_at is None || self.expires_at == Some(i64::MAX)) ==> r == !(self.uses_remaining is Some
                && self.uses_remaining->0 <= 0),
    {
        let now = now_micros();
        let r = self.is_valid_at(now);
        assert(r == promo_valid_at(*self, now));
        r
    }
}

} // verus!

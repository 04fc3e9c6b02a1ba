//! Checkpoint-based reward accrual: one schedule at a time emits `rate`
//! reward units per time unit, distributed pro rata to share holders
//! through a monotone reward-per-share accumulator (scaled by
//! `REWARD_SCALE`) and one lazily refreshed checkpoint per holder.
//!
//! Setting a new schedule first flushes the pending accrual of the old one;
//! the unemitted remainder of a still-active previous schedule is discarded
//! (the new budget is exactly the new `amount`). While no shares exist the
//! clock still advances, so reward for a holderless stretch is emitted to
//! nobody rather than retroactively to later holders.

use vstd::prelude::*;

use crate::errors::PoolError;
use crate::table::Table;

verus! {

/// Fixed-point scale of the reward-per-share accumulator.
pub const REWARD_SCALE: i128 = 1_000_000_000;

/// Reward bookkeeping of one pool.
pub struct RewardState {
    /// The only account allowed to set schedules.
    pub admin: u64,
    /// Cumulative reward per share since inception, scaled by `REWARD_SCALE`.
    pub accumulator: i128,
    /// Timestamp of the last accumulator refresh.
    pub last_update_time: u64,
    /// Reward units emitted per time unit by the current schedule,
    /// scaled by `REWARD_SCALE` so fractional rates are kept exactly.
    pub rate: i128,
    /// Timestamp at which the current schedule stops accruing.
    pub expires_at: u64,
    /// Per-holder `(checkpoint, owed)`: the accumulator value last observed
    /// by the holder, and reward units credited but not yet claimed.
    pub users: Table<(i128, i128)>,
}

impl RewardState {
    /// Internal invariant of the reward bookkeeping.
    pub open spec fn wf(self) -> bool {
        &&& 0 <= self.accumulator
        &&& 0 <= self.rate
        &&& self.last_update_time <= self.expires_at
        &&& self.users.wf()
        &&& forall|a: u64|
            (#[trigger] self.users.spec_get(a)) matches Some(e) ==> 0 <= e.0 <= self.accumulator
                && 0 <= e.1
    }
}

/// The time up to which a refresh at `now` accrues: `now` clamped into
/// `[last_update_time, expires_at]`.
pub open spec fn accrual_upto(r: RewardState, now: u64) -> int {
    if now <= r.last_update_time {
        r.last_update_time as int
    } else if now <= r.expires_at {
        now as int
    } else {
        r.expires_at as int
    }
}

/// The accumulator after a refresh at `now` with `total_shares` outstanding.
pub open spec fn acc_after(r: RewardState, total_shares: i128, now: u64) -> int {
    if total_shares > 0 {
        r.accumulator + (accrual_upto(r, now) - r.last_update_time) * r.rate / (
        total_shares as int)
    } else {
        r.accumulator as int
    }
}

/// Whether a refresh at `now` stays within the `i128` range.
pub open spec fn refresh_fits(r: RewardState, total_shares: i128, now: u64) -> bool {
    total_shares <= 0 || accrual_upto(r, now) == r.last_update_time || {
        let elapsed = accrual_upto(r, now) - r.last_update_time;
        &&& elapsed * r.rate <= i128::MAX
        &&& acc_after(r, total_shares, now) <= i128::MAX
    }
}

/// The checkpoint of `a` against a refreshed accumulator `acc1`: the value
/// stored for `a`, or `acc1` for a holder seen for the first time.
pub open spec fn user_cp_at(r: RewardState, a: u64, acc1: int) -> int {
    match r.users.spec_get(a) {
        Some(e) => e.0 as int,
        None => acc1,
    }
}

/// Reward units credited to `a` but not yet claimed, before any refresh.
pub open spec fn user_owed(r: RewardState, a: u64) -> int {
    match r.users.spec_get(a) {
        Some(e) => e.1 as int,
        None => 0,
    }
}

/// What a checkpoint at `now` newly credits to `a` holding `shares`.
pub open spec fn claim_delta(
    r: RewardState,
    a: u64,
    shares: i128,
    total_shares: i128,
    now: u64,
) -> int {
    let acc1 = acc_after(r, total_shares, now);
    shares * (acc1 - user_cp_at(r, a, acc1)) / (REWARD_SCALE as int)
}

/// The total a claim by `a` at `now` pays out.
pub open spec fn claim_amount(
    r: RewardState,
    a: u64,
    shares: i128,
    total_shares: i128,
    now: u64,
) -> int {
    user_owed(r, a) + claim_delta(r, a, shares, total_shares, now)
}

/// Whether the checkpoint arithmetic for `a` stays within the `i128` range.
pub open spec fn checkpoint_fits(
    r: RewardState,
    a: u64,
    shares: i128,
    total_shares: i128,
    now: u64,
) -> bool {
    let acc1 = acc_after(r, total_shares, now);
    &&& shares * (acc1 - user_cp_at(r, a, acc1)) <= i128::MAX
    &&& claim_amount(r, a, shares, total_shares, now) <= i128::MAX
}

/// Both overflow guards of a checkpoint of `a` at `now` hold.
pub open spec fn checkpoint_ok(
    r: RewardState,
    a: u64,
    shares: i128,
    total_shares: i128,
    now: u64,
) -> bool {
    refresh_fits(r, total_shares, now) && checkpoint_fits(r, a, shares, total_shares, now)
}

/// `r1` is `r0` after a checkpoint of `a` holding `shares`, taken at `now`.
pub open spec fn checkpoint_applied(
    r0: RewardState,
    r1: RewardState,
    a: u64,
    shares: i128,
    total_shares: i128,
    now: u64,
) -> bool {
    &&& r1.accumulator == acc_after(r0, total_shares, now)
    &&& r1.last_update_time == accrual_upto(r0, now)
    &&& r1.users.spec_get(a) == Some(
        (r1.accumulator, claim_amount(r0, a, shares, total_shares, now) as i128),
    )
    &&& forall|a2: u64| a2 != a ==> r1.users.spec_get(a2) == r0.users.spec_get(a2)
    &&& r1.admin == r0.admin
    &&& r1.rate == r0.rate
    &&& r1.expires_at == r0.expires_at
}

impl RewardState {
    /// A fresh reward engine with no schedule and an empty holder table.
    pub fn new(admin: u64) -> (r: RewardState)
        ensures
            r.wf(),
            r.admin == admin,
            r.accumulator == 0,
            r.last_update_time == 0,
            r.rate == 0,
            r.expires_at == 0,
            forall|a: u64| r.users.spec_get(a) == None::<(i128, i128)>,
    {
        RewardState {
            admin,
            accumulator: 0,
            last_update_time: 0,
            rate: 0,
            expires_at: 0,
            users: Table::new(),
        }
    }

    /// Computes, without mutating, the accumulator and timestamp a refresh
    /// at `now` would produce.
    fn compute_refresh(&self, total_shares: i128, now: u64) -> (r: Result<(i128, u64), PoolError>)
        requires
            self.wf(),
            0 <= total_shares,
        ensures
            r is Ok <==> refresh_fits(*self, total_shares, now),
            r matches Ok(v) ==> v.0 == acc_after(*self, total_shares, now) && v.1 == accrual_upto(
                *self,
                now,
            ) && self.accumulator <= v.0,
            r is Err ==> r == Err::<(i128, u64), PoolError>(PoolError::ArithmeticOverflow),
    {
        let upto: u64 = if now <= self.last_update_time {
            self.last_update_time
        } else if now <= self.expires_at {
            now
        } else {
            self.expires_at
        };
        if total_shares <= 0 || upto == self.last_update_time {
            proof {
                if total_shares > 0 {
                    let u = accrual_upto(*self, now);
                    assert(u == self.last_update_time);
                    assert((u - self.last_update_time) * self.rate == 0) by (nonlinear_arith)
                        requires
                            u == self.last_update_time,
                    ;
                    assert((0int) / (total_shares as int) == 0) by (nonlinear_arith)
                        requires
                            total_shares > 0,
                    ;
                }
            }
            return Ok((self.accumulator, upto));
        }
        let elapsed: i128 = (upto - self.last_update_time) as i128;
        let prod = match elapsed.checked_mul(self.rate) {
            Some(p) => p,
            None => {
                return Err(PoolError::ArithmeticOverflow);
            },
        };
        let inc = prod / total_shares;
        proof {
            assert(prod >= 0 && inc >= 0 && inc == (prod as int) / (total_shares as int)) by (nonlinear_arith)
                requires
                    elapsed >= 0,
                    self.rate >= 0,
                    total_shares > 0,
                    prod == elapsed * self.rate,
                    inc == prod / (total_shares as i128),
            ;
        }
        match self.accumulator.checked_add(inc) {
            Some(a) => Ok((a, upto)),
            None => Err(PoolError::ArithmeticOverflow),
        }
    }

    /// Refreshes the accumulator and credits `a`'s pending share of it,
    /// observing `shares` as `a`'s holding; all-or-nothing.
    pub fn checkpoint(&mut self, a: u64, shares: i128, total_shares: i128, now: u64) -> (r: Result<
        (),
        PoolError,
    >)
        requires
            old(self).wf(),
            0 <= shares,
            0 <= total_shares,
        ensures
            final(self).wf(),
            r is Ok <==> checkpoint_ok(*old(self), a, shares, total_shares, now),
            r is Ok ==> checkpoint_applied(*old(self), *final(self), a, shares, total_shares, now),
            r is Err ==> r == Err::<(), PoolError>(PoolError::ArithmeticOverflow) && *final(self)
                == *old(self),
    {
        match self.compute_checkpoint(a, shares, total_shares, now) {
            Ok((acc1, upto, owed_new)) => {
                self.accumulator = acc1;
                self.last_update_time = upto;
                self.users.set(a, (acc1, owed_new));
                Ok(())
            },
            Err(e) => Err(e),
        }
    }

    /// Computes, without mutating, what a checkpoint of `a` at `now` would
    /// store: the refreshed accumulator, its timestamp, and `a`'s new owed
    /// balance.
    fn compute_checkpoint(&self, a: u64, shares: i128, total_shares: i128, now: u64) -> (r: Result<
        (i128, u64, i128),
        PoolError,
    >)
        requires
            self.wf(),
            0 <= shares,
            0 <= total_shares,
        ensures
            r is Ok <==> refresh_fits(*self, total_shares, now) && checkpoint_fits(
                *self,
                a,
                shares,
                total_shares,
                now,
            ),
            r matches Ok(v) ==> {
                &&& v.0 == acc_after(*self, total_shares, now)
                &&& v.1 == accrual_upto(*self, now)
                &&& v.2 == claim_amount(*self, a, shares, total_shares, now)
                &&& self.accumulator <= v.0
                &&& 0 <= v.2
                &&& user_cp_at(*self, a, v.0 as int) <= v.0
            },
            r is Err ==> r == Err::<(i128, u64, i128), PoolError>(PoolError::ArithmeticOverflow),
    {
        let (acc1, upto) = match self.compute_refresh(total_shares, now) {
            Ok(v) => v,
            Err(e) => {
                return Err(e);
            },
        };
        let (cp, owed) = match self.users.get(a) {
            Some(e) => e,
            None => (acc1, 0),
        };
        let d = match shares.checked_mul(acc1 - cp) {
            Some(p) => p,
            None => {
                return Err(PoolError::ArithmeticOverflow);
            },
        };
        let delta = d / REWARD_SCALE;
        proof {
            assert(d >= 0 && delta >= 0 && delta == (d as int) / (REWARD_SCALE as int)) by (nonlinear_arith)
                requires
                    shares >= 0,
                    acc1 - cp >= 0,
                    d == shares * (acc1 - cp),
                    delta == d / (REWARD_SCALE as i128),
            ;
        }
        match owed.checked_add(delta) {
            Some(o) => Ok((acc1, upto, o)),
            None => Err(PoolError::ArithmeticOverflow),
        }
    }

    /// Pays out everything owed to `a` (which holds `shares` of
    /// `total_shares`) and resets the checkpoint; returns the amount paid,
    /// zero being a valid result. All-or-nothing.
    pub fn claim(&mut self, a: u64, shares: i128, total_shares: i128, now: u64) -> (r: Result<
        i128,
        PoolError,
    >)
        requires
            old(self).wf(),
            0 <= shares,
            0 <= total_shares,
        ensures
            final(self).wf(),
            r is Ok <==> refresh_fits(*old(self), total_shares, now) && checkpoint_fits(
                *old(self),
                a,
                shares,
                total_shares,
                now,
            ),
            r matches Ok(v) ==> {
                &&& v == claim_amount(*old(self), a, shares, total_shares, now)
                &&& 0 <= v
                &&& final(self).accumulator == acc_after(*old(self), total_shares, now)
                &&& final(self).last_update_time == accrual_upto(*old(self), now)
                &&& final(self).users.spec_get(a) == Some(
                    (final(self).accumulator, 0i128),
                )
                &&& forall|a2: u64|
                    a2 != a ==> final(self).users.spec_get(a2) == old(self).users.spec_get(a2)
                &&& final(self).admin == old(self).admin
                &&& final(self).rate == old(self).rate
                &&& final(self).expires_at == old(self).expires_at
            },
            r is Err ==> r == Err::<i128, PoolError>(PoolError::ArithmeticOverflow) && *final(self)
                == *old(self),
    {
        match self.compute_checkpoint(a, shares, total_shares, now) {
            Ok((acc1, upto, owed_new)) => {
                self.accumulator = acc1;
                self.last_update_time = upto;
                self.users.set(a, (acc1, 0));
                Ok(owed_new)
            },
            Err(e) => Err(e),
        }
    }

    /// What a claim by `a` at `now` would pay, without mutating anything.
    pub fn get_user_reward(&self, a: u64, shares: i128, total_shares: i128, now: u64) -> (r: Result<
        i128,
        PoolError,
    >)
        requires
            self.wf(),
            0 <= shares,
            0 <= total_shares,
        ensures
            r is Ok <==> refresh_fits(*self, total_shares, now) && checkpoint_fits(
                *self,
                a,
                shares,
                total_shares,
                now,
            ),
            r matches Ok(v) ==> v == claim_amount(*self, a, shares, total_shares, now) && 0 <= v,
            r is Err ==> r == Err::<i128, PoolError>(PoolError::ArithmeticOverflow),
    {
        match self.compute_checkpoint(a, shares, total_shares, now) {
            Ok((_, _, owed_new)) => Ok(owed_new),
            Err(e) => Err(e),
        }
    }

    /// Starts a new schedule emitting `amount / (expires_at - now)` per time
    /// unit (kept scaled by `REWARD_SCALE`) until `expires_at`, after
    /// flushing the pending accrual of the previous one; admin only. The
    /// unemitted remainder of a still-active previous schedule is
    /// discarded. All-or-nothing.
    pub fn set_schedule(
        &mut self,
        caller: u64,
        now: u64,
        expires_at: u64,
        amount: i128,
        total_shares: i128,
    ) -> (r: Result<bool, PoolError>)
        requires
            old(self).wf(),
            0 <= total_shares,
        ensures
            final(self).wf(),
            caller != old(self).admin ==> r == Err::<bool, PoolError>(PoolError::Unauthorized)
                && *final(self) == *old(self),
            caller == old(self).admin && (expires_at <= now || amount <= 0) ==> r == Err::<
                bool,
                PoolError,
            >(PoolError::InvalidArgument) && *final(self) == *old(self),
            caller == old(self).admin && expires_at > now && amount > 0 && (amount * REWARD_SCALE
                > i128::MAX || !refresh_fits(*old(self), total_shares, now)) ==> r == Err::<
                bool,
                PoolError,
            >(PoolError::ArithmeticOverflow) && *final(self) == *old(self),
            caller == old(self).admin && expires_at > now && amount > 0 && amount * REWARD_SCALE
                <= i128::MAX && refresh_fits(*old(self), total_shares, now) ==> r == Ok::<
                bool,
                PoolError,
            >(true) && {
                &&& final(self).accumulator == acc_after(*old(self), total_shares, now)
                &&& final(self).last_update_time == now
                &&& final(self).rate == amount * REWARD_SCALE / (expires_at - now)
                &&& final(self).expires_at == expires_at
                &&& final(self).users == old(self).users
                &&& final(self).admin == old(self).admin
            },
    {
        if caller != self.admin {
            return Err(PoolError::Unauthorized);
        }
        if expires_at <= now || amount <= 0 {
            return Err(PoolError::InvalidArgument);
        }
        let scaled = match amount.checked_mul(REWARD_SCALE) {
            Some(p) => p,
            None => {
                return Err(PoolError::ArithmeticOverflow);
            },
        };
        let (acc1, _upto) = match self.compute_refresh(total_shares, now) {
            Ok(v) => v,
            Err(e) => {
                return Err(e);
            },
        };
        let dur: i128 = (expires_at - now) as i128;
        let rate = scaled / dur;
        proof {
            assert(rate >= 0 && rate == (scaled as int) / (expires_at - now)) by (nonlinear_arith)
                requires
                    scaled > 0,
                    dur > 0,
                    dur == expires_at - now,
                    rate == scaled / (dur as i128),
            ;
        }
        self.accumulator = acc1;
        self.last_update_time = now;
        self.rate = rate;
        self.expires_at = expires_at;
        Ok(true)
    }
}

} // verus!

//! The accrual engine of a fixed-rate pool: one global accumulator and one
//! checkpoint per account, each touched in constant time.

use vstd::prelude::*;
use crate::errors::Error;

verus! {

/// The global state of a fixed-rate pool.
#[derive(Clone, Copy, Debug, PartialEq, Eq, Structural)]
pub struct Pool {
    /// Reward units paid out per unit of time, shared by all stakers.
    pub rate: i128,
    /// Principal currently staked, over all accounts.
    pub total_staked: i128,
    /// Reward earned so far by one unit staked since the pool began.
    pub reward_per_unit_accumulated: i128,
    /// When the accumulator was last brought up to date.
    pub last_update_time: u64,
}

/// What the pool remembers of one account.
#[derive(Clone, Copy, Debug, PartialEq, Eq, Structural)]
pub struct Checkpoint {
    /// Principal the account has staked and not withdrawn.
    pub staked_balance: i128,
    /// Reward owed as of the account's last interaction.
    pub reward_accrued: i128,
    /// The accumulator's value at the account's last interaction.
    pub reward_per_unit_paid: i128,
}

impl Checkpoint {
    /// The record of an account that never interacted.
    pub open spec fn blank() -> Checkpoint {
        Checkpoint { staked_balance: 0, reward_accrued: 0, reward_per_unit_paid: 0 }
    }

    pub fn new() -> (c: Checkpoint)
        ensures
            c == Checkpoint::blank(),
    {
        Checkpoint { staked_balance: 0, reward_accrued: 0, reward_per_unit_paid: 0 }
    }
}

impl Pool {
    /// No quantity of the pool is negative.
    pub open spec fn wf(&self) -> bool {
        &&& self.rate >= 0
        &&& self.total_staked >= 0
        &&& self.reward_per_unit_accumulated >= 0
    }

    /// The checkpoint is one this pool could have written: nothing in it is
    /// negative, its high-water mark is not ahead of the accumulator and its
    /// balance is part of the pool's total.
    pub open spec fn tracks(&self, c: Checkpoint) -> bool {
        &&& 0 <= c.staked_balance <= self.total_staked
        &&& 0 <= c.reward_accrued
        &&& 0 <= c.reward_per_unit_paid <= self.reward_per_unit_accumulated
    }

    /// Reward emitted between the last refresh and `now`.
    pub open spec fn emitted(&self, now: u64) -> int {
        (now - self.last_update_time) * self.rate
    }

    /// The accumulator as a refresh at `now` would leave it. While nothing
    /// is staked the emission has no receiver and is dropped; otherwise each
    /// unit staked gets the floor of its share.
    pub open spec fn accumulated_at(&self, now: u64) -> int {
        if self.total_staked == 0 {
            self.reward_per_unit_accumulated as int
        } else {
            self.reward_per_unit_accumulated + self.emitted(now) / (self.total_staked as int)
        }
    }

    /// A refresh at `now` stays within the machine's range.
    pub open spec fn refresh_fits(&self, now: u64) -> bool {
        self.total_staked == 0 || (self.emitted(now) <= i128::MAX && self.accumulated_at(now)
            <= i128::MAX)
    }

    /// The pool after a refresh at `now`.
    pub open spec fn refreshed(&self, now: u64) -> Pool {
        Pool {
            rate: self.rate,
            total_staked: self.total_staked,
            reward_per_unit_accumulated: self.accumulated_at(now) as i128,
            last_update_time: now,
        }
    }

    /// What the account is entitled to at `now`: what was owed at its last
    /// checkpoint, and its balance times the accumulator's growth since.
    pub open spec fn earned_at(&self, c: Checkpoint, now: u64) -> int {
        c.reward_accrued + c.staked_balance * (self.accumulated_at(now) - c.reward_per_unit_paid)
    }

    /// Refreshing the pool and settling the account at `now` stays within
    /// the machine's range.
    pub open spec fn checkpoint_fits(&self, c: Checkpoint, now: u64) -> bool {
        self.refresh_fits(now) && self.earned_at(c, now) <= i128::MAX
    }

    /// The account's record after a checkpoint at `now`.
    pub open spec fn settled(&self, c: Checkpoint, now: u64) -> Checkpoint {
        Checkpoint {
            staked_balance: c.staked_balance,
            reward_accrued: self.earned_at(c, now) as i128,
            reward_per_unit_paid: self.accumulated_at(now) as i128,
        }
    }

    /// A pool with nothing staked and nothing accumulated, paying `rate`
    /// per unit of time from `now` on. A negative rate is refused.
    pub fn new(rate: i128, now: u64) -> (r: Result<Pool, Error>)
        ensures
            rate < 0 ==> r == Err::<Pool, Error>(Error::InvalidAmount),
            rate >= 0 ==> r == Ok::<Pool, Error>(
                (Pool {
                    rate,
                    total_staked: 0,
                    reward_per_unit_accumulated: 0,
                    last_update_time: now,
                }),
            ),
            r is Ok ==> r->Ok_0.wf() && r->Ok_0.tracks(Checkpoint::blank()),
    {
        if rate < 0 {
            return Err(Error::InvalidAmount);
        }
        Ok(Pool { rate, total_staked: 0, reward_per_unit_accumulated: 0, last_update_time: now })
    }

    /// Whether the pool is well formed, for callers that rebuild one from
    /// stored values.
    pub fn well_formed(&self) -> (b: bool)
        ensures
            b == self.wf(),
    {
        self.rate >= 0 && self.total_staked >= 0 && self.reward_per_unit_accumulated >= 0
    }

    /// Whether the pool tracks the checkpoint, for callers that rebuild one
    /// from stored values.
    pub fn is_tracking(&self, c: &Checkpoint) -> (b: bool)
        ensures
            b == self.tracks(*c),
    {
        0 <= c.staked_balance && c.staked_balance <= self.total_staked && 0 <= c.reward_accrued
            && 0 <= c.reward_per_unit_paid && c.reward_per_unit_paid
            <= self.reward_per_unit_accumulated
    }

    /// Brings the accumulator up to `now`.
    pub fn refresh(&mut self, now: u64) -> (r: Result<(), Error>)
        requires
            old(self).wf(),
            now >= old(self).last_update_time,
        ensures
            r is Ok <==> old(self).refresh_fits(now),
            r is Ok ==> *final(self) == old(self).refreshed(now),
            r is Err ==> r == Err::<(), Error>(Error::Overflow) && *final(self) == *old(self),
            final(self).wf(),
            final(self).reward_per_unit_accumulated >= old(self).reward_per_unit_accumulated,
    {
        if self.total_staked > 0 {
            let dt: i128 = (now - self.last_update_time) as i128;
            let emitted: i128 = match dt.checked_mul(self.rate) {
                Some(v) => v,
                None => { return Err(Error::Overflow); },
            };
            proof {
                lemma_growth_nonnegative(*self, now);
            }
            let per_unit: i128 = emitted / self.total_staked;
            let accumulated: i128 = match self.reward_per_unit_accumulated.checked_add(per_unit) {
                Some(v) => v,
                None => { return Err(Error::Overflow); },
            };
            self.reward_per_unit_accumulated = accumulated;
        }
        self.last_update_time = now;
        Ok(())
    }

    /// Refreshes the pool at `now` and settles the account against it: what
    /// it earned since its last checkpoint is added to what it is owed, and
    /// its high-water mark moves up to the accumulator.
    pub fn checkpoint(&mut self, account: &mut Checkpoint, now: u64) -> (r: Result<(), Error>)
        requires
            old(self).wf(),
            old(self).tracks(*old(account)),
            now >= old(self).last_update_time,
        ensures
            r is Ok <==> old(self).checkpoint_fits(*old(account), now),
            r is Ok ==> *final(self) == old(self).refreshed(now) && *final(account) == old(
                self,
            ).settled(*old(account), now),
            r is Err ==> r == Err::<(), Error>(Error::Overflow) && *final(self) == *old(self)
                && *final(account) == *old(account),
            final(self).wf(),
            final(self).tracks(*final(account)),
            final(self).reward_per_unit_accumulated >= old(self).reward_per_unit_accumulated,
            final(account).reward_accrued >= old(account).reward_accrued,
    {
        let mut pool: Pool = *self;
        match pool.refresh(now) {
            Ok(()) => {},
            Err(e) => { return Err(e); },
        }
        let growth: i128 = pool.reward_per_unit_accumulated - account.reward_per_unit_paid;
        proof {
            lemma_pending_nonnegative(account.staked_balance as int, growth as int);
        }
        let pending: i128 = match account.staked_balance.checked_mul(growth) {
            Some(v) => v,
            None => { return Err(Error::Overflow); },
        };
        let owed: i128 = match account.reward_accrued.checked_add(pending) {
            Some(v) => v,
            None => { return Err(Error::Overflow); },
        };
        account.reward_accrued = owed;
        account.reward_per_unit_paid = pool.reward_per_unit_accumulated;
        *self = pool;
        Ok(())
    }

    /// What the account could claim at `now`, computed on the accumulator
    /// as a refresh at `now` would leave it. Nothing is changed.
    pub fn earned(&self, account: &Checkpoint, now: u64) -> (r: Result<i128, Error>)
        requires
            self.wf(),
            self.tracks(*account),
            now >= self.last_update_time,
        ensures
            r is Ok <==> self.checkpoint_fits(*account, now),
            r is Ok ==> r->Ok_0 == self.earned_at(*account, now),
            r is Err ==> r == Err::<i128, Error>(Error::Overflow),
    {
        let mut pool: Pool = *self;
        let mut settled: Checkpoint = *account;
        match pool.checkpoint(&mut settled, now) {
            Ok(()) => Ok(settled.reward_accrued),
            Err(e) => Err(e),
        }
    }

    /// Staking `amount` at `now` stays within the machine's range.
    pub open spec fn stake_fits(&self, c: Checkpoint, amount: i128, now: u64) -> bool {
        self.checkpoint_fits(c, now) && self.total_staked + amount <= i128::MAX
    }

    /// The pool once `amount` more is staked at `now`.
    pub open spec fn after_stake(&self, amount: i128, now: u64) -> Pool {
        Pool {
            rate: self.rate,
            total_staked: (self.total_staked + amount) as i128,
            reward_per_unit_accumulated: self.accumulated_at(now) as i128,
            last_update_time: now,
        }
    }

    /// The pool once `amount` is withdrawn at `now`.
    pub open spec fn after_withdraw(&self, amount: i128, now: u64) -> Pool {
        Pool {
            rate: self.rate,
            total_staked: (self.total_staked - amount) as i128,
            reward_per_unit_accumulated: self.accumulated_at(now) as i128,
            last_update_time: now,
        }
    }

    /// The account's record once its balance has moved by `delta` at `now`:
    /// its entitlement is settled on the balance it had before.
    pub open spec fn moved(&self, c: Checkpoint, delta: int, now: u64) -> Checkpoint {
        Checkpoint {
            staked_balance: (c.staked_balance + delta) as i128,
            reward_accrued: self.earned_at(c, now) as i128,
            reward_per_unit_paid: self.accumulated_at(now) as i128,
        }
    }

    /// The account's record once it has claimed at `now`.
    pub open spec fn claimed(&self, c: Checkpoint, now: u64) -> Checkpoint {
        Checkpoint {
            staked_balance: c.staked_balance,
            reward_accrued: 0,
            reward_per_unit_paid: self.accumulated_at(now) as i128,
        }
    }

    /// Adds `amount` to the account's stake at `now`. The entitlement is
    /// settled first, on the balance before the deposit.
    pub fn stake(&mut self, account: &mut Checkpoint, amount: i128, now: u64) -> (r: Result<
        (),
        Error,
    >)
        requires
            old(self).wf(),
            old(self).tracks(*old(account)),
            now >= old(self).last_update_time,
        ensures
            amount <= 0 ==> r == Err::<(), Error>(Error::InvalidAmount),
            amount > 0 && !old(self).stake_fits(*old(account), amount, now) ==> r == Err::<
                (),
                Error,
            >(Error::Overflow),
            amount > 0 && old(self).stake_fits(*old(account), amount, now) ==> r == Ok::<
                (),
                Error,
            >(()),
            r is Ok ==> *final(self) == old(self).after_stake(amount, now) && *final(account)
                == old(self).moved(*old(account), amount as int, now),
            r is Err ==> *final(self) == *old(self) && *final(account) == *old(account),
            final(self).wf(),
            final(self).tracks(*final(account)),
            final(self).reward_per_unit_accumulated >= old(self).reward_per_unit_accumulated,
    {
        if amount <= 0 {
            return Err(Error::InvalidAmount);
        }
        let mut pool: Pool = *self;
        let mut settled: Checkpoint = *account;
        match pool.checkpoint(&mut settled, now) {
            Ok(()) => {},
            Err(e) => { return Err(e); },
        }
        let total: i128 = match pool.total_staked.checked_add(amount) {
            Some(v) => v,
            None => { return Err(Error::Overflow); },
        };
        pool.total_staked = total;
        settled.staked_balance = settled.staked_balance + amount;
        *self = pool;
        *account = settled;
        Ok(())
    }

    /// Takes `amount` out of the account's stake at `now`. The entitlement
    /// is settled first, on the balance before the withdrawal.
    pub fn withdraw(&mut self, account: &mut Checkpoint, amount: i128, now: u64) -> (r: Result<
        (),
        Error,
    >)
        requires
            old(self).wf(),
            old(self).tracks(*old(account)),
            now >= old(self).last_update_time,
        ensures
            amount <= 0 ==> r == Err::<(), Error>(Error::InvalidAmount),
            amount > old(account).staked_balance && amount > 0 ==> r == Err::<(), Error>(
                Error::InsufficientBalance,
            ),
            0 < amount <= old(account).staked_balance && !old(self).checkpoint_fits(
                *old(account),
                now,
            ) ==> r == Err::<(), Error>(Error::Overflow),
            0 < amount <= old(account).staked_balance && old(self).checkpoint_fits(
                *old(account),
                now,
            ) ==> r == Ok::<(), Error>(()),
            r is Ok ==> *final(self) == old(self).after_withdraw(amount, now) && *final(account)
                == old(self).moved(*old(account), -amount, now),
            r is Err ==> *final(self) == *old(self) && *final(account) == *old(account),
            final(self).wf(),
            final(self).tracks(*final(account)),
            final(self).reward_per_unit_accumulated >= old(self).reward_per_unit_accumulated,
    {
        if amount <= 0 {
            return Err(Error::InvalidAmount);
        }
        if amount > account.staked_balance {
            return Err(Error::InsufficientBalance);
        }
        let mut pool: Pool = *self;
        let mut settled: Checkpoint = *account;
        match pool.checkpoint(&mut settled, now) {
            Ok(()) => {},
            Err(e) => { return Err(e); },
        }
        pool.total_staked = pool.total_staked - amount;
        settled.staked_balance = settled.staked_balance - amount;
        *self = pool;
        *account = settled;
        Ok(())
    }

    /// Settles the account at `now`, hands out all it is owed and leaves it
    /// owed nothing. The staked balance is not touched.
    pub fn claim(&mut self, account: &mut Checkpoint, now: u64) -> (r: Result<i128, Error>)
        requires
            old(self).wf(),
            old(self).tracks(*old(account)),
            now >= old(self).last_update_time,
        ensures
            r is Ok <==> old(self).checkpoint_fits(*old(account), now),
            r is Ok ==> r->Ok_0 == old(self).earned_at(*old(account), now) && *final(self) == old(
                self,
            ).refreshed(now) && *final(account) == old(self).claimed(*old(account), now),
            r is Err ==> r == Err::<i128, Error>(Error::Overflow) && *final(self) == *old(self)
                && *final(account) == *old(account),
            r is Ok ==> final(self).checkpoint_fits(*final(account), now),
            r is Ok ==> final(self).earned_at(*final(account), now) == 0,
            final(self).wf(),
            final(self).tracks(*final(account)),
            final(self).reward_per_unit_accumulated >= old(self).reward_per_unit_accumulated,
    {
        let mut pool: Pool = *self;
        let mut settled: Checkpoint = *account;
        match pool.checkpoint(&mut settled, now) {
            Ok(()) => {},
            Err(e) => { return Err(e); },
        }
        proof {
            law_claim_leaves_nothing(*self, *account, now);
        }
        let payout: i128 = settled.reward_accrued;
        settled.reward_accrued = 0;
        *self = pool;
        *account = settled;
        Ok(payout)
    }
}

/// A balance times an accumulator's growth is not negative.
pub proof fn lemma_pending_nonnegative(balance: int, growth: int)
    requires
        balance >= 0,
        growth >= 0,
    ensures
        balance * growth >= 0,
{
    assert(balance * growth >= 0) by (nonlinear_arith)
        requires
            balance >= 0,
            growth >= 0,
    ;
}

/// Between refreshes the would-be accumulator is never below the stored
/// one, whatever time has passed.
pub proof fn lemma_growth_nonnegative(pool: Pool, now: u64)
    requires
        pool.wf(),
        now >= pool.last_update_time,
    ensures
        pool.emitted(now) >= 0,
        pool.accumulated_at(now) >= pool.reward_per_unit_accumulated,
{
    let dt = now - pool.last_update_time;
    let rate = pool.rate as int;
    let total = pool.total_staked as int;
    assert(dt * rate >= 0) by (nonlinear_arith)
        requires
            dt >= 0,
            rate >= 0,
    ;
    if total > 0 {
        let e = dt * rate;
        assert(e / total >= 0) by (nonlinear_arith)
            requires
                e >= 0,
                total > 0,
        ;
    }
}

/// The accumulator never decreases: as time passes the value a refresh
/// would store only grows, and so does what an account is entitled to.
pub proof fn law_accumulator_monotonic(pool: Pool, c: Checkpoint, earlier: u64, later: u64)
    requires
        pool.wf(),
        pool.tracks(c),
        pool.last_update_time <= earlier <= later,
    ensures
        pool.reward_per_unit_accumulated <= pool.accumulated_at(earlier) <= pool.accumulated_at(
            later,
        ),
        c.reward_accrued <= pool.earned_at(c, earlier) <= pool.earned_at(c, later),
{
    lemma_growth_nonnegative(pool, earlier);
    let rate = pool.rate as int;
    let total = pool.total_staked as int;
    let d1 = earlier - pool.last_update_time;
    let d2 = later - pool.last_update_time;
    assert(d1 * rate <= d2 * rate) by (nonlinear_arith)
        requires
            0 <= d1 <= d2,
            rate >= 0,
    ;
    if total > 0 {
        let e1 = d1 * rate;
        let e2 = d2 * rate;
        assert(e1 / total <= e2 / total) by (nonlinear_arith)
            requires
                e1 <= e2,
                total > 0,
        ;
    }
    let b = c.staked_balance as int;
    let g1 = pool.accumulated_at(earlier) - c.reward_per_unit_paid;
    let g2 = pool.accumulated_at(later) - c.reward_per_unit_paid;
    assert(0 <= b * g1 <= b * g2) by (nonlinear_arith)
        requires
            b >= 0,
            0 <= g1 <= g2,
    ;
}

/// Reading an entitlement is stable. With no time elapsed, the value read
/// is the same whether or not the pool was refreshed or the account
/// settled in between, and it is what a claim at that moment pays.
pub proof fn law_read_is_stable(pool: Pool, c: Checkpoint, now: u64)
    requires
        pool.wf(),
        pool.tracks(c),
        now >= pool.last_update_time,
        pool.checkpoint_fits(c, now),
    ensures
        pool.refreshed(now).accumulated_at(now) == pool.accumulated_at(now),
        pool.refreshed(now).earned_at(c, now) == pool.earned_at(c, now),
        pool.refreshed(now).earned_at(pool.settled(c, now), now) == pool.earned_at(c, now),
        pool.refreshed(now).checkpoint_fits(pool.settled(c, now), now),
{
    lemma_growth_nonnegative(pool, now);
    lemma_idle_refresh(pool.refreshed(now));
    let b = c.staked_balance as int;
    assert(b * 0 == 0) by (nonlinear_arith);
    lemma_pending_nonnegative(b, pool.accumulated_at(now) - c.reward_per_unit_paid);
}

/// A claim leaves nothing behind: right after it the account is entitled
/// to 0, so a second claim at the same moment pays 0.
pub proof fn law_claim_leaves_nothing(pool: Pool, c: Checkpoint, now: u64)
    requires
        pool.wf(),
        pool.tracks(c),
        now >= pool.last_update_time,
        pool.checkpoint_fits(c, now),
    ensures
        pool.refreshed(now).checkpoint_fits(pool.claimed(c, now), now),
        pool.refreshed(now).earned_at(pool.claimed(c, now), now) == 0,
        pool.claimed(c, now).staked_balance == c.staked_balance,
{
    lemma_growth_nonnegative(pool, now);
    lemma_idle_refresh(pool.refreshed(now));
    let b = c.staked_balance as int;
    assert(b * 0 == 0) by (nonlinear_arith);
}

/// Two accounts that were settled at the same moment and owed nothing then
/// earn in proportion to their balances: each one's entitlement times the
/// other's balance is the same number.
pub proof fn law_proportional(pool: Pool, c1: Checkpoint, c2: Checkpoint, now: u64)
    requires
        pool.wf(),
        pool.tracks(c1),
        pool.tracks(c2),
        now >= pool.last_update_time,
        c1.reward_accrued == 0,
        c2.reward_accrued == 0,
        c1.reward_per_unit_paid == c2.reward_per_unit_paid,
    ensures
        pool.earned_at(c1, now) * c2.staked_balance == pool.earned_at(c2, now)
            * c1.staked_balance,
{
    let b1 = c1.staked_balance as int;
    let b2 = c2.staked_balance as int;
    let g = pool.accumulated_at(now) - c1.reward_per_unit_paid;
    assert((b1 * g) * b2 == (b2 * g) * b1) by (nonlinear_arith);
}

/// With no time elapsed a refresh changes nothing.
pub proof fn lemma_idle_refresh(pool: Pool)
    ensures
        pool.emitted(pool.last_update_time) == 0,
        pool.accumulated_at(pool.last_update_time) == pool.reward_per_unit_accumulated,
        pool.refresh_fits(pool.last_update_time),
{
    let rate = pool.rate as int;
    let total = pool.total_staked as int;
    assert(0 * rate == 0) by (nonlinear_arith);
    if total != 0 {
        assert(0int / total == 0) by (nonlinear_arith)
            requires
                total != 0,
        ;
    }
}

} // verus!

//! The accrual engine of an auto-compounding pool: the staked asset grows
//! at a fixed rate, and accounts hold shares of the growing balance.

use vstd::prelude::*;
use vstd::arithmetic::power::pow;
use crate::asset::AssetId;
use crate::errors::Error;
use crate::math::{
    floor_sqrt, isqrt, lemma_floor_sqrt_bounded, lemma_floor_sqrt_exists, lemma_pow10_positive, pow10,
};

verus! {

/// The state of a share pool.
#[derive(Clone, Copy, Debug, PartialEq, Eq, Structural)]
pub struct SharePool {
    /// Units of the staked asset that the pool gains per unit of time.
    pub rate: i128,
    /// The pool's balance of the staked asset.
    pub total_staked: i128,
    /// The supply of shares.
    pub total_shares: i128,
    /// When the balance was last brought up to date.
    pub last_update_time: u64,
}

/// For `0 <= a <= c` the floor of `a * b / c` lies between 0 and `b`, and
/// below `b` where `a` is below `c`.
pub proof fn lemma_fraction_bounds(a: int, b: int, c: int)
    requires
        0 <= a <= c,
        0 <= b,
        0 < c,
    ensures
        0 <= a * b,
        0 <= (a * b) / c <= b,
        (a * b) / c <= a * b,
        a < c && b > 0 ==> (a * b) / c < b,
{
    let p = a * b;
    assert(p >= 0) by (nonlinear_arith)
        requires
            p == a * b,
            a >= 0,
            b >= 0,
    ;
    assert(p <= c * b) by (nonlinear_arith)
        requires
            p == a * b,
            0 <= a <= c,
            b >= 0,
    ;
    let q = p / c;
    assert(0 <= q && q * c <= p && q <= p) by (nonlinear_arith)
        requires
            q == p / c,
            p >= 0,
            c > 0,
    ;
    assert(q <= b) by (nonlinear_arith)
        requires
            q * c <= c * b,
            c > 0,
    ;
    if a < c && b > 0 {
        assert(p < c * b) by (nonlinear_arith)
            requires
                p == a * b,
                0 <= a < c,
                b > 0,
        ;
        assert(q < b) by (nonlinear_arith)
            requires
                q * c < c * b,
                c > 0,
        ;
    }
}

/// The floor of `a * b / c` for any `a` that is not negative lies between
/// 0 and the product, and `c` times it is not above the product.
pub proof fn lemma_quotient_bounds(a: int, b: int, c: int)
    requires
        0 <= a,
        0 <= b,
        0 < c,
    ensures
        0 <= a * b,
        0 <= (a * b) / c <= a * b,
        ((a * b) / c) * c <= a * b,
{
    let p = a * b;
    assert(p >= 0) by (nonlinear_arith)
        requires
            p == a * b,
            a >= 0,
            b >= 0,
    ;
    let q = p / c;
    assert(0 <= q && q * c <= p && q <= p) by (nonlinear_arith)
        requires
            q == p / c,
            p >= 0,
            c > 0,
    ;
}

impl SharePool {
    /// No quantity is negative, and shares exist only over a balance.
    pub open spec fn wf(&self) -> bool {
        &&& self.rate >= 0
        &&& self.total_staked >= 0
        &&& self.total_shares >= 0
        &&& self.total_shares > 0 ==> self.total_staked > 0
    }

    /// The pool's balance as a refresh at `now` would leave it. The pool
    /// grows whether or not anyone holds shares.
    pub open spec fn reserves_at(&self, now: u64) -> int {
        self.total_staked + (now - self.last_update_time) * self.rate
    }

    /// The pool after a refresh at `now`.
    pub open spec fn refreshed(&self, now: u64) -> SharePool {
        SharePool {
            rate: self.rate,
            total_staked: self.reserves_at(now) as i128,
            total_shares: self.total_shares,
            last_update_time: now,
        }
    }

    /// The product that is formed on the way to the shares of a deposit.
    pub open spec fn deposit_product(&self, amount: i128, decimals: u32) -> int {
        if self.total_shares == 0 {
            amount * pow(10, decimals as nat)
        } else {
            amount * self.total_shares
        }
    }

    /// The shares that a deposit of `amount` mints. The first depositor
    /// gets the floor of the square root of the amount scaled by the share
    /// asset's decimals; later ones get the floor of their proportion of
    /// the supply, measured on the balance before the deposit.
    pub open spec fn shares_for(&self, amount: i128, decimals: u32) -> int {
        if self.total_shares == 0 {
            floor_sqrt(self.deposit_product(amount, decimals))
        } else {
            self.deposit_product(amount, decimals) / (self.total_staked as int)
        }
    }

    /// What `shares` redeem for: the floor of their proportion of the
    /// balance. Meaningful only while shares exist.
    pub open spec fn amount_for(&self, shares: i128) -> int {
        (shares * self.total_staked) / (self.total_shares as int)
    }

    /// A pool with no balance and no shares that grows by `rate` per unit
    /// of time from `now` on. A negative rate is refused.
    pub fn new(rate: i128, now: u64) -> (r: Result<SharePool, Error>)
        ensures
            rate < 0 ==> r == Err::<SharePool, Error>(Error::InvalidAmount),
            rate >= 0 ==> r == Ok::<SharePool, Error>(
                (SharePool { rate, total_staked: 0, total_shares: 0, last_update_time: now }),
            ),
            r is Ok ==> r->Ok_0.wf(),
    {
        if rate < 0 {
            return Err(Error::InvalidAmount);
        }
        Ok(SharePool { rate, total_staked: 0, total_shares: 0, last_update_time: now })
    }

    /// Whether the pool is well formed, for callers that rebuild one from
    /// stored values.
    pub fn well_formed(&self) -> (b: bool)
        ensures
            b == self.wf(),
    {
        self.rate >= 0 && self.total_staked >= 0 && self.total_shares >= 0 && (self.total_shares
            == 0 || self.total_staked > 0)
    }

    /// Brings the balance up to `now`.
    pub fn refresh_pool(&mut self, now: u64) -> (r: Result<(), Error>)
        requires
            old(self).wf(),
            now >= old(self).last_update_time,
        ensures
            r is Ok <==> old(self).reserves_at(now) <= i128::MAX,
            r is Ok ==> *final(self) == old(self).refreshed(now),
            r is Err ==> r == Err::<(), Error>(Error::Overflow) && *final(self) == *old(self),
            final(self).wf(),
            final(self).total_staked >= old(self).total_staked,
    {
        let dt: i128 = (now - self.last_update_time) as i128;
        proof {
            lemma_quotient_bounds(dt as int, self.rate as int, 1);
        }
        let grown: i128 = match dt.checked_mul(self.rate) {
            Some(v) => v,
            None => { return Err(Error::Overflow); },
        };
        let total: i128 = match self.total_staked.checked_add(grown) {
            Some(v) => v,
            None => { return Err(Error::Overflow); },
        };
        self.total_staked = total;
        self.last_update_time = now;
        Ok(())
    }

    /// What `shares_for_deposit` answers.
    pub open spec fn shares_outcome(&self, amount: i128, decimals: u32) -> Result<i128, Error> {
        if amount <= 0 {
            Err(Error::InvalidAmount)
        } else if self.deposit_product(amount, decimals) > i128::MAX {
            Err(Error::Overflow)
        } else {
            Ok(self.shares_for(amount, decimals) as i128)
        }
    }

    /// The shares that a deposit of `amount` mints on the pool as it
    /// stands.
    pub fn shares_for_deposit(&self, amount: i128, decimals: u32) -> (r: Result<i128, Error>)
        requires
            self.wf(),
        ensures
            r == self.shares_outcome(amount, decimals),
            r is Ok ==> 0 <= r->Ok_0 == self.shares_for(amount, decimals),
    {
        if amount <= 0 {
            return Err(Error::InvalidAmount);
        }
        if self.total_shares == 0 {
            proof {
                lemma_pow10_positive(decimals as nat);
                lemma_quotient_bounds(amount as int, pow(10, decimals as nat), 1);
                assert(amount * pow(10, decimals as nat) >= pow(10, decimals as nat))
                    by (nonlinear_arith)
                    requires
                        amount >= 1,
                        pow(10, decimals as nat) >= 1,
                ;
            }
            let scale: i128 = match pow10(decimals) {
                Some(v) => v,
                None => { return Err(Error::Overflow); },
            };
            let scaled: i128 = match amount.checked_mul(scale) {
                Some(v) => v,
                None => { return Err(Error::Overflow); },
            };
            let shares: i128 = isqrt(scaled);
            proof {
                lemma_floor_sqrt_bounded(scaled as int, shares as int);
            }
            Ok(shares)
        } else {
            proof {
                lemma_quotient_bounds(
                    amount as int,
                    self.total_shares as int,
                    self.total_staked as int,
                );
            }
            let product: i128 = match amount.checked_mul(self.total_shares) {
                Some(v) => v,
                None => { return Err(Error::Overflow); },
            };
            Ok(product / self.total_staked)
        }
    }

    /// What `amount_for_shares` answers.
    pub open spec fn amount_outcome(&self, shares: i128) -> Result<i128, Error> {
        if shares < 0 {
            Err(Error::InvalidAmount)
        } else if shares * self.total_staked > i128::MAX {
            Err(Error::Overflow)
        } else {
            Ok(self.amount_for(shares) as i128)
        }
    }

    /// The amount of the staked asset that `shares` redeem for on the pool
    /// as it stands. There is no answer while no shares exist.
    pub fn amount_for_shares(&self, shares: i128) -> (r: Result<i128, Error>)
        requires
            self.wf(),
            self.total_shares > 0,
        ensures
            r == self.amount_outcome(shares),
            r is Ok ==> 0 <= r->Ok_0 == self.amount_for(shares),
            r is Ok && shares <= self.total_shares ==> r->Ok_0 <= self.total_staked,
            r is Ok && shares < self.total_shares ==> r->Ok_0 < self.total_staked,
    {
        if shares < 0 {
            return Err(Error::InvalidAmount);
        }
        proof {
            lemma_quotient_bounds(
                shares as int,
                self.total_staked as int,
                self.total_shares as int,
            );
            if shares <= self.total_shares {
                lemma_fraction_bounds(
                    shares as int,
                    self.total_staked as int,
                    self.total_shares as int,
                );
            }
        }
        let product: i128 = match shares.checked_mul(self.total_staked) {
            Some(v) => v,
            None => { return Err(Error::Overflow); },
        };
        Ok(product / self.total_shares)
    }

    /// What `stake` answers: the shares minted, or why there are none.
    pub open spec fn stake_outcome(&self, amount: i128, decimals: u32, now: u64) -> Result<
        i128,
        Error,
    > {
        if amount <= 0 {
            Err(Error::InvalidAmount)
        } else if self.reserves_at(now) > i128::MAX {
            Err(Error::Overflow)
        } else if self.refreshed(now).deposit_product(amount, decimals) > i128::MAX
            || self.reserves_at(now) + amount > i128::MAX || self.total_shares + self.refreshed(
            now,
        ).shares_for(amount, decimals) > i128::MAX {
            Err(Error::Overflow)
        } else {
            Ok(self.refreshed(now).shares_for(amount, decimals) as i128)
        }
    }

    /// The pool once `amount` has been deposited at `now`.
    pub open spec fn after_stake(&self, amount: i128, decimals: u32, now: u64) -> SharePool {
        SharePool {
            rate: self.rate,
            total_staked: (self.reserves_at(now) + amount) as i128,
            total_shares: (self.total_shares + self.refreshed(now).shares_for(amount, decimals))
                as i128,
            last_update_time: now,
        }
    }

    /// Deposits `amount` at `now`: the balance is brought up to date, the
    /// shares are measured on it, and then both totals grow. Returns the
    /// shares to mint.
    pub fn stake(&mut self, amount: i128, decimals: u32, now: u64) -> (r: Result<i128, Error>)
        requires
            old(self).wf(),
            now >= old(self).last_update_time,
        ensures
            r == old(self).stake_outcome(amount, decimals, now),
            r is Ok ==> *final(self) == old(self).after_stake(amount, decimals, now) && r->Ok_0
                >= 0,
            r is Err ==> *final(self) == *old(self),
            final(self).wf(),
    {
        if amount <= 0 {
            return Err(Error::InvalidAmount);
        }
        let mut pool: SharePool = *self;
        match pool.refresh_pool(now) {
            Ok(()) => {},
            Err(e) => { return Err(e); },
        }
        let shares: i128 = match pool.shares_for_deposit(amount, decimals) {
            Ok(v) => v,
            Err(e) => { return Err(e); },
        };
        let total_staked: i128 = match pool.total_staked.checked_add(amount) {
            Some(v) => v,
            None => { return Err(Error::Overflow); },
        };
        let total_shares: i128 = match pool.total_shares.checked_add(shares) {
            Some(v) => v,
            None => { return Err(Error::Overflow); },
        };
        pool.total_staked = total_staked;
        pool.total_shares = total_shares;
        *self = pool;
        Ok(shares)
    }

    /// What `withdraw` answers: the amount paid out, or why there is none.
    pub open spec fn withdraw_outcome(&self, shares: i128, now: u64) -> Result<i128, Error> {
        if shares <= 0 {
            Err(Error::InvalidAmount)
        } else if shares > self.total_shares {
            Err(Error::InsufficientBalance)
        } else if self.reserves_at(now) > i128::MAX {
            Err(Error::Overflow)
        } else {
            self.refreshed(now).amount_outcome(shares)
        }
    }

    /// The pool once `shares` have been redeemed at `now`.
    pub open spec fn after_withdraw(&self, shares: i128, now: u64) -> SharePool {
        SharePool {
            rate: self.rate,
            total_staked: (self.reserves_at(now) - self.refreshed(now).amount_for(shares))
                as i128,
            total_shares: (self.total_shares - shares) as i128,
            last_update_time: now,
        }
    }

    /// Redeems `shares` at `now`: the balance is brought up to date, the
    /// payout is measured on it, and then both totals shrink. Returns the
    /// amount to pay out.
    pub fn withdraw(&mut self, shares: i128, now: u64) -> (r: Result<i128, Error>)
        requires
            old(self).wf(),
            now >= old(self).last_update_time,
        ensures
            r == old(self).withdraw_outcome(shares, now),
            r is Ok ==> *final(self) == old(self).after_withdraw(shares, now) && r->Ok_0 >= 0,
            r is Err ==> *final(self) == *old(self),
            final(self).wf(),
    {
        if shares <= 0 {
            return Err(Error::InvalidAmount);
        }
        if shares > self.total_shares {
            return Err(Error::InsufficientBalance);
        }
        let mut pool: SharePool = *self;
        match pool.refresh_pool(now) {
            Ok(()) => {},
            Err(e) => { return Err(e); },
        }
        let payout: i128 = match pool.amount_for_shares(shares) {
            Ok(v) => v,
            Err(e) => { return Err(e); },
        };
        pool.total_staked = pool.total_staked - payout;
        pool.total_shares = pool.total_shares - shares;
        *self = pool;
        Ok(payout)
    }

    /// What `reserves` answers.
    pub open spec fn reserves_outcome(&self, now: u64) -> Result<i128, Error> {
        if self.reserves_at(now) > i128::MAX {
            Err(Error::Overflow)
        } else {
            Ok(self.reserves_at(now) as i128)
        }
    }

    /// The pool's balance at `now`, as a refresh would leave it. Nothing is
    /// changed.
    pub fn reserves(&self, now: u64) -> (r: Result<i128, Error>)
        requires
            self.wf(),
            now >= self.last_update_time,
        ensures
            r == self.reserves_outcome(now),
    {
        let mut pool: SharePool = *self;
        match pool.refresh_pool(now) {
            Ok(()) => Ok(pool.total_staked),
            Err(e) => Err(e),
        }
    }

    /// What `redeemable` answers.
    pub open spec fn redeemable_outcome(&self, shares: i128, now: u64) -> Result<i128, Error> {
        if shares < 0 {
            Err(Error::InvalidAmount)
        } else if shares > self.total_shares {
            Err(Error::InsufficientBalance)
        } else if shares == 0 {
            Ok(0)
        } else if self.reserves_at(now) > i128::MAX {
            Err(Error::Overflow)
        } else {
            self.refreshed(now).amount_outcome(shares)
        }
    }

    /// What `shares` would redeem for at `now`, on the balance as a refresh
    /// would leave it. Nothing is changed. No shares redeem for nothing.
    pub fn redeemable(&self, shares: i128, now: u64) -> (r: Result<i128, Error>)
        requires
            self.wf(),
            now >= self.last_update_time,
        ensures
            r == self.redeemable_outcome(shares, now),
    {
        if shares < 0 {
            return Err(Error::InvalidAmount);
        }
        if shares > self.total_shares {
            return Err(Error::InsufficientBalance);
        }
        if shares == 0 {
            return Ok(0);
        }
        let mut pool: SharePool = *self;
        match pool.refresh_pool(now) {
            Ok(()) => pool.amount_for_shares(shares),
            Err(e) => Err(e),
        }
    }
}

/// The exchange rate only grows. Over a refresh, and over a deposit or a
/// redemption on a pool that has shares, the balance per share after the
/// step is not below the one before: compared as fractions, the new
/// balance times the old supply is at least the old balance times the new
/// supply.
pub proof fn law_exchange_rate_monotonic(
    pool: SharePool,
    amount: i128,
    shares: i128,
    decimals: u32,
    now: u64,
)
    requires
        pool.wf(),
        pool.total_shares > 0,
        now >= pool.last_update_time,
    ensures
        pool.reserves_at(now) >= pool.total_staked,
        pool.reserves_outcome(now) is Ok ==> pool.refreshed(now).total_staked * pool.total_shares
            >= pool.total_staked * pool.refreshed(now).total_shares,
        pool.stake_outcome(amount, decimals, now) is Ok ==> pool.after_stake(
            amount,
            decimals,
            now,
        ).total_staked * pool.total_shares >= pool.total_staked * pool.after_stake(
            amount,
            decimals,
            now,
        ).total_shares,
        pool.withdraw_outcome(shares, now) is Ok ==> pool.after_withdraw(shares, now).total_staked
            * pool.total_shares >= pool.total_staked * pool.after_withdraw(
            shares,
            now,
        ).total_shares,
{
    let t = pool.total_staked as int;
    let s = pool.total_shares as int;
    let r = pool.reserves_at(now);
    lemma_quotient_bounds((now - pool.last_update_time) as int, pool.rate as int, 1);
    assert(r >= t);
    assert(r * s >= t * s) by (nonlinear_arith)
        requires
            r >= t,
            s >= 0,
    ;
    if pool.stake_outcome(amount, decimals, now) is Ok {
        let a = amount as int;
        let m = pool.refreshed(now).shares_for(amount, decimals);
        lemma_quotient_bounds(a, s, r);
        assert(m * r <= a * s);
        assert((r + a) * s >= t * (s + m)) by (nonlinear_arith)
            requires
                m * r <= a * s,
                r >= t,
                m >= 0,
                s >= 0,
                t >= 0,
        ;
    }
    if pool.withdraw_outcome(shares, now) is Ok {
        let k = shares as int;
        let p = pool.refreshed(now).amount_for(shares);
        lemma_quotient_bounds(k, r, s);
        assert(p * s <= k * r);
        assert((r - p) * s >= t * (s - k)) by (nonlinear_arith)
            requires
                p * s <= k * r,
                r >= t,
                s - k >= 0,
                t >= 0,
        ;
    }
}

/// One call on a share pool, as far as it moves the totals.
pub enum Move {
    /// The balance is brought up to date.
    Refresh { now: u64 },
    /// A deposit.
    Stake { amount: i128, decimals: u32, now: u64 },
    /// A redemption.
    Withdraw { shares: i128, now: u64 },
}

impl SharePool {
    /// The balance per share of `self` is not below that of `earlier`,
    /// compared as fractions.
    pub open spec fn rate_not_below(&self, earlier: SharePool) -> bool {
        self.total_staked * earlier.total_shares >= earlier.total_staked * self.total_shares
    }

    /// The pool after one call. A call that is refused, or that comes with
    /// a time before the last update, leaves the pool as it is.
    pub open spec fn apply(&self, m: Move) -> SharePool {
        match m {
            Move::Refresh { now } => if now >= self.last_update_time && self.reserves_outcome(
                now,
            ) is Ok {
                self.refreshed(now)
            } else {
                *self
            },
            Move::Stake { amount, decimals, now } => if now >= self.last_update_time
                && self.stake_outcome(amount, decimals, now) is Ok {
                self.after_stake(amount, decimals, now)
            } else {
                *self
            },
            Move::Withdraw { shares, now } => if now >= self.last_update_time
                && self.withdraw_outcome(shares, now) is Ok {
                self.after_withdraw(shares, now)
            } else {
                *self
            },
        }
    }

    /// The pool after a sequence of calls.
    pub open spec fn run(&self, moves: Seq<Move>) -> SharePool
        decreases moves.len(),
    {
        if moves.len() == 0 {
            *self
        } else {
            self.apply(moves[0]).run(moves.skip(1))
        }
    }

    /// Shares exist before the first call and after every call of the
    /// sequence.
    pub open spec fn stays_funded(&self, moves: Seq<Move>) -> bool
        decreases moves.len(),
    {
        &&& self.total_shares > 0
        &&& moves.len() > 0 ==> self.apply(moves[0]).stays_funded(moves.skip(1))
    }
}

/// One call leaves a well-formed pool well formed and, where shares exist
/// before it, does not lower the balance per share.
pub proof fn lemma_apply(pool: SharePool, m: Move)
    requires
        pool.wf(),
    ensures
        pool.apply(m).wf(),
        pool.total_shares > 0 ==> pool.apply(m).rate_not_below(pool),
{
    match m {
        Move::Refresh { now } => {
            if now >= pool.last_update_time {
                lemma_quotient_bounds((now - pool.last_update_time) as int, pool.rate as int, 1);
                if pool.total_shares > 0 {
                    law_exchange_rate_monotonic(pool, 0, 0, 0, now);
                }
            }
        },
        Move::Stake { amount, decimals, now } => {
            if now >= pool.last_update_time && pool.stake_outcome(amount, decimals, now) is Ok {
                lemma_quotient_bounds((now - pool.last_update_time) as int, pool.rate as int, 1);
                if pool.total_shares > 0 {
                    law_exchange_rate_monotonic(pool, amount, 0, decimals, now);
                    lemma_quotient_bounds(
                        amount as int,
                        pool.total_shares as int,
                        pool.reserves_at(now),
                    );
                } else {
                    let scaled = pool.refreshed(now).deposit_product(amount, decimals);
                    lemma_pow10_positive(decimals as nat);
                    lemma_quotient_bounds(amount as int, pow(10, decimals as nat), 1);
                    lemma_floor_sqrt_exists(scaled);
                    lemma_floor_sqrt_bounded(scaled, floor_sqrt(scaled));
                }
            }
        },
        Move::Withdraw { shares, now } => {
            if now >= pool.last_update_time && pool.withdraw_outcome(shares, now) is Ok {
                lemma_quotient_bounds((now - pool.last_update_time) as int, pool.rate as int, 1);
                law_exchange_rate_monotonic(pool, 0, shares, 0, now);
                lemma_fraction_bounds(
                    shares as int,
                    pool.reserves_at(now),
                    pool.total_shares as int,
                );
            }
        },
    }
}

/// The order of exchange rates carries over a pool in between.
pub proof fn lemma_rate_order_transitive(a: SharePool, b: SharePool, c: SharePool)
    requires
        a.wf(),
        b.wf(),
        c.wf(),
        b.total_shares > 0,
        b.rate_not_below(a),
        c.rate_not_below(b),
    ensures
        c.rate_not_below(a),
{
    let (t0, s0) = (a.total_staked as int, a.total_shares as int);
    let (t1, s1) = (b.total_staked as int, b.total_shares as int);
    let (t2, s2) = (c.total_staked as int, c.total_shares as int);
    assert((t1 * s0) * s2 >= (t0 * s1) * s2) by (nonlinear_arith)
        requires
            t1 * s0 >= t0 * s1,
            s2 >= 0,
    ;
    assert((t2 * s1) * s0 >= (t1 * s2) * s0) by (nonlinear_arith)
        requires
            t2 * s1 >= t1 * s2,
            s0 >= 0,
    ;
    assert((t2 * s0) * s1 >= (t0 * s2) * s1) by (nonlinear_arith)
        requires
            (t1 * s0) * s2 >= (t0 * s1) * s2,
            (t2 * s1) * s0 >= (t1 * s2) * s0,
    ;
    assert(t2 * s0 >= t0 * s2) by (nonlinear_arith)
        requires
            (t2 * s0) * s1 >= (t0 * s2) * s1,
            s1 > 0,
    ;
}

/// The exchange rate only grows, over any sequence of refreshes, deposits
/// and redemptions, accepted or refused, during which shares exist: the
/// balance per share at the end is not below the one at the start.
pub proof fn law_exchange_rate_over_history(pool: SharePool, moves: Seq<Move>)
    requires
        pool.wf(),
        pool.stays_funded(moves),
    ensures
        pool.run(moves).wf(),
        pool.run(moves).total_shares > 0,
        pool.run(moves).rate_not_below(pool),
    decreases moves.len(),
{
    if moves.len() > 0 {
        let next = pool.apply(moves[0]);
        lemma_apply(pool, moves[0]);
        law_exchange_rate_over_history(next, moves.skip(1));
        lemma_rate_order_transitive(pool, next, next.run(moves.skip(1)));
    }
}

/// The shares in `holdings`, added up.
pub open spec fn shares_sum(holdings: Seq<i128>) -> int
    decreases holdings.len(),
{
    if holdings.len() == 0 {
        0
    } else {
        shares_sum(holdings.drop_last()) + holdings.last()
    }
}

/// What each of the `holdings` redeems for on the pool as it stands, added
/// up.
pub open spec fn redeemable_sum(pool: SharePool, holdings: Seq<i128>) -> int
    decreases holdings.len(),
{
    if holdings.len() == 0 {
        0
    } else {
        redeemable_sum(pool, holdings.drop_last()) + pool.amount_for(holdings.last())
    }
}

/// What holdings redeem for, times the supply, is not above the holdings
/// times the balance.
pub proof fn lemma_redeemable_in_proportion(pool: SharePool, holdings: Seq<i128>)
    requires
        pool.wf(),
        pool.total_shares > 0,
        forall|i: int| 0 <= i < holdings.len() ==> holdings[i] >= 0,
    ensures
        0 <= redeemable_sum(pool, holdings),
        0 <= shares_sum(holdings),
        redeemable_sum(pool, holdings) * pool.total_shares <= shares_sum(holdings)
            * pool.total_staked,
    decreases holdings.len(),
{
    let t = pool.total_staked as int;
    let s = pool.total_shares as int;
    if holdings.len() == 0 {
        assert(0 * s <= 0 * t) by (nonlinear_arith);
    } else {
        let rest = holdings.drop_last();
        lemma_redeemable_in_proportion(pool, rest);
        let h = holdings.last() as int;
        let a = pool.amount_for(holdings.last());
        lemma_quotient_bounds(h, t, s);
        let r0 = redeemable_sum(pool, rest);
        let h0 = shares_sum(rest);
        assert((r0 + a) * s <= (h0 + h) * t) by (nonlinear_arith)
            requires
                r0 * s <= h0 * t,
                a * s <= h * t,
        ;
    }
}

/// The pool can pay every holder: holdings that together are not above
/// the supply redeem, each floored on its own, for no more than the
/// pool's balance.
pub proof fn law_redeemable_within_reserves(pool: SharePool, holdings: Seq<i128>)
    requires
        pool.wf(),
        pool.total_shares > 0,
        forall|i: int| 0 <= i < holdings.len() ==> holdings[i] >= 0,
        shares_sum(holdings) <= pool.total_shares,
    ensures
        redeemable_sum(pool, holdings) <= pool.total_staked,
{
    lemma_redeemable_in_proportion(pool, holdings);
    let t = pool.total_staked as int;
    let s = pool.total_shares as int;
    let r = redeemable_sum(pool, holdings);
    let h = shares_sum(holdings);
    assert(r <= t) by (nonlinear_arith)
        requires
            r * s <= h * t,
            0 <= h <= s,
            s > 0,
            t >= 0,
            r >= 0,
    ;
}

/// A share pool as its callers see it: set up once, then staked into and
/// withdrawn from. The shares themselves are kept by the share asset.
pub struct Staking {
    initialized: bool,
    staking_asset: AssetId,
    share_asset: AssetId,
    decimals: u32,
    pool: SharePool,
}

impl Staking {
    /// Whether the pool has been set up.
    pub closed spec fn is_initialized(&self) -> bool {
        self.initialized
    }

    /// The asset that accounts stake.
    pub closed spec fn staking_asset(&self) -> AssetId {
        self.staking_asset
    }

    /// The asset that shares are minted in.
    pub closed spec fn share_asset(&self) -> AssetId {
        self.share_asset
    }

    /// The decimals of the share asset.
    pub closed spec fn share_decimals(&self) -> u32 {
        self.decimals
    }

    /// The pool's totals.
    pub closed spec fn pool(&self) -> SharePool {
        self.pool
    }

    /// The pool is well formed, and one not yet set up is empty.
    pub open spec fn wf(&self) -> bool {
        &&& self.pool().wf()
        &&& !self.is_initialized() ==> self.pool() == (SharePool {
            rate: 0,
            total_staked: 0,
            total_shares: 0,
            last_update_time: 0,
        })
    }

    /// The configuration is that of `before`.
    pub open spec fn configured_as(&self, before: Staking) -> bool {
        &&& self.is_initialized() == before.is_initialized()
        &&& self.staking_asset() == before.staking_asset()
        &&& self.share_asset() == before.share_asset()
        &&& self.share_decimals() == before.share_decimals()
    }

    /// A pool that has not been set up.
    pub fn new() -> (s: Staking)
        ensures
            s.wf(),
            !s.is_initialized(),
    {
        Staking {
            initialized: false,
            staking_asset: [0u8; 32],
            share_asset: [0u8; 32],
            decimals: 0,
            pool: SharePool { rate: 0, total_staked: 0, total_shares: 0, last_update_time: 0 },
        }
    }

    /// What `initialize` answers.
    pub open spec fn initialize_outcome(&self, rate: i128) -> Result<(), Error> {
        if self.is_initialized() {
            Err(Error::AlreadyInitialized)
        } else if rate < 0 {
            Err(Error::InvalidAmount)
        } else {
            Ok(())
        }
    }

    /// Sets the pool up, once: records the two assets, the share asset's
    /// decimals and the rate, with no balance and no shares. A second
    /// call, or a negative rate, is refused.
    pub fn initialize(
        &mut self,
        staking_asset: AssetId,
        share_asset: AssetId,
        rate: i128,
        share_decimals: u32,
    ) -> (r: Result<(), Error>)
        requires
            old(self).wf(),
        ensures
            final(self).wf(),
            r == old(self).initialize_outcome(rate),
            r is Ok ==> {
                &&& final(self).is_initialized()
                &&& final(self).staking_asset() == staking_asset
                &&& final(self).share_asset() == share_asset
                &&& final(self).share_decimals() == share_decimals
                &&& final(self).pool() == (SharePool {
                    rate,
                    total_staked: 0,
                    total_shares: 0,
                    last_update_time: 0,
                })
            },
            r is Err ==> final(self).configured_as(*old(self)) && final(self).pool() == old(
                self,
            ).pool(),
    {
        if self.initialized {
            return Err(Error::AlreadyInitialized);
        }
        let pool: SharePool = match SharePool::new(rate, 0) {
            Ok(p) => p,
            Err(e) => { return Err(e); },
        };
        self.initialized = true;
        self.staking_asset = staking_asset;
        self.share_asset = share_asset;
        self.decimals = share_decimals;
        self.pool = pool;
        Ok(())
    }

    /// Whether the pool has been set up.
    pub fn initialized(&self) -> (b: bool)
        ensures
            b == self.is_initialized(),
    {
        self.initialized
    }

    /// When the balance was last brought up to date. No operation takes a
    /// time before this one.
    pub fn last_update_time(&self) -> (t: u64)
        ensures
            t == self.pool().last_update_time,
    {
        self.pool.last_update_time
    }

    /// The supply of shares.
    pub fn total_shares(&self) -> (n: i128)
        ensures
            n == self.pool().total_shares,
    {
        self.pool.total_shares
    }

    /// The share asset, once the pool is set up.
    pub fn share_id(&self) -> (r: Result<AssetId, Error>)
        ensures
            r == (if self.is_initialized() {
                Ok::<AssetId, Error>(self.share_asset())
            } else {
                Err::<AssetId, Error>(Error::NotInitialized)
            }),
    {
        if !self.initialized {
            return Err(Error::NotInitialized);
        }
        Ok(self.share_asset)
    }

    /// The staked asset, once the pool is set up.
    pub fn staking_asset_id(&self) -> (r: Result<AssetId, Error>)
        ensures
            r == (if self.is_initialized() {
                Ok::<AssetId, Error>(self.staking_asset())
            } else {
                Err::<AssetId, Error>(Error::NotInitialized)
            }),
    {
        if !self.initialized {
            return Err(Error::NotInitialized);
        }
        Ok(self.staking_asset)
    }

    /// What an operation answers whose engine answers `decided` and whose
    /// transfers the gateway has or has not carried out.
    pub open spec fn gated(&self, decided: Result<i128, Error>, transferred: bool) -> Result<
        i128,
        Error,
    > {
        if !self.is_initialized() {
            Err(Error::NotInitialized)
        } else if decided is Ok && !transferred {
            Err(Error::TransferFailed)
        } else {
            decided
        }
    }

    /// Stakes `amount` at `now` and returns the shares to mint for the
    /// depositor. `transferred` is the gateway's answer to moving `amount`
    /// of the staking asset into the pool and minting the shares; without
    /// it nothing is recorded.
    pub fn stake(&mut self, amount: i128, now: u64, transferred: bool) -> (r: Result<i128, Error>)
        requires
            old(self).wf(),
            now >= old(self).pool().last_update_time,
        ensures
            final(self).wf(),
            final(self).configured_as(*old(self)),
            r == old(self).gated(
                old(self).pool().stake_outcome(amount, old(self).share_decimals(), now),
                transferred,
            ),
            r is Ok ==> final(self).pool() == old(self).pool().after_stake(
                amount,
                old(self).share_decimals(),
                now,
            ),
            r is Ok ==> final(self).pool() == old(self).pool().apply(
                (Move::Stake { amount, decimals: old(self).share_decimals(), now }),
            ),
            r is Err ==> final(self).pool() == old(self).pool(),
    {
        if !self.initialized {
            return Err(Error::NotInitialized);
        }
        let mut pool: SharePool = self.pool;
        let shares: i128 = match pool.stake(amount, self.decimals, now) {
            Ok(v) => v,
            Err(e) => { return Err(e); },
        };
        if !transferred {
            return Err(Error::TransferFailed);
        }
        self.pool = pool;
        Ok(shares)
    }

    /// Redeems `shares`, the caller's whole or partial holding, at `now`
    /// and returns the amount of the staking asset to pay out.
    /// `transferred` is the gateway's answer to burning the shares and
    /// paying that amount; without it nothing is recorded.
    pub fn withdraw(&mut self, shares: i128, now: u64, transferred: bool) -> (r: Result<
        i128,
        Error,
    >)
        requires
            old(self).wf(),
            now >= old(self).pool().last_update_time,
        ensures
            final(self).wf(),
            final(self).configured_as(*old(self)),
            r == old(self).gated(old(self).pool().withdraw_outcome(shares, now), transferred),
            r is Ok ==> final(self).pool() == old(self).pool().after_withdraw(shares, now),
            r is Ok ==> final(self).pool() == old(self).pool().apply(
                (Move::Withdraw { shares, now }),
            ),
            r is Err ==> final(self).pool() == old(self).pool(),
    {
        if !self.initialized {
            return Err(Error::NotInitialized);
        }
        let mut pool: SharePool = self.pool;
        let payout: i128 = match pool.withdraw(shares, now) {
            Ok(v) => v,
            Err(e) => { return Err(e); },
        };
        if !transferred {
            return Err(Error::TransferFailed);
        }
        self.pool = pool;
        Ok(payout)
    }

    /// The pool's balance at `now`. Nothing is changed.
    pub fn get_rsrvs(&self, now: u64) -> (r: Result<i128, Error>)
        requires
            self.wf(),
            now >= self.pool().last_update_time,
        ensures
            r == self.gated(self.pool().reserves_outcome(now), true),
    {
        if !self.initialized {
            return Err(Error::NotInitialized);
        }
        self.pool.reserves(now)
    }

    /// What a holder of `shares` could withdraw at `now`. Nothing is
    /// changed.
    pub fn get_stkd(&self, shares: i128, now: u64) -> (r: Result<i128, Error>)
        requires
            self.wf(),
            now >= self.pool().last_update_time,
        ensures
            r == self.gated(self.pool().redeemable_outcome(shares, now), true),
    {
        if !self.initialized {
            return Err(Error::NotInitialized);
        }
        self.pool.redeemable(shares, now)
    }
}

} // verus!

//! A fixed-rate pool with its accounts: the operations a pool offers to its
//! callers, over one state record that holds every checkpoint.

use vstd::prelude::*;
use std::collections::HashMap;
use crate::asset::AssetId;
use crate::errors::Error;
use crate::fixed_rate::{
    law_claim_leaves_nothing, law_read_is_stable, lemma_growth_nonnegative,
    lemma_pending_nonnegative, Checkpoint, Pool,
};

verus! {

/// The number of account keys.
pub open spec fn key_space() -> nat {
    0x1_0000_0000_0000_0000
}

/// The staked balance recorded under key `k`, 0 where there is no record.
pub open spec fn balance_in(accounts: Map<u64, Checkpoint>, k: int) -> int {
    if 0 <= k <= u64::MAX && accounts.contains_key(k as u64) {
        accounts[k as u64].staked_balance as int
    } else {
        0
    }
}

/// The staked balances of the accounts with a key below `n`, added up.
pub open spec fn staked_below(accounts: Map<u64, Checkpoint>, n: nat) -> int
    decreases n,
{
    if n == 0 {
        0
    } else {
        staked_below(accounts, (n - 1) as nat) + balance_in(accounts, n - 1)
    }
}

/// The staked balances of all accounts, added up.
pub open spec fn staked_sum(accounts: Map<u64, Checkpoint>) -> int {
    staked_below(accounts, key_space())
}

/// Writing one record moves the sum by the change of that record's balance.
pub proof fn lemma_sum_after_write(accounts: Map<u64, Checkpoint>, k: u64, c: Checkpoint, n: nat)
    ensures
        staked_below(accounts.insert(k, c), n) == staked_below(accounts, n) + (if k < n {
            c.staked_balance - balance_in(accounts, k as int)
        } else {
            0
        }),
    decreases n,
{
    if n > 0 {
        lemma_sum_after_write(accounts, k, c, (n - 1) as nat);
    }
}

/// Where no balance is negative, no partial sum is, and none of its terms
/// exceeds it.
pub proof fn lemma_term_within_sum(accounts: Map<u64, Checkpoint>, k: u64, n: nat)
    requires
        forall|j: u64| accounts.contains_key(j) ==> #[trigger] accounts[j].staked_balance >= 0,
    ensures
        staked_below(accounts, n) >= 0,
        k < n ==> balance_in(accounts, k as int) <= staked_below(accounts, n),
    decreases n,
{
    if n > 0 {
        lemma_term_within_sum(accounts, k, (n - 1) as nat);
    }
}

/// The records of a pool: the global state and every checkpoint written.
pub struct Book {
    pub pool: Pool,
    pub accounts: Map<u64, Checkpoint>,
}

/// One call on a pool, as far as it moves the records.
pub enum Call {
    /// A deposit.
    Stake { account: u64, amount: i128, now: u64 },
    /// A withdrawal.
    Withdraw { account: u64, amount: i128, now: u64 },
    /// A claim.
    Claim { account: u64, now: u64 },
}

impl Book {
    /// The checkpoint of an account: the one written last, or a blank one.
    pub open spec fn checkpoint_of(&self, account: u64) -> Checkpoint {
        if self.accounts.contains_key(account) {
            self.accounts[account]
        } else {
            Checkpoint::blank()
        }
    }

    /// The pool is well formed, no checkpoint holds a negative quantity or
    /// is ahead of the accumulator, and the staked balances add up to the
    /// pool's total.
    pub open spec fn sound(&self) -> bool {
        &&& self.pool.wf()
        &&& forall|k: u64| #[trigger]
            self.accounts.contains_key(k) ==> {
                &&& self.accounts[k].staked_balance >= 0
                &&& self.accounts[k].reward_accrued >= 0
                &&& 0 <= self.accounts[k].reward_per_unit_paid
                    <= self.pool.reward_per_unit_accumulated
            }
        &&& staked_sum(self.accounts) == self.pool.total_staked
    }

    /// The records after one call. A call that is refused, or that comes
    /// with a time before the last update, leaves them as they are.
    pub open spec fn apply(&self, call: Call) -> Book {
        match call {
            Call::Stake { account, amount, now } => {
                let c = self.checkpoint_of(account);
                if now >= self.pool.last_update_time && amount > 0 && self.pool.stake_fits(
                    c,
                    amount,
                    now,
                ) {
                    Book {
                        pool: self.pool.after_stake(amount, now),
                        accounts: self.accounts.insert(
                            account,
                            self.pool.moved(c, amount as int, now),
                        ),
                    }
                } else {
                    *self
                }
            },
            Call::Withdraw { account, amount, now } => {
                let c = self.checkpoint_of(account);
                if now >= self.pool.last_update_time && 0 < amount <= c.staked_balance
                    && self.pool.checkpoint_fits(c, now) {
                    Book {
                        pool: self.pool.after_withdraw(amount, now),
                        accounts: self.accounts.insert(account, self.pool.moved(c, -amount, now)),
                    }
                } else {
                    *self
                }
            },
            Call::Claim { account, now } => {
                let c = self.checkpoint_of(account);
                if now >= self.pool.last_update_time && self.pool.checkpoint_fits(c, now) {
                    Book {
                        pool: self.pool.refreshed(now),
                        accounts: self.accounts.insert(account, self.pool.claimed(c, now)),
                    }
                } else {
                    *self
                }
            },
        }
    }

    /// The records after a sequence of calls.
    pub open spec fn run(&self, calls: Seq<Call>) -> Book
        decreases calls.len(),
    {
        if calls.len() == 0 {
            *self
        } else {
            self.apply(calls[0]).run(calls.skip(1))
        }
    }
}

/// Writing the record of one account, with the pool's total moved by the
/// change of its balance and the accumulator not lowered, keeps sound
/// records sound.
pub proof fn lemma_write_keeps_sound(book: Book, pool: Pool, account: u64, c: Checkpoint)
    requires
        book.sound(),
        pool.wf(),
        c.staked_balance >= 0,
        c.reward_accrued >= 0,
        0 <= c.reward_per_unit_paid <= pool.reward_per_unit_accumulated,
        pool.reward_per_unit_accumulated >= book.pool.reward_per_unit_accumulated,
        pool.total_staked - book.pool.total_staked == c.staked_balance - book.checkpoint_of(
            account,
        ).staked_balance,
    ensures
        (Book { pool, accounts: book.accounts.insert(account, c) }).sound(),
{
    lemma_sum_after_write(book.accounts, account, c, key_space());
}

/// One call keeps sound records sound and lowers neither the accumulator
/// nor the time of the last update.
pub proof fn lemma_call_keeps_sound(book: Book, call: Call)
    requires
        book.sound(),
    ensures
        book.apply(call).sound(),
        book.apply(call).pool.reward_per_unit_accumulated >= book.pool.reward_per_unit_accumulated,
        book.apply(call).pool.last_update_time >= book.pool.last_update_time,
        book.apply(call).pool.rate == book.pool.rate,
{
    let pool = book.pool;
    match call {
        Call::Stake { account, amount, now } => {
            let c = book.checkpoint_of(account);
            if now >= pool.last_update_time && amount > 0 && pool.stake_fits(c, amount, now) {
                lemma_term_within_sum(book.accounts, account, key_space());
                lemma_growth_nonnegative(pool, now);
                lemma_pending_nonnegative(
                    c.staked_balance as int,
                    pool.accumulated_at(now) - c.reward_per_unit_paid,
                );
                lemma_write_keeps_sound(
                    book,
                    pool.after_stake(amount, now),
                    account,
                    pool.moved(c, amount as int, now),
                );
            }
        },
        Call::Withdraw { account, amount, now } => {
            let c = book.checkpoint_of(account);
            if now >= pool.last_update_time && 0 < amount <= c.staked_balance
                && pool.checkpoint_fits(c, now) {
                lemma_term_within_sum(book.accounts, account, key_space());
                lemma_growth_nonnegative(pool, now);
                lemma_pending_nonnegative(
                    c.staked_balance as int,
                    pool.accumulated_at(now) - c.reward_per_unit_paid,
                );
                lemma_write_keeps_sound(
                    book,
                    pool.after_withdraw(amount, now),
                    account,
                    pool.moved(c, -amount, now),
                );
            }
        },
        Call::Claim { account, now } => {
            let c = book.checkpoint_of(account);
            if now >= pool.last_update_time && pool.checkpoint_fits(c, now) {
                lemma_term_within_sum(book.accounts, account, key_space());
                lemma_growth_nonnegative(pool, now);
                lemma_write_keeps_sound(book, pool.refreshed(now), account, pool.claimed(c, now));
            }
        },
    }
}

/// No double counting: once a claim has gone through, the account is
/// entitled to nothing at that moment, so a second claim pays 0, and the
/// staked balance is as before.
pub proof fn law_second_claim_pays_nothing(book: Book, account: u64, now: u64)
    requires
        book.sound(),
        now >= book.pool.last_update_time,
        book.pool.checkpoint_fits(book.checkpoint_of(account), now),
    ensures
        ({
            let after = book.apply((Call::Claim { account, now }));
            &&& after.pool.checkpoint_fits(after.checkpoint_of(account), now)
            &&& after.pool.earned_at(after.checkpoint_of(account), now) == 0
            &&& after.checkpoint_of(account).staked_balance == book.checkpoint_of(
                account,
            ).staked_balance
            &&& after.apply((Call::Claim { account, now })) == after
        }),
{
    let c = book.checkpoint_of(account);
    let after = book.apply((Call::Claim { account, now }));
    lemma_term_within_sum(book.accounts, account, key_space());
    law_claim_leaves_nothing(book.pool, c, now);
    law_read_is_stable(book.pool, c, now);
    let again = after.apply((Call::Claim { account, now }));
    assert(again.pool == after.pool);
    assert(again.accounts =~= after.accounts);
}

/// Conservation and the monotonic accumulator, over any sequence of
/// deposits, withdrawals and claims, accepted or refused: after all of
/// them the pool's total is still the sum of the accounts' staked
/// balances, and the accumulator is not below where it started.
pub proof fn law_history_keeps_sound(book: Book, calls: Seq<Call>)
    requires
        book.sound(),
    ensures
        book.run(calls).sound(),
        book.run(calls).pool.total_staked == staked_sum(book.run(calls).accounts),
        book.run(calls).pool.reward_per_unit_accumulated >= book.pool.reward_per_unit_accumulated,
        book.run(calls).pool.last_update_time >= book.pool.last_update_time,
    decreases calls.len(),
{
    if calls.len() > 0 {
        lemma_call_keeps_sound(book, calls[0]);
        law_history_keeps_sound(book.apply(calls[0]), calls.skip(1));
    }
}

/// A fixed-rate pool and the checkpoints of its accounts.
pub struct Staking {
    initialized: bool,
    staking_asset: AssetId,
    reward_asset: AssetId,
    pool: Pool,
    accounts: HashMap<u64, Checkpoint>,
}

impl Staking {
    /// Whether the pool has been set up.
    pub closed spec fn is_initialized(&self) -> bool {
        self.initialized
    }

    /// The asset that accounts stake.
    pub closed spec fn staking_asset(&self) -> AssetId {
        self.staking_asset
    }

    /// The asset that rewards are paid in.
    pub closed spec fn reward_asset(&self) -> AssetId {
        self.reward_asset
    }

    /// The records the pool holds.
    pub closed spec fn book(&self) -> Book {
        Book { pool: self.pool, accounts: self.accounts@ }
    }

    /// The global accumulator state.
    pub open spec fn pool(&self) -> Pool {
        self.book().pool
    }

    /// The checkpoints written so far, by account.
    pub open spec fn accounts(&self) -> Map<u64, Checkpoint> {
        self.book().accounts
    }

    /// The checkpoint of an account: the one written last, or a blank one.
    pub open spec fn checkpoint_of(&self, account: u64) -> Checkpoint {
        self.book().checkpoint_of(account)
    }

    /// The state is one the operations can reach: the records are sound,
    /// and a pool not yet set up is empty.
    pub open spec fn wf(&self) -> bool {
        &&& self.book().sound()
        &&& !self.is_initialized() ==> self.accounts() == Map::<u64, Checkpoint>::empty()
            && self.pool() == (Pool {
                rate: 0,
                total_staked: 0,
                reward_per_unit_accumulated: 0,
                last_update_time: 0,
            })
    }

    /// The state is exactly that of `before`.
    pub open spec fn same_as(&self, before: Staking) -> bool {
        &&& self.is_initialized() == before.is_initialized()
        &&& self.staking_asset() == before.staking_asset()
        &&& self.reward_asset() == before.reward_asset()
        &&& self.pool() == before.pool()
        &&& self.accounts() == before.accounts()
    }

    /// The state is that of `before` with a new pool record and one
    /// checkpoint written.
    pub open spec fn follows(&self, before: Staking, pool: Pool, account: u64, c: Checkpoint)
        -> bool {
        &&& self.is_initialized() == before.is_initialized()
        &&& self.staking_asset() == before.staking_asset()
        &&& self.reward_asset() == before.reward_asset()
        &&& self.pool() == pool
        &&& self.accounts() == before.accounts().insert(account, c)
    }

    /// Conservation: in every reachable state the pool's total is the sum
    /// of the accounts' staked balances, and every account's record is one
    /// the pool tracks.
    pub proof fn law_conservation(&self, account: u64)
        requires
            self.wf(),
        ensures
            self.pool().total_staked == staked_sum(self.accounts()),
            self.pool().tracks(self.checkpoint_of(account)),
    {
        lemma_term_within_sum(self.accounts(), account, key_space());
    }

    /// A pool that has not been set up.
    pub fn new() -> (s: Staking)
        ensures
            s.wf(),
            !s.is_initialized(),
            s.accounts() == Map::<u64, Checkpoint>::empty(),
    {
        let s = Staking {
            initialized: false,
            staking_asset: [0u8; 32],
            reward_asset: [0u8; 32],
            pool: Pool {
                rate: 0,
                total_staked: 0,
                reward_per_unit_accumulated: 0,
                last_update_time: 0,
            },
            accounts: HashMap::new(),
        };
        proof {
            lemma_empty_sum(key_space());
        }
        s
    }

    /// What `initialize` answers.
    pub open spec fn initialize_outcome(&self, rate: i128) -> Result<(), Error> {
        if self.is_initialized() {
            Err(Error::AlreadyInitialized)
        } else if rate < 0 {
            Err(Error::InvalidAmount)
        } else {
            Ok(())
        }
    }

    /// Sets the pool up, once: records the two assets and the rate, with
    /// nothing staked and nothing accumulated. A second call, or a
    /// negative rate, is refused.
    pub fn initialize(&mut self, staking_asset: AssetId, reward_asset: AssetId, rate: i128) -> (r:
        Result<(), Error>)
        requires
            old(self).wf(),
        ensures
            final(self).wf(),
            r == old(self).initialize_outcome(rate),
            r is Ok ==> {
                &&& final(self).is_initialized()
                &&& final(self).staking_asset() == staking_asset
                &&& final(self).reward_asset() == reward_asset
                &&& final(self).pool() == (Pool {
                    rate,
                    total_staked: 0,
                    reward_per_unit_accumulated: 0,
                    last_update_time: 0,
                })
                &&& final(self).accounts() == Map::<u64, Checkpoint>::empty()
            },
            r is Err ==> final(self).same_as(*old(self)),
    {
        if self.initialized {
            return Err(Error::AlreadyInitialized);
        }
        let pool: Pool = match Pool::new(rate, 0) {
            Ok(p) => p,
            Err(e) => { return Err(e); },
        };
        self.initialized = true;
        self.staking_asset = staking_asset;
        self.reward_asset = reward_asset;
        self.pool = pool;
        Ok(())
    }

    /// Whether the pool has been set up.
    pub fn initialized(&self) -> (b: bool)
        ensures
            b == self.is_initialized(),
    {
        self.initialized
    }

    /// When the accumulator was last brought up to date. No operation
    /// takes a time before this one.
    pub fn last_update_time(&self) -> (t: u64)
        ensures
            t == self.pool().last_update_time,
    {
        self.pool.last_update_time
    }

    /// The asset that accounts stake, once the pool is set up.
    pub fn staking_asset_id(&self) -> (r: Result<AssetId, Error>)
        ensures
            r == (if self.is_initialized() {
                Ok::<AssetId, Error>(self.staking_asset())
            } else {
                Err::<AssetId, Error>(Error::NotInitialized)
            }),
    {
        if !self.initialized {
            return Err(Error::NotInitialized);
        }
        Ok(self.staking_asset)
    }

    /// The asset that rewards are paid in, once the pool is set up.
    pub fn reward_asset_id(&self) -> (r: Result<AssetId, Error>)
        ensures
            r == (if self.is_initialized() {
                Ok::<AssetId, Error>(self.reward_asset())
            } else {
                Err::<AssetId, Error>(Error::NotInitialized)
            }),
    {
        if !self.initialized {
            return Err(Error::NotInitialized);
        }
        Ok(self.reward_asset)
    }

    /// The checkpoint of an account, blank if none was written.
    fn load(&self, account: u64) -> (c: Checkpoint)
        requires
            self.wf(),
        ensures
            c == self.checkpoint_of(account),
            self.pool().tracks(c),
    {
        broadcast use vstd::std_specs::hash::group_hash_axioms;

        proof {
            self.law_conservation(account);
        }
        match self.accounts.get(&account) {
            Some(c) => *c,
            None => Checkpoint::new(),
        }
    }

    /// Stores a new pool record and one checkpoint.
    fn store(&mut self, pool: Pool, account: u64, c: Checkpoint)
        requires
            old(self).wf(),
            old(self).is_initialized(),
            pool.wf(),
            pool.tracks(c),
            pool.reward_per_unit_accumulated >= old(self).pool().reward_per_unit_accumulated,
            pool.total_staked - old(self).pool().total_staked == c.staked_balance - old(
                self,
            ).checkpoint_of(account).staked_balance,
        ensures
            final(self).wf(),
            final(self).follows(*old(self), pool, account, c),
    {
        broadcast use vstd::std_specs::hash::group_hash_axioms;

        proof {
            lemma_sum_after_write(self.accounts@, account, c, key_space());
        }
        self.pool = pool;
        self.accounts.insert(account, c);
    }

    /// What `stake` answers.
    pub open spec fn stake_outcome(&self, account: u64, amount: i128, now: u64, transferred: bool)
        -> Result<(), Error> {
        if !self.is_initialized() {
            Err(Error::NotInitialized)
        } else if amount <= 0 {
            Err(Error::InvalidAmount)
        } else if !self.pool().stake_fits(self.checkpoint_of(account), amount, now) {
            Err(Error::Overflow)
        } else if !transferred {
            Err(Error::TransferFailed)
        } else {
            Ok(())
        }
    }

    /// Stakes `amount` for the account at `now`. `transferred` is the
    /// gateway's answer to moving `amount` of the staking asset from the
    /// account into the pool; without it nothing is recorded.
    pub fn stake(&mut self, account: u64, amount: i128, now: u64, transferred: bool) -> (r: Result<
        (),
        Error,
    >)
        requires
            old(self).wf(),
            now >= old(self).pool().last_update_time,
        ensures
            final(self).wf(),
            r == old(self).stake_outcome(account, amount, now, transferred),
            r is Ok ==> final(self).follows(
                *old(self),
                old(self).pool().after_stake(amount, now),
                account,
                old(self).pool().moved(old(self).checkpoint_of(account), amount as int, now),
            ),
            r is Ok ==> final(self).book() == old(self).book().apply(
                (Call::Stake { account, amount, now }),
            ),
            r is Err ==> final(self).same_as(*old(self)),
            final(self).pool().reward_per_unit_accumulated >= old(
                self,
            ).pool().reward_per_unit_accumulated,
    {
        if !self.initialized {
            return Err(Error::NotInitialized);
        }
        let mut pool: Pool = self.pool;
        let mut c: Checkpoint = self.load(account);
        match pool.stake(&mut c, amount, now) {
            Ok(()) => {},
            Err(e) => { return Err(e); },
        }
        if !transferred {
            return Err(Error::TransferFailed);
        }
        self.store(pool, account, c);
        Ok(())
    }

    /// What `withdraw` answers.
    pub open spec fn withdraw_outcome(
        &self,
        account: u64,
        amount: i128,
        now: u64,
        transferred: bool,
    ) -> Result<(), Error> {
        if !self.is_initialized() {
            Err(Error::NotInitialized)
        } else if amount <= 0 {
            Err(Error::InvalidAmount)
        } else if amount > self.checkpoint_of(account).staked_balance {
            Err(Error::InsufficientBalance)
        } else if !self.pool().checkpoint_fits(self.checkpoint_of(account), now) {
            Err(Error::Overflow)
        } else if !transferred {
            Err(Error::TransferFailed)
        } else {
            Ok(())
        }
    }

    /// Withdraws `amount` of the account's stake at `now`. `transferred`
    /// is the gateway's answer to moving `amount` of the staking asset from
    /// the pool back to the account; without it nothing is recorded.
    pub fn withdraw(&mut self, account: u64, amount: i128, now: u64, transferred: bool) -> (r:
        Result<(), Error>)
        requires
            old(self).wf(),
            now >= old(self).pool().last_update_time,
        ensures
            final(self).wf(),
            r == old(self).withdraw_outcome(account, amount, now, transferred),
            r is Ok ==> final(self).follows(
                *old(self),
                old(self).pool().after_withdraw(amount, now),
                account,
                old(self).pool().moved(old(self).checkpoint_of(account), -amount, now),
            ),
            r is Ok ==> final(self).book() == old(self).book().apply(
                (Call::Withdraw { account, amount, now }),
            ),
            r is Err ==> final(self).same_as(*old(self)),
            final(self).pool().reward_per_unit_accumulated >= old(
                self,
            ).pool().reward_per_unit_accumulated,
    {
        if !self.initialized {
            return Err(Error::NotInitialized);
        }
        let mut pool: Pool = self.pool;
        let mut c: Checkpoint = self.load(account);
        match pool.withdraw(&mut c, amount, now) {
            Ok(()) => {},
            Err(e) => { return Err(e); },
        }
        if !transferred {
            return Err(Error::TransferFailed);
        }
        self.store(pool, account, c);
        Ok(())
    }

    /// What `earned` answers.
    pub open spec fn earned_outcome(&self, account: u64, now: u64) -> Result<i128, Error> {
        if !self.is_initialized() {
            Err(Error::NotInitialized)
        } else if !self.pool().checkpoint_fits(self.checkpoint_of(account), now) {
            Err(Error::Overflow)
        } else {
            Ok(self.pool().earned_at(self.checkpoint_of(account), now) as i128)
        }
    }

    /// What `claim_rwrd` answers.
    pub open spec fn claim_outcome(&self, account: u64, now: u64, transferred: bool) -> Result<
        i128,
        Error,
    > {
        if self.earned_outcome(account, now) is Ok && !transferred {
            Err(Error::TransferFailed)
        } else {
            self.earned_outcome(account, now)
        }
    }

    /// Reading and claiming agree: with no call and no time in between, a
    /// claim that the gateway carries out pays what `earned` reported, and
    /// every refusal of the one is a refusal of the other.
    pub proof fn law_claim_pays_what_was_read(&self, account: u64, now: u64)
        ensures
            self.claim_outcome(account, now, true) == self.earned_outcome(account, now),
            self.earned_outcome(account, now) is Err ==> self.claim_outcome(account, now, false)
                == self.earned_outcome(account, now),
    {
    }

    /// Pays the account all it has earned up to `now` and leaves it owed
    /// nothing. The amount is the one `earned` reports at `now`;
    /// `transferred` is the gateway's answer to moving that much of the
    /// reward asset from the pool to the account.
    pub fn claim_rwrd(&mut self, account: u64, now: u64, transferred: bool) -> (r: Result<
        i128,
        Error,
    >)
        requires
            old(self).wf(),
            now >= old(self).pool().last_update_time,
        ensures
            final(self).wf(),
            r == old(self).claim_outcome(account, now, transferred),
            r is Ok ==> final(self).follows(
                *old(self),
                old(self).pool().refreshed(now),
                account,
                old(self).pool().claimed(old(self).checkpoint_of(account), now),
            ),
            r is Ok ==> final(self).book() == old(self).book().apply((Call::Claim { account, now })),
            r is Err ==> final(self).same_as(*old(self)),
            r is Ok ==> final(self).earned_outcome(account, now) == Ok::<i128, Error>(0),
            final(self).pool().reward_per_unit_accumulated >= old(
                self,
            ).pool().reward_per_unit_accumulated,
    {
        if !self.initialized {
            return Err(Error::NotInitialized);
        }
        let mut pool: Pool = self.pool;
        let mut c: Checkpoint = self.load(account);
        let payout: i128 = match pool.claim(&mut c, now) {
            Ok(v) => v,
            Err(e) => { return Err(e); },
        };
        if !transferred {
            return Err(Error::TransferFailed);
        }
        self.store(pool, account, c);
        Ok(payout)
    }

    /// What the account could claim at `now`. Nothing is changed, and the
    /// accumulator is taken as a refresh at `now` would leave it.
    pub fn earned(&self, account: u64, now: u64) -> (r: Result<i128, Error>)
        requires
            self.wf(),
            now >= self.pool().last_update_time,
        ensures
            r == self.earned_outcome(account, now),
    {
        if !self.initialized {
            return Err(Error::NotInitialized);
        }
        let c: Checkpoint = self.load(account);
        self.pool.earned(&c, now)
    }

    /// The account's staked balance.
    pub fn get_staked(&self, account: u64) -> (r: Result<i128, Error>)
        requires
            self.wf(),
        ensures
            r == (if self.is_initialized() {
                Ok::<i128, Error>(self.checkpoint_of(account).staked_balance)
            } else {
                Err::<i128, Error>(Error::NotInitialized)
            }),
    {
        if !self.initialized {
            return Err(Error::NotInitialized);
        }
        let c: Checkpoint = self.load(account);
        Ok(c.staked_balance)
    }

    /// The principal staked over all accounts.
    pub fn tot_supply(&self) -> (r: Result<i128, Error>)
        ensures
            r == (if self.is_initialized() {
                Ok::<i128, Error>(self.pool().total_staked)
            } else {
                Err::<i128, Error>(Error::NotInitialized)
            }),
    {
        if !self.initialized {
            return Err(Error::NotInitialized);
        }
        Ok(self.pool.total_staked)
    }
}

/// Without records every partial sum is 0.
pub proof fn lemma_empty_sum(n: nat)
    ensures
        staked_below(Map::<u64, Checkpoint>::empty(), n) == 0,
    decreases n,
{
    if n > 0 {
        lemma_empty_sum((n - 1) as nat);
    }
}

} // verus!

//! A bond sold at a price that grows by a fee per interval, simple or
//! compound, until an end date, and cashed out after it.

use vstd::prelude::*;
use vstd::arithmetic::power::pow;
use std::collections::HashSet;
use crate::math::checked_pow;

verus! {

/// Where a bond stands in its life.
#[derive(Clone, Copy, Debug, PartialEq, Eq, Structural)]
pub enum State {
    NoInitiatd,
    Initiated,
    Available,
    CashOutEn,
    Paused,
}

/// How the fee adds up over the intervals.
#[derive(Clone, Copy, Debug, PartialEq, Eq, Structural)]
pub enum InterestType {
    Simple,
    Compound,
}

/// Why a bond operation was refused. A refused operation changes nothing.
#[derive(Clone, Copy, Debug, PartialEq, Eq, Structural)]
pub enum Error {
    AlreadyInitialized,
    NotAuthorized,
    NotInitialized,
    AlreadyCashOutEn,
    InvalidTimestamp,
    NotCashOutEn,
    NotAvailable,
    NotEnoughTokens,
    EndTimeNotPassed,
    UserAlreadyAllowed,
    UserNotAllowed,
    NotPaused,
    /// A quantity left the 128-bit signed range.
    Overflow,
}

/// The seconds in one day.
pub open spec fn seconds_per_day() -> int {
    86400
}

/// The seconds in `days` days.
pub fn days_to_seconds(days: u64) -> (seconds: u64)
    requires
        days * seconds_per_day() <= u64::MAX,
    ensures
        seconds == days * seconds_per_day(),
{
    days * 24 * 60 * 60
}

/// What a bond is sold on: the price at the start, the fee in thousandths
/// per interval and how it adds up, the interval in seconds, and the dates
/// between which the price grows.
#[derive(Clone, Copy, Debug, PartialEq, Eq, Structural)]
pub struct Terms {
    pub price: i128,
    pub fee_rate: i128,
    pub fee_interval: u64,
    pub fee_type: InterestType,
    pub init_time: u64,
    pub end_time: u64,
}

impl Terms {
    /// Price and fee are not negative, the interval is not empty and the
    /// end is not before the start.
    pub open spec fn wf(&self) -> bool {
        &&& self.price >= 0
        &&& self.fee_rate >= 0
        &&& self.fee_interval > 0
        &&& self.init_time <= self.end_time
    }

    /// The whole intervals between the start and `now`, or the end date if
    /// that came first.
    pub open spec fn periods(&self, now: u64) -> int {
        let until = if now < self.end_time {
            now
        } else {
            self.end_time
        };
        (until - self.init_time) / (self.fee_interval as int)
    }

    /// The price after `n` whole intervals. A simple fee is charged on the
    /// starting price each interval; a compound one on the price so far.
    /// Either way the fraction of a unit is dropped once, at the end.
    pub open spec fn price_after(&self, n: nat) -> int {
        match self.fee_type {
            InterestType::Simple => self.price + (self.price * n * self.fee_rate) / 1000,
            InterestType::Compound => (self.price * pow(1000 + self.fee_rate, n)) / pow(1000, n),
        }
    }

    /// The largest quantity that is formed on the way to the price after
    /// `n` whole intervals.
    pub open spec fn price_fits(&self, n: nat) -> bool {
        match self.fee_type {
            InterestType::Simple => self.price * n <= i128::MAX && self.price * n * self.fee_rate
                <= i128::MAX && self.price_after(n) <= i128::MAX,
            InterestType::Compound => self.price * pow(1000 + self.fee_rate, n) <= i128::MAX
                && pow(1000 + self.fee_rate, n) <= i128::MAX,
        }
    }

    /// What `current_price` answers.
    pub open spec fn price_outcome(&self, now: u64) -> Result<i128, Error> {
        let n = self.periods(now) as nat;
        if n == 0 {
            Ok(self.price)
        } else if !self.price_fits(n) {
            Err(Error::Overflow)
        } else {
            Ok(self.price_after(n) as i128)
        }
    }

    /// The price at `now`.
    pub fn current_price(&self, now: u64) -> (r: Result<i128, Error>)
        requires
            self.wf(),
            self.init_time <= now,
        ensures
            r == self.price_outcome(now),
            r is Ok ==> r->Ok_0 >= 0,
    {
        let until: u64 = if now < self.end_time {
            now
        } else {
            self.end_time
        };
        let time: u64 = (until - self.init_time) / self.fee_interval;
        if time == 0 {
            return Ok(self.price);
        }
        let n: i128 = time as i128;
        match self.fee_type {
            InterestType::Simple => {
                proof {
                    lemma_product_nonnegative(self.price as int, n as int);
                    lemma_product_nonnegative(self.price * n, self.fee_rate as int);
                }
                let over_time: i128 = match self.price.checked_mul(n) {
                    Some(v) => v,
                    None => { return Err(Error::Overflow); },
                };
                let fees: i128 = match over_time.checked_mul(self.fee_rate) {
                    Some(v) => v,
                    None => { return Err(Error::Overflow); },
                };
                match self.price.checked_add(fees / 1000) {
                    Some(v) => Ok(v),
                    None => Err(Error::Overflow),
                }
            },
            InterestType::Compound => {
                let growth: i128 = match 1000i128.checked_add(self.fee_rate) {
                    Some(v) => v,
                    None => {
                        proof {
                            lemma_power_at_least_base(1000 + self.fee_rate, time as nat);
                        }
                        return Err(Error::Overflow);
                    },
                };
                let grown: i128 = match checked_pow(growth, time) {
                    Some(v) => v,
                    None => { return Err(Error::Overflow); },
                };
                proof {
                    lemma_power_monotonic(1000, growth as int, time as nat);
                    lemma_product_nonnegative(self.price as int, grown as int);
                }
                let unit: i128 = match checked_pow(1000, time) {
                    Some(v) => v,
                    None => { return Err(Error::Overflow); },
                };
                let scaled: i128 = match self.price.checked_mul(grown) {
                    Some(v) => v,
                    None => { return Err(Error::Overflow); },
                };
                proof {
                    lemma_quotient_nonnegative(scaled as int, unit as int);
                }
                Ok(scaled / unit)
            },
        }
    }
}

/// What a bond holds, as contracts see it.
pub struct BondView {
    pub state: State,
    pub admin: u64,
    pub terms: Terms,
    pub has_end: bool,
    pub supply: i128,
    pub users: Set<u64>,
}

impl BondView {
    /// The bond has a start date.
    pub open spec fn started(&self) -> bool {
        self.state == State::Available || self.state == State::Paused || self.state
            == State::CashOutEn
    }

    /// The bond has a price at `now`: it has started, not after `now`, and
    /// its end date is set.
    pub open spec fn priced_at(&self, now: u64) -> bool {
        self.started() && self.has_end && self.terms.init_time <= now
    }

    /// The view with another state.
    pub open spec fn in_state(&self, state: State) -> BondView {
        BondView { state, ..*self }
    }

    /// The view with another supply.
    pub open spec fn with_supply(&self, supply: i128) -> BondView {
        BondView { supply, ..*self }
    }

    /// The view with another set of allowed users.
    pub open spec fn with_users(&self, users: Set<u64>) -> BondView {
        BondView { users, ..*self }
    }

    /// What an operation of the administrator answers before it looks at
    /// anything else.
    pub open spec fn admitted(&self, invoker: u64, then: Result<(), Error>) -> Result<(), Error> {
        if invoker != self.admin {
            Err(Error::NotAuthorized)
        } else {
            then
        }
    }

    /// What `start` answers.
    pub open spec fn start_outcome(&self, invoker: u64) -> Result<(), Error> {
        self.admitted(
            invoker,
            if self.state != State::Initiated {
                Err(Error::NotInitialized)
            } else {
                Ok(())
            },
        )
    }

    /// What `set_end` answers.
    pub open spec fn set_end_outcome(&self, invoker: u64, end_timestamp: u64) -> Result<
        (),
        Error,
    > {
        self.admitted(
            invoker,
            if self.state == State::CashOutEn {
                Err(Error::AlreadyCashOutEn)
            } else if self.terms.init_time > end_timestamp {
                Err(Error::InvalidTimestamp)
            } else {
                Ok(())
            },
        )
    }

    /// What `pause` answers.
    pub open spec fn pause_outcome(&self, invoker: u64) -> Result<(), Error> {
        self.admitted(
            invoker,
            if self.state != State::Available {
                Err(Error::NotAvailable)
            } else {
                Ok(())
            },
        )
    }

    /// What `unpause` answers.
    pub open spec fn unpause_outcome(&self, invoker: u64) -> Result<(), Error> {
        self.admitted(
            invoker,
            if self.state != State::Paused {
                Err(Error::NotPaused)
            } else {
                Ok(())
            },
        )
    }

    /// What `add_user` answers.
    pub open spec fn add_user_outcome(&self, invoker: u64, user: u64) -> Result<(), Error> {
        self.admitted(
            invoker,
            if self.users.contains(user) {
                Err(Error::UserAlreadyAllowed)
            } else {
                Ok(())
            },
        )
    }

    /// What `rm_user` answers.
    pub open spec fn rm_user_outcome(&self, invoker: u64, user: u64) -> Result<(), Error> {
        self.admitted(
            invoker,
            if !self.users.contains(user) {
                Err(Error::UserNotAllowed)
            } else {
                Ok(())
            },
        )
    }

    /// What `withdraw` answers: the amount to hand to the administrator.
    pub open spec fn withdraw_outcome(&self, invoker: u64, amount: i128) -> Result<i128, Error> {
        if invoker != self.admin {
            Err(Error::NotAuthorized)
        } else if self.state == State::CashOutEn {
            Err(Error::AlreadyCashOutEn)
        } else {
            Ok(amount)
        }
    }

    /// What `count` bonds cost at `now`.
    pub open spec fn worth(&self, count: i128, now: u64) -> Result<i128, Error> {
        match self.terms.price_outcome(now) {
            Err(e) => Err(e),
            Ok(price) => if i128::MIN <= price * count <= i128::MAX {
                Ok((price * count) as i128)
            } else {
                Err(Error::Overflow)
            },
        }
    }

    /// What `buy` answers: the payment owed for `amount` bonds.
    pub open spec fn buy_outcome(&self, invoker: u64, amount: i128, now: u64) -> Result<
        i128,
        Error,
    > {
        if self.state != State::Available {
            Err(Error::NotAvailable)
        } else if !self.users.contains(invoker) {
            Err(Error::UserNotAllowed)
        } else if !(i128::MIN <= self.supply + amount <= i128::MAX) {
            Err(Error::Overflow)
        } else {
            self.worth(amount, now)
        }
    }

    /// What `cash_out` answers: the payment owed for `bond_balance` bonds.
    pub open spec fn cash_out_outcome(&self, bond_balance: i128, now: u64) -> Result<i128, Error> {
        if self.state != State::CashOutEn {
            Err(Error::NotCashOutEn)
        } else if self.worth(bond_balance, now) is Err {
            self.worth(bond_balance, now)
        } else if !(i128::MIN <= self.supply - bond_balance <= i128::MAX) {
            Err(Error::Overflow)
        } else {
            self.worth(bond_balance, now)
        }
    }

    /// What `en_csh_out` answers.
    pub open spec fn en_csh_out_outcome(&self, invoker: u64, now: u64, contract_balance: i128)
        -> Result<(), Error> {
        self.admitted(
            invoker,
            if self.state != State::Available && self.state != State::Paused {
                Err(Error::NotAvailable)
            } else if now < self.terms.end_time {
                Err(Error::EndTimeNotPassed)
            } else {
                match self.worth(self.supply, now) {
                    Err(e) => Err(e),
                    Ok(owed) => if contract_balance < owed {
                        Err(Error::NotEnoughTokens)
                    } else {
                        Ok(())
                    },
                }
            },
        )
    }
}

/// A bond: its state, its administrator, its terms, the bonds sold and the
/// users allowed to buy.
pub struct Bond {
    state: State,
    admin: u64,
    terms: Terms,
    has_end: bool,
    supply: i128,
    users: HashSet<u64>,
}

impl View for Bond {
    type V = BondView;

    closed spec fn view(&self) -> BondView {
        BondView {
            state: self.state,
            admin: self.admin,
            terms: self.terms,
            has_end: self.has_end,
            supply: self.supply,
            users: self.users@,
        }
    }
}

impl Bond {
    /// Once set up the terms are sound, and the end date, once set, is not
    /// before the start.
    pub open spec fn wf(&self) -> bool {
        &&& self@.state != State::NoInitiatd ==> self@.terms.price >= 0 && self@.terms.fee_rate
            >= 0 && self@.terms.fee_interval > 0
        &&& self@.has_end ==> self@.started() && self@.terms.init_time <= self@.terms.end_time
    }

    /// A bond that has not been set up.
    pub fn new() -> (b: Bond)
        ensures
            b.wf(),
            b@.state == State::NoInitiatd,
            !b@.has_end,
            b@.supply == 0,
            b@.users == Set::<u64>::empty(),
    {
        Bond {
            state: State::NoInitiatd,
            admin: 0,
            terms: Terms {
                price: 0,
                fee_rate: 0,
                fee_interval: 1,
                fee_type: InterestType::Simple,
                init_time: 0,
                end_time: 0,
            },
            has_end: false,
            supply: 0,
            users: HashSet::new(),
        }
    }

    /// The bond's state.
    pub fn state(&self) -> (s: State)
        ensures
            s == self@.state,
    {
        self.state
    }

    /// The bonds sold and not cashed out.
    pub fn supply(&self) -> (n: i128)
        ensures
            n == self@.supply,
    {
        self.supply
    }

    /// Whether the bond has a price at `now`.
    pub fn has_price(&self, now: u64) -> (b: bool)
        ensures
            b == self@.priced_at(now),
    {
        let started: bool = match self.state {
            State::Available => true,
            State::Paused => true,
            State::CashOutEn => true,
            _ => false,
        };
        started && self.has_end && self.terms.init_time <= now
    }

    /// Sets the bond up, once: names the administrator and fixes the
    /// price, the fee per interval and the interval in days.
    pub fn initialize(
        &mut self,
        admin: u64,
        price: i128,
        fee_rate: i128,
        fee_days_interval: u64,
        fee_type: InterestType,
    ) -> (r: Result<(), Error>)
        requires
            old(self).wf(),
            price >= 0,
            fee_rate >= 0,
            fee_days_interval > 0,
            fee_days_interval * seconds_per_day() <= u64::MAX,
        ensures
            final(self).wf(),
            old(self)@.state != State::NoInitiatd ==> r == Err::<(), Error>(
                Error::AlreadyInitialized,
            ),
            old(self)@.state == State::NoInitiatd ==> r == Ok::<(), Error>(()),
            r is Err ==> final(self)@ == old(self)@,
            r is Ok ==> final(self)@ == (BondView {
                state: State::Initiated,
                admin,
                terms: Terms {
                    price,
                    fee_rate,
                    fee_interval: (fee_days_interval * seconds_per_day()) as u64,
                    fee_type,
                    init_time: 0,
                    end_time: 0,
                },
                has_end: false,
                supply: old(self)@.supply,
                users: old(self)@.users,
            }),
    {
        match self.state {
            State::NoInitiatd => {},
            _ => { return Err(Error::AlreadyInitialized); },
        }
        self.state = State::Initiated;
        self.admin = admin;
        self.terms = Terms {
            price,
            fee_rate,
            fee_interval: days_to_seconds(fee_days_interval),
            fee_type,
            init_time: 0,
            end_time: 0,
        };
        self.has_end = false;
        Ok(())
    }

    /// Opens the sale and fixes the date from which the price grows.
    pub fn start(&mut self, invoker: u64, initial_timestamp: u64) -> (r: Result<(), Error>)
        requires
            old(self).wf(),
            old(self)@.state != State::NoInitiatd,
        ensures
            final(self).wf(),
            r == old(self)@.start_outcome(invoker),
            r is Err ==> final(self)@ == old(self)@,
            r is Ok ==> final(self)@ == (BondView {
                state: State::Available,
                terms: Terms {
                    init_time: initial_timestamp,
                    end_time: initial_timestamp,
                    ..old(self)@.terms
                },
                ..old(self)@
            }),
    {
        if invoker != self.admin {
            return Err(Error::NotAuthorized);
        }
        match self.state {
            State::Initiated => {},
            _ => { return Err(Error::NotInitialized); },
        }
        self.state = State::Available;
        self.terms.init_time = initial_timestamp;
        self.terms.end_time = initial_timestamp;
        Ok(())
    }

    /// Fixes the date after which the price no longer grows.
    pub fn set_end(&mut self, invoker: u64, end_timestamp: u64) -> (r: Result<(), Error>)
        requires
            old(self).wf(),
            old(self)@.started(),
        ensures
            final(self).wf(),
            r == old(self)@.set_end_outcome(invoker, end_timestamp),
            r is Err ==> final(self)@ == old(self)@,
            r is Ok ==> final(self)@ == (BondView {
                has_end: true,
                terms: Terms { end_time: end_timestamp, ..old(self)@.terms },
                ..old(self)@
            }),
    {
        if invoker != self.admin {
            return Err(Error::NotAuthorized);
        }
        match self.state {
            State::CashOutEn => { return Err(Error::AlreadyCashOutEn); },
            _ => {},
        }
        if self.terms.init_time > end_timestamp {
            return Err(Error::InvalidTimestamp);
        }
        self.terms.end_time = end_timestamp;
        self.has_end = true;
        Ok(())
    }

    /// Closes the sale for a while.
    pub fn pause(&mut self, invoker: u64) -> (r: Result<(), Error>)
        requires
            old(self).wf(),
            old(self)@.state != State::NoInitiatd,
        ensures
            final(self).wf(),
            r == old(self)@.pause_outcome(invoker),
            r is Err ==> final(self)@ == old(self)@,
            r is Ok ==> final(self)@ == old(self)@.in_state(State::Paused),
    {
        if invoker != self.admin {
            return Err(Error::NotAuthorized);
        }
        match self.state {
            State::Available => {},
            _ => { return Err(Error::NotAvailable); },
        }
        self.state = State::Paused;
        Ok(())
    }

    /// Opens the sale again.
    pub fn unpause(&mut self, invoker: u64) -> (r: Result<(), Error>)
        requires
            old(self).wf(),
            old(self)@.state != State::NoInitiatd,
        ensures
            final(self).wf(),
            r == old(self)@.unpause_outcome(invoker),
            r is Err ==> final(self)@ == old(self)@,
            r is Ok ==> final(self)@ == old(self)@.in_state(State::Available),
    {
        if invoker != self.admin {
            return Err(Error::NotAuthorized);
        }
        match self.state {
            State::Paused => {},
            _ => { return Err(Error::NotPaused); },
        }
        self.state = State::Available;
        Ok(())
    }

    /// Allows a user to buy.
    pub fn add_user(&mut self, invoker: u64, user: u64) -> (r: Result<(), Error>)
        requires
            old(self).wf(),
            old(self)@.state != State::NoInitiatd,
        ensures
            final(self).wf(),
            r == old(self)@.add_user_outcome(invoker, user),
            r is Err ==> final(self)@ == old(self)@,
            r is Ok ==> final(self)@ == old(self)@.with_users(old(self)@.users.insert(user)),
    {
        broadcast use vstd::std_specs::hash::group_hash_axioms;

        if invoker != self.admin {
            return Err(Error::NotAuthorized);
        }
        if self.users.contains(&user) {
            return Err(Error::UserAlreadyAllowed);
        }
        self.users.insert(user);
        Ok(())
    }

    /// Takes a user's permission to buy away.
    pub fn rm_user(&mut self, invoker: u64, user: u64) -> (r: Result<(), Error>)
        requires
            old(self).wf(),
            old(self)@.state != State::NoInitiatd,
        ensures
            final(self).wf(),
            r == old(self)@.rm_user_outcome(invoker, user),
            r is Err ==> final(self)@ == old(self)@,
            r is Ok ==> final(self)@ == old(self)@.with_users(old(self)@.users.remove(user)),
    {
        broadcast use vstd::std_specs::hash::group_hash_axioms;

        if invoker != self.admin {
            return Err(Error::NotAuthorized);
        }
        if !self.users.contains(&user) {
            return Err(Error::UserNotAllowed);
        }
        self.users.remove(&user);
        Ok(())
    }

    /// Decides whether the administrator may take `amount` of the payment
    /// asset out of the bond, and returns the amount to hand over.
    pub fn withdraw(&self, invoker: u64, amount: i128) -> (r: Result<i128, Error>)
        requires
            self.wf(),
            self@.state != State::NoInitiatd,
        ensures
            r == self@.withdraw_outcome(invoker, amount),
    {
        if invoker != self.admin {
            return Err(Error::NotAuthorized);
        }
        match self.state {
            State::CashOutEn => Err(Error::AlreadyCashOutEn),
            _ => Ok(amount),
        }
    }

    /// The price of one bond at `now`.
    pub fn get_price(&self, now: u64) -> (r: Result<i128, Error>)
        requires
            self.wf(),
            self@.priced_at(now),
        ensures
            r == self@.terms.price_outcome(now),
    {
        self.terms.current_price(now)
    }

    /// What `count` bonds cost at `now`.
    fn cost(&self, count: i128, now: u64) -> (r: Result<i128, Error>)
        requires
            self.wf(),
            self@.priced_at(now),
        ensures
            r == self@.worth(count, now),
    {
        let price: i128 = match self.terms.current_price(now) {
            Ok(v) => v,
            Err(e) => { return Err(e); },
        };
        match price.checked_mul(count) {
            Some(v) => Ok(v),
            None => Err(Error::Overflow),
        }
    }

    /// Sells `amount` bonds to the invoker at the price of `now` and
    /// returns the payment owed.
    pub fn buy(&mut self, invoker: u64, amount: i128, now: u64) -> (r: Result<i128, Error>)
        requires
            old(self).wf(),
            old(self)@.state == State::Available ==> old(self)@.priced_at(now),
        ensures
            final(self).wf(),
            r == old(self)@.buy_outcome(invoker, amount, now),
            r is Err ==> final(self)@ == old(self)@,
            r is Ok ==> final(self)@ == old(self)@.with_supply(
                (old(self)@.supply + amount) as i128,
            ),
    {
        broadcast use vstd::std_specs::hash::group_hash_axioms;

        match self.state {
            State::Available => {},
            _ => { return Err(Error::NotAvailable); },
        }
        if !self.users.contains(&invoker) {
            return Err(Error::UserNotAllowed);
        }
        let supply: i128 = match self.supply.checked_add(amount) {
            Some(v) => v,
            None => { return Err(Error::Overflow); },
        };
        let total: i128 = match self.cost(amount, now) {
            Ok(v) => v,
            Err(e) => { return Err(e); },
        };
        self.supply = supply;
        Ok(total)
    }

    /// Takes `bond_balance` bonds back at the price of `now` and returns
    /// the payment owed.
    pub fn cash_out(&mut self, bond_balance: i128, now: u64) -> (r: Result<i128, Error>)
        requires
            old(self).wf(),
            old(self)@.state == State::CashOutEn ==> old(self)@.priced_at(now),
        ensures
            final(self).wf(),
            r == old(self)@.cash_out_outcome(bond_balance, now),
            r is Err ==> final(self)@ == old(self)@,
            r is Ok ==> final(self)@ == old(self)@.with_supply(
                (old(self)@.supply - bond_balance) as i128,
            ),
    {
        match self.state {
            State::CashOutEn => {},
            _ => { return Err(Error::NotCashOutEn); },
        }
        let total: i128 = match self.cost(bond_balance, now) {
            Ok(v) => v,
            Err(e) => { return Err(e); },
        };
        let supply: i128 = match self.supply.checked_sub(bond_balance) {
            Some(v) => v,
            None => { return Err(Error::Overflow); },
        };
        self.supply = supply;
        Ok(total)
    }

    /// Lets holders cash out, once the end date has passed and the bond
    /// holds enough of the payment asset to pay for every bond sold.
    pub fn en_csh_out(&mut self, invoker: u64, now: u64, contract_balance: i128) -> (r: Result<
        (),
        Error,
    >)
        requires
            old(self).wf(),
            old(self)@.state != State::NoInitiatd,
            old(self)@.state == State::Available || old(self)@.state == State::Paused ==> old(
                self,
            )@.priced_at(now),
        ensures
            final(self).wf(),
            r == old(self)@.en_csh_out_outcome(invoker, now, contract_balance),
            r is Err ==> final(self)@ == old(self)@,
            r is Ok ==> final(self)@ == old(self)@.in_state(State::CashOutEn),
    {
        if invoker != self.admin {
            return Err(Error::NotAuthorized);
        }
        match self.state {
            State::Available => {},
            State::Paused => {},
            _ => { return Err(Error::NotAvailable); },
        }
        if now < self.terms.end_time {
            return Err(Error::EndTimeNotPassed);
        }
        let owed: i128 = match self.cost(self.supply, now) {
            Ok(v) => v,
            Err(e) => { return Err(e); },
        };
        if contract_balance < owed {
            return Err(Error::NotEnoughTokens);
        }
        self.state = State::CashOutEn;
        Ok(())
    }
}

/// A product of two numbers that are not negative is not negative.
pub proof fn lemma_product_nonnegative(a: int, b: int)
    requires
        a >= 0,
        b >= 0,
    ensures
        a * b >= 0,
{
    assert(a * b >= 0) by (nonlinear_arith)
        requires
            a >= 0,
            b >= 0,
    ;
}

/// The floor of a quotient of a number that is not negative by a positive
/// one lies between 0 and the number.
pub proof fn lemma_quotient_nonnegative(a: int, b: int)
    requires
        a >= 0,
        b > 0,
    ensures
        0 <= a / b <= a,
{
    assert(0 <= a / b <= a) by (nonlinear_arith)
        requires
            a >= 0,
            b > 0,
    ;
}

/// A positive power of a base of at least 1 is at least the base.
pub proof fn lemma_power_at_least_base(base: int, n: nat)
    requires
        base >= 1,
        n >= 1,
    ensures
        pow(base, n) >= base,
    decreases n,
{
    reveal(pow);
    if n == 1 {
        assert(pow(base, 0) == 1);
    } else {
        lemma_power_at_least_base(base, (n - 1) as nat);
        let rest = pow(base, (n - 1) as nat);
        assert(base * rest >= base) by (nonlinear_arith)
            requires
                base >= 1,
                rest >= 1,
        ;
    }
}

/// Powers grow with the base.
pub proof fn lemma_power_monotonic(small: int, large: int, n: nat)
    requires
        1 <= small <= large,
    ensures
        1 <= pow(small, n) <= pow(large, n),
    decreases n,
{
    reveal(pow);
    if n > 0 {
        lemma_power_monotonic(small, large, (n - 1) as nat);
        let a = pow(small, (n - 1) as nat);
        let b = pow(large, (n - 1) as nat);
        assert(1 <= small * a <= large * b) by (nonlinear_arith)
            requires
                1 <= small <= large,
                1 <= a <= b,
        ;
    }
}

} // verus!

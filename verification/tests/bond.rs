use staking::bond::{days_to_seconds, Bond, Error, InterestType, State, Terms};

const ADMIN: u64 = 100;
const USER1: u64 = 1;
const USER2: u64 = 2;
const USER3: u64 = 3;

fn bond(price: i128, fee_rate: i128, days: u64, fee_type: InterestType) -> Bond {
    let mut bond = Bond::new();
    assert_eq!(bond.initialize(ADMIN, price, fee_rate, days, fee_type), Ok(()));
    bond
}

fn run_sale(fee_type: InterestType, prices: [i128; 5], balances: [i128; 3], held: i128, missing: i128) {
    let mut contract = bond(100, 100, 30, fee_type);
    let mut user1: i128 = 100000;
    let mut user2: i128 = 100000;
    let mut user3: i128 = 100000;
    let mut pool: i128 = 0;

    assert_eq!(contract.start(ADMIN, 0), Ok(()));
    assert_eq!(contract.set_end(ADMIN, days_to_seconds(10 * 30)), Ok(()));
    assert_eq!(contract.add_user(ADMIN, USER1), Ok(()));
    assert_eq!(contract.add_user(ADMIN, USER2), Ok(()));
    assert_eq!(contract.add_user(ADMIN, USER3), Ok(()));

    assert_eq!(contract.get_price(0), Ok(prices[0]));

    assert_eq!(contract.pause(ADMIN), Ok(()));
    assert_eq!(contract.unpause(ADMIN), Ok(()));
    let paid = contract.buy(USER1, 200, 0).unwrap();
    user1 -= paid;
    pool += paid;
    assert_eq!(user1, 80000);

    let now = days_to_seconds(30);
    assert_eq!(contract.get_price(now), Ok(prices[1]));

    let now = days_to_seconds(2 * 30);
    let paid = contract.buy(USER2, 100, now).unwrap();
    user2 -= paid;
    pool += paid;
    assert_eq!(user2, balances[0]);
    assert_eq!(contract.get_price(now), Ok(prices[2]));

    let now = days_to_seconds(5 * 30);
    let paid = contract.buy(USER3, 200, now).unwrap();
    user3 -= paid;
    pool += paid;
    assert_eq!(user3, balances[1]);
    assert_eq!(contract.get_price(now), Ok(prices[3]));

    // Two months after the end date the price is the one of the end date.
    let now = days_to_seconds(12 * 30);
    assert_eq!(contract.get_price(now), Ok(prices[4]));
    assert_eq!(pool, held);
    pool -= contract.withdraw(ADMIN, 20000).unwrap();
    assert_eq!(pool, held - 20000);
    pool += missing;
    assert_eq!(pool, 500 * prices[4]);

    assert_eq!(contract.en_csh_out(ADMIN, now, pool), Ok(()));
    assert_eq!(contract.state(), State::CashOutEn);

    let paid = contract.cash_out(200, now).unwrap();
    user1 += paid;
    pool -= paid;
    let paid = contract.cash_out(100, now).unwrap();
    user2 += paid;
    pool -= paid;
    let paid = contract.cash_out(200, now).unwrap();
    user3 += paid;
    pool -= paid;
    assert_eq!([user1, user2, user3], [80000 + 200 * prices[4], balances[0] + 100 * prices[4], balances[2]]);
    assert_eq!(pool, 0);
    assert_eq!(contract.supply(), 0);
}

#[test]
fn test_success_with_compound_interest() {
    run_sale(
        InterestType::Compound,
        [100, 110, 121, 161, 259],
        [87900, 67800, 119600],
        64300,
        85200,
    );
    // The balances the users end with.
    assert_eq!(80000 + 200 * 259, 131800);
    assert_eq!(87900 + 100 * 259, 113800);
}

#[test]
fn test_success_with_simple_interest() {
    run_sale(
        InterestType::Simple,
        [100, 110, 120, 150, 200],
        [88000, 70000, 110000],
        62000,
        58000,
    );
    assert_eq!(80000 + 200 * 200, 120000);
    assert_eq!(88000 + 100 * 200, 108000);
}

#[test]
fn test_set_end_when_cash_out_enabled() {
    let mut contract = bond(100, 10, 30, InterestType::Compound);
    assert_eq!(contract.start(ADMIN, 10), Ok(()));
    assert_eq!(contract.set_end(ADMIN, 20), Ok(()));
    assert_eq!(contract.en_csh_out(ADMIN, 20, 0), Ok(()));
    assert_eq!(contract.set_end(ADMIN, 20), Err(Error::AlreadyCashOutEn));
}

#[test]
fn test_set_end_invalid_timestamp() {
    let mut contract = bond(100, 10, 30, InterestType::Compound);
    assert_eq!(contract.start(ADMIN, 10), Ok(()));
    assert_eq!(contract.set_end(ADMIN, 5), Err(Error::InvalidTimestamp));
    assert!(!contract.has_price(10));
}

#[test]
fn test_buy_not_available_paused() {
    let mut contract = bond(100, 100, 30, InterestType::Compound);
    assert_eq!(contract.start(ADMIN, 0), Ok(()));
    assert_eq!(contract.add_user(ADMIN, USER1), Ok(()));
    assert_eq!(contract.pause(ADMIN), Ok(()));
    assert_eq!(contract.buy(USER1, 200, 0), Err(Error::NotAvailable));
    assert_eq!(contract.supply(), 0);
}

#[test]
fn test_buy_with_user_not_allowed() {
    let mut contract = bond(100, 100, 30, InterestType::Compound);
    assert_eq!(contract.start(ADMIN, 0), Ok(()));
    assert_eq!(contract.set_end(ADMIN, days_to_seconds(300)), Ok(()));
    assert_eq!(contract.buy(USER1, 200, 0), Err(Error::UserNotAllowed));
}

#[test]
fn test_withdraw_when_cash_out_enabled() {
    let mut contract = bond(100, 10, 30, InterestType::Compound);
    assert_eq!(contract.start(ADMIN, 10), Ok(()));
    assert_eq!(contract.set_end(ADMIN, 20), Ok(()));
    assert_eq!(contract.en_csh_out(ADMIN, 20, 0), Ok(()));
    assert_eq!(contract.withdraw(ADMIN, 10), Err(Error::AlreadyCashOutEn));
}

#[test]
fn test_cash_out_when_not_enabled() {
    let mut contract = bond(100, 10, 30, InterestType::Compound);
    assert_eq!(contract.start(ADMIN, 10), Ok(()));
    assert_eq!(contract.set_end(ADMIN, 20), Ok(()));
    assert_eq!(contract.cash_out(0, 20), Err(Error::NotCashOutEn));
}

#[test]
fn test_enable_cash_out_when_not_enough_tokens() {
    let mut contract = bond(100, 100, 30, InterestType::Compound);
    assert_eq!(contract.start(ADMIN, 0), Ok(()));
    assert_eq!(contract.set_end(ADMIN, 20), Ok(()));
    assert_eq!(contract.add_user(ADMIN, USER1), Ok(()));
    assert_eq!(contract.buy(USER1, 200, 0), Ok(20000));
    assert_eq!(contract.en_csh_out(ADMIN, 20, 19999), Err(Error::NotEnoughTokens));
    assert_eq!(contract.en_csh_out(ADMIN, 19, 20000), Err(Error::EndTimeNotPassed));
    assert_eq!(contract.state(), State::Available);
    assert_eq!(contract.en_csh_out(ADMIN, 20, 20000), Ok(()));
}

#[test]
fn bond_refusals() {
    let mut contract = bond(100, 100, 30, InterestType::Simple);
    assert_eq!(
        contract.initialize(ADMIN, 1, 1, 1, InterestType::Simple),
        Err(Error::AlreadyInitialized)
    );
    assert_eq!(contract.start(USER1, 0), Err(Error::NotAuthorized));
    assert_eq!(contract.pause(ADMIN), Err(Error::NotAvailable));
    assert_eq!(contract.start(ADMIN, 0), Ok(()));
    assert_eq!(contract.start(ADMIN, 0), Err(Error::NotInitialized));
    assert_eq!(contract.unpause(ADMIN), Err(Error::NotPaused));
    assert_eq!(contract.set_end(USER1, 9), Err(Error::NotAuthorized));
    assert_eq!(contract.add_user(USER1, USER1), Err(Error::NotAuthorized));
    assert_eq!(contract.add_user(ADMIN, USER1), Ok(()));
    assert_eq!(contract.add_user(ADMIN, USER1), Err(Error::UserAlreadyAllowed));
    assert_eq!(contract.rm_user(ADMIN, USER2), Err(Error::UserNotAllowed));
    assert_eq!(contract.rm_user(ADMIN, USER1), Ok(()));
    assert_eq!(contract.rm_user(ADMIN, USER1), Err(Error::UserNotAllowed));
    assert_eq!(contract.withdraw(USER1, 5), Err(Error::NotAuthorized));
    assert_eq!(contract.withdraw(ADMIN, 5), Ok(5));
    assert_eq!(contract.en_csh_out(USER1, 0, 0), Err(Error::NotAuthorized));
}

#[test]
fn days_are_86400_seconds() {
    assert_eq!(days_to_seconds(0), 0);
    assert_eq!(days_to_seconds(1), 86400);
    assert_eq!(days_to_seconds(30), 2_592_000);
    assert_eq!(days_to_seconds(u64::MAX / 86400), 18446744073709526400);
}

#[test]
fn price_formulas() {
    let terms = |fee_type: InterestType, fee_rate: i128| Terms {
        price: 1000,
        fee_rate,
        fee_interval: 10,
        fee_type,
        init_time: 5,
        end_time: 1000,
    };
    // No whole interval has passed.
    assert_eq!(terms(InterestType::Simple, 15).current_price(14), Ok(1000));
    // Three intervals at 1.5 percent: 1000 + 1000 * 3 * 15 / 1000.
    assert_eq!(terms(InterestType::Simple, 15).current_price(35), Ok(1045));
    // 1000 * 1015^3 / 1000^3 = 1045.678...
    assert_eq!(terms(InterestType::Compound, 15).current_price(35), Ok(1045));
    // 1000 * 1500^3 / 1000^3
    assert_eq!(terms(InterestType::Compound, 500).current_price(39), Ok(3375));
    // Past the end date the count of intervals stops at (1000 - 5) / 10 = 99.
    assert_eq!(terms(InterestType::Simple, 15).current_price(5000), Ok(1000 + 1000 * 99 * 15 / 1000));
    // 1000^13 is out of range.
    assert_eq!(terms(InterestType::Compound, 0).current_price(135), Err(Error::Overflow));
    assert_eq!(terms(InterestType::Compound, 0).current_price(115), Ok(1000));
    assert_eq!(terms(InterestType::Simple, i128::MAX).current_price(25), Err(Error::Overflow));
}

use staking::errors::Error;
use staking::fixed_rate::{Checkpoint, Pool};
use staking::reward_pool::Staking;

const STAKING_ASSET: [u8; 32] = [1u8; 32];
const REWARD_ASSET: [u8; 32] = [2u8; 32];
const USER1: u64 = 1;
const USER2: u64 = 2;
const USER3: u64 = 3;

fn started(rate: i128) -> Staking {
    let mut staking = Staking::new();
    assert_eq!(staking.initialize(STAKING_ASSET, REWARD_ASSET, rate), Ok(()));
    staking
}

#[test]
fn test_success() {
    let mut staking = started(100);

    // What the gateway would hold for each user.
    let mut stk_user1: i128 = 1000;
    let mut stk_user2: i128 = 5000;
    let mut stk_user3: i128 = 2000;
    let mut rwrd_user1: i128 = 0;
    let mut rwrd_user2: i128 = 0;
    let mut rwrd_user3: i128 = 0;

    assert_eq!(staking.earned(USER1, 0), Ok(0));
    assert_eq!(staking.earned(USER2, 0), Ok(0));
    assert_eq!(staking.earned(USER3, 0), Ok(0));

    // Time = 0: user 1 stakes 100.
    assert_eq!(staking.stake(USER1, 100, 0, true), Ok(()));
    stk_user1 -= 100;
    assert_eq!(staking.earned(USER1, 0), Ok(0));
    assert_eq!(staking.get_staked(USER1), Ok(100));
    assert_eq!(stk_user1, 900);
    assert_eq!(staking.tot_supply(), Ok(100));

    // Time = 10: user 1 withdraws 100 and has earned 100 * 100 * 10 / 100.
    assert_eq!(staking.withdraw(USER1, 100, 10, true), Ok(()));
    stk_user1 += 100;
    assert_eq!(staking.earned(USER1, 10), Ok(1000));
    assert_eq!(staking.get_staked(USER1), Ok(0));
    assert_eq!(stk_user1, 1000);
    assert_eq!(staking.tot_supply(), Ok(0));

    rwrd_user1 += staking.claim_rwrd(USER1, 10, true).unwrap();
    assert_eq!(staking.earned(USER1, 10), Ok(0));
    assert_eq!(rwrd_user1, 1000);

    // The second scenario starts its clock at 0 again, on a pool of its own.
    let mut staking = started(100);

    assert_eq!(staking.stake(USER1, 80, 0, true), Ok(()));
    stk_user1 -= 80;
    assert_eq!(staking.stake(USER2, 20, 0, true), Ok(()));
    stk_user2 -= 20;
    assert_eq!(staking.earned(USER1, 0), Ok(0));
    assert_eq!(staking.earned(USER2, 0), Ok(0));
    assert_eq!(staking.tot_supply(), Ok(100));

    // Time = 3: user 3 stakes 100.
    assert_eq!(staking.stake(USER3, 100, 3, true), Ok(()));
    stk_user3 -= 100;
    assert_eq!(staking.earned(USER1, 3), Ok(240));
    assert_eq!(staking.earned(USER2, 3), Ok(60));
    assert_eq!(staking.earned(USER3, 3), Ok(0));

    // Time = 5: user 3 withdraws 100.
    assert_eq!(staking.withdraw(USER3, 100, 5, true), Ok(()));
    stk_user3 += 100;
    assert_eq!(staking.earned(USER1, 5), Ok(320));
    assert_eq!(staking.earned(USER2, 5), Ok(80));
    assert_eq!(staking.earned(USER3, 5), Ok(100));
    assert_eq!(staking.tot_supply(), Ok(100));

    // Time = 7: user 1 stakes 100 more.
    assert_eq!(staking.stake(USER1, 100, 7, true), Ok(()));
    stk_user1 -= 100;
    assert_eq!(staking.earned(USER1, 7), Ok(480));
    assert_eq!(staking.earned(USER2, 7), Ok(120));
    assert_eq!(staking.earned(USER3, 7), Ok(100));
    assert_eq!(staking.tot_supply(), Ok(200));

    // Time = 11: users 1 and 2 withdraw everything.
    assert_eq!(staking.withdraw(USER1, 180, 11, true), Ok(()));
    stk_user1 += 180;
    assert_eq!(staking.withdraw(USER2, 20, 11, true), Ok(()));
    stk_user2 += 20;
    assert_eq!(staking.earned(USER1, 11), Ok(840));
    assert_eq!(staking.earned(USER2, 11), Ok(160));
    assert_eq!(staking.earned(USER3, 11), Ok(100));
    assert_eq!(staking.tot_supply(), Ok(0));

    rwrd_user1 += staking.claim_rwrd(USER1, 11, true).unwrap();
    rwrd_user2 += staking.claim_rwrd(USER2, 11, true).unwrap();
    rwrd_user3 += staking.claim_rwrd(USER3, 11, true).unwrap();

    assert_eq!(staking.earned(USER1, 11), Ok(0));
    assert_eq!(staking.earned(USER2, 11), Ok(0));
    assert_eq!(staking.earned(USER3, 11), Ok(0));
    assert_eq!(rwrd_user1, 1840);
    assert_eq!(rwrd_user2, 160);
    assert_eq!(rwrd_user3, 100);
    assert_eq!(stk_user1, 1000);
    assert_eq!(stk_user2, 5000);
    assert_eq!(stk_user3, 2000);
}

#[test]
fn initialize_twice_is_refused() {
    let mut staking = started(100);
    assert_eq!(
        staking.initialize(STAKING_ASSET, REWARD_ASSET, 7),
        Err(Error::AlreadyInitialized)
    );
    assert_eq!(staking.staking_asset_id(), Ok(STAKING_ASSET));
    assert_eq!(staking.reward_asset_id(), Ok(REWARD_ASSET));
    assert!(staking.initialized());
}

#[test]
fn negative_rate_is_refused() {
    let mut staking = Staking::new();
    assert_eq!(
        staking.initialize(STAKING_ASSET, REWARD_ASSET, -1),
        Err(Error::InvalidAmount)
    );
    assert!(!staking.initialized());
    assert_eq!(Pool::new(-1, 0), Err(Error::InvalidAmount));
}

#[test]
fn operations_before_initialize_are_refused() {
    let mut staking = Staking::new();
    assert_eq!(staking.stake(USER1, 10, 0, true), Err(Error::NotInitialized));
    assert_eq!(staking.withdraw(USER1, 10, 0, true), Err(Error::NotInitialized));
    assert_eq!(staking.claim_rwrd(USER1, 0, true), Err(Error::NotInitialized));
    assert_eq!(staking.earned(USER1, 0), Err(Error::NotInitialized));
    assert_eq!(staking.get_staked(USER1), Err(Error::NotInitialized));
    assert_eq!(staking.tot_supply(), Err(Error::NotInitialized));
    assert_eq!(staking.staking_asset_id(), Err(Error::NotInitialized));
    assert_eq!(staking.reward_asset_id(), Err(Error::NotInitialized));
}

#[test]
fn zero_and_negative_amounts_are_refused() {
    let mut staking = started(100);
    assert_eq!(staking.stake(USER1, 0, 0, true), Err(Error::InvalidAmount));
    assert_eq!(staking.stake(USER1, -5, 0, true), Err(Error::InvalidAmount));
    assert_eq!(staking.withdraw(USER1, 0, 0, true), Err(Error::InvalidAmount));
    assert_eq!(staking.withdraw(USER1, -5, 0, true), Err(Error::InvalidAmount));
    assert_eq!(staking.tot_supply(), Ok(0));
}

#[test]
fn withdrawing_more_than_staked_is_refused() {
    let mut staking = started(100);
    assert_eq!(staking.stake(USER1, 50, 0, true), Ok(()));
    assert_eq!(staking.withdraw(USER1, 51, 1, true), Err(Error::InsufficientBalance));
    assert_eq!(staking.withdraw(USER2, 1, 1, true), Err(Error::InsufficientBalance));
    assert_eq!(staking.get_staked(USER1), Ok(50));
    assert_eq!(staking.tot_supply(), Ok(50));
    assert_eq!(staking.last_update_time(), 0);
}

#[test]
fn a_failed_transfer_records_nothing() {
    let mut staking = started(100);
    assert_eq!(staking.stake(USER1, 50, 0, false), Err(Error::TransferFailed));
    assert_eq!(staking.tot_supply(), Ok(0));
    assert_eq!(staking.stake(USER1, 50, 0, true), Ok(()));
    assert_eq!(staking.withdraw(USER1, 20, 4, false), Err(Error::TransferFailed));
    assert_eq!(staking.get_staked(USER1), Ok(50));
    assert_eq!(staking.last_update_time(), 0);
    assert_eq!(staking.claim_rwrd(USER1, 4, false), Err(Error::TransferFailed));
    assert_eq!(staking.earned(USER1, 4), Ok(400));
    assert_eq!(staking.claim_rwrd(USER1, 4, true), Ok(400));
}

#[test]
fn quantities_out_of_range_are_refused() {
    let mut staking = started(i128::MAX);
    assert_eq!(staking.stake(USER1, 1, 0, true), Ok(()));
    assert_eq!(staking.earned(USER1, 1), Ok(i128::MAX));
    assert_eq!(staking.earned(USER1, 2), Err(Error::Overflow));
    assert_eq!(staking.stake(USER2, 1, 2, true), Err(Error::Overflow));
    assert_eq!(staking.withdraw(USER1, 1, 2, true), Err(Error::Overflow));
    assert_eq!(staking.claim_rwrd(USER1, 2, true), Err(Error::Overflow));
    assert_eq!(staking.tot_supply(), Ok(1));

    let mut staking = started(0);
    assert_eq!(staking.stake(USER1, i128::MAX, 0, true), Ok(()));
    assert_eq!(staking.stake(USER2, 1, 0, true), Err(Error::Overflow));
    assert_eq!(staking.tot_supply(), Ok(i128::MAX));
}

#[test]
fn total_is_the_sum_of_the_balances() {
    let mut staking = started(7);
    let users = [USER1, USER2, USER3];
    let moves: [(usize, i128, bool); 8] = [
        (0, 40, true),
        (1, 25, true),
        (2, 10, true),
        (0, 15, false),
        (1, 5, true),
        (2, 10, false),
        (0, 25, false),
        (1, 30, false),
    ];
    let mut now: u64 = 0;
    for (who, amount, deposit) in moves {
        now += 3;
        if deposit {
            assert_eq!(staking.stake(users[who], amount, now, true), Ok(()));
        } else {
            assert_eq!(staking.withdraw(users[who], amount, now, true), Ok(()));
        }
        let sum: i128 = users.iter().map(|u| staking.get_staked(*u).unwrap()).sum();
        assert_eq!(staking.tot_supply(), Ok(sum));
    }
    assert_eq!(staking.tot_supply(), Ok(0));
}

#[test]
fn accumulator_never_decreases() {
    let mut pool = Pool::new(100, 0).unwrap();
    let mut account = Checkpoint::new();
    let mut last = pool.reward_per_unit_accumulated;
    assert_eq!(pool.stake(&mut account, 30, 0), Ok(()));
    for now in [0u64, 1, 1, 5, 9, 9, 40] {
        assert_eq!(pool.refresh(now), Ok(()));
        assert!(pool.reward_per_unit_accumulated >= last);
        last = pool.reward_per_unit_accumulated;
    }
    // 100 per unit of time over 30 staked: floor(100 / 30) = 3 at t = 1,
    // then floor(400 / 30) = 13, floor(400 / 30) = 13, floor(3100 / 30) = 103.
    assert_eq!(pool.reward_per_unit_accumulated, 3 + 13 + 13 + 103);
    assert_eq!(pool.last_update_time, 40);
}

#[test]
fn emission_over_an_empty_pool_is_dropped() {
    let mut pool = Pool::new(100, 0).unwrap();
    assert_eq!(pool.refresh(50), Ok(()));
    assert_eq!(pool.reward_per_unit_accumulated, 0);
    assert_eq!(pool.last_update_time, 50);
    let mut account = Checkpoint::new();
    assert_eq!(pool.stake(&mut account, 10, 50), Ok(()));
    assert_eq!(pool.earned(&account, 51), Ok(100));
}

#[test]
fn reading_twice_gives_the_same_and_matches_the_claim() {
    let mut pool = Pool::new(9, 0).unwrap();
    let mut account = Checkpoint::new();
    assert_eq!(pool.stake(&mut account, 4, 0), Ok(()));
    let first = pool.earned(&account, 13);
    let second = pool.earned(&account, 13);
    assert_eq!(first, Ok(4 * (13 * 9 / 4)));
    assert_eq!(first, second);
    assert_eq!(pool.claim(&mut account, 13), first);
    assert_eq!(account.staked_balance, 4);
}

#[test]
fn second_claim_pays_nothing() {
    let mut pool = Pool::new(9, 0).unwrap();
    let mut account = Checkpoint::new();
    assert_eq!(pool.stake(&mut account, 4, 0), Ok(()));
    assert_eq!(pool.claim(&mut account, 13), Ok(116));
    assert_eq!(account.reward_accrued, 0);
    assert_eq!(pool.earned(&account, 13), Ok(0));
    assert_eq!(pool.claim(&mut account, 13), Ok(0));
}

#[test]
fn rewards_are_proportional_to_balances() {
    let mut pool = Pool::new(1000, 0).unwrap();
    let mut first = Checkpoint::new();
    let mut second = Checkpoint::new();
    assert_eq!(pool.stake(&mut first, 30, 0), Ok(()));
    assert_eq!(pool.stake(&mut second, 70, 0), Ok(()));
    let e1 = pool.earned(&first, 17).unwrap();
    let e2 = pool.earned(&second, 17).unwrap();
    assert_eq!(e1, 30 * 170);
    assert_eq!(e2, 70 * 170);
    assert_eq!(e1 * 70, e2 * 30);
}

#[test]
fn checkpoint_settles_on_the_balance_before_the_deposit() {
    let mut pool = Pool::new(10, 0).unwrap();
    let mut account = Checkpoint::new();
    assert_eq!(pool.stake(&mut account, 5, 0), Ok(()));
    assert_eq!(pool.stake(&mut account, 5, 10), Ok(()));
    assert_eq!(
        account,
        Checkpoint { staked_balance: 10, reward_accrued: 100, reward_per_unit_paid: 20 }
    );
    assert_eq!(pool.checkpoint(&mut account, 20), Ok(()));
    assert_eq!(
        account,
        Checkpoint { staked_balance: 10, reward_accrued: 200, reward_per_unit_paid: 30 }
    );
    assert_eq!(pool.withdraw(&mut account, 11, 20), Err(Error::InsufficientBalance));
    assert_eq!(pool.stake(&mut account, 0, 20), Err(Error::InvalidAmount));
    assert_eq!(pool.withdraw(&mut account, 10, 20), Ok(()));
    assert_eq!(pool.total_staked, 0);
}

#[test]
fn stored_records_are_checked() {
    let pool = Pool {
        rate: 5,
        total_staked: 10,
        reward_per_unit_accumulated: 7,
        last_update_time: 3,
    };
    assert!(pool.well_formed());
    assert!(!Pool { rate: -5, ..pool }.well_formed());
    assert!(!Pool { total_staked: -1, ..pool }.well_formed());
    let account = Checkpoint { staked_balance: 10, reward_accrued: 0, reward_per_unit_paid: 7 };
    assert!(pool.is_tracking(&account));
    assert!(pool.is_tracking(&Checkpoint::new()));
    assert!(!pool.is_tracking(&Checkpoint { staked_balance: 11, ..account }));
    assert!(!pool.is_tracking(&Checkpoint { reward_per_unit_paid: 8, ..account }));
    assert!(!pool.is_tracking(&Checkpoint { reward_accrued: -1, ..account }));
}

#[test]
fn refused_calls_change_nothing() {
    let mut pool = Pool::new(100, 0).unwrap();
    let mut account = Checkpoint::new();
    assert_eq!(pool.stake(&mut account, 10, 0), Ok(()));
    let (pool_before, account_before) = (pool, account);
    assert_eq!(pool.stake(&mut account, -1, 5), Err(Error::InvalidAmount));
    assert_eq!(pool.withdraw(&mut account, 11, 5), Err(Error::InsufficientBalance));
    assert_eq!(pool.stake(&mut account, i128::MAX, 5), Err(Error::Overflow));
    assert_eq!((pool, account), (pool_before, account_before));
}

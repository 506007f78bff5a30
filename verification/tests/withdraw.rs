use pool::error::Error;
use pool::pool::{ClaimableBalance, Direction, Pool, UserDeposit};
use pool::withdraw::WithdrawReceipt;

fn small_fee_pool() -> Pool {
    Pool::from_init_params(20, 1, 1, 2000, 7, 7, 7)
}

fn funded(amount_sp: u128) -> (Pool, UserDeposit) {
    let mut pool = small_fee_pool();
    let mut user = UserDeposit::default();
    pool.deposit(amount_sp, &mut user).unwrap();
    (pool, user)
}

#[test]
fn deposit_equal_split_from_empty() {
    let mut pool = small_fee_pool();
    let mut user = UserDeposit::default();

    let receipt = pool.deposit(200, &mut user).unwrap();

    assert_eq!(pool.token_a_balance, 100);
    assert_eq!(pool.token_b_balance, 100);
    assert_eq!(pool.d, 200);
    assert_eq!(receipt.lp_amount, 200);
}

#[test]
fn withdraw_symmetric() {
    let (mut pool, mut user) = funded(200);

    let receipt = pool.withdraw(&mut user, 100).unwrap();

    assert_eq!(pool.token_a_balance, 50);
    assert_eq!(pool.token_b_balance, 50);
    assert_eq!(pool.d, 100);
    assert_eq!(pool.reserves, 100);
    assert_eq!(pool.total_lp_amount, 100);
    assert_eq!(
        receipt,
        WithdrawReceipt {
            reward: 0,
            token_a_amount: 500_000,
            token_b_amount: 500_000,
            lp_token_amount: 1_000_000,
        }
    );
    assert_eq!(user, UserDeposit { lp_amount: 100, reward_debt: 0 });
}

#[test]
fn withdraw_shrinks_d_shares_and_reserves() {
    let (mut pool, mut user) = funded(4_000_000);
    let before = pool;

    pool.withdraw(&mut user, 1_234_567).unwrap();

    assert!(pool.d < before.d);
    assert_eq!(pool.total_lp_amount, before.total_lp_amount - 1_234_567);
    assert_eq!(pool.reserves, before.reserves - 1_234_567);
}

#[test]
fn withdraw_pays_rewards_in_both_tokens() {
    let mut pool = Pool::from_init_params(20, 100, 1, 2000, 7, 7, 7);
    let mut user = UserDeposit::default();
    let mut claimable = ClaimableBalance::default();
    pool.deposit(4_000_000, &mut user).unwrap();
    pool.swap(&mut claimable, 100_000, 0, false, false, Direction::A2B).unwrap();

    let receipt = pool.withdraw(&mut user, 1_000_000).unwrap();

    assert_eq!(
        receipt,
        WithdrawReceipt {
            reward: 7_990_239,
            token_a_amount: 5_257_820_239,
            token_b_amount: 4_758_150_239,
            lp_token_amount: 10_000_000_000,
        }
    );
    assert_eq!((pool.token_a_balance, pool.token_b_balance), (1_575_017, 1_425_106));
    assert_eq!(pool.d, 3_000_032);
    assert_eq!(pool.reserves, 3_000_122);
    assert_eq!(user, UserDeposit { lp_amount: 3_000_000, reward_debt: 5_992_679 });
}

#[test]
fn withdraw_uses_each_tokens_own_decimals() {
    let mut pool = Pool::from_init_params(20, 100, 1, 2000, 5, 9, 4);
    let mut user = UserDeposit::default();
    pool.deposit(200_000, &mut user).unwrap();

    let receipt = pool.withdraw(&mut user, 100_000).unwrap();

    assert_eq!(receipt.token_a_amount, 5_000_000);
    assert_eq!(receipt.token_b_amount, 50_000_000_000);
    assert_eq!(receipt.lp_token_amount, 1_000_000);
}

#[test]
fn withdraw_more_than_the_user_holds() {
    let (mut pool, mut user) = funded(200);
    let before = pool;

    assert_eq!(pool.withdraw(&mut user, 201), Err(Error::NotEnoughAmount));
    assert_eq!(pool, before);
    assert_eq!(user, UserDeposit { lp_amount: 200, reward_debt: 0 });
}

#[test]
fn withdraw_of_another_users_shares() {
    let (mut pool, _) = funded(200);
    let mut stranger = UserDeposit::default();

    assert_eq!(pool.withdraw(&mut stranger, 1), Err(Error::NotEnoughAmount));
}

#[test]
fn withdraw_nothing_changes_nothing() {
    let (mut pool, mut user) = funded(200);
    let before = pool;

    assert_eq!(pool.withdraw(&mut user, 0), Err(Error::ZeroChanges));
    assert_eq!(pool.withdraw(&mut user, 1), Err(Error::ZeroChanges));
    assert_eq!(pool, before);
    assert_eq!(pool.withdraw(&mut user, 2).map(|r| r.token_a_amount), Ok(10_000));
    assert_eq!((pool.token_a_balance, pool.token_b_balance, pool.d), (99, 99, 198));
}

#[test]
fn withdraw_from_a_pool_without_balances() {
    let mut pool = small_fee_pool();
    let mut user = UserDeposit::default();

    assert_eq!(pool.withdraw(&mut user, 0), Err(Error::ZeroChanges));
}

#[test]
fn withdraw_beyond_the_reserves() {
    let (mut pool, mut user) = funded(200);
    pool.reserves = 99;
    let before = pool;

    assert_eq!(pool.withdraw(&mut user, 100), Err(Error::ReservesExhausted));
    assert_eq!(pool, before);
    assert_eq!(pool.withdraw(&mut user, 99).map(|r| r.lp_token_amount), Ok(990_000));
    assert_eq!(pool.reserves, 0);
}

#[test]
fn withdraw_beyond_the_balances() {
    let (mut pool, mut user) = funded(200);
    pool.token_a_balance = 10;
    pool.token_b_balance = 10;
    let before = pool;

    assert_eq!(pool.withdraw(&mut user, 100), Err(Error::ReservesExhausted));
    assert_eq!(pool, before);
}

#[test]
fn withdraw_with_unrepresentable_transfer_is_refused() {
    let mut pool = Pool::from_init_params(20, 100, 1, 2000, 7, 7, 7);
    let mut user = UserDeposit::default();
    pool.deposit(200_000, &mut user).unwrap();
    pool.decimals_lp = 60;
    let before = pool;

    assert_eq!(pool.withdraw(&mut user, 100_000), Err(Error::PoolOverflow));
    assert_eq!(pool, before);
    assert_eq!(user.lp_amount, 200_000);
}

#[test]
fn withdraw_does_not_check_the_ratio() {
    let mut pool = Pool::from_init_params(20, 100, 4444, 2000, 7, 7, 7);
    pool.token_a_balance = 90;
    pool.token_b_balance = 40;
    pool.update_d();
    pool.reserves = 1_000;
    pool.total_lp_amount = pool.d;
    let mut user = UserDeposit { lp_amount: pool.d, reward_debt: 0 };
    assert_eq!(pool.validate_balance_ratio(), Ok(()));

    assert!(pool.withdraw(&mut user, 4).is_ok());

    assert_eq!((pool.token_a_balance, pool.token_b_balance), (88, 39));
    assert_eq!(pool.validate_balance_ratio(), Err(Error::BalanceRatioExceeded));
}

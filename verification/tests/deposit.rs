use pool::deposit::DepositReceipt;
use pool::error::Error;
use pool::pool::{ClaimableBalance, Direction, Pool, UserDeposit};

// One token is 10^7 units outside the pool and 10^3 inside.
const TOKEN: u128 = 1_000;

fn float_to_int(amount: f64) -> u128 {
    (amount * 10.0f64.powi(7)) as u128
}

fn float_to_sp(pool: &Pool, amount: f64) -> u128 {
    pool.amount_to_system_precision(float_to_int(amount), 7)
}

fn new_pool() -> Pool {
    Pool::from_init_params(20, 100, 1, 2000, 7, 7, 7)
}

// A pool that holds more of token A than of token B.
fn uneven_pool() -> Pool {
    let mut pool = new_pool();
    let mut admin = UserDeposit::default();
    let mut claimable = ClaimableBalance::default();
    pool.deposit(200 * TOKEN, &mut admin).unwrap();
    pool.swap(&mut claimable, 50 * TOKEN, 0, false, false, Direction::A2B).unwrap();
    pool
}

fn deposit_amounts(
    pool: &mut Pool,
    user: &mut UserDeposit,
    deposits: (f64, f64),
    min_lp_amount: f64,
) -> Result<DepositReceipt, Error> {
    let amount_sp = float_to_sp(pool, deposits.0) + float_to_sp(pool, deposits.1);
    let receipt = pool.deposit(amount_sp, user)?;
    if receipt.lp_amount < float_to_sp(pool, min_lp_amount) {
        return Err(Error::Slippage);
    }
    Ok(receipt)
}

fn invariant_total_lp_less_or_equal_d(pool: &Pool) {
    assert!(pool.total_lp_amount <= pool.d);
}

#[test]
fn deposit_zero_amount() {
    let mut pool = new_pool();
    let mut alice = UserDeposit::default();

    let call_result = deposit_amounts(&mut pool, &mut alice, (0.0, 0.0), 0.0);

    assert_eq!(call_result, Err(Error::ZeroAmount));
    assert_eq!(pool, new_pool());
    assert_eq!(alice, UserDeposit::default());
}

#[test]
fn deposit_slippage() {
    let mut pool = uneven_pool();
    let mut alice = UserDeposit::default();

    let call_result = deposit_amounts(&mut pool, &mut alice, (100.0, 0.0), 100.0);

    assert_eq!(call_result, Err(Error::Slippage));
    assert_eq!(alice.lp_amount, 99_610);
}

#[test]
fn deposit() {
    let mut pool = new_pool();
    let mut alice = UserDeposit::default();

    let deposits = (100.0, 50.0);
    let before = pool;
    let receipt = deposit_amounts(&mut pool, &mut alice, deposits, 150.0).unwrap();
    println!("Deposit: 100 yusd, 50 yaro: {:?} => {:?}", before, pool);

    let expected_lp_amount = float_to_sp(&pool, deposits.0 + deposits.1);

    invariant_total_lp_less_or_equal_d(&pool);
    assert_eq!(
        receipt,
        DepositReceipt {
            reward: 0,
            lp_amount: expected_lp_amount,
            token_a_amount: 750_000_000,
            token_b_amount: 750_000_000,
            lp_token_amount: 1_500_000_000,
        }
    );
    assert_eq!(pool.token_a_balance, 75_000);
    assert_eq!(pool.token_b_balance, 75_000);
    assert_eq!(pool.d, 150_000);
    assert_eq!(pool.reserves, 150_000);
    assert_eq!(pool.total_lp_amount, expected_lp_amount);
    assert_eq!(alice, UserDeposit { lp_amount: expected_lp_amount, reward_debt: 0 });
}

#[test]
fn deposit_disbalance() {
    let mut pool = new_pool();
    let mut alice = UserDeposit::default();

    let deposit = (50_000_000.0, 5_000.0);
    let before = pool;
    let receipt = deposit_amounts(&mut pool, &mut alice, deposit, 0.0).unwrap();
    println!("Deposit: 100 yusd, 50 yaro: {:?} => {:?}", before, pool);

    let expected_lp_amount = pool.total_lp_amount - before.total_lp_amount;

    invariant_total_lp_less_or_equal_d(&pool);
    assert_eq!(receipt.reward, 0);
    assert_eq!(receipt.lp_amount, expected_lp_amount);
    assert_eq!(receipt.lp_amount, 50_005_000_000);
    assert_eq!(receipt.token_a_amount, 250_025_000_000_000);
    assert_eq!(receipt.token_b_amount, 250_025_000_000_000);
    assert_eq!(pool.d, 50_005_000_000);
}

#[test]
fn deposit_with_overflow() {
    let mut pool = new_pool();
    let mut alice = UserDeposit::default();
    assert!(float_to_int(10_000_000_000.0) > 0);

    let deposits = (600_000_000.0, 600_000_000.0);
    let call_result = deposit_amounts(&mut pool, &mut alice, deposits, 0.0);

    assert_eq!(call_result, Err(Error::PoolOverflow));
    assert_eq!(pool, new_pool());
}

#[test]
fn smallest_deposit() {
    let mut pool = new_pool();
    let mut alice = UserDeposit::default();

    let deposits = (0.001, 0.001);
    let before = pool;
    let receipt = deposit_amounts(&mut pool, &mut alice, deposits, 0.001 + 0.001).unwrap();
    println!("Deposit: 0.001 yusd, 0.001 yaro: {:?} => {:?}", before, pool);

    let expected_lp_amount = float_to_sp(&pool, deposits.0 + deposits.1);

    invariant_total_lp_less_or_equal_d(&pool);
    assert_eq!(
        receipt,
        DepositReceipt {
            reward: 0,
            lp_amount: expected_lp_amount,
            token_a_amount: 10_000,
            token_b_amount: 10_000,
            lp_token_amount: 20_000,
        }
    );
    assert_eq!((pool.token_a_balance, pool.token_b_balance, pool.d), (1, 1, 2));
}

#[test]
fn deposit_only_yusd() {
    let mut pool = new_pool();
    let mut alice = UserDeposit::default();

    let deposits = (100.0, 0.0);
    let before = pool;
    let receipt = deposit_amounts(&mut pool, &mut alice, deposits, 99.0).unwrap();
    println!("Deposit: 100 yusd: {:?} => {:?}", before, pool);

    let expected_lp_amount = float_to_sp(&pool, deposits.0 + deposits.1);

    invariant_total_lp_less_or_equal_d(&pool);
    assert_eq!(receipt.reward, 0);
    assert_eq!(receipt.lp_amount, expected_lp_amount);
    assert_eq!(pool.reserves, 100 * TOKEN);
    assert_eq!(alice.lp_amount, expected_lp_amount);
}

#[test]
fn deposit_only_yaro() {
    let mut pool = new_pool();
    let mut alice = UserDeposit::default();

    let deposits = (100.0, 0.0);
    let before = pool;
    let receipt = deposit_amounts(&mut pool, &mut alice, deposits, 99.0).unwrap();
    println!("Deposit: 100 yaro: {:?} => {:?}", before, pool);

    let expected_lp_amount = float_to_sp(&pool, deposits.0 + deposits.1);

    invariant_total_lp_less_or_equal_d(&pool);
    assert_eq!(receipt.reward, 0);
    assert_eq!(receipt.lp_amount, expected_lp_amount);
    assert_eq!(receipt.token_b_amount, 500_000_000);
    assert_eq!(alice.lp_amount, expected_lp_amount);
}

#[test]
fn deposit_twice_in_different_tokens() {
    let mut pool = new_pool();
    let mut alice = UserDeposit::default();

    let before = pool;
    deposit_amounts(&mut pool, &mut alice, (100.0, 0.0), 99.0).unwrap();
    deposit_amounts(&mut pool, &mut alice, (0.0, 100.0), 99.0).unwrap();
    let expected_lp_amount = float_to_sp(&pool, 200.0);
    println!("Deposit: 100 yusd, 100 yaro: {:?} => {:?}", before, pool);

    invariant_total_lp_less_or_equal_d(&pool);
    assert_eq!(alice, UserDeposit { lp_amount: expected_lp_amount, reward_debt: 0 });
    assert_eq!(pool.token_a_balance, 100 * TOKEN);
    assert_eq!(pool.token_b_balance, 100 * TOKEN);
    assert_eq!(pool.d, 200 * TOKEN);
    assert_eq!(pool.reserves, 200 * TOKEN);
}

#[test]
fn get_reward_after_second_deposit() {
    let mut pool = new_pool();
    let mut alice = UserDeposit::default();
    let mut bob_claimable = ClaimableBalance::default();

    let deposits = (2000.0, 2000.0);

    deposit_amounts(&mut pool, &mut alice, deposits, 4000.0).unwrap();
    let first = pool
        .swap(
            &mut bob_claimable,
            float_to_sp(&pool, 100.0),
            float_to_int(98.0),
            false,
            false,
            Direction::A2B,
        )
        .unwrap();
    let second = pool
        .swap(
            &mut bob_claimable,
            float_to_sp(&pool, 100.0),
            float_to_int(99.0),
            false,
            false,
            Direction::B2A,
        )
        .unwrap();
    assert_eq!(first, (988_792_200, 9_987_800));
    assert_eq!(second, (991_207_800, 10_012_200));

    let receipt = deposit_amounts(&mut pool, &mut alice, deposits, 0.0).unwrap();

    let expected_lp_amount = float_to_sp(&pool, deposits.0 + deposits.1);

    invariant_total_lp_less_or_equal_d(&pool);
    assert_eq!(
        receipt,
        DepositReceipt {
            reward: 15_999_999,
            lp_amount: expected_lp_amount,
            token_a_amount: 19_998_780_000,
            token_b_amount: 20_001_220_000,
            lp_token_amount: 40_000_000_000,
        }
    );
    assert_eq!(pool.admin_fee_amount, 4_000_000);
    assert_eq!(pool.acc_reward_per_share_p, 1_125_899_906_842_623);
    assert_eq!(alice, UserDeposit { lp_amount: 8_000_000, reward_debt: 31_999_999 });
    assert_eq!(bob_claimable.amount, 0);
}

#[test]
fn deposit_keeps_the_ratio_of_the_balances() {
    let mut pool = uneven_pool();
    let mut alice = UserDeposit::default();
    assert_eq!((pool.token_a_balance, pool.token_b_balance), (150_000, 50_782));
    let d_before = pool.d;
    let reserves_before = pool.reserves;

    let receipt = pool.deposit(100 * TOKEN, &mut alice).unwrap();

    assert_eq!(receipt.lp_amount, 99_610);
    assert_eq!(receipt.token_a_amount, 747_070_000);
    assert_eq!(receipt.token_b_amount, 252_920_000);
    assert_eq!(receipt.lp_token_amount, 996_100_000);
    assert_eq!((pool.token_a_balance, pool.token_b_balance), (224_707, 76_074));
    assert!(pool.d > d_before);
    assert_eq!(pool.d - d_before, receipt.lp_amount);
    assert_eq!(pool.reserves, reserves_before + 100 * TOKEN);
}

#[test]
fn deposit_pays_pending_rewards() {
    let mut pool = new_pool();
    let mut admin = UserDeposit::default();
    let mut claimable = ClaimableBalance::default();
    pool.deposit(200 * TOKEN, &mut admin).unwrap();
    pool.swap(&mut claimable, 50 * TOKEN, 0, false, false, Direction::A2B).unwrap();

    let receipt = pool.deposit(100 * TOKEN, &mut admin).unwrap();

    assert_eq!(receipt.reward, 3_937_439);
    assert_eq!(pool.claim_rewards(&mut admin), Ok(0));
}

#[test]
fn deposit_just_below_the_ceiling() {
    let mut pool = new_pool();
    let mut alice = UserDeposit::default();

    let receipt = pool.deposit((1 << 40) - 1, &mut alice).unwrap();

    assert_eq!(receipt.lp_amount, 1_099_511_627_774);
    assert_eq!(pool.token_a_balance + pool.token_b_balance, (1 << 40) - 2);
    assert_eq!(pool.reserves, (1 << 40) - 1);
}

#[test]
fn deposit_at_the_ceiling_is_refused() {
    for amount in [1u128 << 40, (1 << 40) + 1, u128::MAX] {
        let mut pool = new_pool();
        let mut alice = UserDeposit::default();
        assert_eq!(pool.deposit(amount, &mut alice), Err(Error::PoolOverflow));
        assert_eq!(pool, new_pool());
    }
}

#[test]
fn deposit_that_moves_nothing_is_refused() {
    let mut pool = new_pool();
    let mut alice = UserDeposit::default();

    assert_eq!(pool.deposit(1, &mut alice), Err(Error::ZeroChanges));
    assert_eq!(pool, new_pool());
}

#[test]
fn deposit_out_of_ratio_is_refused() {
    let mut pool = Pool::from_init_params(20, 100, 5000, 2000, 7, 7, 7);
    pool.token_a_balance = 200_100;
    pool.token_b_balance = 100_000;
    pool.d = 1;
    let mut alice = UserDeposit::default();
    let before = pool;

    assert_eq!(pool.deposit(3_000, &mut alice), Err(Error::BalanceRatioExceeded));
    assert_eq!(pool, before);
}

#[test]
fn deposit_with_unrepresentable_transfer_is_refused() {
    let mut pool = Pool::from_init_params(20, 100, 1, 2000, 45, 7, 7);
    let mut alice = UserDeposit::default();

    assert_eq!(pool.deposit(200 * TOKEN, &mut alice), Err(Error::PoolOverflow));
    assert_eq!(pool, Pool::from_init_params(20, 100, 1, 2000, 45, 7, 7));
}

#[test]
fn deposit_with_few_decimals_rounds_transfers_down() {
    let mut pool = Pool::from_init_params(20, 100, 1, 2000, 1, 3, 5);
    let mut alice = UserDeposit::default();

    let receipt = pool.deposit(2_469, &mut alice).unwrap();

    assert_eq!(receipt.lp_amount, 2_468);
    assert_eq!(receipt.token_a_amount, 12);
    assert_eq!(receipt.token_b_amount, 1_234);
    assert_eq!(receipt.lp_token_amount, 246_800);
}

use pool::error::Error;
use pool::pool::{ClaimableBalance, Direction, Pool, Tokens, UserDeposit};

fn balanced(fee_share_bp: u128, balance_ratio_min_bp: u128, amount_sp: u128) -> Pool {
    let mut pool = Pool::from_init_params(20, fee_share_bp, balance_ratio_min_bp, 2000, 7, 7, 7);
    let mut user = UserDeposit::default();
    pool.deposit(amount_sp, &mut user).unwrap();
    pool
}

#[test]
fn swap_of_nothing() {
    let mut pool = balanced(1, 1, 40_000);
    let mut claimable = ClaimableBalance { amount: 5 };
    let before = pool;

    let paid = pool.swap(&mut claimable, 0, 1_000, false, true, Direction::A2B);

    assert_eq!(paid, Ok((0, 0)));
    assert_eq!(pool, before);
    assert_eq!(claimable.amount, 5);
}

#[test]
fn swap_a_to_b() {
    let mut pool = balanced(1, 1, 40_000);
    let mut claimable = ClaimableBalance::default();

    let paid = pool.swap(&mut claimable, 1_000, 0, false, false, Direction::A2B);

    assert_eq!(paid, Ok((9_989_001, 999)));
    assert_eq!((pool.token_a_balance, pool.token_b_balance), (21_000, 19_001));
    // 1000 came in and 999 went out, in system precision
    assert_eq!(pool.token_a_balance + pool.token_b_balance - 40_000, 1_000 - 999);
    assert_eq!(9_989_001 + 999, 999 * 10_000);
    assert_eq!(pool.d, 40_000);
    assert_eq!(pool.reserves, 40_001);
    assert_eq!(pool.total_lp_amount, 40_000);
    assert_eq!(pool.acc_reward_per_share_p, 5_629_499_534_213);
    assert_eq!(pool.admin_fee_amount, 199);
    assert_eq!(claimable.amount, 0);
}

#[test]
fn swap_b_to_a_mirrors_a_to_b() {
    let mut pool = balanced(1, 1, 40_000);
    let mut claimable = ClaimableBalance::default();

    let paid = pool.swap(&mut claimable, 1_000, 0, false, false, Direction::B2A);

    assert_eq!(paid, Ok((9_989_001, 999)));
    assert_eq!((pool.token_a_balance, pool.token_b_balance), (19_001, 21_000));
}

#[test]
fn swap_converts_with_the_decimals_of_the_token_paid_out() {
    let mut pool = Pool::from_init_params(20, 0, 1, 2000, 7, 5, 7);
    let mut user = UserDeposit::default();
    let mut claimable = ClaimableBalance::default();
    pool.deposit(40_000, &mut user).unwrap();

    assert_eq!(
        pool.swap(&mut claimable, 1_000, 0, false, false, Direction::A2B),
        Ok((99_900, 0))
    );
    assert_eq!(
        pool.swap(&mut claimable, 4_000, 0, false, false, Direction::B2A),
        Ok((39_900_000, 0))
    );
}

#[test]
fn swap_without_fee() {
    let mut pool = balanced(1, 1, 40_000);
    let mut claimable = ClaimableBalance::default();

    let paid = pool.swap(&mut claimable, 1_000, 0, true, false, Direction::A2B);

    assert_eq!(paid, Ok((9_990_000, 0)));
    assert_eq!(pool.acc_reward_per_share_p, 0);
    assert_eq!(pool.admin_fee_amount, 0);
}

#[test]
fn swap_into_claimable_balance() {
    let mut pool = balanced(1, 1, 40_000);
    let mut claimable = ClaimableBalance { amount: 11 };

    let paid = pool.swap(&mut claimable, 1_000, 0, false, true, Direction::A2B);

    assert_eq!(paid, Ok((9_989_001, 999)));
    assert_eq!(claimable.amount, 9_989_012);
}

#[test]
fn swap_round_trip() {
    let mut pool = balanced(1, 1, 40_000);
    let mut claimable = ClaimableBalance::default();
    let d_before = pool.d;

    let (result, fee) = pool.swap(&mut claimable, 1_000, 0, false, false, Direction::A2B).unwrap();
    assert_eq!((result, fee), (9_989_001, 999));
    let received_sp = pool.amount_to_system_precision(result, 7);
    assert_eq!(received_sp, 998);
    // the way back leaves token B below token A, so that nothing is paid
    let back = pool.swap(&mut claimable, received_sp, 0, false, false, Direction::B2A);

    assert_eq!(back, Ok((0, 0)));
    assert_eq!((pool.token_a_balance, pool.token_b_balance), (20_001, 19_999));
    assert_eq!(pool.reserves, 40_999);
    assert!(pool.d >= d_before);
}

#[test]
fn swap_below_the_minimum() {
    let mut pool = balanced(1, 1, 40_000);
    let mut claimable = ClaimableBalance::default();
    let before = pool;

    let paid = pool.swap(&mut claimable, 1_000, 9_989_002, false, true, Direction::A2B);

    assert_eq!(paid, Err(Error::InsufficientReceivedAmount));
    assert_eq!(pool, before);
    assert_eq!(claimable.amount, 0);
    assert_eq!(
        pool.swap(&mut claimable, 1_000, 9_989_001, false, true, Direction::A2B),
        Ok((9_989_001, 999))
    );
}

#[test]
fn swap_ratio_at_the_floor_and_below() {
    let start = balanced(100, 5000, 200_000);

    let mut pool = start;
    let mut claimable = ClaimableBalance::default();
    assert!(pool.swap(&mut claimable, 33_535, 0, false, false, Direction::A2B).is_ok());
    assert_eq!((pool.token_a_balance, pool.token_b_balance), (133_535, 66_768));
    assert_eq!(pool.validate_balance_ratio(), Ok(()));

    let mut pool = start;
    assert_eq!(
        pool.swap(&mut claimable, 33_536, 0, false, false, Direction::A2B),
        Err(Error::BalanceRatioExceeded)
    );
    assert_eq!(pool, start);
}

#[test]
fn swap_beyond_the_reserves() {
    let mut pool = balanced(1, 1, 40_000);
    let mut claimable = ClaimableBalance::default();
    pool.reserves = 998;
    let before = pool;

    assert_eq!(
        pool.swap(&mut claimable, 1_000, 0, false, false, Direction::A2B),
        Err(Error::ReservesExhausted)
    );
    assert_eq!(pool, before);
    pool.reserves = 999;
    assert!(pool.swap(&mut claimable, 1_000, 0, false, false, Direction::A2B).is_ok());
    assert_eq!(pool.reserves, 1_000);
}

#[test]
fn swap_to_the_ceiling() {
    let mut pool = balanced(1, 1, 40_000);
    let mut claimable = ClaimableBalance::default();
    let before = pool;

    for amount in [(1u128 << 40) - 20_000, 1 << 40, u128::MAX] {
        assert_eq!(
            pool.swap(&mut claimable, amount, 0, false, false, Direction::B2A),
            Err(Error::PoolOverflow)
        );
        assert_eq!(pool, before);
    }
}

#[test]
fn swap_that_would_raise_the_other_balance() {
    let mut pool = balanced(1, 1, 40_000);
    let mut claimable = ClaimableBalance::default();
    pool.token_a_balance = 20_500;
    pool.token_b_balance = 18_000;
    let before = pool;

    assert_eq!(
        pool.swap(&mut claimable, 500, 0, false, false, Direction::A2B),
        Err(Error::InsufficientReceivedAmount)
    );
    assert_eq!(pool, before);
}

#[test]
fn swap_with_full_claimable_balance() {
    let mut pool = balanced(1, 1, 40_000);
    let mut claimable = ClaimableBalance { amount: u128::MAX - 9_989_000 };
    let before = pool;

    assert_eq!(
        pool.swap(&mut claimable, 1_000, 0, false, true, Direction::A2B),
        Err(Error::PoolOverflow)
    );
    assert_eq!(pool, before);
    assert_eq!(claimable.amount, u128::MAX - 9_989_000);
    claimable.amount -= 1;
    assert!(pool.swap(&mut claimable, 1_000, 0, false, true, Direction::A2B).is_ok());
    assert_eq!(claimable.amount, u128::MAX);
}

#[test]
fn swap_keeps_shares_backed() {
    let mut pool = balanced(30, 1, 4_000_000);
    let mut user = UserDeposit::default();
    let mut claimable = ClaimableBalance::default();
    let mut amount: u128 = 1;
    let mut a_to_b = true;
    while amount < 400_000 {
        let direction = if a_to_b { Direction::A2B } else { Direction::B2A };
        let _ = pool.swap(&mut claimable, amount, 0, false, true, direction);
        assert!(pool.total_lp_amount <= pool.d);
        let _ = pool.deposit(amount * 3, &mut user);
        assert!(pool.total_lp_amount <= pool.d);
        assert!(pool.token_a_balance + pool.token_b_balance < 1 << 40);
        amount = amount * 3 + 1;
        a_to_b = !a_to_b;
    }
}

#[test]
fn direction_to_tokens() {
    assert_eq!(Direction::A2B.to_tokens(), (Tokens::TokenA, Tokens::TokenB));
    assert_eq!(Direction::B2A.to_tokens(), (Tokens::TokenB, Tokens::TokenA));
}

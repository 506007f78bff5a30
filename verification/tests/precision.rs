use pool::pool::Pool;
use pool::precision::{
    checked_from_system, checked_pow10, checked_to_system, scale_down, scale_up,
};

fn any_pool() -> Pool {
    Pool::from_init_params(20, 100, 1, 2000, 7, 7, 7)
}

#[test]
fn to_system_drops_what_is_below_three_decimals() {
    let pool = any_pool();
    assert_eq!(pool.amount_to_system_precision(1_234_567_890, 7), 123_456);
    assert_eq!(pool.amount_to_system_precision(9_999, 7), 0);
    assert_eq!(pool.amount_to_system_precision(10_000, 7), 1);
    assert_eq!(pool.amount_to_system_precision(123, 3), 123);
    assert_eq!(pool.amount_to_system_precision(123, 1), 12_300);
    assert_eq!(pool.amount_to_system_precision(123, 0), 123_000);
}

#[test]
fn from_system_is_the_other_way() {
    let pool = any_pool();
    assert_eq!(pool.amount_from_system_precision(123_456, 7), 1_234_560_000);
    assert_eq!(pool.amount_from_system_precision(123, 3), 123);
    assert_eq!(pool.amount_from_system_precision(12_345, 1), 123);
    assert_eq!(pool.amount_from_system_precision(12_345, 0), 12);
    assert_eq!(pool.amount_from_system_precision(0, 4_000_000), 0);
}

#[test]
fn round_trip_through_system_precision() {
    let pool = any_pool();
    for decimals in 0..=3u32 {
        for amount in [0u128, 1, 7, 999, 1_000, 123_456_789] {
            let inside = pool.amount_to_system_precision(amount, decimals);
            assert_eq!(pool.amount_from_system_precision(inside, decimals), amount);
        }
    }
    for decimals in 4..=12u32 {
        for amount in [0u128, 1, 7, 999, 1_000, 123_456_789, 98_765_432_123_456_789] {
            let inside = pool.amount_to_system_precision(amount, decimals);
            let unit = 10u128.pow(decimals - 3);
            assert_eq!(
                pool.amount_from_system_precision(inside, decimals),
                amount - amount % unit
            );
        }
    }
}

#[test]
fn powers_of_ten() {
    assert_eq!(checked_pow10(0), Some(1));
    assert_eq!(checked_pow10(4), Some(10_000));
    assert_eq!(checked_pow10(38), Some(100_000_000_000_000_000_000_000_000_000_000_000_000));
    assert_eq!(checked_pow10(39), None);
    assert_eq!(checked_pow10(u32::MAX), None);
}

#[test]
fn scaling_at_the_edge_of_128_bits() {
    assert_eq!(scale_up(34, 37), Some(340_000_000_000_000_000_000_000_000_000_000_000_000));
    assert_eq!(scale_up(35, 37), None);
    assert_eq!(scale_up(0, 1_000), Some(0));
    assert_eq!(scale_up(1, 39), None);
    assert_eq!(scale_down(u128::MAX, 38), 3);
    assert_eq!(scale_down(u128::MAX, 39), 0);
    assert_eq!(scale_down(u128::MAX, 1_000), 0);
    assert_eq!(checked_to_system(u128::MAX, 2), None);
    assert_eq!(checked_to_system(u128::MAX, 3), Some(u128::MAX));
    assert_eq!(checked_to_system(5, 0), Some(5_000));
    assert_eq!(checked_from_system(u128::MAX, 4), None);
    assert_eq!(checked_from_system(u128::MAX, 3), Some(u128::MAX));
    assert_eq!(checked_from_system(5, 6), Some(5_000));
}

//! Conversion between a token's own decimal precision and the precision in
//! which the pool keeps its books.

use vstd::prelude::*;
use vstd::arithmetic::div_mod::{lemma_basic_div, lemma_div_multiples_vanish,
    lemma_fundamental_div_mod};

verus! {

/// The number of decimals of every amount inside the pool.
pub const SYSTEM_PRECISION: u32 = 3;

/// 10^k.
pub open spec fn pow10(k: nat) -> nat
    decreases k,
{
    if k == 0 {
        1
    } else {
        10 * pow10((k - 1) as nat)
    }
}

/// An amount with `decimals` decimals, brought to system precision: digits
/// beyond the third decimal are dropped.
pub open spec fn to_system(amount: nat, decimals: nat) -> nat {
    if decimals > 3 {
        amount / pow10((decimals - 3) as nat)
    } else {
        amount * pow10((3 - decimals) as nat)
    }
}

/// An amount in system precision, brought to `decimals` decimals.
pub open spec fn from_system(amount: nat, decimals: nat) -> nat {
    if decimals > 3 {
        amount * pow10((decimals - 3) as nat)
    } else {
        amount / pow10((3 - decimals) as nat)
    }
}

/// Powers of ten are positive and grow with the exponent.
pub proof fn lemma_pow10_monotonic(j: nat, k: nat)
    requires
        j <= k,
    ensures
        0 < pow10(j) <= pow10(k),
    decreases k,
{
    if k == 0 {
    } else if j == k {
        lemma_pow10_monotonic((j - 1) as nat, (k - 1) as nat);
    } else {
        lemma_pow10_monotonic(j, (k - 1) as nat);
    }
}

/// Going to system precision and back gives the amount again where the
/// token has at most three decimals, and otherwise the amount without what
/// lies below the third decimal.
pub proof fn lemma_system_round_trip(amount: nat, decimals: nat)
    ensures
        decimals <= 3 ==> from_system(to_system(amount, decimals), decimals) == amount,
        decimals > 3 ==> from_system(to_system(amount, decimals), decimals) == amount - amount
            % pow10((decimals - 3) as nat),
{
    if decimals <= 3 {
        let p = pow10((3 - decimals) as nat);
        lemma_pow10_monotonic(0, (3 - decimals) as nat);
        lemma_div_multiples_vanish(amount as int, p as int);
        assert(amount * p == p * amount) by (nonlinear_arith);
    } else {
        let p = pow10((decimals - 3) as nat);
        lemma_pow10_monotonic(0, (decimals - 3) as nat);
        lemma_fundamental_div_mod(amount as int, p as int);
        assert((amount / p) * p == p * (amount / p)) by (nonlinear_arith);
    }
}

/// 10^k, or `None` where that does not fit in 128 bits.
pub fn checked_pow10(k: u32) -> (r: Option<u128>)
    ensures
        match r {
            Some(p) => p == pow10(k as nat),
            None => pow10(k as nat) > u128::MAX,
        },
{
    let mut p: u128 = 1;
    let mut i: u32 = 0;
    while i < k
        invariant
            i <= k,
            p == pow10(i as nat),
        decreases k - i,
    {
        match p.checked_mul(10) {
            Some(v) => {
                p = v;
            },
            None => {
                proof {
                    lemma_pow10_monotonic((i + 1) as nat, k as nat);
                }
                return None;
            },
        }
        i = i + 1;
    }
    Some(p)
}

/// `amount * 10^k`, or `None` where that does not fit in 128 bits.
pub fn scale_up(amount: u128, k: u32) -> (r: Option<u128>)
    ensures
        match r {
            Some(v) => v == amount * pow10(k as nat),
            None => amount * pow10(k as nat) > u128::MAX,
        },
{
    if amount == 0 {
        assert(0 * pow10(k as nat) == 0) by (nonlinear_arith);
        return Some(0);
    }
    match checked_pow10(k) {
        Some(p) => amount.checked_mul(p),
        None => {
            assert(amount * pow10(k as nat) >= pow10(k as nat)) by (nonlinear_arith)
                requires
                    amount >= 1,
            ;
            None
        },
    }
}

/// `amount / 10^k`, rounded down.
pub fn scale_down(amount: u128, k: u32) -> (r: u128)
    ensures
        r == amount as nat / pow10(k as nat),
{
    proof {
        lemma_pow10_monotonic(0, k as nat);
    }
    match checked_pow10(k) {
        Some(p) => amount / p,
        None => {
            proof {
                lemma_basic_div(amount as int, pow10(k as nat) as int);
            }
            0
        },
    }
}

/// `to_system(amount, decimals)`, or `None` where that does not fit in 128
/// bits.
pub fn checked_to_system(amount: u128, decimals: u32) -> (r: Option<u128>)
    ensures
        match r {
            Some(v) => v == to_system(amount as nat, decimals as nat),
            None => to_system(amount as nat, decimals as nat) > u128::MAX,
        },
{
    if decimals > SYSTEM_PRECISION {
        Some(scale_down(amount, decimals - SYSTEM_PRECISION))
    } else {
        scale_up(amount, SYSTEM_PRECISION - decimals)
    }
}

/// `from_system(amount, decimals)`, or `None` where that does not fit in
/// 128 bits.
pub fn checked_from_system(amount: u128, decimals: u32) -> (r: Option<u128>)
    ensures
        match r {
            Some(v) => v == from_system(amount as nat, decimals as nat),
            None => from_system(amount as nat, decimals as nat) > u128::MAX,
        },
{
    if decimals > SYSTEM_PRECISION {
        scale_up(amount, decimals - SYSTEM_PRECISION)
    } else {
        Some(scale_down(amount, SYSTEM_PRECISION - decimals))
    }
}

} // verus!

//! Integer square and cube roots of 256-bit values, by Newton's iteration.

use vstd::prelude::*;
use vstd::arithmetic::power2::{pow2, lemma2_to64, lemma2_to64_rest, lemma_pow2_adds,
    lemma_pow2_pos, lemma_pow2_strictly_increases};
use vstd::arithmetic::div_mod::lemma_fundamental_div_mod;
use crate::uint256::{U256, wide_limit, word_base, wide_add, wide_div, wide_gt,
    wide_leading_zeros, wide_mul, wide_shl};

verus! {

/// `r` is the square root of `n`, rounded down.
pub open spec fn is_sqrt(n: nat, r: nat) -> bool {
    r * r <= n < (r + 1) * (r + 1)
}

/// `r` is the cube root of `n`, rounded down.
pub open spec fn is_cbrt(n: nat, r: nat) -> bool {
    r * r * r <= n < (r + 1) * (r + 1) * (r + 1)
}

/// The square root of `n`, rounded down.
pub open spec fn isqrt(n: nat) -> nat {
    choose|r: nat| is_sqrt(n, r)
}

/// The cube root of `n`, rounded down.
pub open spec fn icbrt(n: nat) -> nat {
    choose|r: nat| is_cbrt(n, r)
}

proof fn sqrt_witness(n: nat) -> (r: nat)
    ensures
        is_sqrt(n, r),
    decreases n,
{
    if n == 0 {
        assert(is_sqrt(0, 0)) by (nonlinear_arith);
        0
    } else {
        let r = sqrt_witness((n - 1) as nat);
        let r1 = r + 1;
        if r1 * r1 <= n {
            assert((r1 + 1) * (r1 + 1) > r1 * r1 + 1) by (nonlinear_arith)
                requires
                    r1 >= 1,
            ;
            r1
        } else {
            r
        }
    }
}

proof fn cbrt_witness(n: nat) -> (r: nat)
    ensures
        is_cbrt(n, r),
    decreases n,
{
    if n == 0 {
        assert(is_cbrt(0, 0)) by (nonlinear_arith);
        0
    } else {
        let r = cbrt_witness((n - 1) as nat);
        let r1 = r + 1;
        if r1 * r1 * r1 <= n {
            assert((r1 + 1) * (r1 + 1) * (r1 + 1) > r1 * r1 * r1 + 1) by (nonlinear_arith)
                requires
                    r1 >= 1,
            ;
            r1
        } else {
            r
        }
    }
}

/// Every natural number has exactly one rounded-down square root, and
/// `isqrt` is it.
pub proof fn lemma_isqrt(n: nat)
    ensures
        is_sqrt(n, isqrt(n)),
        forall|r: nat| is_sqrt(n, r) ==> r == isqrt(n),
{
    let w = sqrt_witness(n);
    assert(is_sqrt(n, w));
    assert forall|r: nat| is_sqrt(n, r) implies r == isqrt(n) by {
        lemma_sqrt_unique(n, r, isqrt(n));
    }
}

/// Every natural number has exactly one rounded-down cube root, and `icbrt`
/// is it.
pub proof fn lemma_icbrt(n: nat)
    ensures
        is_cbrt(n, icbrt(n)),
        forall|r: nat| is_cbrt(n, r) ==> r == icbrt(n),
{
    let w = cbrt_witness(n);
    assert(is_cbrt(n, w));
    assert forall|r: nat| is_cbrt(n, r) implies r == icbrt(n) by {
        lemma_cbrt_unique(n, r, icbrt(n));
    }
}

/// A number that brackets `n` between its square and the next square is
/// the square root of `n`.
pub proof fn lemma_isqrt_is(n: nat, r: nat)
    requires
        is_sqrt(n, r),
    ensures
        isqrt(n) == r,
{
    lemma_isqrt(n);
}

/// A number that brackets `n` between its cube and the next cube is the
/// cube root of `n`.
pub proof fn lemma_icbrt_is(n: nat, r: nat)
    requires
        is_cbrt(n, r),
    ensures
        icbrt(n) == r,
{
    lemma_icbrt(n);
}

/// Squaring keeps the order of natural numbers.
pub proof fn lemma_square_le(a: nat, b: nat)
    requires
        a <= b,
    ensures
        a * a <= b * b,
{
    assert(a * a <= b * b) by (nonlinear_arith)
        requires
            a <= b,
    ;
}

/// Cubing keeps the order of natural numbers.
pub proof fn lemma_cube_le(a: nat, b: nat)
    requires
        a <= b,
    ensures
        a * a * a <= b * b * b,
{
    assert(a * a <= b * b) by (nonlinear_arith)
        requires
            a <= b,
    ;
    assert(a * a * a <= b * b * b) by (nonlinear_arith)
        requires
            a <= b,
            a * a <= b * b,
    ;
}

/// Two rounded-down square roots of one number are equal.
pub proof fn lemma_sqrt_unique(n: nat, r1: nat, r2: nat)
    requires
        is_sqrt(n, r1),
        is_sqrt(n, r2),
    ensures
        r1 == r2,
{
    if r1 < r2 {
        lemma_square_le(r1 + 1, r2);
    } else if r2 < r1 {
        lemma_square_le(r2 + 1, r1);
    }
}

/// Two rounded-down cube roots of one number are equal.
pub proof fn lemma_cbrt_unique(n: nat, r1: nat, r2: nat)
    requires
        is_cbrt(n, r1),
        is_cbrt(n, r2),
    ensures
        r1 == r2,
{
    if r1 < r2 {
        lemma_cube_le(r1 + 1, r2);
    } else if r2 < r1 {
        lemma_cube_le(r2 + 1, r1);
    }
}

/// The rounded-down square root never decreases as its argument grows.
pub proof fn lemma_isqrt_monotonic(m: nat, n: nat)
    requires
        m <= n,
    ensures
        isqrt(m) <= isqrt(n),
{
    lemma_isqrt(m);
    lemma_isqrt(n);
    if isqrt(n) < isqrt(m) {
        lemma_square_le(isqrt(n) + 1, isqrt(m));
    }
}

/// The rounded-down cube root never decreases as its argument grows.
pub proof fn lemma_icbrt_monotonic(m: nat, n: nat)
    requires
        m <= n,
    ensures
        icbrt(m) <= icbrt(n),
{
    lemma_icbrt(m);
    lemma_icbrt(n);
    if icbrt(n) < icbrt(m) {
        lemma_cube_le(icbrt(n) + 1, icbrt(m));
    }
}

/// A number whose square exceeds `n` exceeds the square root of `n`.
pub proof fn lemma_isqrt_below(n: nat, b: nat)
    requires
        n < b * b,
    ensures
        isqrt(n) < b,
{
    lemma_isqrt(n);
    if isqrt(n) >= b {
        lemma_square_le(b, isqrt(n));
    }
}

/// A number whose cube exceeds `n` exceeds the cube root of `n`.
pub proof fn lemma_icbrt_below(n: nat, b: nat)
    requires
        n < b * b * b,
    ensures
        icbrt(n) < b,
{
    lemma_icbrt(n);
    if icbrt(n) >= b {
        lemma_cube_le(b, icbrt(n));
    }
}

/// A number with square root zero is zero.
pub proof fn lemma_isqrt_zero(n: nat)
    ensures
        isqrt(n) == 0 <==> n == 0,
{
    lemma_isqrt(n);
    assert(is_sqrt(0, 0)) by (nonlinear_arith);
    if isqrt(n) == 0 {
        assert(n < 1) by (nonlinear_arith)
            requires
                n < (0 + 1) * (0 + 1),
        ;
    }
}

/// A number with cube root zero is zero.
pub proof fn lemma_icbrt_zero(n: nat)
    ensures
        icbrt(n) == 0 <==> n == 0,
{
    lemma_icbrt(n);
    assert(is_cbrt(0, 0)) by (nonlinear_arith);
    if icbrt(n) == 0 {
        assert(n < 1) by (nonlinear_arith)
            requires
                n < (0 + 1) * (0 + 1) * (0 + 1),
        ;
    }
}

/// The square root of a perfect square.
pub proof fn lemma_isqrt_of_square(r: nat)
    ensures
        isqrt(r * r) == r,
{
    lemma_isqrt(r * r);
    assert(r * r < (r + 1) * (r + 1)) by (nonlinear_arith);
    assert(is_sqrt(r * r, r));
}

// One Newton step for the square root, taken from an estimate that is not
// below the root, gives an estimate that is not below the root.
proof fn lemma_sqrt_step(n: nat, r: nat, c: nat)
    requires
        r > 0,
        c * c <= n,
    ensures
        (r + n / r) / 2 >= c,
{
    let q = n / r;
    lemma_fundamental_div_mod(n as int, r as int);
    assert(n < (q + 1) * r) by (nonlinear_arith)
        requires
            n == r * q + (n as int) % (r as int),
            0 <= (n as int) % (r as int) < r,
    ;
    if r + q < 2 * c {
        assert((q + 1) * r <= c * c) by (nonlinear_arith)
            requires
                q + 1 + r <= 2 * c,
                r > 0,
        ;
    }
}

// One Newton step for the cube root, taken from an estimate that is not
// below the root, gives an estimate that is not below the root.
proof fn lemma_cbrt_step(n: nat, r: nat, c: nat)
    requires
        r > 0,
        c * c * c <= n,
    ensures
        (2 * r + n / (r * r)) / 3 >= c,
{
    let rr = r * r;
    assert(rr > 0) by (nonlinear_arith)
        requires
            rr == r * r,
            r > 0,
    ;
    let q = n / rr;
    lemma_fundamental_div_mod(n as int, rr as int);
    assert(n < (q + 1) * rr) by (nonlinear_arith)
        requires
            n == rr * q + (n as int) % (rr as int),
            0 <= (n as int) % (rr as int) < rr,
    ;
    if 2 * r + q < 3 * c {
        // (q + 1) <= 3c - 2r, and (3c - 2r) r^2 <= c^3 as
        // c^3 - 3 c r^2 + 2 r^3 == (c - r)^2 (c + 2r).
        let k: int = 3 * c - 2 * r;
        assert((q + 1) * rr <= k * rr) by (nonlinear_arith)
            requires
                q + 1 <= k,
                rr > 0,
        ;
        assert(k * rr <= c * c * c) by (nonlinear_arith)
            requires
                k == 3 * c - 2 * r,
                rr == r * r,
                r > 0,
                c >= 0,
        {
            assert(c * c * c - (3 * c - 2 * r) * (r * r) == (c - r) * (c - r) * (c + 2 * r));
            assert((c - r) * (c - r) >= 0);
            assert((c - r) * (c - r) * (c + 2 * r) >= 0);
        }
    }
}

/// The powers of two that bound the words of a `U256`.
pub proof fn lemma_pow2_words()
    ensures
        pow2(64) == 0x1_0000_0000_0000_0000,
        pow2(128) == word_base(),
        pow2(256) == wide_limit(),
{
    lemma2_to64();
    lemma2_to64_rest();
    lemma_pow2_adds(64, 64);
    lemma_pow2_adds(128, 128);
    assert(0x1_0000_0000_0000_0000nat * 0x1_0000_0000_0000_0000nat == word_base())
        by (nonlinear_arith);
    assert(word_base() * word_base() == wide_limit()) by (nonlinear_arith);
}

// 2^e for e <= f is at most 2^f.
proof fn lemma_pow2_le(e: nat, f: nat)
    requires
        e <= f,
    ensures
        pow2(e) <= pow2(f),
{
    if e < f {
        lemma_pow2_strictly_increases(e, f);
    }
}

/// The square root of `n`, rounded down: the largest `r` with `r * r <= n`.
pub fn sqrt(n: &U256) -> (r: U256)
    ensures
        r@ == isqrt(n@),
        is_sqrt(n@, r@),
        r@ < word_base(),
{
    proof {
        lemma_isqrt(n@);
        lemma_pow2_words();
        assert(n@ < wide_limit());
        lemma_isqrt_below(n@, word_base());
        lemma_isqrt_zero(n@);
    }
    if n.is_zero() {
        return U256::new(0);
    }
    let zeros: u32 = wide_leading_zeros(n);
    let bits: u32 = 256 - zeros;
    let shift: u32 = (bits + 1) / 2;
    let one = U256::new(1);
    let two = U256::new(2);
    proof {
        lemma_pow2_le(shift as nat, 128);
        lemma_pow2_pos(shift as nat);
        lemma_pow2_adds(shift as nat, shift as nat);
        lemma_pow2_le(bits as nat, (shift + shift) as nat);
        lemma_isqrt_below(n@, pow2(shift as nat));
    }
    let mut r = wide_shl(&one, shift);
    loop
        invariant
            0 < r@ <= word_base(),
            r@ >= isqrt(n@),
            is_sqrt(n@, isqrt(n@)),
            two@ == 2,
            isqrt(n@) < word_base(),
            n@ > 0,
        decreases r@,
    {
        let q = wide_div(n, &r);
        if !wide_gt(&r, &q) {
            proof {
                let c = isqrt(n@);
                lemma_fundamental_div_mod(n@ as int, r@ as int);
                assert(r@ * r@ <= n@) by (nonlinear_arith)
                    requires
                        n@ == r@ * q@ + (n@ as int) % (r@ as int),
                        0 <= (n@ as int) % (r@ as int),
                        q@ >= r@,
                ;
                if r@ > c {
                    lemma_square_le(c + 1, r@);
                }
            }
            return r;
        }
        let s = wide_add(&r, &q);
        let t = wide_div(&s, &two);
        proof {
            lemma_sqrt_step(n@, r@, isqrt(n@));
            lemma_isqrt_zero(n@);
        }
        r = t;
    }
}

/// The cube root of `n`, rounded down: the largest `r` with
/// `r * r * r <= n`.
pub fn cbrt(n: &U256) -> (r: u128)
    ensures
        r == icbrt(n@),
        is_cbrt(n@, r as nat),
        r < pow2(86),
{
    proof {
        lemma_icbrt(n@);
        lemma_pow2_words();
        lemma_pow2_adds(86, 86);
        lemma_pow2_adds(172, 86);
        lemma_pow2_le(256, 258);
        lemma_pow2_le(86, 128);
        lemma_pow2_le(172, 256);
        lemma_icbrt_below(n@, pow2(86));
        lemma_icbrt_zero(n@);
        lemma_pow2_strictly_increases(172, 256);
    }
    if n.is_zero() {
        return 0;
    }
    let zeros: u32 = wide_leading_zeros(n);
    let bits: u32 = 256 - zeros;
    let shift: u32 = (bits + 2) / 3;
    let one = U256::new(1);
    let two = U256::new(2);
    let three = U256::new(3);
    proof {
        lemma_pow2_le(shift as nat, 86);
        lemma_pow2_pos(shift as nat);
        lemma_pow2_adds(shift as nat, shift as nat);
        lemma_pow2_adds((shift + shift) as nat, shift as nat);
        lemma_pow2_le(bits as nat, (shift + shift + shift) as nat);
        lemma_icbrt_below(n@, pow2(shift as nat));
    }
    let mut r = wide_shl(&one, shift);
    loop
        invariant
            0 < r@ <= pow2(86),
            r@ >= icbrt(n@),
            is_cbrt(n@, icbrt(n@)),
            two@ == 2,
            three@ == 3,
            icbrt(n@) < pow2(86),
            pow2(86) * pow2(86) == pow2(172),
            pow2(172) < wide_limit(),
            pow2(86) <= word_base(),
            n@ > 0,
        decreases r@,
    {
        proof {
            lemma_square_le(r@, pow2(86));
            assert(r@ * r@ > 0) by (nonlinear_arith)
                requires
                    r@ > 0,
            ;
        }
        let rr = wide_mul(&r, &r);
        let q = wide_div(n, &rr);
        if !wide_gt(&r, &q) {
            proof {
                let c = icbrt(n@);
                lemma_fundamental_div_mod(n@ as int, rr@ as int);
                assert(r@ * r@ * r@ <= n@) by (nonlinear_arith)
                    requires
                        n@ == rr@ * q@ + (n@ as int) % (rr@ as int),
                        0 <= (n@ as int) % (rr@ as int),
                        rr@ == r@ * r@,
                        q@ >= r@,
                ;
                if r@ > c {
                    lemma_cube_le(c + 1, r@);
                }
            }
            return r.as_u128();
        }
        let d = wide_mul(&two, &r);
        let s = wide_add(&d, &q);
        let t = wide_div(&s, &three);
        proof {
            lemma_cbrt_step(n@, r@, icbrt(n@));
            lemma_icbrt_zero(n@);
        }
        r = t;
    }
}

} // verus!

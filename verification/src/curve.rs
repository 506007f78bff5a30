//! The stable-swap bonding curve: the invariant D of two balances, and the
//! balance y that keeps D for a given balance x.

use vstd::prelude::*;
use vstd::arithmetic::div_mod::lemma_div_denominator;
use crate::num::{cbrt, icbrt, isqrt, lemma_cube_le, lemma_icbrt, lemma_icbrt_below,
    lemma_icbrt_monotonic, lemma_icbrt_zero, lemma_isqrt, lemma_isqrt_below,
    lemma_isqrt_monotonic, lemma_isqrt_of_square, lemma_pow2_words, lemma_square_le, sqrt};
use crate::uint256::{lemma_word_product, U256, wide_limit, word_base, wide_add, wide_div,
    wide_gt, wide_mul, wide_sub};

verus! {

/// `A * x * y * (x + y)`.
pub open spec fn curve_p1(a: nat, x: nat, y: nat) -> nat {
    a * (x + y) * (x * y)
}

/// `x * y * (4A - 1) / 3`, rounded down.
pub open spec fn curve_p2(a: nat, x: nat, y: nat) -> int {
    ((x * y) * (4 * a - 1)) / 3
}

/// `p1^2 + p2^3`, of which the curve takes the square root.
pub open spec fn curve_radicand(a: nat, x: nat, y: nat) -> int {
    curve_p1(a, x, y) * curve_p1(a, x, y) + curve_p2(a, x, y) * curve_p2(a, x, y) * curve_p2(
        a,
        x,
        y,
    )
}

/// `sqrt(p1^2 + p2^3)`, rounded down.
pub open spec fn curve_p3(a: nat, x: nat, y: nat) -> nat {
    isqrt(curve_radicand(a, x, y) as nat)
}

/// The invariant of the balances `x` and `y` under amplification `a`:
/// `2 * (cbrt(p1 + p3) + cbrt(p1 - p3))` where `p1 > p3`, and
/// `2 * (cbrt(p1 + p3) - cbrt(p3 - p1))` otherwise, each root rounded down.
pub open spec fn curve_d(a: nat, x: nat, y: nat) -> int {
    let p1 = curve_p1(a, x, y);
    let p3 = curve_p3(a, x, y);
    if p1 > p3 {
        2 * (icbrt(p1 + p3) + icbrt((p1 - p3) as nat)) as int
    } else {
        2 * (icbrt(p1 + p3) - icbrt((p3 - p1) as nat))
    }
}

/// The balances for which the curve can be computed in 256 bits: the
/// amplification is positive and `p1^2 + p2^3` is below 2^256.
pub open spec fn curve_d_fits(a: nat, x: nat, y: nat) -> bool {
    a >= 1 && curve_radicand(a, x, y) < wide_limit()
}

/// One more than the largest invariant that fits: 2^44.
pub open spec fn d_limit() -> nat {
    0x1000_0000_0000
}

// a <= b and c <= d give a * c <= b * d.
proof fn lemma_mul_le(a: nat, b: nat, c: nat, d: nat)
    requires
        a <= b,
        c <= d,
    ensures
        a * c <= b * d,
{
    assert(a * c <= b * d) by (nonlinear_arith)
        requires
            a <= b,
            c <= d,
    ;
}

// A number whose square is below 2^256 is below 2^128.
proof fn lemma_square_below_limit(v: nat)
    requires
        v * v < wide_limit(),
    ensures
        v < word_base(),
{
    if v >= word_base() {
        lemma_square_le(word_base(), v);
        assert(word_base() * word_base() == wide_limit()) by (nonlinear_arith);
    }
}

// A number whose cube is below 2^256 is below 2^86.
proof fn lemma_cube_below_limit(v: nat)
    requires
        v * v * v < wide_limit(),
    ensures
        v < 0x40_0000_0000_0000_0000_0000,
{
    let b: nat = 0x40_0000_0000_0000_0000_0000;
    if v >= b {
        lemma_cube_le(b, v);
        assert(b * b * b >= wide_limit()) by (nonlinear_arith)
            requires
                b == 0x40_0000_0000_0000_0000_0000,
        ;
    }
}

/// The invariant of an empty side: with `x * y == 0` every term of the
/// curve is zero.
pub proof fn lemma_curve_d_empty(a: nat, x: nat, y: nat)
    requires
        x == 0 || y == 0,
    ensures
        curve_p1(a, x, y) == 0,
        curve_p2(a, x, y) == 0,
        curve_radicand(a, x, y) == 0,
        curve_d(a, x, y) == 0,
{
    assert(x * y == 0) by (nonlinear_arith)
        requires
            x == 0 || y == 0,
    ;
    assert(a * (x + y) * 0 == 0) by (nonlinear_arith);
    assert(0 * (4 * a - 1) == 0) by (nonlinear_arith);
    assert(curve_p1(a, x, y) == 0);
    assert(curve_p2(a, x, y) == 0);
    assert(curve_radicand(a, x, y) == 0) by (nonlinear_arith)
        requires
            curve_radicand(a, x, y) == 0 * 0 + 0 * 0 * 0,
    ;
    lemma_isqrt_of_square(0);
    assert(0nat * 0nat == 0) by (nonlinear_arith);
    assert(curve_p3(a, x, y) == 0);
    lemma_icbrt(0);
}

/// What the terms of the curve are bounded by where it fits in 256 bits
/// and both balances are positive.
pub proof fn lemma_curve_terms(a: nat, x: nat, y: nat)
    requires
        curve_d_fits(a, x, y),
        x >= 1,
        y >= 1,
    ensures
        x * y >= 1,
        a * (x + y) <= curve_p1(a, x, y) < word_base(),
        0 <= curve_p2(a, x, y) < 0x40_0000_0000_0000_0000_0000,
        (x * y) * (4 * a - 1) < 0x100_0000_0000_0000_0000_0000,
        curve_p1(a, x, y) * curve_p1(a, x, y) <= curve_radicand(a, x, y),
        0 <= curve_p2(a, x, y) * curve_p2(a, x, y) < wide_limit(),
        0 <= curve_p2(a, x, y) * curve_p2(a, x, y) * curve_p2(a, x, y) <= curve_radicand(
            a,
            x,
            y,
        ),
        curve_p1(a, x, y) <= curve_p3(a, x, y) < word_base(),
{
    let xy = x * y;
    let p1 = curve_p1(a, x, y);
    let p2 = curve_p2(a, x, y);
    let t = xy * (4 * a - 1);
    assert(xy >= 1) by (nonlinear_arith)
        requires
            xy == x * y,
            x >= 1,
            y >= 1,
    ;
    assert(t >= 0) by (nonlinear_arith)
        requires
            t == xy * (4 * a - 1),
            xy >= 1,
            a >= 1,
    ;
    assert(p2 >= 0);
    assert(p2 * p2 >= 0 && p2 * p2 * p2 >= 0) by (nonlinear_arith)
        requires
            p2 >= 0,
    ;
    assert(p1 * p1 >= 0) by (nonlinear_arith);
    assert(a * (x + y) <= p1) by (nonlinear_arith)
        requires
            p1 == a * (x + y) * xy,
            xy >= 1,
    ;
    lemma_square_below_limit(p1);
    lemma_cube_below_limit(p2 as nat);
    assert(p2 * p2 < wide_limit()) by (nonlinear_arith)
        requires
            0 <= p2 < 0x40_0000_0000_0000_0000_0000,
            wide_limit()
                == 0x1_0000_0000_0000_0000_0000_0000_0000_0000_0000_0000_0000_0000_0000_0000_0000_0000,
    ;
    lemma_isqrt(curve_radicand(a, x, y) as nat);
    lemma_isqrt_monotonic(p1 * p1, curve_radicand(a, x, y) as nat);
    lemma_isqrt_of_square(p1);
    assert(word_base() * word_base() == wide_limit()) by (nonlinear_arith);
    lemma_isqrt_below(curve_radicand(a, x, y) as nat, word_base());
}

/// Where the curve fits in 256 bits, the invariant is not negative and
/// below 2^44.
pub proof fn lemma_curve_d_bound(a: nat, x: nat, y: nat)
    requires
        curve_d_fits(a, x, y),
    ensures
        0 <= curve_d(a, x, y) < d_limit(),
{
    if x == 0 || y == 0 {
        lemma_curve_d_empty(a, x, y);
    } else {
        lemma_curve_terms(a, x, y);
        let p1 = curve_p1(a, x, y);
        let p3 = curve_p3(a, x, y);
        let b: nat = 0x800_0000_0000;
        assert(b * b * b == word_base() + word_base()) by (nonlinear_arith)
            requires
                b == 0x800_0000_0000,
        ;
        lemma_icbrt_below(p1 + p3, b);
        lemma_icbrt_monotonic((p3 - p1) as nat, p1 + p3);
    }
}

/// As one balance grows beside the other, no term under the curve's roots
/// shrinks, nor does the first of its two cube roots: `p1`, `p2`, `p3` and
/// `cbrt(p1 + p3)` at `x1` are at least what they are at `x2 <= x1`.
pub proof fn lemma_curve_terms_grow(a: nat, x1: nat, x2: nat, y: nat)
    requires
        a >= 1,
        x2 <= x1,
    ensures
        curve_p1(a, x2, y) <= curve_p1(a, x1, y),
        0 <= curve_p2(a, x2, y) <= curve_p2(a, x1, y),
        0 <= curve_radicand(a, x2, y) <= curve_radicand(a, x1, y),
        curve_p3(a, x2, y) <= curve_p3(a, x1, y),
        icbrt(curve_p1(a, x2, y) + curve_p3(a, x2, y)) <= icbrt(
            curve_p1(a, x1, y) + curve_p3(a, x1, y),
        ),
{
    let p1a = curve_p1(a, x1, y);
    let p1b = curve_p1(a, x2, y);
    let ta = (x1 * y) * (4 * a - 1);
    let tb = (x2 * y) * (4 * a - 1);
    assert(x2 * y <= x1 * y) by (nonlinear_arith)
        requires
            x2 <= x1,
    ;
    assert(a * (x2 + y) <= a * (x1 + y)) by (nonlinear_arith)
        requires
            x2 <= x1,
    ;
    lemma_mul_le(a * (x2 + y), a * (x1 + y), x2 * y, x1 * y);
    assert(0 <= tb <= ta) by (nonlinear_arith)
        requires
            tb == (x2 * y) * (4 * a - 1),
            ta == (x1 * y) * (4 * a - 1),
            0 <= x2 * y <= x1 * y,
            a >= 1,
    ;
    let p2a = curve_p2(a, x1, y);
    let p2b = curve_p2(a, x2, y);
    assert(0 <= p2b <= p2a);
    assert(p1b * p1b <= p1a * p1a) by (nonlinear_arith)
        requires
            0 <= p1b <= p1a,
    ;
    assert(0 <= p2b * p2b * p2b <= p2a * p2a * p2a) by (nonlinear_arith)
        requires
            0 <= p2b <= p2a,
    {
        assert(p2b * p2b <= p2a * p2a);
        assert(0 <= p2b * p2b);
    }
    assert(0 <= p1b * p1b) by (nonlinear_arith);
    lemma_isqrt_monotonic(curve_radicand(a, x2, y) as nat, curve_radicand(a, x1, y) as nat);
    lemma_icbrt_monotonic(p1b + curve_p3(a, x2, y), p1a + curve_p3(a, x1, y));
}

/// The invariant of `x` and `y` under amplification `a`.
pub fn compute_d(a: u128, x: u128, y: u128) -> (d: u128)
    requires
        curve_d_fits(a as nat, x as nat, y as nat),
    ensures
        d == curve_d(a as nat, x as nat, y as nat),
        d < d_limit(),
{
    if x == 0 || y == 0 {
        proof {
            lemma_curve_d_empty(a as nat, x as nat, y as nat);
        }
        return 0;
    }
    proof {
        lemma_curve_terms(a as nat, x as nat, y as nat);
        lemma_pow2_words();
    }
    let ghost p1s = curve_p1(a as nat, x as nat, y as nat);
    let ghost p2s = curve_p2(a as nat, x as nat, y as nat);
    let ghost p3s = curve_p3(a as nat, x as nat, y as nat);
    let wx = U256::new(x);
    let wy = U256::new(y);
    let wa = U256::new(a);
    proof {
        lemma_word_product(wx@, wy@);
    }
    let xy = wide_mul(&wx, &wy);
    let sum = wide_add(&wx, &wy);
    let a_sum = wide_mul(&wa, &sum);
    let p1 = wide_mul(&a_sum, &xy);
    assert(p1@ == p1s);
    // xy(4A - 1) / 3
    let four = U256::new(4);
    let one = U256::new(1);
    let three = U256::new(3);
    let a4 = wide_mul(&four, &wa);
    let a4m1 = wide_sub(&a4, &one);
    let t = wide_mul(&xy, &a4m1);
    let p2 = wide_div(&t, &three);
    assert(p2@ == p2s);
    // sqrt(p1^2 + p2^3)
    let p1_sq = wide_mul(&p1, &p1);
    let p2_sq = wide_mul(&p2, &p2);
    let p2_cu = wide_mul(&p2_sq, &p2);
    let radicand = wide_add(&p1_sq, &p2_cu);
    let p3 = sqrt(&radicand);
    assert(p3@ == p3s);
    // cbrt(p1 + p3) +- cbrt(|p1 - p3|)
    let upper = wide_add(&p1, &p3);
    let c1 = cbrt(&upper);
    proof {
        let b: nat = 0x800_0000_0000;
        assert(b * b * b == word_base() + word_base()) by (nonlinear_arith)
            requires
                b == 0x800_0000_0000,
        ;
        lemma_icbrt_below(upper@, b);
    }
    let d = if wide_gt(&p3, &p1) {
        let lower = wide_sub(&p3, &p1);
        let c2 = cbrt(&lower);
        proof {
            lemma_icbrt_monotonic(lower@, upper@);
        }
        c1 - c2
    } else {
        let lower = wide_sub(&p1, &p3);
        let c2 = cbrt(&lower);
        proof {
            lemma_icbrt_zero(0);
        }
        c1 + c2
    };
    d * 2
}

/// `4A(D - x) - D`, which is negative for large `x`.
pub open spec fn curve_part1(a: nat, d: nat, x: nat) -> int {
    4 * a * (d - x) - d
}

/// `x * (4A D^3 + x * part1^2)`, of which the curve takes the square root.
pub open spec fn curve_part2(a: nat, d: nat, x: nat) -> int {
    x * (4 * a * (d * d * d) + x * (curve_part1(a, d, x) * curve_part1(a, d, x)))
}

/// The balance that keeps the invariant `d` beside the balance `x`:
/// `(sqrt(part2) + x * part1) / (8A x)`, root and quotient rounded down.
pub open spec fn curve_y(a: nat, d: nat, x: nat) -> int {
    (isqrt(curve_part2(a, d, x) as nat) + x * curve_part1(a, d, x)) / ((8 * a * x) as int)
}

/// The arguments for which `curve_y` can be computed in 256 bits:
/// amplification and balance are positive and `part2` is below 2^256.
pub open spec fn curve_y_fits(a: nat, d: nat, x: nat) -> bool {
    a >= 1 && x >= 1 && curve_part2(a, d, x) < wide_limit()
}

// The size of `part1`.
spec fn part1_abs(a: nat, d: nat, x: nat) -> nat {
    if curve_part1(a, d, x) < 0 {
        (-curve_part1(a, d, x)) as nat
    } else {
        curve_part1(a, d, x) as nat
    }
}

// What the terms of `curve_y` are bounded by where it fits in 256 bits.
proof fn lemma_curve_y_terms(a: nat, d: nat, x: nat)
    requires
        curve_y_fits(a, d, x),
    ensures
        part1_abs(a, d, x) < word_base(),
        part1_abs(a, d, x) * part1_abs(a, d, x) == curve_part1(a, d, x) * curve_part1(a, d, x),
        part1_abs(a, d, x) * part1_abs(a, d, x) <= x * (part1_abs(a, d, x) * part1_abs(a, d, x))
            <= 4 * a * (d * d * d) + x * (part1_abs(a, d, x) * part1_abs(a, d, x))
            <= curve_part2(a, d, x),
        d * d <= curve_part2(a, d, x),
        d * d * d <= 4 * a * (d * d * d) <= curve_part2(a, d, x),
        4 * a * x <= curve_part2(a, d, x) || 4 * a * x < word_base(),
        x * part1_abs(a, d, x) <= isqrt(curve_part2(a, d, x) as nat) < word_base(),
        curve_part2(a, d, x) >= 0,
{
    let p = curve_part1(a, d, x);
    let q = part1_abs(a, d, x);
    let d3 = d * d * d;
    let part2 = curve_part2(a, d, x);
    assert(q * q == p * p) by (nonlinear_arith)
        requires
            q == p || q == -p,
    ;
    assert(d3 >= 0 && d * d >= 0 && (d >= 1 ==> d3 >= d * d && d3 >= 1)) by (nonlinear_arith)
        requires
            d3 == d * d * d,
    ;
    let ad = 4 * a * d3;
    assert(ad >= d3 && ad >= 0) by (nonlinear_arith)
        requires
            ad == 4 * a * d3,
            a >= 1,
            d3 >= 0,
    ;
    let qq = q * q;
    assert(qq >= 0) by (nonlinear_arith)
        requires
            qq == q * q,
    ;
    let xq = x * qq;
    assert(xq >= qq) by (nonlinear_arith)
        requires
            xq == x * qq,
            x >= 1,
            qq >= 0,
    ;
    let inner = ad + xq;
    assert(part2 == x * inner);
    assert(x * inner >= inner) by (nonlinear_arith)
        requires
            x >= 1,
            inner >= 0,
    ;
    assert(x * inner >= x * xq) by (nonlinear_arith)
        requires
            x >= 1,
            inner >= xq,
    ;
    lemma_square_below_limit(q);
    if d >= 1 {
        assert(4 * a * x <= x * inner) by (nonlinear_arith)
            requires
                inner >= 4 * a * d3,
                d3 >= 1,
                x >= 1,
                a >= 1,
        ;
    } else {
        assert(p == -(4 * a * x)) by (nonlinear_arith)
            requires
                p == 4 * a * (d - x) - d,
                d == 0,
        ;
    }
    // (x q)^2 <= part2
    let r = x * q;
    assert(r * r == x * xq) by (nonlinear_arith)
        requires
            r == x * q,
            xq == x * (q * q),
    ;
    lemma_isqrt_of_square(r);
    lemma_isqrt_monotonic(r * r, part2 as nat);
    assert(word_base() * word_base() == wide_limit()) by (nonlinear_arith);
    lemma_isqrt_below(part2 as nat, word_base());
}

/// The balance that keeps the invariant `d` beside the balance `x`, under
/// amplification `a`.
pub fn compute_y(a: u128, d: u128, x: u128) -> (y: u128)
    requires
        curve_y_fits(a as nat, d as nat, x as nat),
    ensures
        y == curve_y(a as nat, d as nat, x as nat),
{
    proof {
        lemma_curve_y_terms(a as nat, d as nat, x as nat);
        lemma_pow2_words();
    }
    let ghost p = curve_part1(a as nat, d as nat, x as nat);
    let ghost q = part1_abs(a as nat, d as nat, x as nat);
    let wa = U256::new(a);
    let wd = U256::new(d);
    let wx = U256::new(x);
    let two = U256::new(2);
    let four = U256::new(4);
    let a4 = wide_mul(&four, &wa);
    // part1 = 4A(D - x) - D, as a size and a sign
    let part1: U256;
    let negative: bool;
    if d >= x {
        let diff = U256::new(d - x);
        assert(a4@ * diff@ == p + d) by (nonlinear_arith)
            requires
                a4@ == 4 * a,
                diff@ == d - x,
                p == 4 * a * (d - x) - d,
        ;
        let m = wide_mul(&a4, &diff);
        if wide_gt(&wd, &m) {
            part1 = wide_sub(&wd, &m);
            negative = true;
        } else {
            part1 = wide_sub(&m, &wd);
            negative = false;
        }
    } else {
        let diff = U256::new(x - d);
        assert(a4@ * diff@ == -p - d) by (nonlinear_arith)
            requires
                a4@ == 4 * a,
                diff@ == x - d,
                p == 4 * a * (d - x) - d,
        ;
        let m = wide_mul(&a4, &diff);
        part1 = wide_add(&m, &wd);
        negative = true;
    }
    assert(part1@ == q);
    assert(negative ==> p == -q);
    assert(!negative ==> p == q);
    // part2 = x (4A D^3 + x part1^2)
    let sq = wide_mul(&part1, &part1);
    let x_sq = wide_mul(&wx, &sq);
    let dd = wide_mul(&wd, &wd);
    let ddd = wide_mul(&dd, &wd);
    let ad = wide_mul(&a4, &ddd);
    let inner = wide_add(&ad, &x_sq);
    let part2 = wide_mul(&wx, &inner);
    assert(part2@ == curve_part2(a as nat, d as nat, x as nat));
    let root = sqrt(&part2);
    // (sqrt(part2) + x part1) / 8Ax
    assert(wx@ * part1@ == x * q);
    let x_part1 = wide_mul(&wx, &part1);
    let numerator = if negative {
        wide_sub(&root, &x_part1)
    } else {
        wide_add(&root, &x_part1)
    };
    assert(numerator@ == root@ + x * p) by (nonlinear_arith)
        requires
            numerator@ == if negative {
                root@ - x * q
            } else {
                root@ + x * q
            },
            negative ==> p == -q,
            !negative ==> p == q,
    ;
    assert(a4@ * wx@ == 4 * a * x);
    assert(0 < 4 * a * x) by (nonlinear_arith)
        requires
            a >= 1,
            x >= 1,
    ;
    let a4x = wide_mul(&a4, &wx);
    let half = wide_div(&numerator, &a4x);
    let y = wide_div(&half, &two);
    proof {
        lemma_div_denominator(numerator@ as int, a4x@ as int, 2);
        assert((4 * a * x) * 2 == 8 * a * x) by (nonlinear_arith);
        // the quotient is no more than its numerator, which is below 2^129
        assert(half@ <= numerator@) by (nonlinear_arith)
            requires
                half@ == numerator@ / a4x@,
                a4x@ >= 1,
        ;
    }
    y.as_u128()
}

} // verus!

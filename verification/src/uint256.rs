//! A 256-bit unsigned integer as two 128-bit words, with the arithmetic done
//! by the `ethnum` crate.

use vstd::prelude::*;
use vstd::arithmetic::power2::pow2;

verus! {

/// 2^128: the weight of the high word.
pub open spec fn word_base() -> nat {
    0x1_0000_0000_0000_0000_0000_0000_0000_0000nat
}

/// 2^256: one more than the largest value a `U256` holds.
pub open spec fn wide_limit() -> nat {
    0x1_0000_0000_0000_0000_0000_0000_0000_0000_0000_0000_0000_0000_0000_0000_0000_0000nat
}

/// A 256-bit unsigned integer, `hi * 2^128 + lo`.
#[derive(Clone, Copy, Debug)]
pub struct U256 {
    pub hi: u128,
    pub lo: u128,
}

impl View for U256 {
    type V = nat;

    open spec fn view(&self) -> nat {
        self.hi as nat * word_base() + self.lo as nat
    }
}

impl U256 {
    /// The value `value`, widened.
    pub fn new(value: u128) -> (r: U256)
        ensures
            r@ == value,
    {
        U256 { hi: 0, lo: value }
    }

    /// Whether the value is zero.
    pub fn is_zero(&self) -> (r: bool)
        ensures
            r == (self@ == 0),
    {
        self.hi == 0 && self.lo == 0
    }

    /// Whether the value fits in 128 bits.
    pub fn fits_u128(&self) -> (r: bool)
        ensures
            r == (self@ <= u128::MAX),
    {
        self.hi == 0
    }

    /// The low 128 bits.
    pub fn as_u128(&self) -> (r: u128)
        ensures
            r as nat == self@ % word_base(),
            self@ <= u128::MAX ==> r == self@,
    {
        self.lo
    }
}

/// `&U256 + &U256` of `ethnum`: the sum, for operands whose sum fits in 256
/// bits (on others the outside addition panics or wraps, by build).
#[verifier::external_body]
pub(crate) fn wide_add(a: &U256, b: &U256) -> (r: U256)
    requires
        a@ + b@ < wide_limit(),
    ensures
        r@ == a@ + b@,
{
    let s = ethnum::U256::from_words(a.hi, a.lo) + ethnum::U256::from_words(b.hi, b.lo);
    let (hi, lo) = s.into_words();
    U256 { hi, lo }
}

/// `&U256 - &U256` of `ethnum`: the difference, for `a >= b`.
#[verifier::external_body]
pub(crate) fn wide_sub(a: &U256, b: &U256) -> (r: U256)
    requires
        a@ >= b@,
    ensures
        r@ == a@ - b@,
{
    let s = ethnum::U256::from_words(a.hi, a.lo) - ethnum::U256::from_words(b.hi, b.lo);
    let (hi, lo) = s.into_words();
    U256 { hi, lo }
}

/// `&U256 * &U256` of `ethnum`: the product, for operands whose product fits
/// in 256 bits.
#[verifier::external_body]
pub(crate) fn wide_mul(a: &U256, b: &U256) -> (r: U256)
    requires
        a@ * b@ < wide_limit(),
    ensures
        r@ == a@ * b@,
{
    let p = ethnum::U256::from_words(a.hi, a.lo) * ethnum::U256::from_words(b.hi, b.lo);
    let (hi, lo) = p.into_words();
    U256 { hi, lo }
}

/// `&U256 / &U256` of `ethnum`: the quotient rounded down, for a divisor
/// that is not zero.
#[verifier::external_body]
pub(crate) fn wide_div(a: &U256, b: &U256) -> (r: U256)
    requires
        b@ > 0,
    ensures
        r@ == a@ / b@,
{
    let q = ethnum::U256::from_words(a.hi, a.lo) / ethnum::U256::from_words(b.hi, b.lo);
    let (hi, lo) = q.into_words();
    U256 { hi, lo }
}

/// `U256 << u32` of `ethnum`, for a shift below 256 that pushes no set bit
/// out: the value times 2^shift.
#[verifier::external_body]
pub(crate) fn wide_shl(a: &U256, shift: u32) -> (r: U256)
    requires
        shift < 256,
        a@ * pow2(shift as nat) < wide_limit(),
    ensures
        r@ == a@ * pow2(shift as nat),
{
    let s = ethnum::U256::from_words(a.hi, a.lo) << shift;
    let (hi, lo) = s.into_words();
    U256 { hi, lo }
}

/// `U256::leading_zeros` of `ethnum`: 256 for zero; otherwise the count `z`
/// of zero bits above the highest set bit, so that
/// `2^(255 - z) <= a < 2^(256 - z)`.
#[verifier::external_body]
pub(crate) fn wide_leading_zeros(a: &U256) -> (r: u32)
    ensures
        r <= 256,
        a@ == 0 <==> r == 256,
        a@ > 0 ==> pow2((255 - r) as nat) <= a@ < pow2((256 - r) as nat),
{
    ethnum::U256::from_words(a.hi, a.lo).leading_zeros()
}

/// `U256 > U256` of `ethnum`: the order of the values.
#[verifier::external_body]
pub(crate) fn wide_gt(a: &U256, b: &U256) -> (r: bool)
    ensures
        r == (a@ > b@),
{
    ethnum::U256::from_words(a.hi, a.lo) > ethnum::U256::from_words(b.hi, b.lo)
}

/// The product of two values below 2^128 is below 2^256.
pub proof fn lemma_word_product(a: nat, b: nat)
    requires
        a < word_base(),
        b < word_base(),
    ensures
        a * b < wide_limit(),
{
    assert(a * b < 0x1_0000_0000_0000_0000_0000_0000_0000_0000nat
        * 0x1_0000_0000_0000_0000_0000_0000_0000_0000nat) by (nonlinear_arith)
        requires
            a < 0x1_0000_0000_0000_0000_0000_0000_0000_0000nat,
            b < 0x1_0000_0000_0000_0000_0000_0000_0000_0000nat,
    ;
    assert(word_base() * word_base() == wide_limit()) by (nonlinear_arith);
}

/// `a * b / c`, rounded down, with the product taken in 256 bits; `None`
/// where the quotient does not fit in 128 bits.
pub fn mul_div(a: u128, b: u128, c: u128) -> (r: Option<u128>)
    requires
        c > 0,
    ensures
        match r {
            Some(v) => v == (a * b) / (c as int),
            None => (a * b) / (c as int) > u128::MAX,
        },
{
    let wa = U256::new(a);
    let wb = U256::new(b);
    let wc = U256::new(c);
    proof {
        lemma_word_product(wa@, wb@);
    }
    let product = wide_mul(&wa, &wb);
    let quotient = wide_div(&product, &wc);
    if quotient.fits_u128() {
        Some(quotient.as_u128())
    } else {
        None
    }
}

} // verus!

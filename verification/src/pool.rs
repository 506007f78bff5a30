//! The pool record, its limits, and what makes a record valid.

use vstd::prelude::*;
use crate::curve::{curve_d, curve_d_fits, curve_p1, curve_p2, curve_part1, curve_part2, curve_y,
    curve_y_fits, compute_d, compute_y, d_limit};
use crate::uint256::wide_limit;
use crate::error::Error;
use crate::precision::{checked_from_system, checked_to_system, from_system, to_system};
use crate::uint256::mul_div;

verus! {

/// The ceiling of the two balances together: 2^40.
pub const MAX_TOKEN_BALANCE: u128 = 0x100_0000_0000;

/// The number of basis points in one.
pub const BP: u128 = 10000;

/// The number of fraction bits of the reward accumulator.
pub const P: u128 = 48;

/// The largest amplification for which the curve fits in 256 bits at every
/// pair of balances below the ceiling.
pub const MAX_A: u128 = 120;

/// 2^48: the scale of the reward accumulator.
pub open spec fn reward_scale() -> nat {
    0x1_0000_0000_0000
}

/// One of the pool's two tokens.
#[derive(Clone, Copy, Debug, PartialEq, Eq, Structural)]
pub enum Tokens {
    TokenA,
    TokenB,
}

/// The direction of a swap.
#[derive(Clone, Copy, Debug, PartialEq, Eq, Structural)]
pub enum Direction {
    A2B,
    B2A,
}

impl Direction {
    /// The token that the swap takes in, and the token that it pays out.
    pub open spec fn tokens(self) -> (Tokens, Tokens) {
        match self {
            Direction::A2B => (Tokens::TokenA, Tokens::TokenB),
            Direction::B2A => (Tokens::TokenB, Tokens::TokenA),
        }
    }

    /// The token that the swap takes in, and the token that it pays out.
    pub fn to_tokens(&self) -> (r: (Tokens, Tokens))
        ensures
            r == self.tokens(),
            r.0 != r.1,
    {
        match self {
            Direction::A2B => (Tokens::TokenA, Tokens::TokenB),
            Direction::B2A => (Tokens::TokenB, Tokens::TokenA),
        }
    }
}

/// The liquidity pool. All amounts but the rewards are in system precision.
#[derive(Clone, Copy, Debug, PartialEq, Eq, Structural)]
pub struct Pool {
    /// Amplification of the curve.
    pub a: u128,
    /// The fee on a swap's output, in basis points.
    pub fee_share_bp: u128,
    /// The least allowed ratio of the smaller balance to the larger, in
    /// basis points.
    pub balance_ratio_min_bp: u128,
    /// The part of each fee that goes to the administrator, in basis points.
    pub admin_fee_share_bp: u128,
    /// The invariant as last computed.
    pub d: u128,
    /// Balance of token A.
    pub token_a_balance: u128,
    /// Balance of token B.
    pub token_b_balance: u128,
    /// Deposits less withdrawals, plus swapped in less swapped out.
    pub reserves: u128,
    /// The shares held by all users together.
    pub total_lp_amount: u128,
    /// Rewards paid per share so far, scaled by 2^48.
    pub acc_reward_per_share_p: u128,
    /// Rewards set aside for the administrator.
    pub admin_fee_amount: u128,
    /// Decimals of token A outside the pool.
    pub decimals_a: u32,
    /// Decimals of token B outside the pool.
    pub decimals_b: u32,
    /// Decimals of the share token outside the pool.
    pub decimals_lp: u32,
}

/// What one user holds of the pool.
#[derive(Clone, Copy, Debug, PartialEq, Eq, Structural)]
pub struct UserDeposit {
    /// The user's shares.
    pub lp_amount: u128,
    /// The rewards per share that the user has been paid or was never owed.
    pub reward_debt: u128,
}

impl Default for UserDeposit {
    fn default() -> (r: UserDeposit)
        ensures
            r == (UserDeposit { lp_amount: 0, reward_debt: 0 }),
    {
        UserDeposit { lp_amount: 0, reward_debt: 0 }
    }
}

/// What a recipient may collect from the pool later.
#[derive(Clone, Copy, Debug, PartialEq, Eq, Structural)]
pub struct ClaimableBalance {
    pub amount: u128,
}

impl Default for ClaimableBalance {
    fn default() -> (r: ClaimableBalance)
        ensures
            r == (ClaimableBalance { amount: 0 }),
    {
        ClaimableBalance { amount: 0 }
    }
}

/// Whether the smaller of two balances is at least `min_bp` basis points
/// of the larger. Two empty balances are in ratio.
pub open spec fn ratio_ok(x: nat, y: nat, min_bp: nat) -> bool {
    let low = if x <= y { x } else { y };
    let high = if x <= y { y } else { x };
    high == 0 || low * BP as nat / high >= min_bp
}

/// The rewards that `lp` shares have earned in all at the accumulator
/// `acc`: `lp * acc / 2^48`, rounded down.
pub open spec fn reward_snapshot(lp: nat, acc: nat) -> nat {
    lp * acc / reward_scale()
}

impl Pool {
    /// A pool with these parameters, no balances and no shares.
    pub fn from_init_params(
        a: u128,
        fee_share_bp: u128,
        balance_ratio_min_bp: u128,
        admin_fee_share_bp: u128,
        decimals_a: u32,
        decimals_b: u32,
        decimals_lp: u32,
    ) -> (r: Pool)
        ensures
            r == (Pool {
                a,
                fee_share_bp,
                balance_ratio_min_bp,
                admin_fee_share_bp,
                d: 0,
                token_a_balance: 0,
                token_b_balance: 0,
                reserves: 0,
                total_lp_amount: 0,
                acc_reward_per_share_p: 0,
                admin_fee_amount: 0,
                decimals_a,
                decimals_b,
                decimals_lp,
            }),
    {
        Pool {
            a,
            fee_share_bp,
            balance_ratio_min_bp,
            admin_fee_share_bp,
            d: 0,
            token_a_balance: 0,
            token_b_balance: 0,
            reserves: 0,
            total_lp_amount: 0,
            acc_reward_per_share_p: 0,
            admin_fee_amount: 0,
            decimals_a,
            decimals_b,
            decimals_lp,
        }
    }

    /// A valid pool: the amplification is between 1 and `MAX_A`, neither
    /// fee share exceeds one, the balances together are below the ceiling,
    /// and the invariant is one that the curve can give.
    pub open spec fn wf(&self) -> bool {
        &&& 1 <= self.a <= MAX_A
        &&& self.fee_share_bp <= BP
        &&& self.admin_fee_share_bp <= BP
        &&& self.token_a_balance + self.token_b_balance < MAX_TOKEN_BALANCE
        &&& self.d < d_limit()
    }

    /// Whether the pool is valid.
    pub fn is_valid(&self) -> (r: bool)
        ensures
            r == self.wf(),
    {
        1 <= self.a && self.a <= MAX_A && self.fee_share_bp <= BP && self.admin_fee_share_bp
            <= BP && self.token_a_balance < MAX_TOKEN_BALANCE && self.token_b_balance
            < MAX_TOKEN_BALANCE && self.token_a_balance + self.token_b_balance
            < MAX_TOKEN_BALANCE && self.d < 0x1000_0000_0000
    }

    /// The two balances together.
    pub open spec fn balance_sum(&self) -> nat {
        (self.token_a_balance + self.token_b_balance) as nat
    }

    /// The balance of `token`.
    pub open spec fn balance(&self, token: Tokens) -> u128 {
        match token {
            Tokens::TokenA => self.token_a_balance,
            Tokens::TokenB => self.token_b_balance,
        }
    }

    /// The decimals of `token` outside the pool.
    pub open spec fn decimals(&self, token: Tokens) -> u32 {
        match token {
            Tokens::TokenA => self.decimals_a,
            Tokens::TokenB => self.decimals_b,
        }
    }

    /// The balance of `token`.
    pub fn get_token_balance(&self, token: Tokens) -> (r: u128)
        ensures
            r == self.balance(token),
    {
        match token {
            Tokens::TokenA => self.token_a_balance,
            Tokens::TokenB => self.token_b_balance,
        }
    }

    /// Puts `value` as the balance of `token` and changes nothing else.
    pub fn set_token_balance(&mut self, value: u128, token: Tokens)
        ensures
            *final(self) == match token {
                Tokens::TokenA => Pool { token_a_balance: value, ..*old(self) },
                Tokens::TokenB => Pool { token_b_balance: value, ..*old(self) },
            },
    {
        match token {
            Tokens::TokenA => {
                self.token_a_balance = value;
            },
            Tokens::TokenB => {
                self.token_b_balance = value;
            },
        }
    }

    /// The decimals of `token` outside the pool.
    pub fn get_token_decimals(&self, token: Tokens) -> (r: u32)
        ensures
            r == self.decimals(token),
    {
        match token {
            Tokens::TokenA => self.decimals_a,
            Tokens::TokenB => self.decimals_b,
        }
    }

    /// The invariant of the balances `x` and `y` under the pool's
    /// amplification.
    pub fn get_d(&self, x: u128, y: u128) -> (d: u128)
        requires
            1 <= self.a <= MAX_A && x + y < MAX_TOKEN_BALANCE || curve_d_fits(
                self.a as nat,
                x as nat,
                y as nat,
            ),
        ensures
            d == curve_d(self.a as nat, x as nat, y as nat),
            d < d_limit(),
    {
        proof {
            if 1 <= self.a <= MAX_A && x + y < MAX_TOKEN_BALANCE {
                lemma_balances_fit(self.a as nat, x as nat, y as nat);
            }
        }
        compute_d(self.a, x, y)
    }

    /// The balance that keeps the pool's invariant beside the balance
    /// `native_x` of the other token.
    pub fn get_y(&self, native_x: u128) -> (y: u128)
        requires
            1 <= self.a <= MAX_A && self.d < d_limit() && 1 <= native_x < MAX_TOKEN_BALANCE
                || curve_y_fits(self.a as nat, self.d as nat, native_x as nat),
        ensures
            y == curve_y(self.a as nat, self.d as nat, native_x as nat),
    {
        proof {
            if 1 <= self.a <= MAX_A && self.d < d_limit() && 1 <= native_x < MAX_TOKEN_BALANCE {
                lemma_swap_fits(self.a as nat, self.d as nat, native_x as nat);
            }
        }
        compute_y(self.a, self.d, native_x)
    }

    /// Sets the invariant to that of the two balances.
    pub fn update_d(&mut self)
        requires
            1 <= old(self).a <= MAX_A && old(self).token_a_balance + old(self).token_b_balance
                < MAX_TOKEN_BALANCE || curve_d_fits(
                old(self).a as nat,
                old(self).token_a_balance as nat,
                old(self).token_b_balance as nat,
            ),
        ensures
            *final(self) == (Pool {
                d: curve_d(
                    old(self).a as nat,
                    old(self).token_a_balance as nat,
                    old(self).token_b_balance as nat,
                ) as u128,
                ..*old(self)
            }),
            final(self).d < d_limit(),
    {
        self.d = self.get_d(self.token_a_balance, self.token_b_balance);
    }

    /// An amount with `decimals` decimals, in system precision.
    pub fn amount_to_system_precision(&self, amount: u128, decimals: u32) -> (r: u128)
        requires
            to_system(amount as nat, decimals as nat) <= u128::MAX,
        ensures
            r == to_system(amount as nat, decimals as nat),
    {
        match checked_to_system(amount, decimals) {
            Some(v) => v,
            None => 0,
        }
    }

    /// An amount in system precision, with `decimals` decimals.
    pub fn amount_from_system_precision(&self, amount: u128, decimals: u32) -> (r: u128)
        requires
            from_system(amount as nat, decimals as nat) <= u128::MAX,
        ensures
            r == from_system(amount as nat, decimals as nat),
    {
        match checked_from_system(amount, decimals) {
            Some(v) => v,
            None => 0,
        }
    }

    /// Whether the two balances are in the ratio that the pool allows.
    pub fn validate_balance_ratio(&self) -> (r: Result<(), Error>)
        ensures
            r == if ratio_ok(
                self.token_a_balance as nat,
                self.token_b_balance as nat,
                self.balance_ratio_min_bp as nat,
            ) {
                Ok::<(), Error>(())
            } else {
                Err::<(), Error>(Error::BalanceRatioExceeded)
            },
    {
        let min_bp = self.balance_ratio_min_bp;
        if balances_in_ratio(self.token_a_balance, self.token_b_balance, min_bp) {
            Ok(())
        } else {
            Err(Error::BalanceRatioExceeded)
        }
    }
}

/// Whether the smaller of two balances is at least `min_bp` basis points
/// of the larger.
pub fn balances_in_ratio(x: u128, y: u128, min_bp: u128) -> (r: bool)
    ensures
        r == ratio_ok(x as nat, y as nat, min_bp as nat),
{
    let low = if x <= y { x } else { y };
    let high = if x <= y { y } else { x };
    if high == 0 {
        return true;
    }
    match mul_div(low, BP, high) {
        Some(q) => q >= min_bp,
        None => true,
    }
}

/// Under an amplification between 1 and `MAX_A`, the curve fits in 256
/// bits at every pair of balances that is together below the ceiling.
pub proof fn lemma_balances_fit(a: nat, x: nat, y: nat)
    requires
        1 <= a <= MAX_A,
        x + y < MAX_TOKEN_BALANCE,
    ensures
        curve_d_fits(a, x, y),
{
    let s = x + y;
    let xy = x * y;
    let b_xy: nat = 0x40_0000_0000_0000_0000_00;
    assert(xy <= b_xy) by (nonlinear_arith)
        requires
            xy == x * y,
            x + y < 0x100_0000_0000,
            b_xy == 0x40_0000_0000_0000_0000_00,
    {
        assert(4 * (x * y) <= (x + y) * (x + y));
        assert((x + y) * (x + y) <= 0x100_0000_0000 * 0x100_0000_0000);
    }
    let p1 = curve_p1(a, x, y);
    let b1: nat = 120 * 0x100_0000_0000 * b_xy;
    assert(p1 <= b1) by (nonlinear_arith)
        requires
            p1 == a * (x + y) * xy,
            a <= 120,
            x + y <= 0x100_0000_0000,
            xy <= b_xy,
            b1 == 120 * 0x100_0000_0000 * b_xy,
    {
        assert(a * (x + y) <= 120 * 0x100_0000_0000);
    }
    let p2 = curve_p2(a, x, y);
    let t = xy * (4 * a - 1);
    let b2: nat = 160 * b_xy;
    assert(0 <= t <= 479 * b_xy) by (nonlinear_arith)
        requires
            t == xy * (4 * a - 1),
            1 <= a <= 120,
            0 <= xy <= b_xy,
    ;
    assert(0 <= p2 <= b2);
    assert(p1 * p1 <= b1 * b1) by (nonlinear_arith)
        requires
            0 <= p1 <= b1,
    ;
    assert(p2 * p2 * p2 <= b2 * b2 * b2) by (nonlinear_arith)
        requires
            0 <= p2 <= b2,
    {
        assert(p2 * p2 <= b2 * b2);
    }
    assert(b1 * b1 + b2 * b2 * b2 < wide_limit()) by (nonlinear_arith)
        requires
            b1 == 120 * 0x100_0000_0000 * 0x40_0000_0000_0000_0000_00,
            b2 == 160 * 0x40_0000_0000_0000_0000_00,
            wide_limit()
                == 0x1_0000_0000_0000_0000_0000_0000_0000_0000_0000_0000_0000_0000_0000_0000_0000_0000,
    ;
}

/// Under an amplification between 1 and `MAX_A`, with an invariant that the
/// curve can give, the other balance can be computed in 256 bits for every
/// positive balance below the ceiling.
pub proof fn lemma_swap_fits(a: nat, d: nat, x: nat)
    requires
        1 <= a <= MAX_A,
        d < d_limit(),
        1 <= x < MAX_TOKEN_BALANCE,
    ensures
        curve_y_fits(a, d, x),
{
    let p = curve_part1(a, d, x);
    let bp: int = 481int * 0x1000_0000_0000int;
    assert(-bp <= p <= bp) by (nonlinear_arith)
        requires
            p == 4 * a * (d - x) - d,
            1 <= a <= 120,
            0 <= d < 0x1000_0000_0000,
            1 <= x < 0x100_0000_0000,
            bp == 481 * 0x1000_0000_0000,
    {
        assert(4 * a * (d - x) <= 480 * 0x1000_0000_0000);
        assert(4 * a * (d - x) >= -480 * 0x1000_0000_0000);
    }
    let pp = p * p;
    assert(0 <= pp <= bp * bp) by (nonlinear_arith)
        requires
            pp == p * p,
            -bp <= p <= bp,
    ;
    let d3 = d * d * d;
    let bd: int = 0x1000_0000_0000;
    assert(0 <= d3 <= bd * bd * bd) by (nonlinear_arith)
        requires
            d3 == d * d * d,
            0 <= d <= bd,
    {
        assert(d * d <= bd * bd);
    }
    let ad = 4 * a * d3;
    assert(0 <= ad <= 480 * (bd * bd * bd)) by (nonlinear_arith)
        requires
            ad == 4 * a * d3,
            1 <= a <= 120,
            0 <= d3 <= bd * bd * bd,
    ;
    let xpp = x * pp;
    let bx: int = 0x100_0000_0000;
    assert(0 <= xpp <= bx * (bp * bp)) by (nonlinear_arith)
        requires
            xpp == x * pp,
            0 <= x <= bx,
            0 <= pp <= bp * bp,
    ;
    let inner = ad + xpp;
    let part2 = curve_part2(a, d, x);
    assert(part2 == x * inner);
    assert(x * inner <= bx * (480 * (bd * bd * bd) + bx * (bp * bp))) by (nonlinear_arith)
        requires
            0 <= x <= bx,
            0 <= inner <= 480 * (bd * bd * bd) + bx * (bp * bp),
    ;
    assert(bx * (480 * (bd * bd * bd) + bx * (bp * bp)) < wide_limit()) by (nonlinear_arith)
        requires
            bx == 0x100_0000_0000,
            bd == 0x1000_0000_0000,
            bp == 481 * 0x1000_0000_0000,
            wide_limit()
                == 0x1_0000_0000_0000_0000_0000_0000_0000_0000_0000_0000_0000_0000_0000_0000_0000_0000,
    ;
}

} // verus!

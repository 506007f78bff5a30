//! Deposit: tokens come into the pool in the ratio of its balances, and the
//! depositor gets shares for the growth of the invariant.

use vstd::prelude::*;
use crate::curve::{compute_d, curve_d};
use crate::error::Error;
use crate::pool::{balances_in_ratio, lemma_balances_fit, ratio_ok, reward_snapshot, Pool,
    UserDeposit, MAX_TOKEN_BALANCE};
use crate::precision::{checked_from_system, from_system};
use crate::uint256::mul_div;

verus! {

/// What a deposit did, and what is to be moved for it outside the pool.
#[derive(Clone, Copy, Debug, PartialEq, Eq, Structural)]
pub struct DepositReceipt {
    /// The rewards that were pending for the depositor, now paid.
    pub reward: u128,
    /// The shares given to the depositor, in system precision.
    pub lp_amount: u128,
    /// Token A to move from the depositor to the pool, in the token's own
    /// precision.
    pub token_a_amount: u128,
    /// Token B to move from the depositor to the pool, in the token's own
    /// precision.
    pub token_b_amount: u128,
    /// Share tokens to mint to the depositor, in the share token's own
    /// precision.
    pub lp_token_amount: u128,
}

impl Pool {
    /// How a deposit of `amount_sp` is split between token A and token B:
    /// in halves into a pool without invariant or balances, else in the
    /// ratio of the balances, each part rounded down.
    pub open spec fn deposit_split(&self, amount_sp: nat) -> (nat, nat) {
        let old_sum = self.token_a_balance + self.token_b_balance;
        if self.d == 0 || old_sum == 0 {
            (amount_sp / 2, amount_sp / 2)
        } else {
            (
                (amount_sp * self.token_a_balance / old_sum) as nat,
                (amount_sp * self.token_b_balance / old_sum) as nat,
            )
        }
    }

    /// Balance of token A after a deposit of `amount_sp`.
    pub open spec fn deposit_a(&self, amount_sp: nat) -> nat {
        self.token_a_balance as nat + self.deposit_split(amount_sp).0
    }

    /// Balance of token B after a deposit of `amount_sp`.
    pub open spec fn deposit_b(&self, amount_sp: nat) -> nat {
        self.token_b_balance as nat + self.deposit_split(amount_sp).1
    }

    /// The invariant after a deposit of `amount_sp`.
    pub open spec fn deposit_d(&self, amount_sp: nat) -> int {
        curve_d(self.a as nat, self.deposit_a(amount_sp), self.deposit_b(amount_sp))
    }

    /// The shares that a deposit of `amount_sp` gives: the growth of the
    /// invariant.
    pub open spec fn deposit_minted(&self, amount_sp: nat) -> int {
        self.deposit_d(amount_sp) - self.d
    }

    /// Whether every amount that a deposit of `amount_sp` writes or hands
    /// out fits in 128 bits.
    pub open spec fn deposit_fits(&self, user: UserDeposit, amount_sp: nat) -> bool {
        let minted = self.deposit_minted(amount_sp) as nat;
        &&& from_system(self.deposit_split(amount_sp).0, self.decimals_a as nat) <= u128::MAX
        &&& from_system(self.deposit_split(amount_sp).1, self.decimals_b as nat) <= u128::MAX
        &&& from_system(minted, self.decimals_lp as nat) <= u128::MAX
        &&& self.total_lp_amount + minted <= u128::MAX
        &&& user.lp_amount + minted <= u128::MAX
        &&& reward_snapshot(user.lp_amount as nat + minted, self.acc_reward_per_share_p as nat)
            <= u128::MAX
    }

    /// The pool after a deposit of `amount_sp` that was not refused.
    pub open spec fn deposited(&self, amount_sp: nat) -> Pool {
        Pool {
            token_a_balance: self.deposit_a(amount_sp) as u128,
            token_b_balance: self.deposit_b(amount_sp) as u128,
            d: self.deposit_d(amount_sp) as u128,
            reserves: (self.reserves + amount_sp) as u128,
            total_lp_amount: (self.total_lp_amount + self.deposit_minted(amount_sp)) as u128,
            ..*self
        }
    }

    /// The depositor's record after a deposit of `amount_sp` that was not
    /// refused: the new shares are added, and the user is paid up.
    pub open spec fn depositor_after(&self, user: UserDeposit, amount_sp: nat) -> UserDeposit {
        UserDeposit {
            lp_amount: (user.lp_amount + self.deposit_minted(amount_sp)) as u128,
            reward_debt: reward_snapshot(
                (user.lp_amount + self.deposit_minted(amount_sp)) as nat,
                self.acc_reward_per_share_p as nat,
            ) as u128,
        }
    }

    /// What a deposit of `amount_sp` that was not refused reports.
    pub open spec fn deposit_receipt(&self, user: UserDeposit, amount_sp: nat) -> DepositReceipt {
        DepositReceipt {
            reward: self.pending_reward(user) as u128,
            lp_amount: self.deposit_minted(amount_sp) as u128,
            token_a_amount: from_system(
                self.deposit_split(amount_sp).0,
                self.decimals_a as nat,
            ) as u128,
            token_b_amount: from_system(
                self.deposit_split(amount_sp).1,
                self.decimals_b as nat,
            ) as u128,
            lp_token_amount: from_system(
                self.deposit_minted(amount_sp) as nat,
                self.decimals_lp as nat,
            ) as u128,
        }
    }

    /// Why a deposit of `amount_sp` by `user` is refused, if it is; the
    /// first reason that applies, in this order:
    /// nothing is deposited; the balances would reach the ceiling, or the
    /// reserves leave 128 bits; the balances would be out of ratio; the
    /// invariant would not grow; an amount to write or to hand out would
    /// not fit in 128 bits.
    pub open spec fn deposit_refusal(&self, user: UserDeposit, amount_sp: nat) -> Option<Error> {
        if amount_sp == 0 {
            Some(Error::ZeroAmount)
        } else if self.deposit_a(amount_sp) + self.deposit_b(amount_sp) >= MAX_TOKEN_BALANCE
            || self.reserves + amount_sp > u128::MAX {
            Some(Error::PoolOverflow)
        } else if !ratio_ok(
            self.deposit_a(amount_sp),
            self.deposit_b(amount_sp),
            self.balance_ratio_min_bp as nat,
        ) {
            Some(Error::BalanceRatioExceeded)
        } else if self.deposit_d(amount_sp) <= self.d {
            Some(Error::ZeroChanges)
        } else if !self.deposit_fits(user, amount_sp) {
            Some(Error::PoolOverflow)
        } else {
            None
        }
    }

    /// Deposits `amount_sp`, in system precision, for `user`: the balances
    /// grow by the two parts of the amount, the reserves by the amount, the
    /// invariant is computed anew, and the user gets its growth as shares
    /// and is paid the pending rewards. A refused deposit changes nothing.
    pub fn deposit(&mut self, amount_sp: u128, user: &mut UserDeposit) -> (r: Result<
        DepositReceipt,
        Error,
    >)
        requires
            old(self).wf(),
            old(self).tracks(*old(user)),
        ensures
            match old(self).deposit_refusal(*old(user), amount_sp as nat) {
                Some(e) => r == Err::<DepositReceipt, Error>(e) && *final(self) == *old(self)
                    && *final(user) == *old(user),
                None => r == Ok::<DepositReceipt, Error>(
                    old(self).deposit_receipt(*old(user), amount_sp as nat),
                ) && *final(self) == old(self).deposited(amount_sp as nat) && *final(user)
                    == old(self).depositor_after(*old(user), amount_sp as nat),
            },
            r is Ok ==> final(self).wf() && final(self).tracks(*final(user)),
            r is Ok ==> final(self).d == curve_d(
                final(self).a as nat,
                final(self).token_a_balance as nat,
                final(self).token_b_balance as nat,
            ),
            r is Ok ==> final(self).d > old(self).d && final(self).reserves == old(self).reserves
                + amount_sp,
            r is Ok ==> final(self).total_lp_amount - final(self).d == old(self).total_lp_amount
                - old(self).d,
            r is Ok ==> final(self).total_lp_amount - old(self).total_lp_amount
                == final(user).lp_amount - old(user).lp_amount,
            r is Ok ==> ratio_ok(
                final(self).token_a_balance as nat,
                final(self).token_b_balance as nat,
                final(self).balance_ratio_min_bp as nat,
            ),
    {
        if amount_sp == 0 {
            return Err(Error::ZeroAmount);
        }
        let old_d = self.d;
        let old_balance = self.token_a_balance + self.token_b_balance;
        let token_a_amount: u128;
        let token_b_amount: u128;
        if old_d == 0 || old_balance == 0 {
            token_a_amount = amount_sp / 2;
            token_b_amount = amount_sp / 2;
        } else {
            proof {
                lemma_share_bounded(
                    amount_sp as nat,
                    self.token_a_balance as nat,
                    old_balance as nat,
                );
                lemma_share_bounded(
                    amount_sp as nat,
                    self.token_b_balance as nat,
                    old_balance as nat,
                );
            }
            token_a_amount = match mul_div(amount_sp, self.token_a_balance, old_balance) {
                Some(v) => v,
                None => {
                    return Err(Error::PoolOverflow);
                },
            };
            token_b_amount = match mul_div(amount_sp, self.token_b_balance, old_balance) {
                Some(v) => v,
                None => {
                    return Err(Error::PoolOverflow);
                },
            };
        }
        assert(token_a_amount == self.deposit_split(amount_sp as nat).0);
        assert(token_b_amount == self.deposit_split(amount_sp as nat).1);
        let new_a = match self.token_a_balance.checked_add(token_a_amount) {
            Some(v) => v,
            None => {
                return Err(Error::PoolOverflow);
            },
        };
        let new_b = match self.token_b_balance.checked_add(token_b_amount) {
            Some(v) => v,
            None => {
                return Err(Error::PoolOverflow);
            },
        };
        if new_a >= MAX_TOKEN_BALANCE || new_b >= MAX_TOKEN_BALANCE || new_a + new_b
            >= MAX_TOKEN_BALANCE {
            return Err(Error::PoolOverflow);
        }
        let new_reserves = match self.reserves.checked_add(amount_sp) {
            Some(v) => v,
            None => {
                return Err(Error::PoolOverflow);
            },
        };
        proof {
            lemma_balances_fit(self.a as nat, new_a as nat, new_b as nat);
        }
        let new_d = compute_d(self.a, new_a, new_b);
        if !balances_in_ratio(new_a, new_b, self.balance_ratio_min_bp) {
            return Err(Error::BalanceRatioExceeded);
        }
        if new_d <= old_d {
            return Err(Error::ZeroChanges);
        }
        let lp_amount = new_d - old_d;
        let external_a = match checked_from_system(token_a_amount, self.decimals_a) {
            Some(v) => v,
            None => {
                return Err(Error::PoolOverflow);
            },
        };
        let external_b = match checked_from_system(token_b_amount, self.decimals_b) {
            Some(v) => v,
            None => {
                return Err(Error::PoolOverflow);
            },
        };
        let external_lp = match checked_from_system(lp_amount, self.decimals_lp) {
            Some(v) => v,
            None => {
                return Err(Error::PoolOverflow);
            },
        };
        let mut next = *self;
        let mut next_user = *user;
        next.token_a_balance = new_a;
        next.token_b_balance = new_b;
        next.reserves = new_reserves;
        next.d = new_d;
        let reward = match next.deposit_lp(&mut next_user, lp_amount) {
            Ok(v) => v,
            Err(_) => {
                return Err(Error::PoolOverflow);
            },
        };
        *self = next;
        *user = next_user;
        Ok(
            DepositReceipt {
                reward,
                lp_amount,
                token_a_amount: external_a,
                token_b_amount: external_b,
                lp_token_amount: external_lp,
            },
        )
    }
}

/// A share `amount * part / whole` of an amount, for a part of the whole,
/// is no more than the amount.
pub proof fn lemma_share_bounded(amount: nat, part: nat, whole: nat)
    requires
        part <= whole,
        whole > 0,
    ensures
        amount * part / whole <= amount,
{
    assert(amount * part <= amount * whole) by (nonlinear_arith)
        requires
            part <= whole,
    ;
    vstd::arithmetic::div_mod::lemma_div_is_ordered(
        (amount * part) as int,
        (amount * whole) as int,
        whole as int,
    );
    vstd::arithmetic::div_mod::lemma_div_multiples_vanish(amount as int, whole as int);
    assert(amount * whole == whole * amount) by (nonlinear_arith);
}

} // verus!

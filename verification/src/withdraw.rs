//! Withdraw: shares go back to the pool, and tokens leave it in the ratio
//! of its balances.

use vstd::prelude::*;
use crate::curve::{compute_d, curve_d};
use crate::deposit::lemma_share_bounded;
use crate::error::Error;
use crate::pool::{lemma_balances_fit, reward_snapshot, Pool, UserDeposit};
use crate::precision::{checked_from_system, from_system};
use crate::uint256::mul_div;

verus! {

/// What a withdrawal did, and what is to be moved for it outside the pool.
#[derive(Clone, Copy, Debug, PartialEq, Eq, Structural)]
pub struct WithdrawReceipt {
    /// The rewards that were pending for the user, paid in each token.
    pub reward: u128,
    /// Token A to move from the pool to the user, in the token's own
    /// precision, rewards included.
    pub token_a_amount: u128,
    /// Token B to move from the pool to the user, in the token's own
    /// precision, rewards included.
    pub token_b_amount: u128,
    /// Share tokens to burn from the user, in the share token's own
    /// precision.
    pub lp_token_amount: u128,
}

impl Pool {
    /// What a withdrawal of `amount_lp` shares takes from the balances of
    /// token A and token B: the amount in the ratio of the balances, each
    /// part rounded down. Meant for a pool with a balance.
    pub open spec fn withdraw_split(&self, amount_lp: nat) -> (nat, nat) {
        let old_sum = self.token_a_balance + self.token_b_balance;
        (
            (amount_lp * self.token_a_balance / old_sum) as nat,
            (amount_lp * self.token_b_balance / old_sum) as nat,
        )
    }

    /// Balance of token A after a withdrawal of `amount_lp` shares.
    pub open spec fn withdraw_a(&self, amount_lp: nat) -> int {
        self.token_a_balance - self.withdraw_split(amount_lp).0
    }

    /// Balance of token B after a withdrawal of `amount_lp` shares.
    pub open spec fn withdraw_b(&self, amount_lp: nat) -> int {
        self.token_b_balance - self.withdraw_split(amount_lp).1
    }

    /// The invariant after a withdrawal of `amount_lp` shares.
    pub open spec fn withdraw_d(&self, amount_lp: nat) -> int {
        curve_d(
            self.a as nat,
            self.withdraw_a(amount_lp) as nat,
            self.withdraw_b(amount_lp) as nat,
        )
    }

    /// Token A that a withdrawal of `amount_lp` shares pays out, in the
    /// token's own precision, the user's pending rewards included.
    pub open spec fn withdraw_payout_a(&self, user: UserDeposit, amount_lp: nat) -> int {
        from_system(self.withdraw_split(amount_lp).0, self.decimals_a as nat)
            + self.pending_reward(user)
    }

    /// Token B that a withdrawal of `amount_lp` shares pays out, in the
    /// token's own precision, the user's pending rewards included.
    pub open spec fn withdraw_payout_b(&self, user: UserDeposit, amount_lp: nat) -> int {
        from_system(self.withdraw_split(amount_lp).1, self.decimals_b as nat)
            + self.pending_reward(user)
    }

    /// The pool after a withdrawal of `amount_lp` shares that was not
    /// refused.
    pub open spec fn withdrawn(&self, amount_lp: nat) -> Pool {
        Pool {
            token_a_balance: self.withdraw_a(amount_lp) as u128,
            token_b_balance: self.withdraw_b(amount_lp) as u128,
            d: self.withdraw_d(amount_lp) as u128,
            reserves: (self.reserves - amount_lp) as u128,
            total_lp_amount: (self.total_lp_amount - amount_lp) as u128,
            ..*self
        }
    }

    /// The user's record after a withdrawal of `amount_lp` shares that was
    /// not refused: the shares are taken, and the user is paid up.
    pub open spec fn withdrawer_after(&self, user: UserDeposit, amount_lp: nat) -> UserDeposit {
        UserDeposit {
            lp_amount: (user.lp_amount - amount_lp) as u128,
            reward_debt: reward_snapshot(
                (user.lp_amount - amount_lp) as nat,
                self.acc_reward_per_share_p as nat,
            ) as u128,
        }
    }

    /// What a withdrawal of `amount_lp` shares that was not refused
    /// reports.
    pub open spec fn withdraw_receipt(&self, user: UserDeposit, amount_lp: nat) -> WithdrawReceipt {
        WithdrawReceipt {
            reward: self.pending_reward(user) as u128,
            token_a_amount: self.withdraw_payout_a(user, amount_lp) as u128,
            token_b_amount: self.withdraw_payout_b(user, amount_lp) as u128,
            lp_token_amount: from_system(amount_lp, self.decimals_lp as nat) as u128,
        }
    }

    /// Why a withdrawal of `amount_lp` shares by `user` is refused, if it
    /// is; the first reason that applies, in this order:
    /// the user, or the pool in all, holds fewer shares; the pool has no
    /// balance; a part exceeds its balance; both parts are zero; the
    /// shares exceed the reserves; the invariant would not shrink; what
    /// the user's shares have earned, or an amount to hand out, would not
    /// fit in 128 bits.
    pub open spec fn withdraw_refusal(&self, user: UserDeposit, amount_lp: nat) -> Option<
        Error,
    > {
        if user.lp_amount < amount_lp || self.total_lp_amount < amount_lp {
            Some(Error::NotEnoughAmount)
        } else if self.token_a_balance + self.token_b_balance == 0 {
            Some(Error::ZeroChanges)
        } else if self.withdraw_a(amount_lp) < 0 || self.withdraw_b(amount_lp) < 0 {
            Some(Error::ReservesExhausted)
        } else if self.withdraw_split(amount_lp).0 + self.withdraw_split(amount_lp).1 == 0 {
            Some(Error::ZeroChanges)
        } else if amount_lp > self.reserves {
            Some(Error::ReservesExhausted)
        } else if self.withdraw_d(amount_lp) >= self.d {
            Some(Error::ZeroChanges)
        } else if !self.earned_fits(user) || self.withdraw_payout_a(user, amount_lp) > u128::MAX
            || self.withdraw_payout_b(
            user,
            amount_lp,
        ) > u128::MAX || from_system(amount_lp, self.decimals_lp as nat) > u128::MAX {
            Some(Error::PoolOverflow)
        } else {
            None
        }
    }

    /// Withdraws `amount_lp` shares, in system precision, for `user`: the
    /// user gives up the shares and is paid the pending rewards, the
    /// balances shrink by the two parts of the amount, the reserves by the
    /// amount, and the invariant is computed anew. A refused withdrawal
    /// changes nothing.
    pub fn withdraw(&mut self, user: &mut UserDeposit, amount_lp: u128) -> (r: Result<
        WithdrawReceipt,
        Error,
    >)
        requires
            old(self).wf(),
            old(self).tracks(*old(user)),
        ensures
            match old(self).withdraw_refusal(*old(user), amount_lp as nat) {
                Some(e) => r == Err::<WithdrawReceipt, Error>(e) && *final(self) == *old(self)
                    && *final(user) == *old(user),
                None => r == Ok::<WithdrawReceipt, Error>(
                    old(self).withdraw_receipt(*old(user), amount_lp as nat),
                ) && *final(self) == old(self).withdrawn(amount_lp as nat) && *final(user)
                    == old(self).withdrawer_after(*old(user), amount_lp as nat),
            },
            r is Ok ==> final(self).wf() && final(self).tracks(*final(user)),
            r is Ok ==> final(self).d == curve_d(
                final(self).a as nat,
                final(self).token_a_balance as nat,
                final(self).token_b_balance as nat,
            ),
            r is Ok ==> amount_lp > 0 && final(self).d < old(self).d
                && final(self).total_lp_amount == old(self).total_lp_amount - amount_lp
                && final(self).reserves == old(self).reserves - amount_lp,
            r is Ok ==> final(self).balance_sum() < old(self).balance_sum(),
            r is Ok ==> old(self).total_lp_amount - final(self).total_lp_amount
                == old(user).lp_amount - final(user).lp_amount,
    {
        if user.lp_amount < amount_lp || self.total_lp_amount < amount_lp {
            return Err(Error::NotEnoughAmount);
        }
        let old_balance = self.token_a_balance + self.token_b_balance;
        if old_balance == 0 {
            return Err(Error::ZeroChanges);
        }
        proof {
            lemma_share_bounded(amount_lp as nat, self.token_a_balance as nat, old_balance as nat);
            lemma_share_bounded(amount_lp as nat, self.token_b_balance as nat, old_balance as nat);
        }
        let token_a_amount = match mul_div(amount_lp, self.token_a_balance, old_balance) {
            Some(v) => v,
            None => {
                return Err(Error::ReservesExhausted);
            },
        };
        let token_b_amount = match mul_div(amount_lp, self.token_b_balance, old_balance) {
            Some(v) => v,
            None => {
                return Err(Error::ReservesExhausted);
            },
        };
        if token_a_amount > self.token_a_balance || token_b_amount > self.token_b_balance {
            return Err(Error::ReservesExhausted);
        }
        let new_a = self.token_a_balance - token_a_amount;
        let new_b = self.token_b_balance - token_b_amount;
        if !(new_a + new_b < old_balance) {
            return Err(Error::ZeroChanges);
        }
        if amount_lp > self.reserves {
            return Err(Error::ReservesExhausted);
        }
        let old_d = self.d;
        proof {
            lemma_balances_fit(self.a as nat, new_a as nat, new_b as nat);
        }
        let new_d = compute_d(self.a, new_a, new_b);
        if !(new_d < old_d) {
            return Err(Error::ZeroChanges);
        }
        let mut next = *self;
        let mut next_user = *user;
        next.token_a_balance = new_a;
        next.token_b_balance = new_b;
        next.reserves = self.reserves - amount_lp;
        next.d = new_d;
        let reward_amount = match next.withdraw_lp(&mut next_user, amount_lp) {
            Ok(v) => v,
            Err(e) => {
                return Err(e);
            },
        };
        let external_a = match checked_from_system(token_a_amount, self.decimals_a) {
            Some(v) => v,
            None => {
                return Err(Error::PoolOverflow);
            },
        };
        let payout_a = match external_a.checked_add(reward_amount) {
            Some(v) => v,
            None => {
                return Err(Error::PoolOverflow);
            },
        };
        let external_b = match checked_from_system(token_b_amount, self.decimals_b) {
            Some(v) => v,
            None => {
                return Err(Error::PoolOverflow);
            },
        };
        let payout_b = match external_b.checked_add(reward_amount) {
            Some(v) => v,
            None => {
                return Err(Error::PoolOverflow);
            },
        };
        let external_lp = match checked_from_system(amount_lp, self.decimals_lp) {
            Some(v) => v,
            None => {
                return Err(Error::PoolOverflow);
            },
        };
        *self = next;
        *user = next_user;
        Ok(
            WithdrawReceipt {
                reward: reward_amount,
                token_a_amount: payout_a,
                token_b_amount: payout_b,
                lp_token_amount: external_lp,
            },
        )
    }
}

} // verus!

//! Swap: one token comes in, and the other goes out as far as the curve
//! lets it, less the fee.

use vstd::prelude::*;
use crate::curve::{compute_y, curve_y};
use crate::error::Error;
use crate::pool::{balances_in_ratio, lemma_swap_fits, ratio_ok, ClaimableBalance, Direction,
    Pool, UserDeposit, BP, MAX_TOKEN_BALANCE};
use crate::precision::{checked_from_system, from_system};
use crate::uint256::mul_div;

verus! {

impl Pool {
    /// The balance of the token that comes in, after `amount_in` came in.
    pub open spec fn swap_from(&self, amount_in: nat, direction: Direction) -> nat {
        self.balance(direction.tokens().0) as nat + amount_in
    }

    /// The balance of the token that goes out, after the swap: what keeps
    /// the invariant beside the new balance of the other token.
    pub open spec fn swap_to(&self, amount_in: nat, direction: Direction) -> int {
        curve_y(self.a as nat, self.d as nat, self.swap_from(amount_in, direction))
    }

    /// Whether the swap pays out: it does where the new balance of the token
    /// that came in exceeds the new balance of the token that goes out.
    pub open spec fn swap_pays(&self, amount_in: nat, direction: Direction) -> bool {
        self.swap_from(amount_in, direction) > self.swap_to(amount_in, direction)
    }

    /// What the swap takes from the balance of the token that goes out, in
    /// system precision: the fall of that balance where the swap pays out,
    /// and nothing otherwise.
    pub open spec fn swap_out_sp(&self, amount_in: nat, direction: Direction) -> int {
        if self.swap_pays(amount_in, direction) {
            self.balance(direction.tokens().1) - self.swap_to(amount_in, direction)
        } else {
            0
        }
    }

    /// What the swap takes out, in the precision of the token that goes
    /// out, before the fee.
    pub open spec fn swap_gross(&self, amount_in: nat, direction: Direction) -> nat {
        from_system(
            self.swap_out_sp(amount_in, direction) as nat,
            self.decimals(direction.tokens().1) as nat,
        )
    }

    /// The fee of the swap: the pool's share of what goes out, rounded
    /// down, or nothing where the swap is free of fee.
    pub open spec fn swap_fee(&self, amount_in: nat, zero_fee: bool, direction: Direction) -> nat {
        if zero_fee {
            0
        } else {
            self.swap_gross(amount_in, direction) * self.fee_share_bp as nat / BP as nat
        }
    }

    /// What the swap pays out: what it takes out, less the fee.
    pub open spec fn swap_result(
        &self,
        amount_in: nat,
        zero_fee: bool,
        direction: Direction,
    ) -> int {
        self.swap_gross(amount_in, direction) - self.swap_fee(amount_in, zero_fee, direction)
    }

    /// The pool after a swap of `amount_in` that was not refused.
    pub open spec fn swapped(&self, amount_in: nat, zero_fee: bool, direction: Direction) -> Pool {
        let with_fee = self.with_rewards(self.swap_fee(amount_in, zero_fee, direction));
        let reserves = (self.reserves + amount_in - self.swap_out_sp(amount_in, direction)) as u128;
        match direction {
            Direction::A2B => Pool {
                token_a_balance: self.swap_from(amount_in, direction) as u128,
                token_b_balance: self.swap_to(amount_in, direction) as u128,
                reserves,
                ..with_fee
            },
            Direction::B2A => Pool {
                token_b_balance: self.swap_from(amount_in, direction) as u128,
                token_a_balance: self.swap_to(amount_in, direction) as u128,
                reserves,
                ..with_fee
            },
        }
    }

    /// Why a swap of a positive `amount_in` is refused, if it is; the first
    /// reason that applies, in this order:
    /// the balance that grows would reach the ceiling; the other balance
    /// would have to grow as well; what goes out does not fit in 128 bits
    /// in its token's precision; it exceeds the reserves; the reserves
    /// would leave 128 bits; the rewards would; the balances together would
    /// reach the ceiling; they would be out of ratio; less would be paid
    /// out than the caller's minimum; the recipient's claimable balance
    /// would leave 128 bits.
    pub open spec fn swap_refusal(
        &self,
        claimable_balance: ClaimableBalance,
        amount_in: nat,
        receive_amount_min: nat,
        zero_fee: bool,
        claimable: bool,
        direction: Direction,
    ) -> Option<Error> {
        let new_from = self.swap_from(amount_in, direction);
        let new_to = self.swap_to(amount_in, direction);
        let out_sp = self.swap_out_sp(amount_in, direction);
        if new_from >= MAX_TOKEN_BALANCE {
            Some(Error::PoolOverflow)
        } else if out_sp < 0 {
            Some(Error::InsufficientReceivedAmount)
        } else if self.swap_gross(amount_in, direction) > u128::MAX {
            Some(Error::PoolOverflow)
        } else if out_sp > self.reserves {
            Some(Error::ReservesExhausted)
        } else if self.reserves + amount_in - out_sp > u128::MAX {
            Some(Error::PoolOverflow)
        } else if !self.rewards_fit(self.swap_fee(amount_in, zero_fee, direction)) {
            Some(Error::PoolOverflow)
        } else if new_from + new_to >= MAX_TOKEN_BALANCE {
            Some(Error::PoolOverflow)
        } else if !ratio_ok(new_from, new_to as nat, self.balance_ratio_min_bp as nat) {
            Some(Error::BalanceRatioExceeded)
        } else if self.swap_result(amount_in, zero_fee, direction) < receive_amount_min {
            Some(Error::InsufficientReceivedAmount)
        } else if claimable && claimable_balance.amount + self.swap_result(
            amount_in,
            zero_fee,
            direction,
        ) > u128::MAX {
            Some(Error::PoolOverflow)
        } else {
            None
        }
    }

    /// Swaps `amount_in`, in system precision, of one token for the other,
    /// and returns what is paid out and the fee, both in the precision of
    /// the token that goes out. With `claimable`, what is paid out is
    /// added to the recipient's claimable balance; otherwise it is for the
    /// caller to hand over. A swap of nothing pays `(0, 0)` and changes
    /// nothing, and so does a refused one.
    pub fn swap(
        &mut self,
        claimable_balance: &mut ClaimableBalance,
        amount_in: u128,
        receive_amount_min: u128,
        zero_fee: bool,
        claimable: bool,
        direction: Direction,
    ) -> (r: Result<(u128, u128), Error>)
        requires
            old(self).wf(),
        ensures
            amount_in == 0 ==> r == Ok::<(u128, u128), Error>((0u128, 0u128)) && *final(self)
                == *old(self) && *final(claimable_balance) == *old(claimable_balance),
            amount_in > 0 ==> match old(self).swap_refusal(
                *old(claimable_balance),
                amount_in as nat,
                receive_amount_min as nat,
                zero_fee,
                claimable,
                direction,
            ) {
                Some(e) => r == Err::<(u128, u128), Error>(e) && *final(self) == *old(self)
                    && *final(claimable_balance) == *old(claimable_balance),
                None => r == Ok::<(u128, u128), Error>(
                    (
                        old(self).swap_result(amount_in as nat, zero_fee, direction) as u128,
                        old(self).swap_fee(amount_in as nat, zero_fee, direction) as u128,
                    ),
                ) && *final(self) == old(self).swapped(amount_in as nat, zero_fee, direction)
                    && final(claimable_balance).amount == old(claimable_balance).amount + (
                if claimable {
                    old(self).swap_result(amount_in as nat, zero_fee, direction)
                } else {
                    0
                }),
            },
            r is Ok ==> final(self).wf(),
            r is Ok ==> final(self).d == old(self).d,
            r is Ok ==> final(self).total_lp_amount == old(self).total_lp_amount,
            r is Ok ==> final(self).acc_reward_per_share_p >= old(self).acc_reward_per_share_p,
            forall|u: UserDeposit| old(self).tracks(u) ==> #[trigger] final(self).tracks(u),
            r is Ok && amount_in > 0 ==> ratio_ok(
                final(self).token_a_balance as nat,
                final(self).token_b_balance as nat,
                final(self).balance_ratio_min_bp as nat,
            ),
            r is Ok && amount_in > 0 ==> final(self).reserves == old(self).reserves + amount_in
                - old(self).swap_out_sp(amount_in as nat, direction),
            r is Ok && amount_in > 0 && old(self).swap_pays(amount_in as nat, direction)
                ==> final(self).balance_sum() - old(self).balance_sum() == amount_in
                - old(self).swap_out_sp(amount_in as nat, direction),
            r is Ok && amount_in > 0 && old(self).swap_pays(amount_in as nat, direction)
                ==> final(self).balance(direction.tokens().1) <= old(self).balance(
                direction.tokens().1,
            ),
            r matches Ok(paid) ==> amount_in == 0 || paid.0 + paid.1 == old(self).swap_gross(
                amount_in as nat,
                direction,
            ),
    {
        if amount_in == 0 {
            return Ok((0, 0));
        }
        let (token_from, token_to) = direction.to_tokens();
        let to_balance = self.get_token_balance(token_to);
        let new_from = match self.get_token_balance(token_from).checked_add(amount_in) {
            Some(v) => v,
            None => {
                return Err(Error::PoolOverflow);
            },
        };
        if new_from >= MAX_TOKEN_BALANCE {
            return Err(Error::PoolOverflow);
        }
        proof {
            lemma_swap_fits(self.a as nat, self.d as nat, new_from as nat);
        }
        let new_to = compute_y(self.a, self.d, new_from);
        let mut result_sp: u128 = 0;
        if new_from > new_to {
            if new_to > to_balance {
                return Err(Error::InsufficientReceivedAmount);
            }
            result_sp = to_balance - new_to;
        }
        let gross = match checked_from_system(result_sp, self.get_token_decimals(token_to)) {
            Some(v) => v,
            None => {
                return Err(Error::PoolOverflow);
            },
        };
        if result_sp > self.reserves {
            return Err(Error::ReservesExhausted);
        }
        let new_reserves = match (self.reserves - result_sp).checked_add(amount_in) {
            Some(v) => v,
            None => {
                return Err(Error::PoolOverflow);
            },
        };
        proof {
            assert(gross * self.fee_share_bp / (BP as int) <= gross) by (nonlinear_arith)
                requires
                    self.fee_share_bp <= BP,
                    BP == 10000,
            ;
        }
        let fee = if zero_fee {
            0
        } else {
            match mul_div(gross, self.fee_share_bp, BP) {
                Some(v) => v,
                None => {
                    return Err(Error::PoolOverflow);
                },
            }
        };
        let result = gross - fee;
        let mut next = *self;
        match next.add_rewards(fee) {
            Ok(()) => {},
            Err(e) => {
                return Err(e);
            },
        }
        next.set_token_balance(new_from, token_from);
        next.set_token_balance(new_to, token_to);
        next.reserves = new_reserves;
        if new_to >= MAX_TOKEN_BALANCE || new_from + new_to >= MAX_TOKEN_BALANCE {
            return Err(Error::PoolOverflow);
        }
        if !balances_in_ratio(new_from, new_to, self.balance_ratio_min_bp) {
            return Err(Error::BalanceRatioExceeded);
        }
        if result < receive_amount_min {
            return Err(Error::InsufficientReceivedAmount);
        }
        if claimable {
            let credited = match claimable_balance.amount.checked_add(result) {
                Some(v) => v,
                None => {
                    return Err(Error::PoolOverflow);
                },
            };
            claimable_balance.amount = credited;
        }
        proof {
            assert forall|u: UserDeposit| self.tracks(u) implies #[trigger] next.tracks(u) by {
                crate::rewards::lemma_snapshot_monotonic(
                    u.lp_amount as nat,
                    self.acc_reward_per_share_p as nat,
                    u.lp_amount as nat,
                    next.acc_reward_per_share_p as nat,
                );
            }
        }
        *self = next;
        Ok((result, fee))
    }
}

} // verus!

//! Share accounting: what each user holds of the pool, and the rewards that
//! the shares earn, kept as one accumulator of rewards per share.

use vstd::prelude::*;
use crate::error::Error;
use crate::pool::{Pool, UserDeposit, reward_scale, reward_snapshot, BP};
use crate::uint256::mul_div;

verus! {

/// 2^48, by which the accumulator is scaled.
pub const REWARD_SCALE: u128 = 0x1_0000_0000_0000;

/// `lp * acc / 2^48`, or `None` where that does not fit in 128 bits.
pub fn snapshot_of(lp: u128, acc: u128) -> (r: Option<u128>)
    ensures
        match r {
            Some(v) => v == reward_snapshot(lp as nat, acc as nat),
            None => reward_snapshot(lp as nat, acc as nat) > u128::MAX,
        },
{
    mul_div(lp, acc, REWARD_SCALE)
}

/// More shares earn no less at the same accumulator, and the same shares
/// earn no less at a larger one.
pub proof fn lemma_snapshot_monotonic(lp1: nat, acc1: nat, lp2: nat, acc2: nat)
    requires
        lp1 <= lp2,
        acc1 <= acc2,
    ensures
        reward_snapshot(lp1, acc1) <= reward_snapshot(lp2, acc2),
{
    assert(lp1 * acc1 <= lp2 * acc2) by (nonlinear_arith)
        requires
            lp1 <= lp2,
            acc1 <= acc2,
    ;
    vstd::arithmetic::div_mod::lemma_div_is_ordered(
        (lp1 * acc1) as int,
        (lp2 * acc2) as int,
        reward_scale() as int,
    );
}

impl Pool {
    /// The user's record agrees with the pool: the user has not been paid
    /// more than the user's shares have earned in all.
    pub open spec fn tracks(&self, user: UserDeposit) -> bool {
        user.reward_debt <= reward_snapshot(
            user.lp_amount as nat,
            self.acc_reward_per_share_p as nat,
        )
    }

    /// What the user's shares have earned in all fits in 128 bits.
    pub open spec fn earned_fits(&self, user: UserDeposit) -> bool {
        reward_snapshot(user.lp_amount as nat, self.acc_reward_per_share_p as nat) <= u128::MAX
    }

    /// Whether the user's record agrees with the pool.
    pub fn is_tracking(&self, user: &UserDeposit) -> (r: bool)
        ensures
            r == self.tracks(*user),
    {
        match snapshot_of(user.lp_amount, self.acc_reward_per_share_p) {
            Some(earned) => user.reward_debt <= earned,
            None => true,
        }
    }

    /// The rewards that the user has earned and not been paid:
    /// `lp_amount * acc_reward_per_share_p / 2^48 - reward_debt`.
    pub open spec fn pending_reward(&self, user: UserDeposit) -> int {
        reward_snapshot(user.lp_amount as nat, self.acc_reward_per_share_p as nat)
            - user.reward_debt
    }

    /// The part of `reward_amount` that goes to the administrator.
    pub open spec fn admin_cut(&self, reward_amount: nat) -> nat {
        reward_amount * self.admin_fee_share_bp as nat / BP as nat
    }

    /// What `reward_amount` adds to the accumulator: the part of it that is
    /// not the administrator's, per share, scaled by 2^48.
    pub open spec fn reward_increment(&self, reward_amount: nat) -> nat {
        ((reward_amount - self.admin_cut(reward_amount)) * reward_scale()
            / self.total_lp_amount as int) as nat
    }

    /// Whether `reward_amount` can be added to the pool's rewards without
    /// the accumulator or the administrator's amount leaving 128 bits.
    pub open spec fn rewards_fit(&self, reward_amount: nat) -> bool {
        self.total_lp_amount > 0 ==> self.acc_reward_per_share_p + self.reward_increment(
            reward_amount,
        ) <= u128::MAX && self.admin_fee_amount + self.admin_cut(reward_amount) <= u128::MAX
    }

    /// The pool after `reward_amount` was added to its rewards. A pool
    /// without shares takes none.
    pub open spec fn with_rewards(&self, reward_amount: nat) -> Pool {
        if self.total_lp_amount > 0 {
            Pool {
                acc_reward_per_share_p: (self.acc_reward_per_share_p + self.reward_increment(
                    reward_amount,
                )) as u128,
                admin_fee_amount: (self.admin_fee_amount + self.admin_cut(reward_amount)) as u128,
                ..*self
            }
        } else {
            *self
        }
    }

    /// Gives the user `lp_amount` more shares and returns the rewards that
    /// were pending; the user is then paid up. Refused with `PoolOverflow`
    /// where the new shares, the new total or what the new shares have
    /// earned do not fit in 128 bits.
    pub fn deposit_lp(&mut self, user: &mut UserDeposit, lp_amount: u128) -> (r: Result<
        u128,
        Error,
    >)
        requires
            old(self).tracks(*old(user)),
        ensures
            r is Err <==> old(self).total_lp_amount + lp_amount > u128::MAX || old(user).lp_amount
                + lp_amount > u128::MAX || reward_snapshot(
                (old(user).lp_amount + lp_amount) as nat,
                old(self).acc_reward_per_share_p as nat,
            ) > u128::MAX,
            r is Err ==> r == Err::<u128, Error>(Error::PoolOverflow) && *final(self) == *old(self)
                && *final(user) == *old(user),
            r is Ok ==> r == Ok::<u128, Error>(old(self).pending_reward(*old(user)) as u128)
                && *final(self) == (Pool {
                total_lp_amount: (old(self).total_lp_amount + lp_amount) as u128,
                ..*old(self)
            }) && *final(user) == (UserDeposit {
                lp_amount: (old(user).lp_amount + lp_amount) as u128,
                reward_debt: reward_snapshot(
                    (old(user).lp_amount + lp_amount) as nat,
                    old(self).acc_reward_per_share_p as nat,
                ) as u128,
            }) && final(self).tracks(*final(user)) && final(self).pending_reward(*final(user))
                == 0,
    {
        proof {
            lemma_snapshot_monotonic(
                user.lp_amount as nat,
                self.acc_reward_per_share_p as nat,
                (user.lp_amount + lp_amount) as nat,
                self.acc_reward_per_share_p as nat,
            );
        }
        let earned = match snapshot_of(user.lp_amount, self.acc_reward_per_share_p) {
            Some(v) => v,
            None => {
                return Err(Error::PoolOverflow);
            },
        };
        let pending = earned - user.reward_debt;
        let new_total = match self.total_lp_amount.checked_add(lp_amount) {
            Some(v) => v,
            None => {
                return Err(Error::PoolOverflow);
            },
        };
        let new_lp = match user.lp_amount.checked_add(lp_amount) {
            Some(v) => v,
            None => {
                return Err(Error::PoolOverflow);
            },
        };
        let new_debt = match snapshot_of(new_lp, self.acc_reward_per_share_p) {
            Some(v) => v,
            None => {
                return Err(Error::PoolOverflow);
            },
        };
        self.total_lp_amount = new_total;
        user.lp_amount = new_lp;
        user.reward_debt = new_debt;
        Ok(pending)
    }

    /// Takes `lp_amount` shares from the user and returns the rewards that
    /// were pending; the user is then paid up. Refused with
    /// `NotEnoughAmount` where the user, or the pool in all, holds fewer
    /// shares, and else with `PoolOverflow` where what the user's shares
    /// have earned does not fit in 128 bits.
    pub fn withdraw_lp(&mut self, user: &mut UserDeposit, lp_amount: u128) -> (r: Result<
        u128,
        Error,
    >)
        requires
            old(self).tracks(*old(user)),
        ensures
            r == Err::<u128, Error>(Error::NotEnoughAmount) <==> old(user).lp_amount < lp_amount
                || old(self).total_lp_amount < lp_amount,
            r == Err::<u128, Error>(Error::PoolOverflow) <==> old(user).lp_amount >= lp_amount
                && old(self).total_lp_amount >= lp_amount && !old(self).earned_fits(*old(user)),
            r is Err ==> (r == Err::<u128, Error>(Error::NotEnoughAmount) || r == Err::<
                u128,
                Error,
            >(Error::PoolOverflow)) && *final(self) == *old(self) && *final(user) == *old(user),
            r is Ok ==> r == Ok::<u128, Error>(old(self).pending_reward(*old(user)) as u128)
                && *final(self) == (Pool {
                total_lp_amount: (old(self).total_lp_amount - lp_amount) as u128,
                ..*old(self)
            }) && *final(user) == (UserDeposit {
                lp_amount: (old(user).lp_amount - lp_amount) as u128,
                reward_debt: reward_snapshot(
                    (old(user).lp_amount - lp_amount) as nat,
                    old(self).acc_reward_per_share_p as nat,
                ) as u128,
            }) && final(self).tracks(*final(user)) && final(self).pending_reward(*final(user))
                == 0,
    {
        if user.lp_amount < lp_amount || self.total_lp_amount < lp_amount {
            return Err(Error::NotEnoughAmount);
        }
        let earned = match snapshot_of(user.lp_amount, self.acc_reward_per_share_p) {
            Some(v) => v,
            None => {
                return Err(Error::PoolOverflow);
            },
        };
        let pending = earned - user.reward_debt;
        let new_lp = user.lp_amount - lp_amount;
        proof {
            lemma_snapshot_monotonic(
                new_lp as nat,
                self.acc_reward_per_share_p as nat,
                user.lp_amount as nat,
                self.acc_reward_per_share_p as nat,
            );
        }
        let new_debt = match snapshot_of(new_lp, self.acc_reward_per_share_p) {
            Some(v) => v,
            None => {
                return Err(Error::PoolOverflow);
            },
        };
        self.total_lp_amount = self.total_lp_amount - lp_amount;
        user.lp_amount = new_lp;
        user.reward_debt = new_debt;
        Ok(pending)
    }

    /// Returns the rewards that the user has earned and not been paid, and
    /// marks them as paid. Refused with `PoolOverflow` where what the
    /// user's shares have earned does not fit in 128 bits.
    pub fn claim_rewards(&self, user_deposit: &mut UserDeposit) -> (r: Result<u128, Error>)
        requires
            self.tracks(*old(user_deposit)),
        ensures
            r is Ok <==> self.earned_fits(*old(user_deposit)),
            r is Err ==> r == Err::<u128, Error>(Error::PoolOverflow) && *final(user_deposit)
                == *old(user_deposit),
            r is Ok ==> r == Ok::<u128, Error>(self.pending_reward(*old(user_deposit)) as u128)
                && self.pending_reward(*old(user_deposit)) >= 0 && *final(user_deposit) == (
                UserDeposit {
                    reward_debt: reward_snapshot(
                        old(user_deposit).lp_amount as nat,
                        self.acc_reward_per_share_p as nat,
                    ) as u128,
                    ..*old(user_deposit)
                }) && self.tracks(*final(user_deposit)) && self.pending_reward(
                *final(user_deposit),
            ) == 0,
    {
        if user_deposit.lp_amount > 0 {
            let rewards = match snapshot_of(user_deposit.lp_amount, self.acc_reward_per_share_p) {
                Some(v) => v,
                None => {
                    return Err(Error::PoolOverflow);
                },
            };
            let pending = rewards - user_deposit.reward_debt;
            if pending > 0 {
                user_deposit.reward_debt = rewards;
            }
            return Ok(pending);
        }
        proof {
            assert(0 * self.acc_reward_per_share_p as nat == 0) by (nonlinear_arith);
        }
        Ok(0)
    }

    /// Adds `reward_amount` to the pool's rewards: the administrator's part
    /// to the administrator's amount, the rest to the accumulator, per
    /// share. A pool without shares takes none. Refused with `PoolOverflow`
    /// where the accumulator or the administrator's amount would leave 128
    /// bits.
    pub fn add_rewards(&mut self, reward_amount: u128) -> (r: Result<(), Error>)
        requires
            old(self).admin_fee_share_bp <= BP,
        ensures
            r is Ok <==> old(self).rewards_fit(reward_amount as nat),
            r is Err ==> r == Err::<(), Error>(Error::PoolOverflow) && *final(self) == *old(self),
            r is Ok ==> *final(self) == old(self).with_rewards(reward_amount as nat),
            final(self).acc_reward_per_share_p >= old(self).acc_reward_per_share_p,
            forall|u: UserDeposit| old(self).tracks(u) ==> #[trigger] final(self).tracks(u),
    {
        if self.total_lp_amount > 0 {
            proof {
                assert(reward_amount * self.admin_fee_share_bp / (BP as int) <= reward_amount)
                    by (nonlinear_arith)
                    requires
                        self.admin_fee_share_bp <= BP,
                        BP == 10000,
                ;
            }
            let admin_fee_rewards = match mul_div(reward_amount, self.admin_fee_share_bp, BP) {
                Some(v) => v,
                None => {
                    return Err(Error::PoolOverflow);
                },
            };
            let lp_rewards = reward_amount - admin_fee_rewards;
            let increment = match mul_div(lp_rewards, REWARD_SCALE, self.total_lp_amount) {
                Some(v) => v,
                None => {
                    return Err(Error::PoolOverflow);
                },
            };
            let new_acc = match self.acc_reward_per_share_p.checked_add(increment) {
                Some(v) => v,
                None => {
                    return Err(Error::PoolOverflow);
                },
            };
            let new_admin = match self.admin_fee_amount.checked_add(admin_fee_rewards) {
                Some(v) => v,
                None => {
                    return Err(Error::PoolOverflow);
                },
            };
            proof {
                assert forall|u: UserDeposit| self.tracks(u) implies (Pool {
                    acc_reward_per_share_p: new_acc,
                    ..*self
                }).tracks(u) by {
                    lemma_snapshot_monotonic(
                        u.lp_amount as nat,
                        self.acc_reward_per_share_p as nat,
                        u.lp_amount as nat,
                        new_acc as nat,
                    );
                }
            }
            self.acc_reward_per_share_p = new_acc;
            self.admin_fee_amount = new_admin;
        }
        Ok(())
    }
}

} // verus!

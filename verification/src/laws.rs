//! What holds of the pool over whole histories, and of its ratio rule.

use vstd::prelude::*;
use crate::curve::lemma_curve_d_bound;
use crate::rewards::lemma_snapshot_monotonic;
use crate::pool::{lemma_balances_fit, ratio_ok, ClaimableBalance, Direction, Pool, UserDeposit,
    BP};

verus! {

impl Pool {
    /// Every share is backed by the invariant: the shares in all are no
    /// more than the invariant.
    pub open spec fn lp_backed(&self) -> bool {
        self.total_lp_amount <= self.d
    }
}

/// `post` is `pre` after a deposit that was not refused.
pub open spec fn deposit_step(pre: Pool, post: Pool) -> bool {
    pre.wf() && exists|user: UserDeposit, amount_sp: u128|
        #![trigger pre.deposit_refusal(user, amount_sp as nat)]
        pre.deposit_refusal(user, amount_sp as nat) is None && post == pre.deposited(
            amount_sp as nat,
        )
}

/// `post` is `pre` after a swap that was not refused.
pub open spec fn swap_step(pre: Pool, post: Pool) -> bool {
    pre.wf() && exists|
        claimable_balance: ClaimableBalance,
        amount_in: u128,
        receive_amount_min: u128,
        zero_fee: bool,
        claimable: bool,
        direction: Direction,
    |
        if amount_in == 0 {
            post == pre
        } else {
            (#[trigger] pre.swap_refusal(
                claimable_balance,
                amount_in as nat,
                receive_amount_min as nat,
                zero_fee,
                claimable,
                direction,
            )) is None && post == pre.swapped(amount_in as nat, zero_fee, direction)
        }
}

/// A deposit that is not refused makes the invariant grow, the reserves
/// grow by the amount, and gives exactly the growth of the invariant as
/// shares.
pub proof fn lemma_deposit_grows(pre: Pool, user: UserDeposit, amount_sp: u128)
    requires
        pre.wf(),
        pre.deposit_refusal(user, amount_sp as nat) is None,
    ensures
        pre.deposited(amount_sp as nat).d > pre.d,
        pre.deposited(amount_sp as nat).reserves == pre.reserves + amount_sp,
        pre.deposited(amount_sp as nat).total_lp_amount - pre.deposited(amount_sp as nat).d
            == pre.total_lp_amount - pre.d,
{
    lemma_balances_fit(
        pre.a as nat,
        pre.deposit_a(amount_sp as nat),
        pre.deposit_b(amount_sp as nat),
    );
    lemma_curve_d_bound(
        pre.a as nat,
        pre.deposit_a(amount_sp as nat),
        pre.deposit_b(amount_sp as nat),
    );
}

/// A withdrawal that is not refused makes the invariant shrink, and takes
/// exactly the shares from the shares in all and from the reserves.
pub proof fn lemma_withdraw_shrinks(pre: Pool, user: UserDeposit, amount_lp: u128)
    requires
        pre.wf(),
        pre.withdraw_refusal(user, amount_lp as nat) is None,
    ensures
        amount_lp > 0,
        pre.withdrawn(amount_lp as nat).d < pre.d,
        pre.withdrawn(amount_lp as nat).total_lp_amount == pre.total_lp_amount - amount_lp,
        pre.withdrawn(amount_lp as nat).reserves == pre.reserves - amount_lp,
{
    let a = pre.withdraw_a(amount_lp as nat);
    let b = pre.withdraw_b(amount_lp as nat);
    lemma_balances_fit(pre.a as nat, a as nat, b as nat);
    lemma_curve_d_bound(pre.a as nat, a as nat, b as nat);
    if amount_lp == 0 {
        assert(0 * pre.token_a_balance == 0 && 0 * pre.token_b_balance == 0) by (nonlinear_arith);
    }
}

/// From a pool without shares, through any history of deposits and swaps
/// that were not refused, every share stays backed by the invariant.
pub proof fn lemma_shares_backed(trace: Seq<Pool>)
    requires
        trace.len() > 0,
        trace[0].total_lp_amount == 0,
        forall|i: int|
            0 <= i < trace.len() - 1 ==> #[trigger] deposit_step(trace[i], trace[i + 1])
                || swap_step(trace[i], trace[i + 1]),
    ensures
        forall|i: int| 0 <= i < trace.len() ==> (#[trigger] trace[i]).lp_backed(),
{
    assert forall|i: int| 0 <= i < trace.len() implies (#[trigger] trace[i]).lp_backed() by {
        lemma_backed_at(trace, i);
    }
}

proof fn lemma_backed_at(trace: Seq<Pool>, i: int)
    requires
        trace.len() > 0,
        trace[0].total_lp_amount == 0,
        forall|i: int|
            0 <= i < trace.len() - 1 ==> #[trigger] deposit_step(trace[i], trace[i + 1])
                || swap_step(trace[i], trace[i + 1]),
        0 <= i < trace.len(),
    ensures
        trace[i].lp_backed(),
    decreases i,
{
    if i > 0 {
        lemma_backed_at(trace, i - 1);
        let pre = trace[i - 1];
        let post = trace[i];
        assert(deposit_step(trace[i - 1], trace[i - 1 + 1]) || swap_step(
            trace[i - 1],
            trace[i - 1 + 1],
        ));
        if deposit_step(pre, post) {
            let (user, amount_sp) = choose|user: UserDeposit, amount_sp: u128|
                #![trigger pre.deposit_refusal(user, amount_sp as nat)]
                pre.deposit_refusal(user, amount_sp as nat) is None && post == pre.deposited(
                    amount_sp as nat,
                );
            lemma_deposit_grows(pre, user, amount_sp);
        } else {
            assert(swap_step(pre, post));
            assert(post.d == pre.d && post.total_lp_amount == pre.total_lp_amount);
        }
    }
}

/// Rewards that come into the pool take nothing from any user: what a user
/// has earned and not been paid, `lp_amount * acc_reward_per_share_p / 2^48
/// - reward_debt`, is after the rewards at least what it was before.
pub proof fn lemma_rewards_keep_pending(pre: Pool, user: UserDeposit, reward_amount: u128)
    requires
        pre.rewards_fit(reward_amount as nat),
    ensures
        pre.with_rewards(reward_amount as nat).pending_reward(user) >= pre.pending_reward(user),
        pre.tracks(user) ==> pre.with_rewards(reward_amount as nat).tracks(user),
{
    let post = pre.with_rewards(reward_amount as nat);
    lemma_snapshot_monotonic(
        user.lp_amount as nat,
        pre.acc_reward_per_share_p as nat,
        user.lp_amount as nat,
        post.acc_reward_per_share_p as nat,
    );
}

/// The ratio rule, multiplied out: two balances are in ratio exactly when
/// the smaller times 10000 is at least the larger times the minimum in
/// basis points.
pub proof fn lemma_ratio_multiplied_out(x: nat, y: nat, min_bp: nat)
    ensures
        ratio_ok(x, y, min_bp) <==> (if x <= y {
            x
        } else {
            y
        }) * BP as nat >= min_bp * (if x <= y {
            y
        } else {
            x
        }),
{
    let low = if x <= y { x } else { y };
    let high = if x <= y { y } else { x };
    let n = low * BP as nat;
    if high == 0 {
        assert(min_bp * 0 == 0) by (nonlinear_arith);
        assert(0 * BP as nat == 0) by (nonlinear_arith);
    } else {
        vstd::arithmetic::div_mod::lemma_fundamental_div_mod(n as int, high as int);
        let q = n / high;
        if q >= min_bp {
            assert(min_bp * high <= n) by (nonlinear_arith)
                requires
                    n == high * q + (n as int) % (high as int),
                    0 <= (n as int) % (high as int),
                    q >= min_bp,
            ;
        } else {
            assert(min_bp * high > n) by (nonlinear_arith)
                requires
                    n == high * q + (n as int) % (high as int),
                    (n as int) % (high as int) < high,
                    q + 1 <= min_bp,
            ;
        }
    }
}

} // verus!

//! The reasons for which a pool operation is refused.

use vstd::prelude::*;

verus! {

/// Why an operation on the pool was refused. A refused operation leaves the
/// pool and the records handed to it as they were.
#[derive(Clone, Copy, Debug, PartialEq, Eq, Structural)]
pub enum Error {
    /// A deposit of nothing.
    ZeroAmount,
    /// Fewer shares would be given than the depositor's minimum. No
    /// operation here takes such a minimum: the variant is for the caller
    /// that sets one on a deposit's receipt.
    Slippage,
    /// A swap would pay out less than the caller's minimum.
    InsufficientReceivedAmount,
    /// The operation would leave the pool's totals where they were.
    ZeroChanges,
    /// More would leave the pool than its reserves hold.
    ReservesExhausted,
    /// The user holds fewer shares than the operation takes.
    NotEnoughAmount,
    /// A balance would reach the ceiling, or a stored amount would leave
    /// its 128 bits.
    PoolOverflow,
    /// The smaller balance would fall below the allowed share of the
    /// larger one.
    BalanceRatioExceeded,
}

} // verus!

//! Integer engine of a two-asset stable-swap liquidity pool: the bonding
//! curve, the deposit / withdraw / swap transitions and the reward
//! accounting, with every arithmetic step proved free of overflow.

pub mod curve;
pub mod deposit;
pub mod double_u128;
pub mod error;
pub mod laws;
pub mod num;
pub mod pool;
pub mod precision;
pub mod rewards;
pub mod swap;
pub mod uint256;
pub mod withdraw;

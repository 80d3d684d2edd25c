//! Kinds of condition checked before a skill is used.

use vstd::prelude::*;

verus! {

/// hp must be greater than a bound
pub const HP_LIMIT_GT: u32 = 1;
/// once per round
pub const LIMIT_ROUND_TIMES: u32 = 2;
/// once per turn
pub const LIMIT_TURN_TIMES: u32 = 3;
/// only after a pair
pub const PAIR_LIMIT: u32 = 4;

} // verus!

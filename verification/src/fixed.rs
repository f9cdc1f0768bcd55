//! Fixed-point units and the bounded subtraction primitive.
//!
//! One token (and one share) is `SCALE` units; every balance, supply and
//! position in the system is a `u64` number of units.  Every decrement of a
//! balance, a position or a share supply routes through [`checked_sub`], so a
//! tiny residue collapses to exactly zero and a genuine shortfall surfaces as
//! an error instead of silent negative state.

use vstd::prelude::*;

verus! {

/// Number of units in one token: amounts carry six decimal places.
pub const SCALE: u64 = 1_000_000;

/// Tolerance of the bounded subtraction, in units (one millionth of a token).
pub const EPS_UNITS: u64 = 1;

/// The LMSR liquidity parameter `B`, in units: ten tokens.
pub const B_UNITS: u64 = 10_000_000;

/// `B * ln 2` in units, rounded: the cost of a balanced market above its
/// leading supply, and an upper bound of the curvature term of the cost.
pub const BLN2_UNITS: u64 = 6_931_472;

/// Largest supply or amount the pricing engine accepts: 2^62 units.
pub const MAX_SHARES: u64 = 4_611_686_018_427_387_904;

/// Result of the bounded subtraction on its non-underflowing inputs:
/// differences below the tolerance collapse to exactly zero.
pub open spec fn sub_units(left: int, right: int) -> int {
    if left - right < EPS_UNITS { 0 } else { left - right }
}

/// Computes `left - right`; a result within `[-EPS_UNITS, EPS_UNITS)`
/// collapses to exactly zero, and a result below `-EPS_UNITS` is reported
/// as underflow instead of a silent negative value.
pub fn checked_sub(left: u64, right: u64) -> (r: Result<u64, ()>)
    ensures
        match r {
            Ok(v) => right <= left + EPS_UNITS && v == sub_units(left as int, right as int),
            Err(_) => left + EPS_UNITS < right,
        },
{
    if right > left {
        let shortfall = right - left;
        if shortfall > EPS_UNITS {
            Err(())
        } else {
            Ok(0)
        }
    } else {
        let res = left - right;
        if res < EPS_UNITS {
            Ok(0)
        } else {
            Ok(res)
        }
    }
}

} // verus!

//! The engagement calculator: turns a member's counters and the shared
//! baseline into the badge fill level.

use vstd::prelude::*;

verus! {

/// Lowest badge fill level.
pub const MIN_LEVEL: i64 = 1;

/// Highest badge fill level.
pub const MAX_LEVEL: i64 = 10;

/// The engagement level of a member with `uv` unique visitors and `rv`
/// referrers under the given baseline: the truncated quotient of the total
/// activity by the baseline, clamped to the range of badge levels.
pub open spec fn level(uv: int, rv: int, baseline: int) -> int
    recommends
        baseline >= 1,
{
    if uv + rv < baseline {
        MIN_LEVEL as int
    } else if (uv + rv) / baseline > MAX_LEVEL {
        MAX_LEVEL as int
    } else {
        (uv + rv) / baseline
    }
}

/// Every level lies between the lowest and the highest badge level.
pub proof fn lemma_level_bounded(uv: int, rv: int, baseline: int)
    requires
        baseline >= 1,
    ensures
        MIN_LEVEL <= level(uv, rv, baseline) <= MAX_LEVEL,
{
    if uv + rv >= baseline {
        assert((uv + rv) / baseline >= 1) by (nonlinear_arith)
            requires
                uv + rv >= baseline,
                baseline >= 1,
        ;
    }
}

/// Computes [`level`] without overflow for any pair of counters.
pub fn compute_level(uv: i64, rv: i64, baseline: i64) -> (tend: i64)
    requires
        baseline >= 1,
    ensures
        tend == level(uv as int, rv as int, baseline as int),
        MIN_LEVEL <= tend <= MAX_LEVEL,
{
    proof {
        lemma_level_bounded(uv as int, rv as int, baseline as int);
    }
    let total: i128 = uv as i128 + rv as i128;
    let base: i128 = baseline as i128;
    if total < base {
        return MIN_LEVEL;
    }
    let quotient: i128 = total / base;
    if quotient > 10 {
        MAX_LEVEL
    } else {
        assert(quotient >= 1) by (nonlinear_arith)
            requires
                quotient == total / base,
                total >= base,
                base >= 1,
        ;
        quotient as i64
    }
}

} // verus!

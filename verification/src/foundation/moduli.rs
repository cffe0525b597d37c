//! Target-neutral stability facts and finite recursion envelopes for pointed
//! curves.

use vstd::prelude::*;

verus! {

/// Work bound for the branching descendant divisor recursion used when the
/// underlying pointed curve is unstable.
pub const MAX_UNSTABLE_DIVISOR_RECURSION_TOTAL_PSI: usize = 8;

/// Stability of a connected pointed curve of arithmetic genus `g` with `n`
/// markings: `2g - 2 + n > 0`.
pub open spec fn spec_pointed_curve_is_stable(genus: nat, markings: nat) -> bool {
    2 * genus + markings > 2
}

/// Stability of a complete connected pointed curve (or a stable-graph
/// vertex), decided without evaluating the potentially overflowing
/// expression `2g + n > 2`.
pub fn pointed_curve_is_stable(genus: usize, markings: usize) -> (stable: bool)
    ensures
        stable == spec_pointed_curve_is_stable(genus as nat, markings as nat),
{
    match genus {
        0 => markings >= 3,
        1 => markings >= 1,
        _ => true,
    }
}

} // verus!

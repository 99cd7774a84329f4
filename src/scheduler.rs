//! The sampling loop's timing: every tick ends on a whole multiple of the
//! sample period since the epoch, so that samples line up across nodes.

use vstd::prelude::*;

verus! {

/// How long to sleep, from `now` (nanoseconds since the epoch), to wake on
/// the next whole multiple of `period` nanoseconds: a full period when `now`
/// is itself a multiple.
pub fn time_to_round_timestamp(now: u128, period: u128) -> (r: u128)
    requires
        period > 0,
        now + period <= u128::MAX,
    ensures
        r == (now / period + 1) * period - now,
        0 < r <= period,
        (now + r) % (period as int) == 0,
{
    let q = now / period;
    proof {
        assert(q * period <= now < q * period + period) by (nonlinear_arith)
            requires
                q == now / period,
                period > 0,
        ;
        assert((q + 1) * period == q * period + period) by (nonlinear_arith);
        assert(((q + 1) * period) % (period as int) == 0) by (nonlinear_arith)
            requires
                period > 0,
        ;
    }
    let next = (q + 1) * period;
    next - now
}

} // verus!

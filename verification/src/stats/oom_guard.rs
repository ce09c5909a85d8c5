//! A run ends before the memory does.

use vstd::prelude::*;

verus! {

/// What the state of the memory asks for.
#[derive(Debug, Clone, Copy, PartialEq, Eq, Structural)]
pub enum Memory {
    /// There is enough, or nothing is known.
    Fine,
    /// Less than a fifth is free.
    Low,
    /// Less than a tenth is free: the run ends.
    Out,
}

/// What so much free memory of so much asks for; both are in kilobytes. The share is
/// rounded down to a whole percent.
pub fn judge(total_kb: u64, avail_kb: u64) -> (r: Memory)
    requires
        avail_kb * 100 <= u64::MAX,
    ensures
        r == if total_kb == 0 {
            Memory::Fine
        } else if avail_kb * 100 / (total_kb as int) < 10 {
            Memory::Out
        } else if avail_kb * 100 / (total_kb as int) < 20 {
            Memory::Low
        } else {
            Memory::Fine
        },
        r == Memory::Out <==> avail_kb * 10 < total_kb,
        r == Memory::Low <==> avail_kb * 10 >= total_kb > 0 && avail_kb * 5 < total_kb,
{
    if total_kb == 0 {
        return Memory::Fine;
    }
    let pct: u64 = avail_kb * 100 / total_kb;
    proof {
        let (a, t, q) = (avail_kb * 100, total_kb as int, pct as int);
        vstd::arithmetic::div_mod::lemma_fundamental_div_mod(a, t);
        let r = a % t;
        assert(q * t <= a < (q + 1) * t) by (nonlinear_arith)
            requires
                a == t * q + r,
                0 <= r < t,
        ;
        assert((q < 10) == (a < 10 * t) && (q < 20) == (a < 20 * t)) by (nonlinear_arith)
            requires
                q * t <= a < (q + 1) * t,
                t > 0,
        ;
    }
    if pct < 10 {
        Memory::Out
    } else if pct < 20 {
        Memory::Low
    } else {
        Memory::Fine
    }
}

} // verus!

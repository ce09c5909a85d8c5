//! Products that do not fit in a machine word.

use vstd::prelude::*;

verus! {

/// Two to the sixty-fourth.
const HALF: u128 = 0x1_0000_0000_0000_0000;

/// A product of two 128-bit numbers: its upper and its lower half.
#[derive(Debug, Clone, Copy, PartialEq, Eq, Structural)]
pub struct Wide {
    pub hi: u128,
    pub lo: u128,
}

impl Wide {
    /// The number.
    pub open spec fn num(self) -> int {
        self.hi * 0x1_0000_0000_0000_0000_0000_0000_0000_0000 + self.lo
    }

    /// Whether the number is larger than another.
    pub fn exceeds(&self, other: &Wide) -> (r: bool)
        ensures
            r == (self.num() > other.num()),
    {
        self.hi > other.hi || (self.hi == other.hi && self.lo > other.lo)
    }
}

/// Multiplies two numbers.
pub fn wide_product(x: u128, y: u128) -> (r: Wide)
    ensures
        r.num() == x * y,
{
    let x0: u128 = x % HALF;
    let x1: u128 = x / HALF;
    let y0: u128 = y % HALF;
    let y1: u128 = y / HALF;
    proof {
        lemma_part(x0 as int, y0 as int);
        lemma_part(x0 as int, y1 as int);
        lemma_part(x1 as int, y0 as int);
        lemma_part(x1 as int, y1 as int);
    }
    let p00: u128 = x0 * y0;
    let p01: u128 = x0 * y1;
    let p10: u128 = x1 * y0;
    let p11: u128 = x1 * y1;
    let mid: u128 = p00 / HALF + p01 % HALF + p10 % HALF;
    let lo: u128 = (mid % HALF) * HALF + p00 % HALF;
    let hi: u128 = p11 + p01 / HALF + p10 / HALF + mid / HALF;
    proof {
        lemma_product(x0 as int, x1 as int, y0 as int, y1 as int);
        assert(x == x1 * 0x1_0000_0000_0000_0000 + x0);
        assert(y == y1 * 0x1_0000_0000_0000_0000 + y0);
        assert(mid == (mid / HALF) * 0x1_0000_0000_0000_0000 + mid % HALF);
        assert(p00 == (p00 / HALF) * 0x1_0000_0000_0000_0000 + p00 % HALF);
        assert(p01 == (p01 / HALF) * 0x1_0000_0000_0000_0000 + p01 % HALF);
        assert(p10 == (p10 / HALF) * 0x1_0000_0000_0000_0000 + p10 % HALF);
        assert(p00 == x0 * y0 && p01 == x0 * y1 && p10 == x1 * y0 && p11 == x1 * y1);
    }
    Wide { hi, lo }
}

proof fn lemma_part(a: int, b: int)
    requires
        0 <= a < HALF,
        0 <= b < HALF,
    ensures
        0 <= a * b <= 0xFFFF_FFFF_FFFF_FFFE_0000_0000_0000_0001,
{
    assert(0 <= a * b <= 0xFFFF_FFFF_FFFF_FFFF * 0xFFFF_FFFF_FFFF_FFFF) by (nonlinear_arith)
        requires
            0 <= a <= 0xFFFF_FFFF_FFFF_FFFF,
            0 <= b <= 0xFFFF_FFFF_FFFF_FFFF,
    ;
}

proof fn lemma_product(x0: int, x1: int, y0: int, y1: int)
    ensures
        (x1 * 0x1_0000_0000_0000_0000 + x0) * (y1 * 0x1_0000_0000_0000_0000 + y0) == (x1 * y1) * 0x1_0000_0000_0000_0000_0000_0000_0000_0000 + (x0 * y1) * 0x1_0000_0000_0000_0000 + (x1 * y0) * 0x1_0000_0000_0000_0000 + x0 * y0,
{
    assert((x1 * 0x1_0000_0000_0000_0000 + x0) * (y1 * 0x1_0000_0000_0000_0000 + y0) == (x1 * y1) * 0x1_0000_0000_0000_0000_0000_0000_0000_0000 + (x0 * y1) * 0x1_0000_0000_0000_0000 + (x1 * y0) * 0x1_0000_0000_0000_0000 + x0 * y0) by (nonlinear_arith);
}

} // verus!

//! The vector units of the processor, for the banner at the start.

use vstd::prelude::*;

verus! {

/// How far the vector units of a processor go.
#[derive(Debug, Clone, Copy, PartialEq, Eq, PartialOrd, Ord, Structural)]
pub enum SimdLevel {
    Scalar,
    Sse2,
    Sse42,
    Avx2,
    Avx512,
}

/// What a processor says of itself.
#[derive(Debug, Clone, Copy, PartialEq, Eq, Structural)]
pub struct CpuFeatures {
    pub x86_64: bool,
    pub sse42: bool,
    pub avx2: bool,
    pub avx512f: bool,
}

impl SimdLevel {
    /// The name of a level.
    pub fn as_str(self) -> (r: &'static str)
        ensures
            r@ == match self {
                SimdLevel::Scalar => "Scalar"@,
                SimdLevel::Sse2 => "SSE2"@,
                SimdLevel::Sse42 => "SSE4.2"@,
                SimdLevel::Avx2 => "AVX2"@,
                SimdLevel::Avx512 => "AVX-512"@,
            },
    {
        match self {
            SimdLevel::Scalar => "Scalar",
            SimdLevel::Sse2 => "SSE2",
            SimdLevel::Sse42 => "SSE4.2",
            SimdLevel::Avx2 => "AVX2",
            SimdLevel::Avx512 => "AVX-512",
        }
    }
}

/// The highest level of a processor. Every x86-64 has SSE2.
pub open spec fn level_of(f: CpuFeatures) -> SimdLevel {
    if !f.x86_64 {
        SimdLevel::Scalar
    } else if f.avx512f {
        SimdLevel::Avx512
    } else if f.avx2 {
        SimdLevel::Avx2
    } else if f.sse42 {
        SimdLevel::Sse42
    } else {
        SimdLevel::Sse2
    }
}

/// The highest level of a processor.
pub fn simd_level(f: CpuFeatures) -> (r: SimdLevel)
    ensures
        r == level_of(f),
{
    detect(f)
}

/// Picks the highest level that a processor has.
fn detect(f: CpuFeatures) -> (r: SimdLevel)
    ensures
        r == level_of(f),
{
    if f.x86_64 {
        if f.avx512f {
            return SimdLevel::Avx512;
        }
        if f.avx2 {
            return SimdLevel::Avx2;
        }
        if f.sse42 {
            return SimdLevel::Sse42;
        }
        return SimdLevel::Sse2;
    }
    SimdLevel::Scalar
}

/// How high a level is.
pub open spec fn height(l: SimdLevel) -> int {
    match l {
        SimdLevel::Scalar => 0,
        SimdLevel::Sse2 => 1,
        SimdLevel::Sse42 => 2,
        SimdLevel::Avx2 => 3,
        SimdLevel::Avx512 => 4,
    }
}

/// The level of a processor is the highest of the units that it has: each unit gives at
/// least its own level, and there is none above all of them.
pub proof fn level_is_highest_unit(f: CpuFeatures)
    ensures
        !f.x86_64 ==> height(level_of(f)) == 0,
        f.x86_64 ==> {
            &&& height(level_of(f)) >= 1
            &&& f.sse42 ==> height(level_of(f)) >= 2
            &&& f.avx2 ==> height(level_of(f)) >= 3
            &&& f.avx512f ==> height(level_of(f)) >= 4
            &&& !f.avx512f ==> height(level_of(f)) < 4
            &&& !f.avx512f && !f.avx2 ==> height(level_of(f)) < 3
            &&& !f.avx512f && !f.avx2 && !f.sse42 ==> height(level_of(f)) < 2
        },
{
}

} // verus!

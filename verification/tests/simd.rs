use dnsmark::simd::{simd_level, CpuFeatures, SimdLevel};

fn features(x86_64: bool, sse42: bool, avx2: bool, avx512f: bool) -> CpuFeatures {
    CpuFeatures { x86_64, sse42, avx2, avx512f }
}

#[test]
fn level_ordering() {
    assert!(SimdLevel::Scalar < SimdLevel::Sse2);
    assert!(SimdLevel::Sse2 < SimdLevel::Sse42);
    assert!(SimdLevel::Sse42 < SimdLevel::Avx2);
    assert!(SimdLevel::Avx2 < SimdLevel::Avx512);
}

#[test]
fn simd_level_cached() {
    let f = features(true, true, true, false);
    assert_eq!(simd_level(f), simd_level(f));
}

#[test]
fn sse2_always_available() {
    for bits in 0..8 {
        let f = features(true, bits & 1 != 0, bits & 2 != 0, bits & 4 != 0);
        assert!(simd_level(f) >= SimdLevel::Sse2);
    }
}

#[test]
fn each_level_has_its_features_and_its_name() {
    assert_eq!(simd_level(features(false, true, true, true)), SimdLevel::Scalar);
    assert_eq!(simd_level(features(true, false, false, false)), SimdLevel::Sse2);
    assert_eq!(simd_level(features(true, true, false, false)), SimdLevel::Sse42);
    assert_eq!(simd_level(features(true, false, true, false)), SimdLevel::Avx2);
    assert_eq!(simd_level(features(true, false, false, true)), SimdLevel::Avx512);
    assert_eq!(SimdLevel::Scalar.as_str(), "Scalar");
    assert_eq!(SimdLevel::Sse2.as_str(), "SSE2");
    assert_eq!(SimdLevel::Sse42.as_str(), "SSE4.2");
    assert_eq!(SimdLevel::Avx2.as_str(), "AVX2");
    assert_eq!(SimdLevel::Avx512.as_str(), "AVX-512");
}

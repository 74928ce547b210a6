use gemm::cache::{checked_next_power_of_two, div_ceil, gcd};
use gemm::{default_cache_info, get_f32_microkernel_params, CacheInfo, CpuFeatures, TargetArch};

fn features(avx512_kernels: bool, avx512f: bool, fma: bool, neon: bool, simd128: bool) -> CpuFeatures {
    CpuFeatures { avx512_kernels, avx512f, fma, neon, simd128 }
}

#[test]
fn f32_microkernel_on_x86() {
    let all = features(true, true, true, false, false);
    assert_eq!(get_f32_microkernel_params(TargetArch::X86_64, &all), (64, 6));
    // AVX-512 detected but its kernels not built: FMA kernel
    let no_v4 = features(false, true, true, false, false);
    assert_eq!(get_f32_microkernel_params(TargetArch::X86_64, &no_v4), (16, 6));
    let fma = features(false, false, true, false, false);
    assert_eq!(get_f32_microkernel_params(TargetArch::X86, &fma), (16, 6));
    let none = features(true, false, false, false, false);
    assert_eq!(get_f32_microkernel_params(TargetArch::X86_64, &none), (2, 4));
}

#[test]
fn f32_microkernel_elsewhere() {
    let neon = features(false, false, false, true, false);
    assert_eq!(get_f32_microkernel_params(TargetArch::Aarch64, &neon), (16, 4));
    let none = features(false, false, false, false, false);
    assert_eq!(get_f32_microkernel_params(TargetArch::Aarch64, &none), (2, 4));
    let simd = features(false, false, false, false, true);
    assert_eq!(get_f32_microkernel_params(TargetArch::Wasm32, &simd), (12, 4));
    assert_eq!(get_f32_microkernel_params(TargetArch::Wasm32, &none), (2, 4));
    let all = features(true, true, true, true, true);
    assert_eq!(get_f32_microkernel_params(TargetArch::Riscv64, &all), (2, 4));
}

#[test]
fn default_caches() {
    let c = |kib: usize| CacheInfo { associativity: 8, cache_bytes: kib * 1024, cache_line_bytes: 64 };
    assert_eq!(default_cache_info(TargetArch::X86_64), [c(32), c(256), c(2048)]);
    assert_eq!(default_cache_info(TargetArch::X86), [c(32), c(256), c(2048)]);
    assert_eq!(default_cache_info(TargetArch::PowerPc64), [c(64), c(512), c(4096)]);
    assert_eq!(default_cache_info(TargetArch::Aarch64), [c(16), c(512), c(1024)]);
}

#[test]
fn integer_helpers() {
    assert_eq!(div_ceil(13, 4), 4);
    assert_eq!(div_ceil(12, 4), 3);
    assert_eq!(div_ceil(0, 4), 0);
    assert_eq!(div_ceil(usize::MAX, 2), usize::MAX / 2 + 1);
    assert_eq!(gcd(96, 4096), 32);
    assert_eq!(gcd(0, 7), 7);
    assert_eq!(gcd(7, 0), 7);
    assert_eq!(checked_next_power_of_two(0), Some(1));
    assert_eq!(checked_next_power_of_two(1), Some(1));
    assert_eq!(checked_next_power_of_two(5), Some(8));
    assert_eq!(checked_next_power_of_two(8), Some(8));
    assert_eq!(checked_next_power_of_two(usize::MAX / 2 + 1), Some(usize::MAX / 2 + 1));
    assert_eq!(checked_next_power_of_two(usize::MAX / 2 + 2), None);
}

use gemm::cache::kernel_params;
use gemm::{
    checked_kernel_params, checked_packed_rhs_size, checked_packed_rhs_size_f32,
    default_cache_info, packed_rhs_alignment, packed_rhs_size, packed_rhs_size_f32, CacheInfo,
    CpuFeatures, KernelParams, Machine, TargetArch,
};

fn x86_caches() -> [CacheInfo; 3] {
    default_cache_info(TargetArch::X86_64)
}

#[test]
fn test_packed_rhs_size_basic() {
    // Test with typical f32 GEMM parameters
    let (info, size) = packed_rhs_size(256, 256, 24, 4, 4, &x86_caches());
    assert_eq!(info.k, 256);
    assert_eq!(info.n, 256);
    assert!(info.kc > 0);
    assert_eq!(info.nr, 4);
    assert!(size > 0);
    assert_eq!(size, info.packed_size);
}

#[test]
fn test_packed_rhs_size_small() {
    // Test with small dimensions
    let (info, size) = packed_rhs_size(4, 4, 8, 4, 4, &x86_caches());
    assert_eq!(info.k, 4);
    assert_eq!(info.n, 4);
    assert!(size > 0);
}

#[test]
fn test_packed_rhs_size_non_multiple() {
    // Test with dimensions that aren't multiples of nr
    let (info, size) = packed_rhs_size(100, 13, 24, 4, 4, &x86_caches());
    assert_eq!(info.k, 100);
    assert_eq!(info.n, 13);
    // n_panels should round up: ceil(13/4) = 4
    assert!(size > 0);
}

#[test]
fn packed_rhs_size_exact_values() {
    let (info, size) = packed_rhs_size(256, 256, 24, 4, 4, &x86_caches());
    assert_eq!(info.kc, 256);
    assert_eq!(size, 65536);

    let (info, size) = packed_rhs_size(4, 4, 8, 4, 4, &x86_caches());
    assert_eq!(info.kc, 4);
    assert_eq!(size, 16);

    // ceil(13 / 4) = 4 panels of 100 × 4 elements
    let (info, size) = packed_rhs_size(100, 13, 24, 4, 4, &x86_caches());
    assert_eq!(info.kc, 100);
    assert_eq!(size, 1600);
}

#[test]
fn packed_rhs_size_balances_depth_blocks() {
    // kc starts at 512; 2000 needs 4 such blocks, balanced to 500 each
    let (info, size) = packed_rhs_size(2000, 64, 24, 4, 4, &x86_caches());
    assert_eq!(info.kc, 500);
    assert_eq!(size, 4 * 16 * 500 * 4);
}

#[test]
fn packed_rhs_size_empty_columns() {
    let (info, size) = packed_rhs_size(7, 0, 24, 4, 4, &x86_caches());
    assert_eq!(info.kc, 7);
    assert_eq!(size, 0);
    assert_eq!(info.packed_size, 0);
}

#[test]
fn packed_buffer_holds_the_matrix() {
    for &(k, n) in &[(1usize, 1usize), (3, 5), (100, 13), (513, 7), (2000, 64), (4096, 3)] {
        let (info, size) = packed_rhs_size(k, n, 24, 4, 4, &x86_caches());
        let k_panels = (k + info.kc - 1) / info.kc;
        let n_panels = (n + info.nr - 1) / info.nr;
        assert_eq!(size, k_panels * n_panels * info.kc * info.nr);
        assert!(size >= k * n);
        assert!(size < (k + info.kc) * (n + info.nr));
        assert!(1 <= info.kc && info.kc <= k);
    }
}

#[test]
fn packed_kc_is_independent_of_batch_size() {
    let caches = x86_caches();
    for &(k, n) in &[(256usize, 256usize), (2000, 64), (100, 13)] {
        let (info, _) = packed_rhs_size(k, n, 24, 4, 4, &caches);
        for &m in &[1usize, 7, 64, 1024, 100000] {
            assert_eq!(kernel_params(m, n, k, 24, 4, 4, &caches).kc, info.kc);
        }
    }
}

#[test]
fn kernel_params_exact_values() {
    let p = kernel_params(1024, 256, 256, 24, 4, 4, &x86_caches());
    assert_eq!(p, KernelParams { kc: 256, mc: 192, nc: 256 });
    let p = kernel_params(1024, 64, 2000, 24, 4, 4, &x86_caches());
    assert_eq!(p, KernelParams { kc: 500, mc: 96, nc: 64 });
}

#[test]
fn kernel_params_empty_problem() {
    let p = kernel_params(0, 5, 7, 24, 4, 4, &x86_caches());
    assert_eq!(p, KernelParams { kc: 7, mc: 0, nc: 5 });
    let p = kernel_params(3, 5, 0, 24, 4, 4, &x86_caches());
    assert_eq!(p, KernelParams { kc: 0, mc: 3, nc: 5 });
}

#[test]
fn kernel_params_without_l3() {
    let mut caches = x86_caches();
    caches[2].cache_bytes = 0;
    let p = kernel_params(1024, 256, 256, 24, 4, 4, &caches);
    assert_eq!(p.nc, 0);
    assert_eq!(p.kc, 256);
}

#[test]
fn packed_rhs_size_f32_fma() {
    let machine = Machine {
        arch: TargetArch::X86_64,
        features: CpuFeatures {
            avx512_kernels: false,
            avx512f: false,
            fma: true,
            neon: false,
            simd128: false,
        },
        caches: x86_caches(),
    };
    let (info, bytes) = packed_rhs_size_f32(256, 256, &machine);
    assert_eq!(info.nr, 6);
    assert_eq!(info.kc, 256);
    assert_eq!(info.packed_size, 43 * 256 * 6);
    assert_eq!(bytes, 4 * info.packed_size);
    let (same, elements) = packed_rhs_size(256, 256, 16, 6, 4, &machine.caches);
    assert_eq!(same, info);
    assert_eq!(bytes, 4 * elements);
}

#[test]
fn packed_rhs_alignment_per_arch() {
    assert_eq!(packed_rhs_alignment(TargetArch::X86_64), 128);
    assert_eq!(packed_rhs_alignment(TargetArch::Aarch64), 128);
    assert_eq!(packed_rhs_alignment(TargetArch::PowerPc64), 128);
    assert_eq!(packed_rhs_alignment(TargetArch::Arm), 32);
    assert_eq!(packed_rhs_alignment(TargetArch::Riscv64), 32);
    assert_eq!(packed_rhs_alignment(TargetArch::S390x), 256);
    assert_eq!(packed_rhs_alignment(TargetArch::X86), 64);
    assert_eq!(packed_rhs_alignment(TargetArch::Wasm32), 64);
}

#[test]
fn checked_packing_refuses_what_would_panic() {
    let caches = x86_caches();
    // empty depth: the depth block is 0 and the panel count divides by it
    assert_eq!(checked_packed_rhs_size(0, 4, 24, 4, 4, &caches), None);
    // empty register block
    assert_eq!(checked_packed_rhs_size(4, 4, 24, 0, 4, &caches), None);
    // element size 0: the row block divides by zero
    assert_eq!(checked_packed_rhs_size(4, 4, 24, 4, 0, &caches), None);
    // unknown L2 cache
    let mut no_l2 = caches;
    no_l2[1].cache_bytes = 0;
    assert_eq!(checked_packed_rhs_size(4, 4, 24, 4, 4, &no_l2), None);
    // buffer size overflows
    assert_eq!(checked_packed_rhs_size(usize::MAX / 2, usize::MAX / 2, 24, 4, 4, &caches), None);
    // otherwise the same as the unchecked function
    assert_eq!(
        checked_packed_rhs_size(100, 13, 24, 4, 4, &caches),
        Some(packed_rhs_size(100, 13, 24, 4, 4, &caches))
    );
}

#[test]
fn checked_kernel_params_refuses_what_would_panic() {
    let caches = x86_caches();
    let mut no_l2 = caches;
    no_l2[1].cache_bytes = 0;
    assert_eq!(checked_kernel_params(8, 8, 8, 24, 4, 4, &no_l2), None);
    // an empty problem needs no cache
    assert_eq!(
        checked_kernel_params(0, 8, 8, 24, 4, 4, &no_l2),
        Some(KernelParams { kc: 8, mc: 0, nc: 8 })
    );
    // a zero-row microkernel
    assert_eq!(checked_kernel_params(8, 8, 8, 0, 4, 4, &caches), None);
    assert_eq!(
        checked_kernel_params(1024, 256, 256, 24, 4, 4, &caches),
        Some(KernelParams { kc: 256, mc: 192, nc: 256 })
    );
}

#[test]
fn checked_packed_rhs_size_f32_matches() {
    let machine = Machine {
        arch: TargetArch::Aarch64,
        features: CpuFeatures {
            avx512_kernels: false,
            avx512f: false,
            fma: false,
            neon: true,
            simd128: false,
        },
        caches: default_cache_info(TargetArch::Aarch64),
    };
    let (info, bytes) = checked_packed_rhs_size_f32(64, 64, &machine).unwrap();
    assert_eq!(info.nr, 4);
    assert_eq!(bytes, 4 * info.packed_size);
    assert_eq!((info, bytes), packed_rhs_size_f32(64, 64, &machine));
    assert_eq!(checked_packed_rhs_size_f32(0, 64, &machine), None);
}

#[test]
fn kernel_blocks_are_whole_micropanels() {
    let caches = x86_caches();
    for &(m, n, k, mr, nr) in &[
        (1024usize, 256usize, 256usize, 24usize, 4usize),
        (1, 1, 1, 16, 6),
        (5000, 3000, 2000, 64, 6),
        (37, 91, 13, 12, 4),
    ] {
        let p = kernel_params(m, n, k, mr, nr, 4, &caches);
        assert_eq!(p.mc % mr, 0);
        assert!(mr <= p.mc && p.mc <= 8 * mr);
        assert_eq!(p.nc % nr, 0);
        assert!(p.nc >= nr);
        assert!(1 <= p.kc && p.kc <= k);
    }
}

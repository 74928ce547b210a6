//! What the library needs to know of the machine it runs on: the architecture, the
//! instruction set extensions found at run time, and the geometry of the caches.

use vstd::prelude::*;

verus! {

use crate::cache::CacheInfo;

/// The target architecture the library is built for.
#[allow(non_camel_case_types)]
#[derive(Clone, Copy, Debug, PartialEq, Eq, Structural)]
pub enum TargetArch {
    X86,
    X86_64,
    Aarch64,
    Arm,
    Wasm32,
    PowerPc,
    PowerPc64,
    Mips,
    Mips64,
    Riscv64,
    S390x,
    Other,
}

/// Instruction set extensions relevant to the choice of the f32 microkernel.
#[derive(Clone, Copy, Debug, PartialEq, Eq, Structural)]
pub struct CpuFeatures {
    /// The AVX-512 kernels were compiled in (the `x86-v4` build feature).
    pub avx512_kernels: bool,
    /// AVX-512F was detected (x86).
    pub avx512f: bool,
    /// FMA was detected (x86).
    pub fma: bool,
    /// NEON was detected (aarch64).
    pub neon: bool,
    /// SIMD128 is enabled (wasm32).
    pub simd128: bool,
}

/// Everything the library reads of the machine.
#[derive(Clone, Copy, Debug)]
pub struct Machine {
    pub arch: TargetArch,
    pub features: CpuFeatures,
    /// L1 data, L2 and L3 caches, in this order.
    pub caches: [CacheInfo; 3],
}

/// The register block `(MR, NR)` of the f32 microkernel chosen on `arch` with `features`.
pub open spec fn f32_microkernel_spec(arch: TargetArch, features: CpuFeatures) -> (usize, usize) {
    match arch {
        TargetArch::X86 | TargetArch::X86_64 => {
            if features.avx512_kernels && features.avx512f {
                (64, 6)
            } else if features.fma {
                (16, 6)
            } else {
                (2, 4)
            }
        },
        TargetArch::Aarch64 => {
            if features.neon {
                (16, 4)
            } else {
                (2, 4)
            }
        },
        TargetArch::Wasm32 => {
            if features.simd128 {
                (12, 4)
            } else {
                (2, 4)
            }
        },
        _ => (2, 4),
    }
}

/// Returns (MR, NR) for the f32 microkernel: AVX-512 (64, 6), FMA/AVX2 (16, 6),
/// NEON (16, 4), WASM SIMD128 (12, 4), scalar (2, 4).
pub fn get_f32_microkernel_params(arch: TargetArch, features: &CpuFeatures) -> (r: (usize, usize))
    ensures
        r == f32_microkernel_spec(arch, *features),
        r.0 >= 2,
        r.1 == 4 || r.1 == 6,
        arch == TargetArch::X86 || arch == TargetArch::X86_64 ==> {
            &&& (r == (64usize, 6usize)) == (features.avx512_kernels && features.avx512f)
            &&& !(features.avx512_kernels && features.avx512f) ==> (r == (16usize, 6usize))
                == features.fma
            &&& !(features.avx512_kernels && features.avx512f) && !features.fma ==> r == (
                2usize,
                4usize,
            )
        },
        arch == TargetArch::Aarch64 ==> r == (if features.neon {
            (16usize, 4usize)
        } else {
            (2usize, 4usize)
        }),
        arch == TargetArch::Wasm32 ==> r == (if features.simd128 {
            (12usize, 4usize)
        } else {
            (2usize, 4usize)
        }),
        arch != TargetArch::X86 && arch != TargetArch::X86_64 && arch != TargetArch::Aarch64
            && arch != TargetArch::Wasm32 ==> r == (2usize, 4usize),
{
    match arch {
        TargetArch::X86 | TargetArch::X86_64 => {
            if features.avx512_kernels && features.avx512f {
                (64, 6)
            } else if features.fma {
                (16, 6)
            } else {
                (2, 4)
            }
        },
        TargetArch::Aarch64 => {
            if features.neon {
                (16, 4)
            } else {
                (2, 4)
            }
        },
        TargetArch::Wasm32 => {
            if features.simd128 {
                (12, 4)
            } else {
                (2, 4)
            }
        },
        _ => (2, 4),
    }
}

/// The AVX-512 kernels are chosen only on a CPU where AVX-512F is detected: without it,
/// building them in changes nothing, and an x86 CPU with FMA gets the (16, 6) kernel.
pub proof fn lemma_f32_microkernel_needs_avx512f(arch: TargetArch, features: CpuFeatures)
    requires
        !features.avx512f,
    ensures
        f32_microkernel_spec(arch, features) == f32_microkernel_spec(
            arch,
            CpuFeatures { avx512_kernels: !features.avx512_kernels, ..features },
        ),
        (arch == TargetArch::X86 || arch == TargetArch::X86_64) && features.fma
            ==> f32_microkernel_spec(arch, features) == (16usize, 6usize),
        (arch == TargetArch::X86 || arch == TargetArch::X86_64) && !features.fma
            ==> f32_microkernel_spec(arch, features) == (2usize, 4usize),
{
}

/// The AVX-512 kernel (64, 6) is chosen on x86 exactly when it is built and AVX-512F is
/// detected, and never on another architecture.
pub proof fn lemma_f32_microkernel_avx512(arch: TargetArch, features: CpuFeatures)
    ensures
        (f32_microkernel_spec(arch, features) == (64usize, 6usize)) == ((arch == TargetArch::X86
            || arch == TargetArch::X86_64) && features.avx512_kernels && features.avx512f),
{
}

/// The cache line alignment used for buffers on `arch`.
pub open spec fn cacheline_align_spec(arch: TargetArch) -> usize {
    match arch {
        TargetArch::X86_64 | TargetArch::Aarch64 | TargetArch::PowerPc64 => 128,
        TargetArch::Arm | TargetArch::Mips | TargetArch::Mips64 | TargetArch::Riscv64 => 32,
        TargetArch::S390x => 256,
        _ => 64,
    }
}

/// The cache line alignment used for buffers on `arch`.
pub fn cacheline_align(arch: TargetArch) -> (r: usize)
    ensures
        r == cacheline_align_spec(arch),
        arch == TargetArch::X86_64 || arch == TargetArch::Aarch64 || arch == TargetArch::PowerPc64
            ==> r == 128,
        arch == TargetArch::Arm || arch == TargetArch::Mips || arch == TargetArch::Mips64 || arch
            == TargetArch::Riscv64 ==> r == 32,
        arch == TargetArch::S390x ==> r == 256,
        arch == TargetArch::X86 || arch == TargetArch::Wasm32 || arch == TargetArch::PowerPc
            || arch == TargetArch::Other ==> r == 64,
{
    match arch {
        TargetArch::X86_64 | TargetArch::Aarch64 | TargetArch::PowerPc64 => 128,
        TargetArch::Arm | TargetArch::Mips | TargetArch::Mips64 | TargetArch::Riscv64 => 32,
        TargetArch::S390x => 256,
        _ => 64,
    }
}

/// One cache level of `associativity` ways, `kib` KiB and 64-byte lines.
pub open spec fn cache_of(kib: usize) -> CacheInfo {
    CacheInfo { associativity: 8, cache_bytes: (kib * 1024) as usize, cache_line_bytes: 64 }
}

/// The cache geometry assumed on `arch` when none can be detected.
pub open spec fn default_cache_info_spec(arch: TargetArch) -> [CacheInfo; 3] {
    match arch {
        TargetArch::X86 | TargetArch::X86_64 => [cache_of(32), cache_of(256), cache_of(2048)],
        TargetArch::PowerPc | TargetArch::PowerPc64 => [cache_of(64), cache_of(512), cache_of(4096)],
        _ => [cache_of(16), cache_of(512), cache_of(1024)],
    }
}

fn cache_kib(kib: usize) -> (c: CacheInfo)
    requires
        kib <= 4096,
    ensures
        c == cache_of(kib),
{
    CacheInfo { associativity: 8, cache_bytes: kib * 1024, cache_line_bytes: 64 }
}

/// The cache geometry assumed on `arch` when none can be detected: 8-way caches with
/// 64-byte lines of 32 KiB / 256 KiB / 2 MiB on x86, 64 KiB / 512 KiB / 4 MiB on PowerPC,
/// and 16 KiB / 512 KiB / 1 MiB elsewhere.
pub fn default_cache_info(arch: TargetArch) -> (c: [CacheInfo; 3])
    ensures
        c == default_cache_info_spec(arch),
        forall|i: int|
            0 <= i < 3 ==> #[trigger] c[i].associativity == 8 && c[i].cache_line_bytes == 64,
        arch == TargetArch::X86 || arch == TargetArch::X86_64 ==> c[0].cache_bytes == 32768
            && c[1].cache_bytes == 262144 && c[2].cache_bytes == 2097152,
        arch == TargetArch::PowerPc || arch == TargetArch::PowerPc64 ==> c[0].cache_bytes == 65536
            && c[1].cache_bytes == 524288 && c[2].cache_bytes == 4194304,
        arch != TargetArch::X86 && arch != TargetArch::X86_64 && arch != TargetArch::PowerPc && arch
            != TargetArch::PowerPc64 ==> c[0].cache_bytes == 16384 && c[1].cache_bytes == 524288
            && c[2].cache_bytes == 1048576,
{
    match arch {
        TargetArch::X86 | TargetArch::X86_64 => [cache_kib(32), cache_kib(256), cache_kib(2048)],
        TargetArch::PowerPc | TargetArch::PowerPc64 => [cache_kib(64), cache_kib(512), cache_kib(4096)],
        _ => [cache_kib(16), cache_kib(512), cache_kib(1024)],
    }
}

} // verus!

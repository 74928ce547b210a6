//! Pre-packing support for RHS matrices: the size and layout of a buffer that holds an
//! RHS (weight) matrix packed once and reused across many products.

use vstd::prelude::*;

verus! {

use crate::cache::{
    blocking_trivial,
    checked_kernel_params,
    ceil_div,
    div_ceil,
    kc_spec,
    kernel_params,
    kernel_params_defined,
    lemma_ceil_div_bounds,
    CacheInfo,
};
use crate::target::{
    cacheline_align,
    cacheline_align_spec,
    f32_microkernel_spec,
    get_f32_microkernel_params,
    Machine,
    TargetArch,
};

/// Metadata stored with a pre-packed RHS buffer: everything needed to use the packed
/// matrix in later products.
#[derive(Clone, Copy, Debug, PartialEq, Eq, Structural)]
pub struct PackedRhsInfo {
    /// K dimension (depth/inner dimension) of the unpacked matrix
    pub k: usize,
    /// N dimension (columns) of the unpacked matrix
    pub n: usize,
    /// Block size in the K dimension used during packing
    pub kc: usize,
    /// Register block size in the N dimension
    pub nr: usize,
    /// Total buffer size in elements of the packed type
    pub packed_size: usize,
}

/// Row count assumed when blocking for packing: large, so that `kc` does not depend on
/// the batch size of later products.
pub const PACKING_M_HINT: usize = 1024;

/// Size in bytes of an f32 element.
pub const F32_BYTES: usize = 4;

/// The depth block used to pack a `k × n` RHS matrix.
pub open spec fn packed_kc(
    k: int,
    n: int,
    mr: int,
    nr: int,
    sizeof: int,
    caches: [CacheInfo; 3],
) -> int {
    if blocking_trivial(PACKING_M_HINT as int, n, k) {
        k
    } else {
        kc_spec(k, mr, nr, sizeof, caches[0])
    }
}

/// Elements of a buffer of `ceil(k / kc) × ceil(n / nr)` panels of `kc × nr` elements.
pub open spec fn packed_elements(k: int, n: int, kc: int, nr: int) -> int {
    ceil_div(k, kc) * ceil_div(n, nr) * (kc * nr)
}

/// The sizes of `packed_rhs_size` neither overflow nor divide by zero.
pub open spec fn packed_rhs_size_defined(
    k: int,
    n: int,
    mr: int,
    nr: int,
    sizeof: int,
    caches: [CacheInfo; 3],
) -> bool {
    let kc = packed_kc(k, n, mr, nr, sizeof, caches);
    &&& k > 0
    &&& nr > 0
    &&& kernel_params_defined(PACKING_M_HINT as int, n, k, mr, nr, sizeof, caches)
    &&& kc * nr <= usize::MAX
    &&& ceil_div(k, kc) * ceil_div(n, nr) <= usize::MAX
    &&& packed_elements(k, n, kc, nr) <= usize::MAX
}

/// The packing info `packed_rhs_size` returns.
pub open spec fn packed_rhs_info_spec(
    k: usize,
    n: usize,
    mr: usize,
    nr: usize,
    sizeof: usize,
    caches: [CacheInfo; 3],
) -> PackedRhsInfo {
    let kc = packed_kc(k as int, n as int, mr as int, nr as int, sizeof as int, caches);
    PackedRhsInfo {
        k,
        n,
        kc: kc as usize,
        nr,
        packed_size: packed_elements(k as int, n as int, kc, nr as int) as usize,
    }
}

/// The depth block of packing lies in `1..=k`.
pub proof fn lemma_packed_kc_bounds(
    k: int,
    n: int,
    mr: int,
    nr: int,
    sizeof: int,
    caches: [CacheInfo; 3],
)
    requires
        k > 0,
        kernel_params_defined(PACKING_M_HINT as int, n, k, mr, nr, sizeof, caches),
    ensures
        1 <= packed_kc(k, n, mr, nr, sizeof, caches) <= k,
{
    if !blocking_trivial(PACKING_M_HINT as int, n, k) {
        crate::cache::lemma_kc_bounds(k, mr, nr, sizeof, caches[0]);
    }
}

/// Calculate the buffer size and info for pre-packing a `k × n` RHS matrix, as
/// `packed_rhs_size` does; `None` exactly when `packed_rhs_size` would overflow or divide
/// by zero.
pub fn checked_packed_rhs_size(
    k: usize,
    n: usize,
    mr: usize,
    nr: usize,
    sizeof: usize,
    caches: &[CacheInfo; 3],
) -> (r: Option<(PackedRhsInfo, usize)>)
    ensures
        r is Some <==> packed_rhs_size_defined(
            k as int,
            n as int,
            mr as int,
            nr as int,
            sizeof as int,
            *caches,
        ),
        r matches Some(res) ==> res.0 == packed_rhs_info_spec(k, n, mr, nr, sizeof, *caches)
            && res.1 == res.0.packed_size,
{
    let params = match checked_kernel_params(PACKING_M_HINT, n, k, mr, nr, sizeof, caches) {
        Some(p) => p,
        None => return None,
    };
    if k == 0 || nr == 0 {
        return None;
    }
    let kc = params.kc;
    proof {
        lemma_packed_kc_bounds(k as int, n as int, mr as int, nr as int, sizeof as int, *caches);
        assert(kc == packed_kc(k as int, n as int, mr as int, nr as int, sizeof as int, *caches));
    }
    let n_panels = div_ceil(n, nr);
    let k_panels = div_ceil(k, kc);
    let packed_rhs_stride = match kc.checked_mul(nr) {
        Some(v) => v,
        None => return None,
    };
    let panels = match k_panels.checked_mul(n_panels) {
        Some(v) => v,
        None => return None,
    };
    let packed_size = match panels.checked_mul(packed_rhs_stride) {
        Some(v) => v,
        None => return None,
    };
    Some((PackedRhsInfo { k, n, kc, nr, packed_size }, packed_size))
}

/// Calculate the buffer size and info for pre-packing a `k × n` RHS matrix for an
/// `mr × nr` microkernel, on elements of `sizeof` bytes, given the cache geometry.
///
/// Returns `(info, size_in_elements)`; the size is in elements of the packed type, not
/// in bytes. The depth block is computed for a large row count (`PACKING_M_HINT`), so
/// that it is stable across batch sizes.
pub fn packed_rhs_size(
    k: usize,
    n: usize,
    mr: usize,
    nr: usize,
    sizeof: usize,
    caches: &[CacheInfo; 3],
) -> (r: (PackedRhsInfo, usize))
    requires
        packed_rhs_size_defined(k as int, n as int, mr as int, nr as int, sizeof as int, *caches),
    ensures
        r.0 == packed_rhs_info_spec(k, n, mr, nr, sizeof, *caches),
        r.1 == r.0.packed_size,
        r.0.k == k,
        r.0.n == n,
        r.0.nr == nr,
        1 <= r.0.kc <= k,
{
    proof {
        lemma_packed_kc_bounds(k as int, n as int, mr as int, nr as int, sizeof as int, *caches);
    }
    match checked_packed_rhs_size(k, n, mr, nr, sizeof, caches) {
        Some(res) => res,
        None => {
            proof {
                assert(false);
            }
            (PackedRhsInfo { k, n, kc: 1, nr, packed_size: 0 }, 0)
        },
    }
}

/// The recommended alignment in bytes of pre-packed RHS buffers: the cache line
/// alignment of `arch`.
pub fn packed_rhs_alignment(arch: TargetArch) -> (r: usize)
    ensures
        r == cacheline_align_spec(arch),
{
    cacheline_align(arch)
}

/// The sizes of `packed_rhs_size_f32` neither overflow nor divide by zero.
pub open spec fn packed_rhs_size_f32_defined(k: usize, n: usize, machine: Machine) -> bool {
    let (mr, nr) = f32_microkernel_spec(machine.arch, machine.features);
    let info = packed_rhs_info_spec(k, n, mr, nr, F32_BYTES, machine.caches);
    &&& packed_rhs_size_defined(
        k as int,
        n as int,
        mr as int,
        nr as int,
        F32_BYTES as int,
        machine.caches,
    )
    &&& info.packed_size * F32_BYTES <= usize::MAX
}

/// Compute the buffer size for pre-packing a `k × n` f32 RHS matrix with the f32
/// microkernel of `machine`, as `packed_rhs_size_f32` does; `None` exactly when
/// `packed_rhs_size_f32` would overflow or divide by zero.
pub fn checked_packed_rhs_size_f32(k: usize, n: usize, machine: &Machine) -> (r: Option<
    (PackedRhsInfo, usize),
>)
    ensures
        r is Some <==> packed_rhs_size_f32_defined(k, n, *machine),
        r matches Some(res) ==> res.0 == packed_rhs_info_spec(
            k,
            n,
            f32_microkernel_spec(machine.arch, machine.features).0,
            f32_microkernel_spec(machine.arch, machine.features).1,
            F32_BYTES,
            machine.caches,
        ) && res.1 == res.0.packed_size * F32_BYTES && res.1 == 4 * res.0.packed_size
            && res.0 == packed_rhs_info_spec(
            k,
            n,
            f32_microkernel_spec(machine.arch, machine.features).0,
            f32_microkernel_spec(machine.arch, machine.features).1,
            4,
            machine.caches,
        ),
{
    let (mr, nr) = get_f32_microkernel_params(machine.arch, &machine.features);
    let (info, size_elements) = match checked_packed_rhs_size(
        k,
        n,
        mr,
        nr,
        F32_BYTES,
        &machine.caches,
    ) {
        Some(res) => res,
        None => return None,
    };
    match size_elements.checked_mul(F32_BYTES) {
        Some(bytes) => Some((info, bytes)),
        None => None,
    }
}

/// Compute the buffer size for pre-packing a `k × n` f32 RHS matrix with the f32
/// microkernel of `machine`.
///
/// Returns `(info, size_in_bytes)`.
pub fn packed_rhs_size_f32(k: usize, n: usize, machine: &Machine) -> (r: (PackedRhsInfo, usize))
    requires
        packed_rhs_size_f32_defined(k, n, *machine),
    ensures
        r.0 == packed_rhs_info_spec(
            k,
            n,
            f32_microkernel_spec(machine.arch, machine.features).0,
            f32_microkernel_spec(machine.arch, machine.features).1,
            F32_BYTES,
            machine.caches,
        ),
        r.1 == r.0.packed_size * F32_BYTES,
        r.1 == 4 * r.0.packed_size,
        r.0 == packed_rhs_info_spec(
            k,
            n,
            f32_microkernel_spec(machine.arch, machine.features).0,
            f32_microkernel_spec(machine.arch, machine.features).1,
            4,
            machine.caches,
        ),
{
    let (mr, nr) = get_f32_microkernel_params(machine.arch, &machine.features);
    let (info, size_elements) = packed_rhs_size(k, n, mr, nr, F32_BYTES, &machine.caches);
    (info, size_elements * F32_BYTES)
}

/// The packed buffer holds the whole matrix: `ceil(k / kc)` depth blocks cover the `k`
/// rows and `ceil(n / nr)` panels cover the `n` columns, so the buffer has at least
/// `k × n` elements; the padding is less than one block in each dimension.
pub proof fn lemma_packed_buffer_holds_matrix(
    k: usize,
    n: usize,
    mr: usize,
    nr: usize,
    sizeof: usize,
    caches: [CacheInfo; 3],
)
    requires
        packed_rhs_size_defined(k as int, n as int, mr as int, nr as int, sizeof as int, caches),
    ensures
        ({
            let info = packed_rhs_info_spec(k, n, mr, nr, sizeof, caches);
            let k_panels = ceil_div(k as int, info.kc as int);
            let n_panels = ceil_div(n as int, nr as int);
            &&& info.packed_size == k_panels * n_panels * (info.kc * nr)
            &&& k <= k_panels * info.kc < k + info.kc
            &&& n <= n_panels * nr < n + nr
            &&& k * n <= info.packed_size < (k + info.kc) * (n + nr)
        }),
{
    let info = packed_rhs_info_spec(k, n, mr, nr, sizeof, caches);
    lemma_packed_kc_bounds(k as int, n as int, mr as int, nr as int, sizeof as int, caches);
    let kc = info.kc as int;
    let k_panels = ceil_div(k as int, kc);
    let n_panels = ceil_div(n as int, nr as int);
    lemma_ceil_div_bounds(k as int, kc);
    if n > 0 {
        lemma_ceil_div_bounds(n as int, nr as int);
    } else {
        assert(n_panels == 0) by (nonlinear_arith)
            requires
                n_panels == (nr - 1) / (nr as int),
                nr > 0,
        ;
    }
    let kk = k_panels * kc;
    let nn = n_panels * nr;
    assert(n <= nn < n + nr) by (nonlinear_arith)
        requires
            nn == n_panels * nr,
            n > 0 ==> n <= n_panels * nr < n + nr,
            n == 0 ==> n_panels == 0,
            nr > 0,
    ;
    assert(k_panels * n_panels * (kc * nr) == kk * nn) by (nonlinear_arith)
        requires
            kk == k_panels * kc,
            nn == n_panels * nr,
    ;
    assert(k * n <= kk * nn < (k + kc) * (n + nr)) by (nonlinear_arith)
        requires
            k <= kk < k + kc,
            n <= nn < n + nr,
            k > 0,
            nr > 0,
    ;
    assert(kk * nn >= 0) by (nonlinear_arith)
        requires
            kk >= k,
            nn >= n,
    ;
    assert(info.packed_size == kk * nn);
}

/// The depth block of packing does not depend on the number of rows of the products the
/// packed matrix is used in: it is the depth block chosen for any `m > 0`.
pub proof fn lemma_packed_kc_stable(
    m: int,
    k: int,
    n: int,
    mr: int,
    nr: int,
    sizeof: int,
    caches: [CacheInfo; 3],
)
    requires
        m > 0,
    ensures
        packed_kc(k, n, mr, nr, sizeof, caches) == (if blocking_trivial(m, n, k) {
            k
        } else {
            kc_spec(k, mr, nr, sizeof, caches[0])
        }),
{
}

} // verus!

//! Blocking, packing and layout logic of a dense matrix multiplication library
//! (`dst := alpha×dst + beta×lhs×rhs`), with its contracts proved by Verus.
//!
//! - `cache`: integer helpers and the cache blocking heuristic (`kernel_params`).
//! - `target`: what is read of the machine (architecture, CPU features, caches), and the
//!   choices made from it (microkernel shape, cache line alignment, default caches).
//! - `prepack`: size and layout of pre-packed RHS buffers.
//! - `layout`: the rewriting of a product into the form the kernels expect.

pub mod cache;
pub mod layout;
pub mod prepack;
pub mod target;

pub use crate::cache::{checked_kernel_params, kernel_params, CacheInfo, KernelParams};
pub use crate::layout::{
    checked_normalize_layout, kernel_conj_flags, normalize_layout, GemmLayout, NormalizedGemm,
    Scalar,
};
pub use crate::prepack::{
    checked_packed_rhs_size, checked_packed_rhs_size_f32, packed_rhs_alignment, packed_rhs_size,
    packed_rhs_size_f32, PackedRhsInfo,
};
pub use crate::target::{
    default_cache_info, get_f32_microkernel_params, CpuFeatures, Machine, TargetArch,
};

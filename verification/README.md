# gemm (verified core)

The integer logic of a dense matrix multiplication library
(`dst := alpha×dst + beta×lhs×rhs`), written in Verus with its contracts proved:

- `src/cache.rs`: ceiling division, gcd, powers of two, and the cache blocking heuristic
  (`kernel_params`) that picks the depth, row and column blocks from the L1/L2/L3 cache
  geometry.
- `src/target.rs`: what is read of the machine (architecture, CPU features, caches) and
  what is chosen from it: the f32 microkernel shape, the cache line alignment, the default
  cache geometry.
- `src/prepack.rs`: size and layout of pre-packed RHS buffers.
- `src/layout.rs`: the rewriting of a product into the column-oriented, non-negative-stride
  form the kernels expect, and the conjugation flags handed to each scalar kernel.

Each function that can fail on its inputs (overflow, division by zero) has a `checked_`
variant that returns `None` exactly on those inputs.

`app/` holds the pointer-level entry points (`gemm`, the pre-packed f32 product, the scalar
reference products), the detection of the machine, and the dispatch to the scalar kernel
crates.

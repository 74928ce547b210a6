//! The rewriting of a product `dst := alpha×dst + beta×lhs×rhs` into the form the
//! kernels expect: a column-oriented destination and non-negative strides.
//!
//! Matrices are described by element strides: element `(i, j)` of `dst` lies `i×dst_rs +
//! j×dst_cs` elements after the `dst` pointer, and likewise for `lhs` (`m × k`) and `rhs`
//! (`k × n`).

use vstd::prelude::*;

verus! {

/// Shape, strides and conjugation flags of a product `dst (m × n) := alpha×dst +
/// beta×lhs (m × k)×rhs (k × n)`.
#[derive(Clone, Copy, Debug, PartialEq, Eq, Structural)]
pub struct GemmLayout {
    pub m: usize,
    pub n: usize,
    pub k: usize,
    pub dst_cs: isize,
    pub dst_rs: isize,
    pub lhs_cs: isize,
    pub lhs_rs: isize,
    pub rhs_cs: isize,
    pub rhs_rs: isize,
    pub conj_lhs: bool,
    pub conj_rhs: bool,
}

/// The same product in the form the kernels expect, and how to get there: whether the
/// product was transposed (the `lhs` and `rhs` pointers swap), which index ranges were
/// reversed, and the element offsets to apply, in the order given, to the pointers.
#[derive(Clone, Copy, Debug, PartialEq, Eq, Structural)]
pub struct NormalizedGemm {
    pub layout: GemmLayout,
    pub transposed: bool,
    pub rows_reversed: bool,
    pub cols_reversed: bool,
    pub depth_reversed: bool,
    pub dst_row_offset: isize,
    pub dst_col_offset: isize,
    pub lhs_row_offset: isize,
    pub lhs_depth_offset: isize,
    pub rhs_col_offset: isize,
    pub rhs_depth_offset: isize,
}

pub open spec fn iabs(x: int) -> int {
    if x < 0 {
        -x
    } else {
        x
    }
}

/// The transposed product: `dstᵀ := alpha×dstᵀ + beta×rhsᵀ×lhsᵀ`.
pub open spec fn transpose_spec(l: GemmLayout) -> GemmLayout {
    GemmLayout {
        m: l.n,
        n: l.m,
        k: l.k,
        dst_cs: l.dst_rs,
        dst_rs: l.dst_cs,
        lhs_cs: l.rhs_rs,
        lhs_rs: l.rhs_cs,
        rhs_cs: l.lhs_rs,
        rhs_rs: l.lhs_cs,
        conj_lhs: l.conj_rhs,
        conj_rhs: l.conj_lhs,
    }
}

/// The product is transposed when its destination is row-oriented.
pub open spec fn should_transpose(l: GemmLayout) -> bool {
    iabs(l.dst_cs as int) < iabs(l.dst_rs as int)
}

/// The product after the choice of orientation.
pub open spec fn oriented(l: GemmLayout) -> GemmLayout {
    if should_transpose(l) {
        transpose_spec(l)
    } else {
        l
    }
}

/// Rows are reversed when the destination's row stride is negative.
pub open spec fn rows_reversed(o: GemmLayout) -> bool {
    o.dst_rs < 0 && o.m > 0
}

/// Columns are reversed when the destination's column stride is negative.
pub open spec fn cols_reversed(o: GemmLayout) -> bool {
    o.dst_cs < 0 && o.n > 0
}

/// The depth is reversed when the lhs column stride is negative.
pub open spec fn depth_reversed(o: GemmLayout) -> bool {
    o.lhs_cs < 0 && o.k > 0
}

/// Offset of the last index of a range of `len` at stride `s`, when the range is reversed.
pub open spec fn flip_offset(rev: bool, len: int, s: int) -> int {
    if rev {
        (len - 1) * s
    } else {
        0
    }
}

/// The stride after the range is reversed.
pub open spec fn flip_stride(rev: bool, s: isize) -> isize {
    if rev {
        (-s) as isize
    } else {
        s
    }
}

pub open spec fn fits_isize(x: int) -> bool {
    isize::MIN <= x <= isize::MAX
}

/// The rewriting neither overflows nor negates `isize::MIN`, and a reversed range has
/// at most `isize::MAX + 1` indices (it spans at least that many elements).
pub open spec fn normalize_defined(l: GemmLayout) -> bool {
    let o = oriented(l);
    &&& l.dst_cs != isize::MIN
    &&& l.dst_rs != isize::MIN
    &&& rows_reversed(o) ==> {
        &&& o.m - 1 <= isize::MAX
        &&& fits_isize((o.m - 1) * o.dst_rs)
        &&& fits_isize((o.m - 1) * o.lhs_rs)
        &&& o.lhs_rs != isize::MIN
    }
    &&& cols_reversed(o) ==> {
        &&& o.n - 1 <= isize::MAX
        &&& fits_isize((o.n - 1) * o.dst_cs)
        &&& fits_isize((o.n - 1) * o.rhs_cs)
        &&& o.rhs_cs != isize::MIN
    }
    &&& depth_reversed(o) ==> {
        &&& o.k - 1 <= isize::MAX
        &&& fits_isize((o.k - 1) * o.lhs_cs)
        &&& fits_isize((o.k - 1) * o.rhs_rs)
        &&& o.lhs_cs != isize::MIN
        &&& o.rhs_rs != isize::MIN
    }
}

/// The rewriting of a product.
pub open spec fn normalize_spec(l: GemmLayout) -> NormalizedGemm {
    let o = oriented(l);
    let fr = rows_reversed(o);
    let fc = cols_reversed(o);
    let fd = depth_reversed(o);
    NormalizedGemm {
        layout: GemmLayout {
            m: o.m,
            n: o.n,
            k: o.k,
            dst_cs: flip_stride(fc, o.dst_cs),
            dst_rs: flip_stride(fr, o.dst_rs),
            lhs_cs: flip_stride(fd, o.lhs_cs),
            lhs_rs: flip_stride(fr, o.lhs_rs),
            rhs_cs: flip_stride(fc, o.rhs_cs),
            rhs_rs: flip_stride(fd, o.rhs_rs),
            conj_lhs: o.conj_lhs,
            conj_rhs: o.conj_rhs,
        },
        transposed: should_transpose(l),
        rows_reversed: fr,
        cols_reversed: fc,
        depth_reversed: fd,
        dst_row_offset: flip_offset(fr, o.m as int, o.dst_rs as int) as isize,
        dst_col_offset: flip_offset(fc, o.n as int, o.dst_cs as int) as isize,
        lhs_row_offset: flip_offset(fr, o.m as int, o.lhs_rs as int) as isize,
        lhs_depth_offset: flip_offset(fd, o.k as int, o.lhs_cs as int) as isize,
        rhs_col_offset: flip_offset(fc, o.n as int, o.rhs_cs as int) as isize,
        rhs_depth_offset: flip_offset(fd, o.k as int, o.rhs_rs as int) as isize,
    }
}

/// `(len - 1) × s`, the offset of the last index of a reversed range, when `len - 1` and
/// the product fit in an `isize`.
fn checked_last_offset(len: usize, s: isize) -> (r: Option<isize>)
    requires
        len > 0,
    ensures
        r is Some <==> len - 1 <= isize::MAX && fits_isize((len - 1) * s),
        r matches Some(off) ==> off == (len - 1) * s,
{
    if len - 1 > isize::MAX as usize {
        return None;
    }
    ((len - 1) as isize).checked_mul(s)
}

/// Rewrite a product so that its destination is column-oriented (`|dst_cs| >= |dst_rs|`,
/// transposing the product otherwise) and so that the destination strides and the lhs
/// column stride are non-negative (reversing the matching index ranges otherwise); `None`
/// exactly when the rewriting would overflow or negate `isize::MIN`.
pub fn checked_normalize_layout(l: GemmLayout) -> (r: Option<NormalizedGemm>)
    ensures
        r is Some <==> normalize_defined(l),
        r matches Some(g) ==> g == normalize_spec(l),
{
    if l.dst_cs == isize::MIN || l.dst_rs == isize::MIN {
        return None;
    }
    let do_transpose = (if l.dst_cs < 0 { -l.dst_cs } else { l.dst_cs }) < (if l.dst_rs < 0 {
        -l.dst_rs
    } else {
        l.dst_rs
    });
    let o = if do_transpose {
        GemmLayout {
            m: l.n,
            n: l.m,
            k: l.k,
            dst_cs: l.dst_rs,
            dst_rs: l.dst_cs,
            lhs_cs: l.rhs_rs,
            lhs_rs: l.rhs_cs,
            rhs_cs: l.lhs_rs,
            rhs_rs: l.lhs_cs,
            conj_lhs: l.conj_rhs,
            conj_rhs: l.conj_lhs,
        }
    } else {
        l
    };
    assert(o == oriented(l));
    let mut r = NormalizedGemm {
        layout: o,
        transposed: do_transpose,
        rows_reversed: false,
        cols_reversed: false,
        depth_reversed: false,
        dst_row_offset: 0,
        dst_col_offset: 0,
        lhs_row_offset: 0,
        lhs_depth_offset: 0,
        rhs_col_offset: 0,
        rhs_depth_offset: 0,
    };
    if o.dst_rs < 0 && o.m > 0 {
        let dst_off = match checked_last_offset(o.m, o.dst_rs) {
            Some(v) => v,
            None => return None,
        };
        let lhs_off = match checked_last_offset(o.m, o.lhs_rs) {
            Some(v) => v,
            None => return None,
        };
        if o.lhs_rs == isize::MIN {
            return None;
        }
        r.rows_reversed = true;
        r.dst_row_offset = dst_off;
        r.layout.dst_rs = -o.dst_rs;
        r.lhs_row_offset = lhs_off;
        r.layout.lhs_rs = -o.lhs_rs;
    }
    if o.dst_cs < 0 && o.n > 0 {
        let dst_off = match checked_last_offset(o.n, o.dst_cs) {
            Some(v) => v,
            None => return None,
        };
        let rhs_off = match checked_last_offset(o.n, o.rhs_cs) {
            Some(v) => v,
            None => return None,
        };
        if o.rhs_cs == isize::MIN {
            return None;
        }
        r.cols_reversed = true;
        r.dst_col_offset = dst_off;
        r.layout.dst_cs = -o.dst_cs;
        r.rhs_col_offset = rhs_off;
        r.layout.rhs_cs = -o.rhs_cs;
    }
    if o.lhs_cs < 0 && o.k > 0 {
        let lhs_off = match checked_last_offset(o.k, o.lhs_cs) {
            Some(v) => v,
            None => return None,
        };
        let rhs_off = match checked_last_offset(o.k, o.rhs_rs) {
            Some(v) => v,
            None => return None,
        };
        if o.lhs_cs == isize::MIN || o.rhs_rs == isize::MIN {
            return None;
        }
        r.depth_reversed = true;
        r.lhs_depth_offset = lhs_off;
        r.layout.lhs_cs = -o.lhs_cs;
        r.rhs_depth_offset = rhs_off;
        r.layout.rhs_rs = -o.rhs_rs;
    }
    Some(r)
}

/// Rewrite a product so that its destination is column-oriented (`|dst_cs| >= |dst_rs|`,
/// transposing the product otherwise) and so that the destination strides and the lhs
/// column stride are non-negative (reversing the matching index ranges otherwise).
pub fn normalize_layout(l: GemmLayout) -> (r: NormalizedGemm)
    requires
        normalize_defined(l),
    ensures
        r == normalize_spec(l),
{
    match checked_normalize_layout(l) {
        Some(r) => r,
        None => {
            proof {
                assert(false);
            }
            NormalizedGemm {
                layout: l,
                transposed: false,
                rows_reversed: false,
                cols_reversed: false,
                depth_reversed: false,
                dst_row_offset: 0,
                dst_col_offset: 0,
                lhs_row_offset: 0,
                lhs_depth_offset: 0,
                rhs_col_offset: 0,
                rhs_depth_offset: 0,
            }
        },
    }
}

/// Where element `(i, j)` of `dst` lies, relative to the `dst` pointer.
pub open spec fn dst_addr(l: GemmLayout, i: int, j: int) -> int {
    i * l.dst_rs + j * l.dst_cs
}

/// Where element `(i, p)` of `lhs` lies, relative to the `lhs` pointer.
pub open spec fn lhs_addr(l: GemmLayout, i: int, p: int) -> int {
    i * l.lhs_rs + p * l.lhs_cs
}

/// Where element `(p, j)` of `rhs` lies, relative to the `rhs` pointer.
pub open spec fn rhs_addr(l: GemmLayout, p: int, j: int) -> int {
    p * l.rhs_rs + j * l.rhs_cs
}

/// Index `x` of a range of `len`, counted from the end when the range is reversed.
pub open spec fn reflect(rev: bool, len: int, x: int) -> int {
    if rev {
        len - 1 - x
    } else {
        x
    }
}

/// Where element `(i, j)` of the rewritten `dst` lies, relative to the `dst` pointer.
pub open spec fn new_dst_addr(r: NormalizedGemm, i: int, j: int) -> int {
    r.dst_row_offset + r.dst_col_offset + dst_addr(r.layout, i, j)
}

/// Where element `(i, p)` of the rewritten `lhs` lies, relative to the pointer it is
/// read from (the `rhs` pointer when the product was transposed).
pub open spec fn new_lhs_addr(r: NormalizedGemm, i: int, p: int) -> int {
    r.lhs_row_offset + r.lhs_depth_offset + lhs_addr(r.layout, i, p)
}

/// Where element `(p, j)` of the rewritten `rhs` lies, relative to the pointer it is
/// read from (the `lhs` pointer when the product was transposed).
pub open spec fn new_rhs_addr(r: NormalizedGemm, p: int, j: int) -> int {
    r.rhs_col_offset + r.rhs_depth_offset + rhs_addr(r.layout, p, j)
}

proof fn lemma_reflect_addr(rev: bool, len: int, s: int, x: int)
    ensures
        flip_offset(rev, len, s) + x * (if rev { -s } else { s }) == reflect(rev, len, x) * s,
{
    if rev {
        assert((len - 1) * s + x * (-s) == (len - 1 - x) * s) by (nonlinear_arith);
    }
}

/// The rewritten destination is column-oriented, and its strides, as well as the lhs
/// column stride, are non-negative wherever the matching dimension is not empty.
pub proof fn lemma_normalized_form(l: GemmLayout)
    requires
        normalize_defined(l),
    ensures
        ({
            let r = normalize_spec(l).layout;
            &&& iabs(r.dst_cs as int) >= iabs(r.dst_rs as int)
            &&& r.m > 0 ==> r.dst_rs >= 0
            &&& r.n > 0 ==> r.dst_cs >= 0
            &&& r.k > 0 ==> r.lhs_cs >= 0
        }),
{
}

/// The rewritten product computes the same thing: each element of the rewritten `dst`,
/// `lhs` and `rhs` is the element of the given matrices at the matching indices
/// (reversed where a range was reversed, and exchanged when the product was transposed:
/// `dstᵀ = rhsᵀ×lhsᵀ`), and the dimensions and conjugations are those of the given
/// product, exchanged when it was transposed.
pub proof fn lemma_normalize_preserves_product(l: GemmLayout, i: int, j: int, p: int)
    requires
        normalize_defined(l),
    ensures
        ({
            let r = normalize_spec(l);
            let ii = reflect(r.rows_reversed, r.layout.m as int, i);
            let jj = reflect(r.cols_reversed, r.layout.n as int, j);
            let pp = reflect(r.depth_reversed, r.layout.k as int, p);
            &&& r.layout.k == l.k
            &&& !r.transposed ==> {
                &&& r.layout.m == l.m && r.layout.n == l.n
                &&& r.layout.conj_lhs == l.conj_lhs && r.layout.conj_rhs == l.conj_rhs
                &&& new_dst_addr(r, i, j) == dst_addr(l, ii, jj)
                &&& new_lhs_addr(r, i, p) == lhs_addr(l, ii, pp)
                &&& new_rhs_addr(r, p, j) == rhs_addr(l, pp, jj)
            }
            &&& r.transposed ==> {
                &&& r.layout.m == l.n && r.layout.n == l.m
                &&& r.layout.conj_lhs == l.conj_rhs && r.layout.conj_rhs == l.conj_lhs
                &&& new_dst_addr(r, i, j) == dst_addr(l, jj, ii)
                &&& new_lhs_addr(r, i, p) == rhs_addr(l, pp, ii)
                &&& new_rhs_addr(r, p, j) == lhs_addr(l, jj, pp)
            }
        }),
{
    let o = oriented(l);
    let r = normalize_spec(l);
    let fr = r.rows_reversed;
    let fc = r.cols_reversed;
    let fd = r.depth_reversed;
    lemma_reflect_addr(fr, o.m as int, o.dst_rs as int, i);
    lemma_reflect_addr(fc, o.n as int, o.dst_cs as int, j);
    lemma_reflect_addr(fr, o.m as int, o.lhs_rs as int, i);
    lemma_reflect_addr(fd, o.k as int, o.lhs_cs as int, p);
    lemma_reflect_addr(fc, o.n as int, o.rhs_cs as int, j);
    lemma_reflect_addr(fd, o.k as int, o.rhs_rs as int, p);
    let ii = reflect(fr, o.m as int, i);
    let jj = reflect(fc, o.n as int, j);
    let pp = reflect(fd, o.k as int, p);
    assert(new_dst_addr(r, i, j) == dst_addr(o, ii, jj));
    assert(new_lhs_addr(r, i, p) == lhs_addr(o, ii, pp));
    assert(new_rhs_addr(r, p, j) == rhs_addr(o, pp, jj));
}

/// The product is transposed exactly when its destination is row-oriented
/// (`|dst_cs| < |dst_rs|`), and a range is reversed exactly when it is not empty and the
/// stride that orients it (destination rows, destination columns, lhs columns) is negative.
pub proof fn lemma_normalize_choices(l: GemmLayout)
    requires
        normalize_defined(l),
    ensures
        ({
            let r = normalize_spec(l);
            let cs = if l.dst_cs < 0 { -l.dst_cs } else { l.dst_cs as int };
            let rs = if l.dst_rs < 0 { -l.dst_rs } else { l.dst_rs as int };
            let t = cs < rs;
            &&& r.transposed == t
            &&& r.rows_reversed == (r.layout.m > 0 && (if t { l.dst_cs } else { l.dst_rs }) < 0)
            &&& r.cols_reversed == (r.layout.n > 0 && (if t { l.dst_rs } else { l.dst_cs }) < 0)
            &&& r.depth_reversed == (l.k > 0 && (if t { l.rhs_rs } else { l.lhs_cs }) < 0)
            &&& !r.rows_reversed ==> r.dst_row_offset == 0 && r.lhs_row_offset == 0
            &&& !r.cols_reversed ==> r.dst_col_offset == 0 && r.rhs_col_offset == 0
            &&& !r.depth_reversed ==> r.lhs_depth_offset == 0 && r.rhs_depth_offset == 0
        }),
{
}

/// Rewriting a rewritten product changes nothing: no transposition, no reversal, no
/// offset.
pub proof fn lemma_normalize_idempotent(l: GemmLayout)
    requires
        normalize_defined(l),
    ensures
        normalize_defined(normalize_spec(l).layout),
        normalize_spec(normalize_spec(l).layout) == (NormalizedGemm {
            layout: normalize_spec(l).layout,
            transposed: false,
            rows_reversed: false,
            cols_reversed: false,
            depth_reversed: false,
            dst_row_offset: 0,
            dst_col_offset: 0,
            lhs_row_offset: 0,
            lhs_depth_offset: 0,
            rhs_col_offset: 0,
            rhs_depth_offset: 0,
        }),
{
}

/// The scalar types the product kernels are provided for.
#[derive(Clone, Copy, Debug, PartialEq, Eq, Structural)]
pub enum Scalar {
    F16,
    Bf16,
    F32,
    F64,
    C32,
    C64,
}

pub open spec fn is_complex(s: Scalar) -> bool {
    s is C32 || s is C64
}

/// The conjugation flags `(conj_dst, conj_lhs, conj_rhs)` handed to the kernel of
/// `scalar`: those asked for on complex scalars, none on real ones.
pub fn kernel_conj_flags(scalar: Scalar, conj_dst: bool, conj_lhs: bool, conj_rhs: bool) -> (r: (
    bool,
    bool,
    bool,
))
    ensures
        r == (if is_complex(scalar) {
            (conj_dst, conj_lhs, conj_rhs)
        } else {
            (false, false, false)
        }),
{
    match scalar {
        Scalar::C32 | Scalar::C64 => (conj_dst, conj_lhs, conj_rhs),
        _ => (false, false, false),
    }
}

} // verus!

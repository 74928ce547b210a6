use gemm::{
    checked_normalize_layout, kernel_conj_flags, normalize_layout, GemmLayout, NormalizedGemm,
    Scalar,
};

fn layout(m: usize, n: usize, k: usize, s: [isize; 6]) -> GemmLayout {
    GemmLayout {
        m,
        n,
        k,
        dst_cs: s[0],
        dst_rs: s[1],
        lhs_cs: s[2],
        lhs_rs: s[3],
        rhs_cs: s[4],
        rhs_rs: s[5],
        conj_lhs: true,
        conj_rhs: false,
    }
}

fn unchanged(l: GemmLayout) -> NormalizedGemm {
    NormalizedGemm {
        layout: l,
        transposed: false,
        rows_reversed: false,
        cols_reversed: false,
        depth_reversed: false,
        dst_row_offset: 0,
        dst_col_offset: 0,
        lhs_row_offset: 0,
        lhs_depth_offset: 0,
        rhs_col_offset: 0,
        rhs_depth_offset: 0,
    }
}

#[test]
fn column_major_product_is_unchanged() {
    let l = layout(3, 2, 4, [3, 1, 3, 1, 4, 1]);
    assert_eq!(normalize_layout(l), unchanged(l));
}

#[test]
fn row_major_destination_is_transposed() {
    // dst, lhs and rhs row-major
    let l = layout(3, 2, 4, [1, 2, 1, 4, 1, 2]);
    let r = normalize_layout(l);
    assert!(r.transposed);
    assert_eq!(r.layout.m, 2);
    assert_eq!(r.layout.n, 3);
    assert_eq!(r.layout.k, 4);
    assert_eq!((r.layout.dst_cs, r.layout.dst_rs), (2, 1));
    assert_eq!((r.layout.lhs_cs, r.layout.lhs_rs), (2, 1));
    assert_eq!((r.layout.rhs_cs, r.layout.rhs_rs), (4, 1));
    assert_eq!((r.layout.conj_lhs, r.layout.conj_rhs), (false, true));
    assert!(!r.rows_reversed && !r.cols_reversed && !r.depth_reversed);
}

#[test]
fn negative_strides_are_reversed() {
    let l = layout(3, 2, 4, [3, -1, -6, 2, 4, 1]);
    let r = normalize_layout(l);
    assert!(!r.transposed);
    assert!(r.rows_reversed && !r.cols_reversed && r.depth_reversed);
    assert_eq!(r.dst_row_offset, -2);
    assert_eq!(r.layout.dst_rs, 1);
    assert_eq!(r.lhs_row_offset, 4);
    assert_eq!(r.layout.lhs_rs, -2);
    assert_eq!(r.lhs_depth_offset, -18);
    assert_eq!(r.layout.lhs_cs, 6);
    assert_eq!(r.rhs_depth_offset, 3);
    assert_eq!(r.layout.rhs_rs, -1);
    assert_eq!((r.dst_col_offset, r.rhs_col_offset), (0, 0));
}

#[test]
fn normalization_is_idempotent() {
    for l in [
        layout(3, 2, 4, [3, -1, -6, 2, 4, 1]),
        layout(3, 2, 4, [1, 2, 1, 4, 1, 2]),
        layout(5, 7, 0, [-1, -9, -3, 2, -4, 1]),
        layout(0, 0, 0, [-1, -2, -3, -4, -5, -6]),
    ] {
        let once = normalize_layout(l).layout;
        assert_eq!(normalize_layout(once), unchanged(once));
    }
}

#[test]
fn normalized_product_reads_the_same_elements() {
    // dst row-major with reversed columns, lhs and rhs with negative strides
    let l = layout(3, 4, 2, [-1, 8, -5, 3, -2, 7]);
    let r = normalize_layout(l);
    assert!(r.transposed);
    let (m, n, k) = (r.layout.m as isize, r.layout.n as isize, r.layout.k as isize);
    let refl = |rev: bool, len: isize, x: isize| if rev { len - 1 - x } else { x };
    for i in 0..m {
        for j in 0..n {
            for p in 0..k {
                let (ii, jj, pp) =
                    (refl(r.rows_reversed, m, i), refl(r.cols_reversed, n, j), refl(r.depth_reversed, k, p));
                let nl = r.layout;
                let new_dst = r.dst_row_offset + r.dst_col_offset + i * nl.dst_rs + j * nl.dst_cs;
                let new_lhs = r.lhs_row_offset + r.lhs_depth_offset + i * nl.lhs_rs + p * nl.lhs_cs;
                let new_rhs = r.rhs_col_offset + r.rhs_depth_offset + p * nl.rhs_rs + j * nl.rhs_cs;
                // transposed: dst(jj, ii), rhs(pp, ii), lhs(jj, pp) of the given product
                assert_eq!(new_dst, jj * l.dst_rs + ii * l.dst_cs);
                assert_eq!(new_lhs, pp * l.rhs_rs + ii * l.rhs_cs);
                assert_eq!(new_rhs, jj * l.lhs_rs + pp * l.lhs_cs);
            }
        }
    }
    assert!(nl_strides_non_negative(r.layout));
}

fn nl_strides_non_negative(l: GemmLayout) -> bool {
    l.dst_rs >= 0 && l.dst_cs >= 0 && l.lhs_cs >= 0 && l.dst_cs.abs() >= l.dst_rs.abs()
}

#[test]
fn conjugation_only_on_complex_kernels() {
    assert_eq!(kernel_conj_flags(Scalar::C32, true, false, true), (true, false, true));
    assert_eq!(kernel_conj_flags(Scalar::C64, false, true, true), (false, true, true));
    assert_eq!(kernel_conj_flags(Scalar::F32, true, true, true), (false, false, false));
    assert_eq!(kernel_conj_flags(Scalar::F64, true, true, true), (false, false, false));
    assert_eq!(kernel_conj_flags(Scalar::F16, true, false, true), (false, false, false));
    assert_eq!(kernel_conj_flags(Scalar::Bf16, true, false, true), (false, false, false));
}

#[test]
fn checked_normalization_refuses_what_would_panic() {
    // |isize::MIN| overflows
    assert_eq!(checked_normalize_layout(layout(2, 2, 2, [isize::MIN, 1, 1, 1, 1, 1])), None);
    // reversing rows negates isize::MIN
    assert_eq!(checked_normalize_layout(layout(2, 2, 2, [4, -1, 1, isize::MIN, 1, 1])), None);
    // the offset of the last row overflows
    assert_eq!(checked_normalize_layout(layout(3, 2, 2, [isize::MAX, -1, 1, isize::MAX, 1, 1])), None);
    // the same rows with one row: no offset to compute
    let l = layout(1, 2, 2, [isize::MAX, -1, 1, isize::MAX, 1, 1]);
    assert_eq!(checked_normalize_layout(l), Some(normalize_layout(l)));
}

//! Temporal direct prediction.

use ripsaw::mvc::recon_inter::{temporal_direct, MotionField};

fn col1(mv: (i32, i32), refpoc: i32) -> MotionField {
    MotionField { mv: vec![mv], refidx: vec![0], refpoc: vec![refpoc], nz: vec![false], bw4: 1, bh4: 1 }
}

#[test]
fn temporal_scales_by_poc_distance() {
    let col = col1((40, -20), 0);
    let poc = [vec![0], vec![8]];
    let (mv0, mv1, r0, r1, u0, u1) = temporal_direct(&col, 0, &poc, 2);
    assert_eq!(mv0, (10, -5));
    assert_eq!(mv1, (10 - 40, -5 + 20));
    assert_eq!((r0, r1), (0, 0));
    assert!(u0 && u1);
}

#[test]
fn map_col_to_list0_matches_by_poc() {
    let col = col1((16, 0), 0);
    let poc = [vec![4, 0], vec![8]];
    let (_, _, r0, r1, ..) = temporal_direct(&col, 0, &poc, 2);
    assert_eq!((r0, r1), (1, 0));
}

#[test]
fn intra_colocated_block_is_zero_motion() {
    let col = MotionField { mv: vec![(99, 99)], refidx: vec![-1], refpoc: vec![-1], nz: vec![false], bw4: 1, bh4: 1 };
    let poc = [vec![0], vec![8]];
    let (mv0, mv1, r0, _, u0, u1) = temporal_direct(&col, 0, &poc, 2);
    assert_eq!((mv0, mv1), ((0, 0), (0, 0)));
    assert_eq!(r0, 0);
    assert!(u0 && u1);
}

#[test]
fn zero_poc_distance_uses_colocated_mv_directly() {
    let col = col1((12, 8), 8);
    let poc = [vec![8], vec![8]];
    let (mv0, mv1, ..) = temporal_direct(&col, 0, &poc, 2);
    assert_eq!(mv0, (12, 8));
    assert_eq!(mv1, (0, 0));
}

#[test]
fn a_block_without_motion_reads_no_order_count() {
    let col = MotionField { mv: vec![(9, 9)], refidx: vec![-1], refpoc: vec![0], nz: vec![false], bw4: 1, bh4: 1 };
    let none = [Vec::new(), Vec::new()];
    assert_eq!(temporal_direct(&col, 0, &none, 2), ((0, 0), (0, 0), 0, 0, true, true));
    assert_eq!(temporal_direct(&col, 1, &none, 2), ((0, 0), (0, 0), 0, 0, true, true));
}

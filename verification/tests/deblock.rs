//! Deblocking filters across one edge.

use ripsaw::mvc::deblock::{
    filter_chroma, filter_luma_normal, filter_luma_strong, ALPHA, BETA, TC0,
};

#[test]
fn flat_region_unchanged() {
    let mut s = [100, 100, 100, 100, 100, 100, 100, 100];
    let before = s;
    filter_luma_normal(&mut s, 20, 4, 2);
    assert_eq!(s, before);
    filter_luma_strong(&mut s, 20, 4);
    assert_eq!(s, before);
}

#[test]
fn strong_edge_not_filtered() {
    let mut s = [100, 100, 100, 100, 200, 200, 200, 200];
    let before = s;
    filter_luma_normal(&mut s, 20, 4, 2);
    assert_eq!(s, before);
}

#[test]
fn normal_filter_known_values() {
    let mut s = [100, 100, 100, 100, 110, 110, 110, 110];
    filter_luma_normal(&mut s, 20, 4, 2);
    assert_eq!(s, [100, 100, 102, 104, 106, 108, 110, 110]);
}

#[test]
fn strong_filter_smooths_three_taps_each_side() {
    let mut s = [90, 94, 94, 96, 104, 106, 108, 110];
    filter_luma_strong(&mut s, 40, 8);
    assert_eq!(s[1], 95);
    assert_eq!(s[2], 97);
    assert_eq!(s[3], 99);
}

#[test]
fn strong_filter_weak_tap_uses_p1_not_p0() {
    let mut s = [67, 67, 67, 69, 75, 77, 77, 77];
    filter_luma_strong(&mut s, 13, 8);
    assert_eq!(s[3], 70);
    assert_eq!(s[4], 74);
}

#[test]
fn chroma_only_touches_p0_q0_in_normal_mode() {
    let mut s = [100, 100, 100, 100, 110, 110, 110, 110];
    filter_chroma(&mut s, 20, 4, 2, false);
    assert_eq!(s[2], 100);
    assert_eq!(s[5], 110);
    assert_ne!(s[3], 100);
    assert_ne!(s[4], 110);
}

#[test]
fn threshold_tables_have_expected_anchors() {
    assert_eq!(ALPHA[15], 0);
    assert_eq!(ALPHA[16], 4);
    assert_eq!(ALPHA[51], 255);
    assert_eq!(BETA[16], 2);
    assert_eq!(BETA[51], 18);
    assert_eq!(TC0[51], [13, 17, 25]);
    assert_eq!(TC0[31], [1, 2, 3]);
    assert_eq!(TC0[23], [1, 1, 1]);
    assert_eq!(TC0[15], [0, 0, 0]);
}

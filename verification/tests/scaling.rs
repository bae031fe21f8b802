//! Scaling lists.

use ripsaw::mvc::scaling::{scan_to_raster_8x8, ScalingLists, DEFAULT_8X8_INTRA, ZIGZAG_8X8};

#[test]
fn flat_lists_are_sixteen() {
    let f = ScalingLists::flat();
    assert_eq!(f.intra_8x8_luma(), &[[16; 8]; 8]);
    assert_eq!(f.list_4x4[0], [[16; 4]; 4]);
}

#[test]
fn default_8x8_intra_dc_is_six() {
    let m = scan_to_raster_8x8(&DEFAULT_8X8_INTRA);
    assert_eq!(m[0][0], 6);
}

#[test]
fn zigzag_8x8_is_a_permutation() {
    let mut seen = [false; 64];
    for &r in &ZIGZAG_8X8 {
        assert!(!seen[r]);
        seen[r] = true;
    }
    assert!(seen.iter().all(|&b| b));
}

//! Inverse transforms and quantisation.

use ripsaw::mvc::transform::{
    chroma_dc_2x2, dequant_4x4, dequant_8x8, idct_4x4, inverse_8x8, inverse_scan_4x4, inverse_scan_8x8, luma_dc_4x4, reconstruct_residual_4x4, reconstruct_residual_8x8, FLAT_WEIGHT_8X8,
};

#[test]
fn inverse_scan_places_first_coeffs_in_zigzag_order() {
    let mut scan = [0i32; 16];
    scan[0] = 1;
    scan[1] = 2;
    scan[2] = 3;
    scan[3] = 4;
    let r = inverse_scan_4x4(&scan);
    assert_eq!(r[0][0], 1);
    assert_eq!(r[0][1], 2);
    assert_eq!(r[1][0], 3);
    assert_eq!(r[2][0], 4);
    let mut scan = [0i32; 16];
    scan[15] = 9;
    assert_eq!(inverse_scan_4x4(&scan)[3][3], 9);
}

#[test]
fn inverse_scan_is_a_permutation() {
    let scan: [i32; 16] = std::array::from_fn(|i| i as i32 + 1);
    let r = inverse_scan_4x4(&scan);
    let mut seen = [false; 16];
    for row in r {
        for v in row {
            seen[(v - 1) as usize] = true;
        }
    }
    assert!(seen.iter().all(|&b| b));
}

#[test]
fn dc_only_block_reconstructs_to_constant() {
    let mut levels = [[0i32; 4]; 4];
    levels[0][0] = 1;
    let r = reconstruct_residual_4x4(&levels, 24);
    assert_eq!(r, [[3; 4]; 4]);
}

#[test]
fn dequant_4x4_dc_value() {
    let mut d = [[0i32; 4]; 4];
    d[0][0] = 1;
    dequant_4x4(&mut d, 24);
    assert_eq!(d[0][0], 160);
    let mut d = [[0i32; 4]; 4];
    d[1][1] = 1;
    dequant_4x4(&mut d, 24);
    assert_eq!(d[1][1], 256);
}

#[test]
fn idct_4x4_is_linear_and_dc_flat() {
    let mut d = [[0i32; 4]; 4];
    d[0][0] = 64;
    assert_eq!(idct_4x4(&d), [[1; 4]; 4]);
    d[0][0] = 256;
    assert_eq!(idct_4x4(&d), [[4; 4]; 4]);
}

#[test]
fn idct_4x4_zero_is_zero() {
    assert_eq!(idct_4x4(&[[0; 4]; 4]), [[0; 4]; 4]);
}

#[test]
fn luma_dc_constant_input_is_dc_only_output() {
    let c = [[5i32; 4]; 4];
    let out = luma_dc_4x4(&c, 30);
    for i in 0..4 {
        for j in 0..4 {
            if i == 0 && j == 0 {
                assert!(out[0][0] != 0);
            } else {
                assert_eq!(out[i][j], 0, "non-DC at ({i},{j})");
            }
        }
    }
}

#[test]
fn chroma_dc_hadamard_separates_constant() {
    let out = chroma_dc_2x2(&[[7, 7], [7, 7]], 30);
    assert!(out[0][0] != 0);
    assert_eq!(out[0][1], 0);
    assert_eq!(out[1][0], 0);
    assert_eq!(out[1][1], 0);
}

#[test]
fn inverse_8x8_dc_only_is_uniform() {
    let mut block = [[0i32; 8]; 8];
    block[0][0] = 64;
    let out = inverse_8x8(&block);
    for row in &out {
        for &v in row {
            assert_eq!(v, 64);
        }
    }
}

#[test]
fn inverse_8x8_is_linear() {
    let mut a = [[0i32; 8]; 8];
    let mut b = [[0i32; 8]; 8];
    a[0][0] = 100;
    a[1][3] = -8;
    a[7][7] = 5;
    b[0][0] = -20;
    b[2][1] = 12;
    b[4][4] = 30;
    let ta = inverse_8x8(&a);
    let tb = inverse_8x8(&b);
    let mut sum = [[0i32; 8]; 8];
    for i in 0..8 {
        for j in 0..8 {
            sum[i][j] = a[i][j] + b[i][j];
        }
    }
    let tsum = inverse_8x8(&sum);
    for i in 0..8 {
        for j in 0..8 {
            assert_eq!(ta[i][j] + tb[i][j], tsum[i][j]);
        }
    }
}

#[test]
fn dequant_8x8_matches_jm_formula() {
    let mut levels = [[0i32; 8]; 8];
    levels[0][0] = -3823;
    dequant_8x8(&mut levels, 0, &FLAT_WEIGHT_8X8);
    assert_eq!(levels[0][0], ((-3823i64 * 320 + 32) >> 6) as i32);
    let mut l2 = [[0i32; 8]; 8];
    l2[2][2] = 3;
    dequant_8x8(&mut l2, 6, &FLAT_WEIGHT_8X8);
    assert_eq!(l2[2][2], (((3i64 * 32 * 16) << 1) + 32) as i32 >> 6);
}

#[test]
fn dequant_8x8_with_scaling_list_matches_jm_mb0() {
    let mut weight = [[16i32; 8]; 8];
    weight[0][0] = 6;
    let mut levels = [[0i32; 8]; 8];
    levels[0][0] = -3823;
    dequant_8x8(&mut levels, 0, &weight);
    assert_eq!(levels[0][0], -7168);

    let mut lv = [[0i32; 8]; 8];
    lv[0][0] = -3823;
    let r = reconstruct_residual_8x8(&lv, 0, &weight);
    assert_eq!(r[0][0], -112);
    assert_eq!((128 + r[0][0]).clamp(0, 255), 16);
}

#[test]
fn reconstruct_residual_8x8_dc_spreads_uniformly() {
    let mut levels = [[0i32; 8]; 8];
    levels[0][0] = 12;
    let r = reconstruct_residual_8x8(&levels, 18, &FLAT_WEIGHT_8X8);
    let expected = r[0][0];
    for row in &r {
        for &v in row {
            assert_eq!(v, expected);
        }
    }
    assert!(expected != 0);
}

#[test]
fn inverse_scan_8x8_places_diagonal() {
    let mut scan = [0i32; 64];
    scan[0] = 1;
    scan[1] = 2;
    scan[2] = 3;
    scan[63] = 9;
    let b = inverse_scan_8x8(&scan);
    assert_eq!(b[0][0], 1);
    assert_eq!(b[0][1], 2);
    assert_eq!(b[1][0], 3);
    assert_eq!(b[7][7], 9);
}

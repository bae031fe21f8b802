//! Intra prediction.

use ripsaw::mvc::intra::{
    avg2, derive_intra_mode, predict_16x16, predict_4x4, predict_8x8, predict_chroma_8x8,
    Intra4x4Mode, Neighbors4x4, Neighbors8x8, NeighborsNxN, PlaneMode,
};

fn neigh(top: [i32; 8], left: [i32; 4], corner: i32) -> Neighbors4x4 {
    Neighbors4x4 { top, left, corner, top_avail: true, left_avail: true }
}

#[test]
fn vertical_copies_top_row_down() {
    let n = neigh([10, 20, 30, 40, 0, 0, 0, 0], [1, 2, 3, 4], 5);
    let p = predict_4x4(Intra4x4Mode::Vertical, &n);
    for y in 0..4 {
        assert_eq!(p[y], [10, 20, 30, 40]);
    }
}

#[test]
fn horizontal_copies_left_col_across() {
    let n = neigh([0; 8], [11, 22, 33, 44], 5);
    let p = predict_4x4(Intra4x4Mode::Horizontal, &n);
    for y in 0..4 {
        assert_eq!(p[y], [[11, 22, 33, 44][y]; 4]);
    }
}

#[test]
fn dc_averages_per_availability() {
    let n = neigh([25, 25, 25, 25, 0, 0, 0, 0], [5, 5, 5, 5], 0);
    let p = predict_4x4(Intra4x4Mode::Dc, &n);
    assert_eq!(p[0][0], (100 + 20 + 4) >> 3);
    let mut n2 = n;
    n2.left_avail = false;
    assert_eq!(predict_4x4(Intra4x4Mode::Dc, &n2)[0][0], (100 + 2) >> 2);
    let n3 = Neighbors4x4 { top_avail: false, left_avail: false, ..n };
    assert_eq!(predict_4x4(Intra4x4Mode::Dc, &n3)[0][0], 128);
}

#[test]
fn diag_down_left_on_constant_top_is_constant() {
    let n = neigh([50; 8], [0; 4], 0);
    let p = predict_4x4(Intra4x4Mode::DiagDownLeft, &n);
    assert_eq!(p, [[50; 4]; 4]);
}

#[test]
fn diag_down_right_constant_field_is_constant() {
    let n = neigh([7; 8], [7; 4], 7);
    let p = predict_4x4(Intra4x4Mode::DiagDownRight, &n);
    assert_eq!(p, [[7; 4]; 4]);
}

#[test]
fn directional_modes_preserve_a_constant_field() {
    let n = neigh([9; 8], [9; 4], 9);
    for m in [
        Intra4x4Mode::DiagDownLeft,
        Intra4x4Mode::DiagDownRight,
        Intra4x4Mode::VerticalRight,
        Intra4x4Mode::HorizontalDown,
        Intra4x4Mode::VerticalLeft,
        Intra4x4Mode::HorizontalUp,
    ] {
        assert_eq!(predict_4x4(m, &n), [[9; 4]; 4], "mode {m:?}");
    }
}

#[test]
fn vertical_left_known_taps() {
    let n = neigh([0, 4, 8, 12, 16, 20, 24, 28], [0; 4], 0);
    let p = predict_4x4(Intra4x4Mode::VerticalLeft, &n);
    assert_eq!(p[0], [avg2(0, 4), avg2(4, 8), avg2(8, 12), avg2(12, 16)]);
}

fn arr16(v: &[i32]) -> [i32; 16] {
    let mut a = [0i32; 16];
    a[..v.len()].copy_from_slice(v);
    a
}
fn nxn(top: Vec<i32>, left: Vec<i32>, corner: i32) -> ([i32; 16], [i32; 16], i32) {
    (arr16(&top), arr16(&left), corner)
}

#[test]
fn pred16_vertical_horizontal_dc() {
    let (t, l, c) = nxn(vec![3; 16], vec![7; 16], 0);
    let n = NeighborsNxN { top: t, left: l, corner: c, top_avail: true, left_avail: true };
    assert_eq!(predict_16x16(PlaneMode::Vertical, &n)[5], [3; 16]);
    assert_eq!(predict_16x16(PlaneMode::Horizontal, &n)[5], [7; 16]);
    assert_eq!(predict_16x16(PlaneMode::Dc, &n)[0][0], 5);
}

#[test]
fn pred16_plane_constant_field_is_constant() {
    let (t, l, c) = nxn(vec![100; 16], vec![100; 16], 100);
    let n = NeighborsNxN { top: t, left: l, corner: c, top_avail: true, left_avail: true };
    assert_eq!(predict_16x16(PlaneMode::Plane, &n), [[100; 16]; 16]);
}

#[test]
fn chroma_dc_per_block_preference() {
    let n = NeighborsNxN { top: arr16(&[10, 10, 10, 10, 20, 20, 20, 20]), left: arr16(&[40; 8]), corner: 0, top_avail: true, left_avail: true };
    let p = predict_chroma_8x8(PlaneMode::Dc, &n);
    assert_eq!(p[0][0], (40 + 160 + 4) >> 3);
    assert_eq!(p[0][4], (80 + 2) >> 2);
    assert_eq!(p[4][0], (160 + 2) >> 2);
    assert_eq!(p[4][4], (80 + 160 + 4) >> 3);
}

#[test]
fn chroma_plane_constant_field_is_constant() {
    let n = NeighborsNxN { top: arr16(&[55; 8]), left: arr16(&[55; 8]), corner: 55, top_avail: true, left_avail: true };
    assert_eq!(predict_chroma_8x8(PlaneMode::Plane, &n), [[55; 8]; 8]);
}

fn n8(top: [i32; 16], left: [i32; 8], corner: i32) -> Neighbors8x8 {
    Neighbors8x8 { top, left, corner, top_avail: true, left_avail: true, corner_avail: true }
}

#[test]
fn intra8x8_filter_of_constant_is_constant() {
    let n = n8([99; 16], [99; 8], 99);
    let f = n.filtered();
    assert_eq!(f.top, [99; 16]);
    assert_eq!(f.left, [99; 8]);
    assert_eq!(f.corner, 99);
}

#[test]
fn intra8x8_filter_smooths_a_spike() {
    let mut top = [0i32; 16];
    top[1] = 40;
    let n = n8(top, [0; 8], 0);
    let f = n.filtered();
    assert_eq!(f.top[0], (0 + 0 + 40 + 2) >> 2);
    assert_eq!(f.top[1], (0 + 80 + 0 + 2) >> 2);
    assert_eq!(f.top[2], (40 + 0 + 0 + 2) >> 2);
    assert_eq!(f.top[15], 0);
}

#[test]
fn intra8x8_vertical_copies_filtered_top() {
    let n = n8([70; 16], [70; 8], 70);
    let p = predict_8x8(Intra4x4Mode::Vertical, &n);
    assert_eq!(p, [[70; 8]; 8]);
}

#[test]
fn intra8x8_horizontal_copies_filtered_left() {
    let n = n8([70; 16], [70; 8], 70);
    let p = predict_8x8(Intra4x4Mode::Horizontal, &n);
    assert_eq!(p, [[70; 8]; 8]);
}

#[test]
fn intra8x8_dc_uniform_field() {
    let n = n8([80; 16], [80; 8], 80);
    assert_eq!(predict_8x8(Intra4x4Mode::Dc, &n), [[80; 8]; 8]);
}

#[test]
fn intra8x8_dc_no_neighbours_is_128() {
    let raw = Neighbors8x8 {
        top: [0; 16],
        left: [0; 8],
        corner: 0,
        top_avail: false,
        left_avail: false,
        corner_avail: false,
    };
    assert_eq!(predict_8x8(Intra4x4Mode::Dc, &raw), [[128; 8]; 8]);
}

#[test]
fn derive_intra_mode_rules() {
    assert_eq!(derive_intra_mode(Some(4), Some(6), -1), 4);
    assert_eq!(derive_intra_mode(Some(6), Some(1), -1), 1);
    assert_eq!(derive_intra_mode(None, Some(0), -1), 2);
    assert_eq!(derive_intra_mode(Some(0), None, -1), 2);
    assert_eq!(derive_intra_mode(None, None, -1), 2);
    assert_eq!(derive_intra_mode(Some(3), Some(5), 2), 2);
    assert_eq!(derive_intra_mode(Some(3), Some(5), 3), 4);
    assert_eq!(derive_intra_mode(Some(3), Some(3), 7), 8);
    assert_eq!(derive_intra_mode(None, Some(0), 2), 3);
}

#[test]
fn intra8x8_diag_down_left_depends_on_x_plus_y() {
    let n = n8([55; 16], [55; 8], 55);
    let p = predict_8x8(Intra4x4Mode::DiagDownLeft, &n);
    assert_eq!(p, [[55; 8]; 8]);
}

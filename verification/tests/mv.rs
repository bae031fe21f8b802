//! Motion vector prediction.

use ripsaw::mvc::mv::{median3, predict_mv, predict_skip_mv, Directional};

#[test]
fn all_zero_neighbours_predict_zero() {
    let z = Some((0, 0, 0));
    assert_eq!(predict_mv(z, z, z, 0, None), (0, 0));
}

#[test]
fn single_matching_ref_wins() {
    let a = Some((10, 20, 1));
    let b = Some((4, -6, 0));
    let c = Some((30, 40, 1));
    assert_eq!(predict_mv(a, b, c, 0, None), (4, -6));
}

#[test]
fn median_when_all_match() {
    let a = Some((2, 9, 0));
    let b = Some((8, 1, 0));
    let c = Some((5, 5, 0));
    assert_eq!(predict_mv(a, b, c, 0, None), (5, 5));
}

#[test]
fn directional_uses_neighbour_when_ref_matches() {
    let a = Some((7, 3, 0));
    let b = Some((100, 100, 0));
    let c = Some((0, 0, 0));
    assert_eq!(predict_mv(a, b, c, 0, Some(Directional::Left)), (7, 3));
    let a2 = Some((7, 3, 1));
    assert_eq!(predict_mv(a2, b, c, 0, Some(Directional::Left)), (median3(7, 100, 0), median3(3, 100, 0)));
}

#[test]
fn b_c_unavailable_inherit_a() {
    let a = Some((5, -4, 0));
    assert_eq!(predict_mv(a, None, None, 0, None), (5, -4));
}

#[test]
fn skip_is_zero_when_neighbour_zero() {
    assert_eq!(predict_skip_mv(None, Some((0, 0, 0)), None), (0, 0));
    assert_eq!(predict_skip_mv(Some((3, 3, 0)), Some((0, 0, 0)), Some((3, 3, 0))), (0, 0));
    let a = Some((6, 6, 0));
    let b = Some((6, 6, 0));
    assert_eq!(predict_skip_mv(a, b, Some((6, 6, 0))), (6, 6));
}

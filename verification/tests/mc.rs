//! Motion compensation.

use ripsaw::mvc::arith::clip1;
use ripsaw::mvc::mc::{mc_chroma, mc_luma, Plane};

fn ramp_plane(w: usize, h: usize) -> Vec<u8> {
    (0..w * h).map(|i| ((i * 7) % 256) as u8).collect()
}

#[test]
fn integer_mv_is_a_copy() {
    let (w, h) = (16, 16);
    let d = ramp_plane(w, h);
    let p = Plane { data: &d, w, h };
    let blk = mc_luma(&p, 4, 4, 8, -4, 4, 4);
    for j in 0..4 {
        for i in 0..4 {
            assert_eq!(blk[j * 4 + i], p.at(4 + 2 + i as i32, 4 - 1 + j as i32) as u8);
        }
    }
}

#[test]
fn half_pel_horizontal_is_6tap() {
    let (w, h) = (16, 16);
    let d = ramp_plane(w, h);
    let p = Plane { data: &d, w, h };
    let blk = mc_luma(&p, 5, 5, 2, 0, 2, 2);
    for j in 0..2i32 {
        for i in 0..2i32 {
            let x = 5 + i;
            let y = 5 + j;
            let expect = clip1((p.h6(x, y) + 16) >> 5) as u8;
            assert_eq!(blk[(j * 2 + i) as usize], expect);
        }
    }
}

#[test]
fn quarter_pel_averages_integer_and_half() {
    let (w, h) = (16, 16);
    let d = ramp_plane(w, h);
    let p = Plane { data: &d, w, h };
    let blk = mc_luma(&p, 5, 5, 1, 0, 1, 1);
    let g = p.at(5, 5);
    let b = clip1((p.h6(5, 5) + 16) >> 5);
    assert_eq!(blk[0], ((g + b + 1) >> 1) as u8);
}

#[test]
fn chroma_integer_is_copy() {
    let (w, h) = (8, 8);
    let d = ramp_plane(w, h);
    let p = Plane { data: &d, w, h };
    let blk = mc_chroma(&p, 1, 1, 8, 8, 2, 2);
    assert_eq!(blk[0], p.at(2, 2) as u8);
}

#[test]
fn border_clamps() {
    let (w, h) = (4, 4);
    let d = ramp_plane(w, h);
    let p = Plane { data: &d, w, h };
    assert_eq!(p.at(-10, -10), p.at(0, 0));
    let blk = mc_luma(&p, 0, 0, -40, -40, 2, 2);
    assert_eq!(blk[0], p.at(0, 0) as u8);
}

#[test]
fn blocks_read_only_the_samples_they_need() {
    let d = ramp_plane(16, 16);
    let whole = Plane { data: &d, w: 16, h: 16 };
    let part = Plane { data: &d[..160], w: 16, h: 16 };
    for mv in [(0, 0), (1, 0), (2, 0), (-4, 0)] {
        assert!(part.holds_luma(4, 6, mv.0, mv.1, 4, 4));
        assert!(!part.holds_luma(4, 7, mv.0, mv.1, 4, 4));
        assert_eq!(
            mc_luma(&part, 4, 6, mv.0, mv.1, 4, 4),
            mc_luma(&whole, 4, 6, mv.0, mv.1, 4, 4)
        );
    }
    for mv in [(0, 1), (0, 2), (0, 3), (1, 1), (3, 3), (2, 1), (3, 2), (2, 2)] {
        assert!(part.holds_luma(4, 3, mv.0, mv.1, 4, 4));
        assert!(!part.holds_luma(4, 4, mv.0, mv.1, 4, 4));
        assert_eq!(
            mc_luma(&part, 4, 3, mv.0, mv.1, 4, 4),
            mc_luma(&whole, 4, 3, mv.0, mv.1, 4, 4)
        );
    }
    assert!(whole.holds_luma(-90, 400, 7, 5, 16, 16));
    let short = Plane { data: &d[..136], w: 16, h: 16 };
    assert!(short.holds_luma(4, 5, 0, 0, 4, 4));
    assert!(!short.holds_luma(5, 5, 0, 0, 4, 4));
    assert!(part.holds_chroma(2, 7, 0, 0, 2, 2));
    assert!(!part.holds_chroma(2, 8, 0, 0, 2, 2));
    assert_eq!(mc_chroma(&part, 2, 7, 3, 0, 2, 2), mc_chroma(&whole, 2, 7, 3, 0, 2, 2));
    let column = (2..8).map(|y| whole.at(5, y)).collect::<Vec<i32>>();
    let sum = column[0] - 5 * column[1] + 20 * column[2] + 20 * column[3] - 5 * column[4] + column[5];
    assert_eq!(part.v6(5, 4), sum);
}

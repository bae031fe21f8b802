//! Motion compensation of wide blocks, against taps written out one by one.

use ripsaw::mvc::mc::{mc_chroma, mc_luma, Plane};

fn noise(w: usize, h: usize) -> Vec<u8> {
    let mut x = 12345u32;
    (0..w * h)
        .map(|i| {
            x = x.wrapping_mul(1664525).wrapping_add(1013904223);
            match i % 7 {
                0 => 0,
                3 => 255,
                _ => (x >> 24) as u8,
            }
        })
        .collect()
}

struct Samples<'a> {
    d: &'a [u8],
    w: i32,
    h: i32,
}

impl Samples<'_> {
    fn at(&self, x: i32, y: i32) -> i32 {
        self.d[(y.clamp(0, self.h - 1) * self.w + x.clamp(0, self.w - 1)) as usize] as i32
    }

    fn across(&self, x: i32, y: i32) -> i32 {
        self.at(x - 2, y) - 5 * self.at(x - 1, y) + 20 * self.at(x, y) + 20 * self.at(x + 1, y)
            - 5 * self.at(x + 2, y)
            + self.at(x + 3, y)
    }

    fn down(&self, x: i32, y: i32) -> i32 {
        self.at(x, y - 2) - 5 * self.at(x, y - 1) + 20 * self.at(x, y) + 20 * self.at(x, y + 1)
            - 5 * self.at(x, y + 2)
            + self.at(x, y + 3)
    }

    fn middle(&self, x: i32, y: i32) -> i32 {
        self.across(x, y - 2) - 5 * self.across(x, y - 1) + 20 * self.across(x, y)
            + 20 * self.across(x, y + 1)
            - 5 * self.across(x, y + 2)
            + self.across(x, y + 3)
    }

    fn luma(&self, x: i32, y: i32, fx: i32, fy: i32) -> i32 {
        let half = |v: i32| ((v + 16) >> 5).clamp(0, 255);
        let g = self.at(x, y);
        let b = half(self.across(x, y));
        let h = half(self.down(x, y));
        let j = ((self.middle(x, y) + 512) >> 10).clamp(0, 255);
        let m = half(self.down(x + 1, y));
        let s = half(self.across(x, y + 1));
        let mean = |a: i32, b: i32| (a + b + 1) >> 1;
        match (fx, fy) {
            (0, 0) => g,
            (1, 0) => mean(g, b),
            (2, 0) => b,
            (3, 0) => mean(b, self.at(x + 1, y)),
            (0, 1) => mean(g, h),
            (0, 2) => h,
            (0, 3) => mean(h, self.at(x, y + 1)),
            (1, 1) => mean(b, h),
            (2, 1) => mean(b, j),
            (3, 1) => mean(b, m),
            (1, 2) => mean(h, j),
            (2, 2) => j,
            (3, 2) => mean(j, m),
            (1, 3) => mean(h, s),
            (2, 3) => mean(j, s),
            _ => mean(s, m),
        }
    }
}

#[test]
fn wide_luma_blocks_match_the_taps() {
    let (w, h) = (64usize, 48usize);
    let d = noise(w, h);
    let p = Plane { data: &d, w, h };
    let s = Samples { d: &d, w: w as i32, h: h as i32 };
    for fy in 0..4 {
        for fx in 0..4 {
            for (bw, bh) in [(16, 16), (8, 8), (16, 8), (4, 4)] {
                let got = mc_luma(&p, 16, 16, fx + 8, fy - 4, bw, bh);
                assert_eq!(got.len(), bw * bh);
                for y in 0..bh {
                    for x in 0..bw {
                        let want = s.luma(18 + x as i32, 15 + y as i32, fx, fy);
                        assert_eq!(got[y * bw + x] as i32, want, "{fx} {fy} {bw}x{bh} at {x} {y}");
                    }
                }
            }
        }
    }
}

#[test]
fn luma_blocks_at_the_border_match_the_taps() {
    let (w, h) = (32usize, 32usize);
    let d = noise(w, h);
    let p = Plane { data: &d, w, h };
    let s = Samples { d: &d, w: w as i32, h: h as i32 };
    for (bx, by) in [(0, 0), (16, 0), (0, 16), (16, 16)] {
        for (mx, my) in [(-9, -6), (7, 5), (-70, 90), (2, 2)] {
            let got = mc_luma(&p, bx, by, mx, my, 16, 16);
            for y in 0..16i32 {
                for x in 0..16i32 {
                    let (px, py) = (bx + (mx >> 2) + x, by + (my >> 2) + y);
                    let want = s.luma(px, py, mx & 3, my & 3);
                    assert_eq!(got[(y * 16 + x) as usize] as i32, want);
                }
            }
        }
    }
}

#[test]
fn chroma_blocks_are_bilinear() {
    let (w, h) = (24usize, 24usize);
    let d = noise(w, h);
    let p = Plane { data: &d, w, h };
    let s = Samples { d: &d, w: w as i32, h: h as i32 };
    for (mx, my) in [(0, 0), (3, 5), (-7, 2), (12, -9)] {
        let got = mc_chroma(&p, 8, 8, mx, my, 8, 8);
        for y in 0..8i32 {
            for x in 0..8i32 {
                let (px, py) = (8 + (mx >> 3) + x, 8 + (my >> 3) + y);
                let (fx, fy) = (mx & 7, my & 7);
                let want = ((8 - fx) * (8 - fy) * s.at(px, py)
                    + fx * (8 - fy) * s.at(px + 1, py)
                    + (8 - fx) * fy * s.at(px, py + 1)
                    + fx * fy * s.at(px + 1, py + 1)
                    + 32)
                    >> 6;
                assert_eq!(got[(y * 8 + x) as usize] as i32, want);
            }
        }
    }
}

#[test]
fn flat_references_stay_flat() {
    let d = vec![77u8; 32 * 32];
    let p = Plane { data: &d, w: 32, h: 32 };
    for f in 0..16 {
        let got = mc_luma(&p, 8, 8, f % 4, f / 4, 16, 16);
        assert!(got.iter().all(|&v| v == 77));
    }
}

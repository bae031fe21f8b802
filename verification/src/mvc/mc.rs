//! Motion compensation (H.264 section 8.4.2.2): luma at quarter-sample and
//! chroma at eighth-sample positions of a reference plane. Samples outside the
//! plane take the nearest one on its border.

use crate::mvc::arith::{clip, lemma_i32_shr, lemma_row_bounds, lemma_row_major};
use vstd::prelude::*;

pub mod portable;

verus! {

/// A reference as a function from column and row to sample.
pub type Sampler = spec_fn(int, int) -> int;

/// The 6-tap filter.
pub open spec fn tap6(a: int, b: int, c: int, d: int, e: int, f: int) -> int {
    a - 5 * b + 20 * c + 20 * d - 5 * e + f
}

/// The unrounded horizontal half sample right of a position.
pub open spec fn across(s: Sampler, x: int, y: int) -> int {
    tap6(s(x - 2, y), s(x - 1, y), s(x, y), s(x + 1, y), s(x + 2, y), s(x + 3, y))
}

/// The unrounded vertical half sample below a position.
pub open spec fn down(s: Sampler, x: int, y: int) -> int {
    tap6(s(x, y - 2), s(x, y - 1), s(x, y), s(x, y + 1), s(x, y + 2), s(x, y + 3))
}

/// A filtered value rounded back to a sample.
pub open spec fn halved(v: int) -> int {
    clip(0, 255, (v + 16) / 32)
}

/// The half sample in the middle of four: the vertical filter over unrounded
/// horizontal half samples.
pub open spec fn centre(s: Sampler, x: int, y: int) -> int {
    clip(
        0,
        255,
        (tap6(
            across(s, x, y - 2),
            across(s, x, y - 1),
            across(s, x, y),
            across(s, x, y + 1),
            across(s, x, y + 2),
            across(s, x, y + 3),
        ) + 512) / 1024,
    )
}

/// The rounded mean of two samples.
pub open spec fn mixed(a: int, b: int) -> int {
    (a + b + 1) / 2
}

/// The luma sample at a quarter position (`fx`, `fy`) right of and below (`x`,
/// `y`): a full or half sample, or the mean of the two nearest of these.
#[verifier::opaque]
pub open spec fn luma_sample(s: Sampler, fx: int, fy: int, x: int, y: int) -> int {
    let row = if fy == 3 {
        y + 1
    } else {
        y
    };
    let col = if fx == 3 {
        x + 1
    } else {
        x
    };
    if fx == 0 && fy == 0 {
        s(x, y)
    } else if fy == 0 {
        if fx == 2 {
            halved(across(s, x, y))
        } else {
            mixed(s(col, y), halved(across(s, x, y)))
        }
    } else if fx == 0 {
        if fy == 2 {
            halved(down(s, x, y))
        } else {
            mixed(s(x, row), halved(down(s, x, y)))
        }
    } else if fx == 2 && fy == 2 {
        centre(s, x, y)
    } else if fx == 2 {
        mixed(halved(across(s, x, row)), centre(s, x, y))
    } else if fy == 2 {
        mixed(halved(down(s, col, y)), centre(s, x, y))
    } else {
        mixed(halved(across(s, x, row)), halved(down(s, col, y)))
    }
}

/// The chroma sample at an eighth position: the bilinear mean of four samples.
#[verifier::opaque]
pub open spec fn chroma_sample(s: Sampler, fx: int, fy: int, x: int, y: int) -> int {
    ((8 - fx) * (8 - fy) * s(x, y) + fx * (8 - fy) * s(x + 1, y) + (8 - fx) * fy * s(x, y + 1) + fx
        * fy * s(x + 1, y + 1) + 32) / 64
}

/// A predicted luma block of `bw` columns and `bh` rows, row by row.
pub open spec fn luma_pred(
    s: Sampler,
    bx: int,
    by: int,
    mvx: int,
    mvy: int,
    bw: int,
    bh: int,
) -> Seq<u8> {
    Seq::new(
        (bw * bh) as nat,
        |k: int|
            luma_sample(s, mvx % 4, mvy % 4, bx + mvx / 4 + k % bw, by + mvy / 4 + k / bw) as u8,
    )
}

/// A predicted chroma block, row by row.
pub open spec fn chroma_pred(
    s: Sampler,
    bx: int,
    by: int,
    mvx: int,
    mvy: int,
    bw: int,
    bh: int,
) -> Seq<u8> {
    Seq::new(
        (bw * bh) as nat,
        |k: int|
            chroma_sample(s, mvx % 8, mvy % 8, bx + mvx / 8 + k % bw, by + mvy / 8 + k / bw) as u8,
    )
}

/// Where the sample for a position is held in a plane of `h` rows of `w` samples:
/// positions outside the plane take the nearest one on its border.
pub open spec fn sample_index(w: int, h: int, x: int, y: int) -> int {
    clip(0, h - 1, y) * w + clip(0, w - 1, x)
}

/// The sampler of the plane in `data`, with border samples repeated outward.
pub open spec fn bordered(data: Seq<u8>, w: int, h: int) -> Sampler {
    |x: int, y: int| data[sample_index(w, h, x, y)] as int
}

/// A luma block of `bw` columns and `bh` rows at a quarter position reads the
/// sample `dx` right of and `dy` below its first whole sample.
pub open spec fn luma_reads(fx: int, fy: int, bw: int, bh: int, dx: int, dy: int) -> bool {
    let row = if fy == 3 {
        1int
    } else {
        0
    };
    let col = if fx == 3 {
        1int
    } else {
        0
    };
    &&& bw > 0
    &&& bh > 0
    &&& if fx == 0 && fy == 0 {
        0 <= dx < bw && 0 <= dy < bh
    } else if fy == 0 {
        -2 <= dx < bw + 3 && 0 <= dy < bh
    } else if fx == 0 {
        0 <= dx < bw && -2 <= dy < bh + 3
    } else if fx == 2 || fy == 2 {
        -2 <= dx < bw + 3 && -2 <= dy < bh + 3
    } else {
        ||| -2 <= dx < bw + 3 && row <= dy < bh + row
        ||| col <= dx < bw + col && -2 <= dy < bh + 3
    }
}

/// A plane of `h` rows of `w` samples, of which the first `n` are held, has all
/// that a predicted luma block reads.
pub open spec fn luma_held(
    n: int,
    w: int,
    h: int,
    bx: int,
    by: int,
    mvx: int,
    mvy: int,
    bw: int,
    bh: int,
) -> bool {
    forall|dx: int, dy: int|
        #[trigger] luma_reads(mvx % 4, mvy % 4, bw, bh, dx, dy) ==> sample_index(
            w,
            h,
            bx + mvx / 4 + dx,
            by + mvy / 4 + dy,
        ) < n
}

/// A chroma block of `bw` columns and `bh` rows reads the sample `dx` right of and
/// `dy` below its first whole sample, whatever the eighth position.
pub open spec fn chroma_reads(bw: int, bh: int, dx: int, dy: int) -> bool {
    bw > 0 && bh > 0 && 0 <= dx < bw + 1 && 0 <= dy < bh + 1
}

/// A plane of `h` rows of `w` samples, of which the first `n` are held, has all
/// that a predicted chroma block reads.
pub open spec fn chroma_held(
    n: int,
    w: int,
    h: int,
    bx: int,
    by: int,
    mvx: int,
    mvy: int,
    bw: int,
    bh: int,
) -> bool {
    forall|dx: int, dy: int|
        #[trigger] chroma_reads(bw, bh, dx, dy) ==> sample_index(
            w,
            h,
            bx + mvx / 8 + dx,
            by + mvy / 8 + dy,
        ) < n
}

/// Positions further right and further down are held later.
proof fn lemma_index_grows(w: int, h: int, x: int, y: int, x2: int, y2: int)
    requires
        w >= 1,
        h >= 1,
        x <= x2,
        y <= y2,
    ensures
        0 <= sample_index(w, h, x, y) <= sample_index(w, h, x2, y2) < w * h,
{
    let (a, b) = (clip(0, h - 1, y), clip(0, h - 1, y2));
    assert(0 <= a * w <= b * w <= (h - 1) * w) by (nonlinear_arith)
        requires
            0 <= a <= b <= h - 1,
            w >= 1,
    ;
    assert((h - 1) * w + w == w * h) by (nonlinear_arith);
}

/// A reference plane of `h` rows of `w` samples.
pub struct Plane<'a> {
    pub data: &'a [u8],
    pub w: usize,
    pub h: usize,
}

impl Plane<'_> {
    /// The plane is not empty, and its positions can be addressed.
    pub open spec fn ok(self) -> bool {
        &&& 1 <= self.w <= i32::MAX
        &&& 1 <= self.h <= i32::MAX
    }

    /// The sample for a position is held.
    pub open spec fn has(self, x: int, y: int) -> bool {
        sample_index(self.w as int, self.h as int, x, y) < self.data@.len()
    }

    spec fn lit(self, fx: int, fy: int, x: int, y: int) -> bool {
        if fx == 0 && fy == 0 {
            self.has(x, y)
        } else if fy == 0 {
            self.has(x + 3, y)
        } else if fx == 0 {
            self.has(x, y + 3)
        } else if fx == 2 || fy == 2 {
            self.has(x + 3, y + 3)
        } else {
            self.has(x + 3, if fy == 3 {
                y + 1
            } else {
                y
            }) && self.has(if fx == 3 {
                x + 1
            } else {
                x
            }, y + 3)
        }
    }

    proof fn lemma_has(self, x: int, y: int, x2: int, y2: int)
        requires
            self.ok(),
            self.has(x2, y2),
            x <= x2,
            y <= y2,
        ensures
            self.has(x, y),
    {
        lemma_index_grows(self.w as int, self.h as int, x, y, x2, y2);
    }

    proof fn lemma_lit(self, fx: int, fy: int, x: int, y: int, x2: int, y2: int)
        requires
            self.ok(),
            self.lit(fx, fy, x2, y2),
            x <= x2,
            y <= y2,
        ensures
            self.lit(fx, fy, x, y),
    {
        let (w, h) = (self.w as int, self.h as int);
        let (row, row2) = if fy == 3 {
            (y + 1, y2 + 1)
        } else {
            (y, y2)
        };
        let (col, col2) = if fx == 3 {
            (x + 1, x2 + 1)
        } else {
            (x, x2)
        };
        lemma_index_grows(w, h, x, y, x2, y2);
        lemma_index_grows(w, h, x + 3, y, x2 + 3, y2);
        lemma_index_grows(w, h, x, y + 3, x2, y2 + 3);
        lemma_index_grows(w, h, x + 3, y + 3, x2 + 3, y2 + 3);
        lemma_index_grows(w, h, x + 3, row, x2 + 3, row2);
        lemma_index_grows(w, h, col, y + 3, col2, y2 + 3);
    }

    proof fn lemma_luma_held(self, bx: int, by: int, mvx: int, mvy: int, bw: int, bh: int)
        requires
            self.ok(),
            bw >= 1,
            bh >= 1,
        ensures
            luma_held(self.data@.len() as int, self.w as int, self.h as int, bx, by, mvx, mvy, bw, bh)
                == self.lit(
                mvx % 4,
                mvy % 4,
                bx + mvx / 4 + bw - 1,
                by + mvy / 4 + bh - 1,
            ),
    {
        let (n, w, h) = (self.data@.len() as int, self.w as int, self.h as int);
        let (fx, fy, ox, oy) = (mvx % 4, mvy % 4, bx + mvx / 4, by + mvy / 4);
        let row = if fy == 3 {
            1int
        } else {
            0
        };
        let col = if fx == 3 {
            1int
        } else {
            0
        };
        if luma_held(n, w, h, bx, by, mvx, mvy, bw, bh) {
            if fx == 0 && fy == 0 {
                assert(luma_reads(fx, fy, bw, bh, bw - 1, bh - 1));
            } else if fy == 0 {
                assert(luma_reads(fx, fy, bw, bh, bw + 2, bh - 1));
            } else if fx == 0 {
                assert(luma_reads(fx, fy, bw, bh, bw - 1, bh + 2));
            } else if fx == 2 || fy == 2 {
                assert(luma_reads(fx, fy, bw, bh, bw + 2, bh + 2));
            } else {
                assert(luma_reads(fx, fy, bw, bh, bw + 2, bh - 1 + row));
                assert(luma_reads(fx, fy, bw, bh, bw - 1 + col, bh + 2));
            }
        }
        if self.lit(fx, fy, ox + bw - 1, oy + bh - 1) {
            assert forall|dx: int, dy: int|
                #[trigger] luma_reads(fx, fy, bw, bh, dx, dy) implies sample_index(
                w,
                h,
                ox + dx,
                oy + dy,
            ) < n by {
                let (x2, y2) = if fx == 0 && fy == 0 {
                    (bw - 1, bh - 1)
                } else if fy == 0 {
                    (bw + 2, bh - 1)
                } else if fx == 0 {
                    (bw - 1, bh + 2)
                } else if fx == 2 || fy == 2 {
                    (bw + 2, bh + 2)
                } else if row <= dy < bh + row && -2 <= dx < bw + 3 {
                    (bw + 2, bh - 1 + row)
                } else {
                    (bw - 1 + col, bh + 2)
                };
                lemma_index_grows(w, h, ox + dx, oy + dy, ox + x2, oy + y2);
            }
        }
    }

    proof fn lemma_chroma_held(self, bx: int, by: int, mvx: int, mvy: int, bw: int, bh: int)
        requires
            self.ok(),
            bw >= 1,
            bh >= 1,
        ensures
            chroma_held(
                self.data@.len() as int,
                self.w as int,
                self.h as int,
                bx,
                by,
                mvx,
                mvy,
                bw,
                bh,
            ) == self.has(bx + mvx / 8 + bw, by + mvy / 8 + bh),
    {
        let (n, w, h) = (self.data@.len() as int, self.w as int, self.h as int);
        let (ox, oy) = (bx + mvx / 8, by + mvy / 8);
        if chroma_held(n, w, h, bx, by, mvx, mvy, bw, bh) {
            assert(chroma_reads(bw, bh, bw, bh));
        }
        if self.has(ox + bw, oy + bh) {
            assert forall|dx: int, dy: int| #[trigger]
                chroma_reads(bw, bh, dx, dy) implies sample_index(w, h, ox + dx, oy + dy) < n by {
                lemma_index_grows(w, h, ox + dx, oy + dy, ox + bw, oy + bh);
            }
        }
    }

    /// The samples by column and row.
    pub open spec fn sampler(self) -> Sampler {
        bordered(self.data@, self.w as int, self.h as int)
    }

    fn index(&self, x: i64, y: i64) -> (k: u64)
        requires
            self.ok(),
        ensures
            k == sample_index(self.w as int, self.h as int, x as int, y as int),
    {
        let cx: u64 = if x < 0 {
            0
        } else if x >= self.w as i64 {
            self.w as u64 - 1
        } else {
            x as u64
        };
        let cy: u64 = if y < 0 {
            0
        } else if y >= self.h as i64 {
            self.h as u64 - 1
        } else {
            y as u64
        };
        assert(0 <= cy * self.w <= 0x7fff_ffff * 0x7fff_ffff) by (nonlinear_arith)
            requires
                0 <= cy <= 0x7fff_ffff,
                0 <= self.w <= 0x7fff_ffff,
        ;
        cy * self.w as u64 + cx
    }

    fn is_held(&self, x: i64, y: i64) -> (b: bool)
        requires
            self.ok(),
        ensures
            b == self.has(x as int, y as int),
    {
        self.index(x, y) < self.data.len() as u64
    }

    fn sample(&self, x: i64, y: i64) -> (r: i32)
        requires
            self.ok(),
            self.has(x as int, y as int),
        ensures
            r == self.sampler()(x as int, y as int),
            0 <= r <= 255,
    {
        let n: usize = self.data.len();
        let k: u64 = self.index(x, y);
        assert(k < n);
        self.data[k as usize] as i32
    }

    /// The sample at a position; positions outside the plane take the nearest
    /// one on its border.
    pub fn at(&self, x: i32, y: i32) -> (r: i32)
        requires
            self.ok(),
            self.has(x as int, y as int),
        ensures
            r == self.sampler()(x as int, y as int),
            0 <= r <= 255,
    {
        self.sample(x as i64, y as i64)
    }

    fn across_at(&self, x: i64, y: i64) -> (r: i32)
        requires
            self.ok(),
            self.has(x + 3, y as int),
            -0x4_0000_0000 <= x <= 0x4_0000_0000,
        ensures
            r == across(self.sampler(), x as int, y as int),
            -2550 <= r <= 10710,
    {
        proof {
            assert forall|k: int| -2 <= k <= 3 implies #[trigger] self.has(x + k, y as int) by {
                self.lemma_has(x + k, y as int, x + 3, y as int);
            }
            assert(self.has(x + (-2), y as int) && self.has(x + (-1), y as int) && self.has(
                x + 0,
                y as int,
            ) && self.has(x + 1, y as int) && self.has(x + 2, y as int));
        }
        self.sample(x - 2, y) - 5 * self.sample(x - 1, y) + 20 * self.sample(x, y) + 20
            * self.sample(x + 1, y) - 5 * self.sample(x + 2, y) + self.sample(x + 3, y)
    }

    fn down_at(&self, x: i64, y: i64) -> (r: i32)
        requires
            self.ok(),
            self.has(x as int, y + 3),
            -0x4_0000_0000 <= y <= 0x4_0000_0000,
        ensures
            r == down(self.sampler(), x as int, y as int),
            -2550 <= r <= 10710,
    {
        proof {
            assert forall|k: int| -2 <= k <= 3 implies #[trigger] self.has(x as int, y + k) by {
                self.lemma_has(x as int, y + k, x as int, y + 3);
            }
            assert(self.has(x as int, y + (-2)) && self.has(x as int, y + (-1)) && self.has(
                x as int,
                y + 0,
            ) && self.has(x as int, y + 1) && self.has(x as int, y + 2));
        }
        self.sample(x, y - 2) - 5 * self.sample(x, y - 1) + 20 * self.sample(x, y) + 20
            * self.sample(x, y + 1) - 5 * self.sample(x, y + 2) + self.sample(x, y + 3)
    }

    /// The unrounded horizontal half sample right of a position.
    pub fn h6(&self, x: i32, y: i32) -> (r: i32)
        requires
            self.ok(),
            forall|k: int| x - 2 <= k <= x + 3 ==> #[trigger] self.has(k, y as int),
        ensures
            r == across(self.sampler(), x as int, y as int),
    {
        self.across_at(x as i64, y as i64)
    }

    /// The unrounded vertical half sample below a position.
    pub fn v6(&self, x: i32, y: i32) -> (r: i32)
        requires
            self.ok(),
            forall|k: int| y - 2 <= k <= y + 3 ==> #[trigger] self.has(x as int, k),
        ensures
            r == down(self.sampler(), x as int, y as int),
    {
        self.down_at(x as i64, y as i64)
    }

    fn half_across(&self, x: i64, y: i64) -> (r: i32)
        requires
            self.ok(),
            self.has(x + 3, y as int),
            -0x4_0000_0000 <= x <= 0x4_0000_0000,
        ensures
            r == halved(across(self.sampler(), x as int, y as int)),
            0 <= r <= 255,
    {
        let v: i32 = self.across_at(x, y) + 16;
        proof {
            lemma_i32_shr(v);
        }
        crate::mvc::arith::clip1(v >> 5)
    }

    fn half_down(&self, x: i64, y: i64) -> (r: i32)
        requires
            self.ok(),
            self.has(x as int, y + 3),
            -0x4_0000_0000 <= y <= 0x4_0000_0000,
        ensures
            r == halved(down(self.sampler(), x as int, y as int)),
            0 <= r <= 255,
    {
        let v: i32 = self.down_at(x, y) + 16;
        proof {
            lemma_i32_shr(v);
        }
        crate::mvc::arith::clip1(v >> 5)
    }

    fn middle(&self, x: i64, y: i64) -> (r: i32)
        requires
            self.ok(),
            self.has(x + 3, y + 3),
            -0x4_0000_0000 <= x <= 0x4_0000_0000,
            -0x3_0000_0000 <= y <= 0x3_0000_0000,
        ensures
            r == centre(self.sampler(), x as int, y as int),
            0 <= r <= 255,
    {
        proof {
            assert forall|k: int| -2 <= k <= 3 implies #[trigger] self.has(x + 3, y + k) by {
                self.lemma_has(x + 3, y + k, x + 3, y + 3);
            }
            assert(self.has(x + 3, y + (-2)) && self.has(x + 3, y + (-1)) && self.has(x + 3, y + 0)
                && self.has(x + 3, y + 1) && self.has(x + 3, y + 2));
        }
        let v: i32 = self.across_at(x, y - 2) - 5 * self.across_at(x, y - 1) + 20 * self.across_at(
            x,
            y,
        ) + 20 * self.across_at(x, y + 1) - 5 * self.across_at(x, y + 2) + self.across_at(x, y + 3)
            + 512;
        proof {
            lemma_i32_shr(v);
        }
        crate::mvc::arith::clip1(v >> 10)
    }

    fn luma_at(&self, fx: i32, fy: i32, x: i64, y: i64) -> (r: u8)
        requires
            self.ok(),
            self.lit(fx as int, fy as int, x as int, y as int),
            0 <= fx < 4,
            0 <= fy < 4,
            -0x2_0000_0000 <= x <= 0x2_0000_0000,
            -0x2_0000_0000 <= y <= 0x2_0000_0000,
        ensures
            r == luma_sample(self.sampler(), fx as int, fy as int, x as int, y as int),
    {
        proof {
            reveal(luma_sample);
            let (a, b) = (x as int, y as int);
            if fy == 0 && fx != 0 {
                self.lemma_has(a, b, a + 3, b);
                self.lemma_has(a + 1, b, a + 3, b);
            } else if fx == 0 && fy != 0 {
                self.lemma_has(a, b, a, b + 3);
                self.lemma_has(a, b + 1, a, b + 3);
            } else if fx == 2 || fy == 2 {
                self.lemma_has(a + 3, b, a + 3, b + 3);
                self.lemma_has(a + 3, b + 1, a + 3, b + 3);
                self.lemma_has(a, b + 3, a + 3, b + 3);
                self.lemma_has(a + 1, b + 3, a + 3, b + 3);
            }
        }
        let row: i64 = if fy == 3 {
            y + 1
        } else {
            y
        };
        let col: i64 = if fx == 3 {
            x + 1
        } else {
            x
        };
        if fx == 0 && fy == 0 {
            return self.sample(x, y) as u8;
        }
        if fy == 0 && fx == 2 {
            return self.half_across(x, y) as u8;
        }
        if fx == 0 && fy == 2 {
            return self.half_down(x, y) as u8;
        }
        if fx == 2 && fy == 2 {
            return self.middle(x, y) as u8;
        }
        let (a, b): (i32, i32) = if fy == 0 {
            (self.sample(col, y), self.half_across(x, y))
        } else if fx == 0 {
            (self.sample(x, row), self.half_down(x, y))
        } else if fx == 2 {
            (self.half_across(x, row), self.middle(x, y))
        } else if fy == 2 {
            (self.half_down(col, y), self.middle(x, y))
        } else {
            (self.half_across(x, row), self.half_down(col, y))
        };
        let v: i32 = a + b + 1;
        proof {
            lemma_i32_shr(v);
        }
        (v >> 1) as u8
    }

    fn chroma_at(&self, fx: i32, fy: i32, x: i64, y: i64) -> (r: u8)
        requires
            self.ok(),
            self.has(x + 1, y + 1),
            0 <= fx < 8,
            0 <= fy < 8,
            -0x2_0000_0000 <= x <= 0x2_0000_0000,
            -0x2_0000_0000 <= y <= 0x2_0000_0000,
        ensures
            r == chroma_sample(self.sampler(), fx as int, fy as int, x as int, y as int),
    {
        proof {
            reveal(chroma_sample);
            self.lemma_has(x as int, y as int, x + 1, y + 1);
            self.lemma_has(x + 1, y as int, x + 1, y + 1);
            self.lemma_has(x as int, y + 1, x + 1, y + 1);
        }
        let (a, b, c, d): (i32, i32, i32, i32) = (
            self.sample(x, y),
            self.sample(x + 1, y),
            self.sample(x, y + 1),
            self.sample(x + 1, y + 1),
        );
        proof {
            lemma_bilinear(fx as int, fy as int, a as int, b as int, c as int, d as int);
        }
        let (w00, w10, w01, w11): (i32, i32, i32, i32) = (
            (8 - fx) * (8 - fy),
            fx * (8 - fy),
            (8 - fx) * fy,
            fx * fy,
        );
        let v: i32 = w00 * a + w10 * b + w01 * c + w11 * d + 32;
        proof {
            lemma_i32_shr(v);
        }
        (v >> 6) as u8
    }
}

impl Plane<'_> {
    /// Whether the plane has all that a predicted luma block reads.
    pub fn holds_luma(&self, bx: i32, by: i32, mvx: i32, mvy: i32, bw: usize, bh: usize) -> (b: bool)
        requires
            self.ok(),
            1 <= bw <= i32::MAX,
            1 <= bh <= i32::MAX,
        ensures
            b == luma_held(
                self.data@.len() as int,
                self.w as int,
                self.h as int,
                bx as int,
                by as int,
                mvx as int,
                mvy as int,
                bw as int,
                bh as int,
            ),
    {
        proof {
            lemma_i32_shr(mvx);
            lemma_i32_shr(mvy);
            self.lemma_luma_held(
                bx as int,
                by as int,
                mvx as int,
                mvy as int,
                bw as int,
                bh as int,
            );
        }
        let fx: i32 = mvx & 3;
        let fy: i32 = mvy & 3;
        let x: i64 = bx as i64 + (mvx >> 2) as i64 + bw as i64 - 1;
        let y: i64 = by as i64 + (mvy >> 2) as i64 + bh as i64 - 1;
        if fx == 0 && fy == 0 {
            self.is_held(x, y)
        } else if fy == 0 {
            self.is_held(x + 3, y)
        } else if fx == 0 {
            self.is_held(x, y + 3)
        } else if fx == 2 || fy == 2 {
            self.is_held(x + 3, y + 3)
        } else {
            let row: i64 = if fy == 3 {
                y + 1
            } else {
                y
            };
            let col: i64 = if fx == 3 {
                x + 1
            } else {
                x
            };
            self.is_held(x + 3, row) && self.is_held(col, y + 3)
        }
    }

    /// Whether the plane has all that a predicted chroma block reads.
    pub fn holds_chroma(&self, bx: i32, by: i32, mvx: i32, mvy: i32, bw: usize, bh: usize) -> (b: bool)
        requires
            self.ok(),
            1 <= bw <= i32::MAX,
            1 <= bh <= i32::MAX,
        ensures
            b == chroma_held(
                self.data@.len() as int,
                self.w as int,
                self.h as int,
                bx as int,
                by as int,
                mvx as int,
                mvy as int,
                bw as int,
                bh as int,
            ),
    {
        proof {
            lemma_i32_shr(mvx);
            lemma_i32_shr(mvy);
            self.lemma_chroma_held(
                bx as int,
                by as int,
                mvx as int,
                mvy as int,
                bw as int,
                bh as int,
            );
        }
        let x: i64 = bx as i64 + (mvx >> 3) as i64 + bw as i64;
        let y: i64 = by as i64 + (mvy >> 3) as i64 + bh as i64;
        self.is_held(x, y)
    }
}

proof fn lemma_bilinear(fx: int, fy: int, a: int, b: int, c: int, d: int)
    requires
        0 <= fx < 8,
        0 <= fy < 8,
        0 <= a <= 255,
        0 <= b <= 255,
        0 <= c <= 255,
        0 <= d <= 255,
    ensures
        ({
            let (w00, w10, w01, w11) = ((8 - fx) * (8 - fy), fx * (8 - fy), (8 - fx) * fy, fx * fy);
            &&& 0 <= w00 <= 64
            &&& 0 <= w10 <= 64
            &&& 0 <= w01 <= 64
            &&& 0 <= w11 <= 64
            &&& w00 + w10 + w01 + w11 == 64
            &&& 0 <= w00 * a <= 255 * w00
            &&& 0 <= w10 * b <= 255 * w10
            &&& 0 <= w01 * c <= 255 * w01
            &&& 0 <= w11 * d <= 255 * w11
        }),
{
    let (w00, w10, w01, w11) = ((8 - fx) * (8 - fy), fx * (8 - fy), (8 - fx) * fy, fx * fy);
    assert(0 <= w00 <= 64 && 0 <= w10 <= 64 && 0 <= w01 <= 64 && 0 <= w11 <= 64) by (nonlinear_arith)
        requires
            0 <= fx < 8,
            0 <= fy < 8,
            w00 == (8 - fx) * (8 - fy),
            w10 == fx * (8 - fy),
            w01 == (8 - fx) * fy,
            w11 == fx * fy,
    ;
    assert(w00 + w10 + w01 + w11 == 64) by (nonlinear_arith)
        requires
            w00 == (8 - fx) * (8 - fy),
            w10 == fx * (8 - fy),
            w01 == (8 - fx) * fy,
            w11 == fx * fy,
    ;
    lemma_scaled(w00, a);
    lemma_scaled(w10, b);
    lemma_scaled(w01, c);
    lemma_scaled(w11, d);
}

proof fn lemma_scaled(w: int, v: int)
    by (nonlinear_arith)
    requires
        0 <= w,
        0 <= v <= 255,
    ensures
        0 <= w * v <= 255 * w,
{
}

/// Predict a `bw` by `bh` luma block with origin (`bx`, `by`) and a motion
/// vector in quarter samples, row by row.
pub fn mc_luma(
    refp: &Plane,
    bx: i32,
    by: i32,
    mvx: i32,
    mvy: i32,
    bw: usize,
    bh: usize,
) -> (out: Vec<u8>)
    requires
        refp.ok(),
        luma_held(
            refp.data@.len() as int,
            refp.w as int,
            refp.h as int,
            bx as int,
            by as int,
            mvx as int,
            mvy as int,
            bw as int,
            bh as int,
        ),
        bw * bh <= usize::MAX,
        bw <= i32::MAX,
        bh <= i32::MAX,
    ensures
        out@ == luma_pred(
            refp.sampler(),
            bx as int,
            by as int,
            mvx as int,
            mvy as int,
            bw as int,
            bh as int,
        ),
{
    proof {
        lemma_i32_shr(mvx);
        lemma_i32_shr(mvy);
    }
    let fx: i32 = mvx & 3;
    let fy: i32 = mvy & 3;
    let ox: i64 = bx as i64 + (mvx >> 2) as i64;
    let oy: i64 = by as i64 + (mvy >> 2) as i64;
    let ghost want = luma_pred(
        refp.sampler(),
        bx as int,
        by as int,
        mvx as int,
        mvy as int,
        bw as int,
        bh as int,
    );
    let (w, h): (i64, i64) = (refp.w as i64, refp.h as i64);
    assert(0 <= w * h <= 0x7fff_ffff * 0x7fff_ffff) by (nonlinear_arith)
        requires
            0 <= w <= 0x7fff_ffff,
            0 <= h <= 0x7fff_ffff,
    ;
    let whole: bool = (w * h) as u64 <= refp.data.len() as u64;
    // A vector load covers 16 columns whatever the block's width.
    let interior: bool = ox >= 2 && oy >= 2 && ox + 19 <= w && oy + bh as i64 + 3 <= h;
    if whole && interior && bw <= 16 && portable::handles(fx, fy) {
        let mut out: Vec<u8> = zeros(bw, bh);
        proof {
            assert((oy + bh + 3) * w <= refp.w * refp.h) by (nonlinear_arith)
                requires
                    oy + bh + 3 <= h,
                    w == refp.w,
                    h == refp.h,
                    w >= 0,
            ;
        }
        portable::luma_block(
            refp.data,
            refp.w,
            ox as i32,
            oy as i32,
            fx,
            fy,
            bw,
            bh,
            out.as_mut_slice(),
        );
        proof {
            let s = refp.sampler();
            let r = portable::unbordered(refp.data@, refp.w as int);
            assert forall|k: int| 0 <= k < bw * bh implies out@[k] == want[k] by {
                assert(bw > 0) by (nonlinear_arith)
                    requires
                        0 <= k < bw * bh,
                        bw >= 0,
                ;
                crate::mvc::arith::lemma_row_of(bw as int, bh as int, k);
                let (x, y) = (ox + k % (bw as int), oy + k / bw as int);
                portable::lemma_interior(refp.data@, refp.w as int, refp.h as int, x, y, fx as int, fy as int);
            }
            assert(out@ =~= want);
        }
        return out;
    }
    proof {
        if bw > 0 && bh > 0 {
            refp.lemma_luma_held(
                bx as int,
                by as int,
                mvx as int,
                mvy as int,
                bw as int,
                bh as int,
            );
        }
    }
    let mut out: Vec<u8> = Vec::new();
    assert(0 * bw == 0) by (nonlinear_arith);
    for j in 0..bh
        invariant
            refp.ok(),
            bw > 0 && bh > 0 ==> refp.lit(fx as int, fy as int, ox + bw - 1, oy + bh - 1),
            bw * bh <= usize::MAX,
            bw <= i32::MAX,
            bh <= i32::MAX,
            fx == mvx as int % 4,
            fy == mvy as int % 4,
            ox == bx + mvx as int / 4,
            oy == by + mvy as int / 4,
            want == luma_pred(
                refp.sampler(),
                bx as int,
                by as int,
                mvx as int,
                mvy as int,
                bw as int,
                bh as int,
            ),
            out@.len() == j * bw,
            forall|k: int| 0 <= k < out@.len() ==> #[trigger] out@[k] == want[k],
    {
        for i in 0..bw
            invariant
                refp.ok(),
                bw > 0 ==> refp.lit(fx as int, fy as int, ox + bw - 1, oy + bh - 1),
                j < bh,
                bw * bh <= usize::MAX,
                bw <= i32::MAX,
                bh <= i32::MAX,
                fx == mvx as int % 4,
                fy == mvy as int % 4,
                ox == bx + mvx as int / 4,
                oy == by + mvy as int / 4,
                want == luma_pred(
                    refp.sampler(),
                    bx as int,
                    by as int,
                    mvx as int,
                    mvy as int,
                    bw as int,
                    bh as int,
                ),
                out@.len() == j * bw + i,
                forall|k: int| 0 <= k < out@.len() ==> #[trigger] out@[k] == want[k],
        {
            proof {
                lemma_row_major(bw as int, j as int, i as int);
                lemma_row_bounds(bw as int, bh as int, j as int, i as int);
                refp.lemma_lit(
                    fx as int,
                    fy as int,
                    ox + i,
                    oy + j,
                    ox + bw - 1,
                    oy + bh - 1,
                );
            }
            let v: u8 = refp.luma_at(fx, fy, ox + i as i64, oy + j as i64);
            out.push(v);
        }
        assert((j + 1) * bw == j * bw + bw) by (nonlinear_arith);
    }
    proof {
        assert(bh * bw == bw * bh) by (nonlinear_arith);
        assert(out@ =~= want);
    }
    out
}

fn zeros(bw: usize, bh: usize) -> (r: Vec<u8>)
    requires
        bw * bh <= usize::MAX,
    ensures
        r@.len() == bw * bh,
{
    let n: usize = bw * bh;
    vec![0u8; n]
}

/// Predict a `bw` by `bh` chroma block with origin (`bx`, `by`) and a motion
/// vector in eighth samples, row by row.
pub fn mc_chroma(
    refp: &Plane,
    bx: i32,
    by: i32,
    mvx: i32,
    mvy: i32,
    bw: usize,
    bh: usize,
) -> (out: Vec<u8>)
    requires
        refp.ok(),
        chroma_held(
            refp.data@.len() as int,
            refp.w as int,
            refp.h as int,
            bx as int,
            by as int,
            mvx as int,
            mvy as int,
            bw as int,
            bh as int,
        ),
        bw * bh <= usize::MAX,
        bw <= i32::MAX,
        bh <= i32::MAX,
    ensures
        out@ == chroma_pred(
            refp.sampler(),
            bx as int,
            by as int,
            mvx as int,
            mvy as int,
            bw as int,
            bh as int,
        ),
{
    proof {
        lemma_i32_shr(mvx);
        lemma_i32_shr(mvy);
    }
    let fx: i32 = mvx & 7;
    let fy: i32 = mvy & 7;
    let ox: i64 = bx as i64 + (mvx >> 3) as i64;
    let oy: i64 = by as i64 + (mvy >> 3) as i64;
    let ghost want = chroma_pred(
        refp.sampler(),
        bx as int,
        by as int,
        mvx as int,
        mvy as int,
        bw as int,
        bh as int,
    );
    proof {
        if bw > 0 && bh > 0 {
            refp.lemma_chroma_held(
                bx as int,
                by as int,
                mvx as int,
                mvy as int,
                bw as int,
                bh as int,
            );
        }
    }
    let mut out: Vec<u8> = Vec::new();
    assert(0 * bw == 0) by (nonlinear_arith);
    for j in 0..bh
        invariant
            refp.ok(),
            bw > 0 && bh > 0 ==> refp.has(ox + bw, oy + bh),
            bw * bh <= usize::MAX,
            bw <= i32::MAX,
            bh <= i32::MAX,
            fx == mvx as int % 8,
            fy == mvy as int % 8,
            ox == bx + mvx as int / 8,
            oy == by + mvy as int / 8,
            want == chroma_pred(
                refp.sampler(),
                bx as int,
                by as int,
                mvx as int,
                mvy as int,
                bw as int,
                bh as int,
            ),
            out@.len() == j * bw,
            forall|k: int| 0 <= k < out@.len() ==> #[trigger] out@[k] == want[k],
    {
        for i in 0..bw
            invariant
                refp.ok(),
                bw > 0 ==> refp.has(ox + bw, oy + bh),
                j < bh,
                bw * bh <= usize::MAX,
                bw <= i32::MAX,
                bh <= i32::MAX,
                fx == mvx as int % 8,
                fy == mvy as int % 8,
                ox == bx + mvx as int / 8,
                oy == by + mvy as int / 8,
                want == chroma_pred(
                    refp.sampler(),
                    bx as int,
                    by as int,
                    mvx as int,
                    mvy as int,
                    bw as int,
                    bh as int,
                ),
                out@.len() == j * bw + i,
                forall|k: int| 0 <= k < out@.len() ==> #[trigger] out@[k] == want[k],
        {
            proof {
                lemma_row_major(bw as int, j as int, i as int);
                lemma_row_bounds(bw as int, bh as int, j as int, i as int);
                refp.lemma_has(ox + i + 1, oy + j + 1, ox + bw, oy + bh);
            }
            let v: u8 = refp.chroma_at(fx, fy, ox + i as i64, oy + j as i64);
            out.push(v);
        }
        assert((j + 1) * bw == j * bw + bw) by (nonlinear_arith);
    }
    proof {
        assert(bh * bw == bw * bh) by (nonlinear_arith);
        assert(out@ =~= want);
    }
    out
}

/// A plane with a sample for each of its positions has all that any block reads,
/// wherever the block and its vector lie.
pub proof fn law_whole_planes_hold_every_block(
    n: int,
    w: int,
    h: int,
    bx: int,
    by: int,
    mvx: int,
    mvy: int,
    bw: int,
    bh: int,
)
    requires
        w >= 1,
        h >= 1,
        n >= w * h,
    ensures
        luma_held(n, w, h, bx, by, mvx, mvy, bw, bh),
        chroma_held(n, w, h, bx, by, mvx, mvy, bw, bh),
{
    assert forall|x: int, y: int| #[trigger] sample_index(w, h, x, y) < n by {
        lemma_index_grows(w, h, x, y, x, y);
    }
}

/// A vector of whole samples copies the reference.
pub proof fn law_whole_vectors_copy(s: Sampler, bx: int, by: int, mx: int, my: int, bw: int, bh: int, k: int)
    requires
        0 <= k < bw * bh,
        bw > 0,
        0 <= s(bx + mx + k % bw, by + my + k / bw) <= 255,
    ensures
        luma_pred(s, bx, by, 4 * mx, 4 * my, bw, bh)[k] == s(bx + mx + k % bw, by + my + k / bw),
        chroma_pred(s, bx, by, 8 * mx, 8 * my, bw, bh)[k] == s(bx + mx + k % bw, by + my + k / bw),
{
    reveal(luma_sample);
    reveal(chroma_sample);
    let (x, y) = (bx + mx + k % bw, by + my + k / bw);
    assert(chroma_sample(s, 0, 0, x, y) == s(x, y)) by {
        assert((8 - 0) * (8 - 0) * s(x, y) == 64 * s(x, y));
        assert(0 * (8 - 0) * s(x + 1, y) == 0);
        assert((8 - 0) * 0 * s(x, y + 1) == 0);
        assert(0 * 0 * s(x + 1, y + 1) == 0);
    }
}

/// A flat reference is predicted as it is, whatever the vector.
pub proof fn law_flat_reference(s: Sampler, v: int, fx: int, fy: int, x: int, y: int)
    requires
        forall|i: int, j: int| #[trigger] s(i, j) == v,
        0 <= v <= 255,
    ensures
        0 <= fx < 4 && 0 <= fy < 4 ==> luma_sample(s, fx, fy, x, y) == v,
        0 <= fx < 8 && 0 <= fy < 8 ==> chroma_sample(s, fx, fy, x, y) == v,
{
    reveal(luma_sample);
    reveal(chroma_sample);
    if 0 <= fx < 8 && 0 <= fy < 8 {
        lemma_bilinear(fx, fy, v, v, v, v);
        let (w00, w10, w01, w11) = ((8 - fx) * (8 - fy), fx * (8 - fy), (8 - fx) * fy, fx * fy);
        assert(w00 * v + w10 * v + w01 * v + w11 * v == 64 * v) by (nonlinear_arith)
            requires
                w00 + w10 + w01 + w11 == 64,
        ;
    }
}

/// A vector that is longer by whole samples predicts the block that lies as many
/// samples further on.
pub proof fn law_whole_steps_shift(
    s: Sampler,
    bx: int,
    by: int,
    mvx: int,
    mvy: int,
    a: int,
    b: int,
    bw: int,
    bh: int,
)
    ensures
        luma_pred(s, bx, by, mvx + 4 * a, mvy + 4 * b, bw, bh) == luma_pred(
            s,
            bx + a,
            by + b,
            mvx,
            mvy,
            bw,
            bh,
        ),
        chroma_pred(s, bx, by, mvx + 8 * a, mvy + 8 * b, bw, bh) == chroma_pred(
            s,
            bx + a,
            by + b,
            mvx,
            mvy,
            bw,
            bh,
        ),
{
    assert(luma_pred(s, bx, by, mvx + 4 * a, mvy + 4 * b, bw, bh) =~= luma_pred(
        s,
        bx + a,
        by + b,
        mvx,
        mvy,
        bw,
        bh,
    ));
    assert(chroma_pred(s, bx, by, mvx + 8 * a, mvy + 8 * b, bw, bh) =~= chroma_pred(
        s,
        bx + a,
        by + b,
        mvx,
        mvy,
        bw,
        bh,
    ));
}

} // verus!

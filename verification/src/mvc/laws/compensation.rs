//! Motion compensation: the fractional positions by their letters in the H.264
//! figure, and what the filters make of a linear ramp.

use crate::mvc::arith::clip;
use crate::mvc::mc::{
    across, bordered, centre, chroma_pred, chroma_sample, down, luma_pred, luma_sample, Sampler,
};
use vstd::prelude::*;

verus! {

/// The rounded mean of two samples.
pub open spec fn mean(p: int, a: int, b: int) -> bool {
    2 * p <= a + b + 1 < 2 * p + 2
}

/// The sixteen positions of a luma sample (H.264 table 8-12): with `g` the whole
/// sample, `h` and `m` the whole ones right of and below it, `b` and `s` the half
/// samples right of `g` and below that, `v` and `w` those below `g` and right of
/// that, and `j` the one in the middle, the quarter positions are means of the two
/// that lie nearest.
pub proof fn law_quarter_positions(p: Sampler, x: int, y: int)
    ensures
        ({
            let (g, h, m) = (p(x, y), p(x + 1, y), p(x, y + 1));
            let (b, s) = (luma_sample(p, 2, 0, x, y), luma_sample(p, 2, 0, x, y + 1));
            let (v, w) = (luma_sample(p, 0, 2, x, y), luma_sample(p, 0, 2, x + 1, y));
            let j = luma_sample(p, 2, 2, x, y);
            &&& luma_sample(p, 0, 0, x, y) == g
            &&& mean(luma_sample(p, 1, 0, x, y), g, b)
            &&& mean(luma_sample(p, 3, 0, x, y), h, b)
            &&& mean(luma_sample(p, 0, 1, x, y), g, v)
            &&& mean(luma_sample(p, 0, 3, x, y), m, v)
            &&& mean(luma_sample(p, 1, 1, x, y), b, v)
            &&& mean(luma_sample(p, 2, 1, x, y), b, j)
            &&& mean(luma_sample(p, 3, 1, x, y), b, w)
            &&& mean(luma_sample(p, 1, 2, x, y), v, j)
            &&& mean(luma_sample(p, 3, 2, x, y), w, j)
            &&& mean(luma_sample(p, 1, 3, x, y), v, s)
            &&& mean(luma_sample(p, 2, 3, x, y), s, j)
            &&& mean(luma_sample(p, 3, 3, x, y), w, s)
        }),
{
    reveal(luma_sample);
}

/// The half samples: six samples in a row or column, weighted by 1, -5, 20, 20, -5
/// and 1 over 32, rounded and kept to eight bits.
pub proof fn law_half_samples(p: Sampler, x: int, y: int)
    ensures
        ({
            let r = p(x - 2, y) - 5 * p(x - 1, y) + 20 * p(x, y) + 20 * p(x + 1, y) - 5 * p(x + 2, y)
                + p(x + 3, y);
            let c = p(x, y - 2) - 5 * p(x, y - 1) + 20 * p(x, y) + 20 * p(x, y + 1) - 5 * p(x, y + 2)
                + p(x, y + 3);
            let (b, v) = (luma_sample(p, 2, 0, x, y), luma_sample(p, 0, 2, x, y));
            &&& 0 <= b <= 255 && 0 <= v <= 255
            &&& 0 < b < 255 ==> 32 * b <= r + 16 < 32 * b + 32
            &&& 0 < v < 255 ==> 32 * v <= c + 16 < 32 * v + 32
            &&& b == 0 ==> r + 16 < 32
            &&& v == 0 ==> c + 16 < 32
            &&& b == 255 ==> r + 16 >= 255 * 32
            &&& v == 255 ==> c + 16 >= 255 * 32
        }),
{
    reveal(luma_sample);
}

/// A plane that rises by `a` from column to column and by `b` from row to row, with
/// `v` at the given place.
pub open spec fn ramp(p: Sampler, x: int, y: int, v: int, a: int, b: int) -> bool {
    forall|i: int, j: int|
        -2 <= i <= 3 && -2 <= j <= 3 ==> #[trigger] p(x + i, y + j) == v + i * a + j * b
}

proof fn lemma_ramp_points(p: Sampler, x: int, y: int, v: int, a: int, b: int)
    requires
        ramp(p, x, y, v, a, b),
    ensures
        forall|j: int|
            -2 <= j <= 3 ==> #[trigger] across(p, x, y + j) == 32 * (v + j * b) + 16 * a,
        forall|i: int|
            -2 <= i <= 3 ==> #[trigger] down(p, x + i, y) == 32 * (v + i * a) + 16 * b,
        p(x, y) == v,
        p(x + 1, y) == v + a,
        p(x, y + 1) == v + b,
{
    assert forall|j: int| -2 <= j <= 3 implies #[trigger] across(p, x, y + j) == 32 * (v + j * b)
        + 16 * a by {
        assert(p(x + (-2), y + j) == v + (-2) * a + j * b);
        assert(p(x + (-1), y + j) == v + (-1) * a + j * b);
        assert(p(x + 0, y + j) == v + 0 * a + j * b);
        assert(p(x + 1, y + j) == v + 1 * a + j * b);
        assert(p(x + 2, y + j) == v + 2 * a + j * b);
        assert(p(x + 3, y + j) == v + 3 * a + j * b);
    }
    assert forall|i: int| -2 <= i <= 3 implies #[trigger] down(p, x + i, y) == 32 * (v + i * a)
        + 16 * b by {
        assert(p(x + i, y + (-2)) == v + i * a + (-2) * b);
        assert(p(x + i, y + (-1)) == v + i * a + (-1) * b);
        assert(p(x + i, y + 0) == v + i * a + 0 * b);
        assert(p(x + i, y + 1) == v + i * a + 1 * b);
        assert(p(x + i, y + 2) == v + i * a + 2 * b);
        assert(p(x + i, y + 3) == v + i * a + 3 * b);
    }
    assert(p(x + 0, y + 0) == v + 0 * a + 0 * b);
    assert(p(x + 1, y + 0) == v + 1 * a + 0 * b);
    assert(p(x + 0, y + 1) == v + 0 * a + 1 * b);
}

/// On a linear ramp the half samples lie halfway, rounded up, and chroma samples lie
/// at their eighths, rounded.
pub proof fn law_ramp_is_interpolated(
    p: Sampler,
    x: int,
    y: int,
    v: int,
    a: int,
    b: int,
    fx: int,
    fy: int,
)
    requires
        ramp(p, x, y, v, a, b),
        0 <= fx < 8,
        0 <= fy < 8,
    ensures
        luma_sample(p, 2, 0, x, y) == clip(0, 255, v + (a + 1) / 2),
        luma_sample(p, 0, 2, x, y) == clip(0, 255, v + (b + 1) / 2),
        luma_sample(p, 2, 2, x, y) == clip(0, 255, v + (a + b + 1) / 2),
        chroma_sample(p, fx, fy, x, y) == v + (fx * a + fy * b + 4) / 8,
{
    reveal(luma_sample);
    reveal(chroma_sample);
    lemma_ramp_points(p, x, y, v, a, b);
    assert(across(p, x, y + 0) == 32 * (v + 0 * b) + 16 * a);
    assert(down(p, x + 0, y) == 32 * (v + 0 * a) + 16 * b);
    assert(across(p, x, y + (-2)) == 32 * (v + (-2) * b) + 16 * a);
    assert(across(p, x, y + (-1)) == 32 * (v + (-1) * b) + 16 * a);
    assert(across(p, x, y + 1) == 32 * (v + 1 * b) + 16 * a);
    assert(across(p, x, y + 2) == 32 * (v + 2 * b) + 16 * a);
    assert(across(p, x, y + 3) == 32 * (v + 3 * b) + 16 * a);
    assert(p(x + 1, y + 1) == v + 1 * a + 1 * b);
    lemma_bilinear_ramp(fx, fy, v, a, b);
}

proof fn lemma_bilinear_ramp(fx: int, fy: int, v: int, a: int, b: int)
    ensures
        (8 - fx) * (8 - fy) * v + fx * (8 - fy) * (v + a) + (8 - fx) * fy * (v + b) + fx * fy * (v
            + a + b) == 64 * v + 8 * (fx * a + fy * b),
{
    let t = fx * fy;
    let (w00, w10, w01) = ((8 - fx) * (8 - fy), fx * (8 - fy), (8 - fx) * fy);
    assert(w00 == 64 - 8 * fx - 8 * fy + t) by (nonlinear_arith)
        requires
            w00 == (8 - fx) * (8 - fy),
            t == fx * fy,
    ;
    assert(w10 == 8 * fx - t) by (nonlinear_arith)
        requires
            w10 == fx * (8 - fy),
            t == fx * fy,
    ;
    assert(w01 == 8 * fy - t) by (nonlinear_arith)
        requires
            w01 == (8 - fx) * fy,
            t == fx * fy,
    ;
    vstd::arithmetic::mul::lemma_mul_is_distributive_add(w10, v, a);
    vstd::arithmetic::mul::lemma_mul_is_distributive_add(w01, v, b);
    vstd::arithmetic::mul::lemma_mul_is_distributive_add(t, v, a + b);
    vstd::arithmetic::mul::lemma_mul_is_distributive_add(t, a, b);
    vstd::arithmetic::mul::lemma_mul_is_distributive_add_other_way(v, w00, w10);
    vstd::arithmetic::mul::lemma_mul_is_distributive_add_other_way(v, w00 + w10, w01);
    vstd::arithmetic::mul::lemma_mul_is_distributive_add_other_way(v, w00 + w10 + w01, t);
    vstd::arithmetic::mul::lemma_mul_is_distributive_add_other_way(a, w10, t);
    vstd::arithmetic::mul::lemma_mul_is_distributive_add_other_way(b, w01, t);
    assert((8 * fx) * a == 8 * (fx * a)) by (nonlinear_arith);
    assert((8 * fy) * b == 8 * (fy * b)) by (nonlinear_arith);
}

/// The sample in the middle does not depend on whether rows or columns are filtered
/// first.
pub proof fn law_middle_is_symmetric(p: Sampler, q: Sampler, x: int, y: int)
    requires
        forall|i: int, j: int| #[trigger] q(i, j) == p(j, i),
    ensures
        centre(p, x, y) == centre(q, y, x),
        across(p, x, y) == down(q, y, x),
{
    assert forall|i: int, j: int| p(i, j) == #[trigger] q(j, i) by {}
}

/// The weights of a chroma sample: by the area of the opposite corner, over 64.
pub proof fn law_chroma_weights(p: Sampler, fx: int, fy: int, x: int, y: int)
    requires
        0 <= fx < 8,
        0 <= fy < 8,
    ensures
        ({
            let c = chroma_sample(p, fx, fy, x, y);
            let s = (8 - fx) * (8 - fy) * p(x, y) + fx * (8 - fy) * p(x + 1, y) + (8 - fx) * fy * p(
                x,
                y + 1,
            ) + fx * fy * p(x + 1, y + 1);
            64 * c <= s + 32 < 64 * c + 64
        }),
{
    reveal(chroma_sample);
}

/// A predicted block takes each sample from its own place, moved by the vector: by
/// whole samples and a quarter position in luma, by whole samples and an eighth
/// position in chroma.
pub proof fn law_blocks_move(
    p: Sampler,
    bx: int,
    by: int,
    mvx: int,
    mvy: int,
    bw: int,
    bh: int,
    i: int,
    j: int,
)
    requires
        0 <= i < bw,
        0 <= j < bh,
    ensures
        luma_pred(p, bx, by, mvx, mvy, bw, bh)[j * bw + i] == luma_sample(
            p,
            mvx % 4,
            mvy % 4,
            bx + i + mvx / 4,
            by + j + mvy / 4,
        ) as u8,
        chroma_pred(p, bx, by, mvx, mvy, bw, bh)[j * bw + i] == chroma_sample(
            p,
            mvx % 8,
            mvy % 8,
            bx + i + mvx / 8,
            by + j + mvy / 8,
        ) as u8,
        luma_pred(p, bx, by, mvx, mvy, bw, bh).len() == bw * bh,
        chroma_pred(p, bx, by, mvx, mvy, bw, bh).len() == bw * bh,
{
    crate::mvc::arith::lemma_row_major(bw, j, i);
    crate::mvc::arith::lemma_row_bounds(bw, bh, j, i);
}

/// Inside the plane the sampler gives its samples; outside it gives the nearest one
/// on the border.
pub proof fn law_border(d: Seq<u8>, w: int, h: int, x: int, y: int)
    requires
        w > 0,
        h > 0,
    ensures
        ({
            let s = bordered(d, w, h);
            &&& 0 <= x < w && 0 <= y < h ==> s(x, y) == d[y * w + x]
            &&& x < 0 ==> s(x, y) == s(0, y)
            &&& x >= w ==> s(x, y) == s(w - 1, y)
            &&& y < 0 ==> s(x, y) == s(x, 0)
            &&& y >= h ==> s(x, y) == s(x, h - 1)
        }),
{
}

} // verus!

//! Scaling of levels and direct terms, and the order of the transforms' passes.

use crate::mvc::arith::{lemma_i32_shr, lemma_i64_shr};
use crate::mvc::laws::residuals::{law_scales_4x4, law_scales_8x8};
use crate::mvc::transform::{
    chroma_dc, dequant4, dequant8, hadamard, hadamard2, hadamard4, idct4, inverse8, luma_dc, norm4,
    norm8, pass4, pass8, rescale, residual8, Block,
};
use crate::mvc::scaling::raster;
use crate::mvc::transform::{zigzag4, zigzag8};
use vstd::prelude::*;

verus! {

/// Two to the power of a small number.
pub open spec fn twice(n: int) -> int
    decreases n,
{
    if n <= 0 {
        1
    } else {
        2 * twice(n - 1)
    }
}

proof fn lemma_twice()
    ensures
        twice(0) == 1,
        twice(1) == 2,
        twice(2) == 4,
        twice(3) == 8,
        twice(4) == 16,
        twice(5) == 32,
        twice(6) == 64,
        twice(7) == 128,
        twice(8) == 256,
{
    reveal_with_fuel(twice, 10);
}

proof fn lemma_shl(v: i32, k: u32)
    requires
        -0x7f_ffff <= v <= 0x7f_ffff,
        k <= 8,
    ensures
        v.wrapping_shl(k) == v * twice(k as int),
{
    lemma_twice();
    assert(-0x7f_ffff <= v <= 0x7f_ffff ==> v << 0u32 == v && v << 1u32 == 2 * v && v << 2u32 == 4
        * v && v << 3u32 == 8 * v && v << 4u32 == 16 * v && v << 5u32 == 32 * v && v << 6u32 == 64 * v
        && v << 7u32 == 128 * v && v << 8u32 == 256 * v) by (bit_vector);
    assert(k == 0 || k == 1 || k == 2 || k == 3 || k == 4 || k == 5 || k == 6 || k == 7 || k == 8);
}

proof fn lemma_rescale(v: i32, e: int, base: int)
    requires
        -0x7f_0000 <= v <= 0x7f_0000,
        0 <= e <= 8,
        base == 4 || base == 6,
    ensures
        e >= base ==> rescale(v, e, base) == v * twice(e - base),
        e < base ==> rescale(v, e, base) == (v + twice(base - 1 - e)) / twice(base - e),
{
    lemma_twice();
    if e >= base {
        lemma_shl(v, (e - base) as u32);
    } else {
        let k = base - 1 - e;
        assert(k == 0 || k == 1 || k == 2 || k == 3 || k == 4 || k == 5);
        lemma_shl(1, k as u32);
        lemma_i32_shr((v + twice(k)) as i32);
    }
}

proof fn lemma_product(a: int, b: int, n: int)
    requires
        -0x400 <= a <= 0x400,
        0 <= b <= 255,
        10 <= n <= 29,
    ensures
        0 <= b * n <= 7395,
        -0x7f_0000 <= a * (b * n) <= 0x7f_0000,
{
    assert(0 <= b * n <= 255 * 29) by (nonlinear_arith)
        requires
            0 <= b <= 255,
            10 <= n <= 29,
    ;
    let c = b * n;
    assert(-0x400 * 7395 <= a * c <= 0x400 * 7395) by (nonlinear_arith)
        requires
            -0x400 <= a <= 0x400,
            0 <= c <= 7395,
    ;
}

/// Where the quantiser is too small for whole multiples, a scaled level is rounded to
/// the nearest of them.
pub proof fn law_rounded_levels(l: Block, w: Block, qp: int, i: int, j: int)
    requires
        0 <= qp < 24,
        0 <= i < 4,
        0 <= j < 4,
        -0x400 <= l(i, j) <= 0x400,
        0 <= w(i, j) <= 255,
    ensures
        ({
            let v = l(i, j) * (w(i, j) * norm4(qp % 6, i, j));
            let d = dequant4(l, qp, w)(i, j);
            &&& qp < 6 ==> d == (v + 8) / 16
            &&& 6 <= qp < 12 ==> d == (v + 4) / 8
            &&& 12 <= qp < 18 ==> d == (v + 2) / 4
            &&& 18 <= qp ==> d == (v + 1) / 2
        }),
{
    law_scales_4x4(i, j);
    let n = norm4(qp % 6, i, j);
    lemma_product(l(i, j) as int, w(i, j) as int, n as int);
    lemma_twice();
    lemma_rescale((l(i, j) * (w(i, j) * n)) as i32, qp / 6, 4);
}

/// The direct terms of luma: their sum times weight and scale, in units of 64 at the
/// smallest quantisers, doubling with every six steps.
pub proof fn law_luma_direct_terms(c: Block, qp: int, w: i32, i: int, j: int)
    requires
        0 <= qp <= 51,
        -0x400 <= hadamard(c)(i, j) <= 0x400,
        0 <= w <= 255,
    ensures
        ({
            let v = hadamard(c)(i, j) * (w * norm4(qp % 6, 0, 0));
            let d = luma_dc(c, qp, w)(i, j);
            &&& qp < 6 ==> d == (v + 32) / 64
            &&& 6 <= qp < 12 ==> d == (v + 16) / 32
            &&& 12 <= qp < 18 ==> d == (v + 8) / 16
            &&& 18 <= qp < 24 ==> d == (v + 4) / 8
            &&& 24 <= qp < 30 ==> d == (v + 2) / 4
            &&& 30 <= qp < 36 ==> d == (v + 1) / 2
            &&& 36 <= qp < 42 ==> d == v
            &&& 42 <= qp < 48 ==> d == 2 * v
            &&& 48 <= qp ==> d == 4 * v
        }),
{
    law_scales_4x4(0, 0);
    let n = norm4(qp % 6, 0, 0);
    lemma_product(hadamard(c)(i, j) as int, w as int, n as int);
    lemma_twice();
    let v = hadamard(c)(i, j) * (w * n);
    lemma_rescale(v as i32, qp / 6, 6);
    assert(v * twice(0) == v && v * twice(1) == 2 * v && v * twice(2) == 4 * v) by (nonlinear_arith)
        requires
            twice(0) == 1,
            twice(1) == 2,
            twice(2) == 4,
    ;
    let e = qp / 6;
    assert(e == 0 || e == 1 || e == 2 || e == 3 || e == 4 || e == 5 || e == 6 || e == 7 || e == 8);
    assert(e >= 6 ==> luma_dc(c, qp, w)(i, j) == v * twice(e - 6));
    assert(e < 6 ==> luma_dc(c, qp, w)(i, j) == (v + twice(5 - e)) / twice(6 - e));
}

/// The direct terms of chroma: their sum times weight and scale, doubling with every six
/// steps of the quantiser, in units of 32 and rounded down.
pub proof fn law_chroma_direct_terms(c: Seq<i32>, qp: int, w: i32, k: int)
    requires
        0 <= qp <= 51,
        0 <= k < 4,
        -0x400 <= hadamard2(c)[k] <= 0x400,
        0 <= w <= 255,
    ensures
        ({
            let v = hadamard2(c)[k] * (w * norm4(qp % 6, 0, 0));
            let d = chroma_dc(c, qp, w)[k];
            &&& qp < 6 ==> d == v / 32
            &&& 6 <= qp < 12 ==> d == (2 * v) / 32
            &&& 12 <= qp < 18 ==> d == (4 * v) / 32
            &&& 18 <= qp < 24 ==> d == (8 * v) / 32
            &&& 24 <= qp < 30 ==> d == (16 * v) / 32
            &&& 30 <= qp < 36 ==> d == v
            &&& 36 <= qp < 42 ==> d == 2 * v
            &&& 42 <= qp < 48 ==> d == 4 * v
            &&& 48 <= qp ==> d == 8 * v
        }),
{
    law_scales_4x4(0, 0);
    let n = norm4(qp % 6, 0, 0);
    let a = hadamard2(c)[k];
    lemma_product(a as int, w as int, n as int);
    lemma_twice();
    let v = (a * (w * n)) as i32;
    lemma_shl(v, (qp / 6) as u32);
    lemma_i32_shr(v.wrapping_shl((qp / 6) as u32));
}

/// Levels of 8x8 blocks: the level times weight and scale, doubling with every six steps
/// of the quantiser, in units of 64 and rounded to the nearest.
pub proof fn law_scaled_levels_8x8(l: Block, w: Block, qp: int, i: int, j: int)
    requires
        0 <= qp <= 51,
        0 <= i < 8,
        0 <= j < 8,
        -0x400 <= l(i, j) <= 0x400,
        0 <= w(i, j) <= 255,
    ensures
        ({
            let v = l(i, j) * (norm8(qp % 6, i, j) * w(i, j));
            dequant8(l, qp, w)(i, j) == (v * twice(qp / 6) + 32) / 64
        }),
{
    law_scales_8x8(i, j);
    let n = norm8(qp % 6, i, j);
    let (a, b) = (l(i, j), w(i, j));
    assert(18 <= n <= 58);
    assert(0 <= n * b <= 58 * 255) by (nonlinear_arith)
        requires
            0 <= b <= 255,
            18 <= n <= 58,
    ;
    let c = n * b;
    assert(-0x400 * 14790 <= a * c <= 0x400 * 14790) by (nonlinear_arith)
        requires
            -0x400 <= a <= 0x400,
            0 <= c <= 14790,
    ;
    let v = (a * c) as i64;
    let e = qp / 6;
    lemma_twice();
    assert(-0x100_0000 <= v <= 0x100_0000 ==> v << 0u32 == v && v << 1u32 == 2 * v && v << 2u32 == 4
        * v && v << 3u32 == 8 * v && v << 4u32 == 16 * v && v << 5u32 == 32 * v && v << 6u32 == 64 * v
        && v << 7u32 == 128 * v && v << 8u32 == 256 * v) by (bit_vector);
    assert(e == 0 || e == 1 || e == 2 || e == 3 || e == 4 || e == 5 || e == 6 || e == 7 || e == 8);
    assert(v.wrapping_shl(e as u32) == v * twice(e));
    lemma_i64_shr((v * twice(e) + 32) as i64);
}

/// The 4x4 transform goes over the rows first and then over the columns, and its
/// samples are in units of 64, rounded to the nearest.
pub proof fn law_rows_before_columns_4x4(d: Block, i: int, j: int)
    requires
        0 <= i < 4,
        0 <= j < 4,
    ensures
        ({
            let r0 = pass4(seq![d(0, 0), d(0, 1), d(0, 2), d(0, 3)]);
            let r1 = pass4(seq![d(1, 0), d(1, 1), d(1, 2), d(1, 3)]);
            let r2 = pass4(seq![d(2, 0), d(2, 1), d(2, 2), d(2, 3)]);
            let r3 = pass4(seq![d(3, 0), d(3, 1), d(3, 2), d(3, 3)]);
            let v = pass4(seq![r0[j], r1[j], r2[j], r3[j]])[i];
            idct4(d)(i, j) == v.wrapping_add(32) as int / 64
        }),
        ({
            let r0 = hadamard4(seq![d(0, 0), d(0, 1), d(0, 2), d(0, 3)]);
            let r1 = hadamard4(seq![d(1, 0), d(1, 1), d(1, 2), d(1, 3)]);
            let r2 = hadamard4(seq![d(2, 0), d(2, 1), d(2, 2), d(2, 3)]);
            let r3 = hadamard4(seq![d(3, 0), d(3, 1), d(3, 2), d(3, 3)]);
            hadamard(d)(i, j) == hadamard4(seq![r0[j], r1[j], r2[j], r3[j]])[i]
        }),
{
    let r0 = pass4(seq![d(0, 0), d(0, 1), d(0, 2), d(0, 3)]);
    let r1 = pass4(seq![d(1, 0), d(1, 1), d(1, 2), d(1, 3)]);
    let r2 = pass4(seq![d(2, 0), d(2, 1), d(2, 2), d(2, 3)]);
    let r3 = pass4(seq![d(3, 0), d(3, 1), d(3, 2), d(3, 3)]);
    lemma_i32_shr(pass4(seq![r0[j], r1[j], r2[j], r3[j]])[i].wrapping_add(32));
}

/// One row of a block of eight.
pub open spec fn eight(d: Block, i: int) -> Seq<i32> {
    Seq::new(8, |j: int| d(i, j))
}

/// The 8x8 transform goes over the rows first and then over the columns, and its
/// samples are in units of 64, rounded to the nearest.
pub proof fn law_rows_before_columns_8x8(d: Block, l: Block, w: Block, qp: int, i: int, j: int)
    requires
        0 <= i < 8,
        0 <= j < 8,
    ensures
        inverse8(d)(i, j) == pass8(Seq::new(8, |a: int| pass8(eight(d, a))[j]))[i],
        residual8(l, qp, w)(i, j) == inverse8(dequant8(l, qp, w))(i, j).wrapping_add(32) as int / 64,
{
    let s = Seq::new(8, |a: int| pass8(eight(d, a))[j]);
    assert forall|a: int| 0 <= a < 8 implies crate::mvc::transform::row8(d, a) =~= #[trigger] eight(d, a) by {}
    let c = crate::mvc::transform::col8(crate::mvc::transform::rows8(d), j);
    assert(c =~= s) by {
        assert(eight(d, 0) == eight(d, 0) && eight(d, 1) == eight(d, 1) && eight(d, 2) == eight(d, 2)
            && eight(d, 3) == eight(d, 3) && eight(d, 4) == eight(d, 4) && eight(d, 5) == eight(d, 5)
            && eight(d, 6) == eight(d, 6) && eight(d, 7) == eight(d, 7));
    }
    lemma_i32_shr(inverse8(dequant8(l, qp, w))(i, j).wrapping_add(32));
}

/// The weights of a list stand in the scan's order, and those of a matrix row by row.
pub proof fn law_matrix_places(i: int, scan: Seq<i32>, r: int, c: int)
    requires
        0 <= r < 8,
        0 <= c < 8,
    ensures
        i < 6 && r < 4 && c < 4 ==> raster(i, scan).len() == 16 && raster(i, scan)[4 * r + c]
            == scan[zigzag4(r, c)],
        i >= 6 ==> raster(i, scan).len() == 64 && raster(i, scan)[8 * r + c] == scan[zigzag8(r, c)],
{
    assert((8 * r + c) / 8 == r && (8 * r + c) % 8 == c);
    if r < 4 && c < 4 {
        assert((4 * r + c) / 4 == r && (4 * r + c) % 4 == c);
    }
}

} // verus!

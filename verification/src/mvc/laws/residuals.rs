//! Residuals: the flags of coded blocks, the places of blocks, quantisers, scans,
//! and the passes of the transforms.

use crate::mvc::mb_residual::{
    ac_bit, ac_inc, ac_levels, ac_samples, chroma_plane, chroma_qp_of, chroma_residual, flag_bit,
    level_runs, luma_4x4, luma_8x8, luma_bit, luma_i16, luma_inc, luma_residual, mb_residual,
    region_coded, samples4, samples8, CbfNeighbours, ResParams, ResState,
};
use crate::mvc::residual_ctx::ResidualCat;
use crate::mvc::transform::{
    chroma_dc, dequant4, diagonal8, hadamard2, hadamard4, luma_dc, norm4, norm8, odd8, pass4, pass8,
    unscan4, unscan8, zigzag8, Block,
};
use vstd::prelude::*;

verus! {

// ---- quantisers ----

/// The chroma quantiser of a luma quantiser (H.264 table 8-15): the same up to 29,
/// then ever slower, up to 39. The sum with the offset is kept within the range
/// first.
pub proof fn law_chroma_quantiser(qp: int, offset: int)
    ensures
        ({
            let q = qp + offset;
            let c = chroma_qp_of(qp, offset);
            &&& q < 0 ==> c == 0
            &&& 0 <= q <= 29 ==> c == q
            &&& q == 30 ==> c == 29
            &&& q == 31 ==> c == 30
            &&& q == 32 ==> c == 31
            &&& q == 33 ==> c == 32
            &&& q == 34 ==> c == 32
            &&& q == 35 ==> c == 33
            &&& q == 36 ==> c == 34
            &&& q == 37 ==> c == 34
            &&& q == 38 ==> c == 35
            &&& q == 39 ==> c == 35
            &&& q == 40 ==> c == 36
            &&& q == 41 ==> c == 36
            &&& q == 42 ==> c == 37
            &&& q == 43 ==> c == 37
            &&& q == 44 ==> c == 37
            &&& q == 45 ==> c == 38
            &&& q == 46 ==> c == 38
            &&& q == 47 ==> c == 38
            &&& q >= 48 ==> c == 39
        }),
{
}

/// The scale of a coefficient by quantiser modulo 6 and place in a 4x4 block: one for
/// even rows and columns, one for odd ones, one for the rest.
pub proof fn law_scales_4x4(i: int, j: int)
    requires
        0 <= i < 4,
        0 <= j < 4,
    ensures
        i % 2 == 0 && j % 2 == 0 ==> norm4(0, i, j) == 10 && norm4(1, i, j) == 11 && norm4(2, i, j)
            == 13 && norm4(3, i, j) == 14 && norm4(4, i, j) == 16 && norm4(5, i, j) == 18,
        i % 2 == 1 && j % 2 == 1 ==> norm4(0, i, j) == 16 && norm4(1, i, j) == 18 && norm4(2, i, j)
            == 20 && norm4(3, i, j) == 23 && norm4(4, i, j) == 25 && norm4(5, i, j) == 29,
        i % 2 != j % 2 ==> norm4(0, i, j) == 13 && norm4(1, i, j) == 14 && norm4(2, i, j) == 16
            && norm4(3, i, j) == 18 && norm4(4, i, j) == 20 && norm4(5, i, j) == 23,
        forall|m: int| 0 <= m < 6 ==> #[trigger] norm4(m, i, j) == norm4(m, j, i),
{
}

/// The scale of a coefficient in an 8x8 block, by six classes of places.
pub proof fn law_scales_8x8(i: int, j: int)
    requires
        0 <= i < 8,
        0 <= j < 8,
    ensures
        (i == 0 || i == 4) && (j == 0 || j == 4) ==> norm8(0, i, j) == 20 && norm8(1, i, j) == 22
            && norm8(2, i, j) == 26 && norm8(3, i, j) == 28 && norm8(4, i, j) == 32 && norm8(5, i, j)
            == 36,
        i % 2 == 1 && j % 2 == 1 ==> norm8(0, i, j) == 18 && norm8(1, i, j) == 19 && norm8(2, i, j)
            == 23 && norm8(3, i, j) == 25 && norm8(4, i, j) == 28 && norm8(5, i, j) == 32,
        (i == 2 || i == 6) && (j == 2 || j == 6) ==> norm8(0, i, j) == 32 && norm8(1, i, j) == 35
            && norm8(2, i, j) == 42 && norm8(3, i, j) == 45 && norm8(4, i, j) == 51 && norm8(5, i, j)
            == 58,
        (i == 0 || i == 4) && j % 2 == 1 ==> norm8(0, i, j) == 19 && norm8(1, i, j) == 21 && norm8(
            2,
            i,
            j,
        ) == 24 && norm8(3, i, j) == 26 && norm8(4, i, j) == 30 && norm8(5, i, j) == 34,
        (i == 0 || i == 4) && (j == 2 || j == 6) ==> norm8(0, i, j) == 25 && norm8(1, i, j) == 28
            && norm8(2, i, j) == 33 && norm8(3, i, j) == 35 && norm8(4, i, j) == 40 && norm8(5, i, j)
            == 46,
        (i == 2 || i == 6) && j % 2 == 1 ==> norm8(0, i, j) == 24 && norm8(1, i, j) == 26 && norm8(
            2,
            i,
            j,
        ) == 31 && norm8(3, i, j) == 33 && norm8(4, i, j) == 38 && norm8(5, i, j) == 43,
        forall|m: int| 0 <= m < 6 ==> #[trigger] norm8(m, i, j) == norm8(m, j, i),
{
}

/// A coefficient is its level times weight and scale, and doubles with every six
/// steps of the quantiser; the unit of a weight is 16.
pub proof fn law_scaled_levels(l: Block, w: Block, qp: int, i: int, j: int)
    requires
        24 <= qp <= 51,
        0 <= i < 4,
        0 <= j < 4,
        -0x400 <= l(i, j) <= 0x400,
        0 <= w(i, j) <= 255,
    ensures
        ({
            let v = l(i, j) * (w(i, j) * norm4(qp % 6, i, j));
            let d = dequant4(l, qp, w)(i, j);
            &&& 24 <= qp < 30 ==> d == v
            &&& 30 <= qp < 36 ==> d == 2 * v
            &&& 36 <= qp < 42 ==> d == 4 * v
            &&& 42 <= qp < 48 ==> d == 8 * v
            &&& 48 <= qp ==> d == 16 * v
        }),
{
    law_scales_4x4(i, j);
    let n = norm4(qp % 6, i, j);
    assert(10 <= n <= 29);
    let (a, b) = (l(i, j), w(i, j));
    assert(0 <= b * n <= 255 * 29) by (nonlinear_arith)
        requires
            0 <= b <= 255,
            10 <= n <= 29,
    ;
    let c = b * n;
    assert(-0x400 * 7395 <= a * c <= 0x400 * 7395) by (nonlinear_arith)
        requires
            -0x400 <= a <= 0x400,
            0 <= c <= 7395,
    ;
    lemma_shl((a * c) as i32);
    let e = qp / 6;
    assert(4 <= e <= 8);
}

proof fn lemma_shl(v: i32)
    requires
        -0x80_0000 <= v <= 0x80_0000,
    ensures
        v.wrapping_shl(0) == v,
        v.wrapping_shl(1) == 2 * v,
        v.wrapping_shl(2) == 4 * v,
        v.wrapping_shl(3) == 8 * v,
        v.wrapping_shl(4) == 16 * v,
{
    assert(-0x80_0000 <= v <= 0x80_0000 ==> v << 0u32 == v && v << 1u32 == 2 * v && v << 2u32 == 4
        * v && v << 3u32 == 8 * v && v << 4u32 == 16 * v) by (bit_vector);
}

// ---- scans ----

/// The zig-zag scan of a 4x4 block, place by place.
pub proof fn law_zigzag_4x4(s: Seq<i32>)
    ensures
        ({
            let b = unscan4(s);
            &&& b(0, 0) == s[0] && b(0, 1) == s[1] && b(1, 0) == s[2] && b(2, 0) == s[3]
            &&& b(1, 1) == s[4] && b(0, 2) == s[5] && b(0, 3) == s[6] && b(1, 2) == s[7]
            &&& b(2, 1) == s[8] && b(3, 0) == s[9] && b(3, 1) == s[10] && b(2, 2) == s[11]
            &&& b(1, 3) == s[12] && b(2, 3) == s[13] && b(3, 2) == s[14] && b(3, 3) == s[15]
        }),
{
}

/// The zig-zag scan of an 8x8 block: it starts in the corner, goes right, and then
/// down left and up right in turn along the diagonals, turning at the borders.
pub proof fn law_zigzag_8x8(i: int, j: int)
    requires
        0 <= i < 8,
        0 <= j < 8,
    ensures
        zigzag8(0, 0) == 0,
        zigzag8(0, 1) == 1,
        zigzag8(7, 7) == 63,
        (i + j) % 2 == 1 && i < 7 && j > 0 ==> zigzag8(i + 1, j - 1) == zigzag8(i, j) + 1,
        (i + j) % 2 == 0 && i > 0 && j < 7 ==> zigzag8(i - 1, j + 1) == zigzag8(i, j) + 1,
        (i + j) % 2 == 1 && j == 0 && i < 7 ==> zigzag8(i + 1, 0) == zigzag8(i, j) + 1,
        (i + j) % 2 == 1 && i == 7 ==> zigzag8(7, j + 1) == zigzag8(i, j) + 1,
        (i + j) % 2 == 0 && i == 0 && j < 7 ==> zigzag8(0, j + 1) == zigzag8(i, j) + 1,
        (i + j) % 2 == 0 && j == 7 && i < 7 ==> zigzag8(i + 1, 7) == zigzag8(i, j) + 1,
        forall|s: Seq<i32>| #[trigger] unscan8(s)(i, j) == s[zigzag8(i, j)],
{
    let d = i + j;
    assert(diagonal8(0) == 0 && diagonal8(1) == 1 && diagonal8(14) == 63);
    if d < 14 {
        lemma_diagonal(d);
    }
}

proof fn lemma_diagonal(d: int)
    requires
        0 <= d < 14,
    ensures
        diagonal8(d + 1) == diagonal8(d) + (if d < 8 {
            d + 1
        } else {
            15 - d
        }),
{
    assert(diagonal8(0) == 0 && diagonal8(1) == 1 && diagonal8(2) == 3 && diagonal8(3) == 6
        && diagonal8(4) == 10 && diagonal8(5) == 15 && diagonal8(6) == 21 && diagonal8(7) == 28
        && diagonal8(8) == 36 && diagonal8(9) == 43 && diagonal8(10) == 49 && diagonal8(11) == 54
        && diagonal8(12) == 58 && diagonal8(13) == 61 && diagonal8(14) == 63);
    assert(d == 0 || d == 1 || d == 2 || d == 3 || d == 4 || d == 5 || d == 6 || d == 7 || d == 8 || d
        == 9 || d == 10 || d == 11 || d == 12 || d == 13);
}

// ---- transforms ----

/// The value is small enough that a pass does not overflow.
pub open spec fn calm(v: i32) -> bool {
    -0x800_0000 <= v <= 0x7ff_ffff
}

/// One pass of the 4x4 transform: the first and third input add up with the same
/// signs in pairs, the second and fourth with one of them halved.
pub proof fn law_pass_4(p: Seq<i32>)
    requires
        p.len() == 4,
        calm(p[0]) && calm(p[1]) && calm(p[2]) && calm(p[3]),
    ensures
        ({
            let r = pass4(p);
            &&& r.len() == 4
            &&& r[0] == p[0] + p[1] + p[2] + p[3] as int / 2
            &&& r[1] == p[0] + p[1] as int / 2 - p[2] - p[3]
            &&& r[2] == p[0] - p[1] as int / 2 - p[2] + p[3]
            &&& r[3] == p[0] - p[1] + p[2] - p[3] as int / 2
        }),
{
    reveal(pass4);
    crate::mvc::arith::lemma_i32_shr(p[1]);
    crate::mvc::arith::lemma_i32_shr(p[3]);
}

/// One pass of the transform of 4x4 direct terms: sums with the signs of the four
/// patterns.
pub proof fn law_hadamard_4(p: Seq<i32>)
    requires
        p.len() == 4,
        calm(p[0]) && calm(p[1]) && calm(p[2]) && calm(p[3]),
    ensures
        ({
            let r = hadamard4(p);
            &&& r.len() == 4
            &&& r[0] == p[0] + p[1] + p[2] + p[3]
            &&& r[1] == p[0] + p[1] - p[2] - p[3]
            &&& r[2] == p[0] - p[1] - p[2] + p[3]
            &&& r[3] == p[0] - p[1] + p[2] - p[3]
        }),
{
    reveal(hadamard4);
}

/// The transform of the four direct terms of a chroma plane.
pub proof fn law_hadamard_2(c: Seq<i32>)
    requires
        c.len() == 4,
        calm(c[0]) && calm(c[1]) && calm(c[2]) && calm(c[3]),
    ensures
        ({
            let r = hadamard2(c);
            &&& r.len() == 4
            &&& r[0] == c[0] + c[1] + c[2] + c[3]
            &&& r[1] == c[0] - c[1] + c[2] - c[3]
            &&& r[2] == c[0] + c[1] - c[2] - c[3]
            &&& r[3] == c[0] - c[1] - c[2] + c[3]
        }),
{
}

/// One pass of the 8x8 transform on the even inputs alone: that of the first, third,
/// fifth and seventh, mirrored.
pub proof fn law_pass_8_even(p: Seq<i32>)
    requires
        p.len() == 8,
        calm(p[0]) && calm(p[2]) && calm(p[4]) && calm(p[6]),
        p[1] == 0 && p[3] == 0 && p[5] == 0 && p[7] == 0,
    ensures
        ({
            let r = pass8(p);
            &&& r.len() == 8
            &&& r[0] == p[0] + p[4] + p[2] + p[6] as int / 2
            &&& r[1] == p[0] - p[4] - p[6] + p[2] as int / 2
            &&& r[2] == p[0] - p[4] + p[6] - p[2] as int / 2
            &&& r[3] == p[0] + p[4] - p[2] - p[6] as int / 2
            &&& r[7] == r[0] && r[6] == r[1] && r[5] == r[2] && r[4] == r[3]
        }),
{
    reveal(pass8);
    crate::mvc::arith::lemma_i32_shr(p[2]);
    crate::mvc::arith::lemma_i32_shr(p[6]);
    assert(0i32 >> 1 == 0 && 0i32 >> 2 == 0) by (bit_vector);
}

/// One pass of the 8x8 transform on the odd inputs alone is odd: the second half
/// mirrors the first with the sign turned. A second input of eight gives 12, 10, 6
/// and 3.
pub proof fn law_pass_8_odd(p: Seq<i32>)
    requires
        p.len() == 8,
        p[0] == 0 && p[2] == 0 && p[4] == 0 && p[6] == 0,
        calm(p[1]) && calm(p[3]) && calm(p[5]) && calm(p[7]),
    ensures
        ({
            let r = pass8(p);
            let (a, b, c, d) = (p[1] as int, p[3] as int, p[5] as int, p[7] as int);
            let c0 = -b + c - d - d / 2;
            let c1 = a + d - b - b / 2;
            let c2 = -a + d + c + c / 2;
            let c3 = b + c + a + a / 2;
            &&& r[0] == c3 - c0 / 4
            &&& r[1] == -(c2 - c1 / 4)
            &&& r[2] == c1 + c2 / 4
            &&& r[3] == c0 + c3 / 4
            &&& r[7] == -r[0] && r[6] == -r[1] && r[5] == -r[2] && r[4] == -r[3]
        }),
{
    lemma_odd(p);
    let c = odd8(p);
    lemma_quarters(c[0], c[1], c[2], c[3]);
    lemma_odd_only(p);
}

/// No overflow in the odd half of a pass.
pub open spec fn mild(v: i32) -> bool {
    -0x2400_0000 <= v <= 0x2400_0000
}

proof fn lemma_odd(p: Seq<i32>)
    requires
        p.len() == 8,
        calm(p[1]) && calm(p[3]) && calm(p[5]) && calm(p[7]),
    ensures
        ({
            let (a, b, c, d) = (p[1] as int, p[3] as int, p[5] as int, p[7] as int);
            let r = odd8(p);
            &&& r.len() == 4
            &&& r[0] == -b + c - d - d / 2
            &&& r[1] == a + d - b - b / 2
            &&& r[2] == -a + d + c + c / 2
            &&& r[3] == b + c + a + a / 2
            &&& mild(r[0]) && mild(r[1]) && mild(r[2]) && mild(r[3])
        }),
{
    crate::mvc::arith::lemma_i32_shr(p[1]);
    crate::mvc::arith::lemma_i32_shr(p[3]);
    crate::mvc::arith::lemma_i32_shr(p[5]);
    crate::mvc::arith::lemma_i32_shr(p[7]);
}

spec fn low(x: i32, y: i32) -> i32 {
    x.wrapping_add(y >> 2)
}

spec fn high(x: i32, y: i32) -> i32 {
    x.wrapping_sub(y >> 2)
}

proof fn lemma_quarters(c0: i32, c1: i32, c2: i32, c3: i32)
    requires
        mild(c0) && mild(c1) && mild(c2) && mild(c3),
    ensures
        low(c0, c3) == c0 + c3 as int / 4,
        low(c1, c2) == c1 + c2 as int / 4,
        high(c2, c1) == c2 - c1 as int / 4,
        high(c3, c0) == c3 - c0 as int / 4,
        -0x4000_0000 <= low(c0, c3) <= 0x4000_0000,
        -0x4000_0000 <= low(c1, c2) <= 0x4000_0000,
        -0x4000_0000 <= high(c2, c1) <= 0x4000_0000,
        -0x4000_0000 <= high(c3, c0) <= 0x4000_0000,
{
    crate::mvc::arith::lemma_i32_shr(c0);
    crate::mvc::arith::lemma_i32_shr(c1);
    crate::mvc::arith::lemma_i32_shr(c2);
    crate::mvc::arith::lemma_i32_shr(c3);
}

proof fn lemma_odd_only(p: Seq<i32>)
    requires
        p.len() == 8,
        p[0] == 0 && p[2] == 0 && p[4] == 0 && p[6] == 0,
        ({
            let c = odd8(p);
            &&& -0x4000_0000 <= low(c[0], c[3]) <= 0x4000_0000
            &&& -0x4000_0000 <= low(c[1], c[2]) <= 0x4000_0000
            &&& -0x4000_0000 <= high(c[2], c[1]) <= 0x4000_0000
            &&& -0x4000_0000 <= high(c[3], c[0]) <= 0x4000_0000
        }),
    ensures
        ({
            let c = odd8(p);
            let r = pass8(p);
            &&& r[0] == high(c[3], c[0]) && r[7] == -r[0]
            &&& r[1] == -high(c[2], c[1]) && r[6] == -r[1]
            &&& r[2] == low(c[1], c[2]) && r[5] == -r[2]
            &&& r[3] == low(c[0], c[3]) && r[4] == -r[3]
        }),
{
    reveal(pass8);
    assert(0i32 >> 1 == 0) by (bit_vector);
    lemma_zero_terms();
}

proof fn lemma_zero_terms()
    ensures
        0i32.wrapping_add(0) == 0,
        0i32.wrapping_sub(0) == 0,
{
}

// ---- places ----

/// Where the flags of coded blocks are kept: one for the direct terms of luma, 16 for
/// the luma blocks row by row, two for the direct terms of chroma, and rows of four
/// for the other blocks of each chroma plane. No two share a bit.
pub proof fn law_flag_places(bx: int, by: int, ci: int, cj: int)
    requires
        0 <= bx < 4,
        0 <= by < 4,
        0 <= ci < 2,
        0 <= cj < 2,
    ensures
        luma_bit(bx, by) == 1 + bx + 4 * by,
        1 <= luma_bit(bx, by) <= 16,
        forall|k: int| 0 <= k < 4 ==> #[trigger] ac_bit(k, ci, cj) == 19 + ci + 4 * cj,
        forall|k: int| 4 <= k < 8 ==> #[trigger] ac_bit(k, ci, cj) == 35 + ci + 4 * cj,
{
}

/// The context of a luma block's flag: the flag of the block to its left, and twice
/// that of the block above, inside the macroblock or in its neighbours; one that is
/// not there counts as set in an intra macroblock.
pub proof fn law_luma_flag_context(cur: u64, n: CbfNeighbours, bx: int, by: int, dflt: u32)
    requires
        0 <= bx < 4,
        0 <= by < 4,
    ensures
        ({
            let left = if bx > 0 {
                flag_bit(cur, (bx + 4 * by) as u32) as int
            } else if n.left is Some {
                flag_bit((n.left->0).0, (4 + 4 * by) as u32) as int
            } else {
                dflt as int
            };
            let up = if by > 0 {
                flag_bit(cur, (bx + 4 * by - 3) as u32) as int
            } else if n.up is Some {
                flag_bit((n.up->0).0, (13 + bx) as u32) as int
            } else {
                dflt as int
            };
            luma_inc(cur, n, bx, by, dflt) == left + 2 * up
        }),
{
}

/// The same for the chroma blocks of each plane, two by two.
pub proof fn law_chroma_flag_context(cur: u64, n: CbfNeighbours, k: int, dflt: u32)
    requires
        0 <= k < 8,
    ensures
        ({
            let base = if k < 4 {
                19int
            } else {
                35
            };
            let (x, y) = (
                if k % 2 == 1 {
                    1int
                } else {
                    0
                },
                if k == 2 || k == 3 || k == 6 || k == 7 {
                    1int
                } else {
                    0
                },
            );
            let left = if x == 1 {
                flag_bit(cur, (base + 4 * y) as u32) as int
            } else if n.left is Some {
                flag_bit((n.left->0).0, (base + 4 * y + 1) as u32) as int
            } else {
                dflt as int
            };
            let up = if y == 1 {
                flag_bit(cur, (base + x) as u32) as int
            } else if n.up is Some {
                flag_bit((n.up->0).0, (base + 4 + x) as u32) as int
            } else {
                dflt as int
            };
            ac_inc(cur, n, k, dflt) == left + 2 * up
        }),
{
}

/// The luma bits of the pattern: one for each quarter, in order.
pub proof fn law_coded_quarters(a: bool, b: bool, c: bool, d: bool)
    ensures
        ({
            let v = ((if a {
                1int
            } else {
                0
            }) + (if b {
                2int
            } else {
                0
            }) + (if c {
                4int
            } else {
                0
            }) + (if d {
                8int
            } else {
                0
            })) as u8;
            &&& region_coded(v, 0) == a
            &&& region_coded(v, 1) == b
            &&& region_coded(v, 2) == c
            &&& region_coded(v, 3) == d
        }),
{
}

/// The residual of a sample comes from the block that covers it: 4x4 and 8x8 luma
/// blocks row by row, the blocks of a whole macroblock with their direct terms, and
/// the four blocks of each chroma plane.
pub proof fn law_residual_places(
    b: Seq<Option<Seq<i32>>>,
    dc: Option<Seq<i32>>,
    first: int,
    qp: int,
    w: Block,
    bx: int,
    by: int,
    x: int,
    y: int,
)
    requires
        0 <= x < 4,
        0 <= y < 4,
        0 <= bx < 4,
        0 <= by < 4,
    ensures
        luma_4x4(b, qp, w)(4 * by + y, 4 * bx + x) == samples4(b[4 * by + bx], qp, w)(y, x),
        luma_i16(dc, b, qp, w)(4 * by + y, 4 * bx + x) == ac_samples(
            b[4 * by + bx],
            luma_dc(
                unscan4(crate::mvc::mb_residual::or_zeros(dc, 16)),
                qp,
                w(0, 0),
            )(by, bx),
            qp,
            w,
        )(y, x),
        bx < 2 && by < 2 ==> luma_8x8(b, qp, w)(8 * by + y, 8 * bx + x) == samples8(
            b[2 * by + bx],
            qp,
            w,
        )(y, x) && luma_8x8(b, qp, w)(8 * by + 4 + y, 8 * bx + 4 + x) == samples8(
            b[2 * by + bx],
            qp,
            w,
        )(4 + y, 4 + x),
        bx < 2 && by < 2 ==> chroma_plane(dc, b, first, qp, w)(4 * by + y, 4 * bx + x) == ac_samples(
            b[first + 2 * by + bx],
            chroma_dc(crate::mvc::mb_residual::or_zeros(dc, 4), qp, w(0, 0))[2 * by + bx],
            qp,
            w,
        )(y, x),
{
    assert((4 * by + y) / 4 == by && (4 * by + y) % 4 == y);
    assert((4 * bx + x) / 4 == bx && (4 * bx + x) % 4 == x);
    assert((8 * by + y) / 8 == by && (8 * by + y) % 8 == y);
    assert((8 * bx + x) / 8 == bx && (8 * bx + x) % 8 == x);
    assert((8 * by + 4 + y) / 8 == by && (8 * by + 4 + y) % 8 == 4 + y);
    assert((8 * bx + 4 + x) / 8 == bx && (8 * bx + 4 + x) % 8 == 4 + x);
}

/// A block without its direct term has 15 levels behind a zero.
pub proof fn law_other_levels(c: Seq<i32>, i: int)
    requires
        c.len() == 15,
        0 <= i < 15,
    ensures
        ac_levels(Some(c))[0] == 0,
        ac_levels(Some(c))[i + 1] == c[i],
        ac_levels(None)[i + 1] == 0,
{
}

/// The sizes of the categories of blocks, and the last context of their levels.
pub proof fn law_category_sizes()
    ensures
        ResidualCat::Luma16Dc.size() == 16,
        ResidualCat::Luma16Ac.size() == 15,
        ResidualCat::Luma4x4.size() == 16,
        ResidualCat::Luma8x8.size() == 64,
        ResidualCat::ChromaDc.size() == 4,
        ResidualCat::ChromaAc.size() == 15,
        ResidualCat::ChromaDc.cap() == 3,
        ResidualCat::Luma16Dc.cap() == 4 && ResidualCat::Luma16Ac.cap() == 4
            && ResidualCat::Luma4x4.cap() == 4 && ResidualCat::Luma8x8.cap() == 4
            && ResidualCat::ChromaAc.cap() == 4,
{
}

/// Chroma has no residual where the pattern says so.
pub proof fn law_chroma_by_pattern(s: ResState, p: ResParams, i: int, j: int)
    ensures
        p.info.cbp < 16 ==> chroma_residual(s, p).0 == s && (chroma_residual(s, p).1)(i, j) == 0 && (
        chroma_residual(s, p).2)(i, j) == 0,
{
    reveal(chroma_residual);
}

/// A macroblock's residual is read luma first, then chroma.
pub proof fn law_luma_before_chroma(s: ResState, p: ResParams)
    ensures
        ({
            let (s1, l) = luma_residual(s, p);
            let (s2, cb, cr) = chroma_residual(s1, p);
            let (s3, r) = mb_residual(s, p);
            s3 == s2 && r.luma == l && r.cb == cb && r.cr == cr
        }),
{
    reveal(mb_residual);
}

/// Levels and runs of a block: each level that is not zero with the number of zeros
/// before it, and a pair of zeros behind them.
pub proof fn law_levels_and_runs(c: Seq<i32>, i: int, run: i64)
    requires
        0 <= i <= c.len(),
        0 <= run < i64::MAX,
    ensures
        i == c.len() ==> level_runs(c, i, run) == seq![(0i64, 0i64)],
        i < c.len() && c[i] == 0 ==> level_runs(c, i, run) == level_runs(c, i + 1, (run + 1) as i64),
        i < c.len() && c[i] != 0 ==> level_runs(c, i, run) == seq![(c[i] as i64, run)] + level_runs(
            c,
            i + 1,
            0,
        ),
{
}

} // verus!

//! Inverse scaling (dequantisation) and inverse transforms (H.264 section 8.5):
//! coefficient levels in, spatial residual samples out. The 4x4 and 8x8
//! residual paths, and the DC transforms of Intra_16x16 luma and 4:2:0 chroma.
//!
//! Arithmetic is modulo 2^32, which no conforming level ever reaches.

use crate::mvc::arith::lemma_i32_shr;
use vstd::prelude::*;

verus! {

/// A block of values by row and column.
pub type Block = spec_fn(int, int) -> i32;

/// The values of a 4x4 array.
pub open spec fn block4(a: [[i32; 4]; 4]) -> Block {
    |i: int, j: int| a[i][j]
}

/// The values of an 8x8 array.
pub open spec fn block8(a: [[i32; 8]; 8]) -> Block {
    |i: int, j: int| a[i][j]
}

/// The array holds the values of the block.
pub open spec fn shows4(a: [[i32; 4]; 4], b: Block) -> bool {
    forall|i: int, j: int| 0 <= i < 4 && 0 <= j < 4 ==> #[trigger] a[i][j] == b(i, j)
}

/// The array holds the values of the block.
pub open spec fn shows8(a: [[i32; 8]; 8], b: Block) -> bool {
    forall|i: int, j: int| 0 <= i < 8 && 0 <= j < 8 ==> #[trigger] a[i][j] == b(i, j)
}

/// `normAdjust4x4[m][class]` of section 8.5.9.
pub const NORM_ADJUST_4X4: [[i32; 3]; 6] = [
    [10, 16, 13],
    [11, 18, 14],
    [13, 20, 16],
    [14, 23, 18],
    [16, 25, 20],
    [18, 29, 23],
];

/// The class of a position: 0 even/even, 1 odd/odd, 2 otherwise.
pub open spec fn class4(i: int, j: int) -> int {
    if i % 2 == 0 && j % 2 == 0 {
        0
    } else if i % 2 == 1 && j % 2 == 1 {
        1
    } else {
        2
    }
}

/// Norm-adjustment factors, by `qP % 6`: one of the six given.
pub open spec fn by_sixth(m: int, v0: int, v1: int, v2: int, v3: int, v4: int, v5: int) -> i32 {
    (if m == 0 {
        v0
    } else if m == 1 {
        v1
    } else if m == 2 {
        v2
    } else if m == 3 {
        v3
    } else if m == 4 {
        v4
    } else {
        v5
    }) as i32
}

/// normAdjust4x4 of section 8.5.9 at a position.
pub open spec fn norm4(m: int, i: int, j: int) -> i32 {
    if class4(i, j) == 0 {
        by_sixth(m, 10, 11, 13, 14, 16, 18)
    } else if class4(i, j) == 1 {
        by_sixth(m, 16, 18, 20, 23, 25, 29)
    } else {
        by_sixth(m, 13, 14, 16, 18, 20, 23)
    }
}

/// normAdjust8x8 of section 8.5.13.1 at a position.
pub open spec fn norm8(m: int, i: int, j: int) -> i32 {
    if i % 4 == 0 && j % 4 == 0 {
        by_sixth(m, 20, 22, 26, 28, 32, 36)
    } else if i % 2 == 1 && j % 2 == 1 {
        by_sixth(m, 18, 19, 23, 25, 28, 32)
    } else if i % 4 == 2 && j % 4 == 2 {
        by_sixth(m, 32, 35, 42, 45, 51, 58)
    } else if (i % 4 == 0 && j % 2 == 1) || (i % 2 == 1 && j % 4 == 0) {
        by_sixth(m, 19, 21, 24, 26, 30, 34)
    } else if (i % 4 == 0 && j % 4 == 2) || (i % 4 == 2 && j % 4 == 0) {
        by_sixth(m, 25, 28, 33, 35, 40, 46)
    } else {
        by_sixth(m, 24, 26, 31, 33, 38, 43)
    }
}

proof fn lemma_norm_tables()
    ensures
        forall|m: int, i: int, j: int|
            0 <= m < 6 && 0 <= i < 8 && 0 <= j < 8 ==> #[trigger] DEQUANT_COEF8[m][i][j] == norm8(
                m,
                i,
                j,
            ),
        forall|m: int, c: int|
            0 <= m < 6 && 0 <= c < 3 ==> #[trigger] NORM_ADJUST_4X4[m][c] == (if c == 0 {
                by_sixth(m, 10, 11, 13, 14, 16, 18)
            } else if c == 1 {
                by_sixth(m, 16, 18, 20, 23, 25, 29)
            } else {
                by_sixth(m, 13, 14, 16, 18, 20, 23)
            }),
{
}

/// Scan index of the first coefficient of each diagonal of a 4x4 zig-zag scan.
pub open spec fn diagonal4(d: int) -> int {
    if d < 4 {
        (d * (d + 1)) / 2
    } else {
        16 - ((7 - d) * (8 - d)) / 2
    }
}

/// Scan index of the first coefficient of each diagonal of an 8x8 zig-zag scan.
pub open spec fn diagonal8(d: int) -> int {
    if d < 8 {
        (d * (d + 1)) / 2
    } else {
        64 - ((15 - d) * (16 - d)) / 2
    }
}

/// Zig-zag scan index of row `i` and column `j` of a 4x4 block: odd diagonals
/// run down, even ones up.
pub open spec fn zigzag4(i: int, j: int) -> int {
    let d = i + j;
    diagonal4(d) + (if d % 2 == 1 {
        i
    } else {
        j
    }) - (if d > 3 {
        d - 3
    } else {
        0
    })
}

/// Zig-zag scan index of row `i` and column `j` of an 8x8 block.
pub open spec fn zigzag8(i: int, j: int) -> int {
    let d = i + j;
    diagonal8(d) + (if d % 2 == 1 {
        i
    } else {
        j
    }) - (if d > 7 {
        d - 7
    } else {
        0
    })
}

fn class_4x4(i: usize, j: usize) -> (c: usize)
    ensures
        c == class4(i as int, j as int),
        c < 3,
{
    if i % 2 == 0 && j % 2 == 0 {
        0
    } else if i % 2 == 1 && j % 2 == 1 {
        1
    } else {
        2
    }
}

/// A value scaled up by `2^(e - base)`, or down with rounding when `e` is
/// below `base`.
pub open spec fn rescale(v: i32, e: int, base: int) -> i32 {
    if e >= base {
        v.wrapping_shl((e - base) as u32)
    } else {
        v.wrapping_add(1i32.wrapping_shl((base - 1 - e) as u32)) >> (base - e)
    }
}

fn rescale_value(v: i32, e: i32, base: i32) -> (r: i32)
    requires
        0 <= e <= 8,
        1 <= base <= 6,
    ensures
        r == rescale(v, e as int, base as int),
{
    if e >= base {
        v.wrapping_shl((e - base) as u32)
    } else {
        v.wrapping_add(1i32.wrapping_shl((base - 1 - e) as u32)) >> (base - e)
    }
}

/// The dequantised value of a level of a 4x4 block with this weight matrix.
pub open spec fn dequant4(levels: Block, qp: int, weight: Block) -> Block {
    |i: int, j: int|
        rescale(
            levels(i, j).wrapping_mul(
                weight(i, j).wrapping_mul(norm4(qp % 6, i, j)),
            ),
            qp / 6,
            4,
        )
}

/// The flat 4x4 inverse-quant matrix.
pub const FLAT_WEIGHT_4X4: [[i32; 4]; 4] = [[16, 16, 16, 16], [16, 16, 16, 16], [16, 16, 16, 16], [16, 16, 16, 16]];

/// Dequantise a 4x4 block of coefficient levels in place, every position
/// included, with a weight matrix in raster order.
pub fn dequant_4x4_weighted(levels: &mut [[i32; 4]; 4], qp: i32, weight: &[[i32; 4]; 4])
    requires
        0 <= qp <= 51,
    ensures
        shows4(*final(levels), dequant4(block4(*old(levels)), qp as int, block4(*weight))),
{
    let m: usize = (qp % 6) as usize;
    let e: i32 = qp / 6;
    let ghost want = dequant4(block4(*levels), qp as int, block4(*weight));
    let ghost was = *levels;
    for i in 0..4usize
        invariant
            0 <= qp <= 51,
            m == qp % 6,
            e == qp / 6,
            want == dequant4(block4(was), qp as int, block4(*weight)),
            forall|a: int, b: int|
                0 <= a < i && 0 <= b < 4 ==> #[trigger] levels[a][b] == want(a, b),
            forall|a: int, b: int|
                i <= a < 4 && 0 <= b < 4 ==> #[trigger] levels[a][b] == was[a][b],
    {
        for j in 0..4usize
            invariant
                i < 4,
                0 <= qp <= 51,
                m == qp % 6,
                e == qp / 6,
                want == dequant4(block4(was), qp as int, block4(*weight)),
                forall|a: int, b: int|
                    0 <= a < i && 0 <= b < 4 ==> #[trigger] levels[a][b] == want(a, b),
                forall|b: int| 0 <= b < j ==> #[trigger] levels[i as int][b] == want(i as int, b),
                forall|b: int| j <= b < 4 ==> #[trigger] levels[i as int][b] == was[i as int][b],
                forall|a: int, b: int|
                    i < a < 4 && 0 <= b < 4 ==> #[trigger] levels[a][b] == was[a][b],
        {
            proof {
                lemma_norm_tables();
            }
            let scale: i32 = weight[i][j].wrapping_mul(NORM_ADJUST_4X4[m][class_4x4(i, j)]);
            levels[i][j] = rescale_value(levels[i][j].wrapping_mul(scale), e, 4);
        }
    }
}

/// Dequantise a 4x4 block of coefficient levels in place with flat scaling.
/// `qp` is the block's QP (0..=51).
pub fn dequant_4x4(levels: &mut [[i32; 4]; 4], qp: i32)
    requires
        0 <= qp <= 51,
    ensures
        shows4(
            *final(levels),
            dequant4(block4(*old(levels)), qp as int, block4(FLAT_WEIGHT_4X4)),
        ),
{
    dequant_4x4_weighted(levels, qp, &FLAT_WEIGHT_4X4);
}

/// One pass of the 4-point inverse transform.
#[verifier::opaque]
pub open spec fn pass4(p: Seq<i32>) -> Seq<i32> {
    let e0 = p[0].wrapping_add(p[2]);
    let e1 = p[0].wrapping_sub(p[2]);
    let e2 = (p[1] >> 1).wrapping_sub(p[3]);
    let e3 = p[1].wrapping_add(p[3] >> 1);
    seq![e0.wrapping_add(e3), e1.wrapping_add(e2), e1.wrapping_sub(e2), e0.wrapping_sub(e3)]
}

/// One pass of the 4-point Hadamard transform.
#[verifier::opaque]
pub open spec fn hadamard4(p: Seq<i32>) -> Seq<i32> {
    let a0 = p[0].wrapping_add(p[2]);
    let a1 = p[0].wrapping_sub(p[2]);
    let a2 = p[1].wrapping_sub(p[3]);
    let a3 = p[1].wrapping_add(p[3]);
    seq![a0.wrapping_add(a3), a1.wrapping_add(a2), a1.wrapping_sub(a2), a0.wrapping_sub(a3)]
}

fn inverse_pass4(p: [i32; 4]) -> (r: [i32; 4])
    ensures
        r@ == pass4(p@),
{
    proof {
        reveal(pass4);
    }
    let e0: i32 = p[0].wrapping_add(p[2]);
    let e1: i32 = p[0].wrapping_sub(p[2]);
    let e2: i32 = (p[1] >> 1).wrapping_sub(p[3]);
    let e3: i32 = p[1].wrapping_add(p[3] >> 1);
    let r = [e0.wrapping_add(e3), e1.wrapping_add(e2), e1.wrapping_sub(e2), e0.wrapping_sub(e3)];
    assert(r@ =~= pass4(p@));
    r
}

fn hadamard_pass4(p: [i32; 4]) -> (r: [i32; 4])
    ensures
        r@ == hadamard4(p@),
{
    proof {
        reveal(hadamard4);
    }
    let a0: i32 = p[0].wrapping_add(p[2]);
    let a1: i32 = p[0].wrapping_sub(p[2]);
    let a2: i32 = p[1].wrapping_sub(p[3]);
    let a3: i32 = p[1].wrapping_add(p[3]);
    let r = [a0.wrapping_add(a3), a1.wrapping_add(a2), a1.wrapping_sub(a2), a0.wrapping_sub(a3)];
    assert(r@ =~= hadamard4(p@));
    r
}

/// Row `i` of a block.
pub open spec fn row4(b: Block, i: int) -> Seq<i32> {
    seq![b(i, 0), b(i, 1), b(i, 2), b(i, 3)]
}

/// Column `j` of a block.
pub open spec fn col4(b: Block, j: int) -> Seq<i32> {
    seq![b(0, j), b(1, j), b(2, j), b(3, j)]
}

/// The rounding at the end of a residual transform.
pub open spec fn round6(v: i32) -> i32 {
    v.wrapping_add(32) >> 6
}

/// The inverse 4x4 residual transform: rows, then columns, then rounding.
pub open spec fn idct4(d: Block) -> Block {
    |i: int, j: int| round6(pass4(col4(|a: int, b: int| pass4(row4(d, a))[b], j))[i])
}

/// Inverse 4x4 residual transform of the dequantised block `d`.
pub fn idct_4x4(d: &[[i32; 4]; 4]) -> (r: [[i32; 4]; 4])
    ensures
        shows4(r, idct4(block4(*d))),
{
    let ghost b = block4(*d);
    let f0 = inverse_pass4(d[0]);
    let f1 = inverse_pass4(d[1]);
    let f2 = inverse_pass4(d[2]);
    let f3 = inverse_pass4(d[3]);
    proof {
        assert(d[0]@ =~= row4(b, 0));
        assert(d[1]@ =~= row4(b, 1));
        assert(d[2]@ =~= row4(b, 2));
        assert(d[3]@ =~= row4(b, 3));
    }
    let ghost f = |a: int, c: int| pass4(row4(b, a))[c];
    let mut r: [[i32; 4]; 4] = [[0i32; 4]; 4];
    for j in 0..4usize
        invariant
            f == (|a: int, c: int| pass4(row4(b, a))[c]),
            b == block4(*d),
            f0@ == pass4(row4(b, 0)),
            f1@ == pass4(row4(b, 1)),
            f2@ == pass4(row4(b, 2)),
            f3@ == pass4(row4(b, 3)),
            forall|i: int, c: int| 0 <= i < 4 && 0 <= c < j ==> #[trigger] r[i][c] == idct4(b)(i, c),
    {
        let col = [f0[j], f1[j], f2[j], f3[j]];
        let g = inverse_pass4(col);
        assert(col@ =~= col4(f, j as int));
        r[0][j] = g[0].wrapping_add(32) >> 6;
        r[1][j] = g[1].wrapping_add(32) >> 6;
        r[2][j] = g[2].wrapping_add(32) >> 6;
        r[3][j] = g[3].wrapping_add(32) >> 6;
    }
    r
}

/// Dequantise and inverse-transform a 4x4 residual block with flat scaling.
pub fn reconstruct_residual_4x4(levels: &[[i32; 4]; 4], qp: i32) -> (r: [[i32; 4]; 4])
    requires
        0 <= qp <= 51,
    ensures
        shows4(r, idct4(dequant4(block4(*levels), qp as int, block4(FLAT_WEIGHT_4X4)))),
{
    let mut d = *levels;
    dequant_4x4(&mut d, qp);
    let r = idct_4x4(&d);
    proof {
        lemma_idct4_reads(block4(d), dequant4(block4(*levels), qp as int, block4(FLAT_WEIGHT_4X4)));
    }
    r
}

/// The inverse 4x4 transform reads the sixteen values of the block only.
pub proof fn lemma_idct4_reads(a: Block, b: Block)
    requires
        forall|i: int, j: int| 0 <= i < 4 && 0 <= j < 4 ==> #[trigger] a(i, j) == b(i, j),
    ensures
        forall|i: int, j: int| 0 <= i < 4 && 0 <= j < 4 ==> #[trigger] idct4(a)(i, j) == idct4(b)(i, j),
{
    assert(row4(a, 0) =~= row4(b, 0));
    assert(row4(a, 1) =~= row4(b, 1));
    assert(row4(a, 2) =~= row4(b, 2));
    assert(row4(a, 3) =~= row4(b, 3));
    let fa = |x: int, y: int| pass4(row4(a, x))[y];
    let fb = |x: int, y: int| pass4(row4(b, x))[y];
    assert forall|i: int, j: int| 0 <= i < 4 && 0 <= j < 4 implies #[trigger] idct4(a)(i, j)
        == idct4(b)(i, j) by {
        assert(col4(fa, j) =~= col4(fb, j));
    }
}

/// The 8x8 inverse-scaling matrix (normAdjust8x8 of section 8.5.13.1), indexed
/// by `qP % 6`.
pub const DEQUANT_COEF8: [[[i32; 8]; 8]; 6] = [
    [[20,19,25,19,20,19,25,19],[19,18,24,18,19,18,24,18],[25,24,32,24,25,24,32,24],[19,18,24,18,19,18,24,18],
     [20,19,25,19,20,19,25,19],[19,18,24,18,19,18,24,18],[25,24,32,24,25,24,32,24],[19,18,24,18,19,18,24,18]],
    [[22,21,28,21,22,21,28,21],[21,19,26,19,21,19,26,19],[28,26,35,26,28,26,35,26],[21,19,26,19,21,19,26,19],
     [22,21,28,21,22,21,28,21],[21,19,26,19,21,19,26,19],[28,26,35,26,28,26,35,26],[21,19,26,19,21,19,26,19]],
    [[26,24,33,24,26,24,33,24],[24,23,31,23,24,23,31,23],[33,31,42,31,33,31,42,31],[24,23,31,23,24,23,31,23],
     [26,24,33,24,26,24,33,24],[24,23,31,23,24,23,31,23],[33,31,42,31,33,31,42,31],[24,23,31,23,24,23,31,23]],
    [[28,26,35,26,28,26,35,26],[26,25,33,25,26,25,33,25],[35,33,45,33,35,33,45,33],[26,25,33,25,26,25,33,25],
     [28,26,35,26,28,26,35,26],[26,25,33,25,26,25,33,25],[35,33,45,33,35,33,45,33],[26,25,33,25,26,25,33,25]],
    [[32,30,40,30,32,30,40,30],[30,28,38,28,30,28,38,28],[40,38,51,38,40,38,51,38],[30,28,38,28,30,28,38,28],
     [32,30,40,30,32,30,40,30],[30,28,38,28,30,28,38,28],[40,38,51,38,40,38,51,38],[30,28,38,28,30,28,38,28]],
    [[36,34,46,34,36,34,46,34],[34,32,43,32,34,32,43,32],[46,43,58,43,46,43,58,43],[34,32,43,32,34,32,43,32],
     [36,34,46,34,36,34,46,34],[34,32,43,32,34,32,43,32],[46,43,58,43,46,43,58,43],[34,32,43,32,34,32,43,32]],
];

/// The dequantised value of a level of an 8x8 block with this weight matrix.
pub open spec fn dequant8(levels: Block, qp: int, weight: Block) -> Block {
    |i: int, j: int|
        (((levels(i, j) as i64).wrapping_mul(
            norm8(qp % 6, i, j).wrapping_mul(weight(i, j)) as i64,
        ).wrapping_shl((qp / 6) as u32).wrapping_add(32)) >> 6) as i32
}

/// Dequantise an 8x8 block of coefficient levels in place. `weight` is the
/// inverse-quant weight matrix in raster order.
pub fn dequant_8x8(levels: &mut [[i32; 8]; 8], qp: i32, weight: &[[i32; 8]; 8])
    requires
        0 <= qp <= 51,
    ensures
        shows8(*final(levels), dequant8(block8(*old(levels)), qp as int, block8(*weight))),
{
    let m: usize = (qp % 6) as usize;
    let shift: u32 = (qp / 6) as u32;
    let ghost want = dequant8(block8(*levels), qp as int, block8(*weight));
    let ghost was = *levels;
    for i in 0..8usize
        invariant
            0 <= qp <= 51,
            m == qp % 6,
            shift == qp / 6,
            want == dequant8(block8(was), qp as int, block8(*weight)),
            forall|a: int, b: int|
                0 <= a < i && 0 <= b < 8 ==> #[trigger] levels[a][b] == want(a, b),
            forall|a: int, b: int|
                i <= a < 8 && 0 <= b < 8 ==> #[trigger] levels[a][b] == was[a][b],
    {
        for j in 0..8usize
            invariant
                i < 8,
                0 <= qp <= 51,
                m == qp % 6,
                shift == qp / 6,
                want == dequant8(block8(was), qp as int, block8(*weight)),
                forall|a: int, b: int|
                    0 <= a < i && 0 <= b < 8 ==> #[trigger] levels[a][b] == want(a, b),
                forall|b: int| 0 <= b < j ==> #[trigger] levels[i as int][b] == want(i as int, b),
                forall|b: int| j <= b < 8 ==> #[trigger] levels[i as int][b] == was[i as int][b],
                forall|a: int, b: int|
                    i < a < 8 && 0 <= b < 8 ==> #[trigger] levels[a][b] == was[a][b],
        {
            proof {
                lemma_norm_tables();
            }
            let scale: i64 = DEQUANT_COEF8[m][i][j].wrapping_mul(weight[i][j]) as i64;
            let x: i64 = (levels[i][j] as i64).wrapping_mul(scale).wrapping_shl(shift);
            levels[i][j] = (x.wrapping_add(32) >> 6) as i32;
        }
    }
}

/// The flat 8x8 inverse-quant matrix.
pub const FLAT_WEIGHT_8X8: [[i32; 8]; 8] = [
    [16, 16, 16, 16, 16, 16, 16, 16],
    [16, 16, 16, 16, 16, 16, 16, 16],
    [16, 16, 16, 16, 16, 16, 16, 16],
    [16, 16, 16, 16, 16, 16, 16, 16],
    [16, 16, 16, 16, 16, 16, 16, 16],
    [16, 16, 16, 16, 16, 16, 16, 16],
    [16, 16, 16, 16, 16, 16, 16, 16],
    [16, 16, 16, 16, 16, 16, 16, 16],
];

/// The odd half of the 8-point inverse transform before its last step.
pub open spec fn odd8(p: Seq<i32>) -> Seq<i32> {
    seq![
        p[5].wrapping_sub(p[3]).wrapping_sub(p[7]).wrapping_sub(p[7] >> 1),
        p[1].wrapping_add(p[7]).wrapping_sub(p[3]).wrapping_sub(p[3] >> 1),
        p[7].wrapping_sub(p[1]).wrapping_add(p[5]).wrapping_add(p[5] >> 1),
        p[3].wrapping_add(p[5]).wrapping_add(p[1]).wrapping_add(p[1] >> 1),
    ]
}

/// One pass of the 8-point inverse transform.
#[verifier::opaque]
pub open spec fn pass8(p: Seq<i32>) -> Seq<i32> {
    let a0 = p[0].wrapping_add(p[4]);
    let a1 = p[0].wrapping_sub(p[4]);
    let a2 = p[6].wrapping_sub(p[2] >> 1);
    let a3 = p[2].wrapping_add(p[6] >> 1);
    let b0 = a0.wrapping_add(a3);
    let b2 = a1.wrapping_sub(a2);
    let b4 = a1.wrapping_add(a2);
    let b6 = a0.wrapping_sub(a3);
    let c = odd8(p);
    let b1 = c[0].wrapping_add(c[3] >> 2);
    let b3 = c[1].wrapping_add(c[2] >> 2);
    let b5 = c[2].wrapping_sub(c[1] >> 2);
    let b7 = c[3].wrapping_sub(c[0] >> 2);
    seq![
        b0.wrapping_add(b7),
        b2.wrapping_sub(b5),
        b4.wrapping_add(b3),
        b6.wrapping_add(b1),
        b6.wrapping_sub(b1),
        b4.wrapping_sub(b3),
        b2.wrapping_add(b5),
        b0.wrapping_sub(b7),
    ]
}

fn inverse_pass8(p: [i32; 8]) -> (r: [i32; 8])
    ensures
        r@ == pass8(p@),
{
    proof {
        reveal(pass8);
    }
    let a0: i32 = p[0].wrapping_add(p[4]);
    let a1: i32 = p[0].wrapping_sub(p[4]);
    let a2: i32 = p[6].wrapping_sub(p[2] >> 1);
    let a3: i32 = p[2].wrapping_add(p[6] >> 1);
    let b0: i32 = a0.wrapping_add(a3);
    let b2: i32 = a1.wrapping_sub(a2);
    let b4: i32 = a1.wrapping_add(a2);
    let b6: i32 = a0.wrapping_sub(a3);
    let c0: i32 = p[5].wrapping_sub(p[3]).wrapping_sub(p[7]).wrapping_sub(p[7] >> 1);
    let c1: i32 = p[1].wrapping_add(p[7]).wrapping_sub(p[3]).wrapping_sub(p[3] >> 1);
    let c2: i32 = p[7].wrapping_sub(p[1]).wrapping_add(p[5]).wrapping_add(p[5] >> 1);
    let c3: i32 = p[3].wrapping_add(p[5]).wrapping_add(p[1]).wrapping_add(p[1] >> 1);
    let b1: i32 = c0.wrapping_add(c3 >> 2);
    let b3: i32 = c1.wrapping_add(c2 >> 2);
    let b5: i32 = c2.wrapping_sub(c1 >> 2);
    let b7: i32 = c3.wrapping_sub(c0 >> 2);
    let r = [
        b0.wrapping_add(b7),
        b2.wrapping_sub(b5),
        b4.wrapping_add(b3),
        b6.wrapping_add(b1),
        b6.wrapping_sub(b1),
        b4.wrapping_sub(b3),
        b2.wrapping_add(b5),
        b0.wrapping_sub(b7),
    ];
    assert(r@ =~= pass8(p@));
    r
}

/// Row `i` of a block.
pub open spec fn row8(b: Block, i: int) -> Seq<i32> {
    seq![b(i, 0), b(i, 1), b(i, 2), b(i, 3), b(i, 4), b(i, 5), b(i, 6), b(i, 7)]
}

/// Column `j` of a block.
pub open spec fn col8(b: Block, j: int) -> Seq<i32> {
    seq![b(0, j), b(1, j), b(2, j), b(3, j), b(4, j), b(5, j), b(6, j), b(7, j)]
}

/// One pass over each row of a block.
pub open spec fn rows8(d: Block) -> Block {
    |i: int, j: int| pass8(row8(d, i))[j]
}

/// The inverse 8x8 transform before rounding: rows, then columns.
pub open spec fn inverse8(d: Block) -> Block {
    |i: int, j: int| pass8(col8(rows8(d), j))[i]
}

/// Inverse 8x8 residual transform, without the final rounding.
pub fn inverse_8x8(block: &[[i32; 8]; 8]) -> (out: [[i32; 8]; 8])
    ensures
        shows8(out, inverse8(block8(*block))),
{
    let ghost b = block8(*block);
    let ghost f = rows8(b);
    let mut tmp: [[i32; 8]; 8] = [[0i32; 8]; 8];
    for i in 0..8usize
        invariant
            b == block8(*block),
            forall|a: int| 0 <= a < i ==> (#[trigger] tmp[a])@ == pass8(row8(b, a)),
    {
        assert(block[i as int]@ =~= row8(b, i as int));
        tmp[i] = inverse_pass8(block[i]);
    }
    let mut out: [[i32; 8]; 8] = [[0i32; 8]; 8];
    for j in 0..8usize
        invariant
            f == rows8(b),
            forall|a: int| 0 <= a < 8 ==> (#[trigger] tmp[a])@ == pass8(row8(b, a)),
            forall|i: int, c: int|
                0 <= i < 8 && 0 <= c < j ==> #[trigger] out[i][c] == inverse8(b)(i, c),
    {
        let col = [
            tmp[0][j],
            tmp[1][j],
            tmp[2][j],
            tmp[3][j],
            tmp[4][j],
            tmp[5][j],
            tmp[6][j],
            tmp[7][j],
        ];
        assert(col@ =~= col8(f, j as int));
        let g = inverse_pass8(col);
        for i in 0..8usize
            invariant
                j < 8,
                f == rows8(b),
                g@ == pass8(col8(f, j as int)),
                forall|x: int, c: int|
                    0 <= x < 8 && 0 <= c < j ==> #[trigger] out[x][c] == inverse8(b)(x, c),
                forall|x: int| 0 <= x < i ==> #[trigger] out[x][j as int] == inverse8(b)(x, j as int),
        {
            out[i][j] = g[i];
        }
    }
    out
}

/// The inverse 8x8 transform reads the sixty-four values of the block only.
pub proof fn lemma_inverse8_reads(a: Block, b: Block)
    requires
        forall|i: int, j: int| 0 <= i < 8 && 0 <= j < 8 ==> #[trigger] a(i, j) == b(i, j),
    ensures
        forall|i: int, j: int|
            0 <= i < 8 && 0 <= j < 8 ==> #[trigger] inverse8(a)(i, j) == inverse8(b)(i, j),
{
    let fa = |x: int, y: int| pass8(row8(a, x))[y];
    let fb = |x: int, y: int| pass8(row8(b, x))[y];
    assert forall|i: int| 0 <= i < 8 implies #[trigger] row8(a, i) == row8(b, i) by {
        assert(row8(a, i) =~= row8(b, i));
    }
    assert forall|i: int, j: int| 0 <= i < 8 && 0 <= j < 8 implies #[trigger] inverse8(a)(i, j)
        == inverse8(b)(i, j) by {
        assert(row8(a, 0) == row8(b, 0) && row8(a, 1) == row8(b, 1) && row8(a, 2) == row8(b, 2)
            && row8(a, 3) == row8(b, 3) && row8(a, 4) == row8(b, 4) && row8(a, 5) == row8(b, 5)
            && row8(a, 6) == row8(b, 6) && row8(a, 7) == row8(b, 7));
        assert(col8(fa, j) =~= col8(fb, j));
    }
}

/// The residual samples of an 8x8 block of levels.
pub open spec fn residual8(levels: Block, qp: int, weight: Block) -> Block {
    |i: int, j: int| round6(inverse8(dequant8(levels, qp, weight))(i, j))
}

/// Dequantise, inverse-transform and round an 8x8 residual block.
pub fn reconstruct_residual_8x8(levels: &[[i32; 8]; 8], qp: i32, weight: &[[i32; 8]; 8]) -> (r: [[i32; 8]; 8])
    requires
        0 <= qp <= 51,
    ensures
        shows8(r, residual8(block8(*levels), qp as int, block8(*weight))),
{
    let mut d = *levels;
    dequant_8x8(&mut d, qp, weight);
    let h = inverse_8x8(&d);
    let ghost deq = dequant8(block8(*levels), qp as int, block8(*weight));
    proof {
        lemma_inverse8_reads(block8(d), deq);
    }
    let mut r: [[i32; 8]; 8] = [[0i32; 8]; 8];
    for i in 0..8usize
        invariant
            forall|a: int, b: int|
                0 <= a < 8 && 0 <= b < 8 ==> #[trigger] h[a][b] == inverse8(deq)(a, b),
            forall|a: int, b: int|
                0 <= a < i && 0 <= b < 8 ==> #[trigger] r[a][b] == round6(inverse8(deq)(a, b)),
    {
        for j in 0..8usize
            invariant
                i < 8,
                forall|a: int, b: int|
                    0 <= a < 8 && 0 <= b < 8 ==> #[trigger] h[a][b] == inverse8(deq)(a, b),
                forall|a: int, b: int|
                    0 <= a < i && 0 <= b < 8 ==> #[trigger] r[a][b] == round6(inverse8(deq)(a, b)),
                forall|b: int|
                    0 <= b < j ==> #[trigger] r[i as int][b] == round6(inverse8(deq)(i as int, b)),
        {
            r[i][j] = h[i][j].wrapping_add(32) >> 6;
        }
    }
    r
}

/// 8x8 zig-zag scan (frame): scan index to (row, column).
pub const SCAN_8X8: [(usize, usize); 64] = [
    (0,0),(0,1),(1,0),(2,0),(1,1),(0,2),(0,3),(1,2),(2,1),(3,0),(4,0),(3,1),(2,2),(1,3),(0,4),(0,5),
    (1,4),(2,3),(3,2),(4,1),(5,0),(6,0),(5,1),(4,2),(3,3),(2,4),(1,5),(0,6),(0,7),(1,6),(2,5),(3,4),
    (4,3),(5,2),(6,1),(7,0),(7,1),(6,2),(5,3),(4,4),(3,5),(2,6),(1,7),(2,7),(3,6),(4,5),(5,4),(6,3),
    (7,2),(7,3),(6,4),(5,5),(4,6),(3,7),(4,7),(5,6),(6,5),(7,4),(7,5),(6,6),(5,7),(6,7),(7,6),(7,7),
];

/// Scan index of each position of an 8x8 block.
pub const SCAN_POS_8X8: [[usize; 8]; 8] = [
    [0, 1, 5, 6, 14, 15, 27, 28],
    [2, 4, 7, 13, 16, 26, 29, 42],
    [3, 8, 12, 17, 25, 30, 41, 43],
    [9, 11, 18, 24, 31, 40, 44, 53],
    [10, 19, 23, 32, 39, 45, 52, 54],
    [20, 22, 33, 38, 46, 51, 55, 60],
    [21, 34, 37, 47, 50, 56, 59, 61],
    [35, 36, 48, 49, 57, 58, 62, 63],
];

/// The block of 64 coefficients in scan order.
pub open spec fn unscan8(scan: Seq<i32>) -> Block {
    |i: int, j: int| scan[zigzag8(i, j)]
}

/// Place 64 scan-order coefficients into an 8x8 raster block.
pub fn inverse_scan_8x8(scan: &[i32; 64]) -> (out: [[i32; 8]; 8])
    ensures
        shows8(out, unscan8(scan@)),
{
    let mut out: [[i32; 8]; 8] = [[0i32; 8]; 8];
    for i in 0..8usize
        invariant
            forall|a: int, b: int|
                0 <= a < i && 0 <= b < 8 ==> #[trigger] out[a][b] == unscan8(scan@)(a, b),
    {
        for j in 0..8usize
            invariant
                i < 8,
                forall|a: int, b: int|
                    0 <= a < i && 0 <= b < 8 ==> #[trigger] out[a][b] == unscan8(scan@)(a, b),
                forall|b: int| 0 <= b < j ==> #[trigger] out[i as int][b] == unscan8(scan@)(i as int, b),
        {
            proof {
                lemma_scan_positions();
            }
            out[i][j] = scan[SCAN_POS_8X8[i][j]];
        }
    }
    out
}

/// 4x4 zig-zag scan (frame): scan index to raster index.
pub const ZIGZAG_4X4: [usize; 16] = [0, 1, 4, 8, 5, 2, 3, 6, 9, 12, 13, 10, 7, 11, 14, 15];

/// Scan index of each position of a 4x4 block.
pub const SCAN_POS_4X4: [[usize; 4]; 4] = [
    [0, 1, 5, 6],
    [2, 4, 7, 12],
    [3, 8, 11, 13],
    [9, 10, 14, 15],
];

/// The block of 16 coefficients in scan order.
pub open spec fn unscan4(scan: Seq<i32>) -> Block {
    |i: int, j: int| scan[zigzag4(i, j)]
}

/// Place 16 scan-order coefficients into a 4x4 raster block.
pub fn inverse_scan_4x4(scan: &[i32; 16]) -> (r: [[i32; 4]; 4])
    ensures
        shows4(r, unscan4(scan@)),
{
    let mut r: [[i32; 4]; 4] = [[0i32; 4]; 4];
    for i in 0..4usize
        invariant
            forall|a: int, b: int|
                0 <= a < i && 0 <= b < 4 ==> #[trigger] r[a][b] == unscan4(scan@)(a, b),
    {
        for j in 0..4usize
            invariant
                i < 4,
                forall|a: int, b: int|
                    0 <= a < i && 0 <= b < 4 ==> #[trigger] r[a][b] == unscan4(scan@)(a, b),
                forall|b: int| 0 <= b < j ==> #[trigger] r[i as int][b] == unscan4(scan@)(i as int, b),
        {
            proof {
                lemma_scan_positions();
            }
            r[i][j] = scan[SCAN_POS_4X4[i][j]];
        }
    }
    r
}

proof fn lemma_scan_positions()
    ensures
        forall|i: int, j: int|
            0 <= i < 4 && 0 <= j < 4 ==> #[trigger] SCAN_POS_4X4[i][j] == zigzag4(i, j)
                && SCAN_POS_4X4[i][j] < 16,
        forall|i: int, j: int|
            0 <= i < 8 && 0 <= j < 8 ==> #[trigger] SCAN_POS_8X8[i][j] == zigzag8(i, j)
                && SCAN_POS_8X8[i][j] < 64,
{
    assert(diagonal4(0) == 0 && diagonal4(1) == 1 && diagonal4(2) == 3 && diagonal4(3) == 6
        && diagonal4(4) == 10 && diagonal4(5) == 13 && diagonal4(6) == 15);
    assert(diagonal8(0) == 0 && diagonal8(1) == 1 && diagonal8(2) == 3 && diagonal8(3) == 6
        && diagonal8(4) == 10 && diagonal8(5) == 15 && diagonal8(6) == 21 && diagonal8(7) == 28
        && diagonal8(8) == 36 && diagonal8(9) == 43 && diagonal8(10) == 49 && diagonal8(11) == 54
        && diagonal8(12) == 58 && diagonal8(13) == 61 && diagonal8(14) == 63);
}

/// The inverse scans are permutations: every scan index has its own place, and
/// every place its own scan index.
pub proof fn law_scans_are_permutations()
    ensures
        forall|k: int|
            0 <= k < 16 ==> SCAN_POS_4X4[(#[trigger] ZIGZAG_4X4[k]) as int / 4][ZIGZAG_4X4[k] as int
                % 4] == k && ZIGZAG_4X4[k] < 16,
        forall|i: int, j: int|
            0 <= i < 4 && 0 <= j < 4 ==> ZIGZAG_4X4[(#[trigger] SCAN_POS_4X4[i][j]) as int] == 4 * i
                + j,
        forall|k: int|
            0 <= k < 64 ==> SCAN_POS_8X8[(#[trigger] SCAN_8X8[k]).0 as int][SCAN_8X8[k].1 as int]
                == k && SCAN_8X8[k].0 < 8 && SCAN_8X8[k].1 < 8,
        forall|i: int, j: int|
            0 <= i < 8 && 0 <= j < 8 ==> SCAN_8X8[(#[trigger] SCAN_POS_8X8[i][j]) as int] == (
                i as usize,
                j as usize,
            ),
{
}

/// The Hadamard transform of a 4x4 block: rows, then columns.
pub open spec fn hadamard(c: Block) -> Block {
    |i: int, j: int| hadamard4(col4(|a: int, b: int| hadamard4(row4(c, a))[b], j))[i]
}

/// The Hadamard transform reads the sixteen values of the block only.
pub proof fn lemma_hadamard_reads(a: Block, b: Block)
    requires
        forall|i: int, j: int| 0 <= i < 4 && 0 <= j < 4 ==> #[trigger] a(i, j) == b(i, j),
    ensures
        forall|i: int, j: int|
            0 <= i < 4 && 0 <= j < 4 ==> #[trigger] hadamard(a)(i, j) == hadamard(b)(i, j),
{
    assert(row4(a, 0) =~= row4(b, 0));
    assert(row4(a, 1) =~= row4(b, 1));
    assert(row4(a, 2) =~= row4(b, 2));
    assert(row4(a, 3) =~= row4(b, 3));
    let fa = |x: int, y: int| hadamard4(row4(a, x))[y];
    let fb = |x: int, y: int| hadamard4(row4(b, x))[y];
    assert forall|i: int, j: int| 0 <= i < 4 && 0 <= j < 4 implies #[trigger] hadamard(a)(i, j)
        == hadamard(b)(i, j) by {
        assert(col4(fa, j) =~= col4(fb, j));
    }
}

/// The dequantised Intra_16x16 luma DC values.
pub open spec fn luma_dc(c: Block, qp: int, weight: i32) -> Block {
    |i: int, j: int|
        rescale(
            hadamard(c)(i, j).wrapping_mul(weight.wrapping_mul(norm4(qp % 6, 0, 0))),
            qp / 6,
            6,
        )
}

/// Inverse Hadamard transform and scaling of the Intra_16x16 luma DC
/// coefficients, with the weight of the DC position.
pub fn luma_dc_4x4_weighted(c: &[[i32; 4]; 4], qp: i32, weight: i32) -> (out: [[i32; 4]; 4])
    requires
        0 <= qp <= 51,
    ensures
        shows4(out, luma_dc(block4(*c), qp as int, weight)),
{
    let ghost b = block4(*c);
    let f0 = hadamard_pass4(c[0]);
    let f1 = hadamard_pass4(c[1]);
    let f2 = hadamard_pass4(c[2]);
    let f3 = hadamard_pass4(c[3]);
    proof {
        assert(c[0]@ =~= row4(b, 0));
        assert(c[1]@ =~= row4(b, 1));
        assert(c[2]@ =~= row4(b, 2));
        assert(c[3]@ =~= row4(b, 3));
    }
    let ghost f = |a: int, x: int| hadamard4(row4(b, a))[x];
    let m: usize = (qp % 6) as usize;
    let e: i32 = qp / 6;
    proof {
        lemma_norm_tables();
    }
    let scale: i32 = weight.wrapping_mul(NORM_ADJUST_4X4[m][0]);
    let mut out: [[i32; 4]; 4] = [[0i32; 4]; 4];
    for j in 0..4usize
        invariant
            0 <= qp <= 51,
            e == qp / 6,
            scale == weight.wrapping_mul(norm4(qp as int % 6, 0, 0)),
            f == (|a: int, x: int| hadamard4(row4(b, a))[x]),
            f0@ == hadamard4(row4(b, 0)),
            f1@ == hadamard4(row4(b, 1)),
            f2@ == hadamard4(row4(b, 2)),
            f3@ == hadamard4(row4(b, 3)),
            forall|i: int, x: int|
                0 <= i < 4 && 0 <= x < j ==> #[trigger] out[i][x] == luma_dc(b, qp as int, weight)(
                    i,
                    x,
                ),
    {
        let col = [f0[j], f1[j], f2[j], f3[j]];
        let g = hadamard_pass4(col);
        assert(col@ =~= col4(f, j as int));
        out[0][j] = rescale_value(g[0].wrapping_mul(scale), e, 6);
        out[1][j] = rescale_value(g[1].wrapping_mul(scale), e, 6);
        out[2][j] = rescale_value(g[2].wrapping_mul(scale), e, 6);
        out[3][j] = rescale_value(g[3].wrapping_mul(scale), e, 6);
    }
    out
}

/// Inverse Hadamard transform and flat scaling of the Intra_16x16 luma DC
/// coefficients. The values go into each 4x4 block's `[0][0]`.
pub fn luma_dc_4x4(c: &[[i32; 4]; 4], qp: i32) -> (out: [[i32; 4]; 4])
    requires
        0 <= qp <= 51,
    ensures
        shows4(out, luma_dc(block4(*c), qp as int, 16)),
{
    luma_dc_4x4_weighted(c, qp, 16)
}

/// The 2x2 Hadamard transform of the chroma DC coefficients in raster order.
pub open spec fn hadamard2(c: Seq<i32>) -> Seq<i32> {
    seq![
        c[0].wrapping_add(c[1]).wrapping_add(c[2]).wrapping_add(c[3]),
        c[0].wrapping_sub(c[1]).wrapping_add(c[2]).wrapping_sub(c[3]),
        c[0].wrapping_add(c[1]).wrapping_sub(c[2]).wrapping_sub(c[3]),
        c[0].wrapping_sub(c[1]).wrapping_sub(c[2]).wrapping_add(c[3]),
    ]
}

/// The dequantised chroma DC values of the coefficients in raster order.
pub open spec fn chroma_dc(c: Seq<i32>, qp: int, weight: i32) -> Seq<i32> {
    hadamard2(c).map_values(
        |v: i32|
            v.wrapping_mul(weight.wrapping_mul(norm4(qp % 6, 0, 0))).wrapping_shl(
                (qp / 6) as u32,
            ) >> 5,
    )
}

/// Inverse Hadamard transform and scaling of the 4:2:0 chroma DC coefficients,
/// with the weight of the DC position.
pub fn chroma_dc_2x2_weighted(c: &[[i32; 2]; 2], qp: i32, weight: i32) -> (r: [[i32; 2]; 2])
    requires
        0 <= qp <= 51,
    ensures
        seq![r[0][0], r[0][1], r[1][0], r[1][1]] == chroma_dc(
            seq![c[0][0], c[0][1], c[1][0], c[1][1]],
            qp as int,
            weight,
        ),
{
    let (c0, c1, c2, c3) = (c[0][0], c[0][1], c[1][0], c[1][1]);
    let f00: i32 = c0.wrapping_add(c1).wrapping_add(c2).wrapping_add(c3);
    let f01: i32 = c0.wrapping_sub(c1).wrapping_add(c2).wrapping_sub(c3);
    let f10: i32 = c0.wrapping_add(c1).wrapping_sub(c2).wrapping_sub(c3);
    let f11: i32 = c0.wrapping_sub(c1).wrapping_sub(c2).wrapping_add(c3);
    let m: usize = (qp % 6) as usize;
    let e: u32 = (qp / 6) as u32;
    proof {
        lemma_norm_tables();
    }
    let scale: i32 = weight.wrapping_mul(NORM_ADJUST_4X4[m][0]);
    let r = [
        [
            f00.wrapping_mul(scale).wrapping_shl(e) >> 5,
            f01.wrapping_mul(scale).wrapping_shl(e) >> 5,
        ],
        [
            f10.wrapping_mul(scale).wrapping_shl(e) >> 5,
            f11.wrapping_mul(scale).wrapping_shl(e) >> 5,
        ],
    ];
    assert(seq![r[0][0], r[0][1], r[1][0], r[1][1]] =~= chroma_dc(
        seq![c[0][0], c[0][1], c[1][0], c[1][1]],
        qp as int,
        weight,
    ));
    r
}

/// Inverse Hadamard transform and flat scaling of the 4:2:0 chroma DC
/// coefficients.
pub fn chroma_dc_2x2(c: &[[i32; 2]; 2], qp: i32) -> (r: [[i32; 2]; 2])
    requires
        0 <= qp <= 51,
    ensures
        seq![r[0][0], r[0][1], r[1][0], r[1][1]] == chroma_dc(
            seq![c[0][0], c[0][1], c[1][0], c[1][1]],
            qp as int,
            16,
        ),
{
    chroma_dc_2x2_weighted(c, qp, 16)
}

// ---- laws ----

/// The block is `v` at its first place and zero at the others.
pub open spec fn dc_only(d: Block, v: i32, n: int) -> bool {
    &&& d(0, 0) == v
    &&& forall|i: int, j: int|
        0 <= i < n && 0 <= j < n && !(i == 0 && j == 0) ==> #[trigger] d(i, j) == 0
}

proof fn lemma_pass4_dc(v: i32)
    ensures
        pass4(seq![v, 0i32, 0i32, 0i32]) == seq![v, v, v, v],
{
    reveal(pass4);
    lemma_i32_shr(0);
    assert(pass4(seq![v, 0i32, 0i32, 0i32]) =~= seq![v, v, v, v]);
}

/// The residual of a 4x4 block with a DC coefficient only is flat: the rounded
/// coefficient everywhere. A block of zeros leaves no residual.
pub proof fn law_dc_only_4x4(d: Block, v: i32, i: int, j: int)
    requires
        dc_only(d, v, 4),
        0 <= i < 4,
        0 <= j < 4,
    ensures
        idct4(d)(i, j) == round6(v),
        v == 0 ==> idct4(d)(i, j) == 0,
{
    lemma_pass4_dc(v);
    lemma_pass4_dc(0);
    let f = |a: int, b: int| pass4(row4(d, a))[b];
    assert(row4(d, 0) =~= seq![v, 0i32, 0i32, 0i32]);
    assert(row4(d, 1) =~= seq![0i32, 0i32, 0i32, 0i32]);
    assert(row4(d, 2) =~= seq![0i32, 0i32, 0i32, 0i32]);
    assert(row4(d, 3) =~= seq![0i32, 0i32, 0i32, 0i32]);
    assert(col4(f, j) =~= seq![v, 0i32, 0i32, 0i32]);
    lemma_i32_shr(32);
}

proof fn lemma_pass8_dc(v: i32)
    ensures
        pass8(seq![v, 0i32, 0i32, 0i32, 0i32, 0i32, 0i32, 0i32]) == seq![v, v, v, v, v, v, v, v],
{
    reveal(pass8);
    lemma_i32_shr(0);
    assert(pass8(seq![v, 0i32, 0i32, 0i32, 0i32, 0i32, 0i32, 0i32]) =~= seq![
        v,
        v,
        v,
        v,
        v,
        v,
        v,
        v,
    ]);
}

/// The inverse transform of an 8x8 block with a DC coefficient only is that
/// coefficient everywhere.
pub proof fn law_dc_only_8x8(d: Block, v: i32, i: int, j: int)
    requires
        dc_only(d, v, 8),
        0 <= i < 8,
        0 <= j < 8,
    ensures
        inverse8(d)(i, j) == v,
{
    lemma_pass8_dc(v);
    lemma_pass8_dc(0);
    let f = rows8(d);
    let zero = seq![0i32, 0i32, 0i32, 0i32, 0i32, 0i32, 0i32, 0i32];
    assert(row8(d, 0) =~= seq![v, 0i32, 0i32, 0i32, 0i32, 0i32, 0i32, 0i32]);
    assert(row8(d, 1) =~= zero);
    assert(row8(d, 2) =~= zero);
    assert(row8(d, 3) =~= zero);
    assert(row8(d, 4) =~= zero);
    assert(row8(d, 5) =~= zero);
    assert(row8(d, 6) =~= zero);
    assert(row8(d, 7) =~= zero);
    assert(col8(f, j) =~= seq![v, 0i32, 0i32, 0i32, 0i32, 0i32, 0i32, 0i32]);
}

proof fn lemma_hadamard4_flat(v: i32)
    requires
        -0x1fff_ffff <= v <= 0x1fff_ffff,
    ensures
        hadamard4(seq![v, v, v, v]) == seq![(4 * v) as i32, 0i32, 0i32, 0i32],
{
    reveal(hadamard4);
    assert(hadamard4(seq![v, v, v, v]) =~= seq![(4 * v) as i32, 0i32, 0i32, 0i32]);
}

/// The Hadamard transforms of the DC coefficients gather a flat field at its
/// first place: sixteen times the value of a 4x4 field, four times that of a 2x2
/// one, and zero elsewhere.
pub proof fn law_flat_dc_fields(c: Block, v: i32)
    requires
        -0x3ff_ffff <= v <= 0x3ff_ffff,
        forall|i: int, j: int| 0 <= i < 4 && 0 <= j < 4 ==> #[trigger] c(i, j) == v,
    ensures
        hadamard(c)(0, 0) == 16 * v,
        forall|i: int, j: int|
            0 <= i < 4 && 0 <= j < 4 && !(i == 0 && j == 0) ==> #[trigger] hadamard(c)(i, j) == 0,
        hadamard2(seq![v, v, v, v]) == seq![(4 * v) as i32, 0i32, 0i32, 0i32],
{
    let w = (4 * v) as i32;
    lemma_hadamard4_flat(v);
    lemma_hadamard4_flat(w);
    lemma_hadamard4_flat(0);
    let f = |a: int, b: int| hadamard4(row4(c, a))[b];
    assert(row4(c, 0) =~= seq![v, v, v, v]);
    assert(row4(c, 1) =~= seq![v, v, v, v]);
    assert(row4(c, 2) =~= seq![v, v, v, v]);
    assert(row4(c, 3) =~= seq![v, v, v, v]);
    assert(col4(f, 0) =~= seq![w, w, w, w]);
    assert(col4(f, 1) =~= seq![0i32, 0i32, 0i32, 0i32]);
    assert(col4(f, 2) =~= seq![0i32, 0i32, 0i32, 0i32]);
    assert(col4(f, 3) =~= seq![0i32, 0i32, 0i32, 0i32]);
    assert forall|i: int, j: int|
        0 <= i < 4 && 0 <= j < 4 && !(i == 0 && j == 0) implies #[trigger] hadamard(c)(i, j) == 0 by {
        assert(hadamard(c)(i, j) == hadamard4(col4(f, j))[i]);
    }
    assert(hadamard(c)(0, 0) == hadamard4(col4(f, 0))[0]);
    assert(hadamard2(seq![v, v, v, v]) =~= seq![w, 0i32, 0i32, 0i32]);
}

/// Values added place by place.
pub open spec fn added8(p: Seq<i32>, q: Seq<i32>) -> Seq<i32> {
    Seq::new(8, |i: int| p[i].wrapping_add(q[i]))
}

/// Blocks added place by place.
pub open spec fn added(a: Block, b: Block) -> Block {
    |i: int, j: int| a(i, j).wrapping_add(b(i, j))
}

/// Shifting a sum right is adding the shifted values: no bit is lost or carried.
pub open spec fn shifts_add(x: i32, y: i32, s: int) -> bool {
    (x.wrapping_add(y) >> s) == (x >> s).wrapping_add(y >> s)
}

/// In one pass over `p` and `q`, every halving and quartering of a sum is the sum
/// of the halves and quarters.
pub open spec fn pass_adds(p: Seq<i32>, q: Seq<i32>) -> bool {
    &&& shifts_add(p[1], q[1], 1)
    &&& shifts_add(p[2], q[2], 1)
    &&& shifts_add(p[3], q[3], 1)
    &&& shifts_add(p[5], q[5], 1)
    &&& shifts_add(p[6], q[6], 1)
    &&& shifts_add(p[7], q[7], 1)
    &&& forall|k: int| 0 <= k < 4 ==> shifts_add(#[trigger] odd8(p)[k], odd8(q)[k], 2)
}

#[verifier::opaque]
spec fn plus(a: i32, b: i32) -> i32 {
    a.wrapping_add(b)
}

#[verifier::opaque]
spec fn minus(a: i32, b: i32) -> i32 {
    a.wrapping_sub(b)
}

spec fn odd8_form(p: Seq<i32>) -> (i32, i32, i32, i32) {
    (
        minus(minus(minus(p[5], p[3]), p[7]), p[7] >> 1),
        minus(minus(plus(p[1], p[7]), p[3]), p[3] >> 1),
        plus(plus(minus(p[7], p[1]), p[5]), p[5] >> 1),
        plus(plus(plus(p[3], p[5]), p[1]), p[1] >> 1),
    )
}

spec fn pass8_form(p: Seq<i32>) -> Seq<i32> {
    let a0 = plus(p[0], p[4]);
    let a1 = minus(p[0], p[4]);
    let a2 = minus(p[6], p[2] >> 1);
    let a3 = plus(p[2], p[6] >> 1);
    let b0 = plus(a0, a3);
    let b2 = minus(a1, a2);
    let b4 = plus(a1, a2);
    let b6 = minus(a0, a3);
    let (c0, c1, c2, c3) = odd8_form(p);
    let b1 = plus(c0, c3 >> 2);
    let b3 = plus(c1, c2 >> 2);
    let b5 = minus(c2, c1 >> 2);
    let b7 = minus(c3, c0 >> 2);
    seq![
        plus(b0, b7),
        minus(b2, b5),
        plus(b4, b3),
        plus(b6, b1),
        minus(b6, b1),
        minus(b4, b3),
        plus(b2, b5),
        minus(b0, b7),
    ]
}

proof fn lemma_odd8_form(p: Seq<i32>)
    ensures
        odd8(p) == seq![odd8_form(p).0, odd8_form(p).1, odd8_form(p).2, odd8_form(p).3],
{
    reveal(plus);
    reveal(minus);
    assert(odd8(p) =~= seq![odd8_form(p).0, odd8_form(p).1, odd8_form(p).2, odd8_form(p).3]);
}

proof fn lemma_pass8_form(p: Seq<i32>)
    ensures
        pass8(p) == pass8_form(p),
{
    lemma_odd8_form(p);
    reveal(pass8);
    reveal(plus);
    reveal(minus);
    assert(pass8(p) =~= pass8_form(p));
}

proof fn lemma_sums(a: i32, b: i32, c: i32, d: i32)
    ensures
        plus(plus(a, b), plus(c, d)) == plus(plus(a, c), plus(b, d)),
        minus(plus(a, b), plus(c, d)) == plus(minus(a, c), minus(b, d)),
{
    reveal(plus);
    reveal(minus);
}

spec fn halves_add(x: i32, y: i32, s: int) -> bool {
    (plus(x, y) >> s) == plus(x >> s, y >> s)
}

spec fn pass_form_adds(p: Seq<i32>, q: Seq<i32>) -> bool {
    let (c0, c1, c2, c3) = odd8_form(p);
    let (d0, d1, d2, d3) = odd8_form(q);
    &&& halves_add(p[1], q[1], 1)
    &&& halves_add(p[2], q[2], 1)
    &&& halves_add(p[3], q[3], 1)
    &&& halves_add(p[5], q[5], 1)
    &&& halves_add(p[6], q[6], 1)
    &&& halves_add(p[7], q[7], 1)
    &&& halves_add(c0, d0, 2)
    &&& halves_add(c1, d1, 2)
    &&& halves_add(c2, d2, 2)
    &&& halves_add(c3, d3, 2)
}

proof fn lemma_pass_form_adds(p: Seq<i32>, q: Seq<i32>)
    requires
        pass_adds(p, q),
    ensures
        pass_form_adds(p, q),
{
    reveal(plus);
    lemma_odd8_form(p);
    lemma_odd8_form(q);
    assert(shifts_add(odd8(p)[0], odd8(q)[0], 2));
    assert(shifts_add(odd8(p)[1], odd8(q)[1], 2));
    assert(shifts_add(odd8(p)[2], odd8(q)[2], 2));
    assert(shifts_add(odd8(p)[3], odd8(q)[3], 2));
}

spec fn is_sum8(r: Seq<i32>, p: Seq<i32>, q: Seq<i32>) -> bool {
    &&& r[0] == plus(p[0], q[0])
    &&& r[1] == plus(p[1], q[1])
    &&& r[2] == plus(p[2], q[2])
    &&& r[3] == plus(p[3], q[3])
    &&& r[4] == plus(p[4], q[4])
    &&& r[5] == plus(p[5], q[5])
    &&& r[6] == plus(p[6], q[6])
    &&& r[7] == plus(p[7], q[7])
}

proof fn lemma_odd8_adds(r: Seq<i32>, p: Seq<i32>, q: Seq<i32>)
    requires
        pass_form_adds(p, q),
        is_sum8(r, p, q),
    ensures
        odd8_form(r).0 == plus(odd8_form(p).0, odd8_form(q).0),
        odd8_form(r).1 == plus(odd8_form(p).1, odd8_form(q).1),
        odd8_form(r).2 == plus(odd8_form(p).2, odd8_form(q).2),
        odd8_form(r).3 == plus(odd8_form(p).3, odd8_form(q).3),
{
    lemma_sums(p[5], q[5], p[3], q[3]);
    let (a, b) = (minus(p[5], p[3]), minus(q[5], q[3]));
    lemma_sums(a, b, p[7], q[7]);
    lemma_sums(minus(a, p[7]), minus(b, q[7]), p[7] >> 1, q[7] >> 1);
    lemma_sums(p[1], q[1], p[7], q[7]);
    let (a, b) = (plus(p[1], p[7]), plus(q[1], q[7]));
    lemma_sums(a, b, p[3], q[3]);
    lemma_sums(minus(a, p[3]), minus(b, q[3]), p[3] >> 1, q[3] >> 1);
    lemma_sums(p[7], q[7], p[1], q[1]);
    let (a, b) = (minus(p[7], p[1]), minus(q[7], q[1]));
    lemma_sums(a, b, p[5], q[5]);
    lemma_sums(plus(a, p[5]), plus(b, q[5]), p[5] >> 1, q[5] >> 1);
    lemma_sums(p[3], q[3], p[5], q[5]);
    let (a, b) = (plus(p[3], p[5]), plus(q[3], q[5]));
    lemma_sums(a, b, p[1], q[1]);
    lemma_sums(plus(a, p[1]), plus(b, q[1]), p[1] >> 1, q[1] >> 1);
}

proof fn lemma_pass_form(r: Seq<i32>, p: Seq<i32>, q: Seq<i32>)
    requires
        pass_form_adds(p, q),
        is_sum8(r, p, q),
    ensures
        is_sum8(pass8_form(r), pass8_form(p), pass8_form(q)),
{
    lemma_odd8_adds(r, p, q);
    let (c0, c1, c2, c3) = odd8_form(p);
    let (d0, d1, d2, d3) = odd8_form(q);
    lemma_sums(p[0], q[0], p[4], q[4]);
    lemma_sums(p[6], q[6], p[2] >> 1, q[2] >> 1);
    lemma_sums(p[2], q[2], p[6] >> 1, q[6] >> 1);
    let (a0, e0) = (plus(p[0], p[4]), plus(q[0], q[4]));
    let (a1, e1) = (minus(p[0], p[4]), minus(q[0], q[4]));
    let (a2, e2) = (minus(p[6], p[2] >> 1), minus(q[6], q[2] >> 1));
    let (a3, e3) = (plus(p[2], p[6] >> 1), plus(q[2], q[6] >> 1));
    lemma_sums(a0, e0, a3, e3);
    lemma_sums(a1, e1, a2, e2);
    lemma_sums(c0, d0, c3 >> 2, d3 >> 2);
    lemma_sums(c1, d1, c2 >> 2, d2 >> 2);
    lemma_sums(c2, d2, c1 >> 2, d1 >> 2);
    lemma_sums(c3, d3, c0 >> 2, d0 >> 2);
    let (b0, f0) = (plus(a0, a3), plus(e0, e3));
    let (b2, f2) = (minus(a1, a2), minus(e1, e2));
    let (b4, f4) = (plus(a1, a2), plus(e1, e2));
    let (b6, f6) = (minus(a0, a3), minus(e0, e3));
    let (b1, f1) = (plus(c0, c3 >> 2), plus(d0, d3 >> 2));
    let (b3, f3) = (plus(c1, c2 >> 2), plus(d1, d2 >> 2));
    let (b5, f5) = (minus(c2, c1 >> 2), minus(d2, d1 >> 2));
    let (b7, f7) = (minus(c3, c0 >> 2), minus(d3, d0 >> 2));
    lemma_sums(b0, f0, b7, f7);
    lemma_sums(b2, f2, b5, f5);
    lemma_sums(b4, f4, b3, f3);
    lemma_sums(b6, f6, b1, f1);
}

proof fn lemma_pass8_adds(p: Seq<i32>, q: Seq<i32>)
    requires
        pass_adds(p, q),
    ensures
        pass8(added8(p, q)) == added8(pass8(p), pass8(q)),
{
    let r = added8(p, q);
    lemma_pass_form_adds(p, q);
    assert(is_sum8(r, p, q)) by {
        reveal(plus);
    }
    lemma_pass_form(r, p, q);
    lemma_pass8_form(p);
    lemma_pass8_form(q);
    lemma_pass8_form(r);
    assert(pass8(r) =~= added8(pass8(p), pass8(q))) by {
        reveal(plus);
    }
}

/// The 8x8 inverse transform is linear wherever its shifts are: the transform of a
/// sum of blocks is the sum of their transforms.
pub proof fn law_inverse_8x8_is_linear(a: Block, b: Block, i: int, j: int)
    requires
        forall|y: int| 0 <= y < 8 ==> pass_adds(#[trigger] row8(a, y), row8(b, y)),
        forall|x: int|
            0 <= x < 8 ==> pass_adds(#[trigger] col8(rows8(a), x), col8(rows8(b), x)),
        0 <= i < 8,
        0 <= j < 8,
    ensures
        inverse8(added(a, b))(i, j) == inverse8(a)(i, j).wrapping_add(inverse8(b)(i, j)),
{
    let s = added(a, b);
    let (f, g, h) = (rows8(a), rows8(b), rows8(s));
    assert forall|y: int| 0 <= y < 8 implies #[trigger] h(y, j) == f(y, j).wrapping_add(g(y, j)) by {
        assert(row8(s, y) =~= added8(row8(a, y), row8(b, y)));
        lemma_pass8_adds(row8(a, y), row8(b, y));
    }
    assert(col8(h, j) =~= added8(col8(f, j), col8(g, j)));
    lemma_pass8_adds(col8(f, j), col8(g, j));
}

proof fn lemma_shl_doubles(v: i32, s: u32)
    requires
        s <= 7,
    ensures
        v.wrapping_shl((s + 1) as u32) == v.wrapping_shl(s).wrapping_add(v.wrapping_shl(s)),
{
    let x = v << s;
    let y = v << ((s + 1) as u32);
    assert(y == (if 2 * x > 0x7fff_ffff {
        2 * x - 0x1_0000_0000
    } else if 2 * x < -0x8000_0000 {
        2 * x + 0x1_0000_0000
    } else {
        2 * x
    })) by (bit_vector)
        requires
            s <= 7,
            x == v << s,
            y == v << ((s + 1) as u32),
    ;
}

/// Six steps of the quantiser double the dequantised values, as far as they fit
/// the register, from the step on at which nothing is rounded.
pub proof fn law_dequant_doubles(levels: Block, qp: int, weight: Block, i: int, j: int)
    requires
        24 <= qp <= 45,
    ensures
        ({
            let x = dequant4(levels, qp, weight)(i, j);
            let y = dequant4(levels, qp + 6, weight)(i, j);
            &&& y == x.wrapping_add(x)
            &&& -0x4000_0000 <= x < 0x4000_0000 ==> y == 2 * x
        }),
{
    assert((qp + 6) % 6 == qp % 6 && (qp + 6) / 6 == qp / 6 + 1);
    let v = levels(i, j).wrapping_mul(weight(i, j).wrapping_mul(norm4(qp % 6, i, j)));
    lemma_shl_doubles(v, (qp / 6 - 4) as u32);
}

/// A flat-scaled level of up to 4096 in size fits the register at every step of
/// the quantiser, so that its value doubles with six steps.
pub proof fn law_flat_dequant_doubles(levels: Block, qp: int, i: int, j: int)
    requires
        24 <= qp <= 45,
        -4096 <= levels(i, j) <= 4096,
        0 <= i < 4,
        0 <= j < 4,
    ensures
        dequant4(levels, qp + 6, block4(FLAT_WEIGHT_4X4))(i, j) == 2 * dequant4(
            levels,
            qp,
            block4(FLAT_WEIGHT_4X4),
        )(i, j),
{
    let w = block4(FLAT_WEIGHT_4X4);
    law_dequant_doubles(levels, qp, w, i, j);
    let l = levels(i, j);
    let n = norm4(qp % 6, i, j);
    assert(w(i, j) == 16);
    assert(10 <= n <= 29);
    let v = (l * (16 * n)) as i32;
    assert(-4096 * 464 <= l * (16 * n) <= 4096 * 464) by (nonlinear_arith)
        requires
            -4096 <= l <= 4096,
            10 <= n <= 29,
    ;
    let s = (qp / 6 - 4) as u32;
    let x = v << s;
    assert(-0x4000_0000 <= x < 0x4000_0000) by (bit_vector)
        requires
            -1900544 <= v <= 1900544,
            s <= 3,
            x == v << s,
    ;
}

/// A zero level stays zero.
pub proof fn law_dequant_keeps_zero(levels: Block, qp: int, weight: Block, i: int, j: int)
    requires
        0 <= qp <= 51,
        levels(i, j) == 0,
    ensures
        dequant4(levels, qp, weight)(i, j) == 0,
{
    let e = qp / 6;
    if e >= 4 {
        let s = (e - 4) as u32;
        assert(0i32 << s == 0) by (bit_vector)
            requires
                s <= 4,
        ;
    } else {
        let s = (3 - e) as u32;
        assert((1i32 << s) >> ((s + 1) as u32) == 0 && 0 <= (1i32 << s)) by (bit_vector)
            requires
                s <= 3,
        ;
    }
}

} // verus!

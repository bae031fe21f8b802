//! Luma interpolation sixteen samples at a time, on the vector types of the
//! `wide` crate. It covers the fractional positions that need only the
//! horizontal and vertical filters, whose values fit 16 bits, and only blocks
//! whose filter taps lie inside the plane.

use crate::mvc::arith::{clip, lemma_i16_shr, lemma_row_major};
use crate::mvc::mc::{across, down, halved, luma_sample, mixed, tap6, Sampler};
use vstd::prelude::*;

verus! {

/// The sampler of the rows of `w` samples in `data`, for positions inside.
pub open spec fn unbordered(data: Seq<u8>, w: int) -> Sampler {
    |x: int, y: int| data[y * w + x] as int
}

// ---- lanes ----

/// Widens sixteen bytes to 16-bit lanes: `wide::i16x16::from` on a
/// `wide::u8x16`, which extends each lane with zeros.
#[verifier::external_body]
fn widen(bytes: [u8; 16]) -> (r: [i16; 16])
    ensures
        forall|i: int| 0 <= i < 16 ==> #[trigger] r[i] == bytes[i],
{
    wide::i16x16::from(wide::u8x16::new(bytes)).to_array()
}

/// Adds two vectors lane by lane: `Add` of `wide::i16x16`, which wraps.
#[verifier::external_body]
fn lanes_add(a: [i16; 16], b: [i16; 16]) -> (r: [i16; 16])
    ensures
        forall|i: int| 0 <= i < 16 ==> #[trigger] r[i] == a[i].wrapping_add(b[i]),
{
    (wide::i16x16::new(a) + wide::i16x16::new(b)).to_array()
}

/// Subtracts two vectors lane by lane: `Sub` of `wide::i16x16`, which wraps.
#[verifier::external_body]
fn lanes_sub(a: [i16; 16], b: [i16; 16]) -> (r: [i16; 16])
    ensures
        forall|i: int| 0 <= i < 16 ==> #[trigger] r[i] == a[i].wrapping_sub(b[i]),
{
    (wide::i16x16::new(a) - wide::i16x16::new(b)).to_array()
}

/// Adds one value to every lane: `Add<i16>` of `wide::i16x16`, which wraps.
#[verifier::external_body]
fn lanes_add_each(a: [i16; 16], v: i16) -> (r: [i16; 16])
    ensures
        forall|i: int| 0 <= i < 16 ==> #[trigger] r[i] == a[i].wrapping_add(v),
{
    (wide::i16x16::new(a) + v).to_array()
}

/// Multiplies every lane by one value: `Mul<i16>` of `wide::i16x16`, which
/// keeps the low half of each product.
#[verifier::external_body]
fn lanes_mul_each(a: [i16; 16], v: i16) -> (r: [i16; 16])
    ensures
        forall|i: int| 0 <= i < 16 ==> #[trigger] r[i] == a[i].wrapping_mul(v),
{
    (wide::i16x16::new(a) * v).to_array()
}

/// Shifts every lane right, keeping its sign: `Shr<u32>` of `wide::i16x16`, for
/// shifts below the lane's width.
#[verifier::external_body]
fn lanes_shr(a: [i16; 16], n: u32) -> (r: [i16; 16])
    requires
        n < 16,
    ensures
        forall|i: int| 0 <= i < 16 ==> #[trigger] r[i] == a[i] >> n,
{
    (wide::i16x16::new(a) >> n).to_array()
}

/// The larger value of each lane: `wide::i16x16::max`.
#[verifier::external_body]
fn lanes_max(a: [i16; 16], b: [i16; 16]) -> (r: [i16; 16])
    ensures
        forall|i: int|
            0 <= i < 16 ==> #[trigger] r[i] == (if a[i] < b[i] {
                b[i]
            } else {
                a[i]
            }),
{
    wide::i16x16::new(a).max(wide::i16x16::new(b)).to_array()
}

/// The smaller value of each lane: `wide::i16x16::min`.
#[verifier::external_body]
fn lanes_min(a: [i16; 16], b: [i16; 16]) -> (r: [i16; 16])
    ensures
        forall|i: int|
            0 <= i < 16 ==> #[trigger] r[i] == (if b[i] < a[i] {
                b[i]
            } else {
                a[i]
            }),
{
    wide::i16x16::new(a).min(wide::i16x16::new(b)).to_array()
}

// ---- filters ----

/// The fractional positions covered here: all but those that involve the
/// sample in the middle of four.
pub open spec fn covered(fx: int, fy: int) -> bool {
    !((fx == 2 && 1 <= fy <= 3) || (fy == 2 && (fx == 1 || fx == 3)))
}

/// Whether a fractional position is covered here.
pub fn handles(fx: i32, fy: i32) -> (r: bool)
    ensures
        r == covered(fx as int, fy as int),
{
    !((fx == 2 && 1 <= fy && fy <= 3) || (fy == 2 && (fx == 1 || fx == 3)))
}

fn load(data: &[u8], w: usize, x: usize, y: usize) -> (r: [i16; 16])
    requires
        y * w + x + 16 <= data@.len(),
    ensures
        forall|i: int| 0 <= i < 16 ==> #[trigger] r[i] == unbordered(data@, w as int)(x + i, y as int),
        forall|i: int| 0 <= i < 16 ==> 0 <= #[trigger] r[i] <= 255,
{
    let n: usize = data.len();
    assert(0 <= y * w) by (nonlinear_arith)
        requires
            0 <= y,
            0 <= w,
    ;
    let off: usize = y * w + x;
    let mut bytes: [u8; 16] = [0u8; 16];
    for i in 0..16usize
        invariant
            off + 16 <= data@.len(),
            data@.len() == n,
            forall|j: int| 0 <= j < i ==> #[trigger] bytes[j] == data@[off + j],
    {
        bytes[i] = data[off + i];
    }
    let r = widen(bytes);
    proof {
        assert forall|i: int| 0 <= i < 16 implies #[trigger] r[i] == unbordered(data@, w as int)(
            x + i,
            y as int,
        ) by {
            assert(bytes[i] == data@[off + i]);
        }
    }
    r
}

fn six_taps(
    a: [i16; 16],
    b: [i16; 16],
    c: [i16; 16],
    d: [i16; 16],
    e: [i16; 16],
    f: [i16; 16],
) -> (r: [i16; 16])
    requires
        forall|i: int| 0 <= i < 16 ==> 0 <= #[trigger] a[i] <= 255,
        forall|i: int| 0 <= i < 16 ==> 0 <= #[trigger] b[i] <= 255,
        forall|i: int| 0 <= i < 16 ==> 0 <= #[trigger] c[i] <= 255,
        forall|i: int| 0 <= i < 16 ==> 0 <= #[trigger] d[i] <= 255,
        forall|i: int| 0 <= i < 16 ==> 0 <= #[trigger] e[i] <= 255,
        forall|i: int| 0 <= i < 16 ==> 0 <= #[trigger] f[i] <= 255,
    ensures
        forall|i: int|
            0 <= i < 16 ==> #[trigger] r[i] == tap6(
                a[i] as int,
                b[i] as int,
                c[i] as int,
                d[i] as int,
                e[i] as int,
                f[i] as int,
            ),
        forall|i: int| 0 <= i < 16 ==> -2550 <= #[trigger] r[i] <= 10710,
{
    let outer = lanes_add(a, f);
    let inner = lanes_add(c, d);
    let mid = lanes_add(b, e);
    let inner20 = lanes_mul_each(inner, 20);
    let mid5 = lanes_mul_each(mid, 5);
    let sum = lanes_add(outer, inner20);
    let r = lanes_sub(sum, mid5);
    proof {
        assert forall|i: int| 0 <= i < 16 implies #[trigger] r[i] == tap6(
            a[i] as int,
            b[i] as int,
            c[i] as int,
            d[i] as int,
            e[i] as int,
            f[i] as int,
        ) by {
            assert(outer[i] == a[i] + f[i]);
            assert(inner[i] == c[i] + d[i]);
            assert(mid[i] == b[i] + e[i]);
            assert(inner20[i] == 20 * inner[i]);
            assert(mid5[i] == 5 * mid[i]);
            assert(sum[i] == outer[i] + inner20[i]);
        }
    }
    r
}

fn limit(v: [i16; 16]) -> (r: [i16; 16])
    ensures
        forall|i: int| 0 <= i < 16 ==> #[trigger] r[i] == clip(0, 255, v[i] as int),
        forall|i: int| 0 <= i < 16 ==> 0 <= #[trigger] r[i] <= 255,
{
    let lo = lanes_max(v, [0i16; 16]);
    let r = lanes_min(lo, [255i16; 16]);
    proof {
        assert forall|i: int| 0 <= i < 16 implies #[trigger] r[i] == clip(0, 255, v[i] as int) by {
            let z = lo[i];
        }
    }
    r
}

fn half(v: [i16; 16]) -> (r: [i16; 16])
    requires
        forall|i: int| 0 <= i < 16 ==> -2550 <= #[trigger] v[i] <= 10710,
    ensures
        forall|i: int| 0 <= i < 16 ==> #[trigger] r[i] == halved(v[i] as int),
        forall|i: int| 0 <= i < 16 ==> 0 <= #[trigger] r[i] <= 255,
{
    let s = lanes_add_each(v, 16);
    let t = lanes_shr(s, 5);
    let r = limit(t);
    proof {
        assert forall|i: int| 0 <= i < 16 implies #[trigger] r[i] == halved(v[i] as int) by {
            assert(s[i] == v[i] + 16);
            lemma_i16_shr(s[i]);
            assert(t[i] == s[i] >> 5);
        }
    }
    r
}

fn average(a: [i16; 16], b: [i16; 16]) -> (r: [i16; 16])
    requires
        forall|i: int| 0 <= i < 16 ==> 0 <= #[trigger] a[i] <= 255,
        forall|i: int| 0 <= i < 16 ==> 0 <= #[trigger] b[i] <= 255,
    ensures
        forall|i: int| 0 <= i < 16 ==> #[trigger] r[i] == mixed(a[i] as int, b[i] as int),
        forall|i: int| 0 <= i < 16 ==> 0 <= #[trigger] r[i] <= 255,
{
    let s = lanes_add(a, b);
    let t = lanes_add_each(s, 1);
    let r = lanes_shr(t, 1);
    proof {
        assert forall|i: int| 0 <= i < 16 implies #[trigger] r[i] == mixed(a[i] as int, b[i] as int)
            && 0 <= r[i] <= 255 by {
            assert(s[i] == a[i] + b[i]);
            assert(t[i] == s[i] + 1);
            lemma_i16_shr(t[i]);
        }
    }
    r
}

/// The taps of 16 columns from `x` on in row `y` lie inside the rows of `data`.
pub open spec fn taps_inside(len: int, w: int, x: int, y: int) -> bool {
    &&& x >= 2
    &&& y >= 2
    &&& x + 19 <= w
    &&& (y + 4) * w <= len
}

fn across_row(data: &[u8], w: usize, x: usize, y: usize) -> (r: [i16; 16])
    requires
        x >= 2,
        x + 19 <= w,
        (y + 1) * w <= data@.len(),
    ensures
        forall|i: int|
            0 <= i < 16 ==> #[trigger] r[i] == halved(
                across(unbordered(data@, w as int), x + i, y as int),
            ),
        forall|i: int| 0 <= i < 16 ==> 0 <= #[trigger] r[i] <= 255,
{
    assert((y + 1) * w == y * w + w) by (nonlinear_arith);
    let ghost s = unbordered(data@, w as int);
    let (a, b, c) = (load(data, w, x - 2, y), load(data, w, x - 1, y), load(data, w, x, y));
    let (d, e, f) = (load(data, w, x + 1, y), load(data, w, x + 2, y), load(data, w, x + 3, y));
    let v = six_taps(a, b, c, d, e, f);
    let r = half(v);
    proof {
        assert forall|i: int| 0 <= i < 16 implies #[trigger] r[i] == halved(
            across(s, x + i, y as int),
        ) by {
            assert(a[i] == s((x - 2) + i, y as int));
            assert(b[i] == s((x - 1) + i, y as int));
            assert(c[i] == s(x + i, y as int));
            assert(d[i] == s((x + 1) + i, y as int));
            assert(e[i] == s((x + 2) + i, y as int));
            assert(f[i] == s((x + 3) + i, y as int));
            assert(v[i] == across(s, x + i, y as int));
        }
    }
    r
}

fn down_row(data: &[u8], w: usize, x: usize, y: usize) -> (r: [i16; 16])
    requires
        y >= 2,
        x + 16 <= w,
        (y + 4) * w <= data@.len(),
    ensures
        forall|i: int|
            0 <= i < 16 ==> #[trigger] r[i] == halved(
                down(unbordered(data@, w as int), x + i, y as int),
            ),
        forall|i: int| 0 <= i < 16 ==> 0 <= #[trigger] r[i] <= 255,
{
    let n: usize = data.len();
    proof {
        lemma_rows(w as int, y as int);
    }
    let ghost s = unbordered(data@, w as int);
    let (a, b, c) = (load(data, w, x, y - 2), load(data, w, x, y - 1), load(data, w, x, y));
    let (d, e, f) = (load(data, w, x, y + 1), load(data, w, x, y + 2), load(data, w, x, y + 3));
    let v = six_taps(a, b, c, d, e, f);
    let r = half(v);
    proof {
        assert forall|i: int| 0 <= i < 16 implies #[trigger] r[i] == halved(
            down(s, x + i, y as int),
        ) by {
            assert(a[i] == s(x + i, y - 2));
            assert(b[i] == s(x + i, y - 1));
            assert(c[i] == s(x + i, y as int));
            assert(d[i] == s(x + i, y + 1));
            assert(e[i] == s(x + i, y + 2));
            assert(f[i] == s(x + i, y + 3));
            assert(v[i] == down(s, x + i, y as int));
        }
    }
    r
}

proof fn lemma_rows(w: int, y: int)
    by (nonlinear_arith)
    requires
        w >= 16,
        y >= 0,
    ensures
        (y + 4) * w == y * w + 4 * w,
        (y - 2) * w == y * w - 2 * w,
        (y - 1) * w == y * w - w,
        (y + 1) * w == y * w + w,
        (y + 2) * w == y * w + 2 * w,
        (y + 3) * w == y * w + 3 * w,
        y * w >= 0,
        y <= y * w,
{
}

fn luma_row(data: &[u8], w: usize, x: usize, y: usize, fx: i32, fy: i32) -> (r: [i16; 16])
    requires
        taps_inside(data@.len() as int, w as int, x as int, y as int),
        0 <= fx < 4,
        0 <= fy < 4,
        covered(fx as int, fy as int),
    ensures
        forall|i: int|
            0 <= i < 16 ==> #[trigger] r[i] == luma_sample(
                unbordered(data@, w as int),
                fx as int,
                fy as int,
                x + i,
                y as int,
            ),
        forall|i: int| 0 <= i < 16 ==> 0 <= #[trigger] r[i] <= 255,
{
    let n: usize = data.len();
    proof {
        reveal(luma_sample);
        lemma_rows(w as int, y as int);
    }
    let col: usize = if fx == 3 {
        x + 1
    } else {
        x
    };
    let row: usize = if fy == 3 {
        y + 1
    } else {
        y
    };
    proof {
        assert((row + 1) * w == row * w + w) by (nonlinear_arith);
    }
    let ghost s = unbordered(data@, w as int);
    if fy == 0 {
        if fx == 0 {
            return load(data, w, x, y);
        }
        let b = across_row(data, w, x, y);
        if fx == 2 {
            return b;
        }
        let g = load(data, w, col, y);
        proof {
            assert forall|i: int| 0 <= i < 16 implies #[trigger] g[i] == s(
                if fx == 3 {
                    x + i + 1
                } else {
                    x + i
                },
                y as int,
            ) by {
                assert(g[i] == s(col + i, y as int));
            }
        }
        average(g, b)
    } else if fx == 0 {
        let h = down_row(data, w, x, y);
        if fy == 2 {
            return h;
        }
        let g = load(data, w, x, row);
        average(g, h)
    } else {
        let b = across_row(data, w, x, row);
        let h = down_row(data, w, col, y);
        let r = average(b, h);
        proof {
            assert forall|i: int| 0 <= i < 16 implies #[trigger] r[i] == luma_sample(
                s,
                fx as int,
                fy as int,
                x + i,
                y as int,
            ) by {
                assert(b[i] == halved(across(s, x + i, row as int)));
                assert(h[i] == halved(down(s, col + i, y as int)));
                assert(col + i == (if fx == 3 {
                    x + i + 1
                } else {
                    x + i
                }));
            }
        }
        r
    }
}

/// Fill a `bw` by `bh` luma block at a covered fractional position, row by row,
/// from position (`ox`, `oy`) of the rows of `w` samples in `data`.
pub fn luma_block(
    data: &[u8],
    w: usize,
    ox: i32,
    oy: i32,
    fx: i32,
    fy: i32,
    bw: usize,
    bh: usize,
    out: &mut [u8],
)
    requires
        ox >= 2,
        oy >= 2,
        ox + 19 <= w,
        (oy + bh + 3) * w <= data@.len(),
        0 <= fx < 4,
        0 <= fy < 4,
        covered(fx as int, fy as int),
        bw <= 16,
        bw * bh <= old(out)@.len(),
    ensures
        final(out)@.len() == old(out)@.len(),
        forall|k: int|
            0 <= k < bw * bh ==> #[trigger] final(out)@[k] == luma_sample(
                unbordered(data@, w as int),
                fx as int,
                fy as int,
                ox + k % (bw as int),
                oy + k / (bw as int),
            ),
        forall|k: int|
            bw * bh <= k < old(out)@.len() ==> #[trigger] final(out)@[k] == old(out)@[k],
{
    let ghost s = unbordered(data@, w as int);
    let n: usize = data.len();
    let m: usize = out.len();
    let x: usize = ox as usize;
    assert(0 * bw == 0) by (nonlinear_arith);
    for j in 0..bh
        invariant
            ox >= 2,
            oy >= 2,
            ox + 19 <= w,
            x == ox,
            n == data@.len(),
            m == out@.len(),
            (oy + bh + 3) * w <= data@.len(),
            0 <= fx < 4,
            0 <= fy < 4,
            covered(fx as int, fy as int),
            bw <= 16,
            bw * bh <= m,
            s == unbordered(data@, w as int),
            out@.len() == old(out)@.len(),
            forall|k: int|
                0 <= k < j * bw ==> #[trigger] out@[k] == luma_sample(
                    s,
                    fx as int,
                    fy as int,
                    ox + k % (bw as int),
                    oy + k / (bw as int),
                ),
            forall|k: int|
                bw * bh <= k < old(out)@.len() ==> #[trigger] out@[k] == old(out)@[k],
    {
        proof {
            assert((oy + j + 4) * w <= (oy + bh + 3) * w) by (nonlinear_arith)
                requires
                    j + 1 <= bh,
                    w >= 0,
            ;
            lemma_rows(w as int, oy + j);
        }
        let y: usize = oy as usize + j;
        let r = luma_row(data, w, x, y, fx, fy);
        assert(j * bw + bw <= bw * bh) by (nonlinear_arith)
            requires
                j + 1 <= bh,
                bw >= 0,
        ;
        assert(0 <= j * bw) by (nonlinear_arith)
            requires
                j >= 0,
                bw >= 0,
        ;
        for i in 0..bw
            invariant
                j < bh,
                bw <= 16,
                j * bw + bw <= bw * bh <= m,
                0 <= j * bw,
                m == out@.len(),
                y == oy + j,
                x == ox,
                s == unbordered(data@, w as int),
                forall|a: int|
                    0 <= a < 16 ==> #[trigger] r[a] == luma_sample(
                        s,
                        fx as int,
                        fy as int,
                        x + a,
                        y as int,
                    ),
                forall|a: int| 0 <= a < 16 ==> 0 <= #[trigger] r[a] <= 255,
                out@.len() == old(out)@.len(),
                forall|k: int|
                    0 <= k < j * bw + i ==> #[trigger] out@[k] == luma_sample(
                        s,
                        fx as int,
                        fy as int,
                        ox + k % (bw as int),
                        oy + k / (bw as int),
                    ),
                forall|k: int|
                    bw * bh <= k < old(out)@.len() ==> #[trigger] out@[k] == old(out)@[k],
        {
            proof {
                lemma_row_major(bw as int, j as int, i as int);
            }
            out[j * bw + i] = r[i] as u8;
        }
        assert((j + 1) * bw == j * bw + bw) by (nonlinear_arith);
    }
    assert(bh * bw == bw * bh) by (nonlinear_arith);
}

/// Inside the plane, the border never comes into play.
pub proof fn lemma_interior(data: Seq<u8>, w: int, h: int, x: int, y: int, fx: int, fy: int)
    requires
        x >= 2,
        y >= 2,
        x + 3 < w,
        y + 3 < h,
    ensures
        luma_sample(crate::mvc::mc::bordered(data, w, h), fx, fy, x, y) == luma_sample(
            unbordered(data, w),
            fx,
            fy,
            x,
            y,
        ),
{
    reveal(luma_sample);
}

} // verus!

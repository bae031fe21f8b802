//! Small integer helpers shared by the whole pipeline: clipping, and the facts
//! that tie shifts and masks to division and remainder.

use vstd::prelude::*;

verus! {

/// `v` limited to `lo ..= hi`.
pub open spec fn clip(lo: int, hi: int, v: int) -> int {
    if v < lo {
        lo
    } else if v > hi {
        hi
    } else {
        v
    }
}

/// Limit `v` to `lo ..= hi`.
pub fn clip3(lo: i32, hi: i32, v: i32) -> (r: i32)
    requires
        lo <= hi,
    ensures
        r == clip(lo as int, hi as int, v as int),
        lo <= r <= hi,
{
    if v < lo {
        lo
    } else if v > hi {
        hi
    } else {
        v
    }
}

/// Limit `v` to an 8-bit sample value.
pub fn clip1(v: i32) -> (r: i32)
    ensures
        r == clip(0, 255, v as int),
        0 <= r <= 255,
{
    clip3(0, 255, v)
}

/// The magnitude of `v`.
pub open spec fn magnitude(v: int) -> int {
    if v < 0 {
        -v
    } else {
        v
    }
}

/// Right shifts of a signed integer are floor divisions; masks are remainders.
pub proof fn lemma_i32_shr(x: i32)
    ensures
        x >> 1 == x / 2,
        x >> 2 == x / 4,
        x >> 3 == x / 8,
        x >> 4 == x / 16,
        x >> 5 == x / 32,
        x >> 6 == x / 64,
        x >> 8 == x / 256,
        x >> 10 == x / 1024,
        x & 1 == x % 2,
        x & 3 == x % 4,
        x & 7 == x % 8,
{
    lemma_i32_shr_bits(x);
    let v = x as int;
    lemma_floor(v, 2, (x >> 1) as int, (x & 1) as int);
    lemma_floor(v, 4, (x >> 2) as int, (x & 3) as int);
    lemma_floor(v, 8, (x >> 3) as int, (x & 7) as int);
    lemma_floor(v, 16, (x >> 4) as int, (x & 15) as int);
    lemma_floor(v, 32, (x >> 5) as int, (x & 31) as int);
    lemma_floor(v, 64, (x >> 6) as int, (x & 63) as int);
    lemma_floor(v, 256, (x >> 8) as int, (x & 255) as int);
    lemma_floor(v, 1024, (x >> 10) as int, (x & 1023) as int);
}

proof fn lemma_i32_shr_bits(x: i32)
    by (bit_vector)
    ensures
        x - 2 * (x >> 1) == x & 1 && 0 <= x & 1 < 2,
        x - 4 * (x >> 2) == x & 3 && 0 <= x & 3 < 4,
        x - 8 * (x >> 3) == x & 7 && 0 <= x & 7 < 8,
        x - 16 * (x >> 4) == x & 15 && 0 <= x & 15 < 16,
        x - 32 * (x >> 5) == x & 31 && 0 <= x & 31 < 32,
        x - 64 * (x >> 6) == x & 63 && 0 <= x & 63 < 64,
        x - 256 * (x >> 8) == x & 255 && 0 <= x & 255 < 256,
        x - 1024 * (x >> 10) == x & 1023 && 0 <= x & 1023 < 1024,
{
}

/// The same for 64-bit signed integers.
pub proof fn lemma_i64_shr(x: i64)
    ensures
        x >> 1 == x / 2,
        x >> 2 == x / 4,
        x >> 3 == x / 8,
        x >> 4 == x / 16,
        x >> 5 == x / 32,
        x >> 6 == x / 64,
        x >> 8 == x / 256,
        x & 1 == x % 2,
        x & 15 == x % 16,
{
    lemma_i64_shr_bits(x);
    let v = x as int;
    lemma_floor(v, 2, (x >> 1) as int, (x & 1) as int);
    lemma_floor(v, 4, (x >> 2) as int, (x & 3) as int);
    lemma_floor(v, 8, (x >> 3) as int, (x & 7) as int);
    lemma_floor(v, 16, (x >> 4) as int, (x & 15) as int);
    lemma_floor(v, 32, (x >> 5) as int, (x & 31) as int);
    lemma_floor(v, 64, (x >> 6) as int, (x & 63) as int);
    lemma_floor(v, 256, (x >> 8) as int, (x & 255) as int);
}

proof fn lemma_floor(v: int, d: int, q: int, r: int)
    requires
        v - d * q == r,
        0 <= r < d,
    ensures
        v / d == q,
        v % d == r,
{
    assert(v == q * d + r) by (nonlinear_arith)
        requires
            v - d * q == r,
    ;
    vstd::arithmetic::div_mod::lemma_fundamental_div_mod_converse(v, d, q, r);
}

proof fn lemma_i64_shr_bits(x: i64)
    by (bit_vector)
    ensures
        x - 2 * (x >> 1) == x & 1 && 0 <= x & 1 < 2,
        x - 4 * (x >> 2) == x & 3 && 0 <= x & 3 < 4,
        x - 8 * (x >> 3) == x & 7 && 0 <= x & 7 < 8,
        x - 16 * (x >> 4) == x & 15 && 0 <= x & 15 < 16,
        x - 32 * (x >> 5) == x & 31 && 0 <= x & 31 < 32,
        x - 64 * (x >> 6) == x & 63 && 0 <= x & 63 < 64,
        x - 256 * (x >> 8) == x & 255 && 0 <= x & 255 < 256,
{
}

/// The same for 16-bit signed integers.
pub proof fn lemma_i16_shr(x: i16)
    ensures
        x >> 1 == x / 2,
        x >> 5 == x / 32,
{
    assert(x - 2 * (x >> 1) == x & 1 && 0 <= x & 1 < 2) by (bit_vector);
    assert(x - 32 * (x >> 5) == x & 31 && 0 <= x & 31 < 32) by (bit_vector);
}

/// Shifts and masks of an unsigned 32-bit integer.
pub proof fn lemma_u32_bits(x: u32)
    by (bit_vector)
    ensures
        x >> 1 == x / 2,
        x >> 6 == x / 64,
        x & 1 == x % 2,
        x & 3 == x % 4,
{
}

/// Row-major indices: the row and column come back by division.
pub proof fn lemma_row_major(w: int, y: int, x: int)
    requires
        0 <= x < w,
    ensures
        (y * w + x) / w == y,
        (y * w + x) % w == x,
{
    vstd::arithmetic::div_mod::lemma_fundamental_div_mod_converse(y * w + x, w, y, x);
}

/// Row-major indices stay inside the rows they belong to.
pub proof fn lemma_row_bounds(w: int, h: int, y: int, x: int)
    requires
        0 <= x < w,
        0 <= y < h,
    ensures
        0 <= y * w <= y * w + x < w * h,
        y * w + w <= w * h,
{
    assert(0 <= y * w && y * w + w <= w * h) by (nonlinear_arith)
        requires
            0 <= y < h,
            0 < w,
    ;
}

/// The row and column of a row-major index.
pub proof fn lemma_row_of(w: int, h: int, k: int)
    requires
        0 <= k < w * h,
        w > 0,
    ensures
        0 <= k / w < h,
        0 <= k % w < w,
        k == (k / w) * w + k % w,
{
    vstd::arithmetic::div_mod::lemma_fundamental_div_mod(k, w);
    assert(k / w < h && 0 <= k / w) by (nonlinear_arith)
        requires
            0 <= k < w * h,
            w > 0,
            k == w * (k / w) + k % w,
            0 <= k % w < w,
    ;
    assert(w * (k / w) == (k / w) * w) by (nonlinear_arith);
}

/// Shifting a bit into a 32-bit register from the right.
pub proof fn lemma_shift_in(x: u32, b: u32)
    requires
        b <= 1,
    ensures
        ((x << 1) | b) == (2 * x + b) % 0x1_0000_0000,
{
    assert(x < 0x8000_0000 ==> ((x << 1) | b) == 2 * x + b) by (bit_vector)
        requires
            b <= 1,
    ;
    assert(x >= 0x8000_0000 ==> ((x << 1) | b) == 2 * x + b - 0x1_0000_0000) by (bit_vector)
        requires
            b <= 1,
    ;
}

} // verus!

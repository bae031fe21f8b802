//! Macroblock syntax as strings of bins: which string, on which contexts, stands
//! for which value.

use crate::mvc::cabac::{Bins, Engine};
use crate::mvc::mb_header::{
    cbp_luma, chroma_mode, coded_block_pattern, count_ones, i16_info, i16_type, mb_header,
    pred_modes, qp_delta, slice_mb_type, HeaderState, MbInfo, Neighbors,
};
use crate::mvc::cabac::CtxState;
use crate::mvc::mb_inter::{
    b_mb_type, b_sub_mb_type, b_type_prefix, bins, mvd_component, mvd_inc, mvd_suffix, mvd_tail,
    p_mb_type, ref_idx, ref_ones, sub_mb_type, InterBank,
};
use vstd::prelude::*;

verus! {

/// The state after bins that have the values of a string, each with its context, if
/// they have.
pub open spec fn spells(d: Bins, w: Seq<(int, u32)>) -> Option<Bins>
    decreases w.len(),
{
    if w.len() == 0 {
        Some(d)
    } else {
        let d1 = d.bin(w[0].0);
        if d1.b == w[0].1 {
            spells(d1, w.skip(1))
        } else {
            None
        }
    }
}

/// The bin strings of the sub_mb_type of a B slice, with the context of each bin
/// (H.264 table 9-38).
#[verifier::spinoff_prover]
pub proof fn law_b_sub_type_words(d: Bins)
    ensures
        spells(d, seq![(0, 0u32)]) matches Some(x) ==> b_sub_mb_type(d) == (x, 0i64),
        spells(d, seq![(0, 1u32), (1, 0u32), (3, 0u32)]) matches Some(x) ==> b_sub_mb_type(d) == (x, 1i64),
        spells(d, seq![(0, 1u32), (1, 0u32), (3, 1u32)]) matches Some(x) ==> b_sub_mb_type(d) == (x, 2i64),
        spells(d, seq![(0, 1u32), (1, 1u32), (2, 0u32), (3, 0u32), (3, 0u32)]) matches Some(x) ==> b_sub_mb_type(d) == (x, 3i64),
        spells(d, seq![(0, 1u32), (1, 1u32), (2, 0u32), (3, 0u32), (3, 1u32)]) matches Some(x) ==> b_sub_mb_type(d) == (x, 4i64),
        spells(d, seq![(0, 1u32), (1, 1u32), (2, 0u32), (3, 1u32), (3, 0u32)]) matches Some(x) ==> b_sub_mb_type(d) == (x, 5i64),
        spells(d, seq![(0, 1u32), (1, 1u32), (2, 0u32), (3, 1u32), (3, 1u32)]) matches Some(x) ==> b_sub_mb_type(d) == (x, 6i64),
        spells(d, seq![(0, 1u32), (1, 1u32), (2, 1u32), (3, 0u32), (3, 0u32), (3, 0u32)]) matches Some(x) ==> b_sub_mb_type(d) == (x, 7i64),
        spells(d, seq![(0, 1u32), (1, 1u32), (2, 1u32), (3, 0u32), (3, 0u32), (3, 1u32)]) matches Some(x) ==> b_sub_mb_type(d) == (x, 8i64),
        spells(d, seq![(0, 1u32), (1, 1u32), (2, 1u32), (3, 0u32), (3, 1u32), (3, 0u32)]) matches Some(x) ==> b_sub_mb_type(d) == (x, 9i64),
        spells(d, seq![(0, 1u32), (1, 1u32), (2, 1u32), (3, 0u32), (3, 1u32), (3, 1u32)]) matches Some(x) ==> b_sub_mb_type(d) == (x, 10i64),
        spells(d, seq![(0, 1u32), (1, 1u32), (2, 1u32), (3, 1u32), (3, 0u32)]) matches Some(x) ==> b_sub_mb_type(d) == (x, 11i64),
        spells(d, seq![(0, 1u32), (1, 1u32), (2, 1u32), (3, 1u32), (3, 1u32)]) matches Some(x) ==> b_sub_mb_type(d) == (x, 12i64),
{
    reveal(b_sub_mb_type);
    reveal_with_fuel(spells, 8);
}

/// The bin strings of the sub_mb_type of a P slice: 8x8, 8x4, 4x8 and 4x4.
#[verifier::spinoff_prover]
pub proof fn law_p_sub_type_words(d: Bins)
    ensures
        spells(d, seq![(1, 1u32)]) matches Some(x) ==> sub_mb_type(d) == (x, 0i64),
        spells(d, seq![(1, 0u32), (3, 0u32)]) matches Some(x) ==> sub_mb_type(d) == (x, 1i64),
        spells(d, seq![(1, 0u32), (3, 1u32), (4, 1u32)]) matches Some(x) ==> sub_mb_type(d) == (x, 2i64),
        spells(d, seq![(1, 0u32), (3, 1u32), (4, 0u32)]) matches Some(x) ==> sub_mb_type(d) == (x, 3i64),
{
    reveal(sub_mb_type);
    reveal_with_fuel(spells, 5);
}

/// The bin strings of the types of a P macroblock: 16x16, 16x8, 8x16 and quarters,
/// and of an intra macroblock predicted by blocks (H.264 table 9-37).
#[verifier::spinoff_prover]
pub proof fn law_p_type_words(d: Bins)
    ensures
        spells(d, seq![(4, 0u32), (5, 0u32), (6, 0u32)]) matches Some(x) ==> p_mb_type(d) == (x, 1i64),
        spells(d, seq![(4, 0u32), (5, 1u32), (7, 1u32)]) matches Some(x) ==> p_mb_type(d) == (x, 2i64),
        spells(d, seq![(4, 0u32), (5, 1u32), (7, 0u32)]) matches Some(x) ==> p_mb_type(d) == (x, 3i64),
        spells(d, seq![(4, 0u32), (5, 0u32), (6, 1u32)]) matches Some(x) ==> p_mb_type(d) == (x, 4i64),
        spells(d, seq![(4, 1u32), (7, 0u32)]) matches Some(x) ==> p_mb_type(d) == (x, 6i64),
{
    reveal(p_mb_type);
    reveal_with_fuel(spells, 5);
}

/// The bin strings of the types 0 to 10 of a B macroblock (H.264 table 9-37).
#[verifier::spinoff_prover]
pub proof fn law_b_type_words_to_10(d: Bins, inc: int)
    ensures
        spells(d, seq![(inc, 0u32)]) matches Some(x) ==> b_type_prefix(d, inc) == (x, 0i64),
        spells(d, seq![(inc, 1u32), (4, 0u32), (6, 0u32)]) matches Some(x) ==> b_type_prefix(d, inc) == (x, 1i64),
        spells(d, seq![(inc, 1u32), (4, 0u32), (6, 1u32)]) matches Some(x) ==> b_type_prefix(d, inc) == (x, 2i64),
        spells(d, seq![(inc, 1u32), (4, 1u32), (5, 0u32), (6, 0u32), (6, 0u32), (6, 0u32)]) matches Some(x) ==> b_type_prefix(d, inc) == (x, 3i64),
        spells(d, seq![(inc, 1u32), (4, 1u32), (5, 0u32), (6, 0u32), (6, 0u32), (6, 1u32)]) matches Some(x) ==> b_type_prefix(d, inc) == (x, 4i64),
        spells(d, seq![(inc, 1u32), (4, 1u32), (5, 0u32), (6, 0u32), (6, 1u32), (6, 0u32)]) matches Some(x) ==> b_type_prefix(d, inc) == (x, 5i64),
        spells(d, seq![(inc, 1u32), (4, 1u32), (5, 0u32), (6, 0u32), (6, 1u32), (6, 1u32)]) matches Some(x) ==> b_type_prefix(d, inc) == (x, 6i64),
        spells(d, seq![(inc, 1u32), (4, 1u32), (5, 0u32), (6, 1u32), (6, 0u32), (6, 0u32)]) matches Some(x) ==> b_type_prefix(d, inc) == (x, 7i64),
        spells(d, seq![(inc, 1u32), (4, 1u32), (5, 0u32), (6, 1u32), (6, 0u32), (6, 1u32)]) matches Some(x) ==> b_type_prefix(d, inc) == (x, 8i64),
        spells(d, seq![(inc, 1u32), (4, 1u32), (5, 0u32), (6, 1u32), (6, 1u32), (6, 0u32)]) matches Some(x) ==> b_type_prefix(d, inc) == (x, 9i64),
        spells(d, seq![(inc, 1u32), (4, 1u32), (5, 0u32), (6, 1u32), (6, 1u32), (6, 1u32)]) matches Some(x) ==> b_type_prefix(d, inc) == (x, 10i64),
{
    reveal(b_type_prefix);
    reveal_with_fuel(spells, 9);
}

/// The bin strings of the types 11 to 19 of a B macroblock.
#[verifier::spinoff_prover]
pub proof fn law_b_type_words_to_19(d: Bins, inc: int)
    ensures
        spells(d, seq![(inc, 1u32), (4, 1u32), (5, 1u32), (6, 1u32), (6, 1u32), (6, 0u32)]) matches Some(x) ==> b_type_prefix(d, inc) == (x, 11i64),
        spells(d, seq![(inc, 1u32), (4, 1u32), (5, 1u32), (6, 0u32), (6, 0u32), (6, 0u32), (6, 0u32)]) matches Some(x) ==> b_type_prefix(d, inc) == (x, 12i64),
        spells(d, seq![(inc, 1u32), (4, 1u32), (5, 1u32), (6, 0u32), (6, 0u32), (6, 0u32), (6, 1u32)]) matches Some(x) ==> b_type_prefix(d, inc) == (x, 13i64),
        spells(d, seq![(inc, 1u32), (4, 1u32), (5, 1u32), (6, 0u32), (6, 0u32), (6, 1u32), (6, 0u32)]) matches Some(x) ==> b_type_prefix(d, inc) == (x, 14i64),
        spells(d, seq![(inc, 1u32), (4, 1u32), (5, 1u32), (6, 0u32), (6, 0u32), (6, 1u32), (6, 1u32)]) matches Some(x) ==> b_type_prefix(d, inc) == (x, 15i64),
        spells(d, seq![(inc, 1u32), (4, 1u32), (5, 1u32), (6, 0u32), (6, 1u32), (6, 0u32), (6, 0u32)]) matches Some(x) ==> b_type_prefix(d, inc) == (x, 16i64),
        spells(d, seq![(inc, 1u32), (4, 1u32), (5, 1u32), (6, 0u32), (6, 1u32), (6, 0u32), (6, 1u32)]) matches Some(x) ==> b_type_prefix(d, inc) == (x, 17i64),
        spells(d, seq![(inc, 1u32), (4, 1u32), (5, 1u32), (6, 0u32), (6, 1u32), (6, 1u32), (6, 0u32)]) matches Some(x) ==> b_type_prefix(d, inc) == (x, 18i64),
        spells(d, seq![(inc, 1u32), (4, 1u32), (5, 1u32), (6, 0u32), (6, 1u32), (6, 1u32), (6, 1u32)]) matches Some(x) ==> b_type_prefix(d, inc) == (x, 19i64),
{
    reveal(b_type_prefix);
    reveal_with_fuel(spells, 9);
}

/// The bin strings of the types 20 to 22 of a B macroblock and of intra
/// macroblocks, predicted by blocks (23) or as a whole (from 24 on).
#[verifier::spinoff_prover]
pub proof fn law_b_type_words_from_20(d: Bins, inc: int)
    ensures
        spells(d, seq![(inc, 1u32), (4, 1u32), (5, 1u32), (6, 1u32), (6, 0u32), (6, 0u32), (6, 0u32)]) matches Some(x) ==> b_type_prefix(d, inc) == (x, 20i64),
        spells(d, seq![(inc, 1u32), (4, 1u32), (5, 1u32), (6, 1u32), (6, 0u32), (6, 0u32), (6, 1u32)]) matches Some(x) ==> b_type_prefix(d, inc) == (x, 21i64),
        spells(d, seq![(inc, 1u32), (4, 1u32), (5, 1u32), (6, 1u32), (6, 1u32), (6, 1u32)]) matches Some(x) ==> b_type_prefix(d, inc) == (x, 22i64),
        spells(d, seq![(inc, 1u32), (4, 1u32), (5, 1u32), (6, 1u32), (6, 0u32), (6, 1u32), (6, 0u32)]) matches Some(x) ==> b_type_prefix(d, inc) == (x, 23i64),
        spells(d, seq![(inc, 1u32), (4, 1u32), (5, 1u32), (6, 1u32), (6, 0u32), (6, 1u32), (6, 1u32)]) matches Some(x) ==> b_type_prefix(d, inc) == (x, 24i64),
{
    reveal(b_type_prefix);
    reveal_with_fuel(spells, 9);
}

/// A reference index is written in ones with a zero behind them: the first bin on the
/// context of the neighbours, the second on context 4, all others on 5.
pub proof fn law_reference_index_words(d: Bins, inc: int, s: i64)
    requires
        s < i64::MAX,
    ensures
        spells(d, seq![(inc, 0u32)]) matches Some(x) ==> ref_idx(d, inc) == (x, 0i64),
        spells(d, seq![(inc, 1u32), (4, 0u32)]) matches Some(x) ==> ref_idx(d, inc) == (x, 1i64),
        spells(d, seq![(inc, 1u32), (4, 1u32)]) matches Some(x) ==> ref_idx(d, inc) == ref_ones(
            Bins { b: 0, ..x },
            2,
        ),
        d.bin(5).b == 0 ==> ref_ones(d, s) == (d.bin(5), s),
        d.bin(5).b == 1 ==> ref_ones(d, s) == ref_ones(d.bin(5), (s + 1) as i64),
{
    reveal(ref_idx);
    reveal_with_fuel(spells, 4);
}

/// The chroma prediction mode: 0, 10, 110 and 111.
pub proof fn law_chroma_mode_words(d: Bins, inc: int)
    ensures
        spells(d, seq![(inc, 0u32)]) matches Some(x) ==> chroma_mode(d, inc) == (x, 0u8),
        spells(d, seq![(inc, 1u32), (3, 0u32)]) matches Some(x) ==> chroma_mode(d, inc) == (x, 1u8),
        spells(d, seq![(inc, 1u32), (3, 1u32), (3, 0u32)]) matches Some(x) ==> chroma_mode(d, inc)
            == (x, 2u8),
        spells(d, seq![(inc, 1u32), (3, 1u32), (3, 1u32)]) matches Some(x) ==> chroma_mode(d, inc)
            == (x, 3u8),
{
    reveal(chroma_mode);
    reveal_with_fuel(spells, 5);
}

/// A prediction mode: a one stands for the predicted one; behind a zero come three
/// bits, the lowest first.
pub proof fn law_prediction_mode_words(d: Bins, acc: Seq<i64>, n: int, a: u32, b: u32, c: u32)
    requires
        n > 0,
        a <= 1,
        b <= 1,
        c <= 1,
    ensures
        spells(d, seq![(0int, 1u32)]) matches Some(x) ==> pred_modes(d, acc, n) == pred_modes(
            x,
            acc.push(-1i64),
            n - 1,
        ),
        spells(d, seq![(0int, 0u32), (1, a), (1, b), (1, c)]) matches Some(x) ==> pred_modes(
            d,
            acc,
            n,
        ) == pred_modes(x, acc.push((a + 2 * b + 4 * c) as i64), n - 1),
        pred_modes(d, acc, 0) == (d, acc),
{
    reveal_with_fuel(spells, 6);
}

/// A quantiser difference is written in ones with a zero behind them: 1, -1, 2, -2
/// and so on; the first bin goes by whether the last difference was zero.
pub proof fn law_quantiser_words(d: Bins, last: i32)
    ensures
        ({
            let k = if last == 0 {
                0int
            } else {
                1
            };
            &&& spells(d, seq![(k, 0u32)]) matches Some(x) ==> qp_delta(d, last) == (x, 0i32)
            &&& spells(d, seq![(k, 1u32), (2, 0u32)]) matches Some(x) ==> qp_delta(d, last) == (
                x,
                1i32,
            )
            &&& spells(d, seq![(k, 1u32), (2, 1u32), (3, 0u32)]) matches Some(x) ==> qp_delta(
                d,
                last,
            ) == (x, -1i32)
            &&& spells(d, seq![(k, 1u32), (2, 1u32), (3, 1u32), (3, 0u32)]) matches Some(x)
                ==> qp_delta(d, last) == (x, 2i32)
            &&& spells(d, seq![(k, 1u32), (2, 1u32), (3, 1u32), (3, 1u32), (3, 0u32)]) matches Some(
                x,
            ) ==> qp_delta(d, last) == (x, -2i32)
        }),
{
    reveal(qp_delta);
    reveal_with_fuel(spells, 7);
    reveal_with_fuel(count_ones, 5);
}

/// The difference by the number of ones before the zero.
pub proof fn law_quantiser_values(s: int)
    requires
        s >= 0,
    ensures
        crate::mvc::mb_header::qp_delta_value(2 * s) == -s,
        crate::mvc::mb_header::qp_delta_value(2 * s + 1) == s + 1,
{
}

/// The luma bits of the coded block pattern, one for each quarter. The context of a
/// bit counts one where the quarter to its left has no coefficients and two where
/// the one above has none; a macroblock that is not there counts as coded.
pub proof fn law_pattern_bits(d: Bins, up: Option<u8>, left: Option<u8>)
    ensures
        ({
            let no_left = |w: int| left matches Some(v) && (v as int / w) % 2 == 0;
            let no_up = |w: int| up matches Some(v) && (v as int / w) % 2 == 0;
            let inc = |l: bool, u: bool|
                (if l {
                    1int
                } else {
                    0
                }) + (if u {
                    2int
                } else {
                    0
                });
            let q0 = d.bin(inc(no_left(2), no_up(4)));
            let q1 = q0.bin(inc(q0.b == 0, no_up(8)));
            let q2 = q1.bin(inc(no_left(8), q0.b == 0));
            let q3 = q2.bin(inc(q2.b == 0, q1.b == 0));
            cbp_luma(d, up, left) == (q3, q0.b + 2 * q1.b + 4 * q2.b + 8 * q3.b)
        }),
{
    reveal(cbp_luma);
}

/// The chroma bits of the coded block pattern: none, direct terms only (16), or both
/// (32), on contexts of their own that count the neighbours with chroma.
pub proof fn law_pattern_chroma(
    e: Engine,
    rows: Seq<Seq<CtxState>>,
    up: Option<u8>,
    left: Option<u8>,
)
    requires
        cbp_luma(Bins { e, c: rows[0], b: 0 }, up, left).1 <= 15,
        0 <= cbp_luma(Bins { e, c: rows[0], b: 0 }, up, left).1,
    ensures
        ({
            let (d, luma) = cbp_luma(Bins { e, c: rows[0], b: 0 }, up, left);
            let any = |n: Option<u8>| n matches Some(v) && v >= 16;
            let all = |n: Option<u8>| n matches Some(v) && 32 <= v < 48;
            let inc = |l: bool, u: bool|
                (if l {
                    1int
                } else {
                    0
                }) + (if u {
                    2int
                } else {
                    0
                });
            let c0 = (Bins { e: d.e, c: rows[1], b: 0 }).bin(inc(any(left), any(up)));
            let c1 = (Bins { e: c0.e, c: rows[2], b: 0 }).bin(inc(all(left), all(up)));
            let (e1, _, v) = coded_block_pattern(e, rows, up, left);
            &&& c0.b == 0 ==> v == luma && e1 == c0.e
            &&& c0.b == 1 && c1.b == 0 ==> v == luma + 16 && e1 == c1.e
            &&& c0.b == 1 && c1.b == 1 ==> v == luma + 32 && e1 == c1.e
        }),
{
    reveal(coded_block_pattern);
}

/// The 24 types of intra macroblocks predicted as a whole: the prediction mode, then
/// the chroma bits by fours, then the luma bits, all or none, by twelves.
pub proof fn law_whole_intra_types(mode: int, chroma: int, luma: bool)
    requires
        0 <= mode < 4,
        0 <= chroma < 3,
    ensures
        ({
            let i = i16_info(
                mode + 4 * chroma + (if luma {
                    12int
                } else {
                    0
                }),
            );
            &&& i.i16_pred == mode
            &&& i.cbp == 16 * chroma + (if luma {
                15int
            } else {
                0
            })
            &&& !i.i_nxn && !i.transform8x8
        }),
{
}

/// The bins of such a type: a terminating one, which stands for raw samples, the
/// luma bit, the chroma bits, and two for the mode.
pub proof fn law_whole_intra_words(
    d: Bins,
    base: int,
    pcm: int,
    ac: int,
    cbp0: int,
    cbp1: int,
    hi: int,
    lo: int,
)
    requires
        0 <= base <= 30,
        0 <= pcm <= 60,
    ensures
        ({
            let t = d.terminate();
            let r = i16_type(d, base, pcm, ac, cbp0, cbp1, hi, lo);
            let l = t.bin(ac);
            let c = l.bin(cbp0);
            let m0 = c.bin(hi).bin(lo);
            let k = c.bin(cbp1);
            let m1 = k.bin(hi).bin(lo);
            &&& t.b == 1 ==> r == (t, pcm as i64)
            &&& (t.b != 1 && l.b <= 1 && c.b == 0 && c.bin(hi).b <= 1 && m0.b <= 1) ==> r == (
                m0,
                (base + 12 * l.b + 2 * c.bin(hi).b + m0.b) as i64,
            )
            &&& (t.b != 1 && l.b <= 1 && c.b == 1 && k.b <= 1 && k.bin(hi).b <= 1 && m1.b <= 1) ==> r
                == (m1, (base + 12 * l.b + 4 + 4 * k.b + 2 * k.bin(hi).b + m1.b) as i64)
        }),
{
    reveal(i16_type);
}

/// In an I slice the first bin tells prediction by blocks, on a context that counts
/// the neighbours predicted as a whole; numbers 1 to 24 follow, and 25 for raw
/// samples.
pub proof fn law_intra_slice_types(d: Bins, n: Neighbors)
    ensures
        ({
            let whole = |x: Option<MbInfo>|
                if x matches Some(i) && !i.i_nxn {
                    1int
                } else {
                    0
                };
            let d0 = d.bin(whole(n.left) + whole(n.up));
            &&& d0.b == 0 ==> slice_mb_type(d, n) == (d0, 0i64)
            &&& d0.b != 0 ==> slice_mb_type(d, n) == i16_type(
                Bins { b: 0, ..d0 },
                1,
                25,
                4,
                5,
                6,
                7,
                8,
            )
        }),
{
    reveal(slice_mb_type);
}

/// The header of an intra macroblock: 16 prediction modes, or 4 with the 8x8
/// transform, and a coded pattern where it is predicted by blocks; the mode and the
/// pattern of its type where it is predicted as a whole. A quantiser difference
/// follows for every macroblock of the second kind and for those of the first with
/// coefficients; without one the next difference starts afresh.
pub proof fn law_intra_header(s: HeaderState, n: Neighbors, t8_mode: bool)
    ensures
        ({
            let (r, x) = mb_header(s, n, t8_mode);
            let whole = 1 <= x.mb_type <= 24;
            &&& x.info.i_nxn == (x.mb_type == 0)
            &&& x.info.c_ipred == x.c_ipred
            &&& x.mb_type == 0 ==> x.modes.len() == (if x.info.transform8x8 {
                4int
            } else {
                16
            }) && x.info.i16_pred == 0
            &&& x.mb_type != 0 ==> x.modes.len() == 0 && !x.info.transform8x8 && x.transform_flag
                is None
            &&& x.mb_type == 0 && t8_mode ==> x.transform_flag == Some(x.info.transform8x8)
            &&& !t8_mode ==> x.transform_flag is None && !x.info.transform8x8
            &&& whole ==> x.cbp is None && x.info.i16_pred == (x.mb_type - 1) % 4 && x.info.cbp
                == i16_info(x.mb_type - 1).cbp
            &&& !whole ==> x.cbp is Some && x.info.cbp == x.cbp->0 as u8
            &&& x.qp_delta is Some <==> whole || x.info.cbp != 0
            &&& r.last_dquant == (match x.qp_delta {
                Some(v) => v,
                None => 0i32,
            })
        }),
{
    reveal(mb_header);
    reveal(crate::mvc::mb_header::nxn_part);
    let d = slice_mb_type(Bins { e: s.e, c: s.c.mb_type, b: 0 }, n).0;
    let t = (Bins { e: d.e, c: s.c.transform, b: 0 }).bin(
        crate::mvc::mb_header::flag(crate::mvc::mb_header::is_t8(n.left))
            + crate::mvc::mb_header::flag(crate::mvc::mb_header::is_t8(n.up)),
    );
    let e1 = if t8_mode {
        t.e
    } else {
        d.e
    };
    lemma_mode_count(Bins { e: e1, c: s.c.ipr, b: 0 }, Seq::empty(), 4);
    lemma_mode_count(Bins { e: e1, c: s.c.ipr, b: 0 }, Seq::empty(), 16);
}

proof fn lemma_mode_count(d: Bins, acc: Seq<i64>, n: int)
    requires
        n >= 0,
    ensures
        pred_modes(d, acc, n).1.len() == acc.len() + n,
    decreases n,
{
    if n > 0 {
        let d0 = d.bin(0);
        if d0.b == 1 {
            lemma_mode_count(d0, acc.push(-1i64), n - 1);
        } else {
            let d3 = d0.bin(1).bin(1).bin(1);
            lemma_mode_count(
                d3,
                acc.push((d0.bin(1).b + 2 * d0.bin(1).bin(1).b + 4 * d3.b) as i64),
                n - 1,
            );
        }
    }
}

/// Intra macroblocks in P slices have the numbers 7 to 30 and 31 behind the bins 1,
/// 1; in B slices 24 to 47 and 48 behind the prefix, on the contexts of the
/// macroblock types of P slices.
pub proof fn law_intra_in_inter_types(d: Bins, e: Engine, c: InterBank, inc: int)
    ensures
        spells(d, seq![(4int, 1u32), (7int, 1u32)]) matches Some(x) ==> p_mb_type(d) == i16_type(
            Bins { b: 0, ..x },
            7,
            31,
            8,
            9,
            9,
            10,
            10,
        ),
        ({
            let (p, v) = b_type_prefix(bins(e, c.mb_type_b), inc);
            let (e1, c1, t) = b_mb_type(e, c, inc);
            &&& v <= 23 ==> t == v && e1 == p.e && c1.mb_type_b == p.c && c1.mb_type == c.mb_type
            &&& v > 23 ==> {
                let (q, w) = i16_type(bins(p.e, c.mb_type), 24, 48, 8, 9, 9, 10, 10);
                t == w && e1 == q.e && c1.mb_type == q.c && c1.mb_type_b == p.c
            }
        }),
{
    reveal(p_mb_type);
    reveal(b_mb_type);
    reveal_with_fuel(spells, 4);
}

/// The context of a vector difference by the sum of its neighbours' magnitudes.
pub proof fn law_difference_contexts(s: int)
    ensures
        s <= 2 ==> mvd_inc(s) == 0,
        3 <= s <= 32 ==> mvd_inc(s) == 2,
        s >= 33 ==> mvd_inc(s) == 3,
{
}

/// A vector difference: a zero bin stands for none. Behind a one the magnitude
/// follows in ones, up to eight with a zero behind them; from nine on comes an
/// Exp-Golomb code of order 3. Then comes the sign. Horizontal differences use the
/// first five contexts, vertical ones the next.
pub proof fn law_difference_words(e: Engine, c: InterBank, k: int, inc: int)
    requires
        k == 0 || k == 1,
    ensures
        ({
            let d0 = bins(e, c.mv_first).bin(5 * k + inc);
            let (e1, c1, v) = mvd_component(e, c, k, inc);
            let (d1, m) = mvd_suffix(bins(d0.e, c.mv_rest), 5 * k);
            let (e2, sign) = d1.e.bypass();
            &&& c1.mv_first == d0.c
            &&& d0.b == 0 ==> v == 0 && e1 == d0.e
            &&& d0.b != 0 && m < u32::MAX ==> e1 == e2 && c1.mv_rest == d1.c && v == (if sign == 1 {
                -(m + 1)
            } else {
                m + 1
            })
        }),
{
    reveal(mvd_component);
}

/// The magnitude less one of a vector difference, in ones on four contexts.
pub proof fn law_magnitude_words(d: Bins, b: int)
    ensures
        spells(d, seq![(b, 0u32)]) matches Some(x) ==> mvd_suffix(d, b) == (x, 0u32),
        spells(d, seq![(b, 1u32), (b + 1, 0u32)]) matches Some(x) ==> mvd_suffix(d, b) == (x, 1u32),
        spells(d, seq![(b, 1u32), (b + 1, 1u32), (b + 2, 0u32)]) matches Some(x) ==> mvd_suffix(d, b)
            == (x, 2u32),
        spells(d, seq![(b, 1u32), (b + 1, 1u32), (b + 2, 1u32), (b + 3, 0u32)]) matches Some(x)
            ==> mvd_suffix(d, b) == (x, 3u32),
        spells(
            d,
            seq![(b, 1u32), (b + 1, 1u32), (b + 2, 1u32), (b + 3, 1u32), (b + 3, 0u32)],
        ) matches Some(x) ==> mvd_suffix(d, b) == (x, 4u32),
        spells(
            d,
            seq![
                (b, 1u32),
                (b + 1, 1u32),
                (b + 2, 1u32),
                (b + 3, 1u32),
                (b + 3, 1u32),
                (b + 3, 0u32),
            ],
        ) matches Some(x) ==> mvd_suffix(d, b) == (x, 5u32),
        spells(
            d,
            seq![
                (b, 1u32),
                (b + 1, 1u32),
                (b + 2, 1u32),
                (b + 3, 1u32),
                (b + 3, 1u32),
                (b + 3, 1u32),
                (b + 3, 0u32),
            ],
        ) matches Some(x) ==> mvd_suffix(d, b) == (x, 6u32),
        spells(
            d,
            seq![
                (b, 1u32),
                (b + 1, 1u32),
                (b + 2, 1u32),
                (b + 3, 1u32),
                (b + 3, 1u32),
                (b + 3, 1u32),
                (b + 3, 1u32),
                (b + 3, 0u32),
            ],
        ) matches Some(x) ==> mvd_suffix(d, b) == (x, 7u32),
        spells(
            d,
            seq![
                (b, 1u32),
                (b + 1, 1u32),
                (b + 2, 1u32),
                (b + 3, 1u32),
                (b + 3, 1u32),
                (b + 3, 1u32),
                (b + 3, 1u32),
                (b + 3, 1u32),
            ],
        ) matches Some(x) ==> mvd_suffix(d, b).1 == 8u32.wrapping_add(x.e.golomb(3).1)
            && mvd_suffix(d, b).0.e == x.e.golomb(3).0 && mvd_suffix(d, b).0.c == x.c,
{
    reveal(mvd_suffix);
    reveal_with_fuel(spells, 10);
    reveal_with_fuel(mvd_tail, 9);
}

} // verus!

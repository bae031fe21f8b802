//! The blocks of a macroblock's residual: which are coded, in which order, on which
//! contexts and with which weights.

use crate::mvc::cabac::Bins;
use crate::mvc::mb_residual::{
    ac_bit, ac_blocks, ac_inc, block_trace, cat_number, chroma_plane, chroma_qp_of, chroma_residual,
    coded_block, dc_block, flagged_block, level_runs, luma8_blocks, luma_4x4, luma_8x8, luma_blocks,
    luma_i16, luma_inc, luma_residual, no_blocks, region_coded, with_bit, CbfNeighbours, ResParams,
    ResState, ResidualBank,
};
use crate::mvc::residual::{residual_block, CoeffBank};
use crate::mvc::residual_ctx::{
    init_row, law_category_tables, ResidualCat, ABS_I, ABS_P, BCBP_I, BCBP_P, LAST_I, LAST_P, MAP_I,
    MAP_P, ONE_I, ONE_P, POS2CTX_LAST4X4, POS2CTX_LAST8X8, POS2CTX_MAP4X4,
};
use crate::mvc::transform::{block4, block8};
use vstd::prelude::*;

verus! {

/// The rows of the context tables that each category of blocks has.
#[verifier::spinoff_prover]
#[verifier::rlimit(60)]
pub proof fn law_category_rows(qp: int, m: int)
    ensures
        ResidualCat::Luma16Dc.cbf_bank(qp, false, m) == init_row(BCBP_I[0]@, qp),
        ResidualCat::Luma16Dc.cbf_bank(qp, true, m) == init_row(BCBP_P[m][0]@, qp),
        ResidualCat::Luma16Dc.coeff_bank(qp, false, m) == (CoeffBank {
            sig: init_row(MAP_I[0]@, qp),
            last: init_row(LAST_I[0]@, qp),
            level: init_row(ONE_I[0]@, qp) + init_row(ABS_I[0]@, qp),
        }),
        ResidualCat::Luma16Dc.coeff_bank(qp, true, m) == (CoeffBank {
            sig: init_row(MAP_P[m][0]@, qp),
            last: init_row(LAST_P[m][0]@, qp),
            level: init_row(ONE_P[m][0]@, qp) + init_row(ABS_P[m][0]@, qp),
        }),
        ResidualCat::Luma16Ac.cbf_bank(qp, false, m) == init_row(BCBP_I[1]@, qp),
        ResidualCat::Luma16Ac.cbf_bank(qp, true, m) == init_row(BCBP_P[m][1]@, qp),
        ResidualCat::Luma16Ac.coeff_bank(qp, false, m) == (CoeffBank {
            sig: init_row(MAP_I[1]@, qp),
            last: init_row(LAST_I[1]@, qp),
            level: init_row(ONE_I[1]@, qp) + init_row(ABS_I[1]@, qp),
        }),
        ResidualCat::Luma16Ac.coeff_bank(qp, true, m) == (CoeffBank {
            sig: init_row(MAP_P[m][1]@, qp),
            last: init_row(LAST_P[m][1]@, qp),
            level: init_row(ONE_P[m][1]@, qp) + init_row(ABS_P[m][1]@, qp),
        }),
        ResidualCat::Luma4x4.cbf_bank(qp, false, m) == init_row(BCBP_I[4]@, qp),
        ResidualCat::Luma4x4.cbf_bank(qp, true, m) == init_row(BCBP_P[m][4]@, qp),
        ResidualCat::Luma4x4.coeff_bank(qp, false, m) == (CoeffBank {
            sig: init_row(MAP_I[5]@, qp),
            last: init_row(LAST_I[5]@, qp),
            level: init_row(ONE_I[4]@, qp) + init_row(ABS_I[4]@, qp),
        }),
        ResidualCat::Luma4x4.coeff_bank(qp, true, m) == (CoeffBank {
            sig: init_row(MAP_P[m][5]@, qp),
            last: init_row(LAST_P[m][5]@, qp),
            level: init_row(ONE_P[m][4]@, qp) + init_row(ABS_P[m][4]@, qp),
        }),
        ResidualCat::Luma8x8.cbf_bank(qp, false, m) == init_row(BCBP_I[2]@, qp),
        ResidualCat::Luma8x8.cbf_bank(qp, true, m) == init_row(BCBP_P[m][2]@, qp),
        ResidualCat::Luma8x8.coeff_bank(qp, false, m) == (CoeffBank {
            sig: init_row(MAP_I[2]@, qp),
            last: init_row(LAST_I[2]@, qp),
            level: init_row(ONE_I[2]@, qp) + init_row(ABS_I[2]@, qp),
        }),
        ResidualCat::Luma8x8.coeff_bank(qp, true, m) == (CoeffBank {
            sig: init_row(MAP_P[m][2]@, qp),
            last: init_row(LAST_P[m][2]@, qp),
            level: init_row(ONE_P[m][2]@, qp) + init_row(ABS_P[m][2]@, qp),
        }),
        ResidualCat::ChromaDc.cbf_bank(qp, false, m) == init_row(BCBP_I[5]@, qp),
        ResidualCat::ChromaDc.cbf_bank(qp, true, m) == init_row(BCBP_P[m][5]@, qp),
        ResidualCat::ChromaDc.coeff_bank(qp, false, m) == (CoeffBank {
            sig: init_row(MAP_I[6]@, qp),
            last: init_row(LAST_I[6]@, qp),
            level: init_row(ONE_I[5]@, qp) + init_row(ABS_I[5]@, qp),
        }),
        ResidualCat::ChromaDc.coeff_bank(qp, true, m) == (CoeffBank {
            sig: init_row(MAP_P[m][6]@, qp),
            last: init_row(LAST_P[m][6]@, qp),
            level: init_row(ONE_P[m][5]@, qp) + init_row(ABS_P[m][5]@, qp),
        }),
        ResidualCat::ChromaAc.cbf_bank(qp, false, m) == init_row(BCBP_I[6]@, qp),
        ResidualCat::ChromaAc.cbf_bank(qp, true, m) == init_row(BCBP_P[m][6]@, qp),
        ResidualCat::ChromaAc.coeff_bank(qp, false, m) == (CoeffBank {
            sig: init_row(MAP_I[7]@, qp),
            last: init_row(LAST_I[7]@, qp),
            level: init_row(ONE_I[6]@, qp) + init_row(ABS_I[6]@, qp),
        }),
        ResidualCat::ChromaAc.coeff_bank(qp, true, m) == (CoeffBank {
            sig: init_row(MAP_P[m][7]@, qp),
            last: init_row(LAST_P[m][7]@, qp),
            level: init_row(ONE_P[m][6]@, qp) + init_row(ABS_P[m][6]@, qp),
        }),
{
    law_category_tables(ResidualCat::Luma16Dc, qp, m);
    law_category_tables(ResidualCat::Luma16Ac, qp, m);
    law_category_tables(ResidualCat::Luma4x4, qp, m);
    law_category_tables(ResidualCat::Luma8x8, qp, m);
    law_category_tables(ResidualCat::ChromaDc, qp, m);
    law_category_tables(ResidualCat::ChromaAc, qp, m);
}

/// Each category has contexts of its own.
pub proof fn law_contexts_of_a_category(qp: int, inter: bool, m: int)
    ensures
        ResidualBank::initial(qp, inter, m).coeff[cat_number(ResidualCat::Luma16Dc)] == ResidualCat::Luma16Dc.coeff_bank(qp, inter, m),
        ResidualBank::initial(qp, inter, m).cbf[cat_number(ResidualCat::Luma16Dc)] == ResidualCat::Luma16Dc.cbf_bank(qp, inter, m),
        ResidualBank::initial(qp, inter, m).coeff[cat_number(ResidualCat::Luma16Ac)] == ResidualCat::Luma16Ac.coeff_bank(qp, inter, m),
        ResidualBank::initial(qp, inter, m).cbf[cat_number(ResidualCat::Luma16Ac)] == ResidualCat::Luma16Ac.cbf_bank(qp, inter, m),
        ResidualBank::initial(qp, inter, m).coeff[cat_number(ResidualCat::Luma4x4)] == ResidualCat::Luma4x4.coeff_bank(qp, inter, m),
        ResidualBank::initial(qp, inter, m).cbf[cat_number(ResidualCat::Luma4x4)] == ResidualCat::Luma4x4.cbf_bank(qp, inter, m),
        ResidualBank::initial(qp, inter, m).coeff[cat_number(ResidualCat::Luma8x8)] == ResidualCat::Luma8x8.coeff_bank(qp, inter, m),
        ResidualBank::initial(qp, inter, m).cbf[cat_number(ResidualCat::Luma8x8)] == ResidualCat::Luma8x8.cbf_bank(qp, inter, m),
        ResidualBank::initial(qp, inter, m).coeff[cat_number(ResidualCat::ChromaDc)] == ResidualCat::ChromaDc.coeff_bank(qp, inter, m),
        ResidualBank::initial(qp, inter, m).cbf[cat_number(ResidualCat::ChromaDc)] == ResidualCat::ChromaDc.cbf_bank(qp, inter, m),
        ResidualBank::initial(qp, inter, m).coeff[cat_number(ResidualCat::ChromaAc)] == ResidualCat::ChromaAc.coeff_bank(qp, inter, m),
        ResidualBank::initial(qp, inter, m).cbf[cat_number(ResidualCat::ChromaAc)] == ResidualCat::ChromaAc.cbf_bank(qp, inter, m),
        forall|a: ResidualCat, b: ResidualCat| #[trigger] cat_number(a) == #[trigger] cat_number(b) ==> a == b,
{
}

/// The contexts of significance and of the last coefficient follow the place in the
/// scan. Blocks without a direct term begin at the second place, and the last two
/// places of a 4x4 block share a context.
pub proof fn law_scan_contexts(i: int)
    requires
        0 <= i < 15,
    ensures
        ResidualCat::Luma4x4.map()[i] == i,
        ResidualCat::Luma16Dc.map()[i] == i,
        ResidualCat::Luma4x4.last_map()[i] == i,
        ResidualCat::Luma16Dc.last_map()[i] == i,
        i < 14 ==> ResidualCat::Luma16Ac.map()[i] == i + 1 && ResidualCat::ChromaAc.map()[i] == i + 1,
        ResidualCat::Luma16Ac.last_map()[i] == i + 1,
        ResidualCat::ChromaAc.last_map()[i] == i + 1,
        i < 4 ==> ResidualCat::ChromaDc.map()[i] == i && ResidualCat::ChromaDc.last_map()[i] == i,
{
    law_category_tables(ResidualCat::Luma4x4, 0, 0);
    law_category_tables(ResidualCat::Luma16Dc, 0, 0);
    law_category_tables(ResidualCat::Luma16Ac, 0, 0);
    law_category_tables(ResidualCat::ChromaAc, 0, 0);
    law_category_tables(ResidualCat::ChromaDc, 0, 0);
    assert(forall|k: int| 0 <= k < 15 ==> #[trigger] POS2CTX_MAP4X4[k] == k);
    assert(forall|k: int| 0 <= k < 16 ==> #[trigger] POS2CTX_LAST4X4[k] == k);
}

/// The contexts of the last coefficient of an 8x8 block: the direct term, then 15, 16,
/// 8, 8 and four times 4 places share one each.
pub proof fn law_last_contexts_8x8(i: int)
    requires
        0 <= i < 64,
    ensures
        ({
            let c = ResidualCat::Luma8x8.last_map()[i];
            &&& i == 0 ==> c == 0
            &&& 1 <= i < 16 ==> c == 1
            &&& 16 <= i < 32 ==> c == 2
            &&& 32 <= i < 48 ==> c == 3 + (i - 32) / 8
            &&& 48 <= i ==> c == 5 + (i - 48) / 4
        }),
{
    law_category_tables(ResidualCat::Luma8x8, 0, 0);
    assert(forall|k: int| 1 <= k < 16 ==> #[trigger] POS2CTX_LAST8X8[k] == 1);
    assert(forall|k: int| 16 <= k < 32 ==> #[trigger] POS2CTX_LAST8X8[k] == 2);
    assert(forall|k: int| 32 <= k < 48 ==> #[trigger] POS2CTX_LAST8X8[k] == 3 + (k - 32) / 8);
    assert(forall|k: int| 48 <= k < 64 ==> #[trigger] POS2CTX_LAST8X8[k] == 5 + (k - 48) / 4);
}

/// A block's flag is read on the flag contexts of its category; the block follows where
/// it is 1, on the coefficient contexts of its category.
pub proof fn law_flagged_blocks(s: ResState, cat: ResidualCat, inc: int)
    ensures
        ({
            let d = (Bins { e: s.e, c: s.c.cbf[cat_number(cat)], b: 0 }).bin(inc);
            let (t, c) = flagged_block(s, cat, inc);
            let flags = s.c.cbf.update(cat_number(cat), d.c);
            let (e, bank, coeffs) = residual_block(
                d.e,
                s.c.coeff[cat_number(cat)],
                cat.size(),
                cat.map(),
                cat.last_map(),
                cat.cap(),
            );
            &&& c is Some <==> d.b == 1
            &&& t.c.cbf == flags
            &&& t.cur == s.cur && t.trace == s.trace
            &&& d.b != 1 ==> t.e == d.e && t.c.coeff == s.c.coeff
            &&& d.b == 1 ==> c == Some(coeffs) && t.e == e && t.c.coeff == s.c.coeff.update(
                cat_number(cat),
                bank,
            )
        }),
{
    reveal(flagged_block);
    reveal(coded_block);
}

/// The flag of a block of direct terms is read on a context of the same flag of the
/// macroblocks on the left and above, where there are some, else of the default.
pub proof fn law_direct_terms(
    s: ResState,
    n: CbfNeighbours,
    cat: ResidualCat,
    bit: u32,
    name: Seq<char>,
    dflt: u32,
    on: bool,
)
    ensures
        ({
            let left = if n.left is Some {
                ((n.left->0).0 >> bit) & 1
            } else {
                dflt as u64
            };
            let up = if n.up is Some {
                ((n.up->0).0 >> bit) & 1
            } else {
                dflt as u64
            };
            let (t, c) = flagged_block(s, cat, left as u32 + 2 * (up as u32));
            let (r, d) = dc_block(s, n, cat, bit, name, dflt, on);
            &&& d == c
            &&& r.e == t.e && r.c == t.c
            &&& c is Some ==> r.cur == t.cur | (1u64 << bit)
            &&& c is None ==> r.cur == t.cur
        }),
{
    reveal(dc_block);
}

/// The luma blocks of a macroblock are read quarter by quarter, in each row by row;
/// quarters that are not coded have none. A coded block sets its flag.
pub proof fn law_luma_blocks_in_turn(
    s: ResState,
    acc: Seq<Option<Seq<i32>>>,
    b8: int,
    i: int,
    n: CbfNeighbours,
    cat: ResidualCat,
    luma: u8,
    dflt: u32,
)
    requires
        0 <= b8 < 4,
        0 <= i < 4,
    ensures
        ({
            let k = 4 * b8 + i;
            let x = 2 * (b8 % 2) + i % 2;
            let y = 2 * (b8 / 2) + i / 2;
            let (t, c) = flagged_block(s, cat, luma_inc(s.cur, n, x, y, dflt));
            let next = if c is Some {
                ResState { cur: t.cur | (1u64 << ((1 + 4 * y + x) as u32)), ..t }
            } else {
                t
            };
            let r = luma_blocks(s, acc, k, n, cat, luma, dflt, false);
            &&& !region_coded(luma, b8) ==> r == luma_blocks(s, acc, k + 1, n, cat, luma, dflt, false)
            &&& region_coded(luma, b8) ==> r == luma_blocks(
                next,
                acc.update(4 * y + x, c),
                k + 1,
                n,
                cat,
                luma,
                dflt,
                false,
            )
        }),
        luma_blocks(s, acc, 16, n, cat, luma, dflt, false) == (s, acc),
{
    let k = 4 * b8 + i;
    assert(k / 4 == b8 && k % 2 == i % 2 && k / 8 == b8 / 2);
    assert((k / 2) % 2 == i / 2);
}

/// The 8x8 blocks of a macroblock have no flags: those of the coded quarters are read in
/// turn, and each sets the flags of its four 4x4 blocks.
pub proof fn law_luma_8x8_blocks_in_turn(s: ResState, acc: Seq<Option<Seq<i32>>>, b8: int, luma: u8)
    requires
        0 <= b8 < 4,
    ensures
        ({
            let (t, c) = coded_block(s, ResidualCat::Luma8x8);
            let (x, y) = (2 * (b8 % 2), 2 * (b8 / 2));
            let cur = with_bit(
                with_bit(
                    with_bit(with_bit(t.cur, (1 + 4 * y + x) as u32), (2 + 4 * y + x) as u32),
                    (5 + 4 * y + x) as u32,
                ),
                (6 + 4 * y + x) as u32,
            );
            let r = luma8_blocks(s, acc, b8, luma, false);
            &&& !region_coded(luma, b8) ==> r == luma8_blocks(s, acc, b8 + 1, luma, false)
            &&& region_coded(luma, b8) ==> r == luma8_blocks(
                (ResState { cur, ..t }),
                acc.update(b8, Some(c)),
                b8 + 1,
                luma,
                false,
            )
        }),
        luma8_blocks(s, acc, 4, luma, false) == (s, acc),
{
}

/// The chroma blocks are read four of Cb first, then four of Cr, row by row.
pub proof fn law_chroma_blocks_in_turn(
    s: ResState,
    acc: Seq<Option<Seq<i32>>>,
    k: int,
    n: CbfNeighbours,
    dflt: u32,
)
    requires
        0 <= k < 8,
    ensures
        ({
            let (t, c) = flagged_block(s, ResidualCat::ChromaAc, ac_inc(s.cur, n, k, dflt));
            let next = if c is Some {
                ResState { cur: t.cur | (1u64 << ac_bit(k, k % 2, (k / 2) % 2)), ..t }
            } else {
                t
            };
            ac_blocks(s, acc, k, n, dflt, false) == ac_blocks(next, acc.update(k, c), k + 1, n, dflt, false)
        }),
        ac_blocks(s, acc, 8, n, dflt, false) == (s, acc),
{
}

/// Luma is coded with its direct terms apart where an intra macroblock is predicted as a
/// whole, in 8x8 blocks with that transform, else in 4x4 blocks. Flags of macroblocks
/// that are not there count as set for intra macroblocks and as clear for inter ones;
/// intra blocks have the first list of weights, inter blocks the fourth, and 8x8 blocks
/// the first or second of their own.
#[verifier::spinoff_prover]
#[verifier::rlimit(60)]
pub proof fn law_luma_residual(s: ResState, p: ResParams)
    requires
        !p.on,
    ensures
        ({
            let luma = (p.info.cbp % 16) as u8;
            let r = luma_residual(s, p);
            let whole = !p.is_inter && !p.info.i_nxn;
            &&& whole ==> {
                let (t, dc) = dc_block(
                    s,
                    p.n,
                    ResidualCat::Luma16Dc,
                    0,
                    "DC luma 16x16"@,
                    1,
                    false,
                );
                let (u, ac) = luma_blocks(
                    t,
                    no_blocks(16),
                    0,
                    p.n,
                    ResidualCat::Luma16Ac,
                    luma,
                    1,
                    false,
                );
                r.0 == u && r.1 == luma_i16(dc, ac, p.qp, block4(p.scaling.list_4x4[0]))
            }
            &&& !whole && p.info.transform8x8 ==> {
                let (t, b) = luma8_blocks(s, no_blocks(4), 0, luma, false);
                &&& r.0 == t
                &&& p.is_inter ==> r.1 == luma_8x8(b, p.qp, block8(p.scaling.list_8x8[1]))
                &&& !p.is_inter ==> r.1 == luma_8x8(b, p.qp, block8(p.scaling.list_8x8[0]))
            }
            &&& !whole && !p.info.transform8x8 && p.is_inter ==> {
                let (t, b) = luma_blocks(
                    s,
                    no_blocks(16),
                    0,
                    p.n,
                    ResidualCat::Luma4x4,
                    luma,
                    0,
                    false,
                );
                r.0 == t && r.1 == luma_4x4(b, p.qp, block4(p.scaling.list_4x4[3]))
            }
            &&& !whole && !p.info.transform8x8 && !p.is_inter ==> {
                let (t, b) = luma_blocks(
                    s,
                    no_blocks(16),
                    0,
                    p.n,
                    ResidualCat::Luma4x4,
                    luma,
                    1,
                    false,
                );
                r.0 == t && r.1 == luma_4x4(b, p.qp, block4(p.scaling.list_4x4[0]))
            }
        }),
{
    reveal(luma_residual);
}

/// Chroma is coded where the pattern says so: the direct terms of Cb, then those of Cr,
/// and with the value 2 the other terms too. Cb has the second list of weights of its
/// kind and Cr the third.
#[verifier::spinoff_prover]
#[verifier::rlimit(60)]
pub proof fn law_chroma_residual(s: ResState, p: ResParams)
    requires
        !p.on,
        p.info.cbp >= 16,
    ensures
        ({
            let dflt: u32 = if p.is_inter {
                0
            } else {
                1
            };
            let name = "2x2 DC Chroma"@;
            let (s1, b) = dc_block(s, p.n, ResidualCat::ChromaDc, 17, name, dflt, false);
            let (s2, c) = dc_block(s1, p.n, ResidualCat::ChromaDc, 18, name, dflt, false);
            let (s3, ac) = if p.info.cbp / 16 == 2 {
                ac_blocks(s2, no_blocks(8), 0, p.n, dflt, false)
            } else {
                (s2, no_blocks(8))
            };
            let qp = chroma_qp_of(p.qp, p.chroma_offset);
            let r = chroma_residual(s, p);
            &&& r.0 == s3
            &&& p.is_inter ==> r.1 == chroma_plane(b, ac, 0, qp, block4(p.scaling.list_4x4[4])) && r.2
                == chroma_plane(c, ac, 4, qp, block4(p.scaling.list_4x4[5]))
            &&& !p.is_inter ==> r.1 == chroma_plane(b, ac, 0, qp, block4(p.scaling.list_4x4[1])) && r.2
                == chroma_plane(c, ac, 4, qp, block4(p.scaling.list_4x4[2]))
        }),
{
    reveal(chroma_residual);
}

/// A traced block gives one element for each level, with its run, and one of zeros
/// behind them; an uncoded block gives the last one alone. The first element may have a
/// name of its own.
pub proof fn law_traced_blocks(first: Seq<char>, rest: Seq<char>, c: Seq<i32>, i: int)
    requires
        0 <= i < level_runs(c, 0, 0).len(),
    ensures
        block_trace(first, rest, Some(c)).len() == level_runs(c, 0, 0).len(),
        block_trace(first, rest, Some(c))[i] == (
            if i == 0 {
                first
            } else {
                rest
            },
            level_runs(c, 0, 0)[i].0,
            Some(level_runs(c, 0, 0)[i].1),
        ),
        block_trace(first, rest, None) == seq![(first, 0i64, Some(0i64))],
{
}

} // verus!

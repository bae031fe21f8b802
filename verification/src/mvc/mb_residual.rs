//! Macroblock residuals (H.264 sections 7.3.5.3 and 9.3.3.1.1.9): the block
//! order and the coded_block_flag contexts of every category, and the
//! reconstruction of the residual samples from the decoded levels.

use crate::mvc::arith::clip;
use crate::mvc::cabac::{bank_ok, Bins, CabacEngine, CtxState, Engine};
use crate::mvc::mb_header::MbInfo;
use crate::mvc::residual::{decode_residual_block, residual_block, CoeffBank, CoeffContexts};
use crate::mvc::residual_ctx::ResidualCat;
use crate::mvc::scaling::ScalingLists;
use crate::mvc::transform::{
    block4, block8, chroma_dc, chroma_dc_2x2_weighted, dequant4, dequant_4x4_weighted, idct4,
    idct_4x4, inverse_scan_4x4, inverse_scan_8x8, lemma_idct4_reads, luma_dc, luma_dc_4x4_weighted,
    reconstruct_residual_8x8, residual8, unscan4, unscan8, Block,
};
use vstd::prelude::*;

verus! {

/// The coded_block_flag bits of a macroblock: bit 0 luma DC, bit `1 + 4 by +
/// bx` luma 4x4 block, 17 and 18 chroma DC, 19 and 35 on chroma AC.
#[derive(Debug, Clone, Copy, PartialEq, Eq, Structural)]
pub struct CbpBits(pub u64);

impl Default for CbpBits {
    fn default() -> (r: Self)
        ensures
            r.0 == 0,
    {
        CbpBits(0)
    }
}

/// Bit `k` of the flags, as 0 or 1.
pub open spec fn flag_bit(v: u64, k: u32) -> u32 {
    ((v >> k) & 1) as u32
}

/// The flags with bit `k` set.
pub open spec fn with_bit(v: u64, k: u32) -> u64 {
    v | (1u64 << k)
}

/// A flag that was set reads as 1, and every other flag is as before.
pub proof fn law_set_then_get(v: u64, k: u32, j: u32)
    requires
        k < 64,
        j < 64,
    ensures
        flag_bit(with_bit(v, k), k) == 1,
        j != k ==> flag_bit(with_bit(v, k), j) == flag_bit(v, j),
{
    assert(((v | (1u64 << k)) >> k) & 1 == 1) by (bit_vector)
        requires
            k < 64,
    ;
    assert(j != k ==> ((v | (1u64 << k)) >> j) & 1 == (v >> j) & 1) by (bit_vector)
        requires
            k < 64,
            j < 64,
    ;
}

impl CbpBits {
    fn get(self, bit: u32) -> (b: u32)
        requires
            bit < 64,
        ensures
            b == flag_bit(self.0, bit),
            b <= 1,
    {
        let v: u64 = self.0;
        assert((v >> bit) & 1 <= 1) by (bit_vector);
        ((v >> bit) & 1) as u32
    }

    fn set(&mut self, bit: u32)
        requires
            bit < 64,
        ensures
            final(self).0 == with_bit(old(self).0, bit),
    {
        self.0 = self.0 | (1u64 << bit);
    }

    /// The luma 4x4 block at column `bx` and row `by` has coefficients.
    pub fn luma4x4_nonzero(self, bx: u32, by: u32) -> (b: bool)
        requires
            bx < 4,
            by < 4,
        ensures
            b == luma_nonzero(self.0, bx as int, by as int),
    {
        self.get(1 + 4 * by + bx) == 1
    }
}

/// The luma 4x4 block at column `bx` and row `by` has coefficients.
pub open spec fn luma_nonzero(v: u64, bx: int, by: int) -> bool {
    flag_bit(v, (1 + 4 * by + bx) as u32) == 1
}

/// The flags of the current macroblock and of its neighbours.
#[derive(Clone, Copy)]
pub struct CbfNeighbours {
    pub cur: CbpBits,
    pub left: Option<CbpBits>,
    pub up: Option<CbpBits>,
}

/// The neighbours alone.
pub open spec fn around(n: CbfNeighbours) -> CbfNeighbours {
    CbfNeighbours { cur: CbpBits(0), ..n }
}

/// The index of a category in the context bank.
pub open spec fn cat_number(cat: ResidualCat) -> int {
    match cat {
        ResidualCat::Luma16Dc => 0,
        ResidualCat::Luma16Ac => 1,
        ResidualCat::Luma4x4 => 2,
        ResidualCat::Luma8x8 => 3,
        ResidualCat::ChromaDc => 4,
        ResidualCat::ChromaAc => 5,
    }
}

/// The category with this index.
pub open spec fn cat_at(i: int) -> ResidualCat {
    if i == 0 {
        ResidualCat::Luma16Dc
    } else if i == 1 {
        ResidualCat::Luma16Ac
    } else if i == 2 {
        ResidualCat::Luma4x4
    } else if i == 3 {
        ResidualCat::Luma8x8
    } else if i == 4 {
        ResidualCat::ChromaDc
    } else {
        ResidualCat::ChromaAc
    }
}

fn cat_index(cat: ResidualCat) -> (i: usize)
    ensures
        i == cat_number(cat),
        i < 6,
{
    match cat {
        ResidualCat::Luma16Dc => 0,
        ResidualCat::Luma16Ac => 1,
        ResidualCat::Luma4x4 => 2,
        ResidualCat::Luma8x8 => 3,
        ResidualCat::ChromaDc => 4,
        ResidualCat::ChromaAc => 5,
    }
}

/// The residual contexts of one slice, one entry for each category.
pub struct ResidualContexts {
    coeff: Vec<CoeffContexts>,
    bcbp: [[CtxState; 4]; 6],
}

/// The same contexts as sequences.
pub struct ResidualBank {
    pub coeff: Seq<CoeffBank>,
    pub cbf: Seq<Seq<CtxState>>,
}

impl ResidualBank {
    /// Every context is in range.
    pub open spec fn ok(self) -> bool {
        &&& self.coeff.len() == 6
        &&& self.cbf.len() == 6
        &&& forall|i: int|
            0 <= i < 6 ==> (#[trigger] self.coeff[i]).ok() && self.coeff[i].sig.len() == 15
                && self.coeff[i].last.len() == 15
        &&& forall|i: int| 0 <= i < 6 ==> bank_ok(#[trigger] self.cbf[i]) && self.cbf[i].len() == 4
    }

    /// The contexts at the start of a slice.
    pub open spec fn initial(qp: int, inter: bool, model: int) -> ResidualBank {
        ResidualBank {
            coeff: Seq::new(6, |i: int| cat_at(i).coeff_bank(qp, inter, model)),
            cbf: Seq::new(6, |i: int| cat_at(i).cbf_bank(qp, inter, model)),
        }
    }
}

impl View for ResidualContexts {
    type V = ResidualBank;

    closed spec fn view(&self) -> ResidualBank {
        ResidualBank {
            coeff: Seq::new(self.coeff@.len(), |i: int| self.coeff@[i]@),
            cbf: Seq::new(6, |i: int| self.bcbp[i]@),
        }
    }
}

impl ResidualContexts {
    /// The contexts of a slice with this QP. `inter` selects the P tables of
    /// the cabac_init_idc `model`.
    pub fn new(slice_qp: i32, inter: bool, model: usize) -> (c: Self)
        requires
            inter ==> model < 3,
        ensures
            c@ == ResidualBank::initial(slice_qp as int, inter, model as int),
            c@.ok(),
    {
        let mut coeff: Vec<CoeffContexts> = Vec::new();
        coeff.push(ResidualCat::Luma16Dc.coeff_contexts(slice_qp, inter, model));
        coeff.push(ResidualCat::Luma16Ac.coeff_contexts(slice_qp, inter, model));
        coeff.push(ResidualCat::Luma4x4.coeff_contexts(slice_qp, inter, model));
        coeff.push(ResidualCat::Luma8x8.coeff_contexts(slice_qp, inter, model));
        coeff.push(ResidualCat::ChromaDc.coeff_contexts(slice_qp, inter, model));
        coeff.push(ResidualCat::ChromaAc.coeff_contexts(slice_qp, inter, model));
        let bcbp = [
            ResidualCat::Luma16Dc.bcbp_contexts(slice_qp, inter, model),
            ResidualCat::Luma16Ac.bcbp_contexts(slice_qp, inter, model),
            ResidualCat::Luma4x4.bcbp_contexts(slice_qp, inter, model),
            ResidualCat::Luma8x8.bcbp_contexts(slice_qp, inter, model),
            ResidualCat::ChromaDc.bcbp_contexts(slice_qp, inter, model),
            ResidualCat::ChromaAc.bcbp_contexts(slice_qp, inter, model),
        ];
        let c = ResidualContexts { coeff, bcbp };
        proof {
            let want = ResidualBank::initial(slice_qp as int, inter, model as int);
            assert(c@.coeff =~= want.coeff);
            assert(c@.cbf =~= want.cbf);
        }
        c
    }
}

/// One residual trace element: a name, a level, and a run.
pub type ResElem = (String, i64, Option<i64>);

/// The elements with their names as character sequences.
pub open spec fn res_views(s: Seq<ResElem>) -> Seq<(Seq<char>, i64, Option<i64>)> {
    Seq::new(s.len(), |i: int| (s[i].0@, s[i].1, s[i].2))
}

/// The (level, run) pairs of the coefficients from position `i` on, after
/// `run` zeros, closed by a pair of zeros.
pub open spec fn level_runs(c: Seq<i32>, i: int, run: i64) -> Seq<(i64, i64)>
    decreases c.len() - i,
{
    if i >= c.len() {
        seq![(0i64, 0i64)]
    } else if c[i] == 0 {
        level_runs(c, i + 1, (run + 1) as i64)
    } else {
        seq![(c[i] as i64, run)] + level_runs(c, i + 1, 0)
    }
}

fn level_run(coeffs: &Vec<i32>) -> (v: Vec<(i64, i64)>)
    requires
        coeffs@.len() <= 64,
    ensures
        v@ == level_runs(coeffs@, 0, 0),
{
    let mut v: Vec<(i64, i64)> = Vec::new();
    let mut run: i64 = 0;
    for i in 0..coeffs.len()
        invariant
            coeffs@.len() <= 64,
            0 <= run <= i,
            v@ + level_runs(coeffs@, i as int, run) == level_runs(coeffs@, 0, 0),
    {
        let c: i32 = coeffs[i];
        let ghost before = v@;
        if c == 0 {
            run = run + 1;
        } else {
            v.push((c as i64, run));
            assert(before + (seq![(c as i64, run)] + level_runs(coeffs@, i + 1, 0)) =~= v@
                + level_runs(coeffs@, i + 1, 0));
            run = 0;
        }
    }
    let ghost before = v@;
    v.push((0, 0));
    assert(before + seq![(0i64, 0i64)] =~= v@);
    v
}

/// The trace of one block: the pairs of a coded one, or one pair of zeros. The
/// first pair has a name of its own.
pub open spec fn block_trace(first: Seq<char>, rest: Seq<char>, c: Option<Seq<i32>>) -> Seq<
    (Seq<char>, i64, Option<i64>),
> {
    match c {
        Some(c) => {
            let p = level_runs(c, 0, 0);
            Seq::new(
                p.len(),
                |i: int|
                    (
                        if i == 0 {
                            first
                        } else {
                            rest
                        },
                        p[i].0,
                        Some(p[i].1),
                    ),
            )
        },
        None => seq![(first, 0i64, Some(0i64))],
    }
}

fn push_trace(out: &mut Vec<ResElem>, first: &str, rest: &str, c: Option<&Vec<i32>>)
    requires
        c is Some ==> c->0@.len() <= 64,
    ensures
        res_views(final(out)@) == res_views(old(out)@) + block_trace(
            first@,
            rest@,
            match c {
                Some(v) => Some(v@),
                None => None,
            },
        ),
{
    let ghost start = res_views(out@);
    match c {
        Some(c) => {
            let pairs = level_run(c);
            let ghost want = block_trace(first@, rest@, Some(c@));
            for i in 0..pairs.len()
                invariant
                    pairs@ == level_runs(c@, 0, 0),
                    want == block_trace(first@, rest@, Some(c@)),
                    res_views(out@) == start + want.subrange(0, i as int),
            {
                let (level, run) = pairs[i];
                let ghost before = out@;
                let name = if i == 0 {
                    first.to_owned()
                } else {
                    rest.to_owned()
                };
                out.push((name, level, Some(run)));
                assert(res_views(out@) =~= res_views(before).push(want[i as int]));
                assert(start + want.subrange(0, i + 1) =~= (start + want.subrange(0, i as int)).push(
                    want[i as int],
                ));
            }
            assert(want.subrange(0, want.len() as int) =~= want);
        },
        None => {
            out.push((first.to_owned(), 0, Some(0)));
            assert(res_views(out@) =~= start + block_trace(first@, rest@, None));
        },
    }
}

// ---- entropy decoding ----

/// What residual decoding reads and changes: the engine, the contexts, the
/// flags of the macroblock, and the trace.
pub struct ResState {
    pub e: Engine,
    pub c: ResidualBank,
    pub cur: u64,
    pub trace: Seq<(Seq<char>, i64, Option<i64>)>,
}

/// One block that is known to be coded.
#[verifier::opaque]
pub open spec fn coded_block(s: ResState, cat: ResidualCat) -> (ResState, Seq<i32>) {
    let i = cat_number(cat);
    let (e, c, coeffs) = residual_block(
        s.e,
        s.c.coeff[i],
        cat.size(),
        cat.map(),
        cat.last_map(),
        cat.cap(),
    );
    (
        ResState { e, c: ResidualBank { coeff: s.c.coeff.update(i, c), ..s.c }, ..s },
        coeffs,
    )
}

/// One block behind a coded_block_flag on context `inc`.
#[verifier::opaque]
pub open spec fn flagged_block(s: ResState, cat: ResidualCat, inc: int) -> (
    ResState,
    Option<Seq<i32>>,
) {
    let i = cat_number(cat);
    let d = (Bins { e: s.e, c: s.c.cbf[i], b: 0 }).bin(inc);
    let s1 = ResState { e: d.e, c: ResidualBank { cbf: s.c.cbf.update(i, d.c), ..s.c }, ..s };
    if d.b == 1 {
        let (s2, c) = coded_block(s1, cat);
        (s2, Some(c))
    } else {
        (s1, None)
    }
}

/// Append the trace of a block, where a trace is wanted.
pub open spec fn traced(s: ResState, on: bool, first: Seq<char>, rest: Seq<char>, c: Option<Seq<i32>>) -> ResState {
    if on {
        ResState { trace: s.trace + block_trace(first, rest, c), ..s }
    } else {
        s
    }
}

/// A neighbour's flag, or the default where there is none.
pub open spec fn near_bit(n: Option<CbpBits>, bit: u32, default_bit: u32) -> u32 {
    match n {
        Some(c) => flag_bit(c.0, bit),
        None => default_bit,
    }
}

fn neighbour_bit(n: &Option<CbpBits>, bit: u32, default_bit: u32) -> (b: u32)
    requires
        bit < 64,
        default_bit <= 1,
    ensures
        b == near_bit(*n, bit, default_bit),
        b <= 1,
{
    match n {
        Some(c) => c.get(bit),
        None => default_bit,
    }
}

fn decode_coded(e: &mut CabacEngine, ctxs: &mut ResidualContexts, cat: ResidualCat, Ghost(s): Ghost<ResState>) -> (c: Vec<i32>)
    requires
        old(e)@.awake(),
        old(ctxs)@.ok(),
        s.e == old(e)@,
        s.c == old(ctxs)@,
    ensures
        ({
            let (t, x) = coded_block(s, cat);
            final(e)@ == t.e && final(ctxs)@ == t.c && c@ == x && t.cur == s.cur && t.trace
                == s.trace
        }),
        c@.len() == cat.size(),
        final(e)@.live(),
        final(ctxs)@.ok(),
{
    proof {
        reveal(coded_block);
    }
    let i: usize = cat_index(cat);
    let d = cat.desc();
    assert(ctxs@.coeff[i as int].ok());
    let c = decode_residual_block(
        e,
        &mut ctxs.coeff[i],
        d.max_num_coeff,
        d.pos2ctx_map,
        d.pos2ctx_last,
        d.gt1_cap,
    );
    proof {
        let t = coded_block(s, cat).0;
        assert(ctxs@.coeff =~= t.c.coeff);
        assert(ctxs@.cbf =~= t.c.cbf);
    }
    c.to_vec()
}

fn decode_flagged(e: &mut CabacEngine, ctxs: &mut ResidualContexts, cat: ResidualCat, inc: usize, Ghost(s): Ghost<ResState>) -> (c: Option<Vec<i32>>)
    requires
        old(e)@.awake(),
        old(ctxs)@.ok(),
        s.e == old(e)@,
        s.c == old(ctxs)@,
        inc < 4,
    ensures
        ({
            let (t, x) = flagged_block(s, cat, inc as int);
            final(e)@ == t.e && final(ctxs)@ == t.c && opt_view(c) == x && t.cur == s.cur
                && t.trace == s.trace
        }),
        c is Some ==> c->0@.len() == cat.size(),
        final(e)@.live(),
        final(ctxs)@.ok(),
{
    proof {
        reveal(flagged_block);
    }
    let i: usize = cat_index(cat);
    let ghost d = (Bins { e: s.e, c: s.c.cbf[i as int], b: 0 }).bin(inc as int);
    let ghost s1 = ResState {
        e: d.e,
        c: ResidualBank { cbf: s.c.cbf.update(i as int, d.c), ..s.c },
        ..s
    };
    assert(bank_ok(ctxs@.cbf[i as int]));
    let bin: u32 = e.decode_decision(&mut ctxs.bcbp[i][inc]);
    proof {
        assert(ctxs@.coeff =~= s1.c.coeff);
        assert(ctxs@.cbf =~= s1.c.cbf);
    }
    if bin == 1 {
        Some(decode_coded(e, ctxs, cat, Ghost(s1)))
    } else {
        None
    }
}

/// The coefficients of a block as a sequence.
pub open spec fn opt_view(c: Option<Vec<i32>>) -> Option<Seq<i32>> {
    match c {
        Some(v) => Some(v@),
        None => None,
    }
}

/// The coefficients of blocks as sequences.
pub open spec fn opt_views(s: Seq<Option<Vec<i32>>>) -> Seq<Option<Seq<i32>>> {
    Seq::new(s.len(), |i: int| opt_view(s[i]))
}

/// Column of the `k`-th luma 4x4 block in coding order.
pub open spec fn block_x(k: int) -> int {
    ((k / 4) % 2) * 2 + k % 2
}

/// Row of the `k`-th luma 4x4 block in coding order.
pub open spec fn block_y(k: int) -> int {
    (k / 8) * 2 + (k / 2) % 2
}

/// The flag of the luma 4x4 block at column `bx` and row `by`.
pub open spec fn luma_bit(bx: int, by: int) -> u32 {
    (1 + 4 * by + bx) as u32
}

/// The context increment of the luma 4x4 block at (`bx`, `by`): twice the flag
/// above plus the flag to the left.
pub open spec fn luma_inc(cur: u64, n: CbfNeighbours, bx: int, by: int, default_bit: u32) -> int {
    let left = if bx > 0 {
        flag_bit(cur, luma_bit(bx - 1, by))
    } else {
        near_bit(n.left, luma_bit(3, by), default_bit)
    };
    let up = if by > 0 {
        flag_bit(cur, luma_bit(bx, by - 1))
    } else {
        near_bit(n.up, luma_bit(bx, 3), default_bit)
    };
    2 * up + left
}

/// The luma 4x4 blocks from the `k`-th in coding order on. Only the 8x8
/// regions whose bit of `cbp_luma` is set are coded.
pub open spec fn luma_blocks(
    s: ResState,
    acc: Seq<Option<Seq<i32>>>,
    k: int,
    n: CbfNeighbours,
    cat: ResidualCat,
    cbp_luma: u8,
    default_bit: u32,
    on: bool,
) -> (ResState, Seq<Option<Seq<i32>>>)
    decreases 16 - k,
{
    if k >= 16 {
        (s, acc)
    } else if !region_coded(cbp_luma, k / 4) {
        luma_blocks(s, acc, k + 1, n, cat, cbp_luma, default_bit, on)
    } else {
        let (bx, by) = (block_x(k), block_y(k));
        let (s1, c) = flagged_block(s, cat, luma_inc(s.cur, n, bx, by, default_bit));
        let s2 = traced(s1, on, "Luma sng"@, "Luma sng"@, c);
        let s3 = if c is Some {
            ResState { cur: with_bit(s2.cur, luma_bit(bx, by)), ..s2 }
        } else {
            s2
        };
        luma_blocks(s3, acc.update(4 * by + bx, c), k + 1, n, cat, cbp_luma, default_bit, on)
    }
}

/// Bit `b8` of the luma half of the coded block pattern.
pub open spec fn region_coded(cbp_luma: u8, b8: int) -> bool {
    if b8 == 0 {
        cbp_luma % 2 == 1
    } else if b8 == 1 {
        (cbp_luma / 2) % 2 == 1
    } else if b8 == 2 {
        (cbp_luma / 4) % 2 == 1
    } else {
        (cbp_luma / 8) % 2 == 1
    }
}

fn is_region_coded(cbp_luma: u8, b8: usize) -> (b: bool)
    ensures
        b == region_coded(cbp_luma, b8 as int),
{
    if b8 == 0 {
        cbp_luma % 2 == 1
    } else if b8 == 1 {
        (cbp_luma / 2) % 2 == 1
    } else if b8 == 2 {
        (cbp_luma / 4) % 2 == 1
    } else {
        (cbp_luma / 8) % 2 == 1
    }
}

fn empty_blocks(n: usize) -> (v: Vec<Option<Vec<i32>>>)
    ensures
        v@.len() == n,
        opt_views(v@) == Seq::new(n as nat, |i: int| None::<Seq<i32>>),
        forall|i: int| 0 <= i < n ==> #[trigger] v@[i] is None,
{
    let mut v: Vec<Option<Vec<i32>>> = Vec::new();
    for i in 0..n
        invariant
            v@.len() == i,
            forall|j: int| 0 <= j < i ==> #[trigger] v@[j] is None,
    {
        v.push(None);
    }
    assert(opt_views(v@) =~= Seq::new(n as nat, |i: int| None::<Seq<i32>>));
    v
}

/// Every coded block has `size` coefficients.
pub open spec fn sizes_ok(v: Seq<Option<Vec<i32>>>, size: int) -> bool {
    forall|i: int| 0 <= i < v.len() && (#[trigger] v[i]) is Some ==> v[i]->0@.len() == size
}

fn decode_luma_4x4_blocks(
    e: &mut CabacEngine,
    ctxs: &mut ResidualContexts,
    neigh: &mut CbfNeighbours,
    cat: ResidualCat,
    cbp_luma: u8,
    default_bit: u32,
    on: bool,
    out: &mut Vec<ResElem>,
) -> (blocks: Vec<Option<Vec<i32>>>)
    requires
        old(e)@.awake(),
        old(ctxs)@.ok(),
        default_bit <= 1,
        cat == ResidualCat::Luma16Ac || cat == ResidualCat::Luma4x4,
    ensures
        ({
            let (t, b) = luma_blocks(
                ResState {
                    e: old(e)@,
                    c: old(ctxs)@,
                    cur: old(neigh).cur.0,
                    trace: res_views(old(out)@),
                },
                Seq::new(16, |i: int| None),
                0,
                around(*old(neigh)),
                cat,
                cbp_luma,
                default_bit,
                on,
            );
            &&& final(e)@ == t.e
            &&& final(ctxs)@ == t.c
            &&& final(neigh).cur.0 == t.cur
            &&& res_views(final(out)@) == t.trace
            &&& opt_views(blocks@) == b
        }),
        final(neigh).left == old(neigh).left,
        final(neigh).up == old(neigh).up,
        blocks@.len() == 16,
        sizes_ok(blocks@, cat.size()),
        final(e)@.awake(),
        old(e)@.live() ==> final(e)@.live(),
        final(ctxs)@.ok(),
{
    let mut blocks = empty_blocks(16);
    let ghost n = around(*neigh);
    let ghost mut s = ResState { e: e@, c: ctxs@, cur: neigh.cur.0, trace: res_views(out@) };
    let ghost whole = luma_blocks(s, opt_views(blocks@), 0, n, cat, cbp_luma, default_bit, on);
    for k in 0..16usize
        invariant
            n == around(*old(neigh)),
            neigh.left == n.left,
            neigh.up == n.up,
            default_bit <= 1,
            cat == ResidualCat::Luma16Ac || cat == ResidualCat::Luma4x4,
            s == (ResState { e: e@, c: ctxs@, cur: neigh.cur.0, trace: res_views(out@) }),
            blocks@.len() == 16,
            sizes_ok(blocks@, cat.size()),
            e@.awake(),
            old(e)@.live() ==> e@.live(),
            ctxs@.ok(),
            whole == luma_blocks(s, opt_views(blocks@), k as int, n, cat, cbp_luma, default_bit, on),
    {
        if is_region_coded(cbp_luma, k / 4) {
            let bx: u32 = (((k / 4) % 2) * 2 + k % 2) as u32;
            let by: u32 = ((k / 8) * 2 + (k / 2) % 2) as u32;
            let left: u32 = if bx > 0 {
                neigh.cur.get(1 + 4 * by + (bx - 1))
            } else {
                neighbour_bit(&neigh.left, 1 + 4 * by + 3, default_bit)
            };
            let up: u32 = if by > 0 {
                neigh.cur.get(1 + 4 * (by - 1) + bx)
            } else {
                neighbour_bit(&neigh.up, 1 + 4 * 3 + bx, default_bit)
            };
            let c = decode_flagged(e, ctxs, cat, (2 * up + left) as usize, Ghost(s));
            if on {
                push_trace(out, "Luma sng", "Luma sng", c.as_ref());
            }
            if c.is_some() {
                neigh.cur.set(1 + 4 * by + bx);
            }
            let ghost before = blocks@;
            let ghost cv = opt_view(c);
            blocks[(4 * by + bx) as usize] = c;
            assert(opt_views(blocks@) =~= opt_views(before).update(4 * by + bx, cv));
            proof {
                s = ResState { e: e@, c: ctxs@, cur: neigh.cur.0, trace: res_views(out@) };
            }
        }
    }
    blocks
}

/// The luma 8x8 blocks from `b8` on. They have no flag of their own; a coded
/// one sets the flags of its four 4x4 blocks.
pub open spec fn luma8_blocks(
    s: ResState,
    acc: Seq<Option<Seq<i32>>>,
    b8: int,
    cbp_luma: u8,
    on: bool,
) -> (ResState, Seq<Option<Seq<i32>>>)
    decreases 4 - b8,
{
    if b8 >= 4 {
        (s, acc)
    } else if !region_coded(cbp_luma, b8) {
        luma8_blocks(s, acc, b8 + 1, cbp_luma, on)
    } else {
        let (s1, c) = coded_block(s, ResidualCat::Luma8x8);
        let s2 = traced(s1, on, "Luma8x8 DC sng"@, "Luma8x8 sng"@, Some(c));
        let s3 = ResState { cur: with_region(s2.cur, b8), ..s2 };
        luma8_blocks(s3, acc.update(b8, Some(c)), b8 + 1, cbp_luma, on)
    }
}

/// The flags with those of the four 4x4 blocks of 8x8 region `b8` set.
pub open spec fn with_region(v: u64, b8: int) -> u64 {
    let (x, y) = ((b8 % 2) * 2, (b8 / 2) * 2);
    with_bit(
        with_bit(with_bit(with_bit(v, luma_bit(x, y)), luma_bit(x + 1, y)), luma_bit(x, y + 1)),
        luma_bit(x + 1, y + 1),
    )
}

fn decode_luma_8x8_blocks(
    e: &mut CabacEngine,
    ctxs: &mut ResidualContexts,
    neigh: &mut CbfNeighbours,
    cbp_luma: u8,
    on: bool,
    out: &mut Vec<ResElem>,
) -> (blocks: Vec<Option<Vec<i32>>>)
    requires
        old(e)@.awake(),
        old(ctxs)@.ok(),
    ensures
        ({
            let (t, b) = luma8_blocks(
                ResState {
                    e: old(e)@,
                    c: old(ctxs)@,
                    cur: old(neigh).cur.0,
                    trace: res_views(old(out)@),
                },
                Seq::new(4, |i: int| None),
                0,
                cbp_luma,
                on,
            );
            &&& final(e)@ == t.e
            &&& final(ctxs)@ == t.c
            &&& final(neigh).cur.0 == t.cur
            &&& res_views(final(out)@) == t.trace
            &&& opt_views(blocks@) == b
        }),
        final(neigh).left == old(neigh).left,
        final(neigh).up == old(neigh).up,
        blocks@.len() == 4,
        sizes_ok(blocks@, 64),
        final(e)@.awake(),
        old(e)@.live() ==> final(e)@.live(),
        final(ctxs)@.ok(),
{
    let mut blocks = empty_blocks(4);
    let ghost mut s = ResState { e: e@, c: ctxs@, cur: neigh.cur.0, trace: res_views(out@) };
    let ghost whole = luma8_blocks(s, opt_views(blocks@), 0, cbp_luma, on);
    for b8 in 0..4usize
        invariant
            neigh.left == old(neigh).left,
            neigh.up == old(neigh).up,
            s == (ResState { e: e@, c: ctxs@, cur: neigh.cur.0, trace: res_views(out@) }),
            blocks@.len() == 4,
            sizes_ok(blocks@, 64),
            e@.awake(),
            old(e)@.live() ==> e@.live(),
            ctxs@.ok(),
            whole == luma8_blocks(s, opt_views(blocks@), b8 as int, cbp_luma, on),
    {
        if is_region_coded(cbp_luma, b8) {
            let c = decode_coded(e, ctxs, ResidualCat::Luma8x8, Ghost(s));
            if on {
                push_trace(out, "Luma8x8 DC sng", "Luma8x8 sng", Some(&c));
            }
            let x: u32 = ((b8 % 2) * 2) as u32;
            let y: u32 = ((b8 / 2) * 2) as u32;
            neigh.cur.set(1 + 4 * y + x);
            neigh.cur.set(1 + 4 * y + (x + 1));
            neigh.cur.set(1 + 4 * (y + 1) + x);
            neigh.cur.set(1 + 4 * (y + 1) + (x + 1));
            let ghost before = blocks@;
            let ghost cv = c@;
            blocks[b8] = Some(c);
            assert(opt_views(blocks@) =~= opt_views(before).update(b8 as int, Some(cv)));
            proof {
                s = ResState { e: e@, c: ctxs@, cur: neigh.cur.0, trace: res_views(out@) };
            }
        }
    }
    blocks
}

/// A DC block behind the flag `bit`.
#[verifier::opaque]
pub open spec fn dc_block(
    s: ResState,
    n: CbfNeighbours,
    cat: ResidualCat,
    bit: u32,
    name: Seq<char>,
    default_bit: u32,
    on: bool,
) -> (ResState, Option<Seq<i32>>) {
    let (s1, c) = flagged_block(
        s,
        cat,
        2 * near_bit(n.up, bit, default_bit) + near_bit(n.left, bit, default_bit),
    );
    let s2 = traced(s1, on, name, name, c);
    (
        if c is Some {
            ResState { cur: with_bit(s2.cur, bit), ..s2 }
        } else {
            s2
        },
        c,
    )
}

fn decode_dc_block(
    e: &mut CabacEngine,
    ctxs: &mut ResidualContexts,
    neigh: &mut CbfNeighbours,
    cat: ResidualCat,
    bit: u32,
    name: &str,
    default_bit: u32,
    on: bool,
    out: &mut Vec<ResElem>,
) -> (c: Option<Vec<i32>>)
    requires
        old(e)@.awake(),
        old(ctxs)@.ok(),
        default_bit <= 1,
        bit < 64,
    ensures
        ({
            let (t, b) = dc_block(
                ResState {
                    e: old(e)@,
                    c: old(ctxs)@,
                    cur: old(neigh).cur.0,
                    trace: res_views(old(out)@),
                },
                around(*old(neigh)),
                cat,
                bit,
                name@,
                default_bit,
                on,
            );
            &&& final(e)@ == t.e
            &&& final(ctxs)@ == t.c
            &&& final(neigh).cur.0 == t.cur
            &&& res_views(final(out)@) == t.trace
            &&& opt_view(c) == b
        }),
        final(neigh).left == old(neigh).left,
        final(neigh).up == old(neigh).up,
        c is Some ==> c->0@.len() == cat.size(),
        final(e)@.live(),
        final(ctxs)@.ok(),
{
    proof {
        reveal(dc_block);
    }
    let ghost s = ResState { e: e@, c: ctxs@, cur: neigh.cur.0, trace: res_views(out@) };
    let up: u32 = neighbour_bit(&neigh.up, bit, default_bit);
    let left: u32 = neighbour_bit(&neigh.left, bit, default_bit);
    let c = decode_flagged(e, ctxs, cat, (2 * up + left) as usize, Ghost(s));
    if on {
        push_trace(out, name, name, c.as_ref());
    }
    if c.is_some() {
        neigh.cur.set(bit);
    }
    c
}

/// The flag of chroma AC block `k`: 0..=3 Cb, 4..=7 Cr, in raster order.
pub open spec fn ac_bit(k: int, ci: int, cj: int) -> u32 {
    ((if k < 4 {
        19int
    } else {
        35int
    }) + 4 * cj + ci) as u32
}

/// The context increment of chroma AC block `k`.
pub open spec fn ac_inc(cur: u64, n: CbfNeighbours, k: int, default_bit: u32) -> int {
    let (ci, cj) = (k % 2, (k / 2) % 2);
    let left = if ci > 0 {
        flag_bit(cur, ac_bit(k, ci - 1, cj))
    } else {
        near_bit(n.left, ac_bit(k, 1, cj), default_bit)
    };
    let up = if cj > 0 {
        flag_bit(cur, ac_bit(k, ci, cj - 1))
    } else {
        near_bit(n.up, ac_bit(k, ci, 1), default_bit)
    };
    2 * up + left
}

/// The chroma AC blocks from `k` on: four of Cb, then four of Cr.
pub open spec fn ac_blocks(
    s: ResState,
    acc: Seq<Option<Seq<i32>>>,
    k: int,
    n: CbfNeighbours,
    default_bit: u32,
    on: bool,
) -> (ResState, Seq<Option<Seq<i32>>>)
    decreases 8 - k,
{
    if k >= 8 {
        (s, acc)
    } else {
        let (s1, c) = flagged_block(s, ResidualCat::ChromaAc, ac_inc(s.cur, n, k, default_bit));
        let s2 = traced(s1, on, "AC Chroma"@, "AC Chroma"@, c);
        let s3 = if c is Some {
            ResState { cur: with_bit(s2.cur, ac_bit(k, k % 2, (k / 2) % 2)), ..s2 }
        } else {
            s2
        };
        ac_blocks(s3, acc.update(k, c), k + 1, n, default_bit, on)
    }
}

fn decode_ac_blocks(
    e: &mut CabacEngine,
    ctxs: &mut ResidualContexts,
    neigh: &mut CbfNeighbours,
    default_bit: u32,
    on: bool,
    out: &mut Vec<ResElem>,
) -> (blocks: Vec<Option<Vec<i32>>>)
    requires
        old(e)@.awake(),
        old(ctxs)@.ok(),
        default_bit <= 1,
    ensures
        ({
            let (t, b) = ac_blocks(
                ResState {
                    e: old(e)@,
                    c: old(ctxs)@,
                    cur: old(neigh).cur.0,
                    trace: res_views(old(out)@),
                },
                Seq::new(8, |i: int| None),
                0,
                around(*old(neigh)),
                default_bit,
                on,
            );
            &&& final(e)@ == t.e
            &&& final(ctxs)@ == t.c
            &&& final(neigh).cur.0 == t.cur
            &&& res_views(final(out)@) == t.trace
            &&& opt_views(blocks@) == b
        }),
        final(neigh).left == old(neigh).left,
        final(neigh).up == old(neigh).up,
        blocks@.len() == 8,
        sizes_ok(blocks@, 15),
        final(e)@.live(),
        final(ctxs)@.ok(),
{
    let mut blocks = empty_blocks(8);
    let ghost n = around(*neigh);
    let ghost mut s = ResState { e: e@, c: ctxs@, cur: neigh.cur.0, trace: res_views(out@) };
    let ghost whole = ac_blocks(s, opt_views(blocks@), 0, n, default_bit, on);
    for k in 0..8usize
        invariant
            n == around(*old(neigh)),
            neigh.left == n.left,
            neigh.up == n.up,
            default_bit <= 1,
            s == (ResState { e: e@, c: ctxs@, cur: neigh.cur.0, trace: res_views(out@) }),
            blocks@.len() == 8,
            sizes_ok(blocks@, 15),
            e@.awake(),
            k > 0 ==> e@.live(),
            ctxs@.ok(),
            whole == ac_blocks(s, opt_views(blocks@), k as int, n, default_bit, on),
    {
        let base: u32 = if k < 4 {
            19
        } else {
            35
        };
        let ci: u32 = (k % 2) as u32;
        let cj: u32 = ((k / 2) % 2) as u32;
        let left: u32 = if ci > 0 {
            neigh.cur.get(base + 4 * cj + (ci - 1))
        } else {
            neighbour_bit(&neigh.left, base + 4 * cj + 1, default_bit)
        };
        let up: u32 = if cj > 0 {
            neigh.cur.get(base + 4 * (cj - 1) + ci)
        } else {
            neighbour_bit(&neigh.up, base + 4 * 1 + ci, default_bit)
        };
        let c = decode_flagged(e, ctxs, ResidualCat::ChromaAc, (2 * up + left) as usize, Ghost(s));
        if on {
            push_trace(out, "AC Chroma", "AC Chroma", c.as_ref());
        }
        if c.is_some() {
            neigh.cur.set(base + 4 * cj + ci);
        }
        let ghost before = blocks@;
        let ghost cv = opt_view(c);
        blocks[k] = c;
        assert(opt_views(blocks@) =~= opt_views(before).update(k as int, cv));
        proof {
            s = ResState { e: e@, c: ctxs@, cur: neigh.cur.0, trace: res_views(out@) };
        }
    }
    blocks
}

// ---- reconstruction ----

/// Chroma QP of a luma QP with an offset (Table 8-15).
pub open spec fn chroma_qp_of(qpy: int, offset: int) -> int {
    let q = clip(0, 51, qpy + offset);
    if q < 30 {
        q
    } else if q <= 33 {
        q - 1
    } else if q <= 35 {
        q - 2
    } else if q <= 37 {
        34
    } else if q <= 39 {
        35
    } else if q <= 41 {
        36
    } else if q <= 44 {
        37
    } else if q <= 47 {
        38
    } else {
        39
    }
}

/// Chroma QP of a luma QP with an offset.
pub fn chroma_qp(qpy: i32, offset: i32) -> (r: i32)
    ensures
        r == chroma_qp_of(qpy as int, offset as int),
        0 <= r <= 39,
{
    let sum: i64 = qpy as i64 + offset as i64;
    let q: i32 = if sum < 0 {
        0
    } else if sum > 51 {
        51
    } else {
        sum as i32
    };
    if q < 30 {
        q
    } else if q <= 33 {
        q - 1
    } else if q <= 35 {
        q - 2
    } else if q <= 37 {
        34
    } else if q <= 39 {
        35
    } else if q <= 41 {
        36
    } else if q <= 44 {
        37
    } else if q <= 47 {
        38
    } else {
        39
    }
}

/// The residual samples of a macroblock.
#[derive(Clone, Copy)]
pub struct MbResidual {
    pub luma: [[i32; 16]; 16],
    pub cb: [[i32; 8]; 8],
    pub cr: [[i32; 8]; 8],
}

/// The residual samples of a macroblock by row and column.
pub struct Residual {
    pub luma: Block,
    pub cb: Block,
    pub cr: Block,
}

/// A block of zeros.
pub open spec fn zero_block() -> Block {
    |i: int, j: int| 0i32
}

/// The residual of a macroblock without coefficients.
pub open spec fn zero_residual() -> Residual {
    Residual { luma: zero_block(), cb: zero_block(), cr: zero_block() }
}

/// The array holds the values of the block.
pub open spec fn shows16(a: [[i32; 16]; 16], b: Block) -> bool {
    forall|i: int, j: int| 0 <= i < 16 && 0 <= j < 16 ==> #[trigger] a[i][j] == b(i, j)
}

impl MbResidual {
    /// The arrays hold these samples.
    pub open spec fn shows(self, r: Residual) -> bool {
        &&& shows16(self.luma, r.luma)
        &&& crate::mvc::transform::shows8(self.cb, r.cb)
        &&& crate::mvc::transform::shows8(self.cr, r.cr)
    }
}

impl Default for MbResidual {
    fn default() -> (r: Self)
        ensures
            r.shows(zero_residual()),
    {
        MbResidual { luma: [[0i32; 16]; 16], cb: [[0i32; 8]; 8], cr: [[0i32; 8]; 8] }
    }
}

/// The coefficients of a block, zero where it is not coded.
pub open spec fn or_zeros(c: Option<Seq<i32>>, n: nat) -> Seq<i32> {
    match c {
        Some(v) => v,
        None => Seq::new(n, |i: int| 0i32),
    }
}

/// Fifteen AC coefficients behind a zero DC.
pub open spec fn ac_levels(c: Option<Seq<i32>>) -> Seq<i32> {
    seq![0i32] + or_zeros(c, 15)
}

/// A block with another DC value.
pub open spec fn with_dc(b: Block, dc: i32) -> Block {
    |i: int, j: int|
        if i == 0 && j == 0 {
            dc
        } else {
            b(i, j)
        }
}

/// The samples of a 4x4 block of AC coefficients around a dequantised DC.
pub open spec fn ac_samples(c: Option<Seq<i32>>, dc: i32, qp: int, w: Block) -> Block {
    idct4(with_dc(dequant4(unscan4(ac_levels(c)), qp, w), dc))
}

/// The samples of a 4x4 block.
pub open spec fn samples4(c: Option<Seq<i32>>, qp: int, w: Block) -> Block {
    match c {
        Some(v) => idct4(dequant4(unscan4(v), qp, w)),
        None => zero_block(),
    }
}

/// The samples of an 8x8 block.
pub open spec fn samples8(c: Option<Seq<i32>>, qp: int, w: Block) -> Block {
    match c {
        Some(v) => residual8(unscan8(v), qp, w),
        None => zero_block(),
    }
}

/// The luma samples of an Intra_16x16 macroblock.
pub open spec fn luma_i16(dc: Option<Seq<i32>>, ac: Seq<Option<Seq<i32>>>, qp: int, w: Block) -> Block {
    |y: int, x: int|
        ac_samples(
            ac[4 * (y / 4) + x / 4],
            luma_dc(unscan4(or_zeros(dc, 16)), qp, w(0, 0))(y / 4, x / 4),
            qp,
            w,
        )(y % 4, x % 4)
}

/// The luma samples of a macroblock of 4x4 blocks.
pub open spec fn luma_4x4(blocks: Seq<Option<Seq<i32>>>, qp: int, w: Block) -> Block {
    |y: int, x: int| samples4(blocks[4 * (y / 4) + x / 4], qp, w)(y % 4, x % 4)
}

/// The luma samples of a macroblock of 8x8 blocks.
pub open spec fn luma_8x8(blocks: Seq<Option<Seq<i32>>>, qp: int, w: Block) -> Block {
    |y: int, x: int| samples8(blocks[2 * (y / 8) + x / 8], qp, w)(y % 8, x % 8)
}

/// The samples of a chroma plane, whose AC blocks start at `first`.
pub open spec fn chroma_plane(
    dc: Option<Seq<i32>>,
    ac: Seq<Option<Seq<i32>>>,
    first: int,
    qp: int,
    w: Block,
) -> Block {
    |y: int, x: int|
        ac_samples(
            ac[first + 2 * (y / 4) + x / 4],
            chroma_dc(or_zeros(dc, 4), qp, w(0, 0))[2 * (y / 4) + x / 4],
            qp,
            w,
        )(y % 4, x % 4)
}

fn scan16(c: &Option<Vec<i32>>, skip: usize) -> (r: [i32; 16])
    requires
        skip <= 1,
        *c is Some ==> c->0@.len() == 16 - skip,
    ensures
        skip == 0 ==> r@ == or_zeros(opt_view(*c), 16),
        skip == 1 ==> r@ == ac_levels(opt_view(*c)),
{
    let mut r: [i32; 16] = [0i32; 16];
    match c {
        Some(v) => {
            for i in 0..v.len()
                invariant
                    skip <= 1,
                    v@.len() == 16 - skip,
                    skip == 1 ==> r@[0] == 0,
                    forall|j: int| 0 <= j < i ==> #[trigger] r@[j + skip] == v@[j],
            {
                r[i + skip] = v[i];
            }
            proof {
                if skip == 0 {
                    assert forall|j: int| 0 <= j < 16 implies r@[j] == v@[j] by {
                        assert(r@[j + skip] == v@[j]);
                    }
                    assert(r@ =~= v@);
                } else {
                    assert forall|j: int| 1 <= j < 16 implies r@[j] == v@[j - 1] by {
                        assert(r@[(j - 1) + skip] == v@[j - 1]);
                    }
                    assert(r@ =~= seq![0i32] + v@);
                }
            }
        },
        None => {
            if skip == 0 {
                assert(r@ =~= Seq::new(16, |i: int| 0i32));
            } else {
                assert(r@ =~= seq![0i32] + Seq::new(15, |i: int| 0i32));
            }
        },
    }
    r
}

fn ac_block_samples(c: &Option<Vec<i32>>, dc: i32, qp: i32, w: &[[i32; 4]; 4]) -> (r: [[i32; 4]; 4])
    requires
        0 <= qp <= 51,
        *c is Some ==> c->0@.len() == 15,
    ensures
        crate::mvc::transform::shows4(r, ac_samples(opt_view(*c), dc, qp as int, block4(*w))),
{
    let scan = scan16(c, 1);
    let mut d = inverse_scan_4x4(&scan);
    let ghost levels = unscan4(scan@);
    let ghost d0 = block4(d);
    dequant_4x4_weighted(&mut d, qp, w);
    let ghost deq = dequant4(levels, qp as int, block4(*w));
    d[0][0] = dc;
    let ghost want = with_dc(deq, dc);
    proof {
        assert forall|i: int, j: int| 0 <= i < 4 && 0 <= j < 4 implies #[trigger] block4(d)(i, j)
            == want(i, j) by {
            assert(d0(i, j) == levels(i, j));
        }
        lemma_idct4_reads(block4(d), want);
    }
    idct_4x4(&d)
}

fn block_samples4(c: &Option<Vec<i32>>, qp: i32, w: &[[i32; 4]; 4]) -> (r: [[i32; 4]; 4])
    requires
        0 <= qp <= 51,
        *c is Some ==> c->0@.len() == 16,
    ensures
        crate::mvc::transform::shows4(r, samples4(opt_view(*c), qp as int, block4(*w))),
{
    if c.is_none() {
        return [[0i32; 4]; 4];
    }
    let scan = scan16(c, 0);
    let mut d = inverse_scan_4x4(&scan);
    let ghost levels = unscan4(scan@);
    let ghost d0 = block4(d);
    dequant_4x4_weighted(&mut d, qp, w);
    let ghost deq = dequant4(levels, qp as int, block4(*w));
    proof {
        assert forall|i: int, j: int| 0 <= i < 4 && 0 <= j < 4 implies #[trigger] block4(d)(i, j)
            == deq(i, j) by {
            assert(d0(i, j) == levels(i, j));
        }
        lemma_idct4_reads(block4(d), deq);
    }
    idct_4x4(&d)
}

fn block_samples8(c: &Option<Vec<i32>>, qp: i32, w: &[[i32; 8]; 8]) -> (r: [[i32; 8]; 8])
    requires
        0 <= qp <= 51,
        *c is Some ==> c->0@.len() == 64,
    ensures
        crate::mvc::transform::shows8(r, samples8(opt_view(*c), qp as int, block8(*w))),
{
    match c {
        None => [[0i32; 8]; 8],
        Some(v) => {
            let mut scan: [i32; 64] = [0i32; 64];
            for i in 0..64usize
                invariant
                    v@.len() == 64,
                    forall|j: int| 0 <= j < i ==> #[trigger] scan@[j] == v@[j],
            {
                scan[i] = v[i];
            }
            assert(scan@ =~= v@);
            let d = inverse_scan_8x8(&scan);
            let r = reconstruct_residual_8x8(&d, qp, w);
            proof {
                lemma_residual8_reads(block8(d), unscan8(v@), qp as int, block8(*w));
            }
            r
        },
    }
}

proof fn lemma_residual8_reads(a: Block, b: Block, qp: int, w: Block)
    requires
        forall|i: int, j: int| 0 <= i < 8 && 0 <= j < 8 ==> #[trigger] a(i, j) == b(i, j),
    ensures
        forall|i: int, j: int|
            0 <= i < 8 && 0 <= j < 8 ==> #[trigger] residual8(a, qp, w)(i, j) == residual8(b, qp, w)(
                i,
                j,
            ),
{
    let da = crate::mvc::transform::dequant8(a, qp, w);
    let db = crate::mvc::transform::dequant8(b, qp, w);
    assert forall|i: int, j: int| 0 <= i < 8 && 0 <= j < 8 implies #[trigger] da(i, j) == db(i, j) by {
        assert(a(i, j) == b(i, j));
    }
    crate::mvc::transform::lemma_inverse8_reads(da, db);
    assert forall|i: int, j: int| 0 <= i < 8 && 0 <= j < 8 implies #[trigger] residual8(a, qp, w)(
        i,
        j,
    ) == residual8(b, qp, w)(i, j) by {
        assert(crate::mvc::transform::inverse8(da)(i, j) == crate::mvc::transform::inverse8(db)(i, j));
    }
}

fn put4_in16(dst: &mut [[i32; 16]; 16], by: usize, bx: usize, b: &[[i32; 4]; 4])
    requires
        by < 4,
        bx < 4,
    ensures
        forall|y: int, x: int|
            0 <= y < 16 && 0 <= x < 16 ==> #[trigger] final(dst)[y][x] == (if y / 4 == by && x / 4
                == bx {
                b[y % 4][x % 4]
            } else {
                old(dst)[y][x]
            }),
{
    for i in 0..4usize
        invariant
            by < 4,
            bx < 4,
            forall|y: int, x: int|
                0 <= y < 16 && 0 <= x < 16 ==> #[trigger] dst[y][x] == (if y / 4 == by && x / 4 == bx
                    && y % 4 < i {
                    b[y % 4][x % 4]
                } else {
                    old(dst)[y][x]
                }),
    {
        for j in 0..4usize
            invariant
                i < 4,
                by < 4,
                bx < 4,
                forall|y: int, x: int|
                    0 <= y < 16 && 0 <= x < 16 ==> #[trigger] dst[y][x] == (if y / 4 == by && x / 4
                        == bx && (y % 4 < i || (y % 4 == i && x % 4 < j)) {
                        b[y % 4][x % 4]
                    } else {
                        old(dst)[y][x]
                    }),
        {
            dst[4 * by + i][4 * bx + j] = b[i][j];
        }
    }
}

fn put8_in16(dst: &mut [[i32; 16]; 16], by: usize, bx: usize, b: &[[i32; 8]; 8])
    requires
        by < 2,
        bx < 2,
    ensures
        forall|y: int, x: int|
            0 <= y < 16 && 0 <= x < 16 ==> #[trigger] final(dst)[y][x] == (if y / 8 == by && x / 8
                == bx {
                b[y % 8][x % 8]
            } else {
                old(dst)[y][x]
            }),
{
    for i in 0..8usize
        invariant
            by < 2,
            bx < 2,
            forall|y: int, x: int|
                0 <= y < 16 && 0 <= x < 16 ==> #[trigger] dst[y][x] == (if y / 8 == by && x / 8 == bx
                    && y % 8 < i {
                    b[y % 8][x % 8]
                } else {
                    old(dst)[y][x]
                }),
    {
        for j in 0..8usize
            invariant
                i < 8,
                by < 2,
                bx < 2,
                forall|y: int, x: int|
                    0 <= y < 16 && 0 <= x < 16 ==> #[trigger] dst[y][x] == (if y / 8 == by && x / 8
                        == bx && (y % 8 < i || (y % 8 == i && x % 8 < j)) {
                        b[y % 8][x % 8]
                    } else {
                        old(dst)[y][x]
                    }),
        {
            dst[8 * by + i][8 * bx + j] = b[i][j];
        }
    }
}

fn put4_in8(dst: &mut [[i32; 8]; 8], by: usize, bx: usize, b: &[[i32; 4]; 4])
    requires
        by < 2,
        bx < 2,
    ensures
        forall|y: int, x: int|
            0 <= y < 8 && 0 <= x < 8 ==> #[trigger] final(dst)[y][x] == (if y / 4 == by && x / 4
                == bx {
                b[y % 4][x % 4]
            } else {
                old(dst)[y][x]
            }),
{
    for i in 0..4usize
        invariant
            by < 2,
            bx < 2,
            forall|y: int, x: int|
                0 <= y < 8 && 0 <= x < 8 ==> #[trigger] dst[y][x] == (if y / 4 == by && x / 4 == bx
                    && y % 4 < i {
                    b[y % 4][x % 4]
                } else {
                    old(dst)[y][x]
                }),
    {
        for j in 0..4usize
            invariant
                i < 4,
                by < 2,
                bx < 2,
                forall|y: int, x: int|
                    0 <= y < 8 && 0 <= x < 8 ==> #[trigger] dst[y][x] == (if y / 4 == by && x / 4
                        == bx && (y % 4 < i || (y % 4 == i && x % 4 < j)) {
                        b[y % 4][x % 4]
                    } else {
                        old(dst)[y][x]
                    }),
        {
            dst[4 * by + i][4 * bx + j] = b[i][j];
        }
    }
}

fn rebuild_i16(dc: &Option<Vec<i32>>, ac: &Vec<Option<Vec<i32>>>, qp: i32, w: &[[i32; 4]; 4]) -> (r: [[i32; 16]; 16])
    requires
        0 <= qp <= 51,
        *dc is Some ==> dc->0@.len() == 16,
        ac@.len() == 16,
        sizes_ok(ac@, 15),
    ensures
        shows16(r, luma_i16(opt_view(*dc), opt_views(ac@), qp as int, block4(*w))),
{
    let scan = scan16(dc, 0);
    let c = inverse_scan_4x4(&scan);
    let dcs = luma_dc_4x4_weighted(&c, qp, w[0][0]);
    let ghost levels = unscan4(or_zeros(opt_view(*dc), 16));
    let ghost wb = block4(*w);
    proof {
        lemma_luma_dc_reads(block4(c), levels, qp as int, w[0][0]);
    }
    let ghost want = luma_i16(opt_view(*dc), opt_views(ac@), qp as int, wb);
    let mut r: [[i32; 16]; 16] = [[0i32; 16]; 16];
    for b in 0..16usize
        invariant
            0 <= qp <= 51,
            ac@.len() == 16,
            sizes_ok(ac@, 15),
            wb == block4(*w),
            levels == unscan4(or_zeros(opt_view(*dc), 16)),
            want == luma_i16(opt_view(*dc), opt_views(ac@), qp as int, wb),
            forall|i: int, j: int|
                0 <= i < 4 && 0 <= j < 4 ==> #[trigger] dcs[i][j] == luma_dc(
                    levels,
                    qp as int,
                    wb(0, 0),
                )(i, j),
            forall|y: int, x: int|
                0 <= y < 16 && 0 <= x < 16 && 4 * (y / 4) + x / 4 < b ==> #[trigger] r[y][x] == want(
                    y,
                    x,
                ),
    {
        let s = ac_block_samples(&ac[b], dcs[b / 4][b % 4], qp, w);
        put4_in16(&mut r, b / 4, b % 4, &s);
        proof {
            assert(opt_views(ac@)[b as int] == opt_view(ac@[b as int]));
            assert forall|y: int, x: int|
                0 <= y < 16 && 0 <= x < 16 && 4 * (y / 4) + x / 4 < b + 1 implies #[trigger] r[y][x]
                == want(y, x) by {
                if 4 * (y / 4) + x / 4 == b {
                    assert(y / 4 == b / 4 && x / 4 == b % 4);
                    assert(dcs[y / 4][x / 4] == luma_dc(levels, qp as int, wb(0, 0))(y / 4, x / 4));
                    assert(s[y % 4][x % 4] == ac_samples(
                        opt_view(ac@[b as int]),
                        dcs[b as int / 4][b as int % 4],
                        qp as int,
                        wb,
                    )(y % 4, x % 4));
                }
            }
        }
    }
    r
}

proof fn lemma_luma_dc_reads(a: Block, b: Block, qp: int, w: i32)
    requires
        forall|i: int, j: int| 0 <= i < 4 && 0 <= j < 4 ==> #[trigger] a(i, j) == b(i, j),
    ensures
        forall|i: int, j: int|
            0 <= i < 4 && 0 <= j < 4 ==> #[trigger] luma_dc(a, qp, w)(i, j) == luma_dc(b, qp, w)(
                i,
                j,
            ),
{
    crate::mvc::transform::lemma_hadamard_reads(a, b);
    assert forall|i: int, j: int| 0 <= i < 4 && 0 <= j < 4 implies #[trigger] luma_dc(a, qp, w)(i, j)
        == luma_dc(b, qp, w)(i, j) by {
        assert(crate::mvc::transform::hadamard(a)(i, j) == crate::mvc::transform::hadamard(b)(i, j));
    }
}

fn rebuild_4x4(blocks: &Vec<Option<Vec<i32>>>, qp: i32, w: &[[i32; 4]; 4]) -> (r: [[i32; 16]; 16])
    requires
        0 <= qp <= 51,
        blocks@.len() == 16,
        sizes_ok(blocks@, 16),
    ensures
        shows16(r, luma_4x4(opt_views(blocks@), qp as int, block4(*w))),
{
    let ghost want = luma_4x4(opt_views(blocks@), qp as int, block4(*w));
    let mut r: [[i32; 16]; 16] = [[0i32; 16]; 16];
    for b in 0..16usize
        invariant
            0 <= qp <= 51,
            blocks@.len() == 16,
            sizes_ok(blocks@, 16),
            want == luma_4x4(opt_views(blocks@), qp as int, block4(*w)),
            forall|y: int, x: int|
                0 <= y < 16 && 0 <= x < 16 && 4 * (y / 4) + x / 4 < b ==> #[trigger] r[y][x] == want(
                    y,
                    x,
                ),
    {
        let s = block_samples4(&blocks[b], qp, w);
        put4_in16(&mut r, b / 4, b % 4, &s);
        proof {
            assert(opt_views(blocks@)[b as int] == opt_view(blocks@[b as int]));
            assert forall|y: int, x: int|
                0 <= y < 16 && 0 <= x < 16 && 4 * (y / 4) + x / 4 < b + 1 implies #[trigger] r[y][x]
                == want(y, x) by {
                if 4 * (y / 4) + x / 4 == b {
                    assert(y / 4 == b / 4 && x / 4 == b % 4);
                    assert(s[y % 4][x % 4] == samples4(
                        opt_view(blocks@[b as int]),
                        qp as int,
                        block4(*w),
                    )(y % 4, x % 4));
                }
            }
        }
    }
    r
}

fn rebuild_8x8(blocks: &Vec<Option<Vec<i32>>>, qp: i32, w: &[[i32; 8]; 8]) -> (r: [[i32; 16]; 16])
    requires
        0 <= qp <= 51,
        blocks@.len() == 4,
        sizes_ok(blocks@, 64),
    ensures
        shows16(r, luma_8x8(opt_views(blocks@), qp as int, block8(*w))),
{
    let ghost want = luma_8x8(opt_views(blocks@), qp as int, block8(*w));
    let mut r: [[i32; 16]; 16] = [[0i32; 16]; 16];
    for b in 0..4usize
        invariant
            0 <= qp <= 51,
            blocks@.len() == 4,
            sizes_ok(blocks@, 64),
            want == luma_8x8(opt_views(blocks@), qp as int, block8(*w)),
            forall|y: int, x: int|
                0 <= y < 16 && 0 <= x < 16 && 2 * (y / 8) + x / 8 < b ==> #[trigger] r[y][x] == want(
                    y,
                    x,
                ),
    {
        let s = block_samples8(&blocks[b], qp, w);
        put8_in16(&mut r, b / 2, b % 2, &s);
        proof {
            assert(opt_views(blocks@)[b as int] == opt_view(blocks@[b as int]));
            assert forall|y: int, x: int|
                0 <= y < 16 && 0 <= x < 16 && 2 * (y / 8) + x / 8 < b + 1 implies #[trigger] r[y][x]
                == want(y, x) by {
                if 2 * (y / 8) + x / 8 == b {
                    assert(y / 8 == b / 2 && x / 8 == b % 2);
                    assert(s[y % 8][x % 8] == samples8(
                        opt_view(blocks@[b as int]),
                        qp as int,
                        block8(*w),
                    )(y % 8, x % 8));
                }
            }
        }
    }
    r
}

fn rebuild_chroma(
    dc: &Option<Vec<i32>>,
    ac: &Vec<Option<Vec<i32>>>,
    first: usize,
    qp: i32,
    w: &[[i32; 4]; 4],
) -> (r: [[i32; 8]; 8])
    requires
        0 <= qp <= 51,
        *dc is Some ==> dc->0@.len() == 4,
        ac@.len() == 8,
        sizes_ok(ac@, 15),
        first <= 4,
    ensures
        crate::mvc::transform::shows8(
            r,
            chroma_plane(opt_view(*dc), opt_views(ac@), first as int, qp as int, block4(*w)),
        ),
{
    let c: [[i32; 2]; 2] = match dc {
        Some(v) => [[v[0], v[1]], [v[2], v[3]]],
        None => [[0, 0], [0, 0]],
    };
    let dcs = chroma_dc_2x2_weighted(&c, qp, w[0][0]);
    let ghost wb = block4(*w);
    let ghost levels = or_zeros(opt_view(*dc), 4);
    assert(seq![c[0][0], c[0][1], c[1][0], c[1][1]] =~= levels);
    let ghost dcv = chroma_dc(levels, qp as int, wb(0, 0));
    assert(dcv == seq![dcs[0][0], dcs[0][1], dcs[1][0], dcs[1][1]]);
    let ghost want = chroma_plane(opt_view(*dc), opt_views(ac@), first as int, qp as int, wb);
    let mut r: [[i32; 8]; 8] = [[0i32; 8]; 8];
    for b in 0..4usize
        invariant
            0 <= qp <= 51,
            ac@.len() == 8,
            sizes_ok(ac@, 15),
            first <= 4,
            wb == block4(*w),
            dcv == chroma_dc(or_zeros(opt_view(*dc), 4), qp as int, wb(0, 0)),
            dcv == seq![dcs[0][0], dcs[0][1], dcs[1][0], dcs[1][1]],
            want == chroma_plane(opt_view(*dc), opt_views(ac@), first as int, qp as int, wb),
            forall|y: int, x: int|
                0 <= y < 8 && 0 <= x < 8 && 2 * (y / 4) + x / 4 < b ==> #[trigger] r[y][x] == want(
                    y,
                    x,
                ),
    {
        let s = ac_block_samples(&ac[first + b], dcs[b / 2][b % 2], qp, w);
        put4_in8(&mut r, b / 2, b % 2, &s);
        proof {
            assert(opt_views(ac@)[first + b] == opt_view(ac@[first + b]));
            assert(dcv[b as int] == dcs[b as int / 2][b as int % 2]);
            assert forall|y: int, x: int|
                0 <= y < 8 && 0 <= x < 8 && 2 * (y / 4) + x / 4 < b + 1 implies #[trigger] r[y][x]
                == want(y, x) by {
                if 2 * (y / 4) + x / 4 == b {
                    assert(y / 4 == b / 2 && x / 4 == b % 2);
                    assert(s[y % 4][x % 4] == ac_samples(
                        opt_view(ac@[first + b]),
                        dcv[b as int],
                        qp as int,
                        wb,
                    )(y % 4, x % 4));
                }
            }
        }
    }
    r
}

/// No block coded yet.
pub open spec fn no_blocks(n: nat) -> Seq<Option<Seq<i32>>> {
    Seq::new(n, |i: int| None)
}

/// What the residual of a macroblock depends on besides the stream.
pub struct ResParams {
    pub info: MbInfo,
    pub n: CbfNeighbours,
    pub qp: int,
    pub chroma_offset: int,
    pub is_inter: bool,
    pub scaling: ScalingLists,
    pub on: bool,
}

/// The luma half of a macroblock's residual.
#[verifier::opaque]
pub open spec fn luma_residual(s: ResState, p: ResParams) -> (ResState, Block) {
    let cbp_luma = p.info.cbp % 16;
    let default_bit = if p.is_inter {
        0u32
    } else {
        1u32
    };
    let first = if p.is_inter {
        3int
    } else {
        0int
    };
    let w = block4(p.scaling.list_4x4[first]);
    if !p.info.i_nxn && !p.is_inter {
        let (s1, dc) = dc_block(
            s,
            p.n,
            ResidualCat::Luma16Dc,
            0,
            "DC luma 16x16"@,
            default_bit,
            p.on,
        );
        let (s2, ac) = luma_blocks(
            s1,
            no_blocks(16),
            0,
            p.n,
            ResidualCat::Luma16Ac,
            cbp_luma,
            default_bit,
            p.on,
        );
        (s2, luma_i16(dc, ac, p.qp, w))
    } else if p.info.transform8x8 {
        let (s1, b) = luma8_blocks(s, no_blocks(4), 0, cbp_luma, p.on);
        (
            s1,
            luma_8x8(
                b,
                p.qp,
                block8(
                    p.scaling.list_8x8[if p.is_inter {
                        1int
                    } else {
                        0int
                    }],
                ),
            ),
        )
    } else {
        let (s1, b) = luma_blocks(
            s,
            no_blocks(16),
            0,
            p.n,
            ResidualCat::Luma4x4,
            cbp_luma,
            default_bit,
            p.on,
        );
        (s1, luma_4x4(b, p.qp, w))
    }
}

/// The chroma half of a macroblock's residual: DC of both planes, then AC.
#[verifier::opaque]
pub open spec fn chroma_residual(s: ResState, p: ResParams) -> (ResState, Block, Block) {
    let cbp_chroma = p.info.cbp / 16;
    let default_bit = if p.is_inter {
        0u32
    } else {
        1u32
    };
    let first = if p.is_inter {
        3int
    } else {
        0int
    };
    if cbp_chroma == 0 {
        (s, zero_block(), zero_block())
    } else {
        let name = "2x2 DC Chroma"@;
        let (s1, dcb) = dc_block(s, p.n, ResidualCat::ChromaDc, 17, name, default_bit, p.on);
        let (s2, dcr) = dc_block(s1, p.n, ResidualCat::ChromaDc, 18, name, default_bit, p.on);
        let (s3, ac) = if cbp_chroma == 2 {
            ac_blocks(s2, no_blocks(8), 0, p.n, default_bit, p.on)
        } else {
            (s2, no_blocks(8))
        };
        let qpc = chroma_qp_of(p.qp, p.chroma_offset);
        (
            s3,
            chroma_plane(dcb, ac, 0, qpc, block4(p.scaling.list_4x4[first + 1])),
            chroma_plane(dcr, ac, 4, qpc, block4(p.scaling.list_4x4[first + 2])),
        )
    }
}

/// The residual of a macroblock: the state after it, and its samples. An
/// Intra_16x16 macroblock always has a luma DC block.
#[verifier::opaque]
pub open spec fn mb_residual(s: ResState, p: ResParams) -> (ResState, Residual) {
    let (s1, luma) = luma_residual(s, p);
    let (s2, cb, cr) = chroma_residual(s1, p);
    (s2, Residual { luma, cb, cr })
}

fn decode_luma_residual(
    e: &mut CabacEngine,
    ctxs: &mut ResidualContexts,
    info: &MbInfo,
    neigh: &mut CbfNeighbours,
    qp: i32,
    is_inter: bool,
    scaling: &ScalingLists,
    on: bool,
    out: &mut Vec<ResElem>,
    Ghost(p): Ghost<ResParams>,
) -> (r: [[i32; 16]; 16])
    requires
        old(e)@.awake(),
        old(ctxs)@.ok(),
        0 <= qp <= 51,
        p.info == *info,
        p.n == around(*old(neigh)),
        p.qp == qp,
        p.is_inter == is_inter,
        p.scaling == *scaling,
        p.on == on,
    ensures
        ({
            let (t, luma) = luma_residual(
                ResState {
                    e: old(e)@,
                    c: old(ctxs)@,
                    cur: old(neigh).cur.0,
                    trace: res_views(old(out)@),
                },
                p,
            );
            &&& final(e)@ == t.e
            &&& final(ctxs)@ == t.c
            &&& final(neigh).cur.0 == t.cur
            &&& res_views(final(out)@) == t.trace
            &&& shows16(r, luma)
        }),
        around(*final(neigh)) == p.n,
        final(e)@.awake(),
        old(e)@.live() ==> final(e)@.live(),
        final(ctxs)@.ok(),
{
    proof {
        reveal(luma_residual);
    }
    let cbp_luma: u8 = info.cbp % 16;
    let default_bit: u32 = if is_inter {
        0
    } else {
        1
    };
    let first: usize = if is_inter {
        3
    } else {
        0
    };
    assert(no_blocks(16) =~= Seq::new(16, |i: int| None::<Seq<i32>>));
    assert(no_blocks(4) =~= Seq::new(4, |i: int| None::<Seq<i32>>));
    if !info.i_nxn && !is_inter {
        let dc = decode_dc_block(
            e,
            ctxs,
            neigh,
            ResidualCat::Luma16Dc,
            0,
            "DC luma 16x16",
            default_bit,
            on,
            out,
        );
        let ac = decode_luma_4x4_blocks(
            e,
            ctxs,
            neigh,
            ResidualCat::Luma16Ac,
            cbp_luma,
            default_bit,
            on,
            out,
        );
        rebuild_i16(&dc, &ac, qp, &scaling.list_4x4[first])
    } else if info.transform8x8 {
        let b = decode_luma_8x8_blocks(e, ctxs, neigh, cbp_luma, on, out);
        let which: usize = if is_inter {
            1
        } else {
            0
        };
        rebuild_8x8(&b, qp, &scaling.list_8x8[which])
    } else {
        let b = decode_luma_4x4_blocks(
            e,
            ctxs,
            neigh,
            ResidualCat::Luma4x4,
            cbp_luma,
            default_bit,
            on,
            out,
        );
        rebuild_4x4(&b, qp, &scaling.list_4x4[first])
    }
}

fn decode_chroma_residual(
    e: &mut CabacEngine,
    ctxs: &mut ResidualContexts,
    info: &MbInfo,
    neigh: &mut CbfNeighbours,
    qp: i32,
    chroma_qp_index_offset: i32,
    is_inter: bool,
    scaling: &ScalingLists,
    on: bool,
    out: &mut Vec<ResElem>,
    Ghost(p): Ghost<ResParams>,
) -> (r: ([[i32; 8]; 8], [[i32; 8]; 8]))
    requires
        old(e)@.awake(),
        old(ctxs)@.ok(),
        0 <= qp <= 51,
        p.info == *info,
        p.n == around(*old(neigh)),
        p.qp == qp,
        p.chroma_offset == chroma_qp_index_offset,
        p.is_inter == is_inter,
        p.scaling == *scaling,
        p.on == on,
    ensures
        ({
            let (t, cb, cr) = chroma_residual(
                ResState {
                    e: old(e)@,
                    c: old(ctxs)@,
                    cur: old(neigh).cur.0,
                    trace: res_views(old(out)@),
                },
                p,
            );
            &&& final(e)@ == t.e
            &&& final(ctxs)@ == t.c
            &&& final(neigh).cur.0 == t.cur
            &&& res_views(final(out)@) == t.trace
            &&& crate::mvc::transform::shows8(r.0, cb)
            &&& crate::mvc::transform::shows8(r.1, cr)
        }),
        around(*final(neigh)) == p.n,
        final(e)@.awake(),
        old(e)@.live() ==> final(e)@.live(),
        final(ctxs)@.ok(),
{
    proof {
        reveal(chroma_residual);
    }
    let cbp_chroma: u8 = info.cbp / 16;
    let default_bit: u32 = if is_inter {
        0
    } else {
        1
    };
    let first: usize = if is_inter {
        3
    } else {
        0
    };
    assert(no_blocks(8) =~= Seq::new(8, |i: int| None::<Seq<i32>>));
    if cbp_chroma == 0 {
        return ([[0i32; 8]; 8], [[0i32; 8]; 8]);
    }
    let dcb = decode_dc_block(
        e,
        ctxs,
        neigh,
        ResidualCat::ChromaDc,
        17,
        "2x2 DC Chroma",
        default_bit,
        on,
        out,
    );
    let dcr = decode_dc_block(
        e,
        ctxs,
        neigh,
        ResidualCat::ChromaDc,
        18,
        "2x2 DC Chroma",
        default_bit,
        on,
        out,
    );
    let ac = if cbp_chroma == 2 {
        decode_ac_blocks(e, ctxs, neigh, default_bit, on, out)
    } else {
        empty_blocks(8)
    };
    let qpc: i32 = chroma_qp(qp, chroma_qp_index_offset);
    let cb = rebuild_chroma(&dcb, &ac, 0, qpc, &scaling.list_4x4[first + 1]);
    let cr = rebuild_chroma(&dcr, &ac, 4, qpc, &scaling.list_4x4[first + 2]);
    (cb, cr)
}

/// The macroblock has no coefficients that are scaled.
pub open spec fn uncoded(info: MbInfo, is_inter: bool) -> bool {
    info.cbp == 0 && (is_inter || info.i_nxn)
}

proof fn lemma_no_regions(
    s: ResState,
    acc: Seq<Option<Seq<i32>>>,
    k: int,
    n: CbfNeighbours,
    cat: ResidualCat,
    bit: u32,
    on: bool,
)
    ensures
        luma_blocks(s, acc, k, n, cat, 0, bit, on) == (s, acc),
    decreases 16 - k,
{
    if k < 16 {
        lemma_no_regions(s, acc, k + 1, n, cat, bit, on);
    }
}

proof fn lemma_no_regions8(s: ResState, acc: Seq<Option<Seq<i32>>>, b8: int, on: bool)
    ensures
        luma8_blocks(s, acc, b8, 0, on) == (s, acc),
    decreases 4 - b8,
{
    if b8 < 4 {
        lemma_no_regions8(s, acc, b8 + 1, on);
    }
}

proof fn lemma_uncoded_luma(s: ResState, p: ResParams)
    requires
        uncoded(p.info, p.is_inter),
    ensures
        luma_residual(s, p).0 == s,
        forall|y: int, x: int|
            0 <= y < 16 && 0 <= x < 16 ==> #[trigger] (luma_residual(s, p).1)(y, x) == 0,
{
    let bit = if p.is_inter {
        0u32
    } else {
        1u32
    };
    lemma_no_regions(s, no_blocks(16), 0, p.n, ResidualCat::Luma4x4, bit, p.on);
    lemma_no_regions8(s, no_blocks(4), 0, p.on);
    let w4 = block4(p.scaling.list_4x4[if p.is_inter { 3int } else { 0int }]);
    let w8 = block8(p.scaling.list_8x8[if p.is_inter { 1int } else { 0int }]);
    assert(luma_residual(s, p) == (if p.info.transform8x8 {
        (s, luma_8x8(no_blocks(4), p.qp, w8))
    } else {
        (s, luma_4x4(no_blocks(16), p.qp, w4))
    })) by {
        reveal(luma_residual);
    }
    assert forall|y: int, x: int| 0 <= y < 16 && 0 <= x < 16 implies #[trigger] (luma_residual(
        s,
        p,
    ).1)(y, x) == 0 by {
        assert(no_blocks(16)[4 * (y / 4) + x / 4] is None);
        assert(no_blocks(4)[2 * (y / 8) + x / 8] is None);
    }
}

proof fn lemma_uncoded(s: ResState, p: ResParams)
    requires
        uncoded(p.info, p.is_inter),
    ensures
        mb_residual(s, p).0 == s,
        mb_residual(s, p).1.cb == zero_block(),
        mb_residual(s, p).1.cr == zero_block(),
        forall|y: int, x: int|
            0 <= y < 16 && 0 <= x < 16 ==> #[trigger] (mb_residual(s, p).1.luma)(y, x) == 0,
{
    reveal(mb_residual);
    lemma_uncoded_luma(s, p);
    assert(chroma_residual(s, p) == (s, zero_block(), zero_block())) by {
        reveal(chroma_residual);
    }
}

/// Decode and reconstruct a macroblock's residual. `neigh.cur` takes the flags
/// of this macroblock; where `trace` is set, the levels are appended to `out`.
pub fn decode_residual(
    e: &mut CabacEngine,
    ctxs: &mut ResidualContexts,
    info: &MbInfo,
    neigh: &mut CbfNeighbours,
    qp: i32,
    chroma_qp_index_offset: i32,
    is_inter: bool,
    scaling: &ScalingLists,
    trace: bool,
    out: &mut Vec<ResElem>,
) -> (r: MbResidual)
    requires
        old(e)@.awake(),
        old(ctxs)@.ok(),
        0 <= qp <= 51 || uncoded(*info, is_inter),
    ensures
        ({
            let (t, res) = mb_residual(
                ResState {
                    e: old(e)@,
                    c: old(ctxs)@,
                    cur: old(neigh).cur.0,
                    trace: res_views(old(out)@),
                },
                ResParams {
                    info: *info,
                    n: around(*old(neigh)),
                    qp: qp as int,
                    chroma_offset: chroma_qp_index_offset as int,
                    is_inter,
                    scaling: *scaling,
                    on: trace,
                },
            );
            &&& final(e)@ == t.e
            &&& final(ctxs)@ == t.c
            &&& final(neigh).cur.0 == t.cur
            &&& res_views(final(out)@) == t.trace
            &&& r.shows(res)
        }),
        around(*final(neigh)) == around(*old(neigh)),
        final(e)@.awake(),
        old(e)@.live() ==> final(e)@.live(),
        final(ctxs)@.ok(),
{
    proof {
        reveal(mb_residual);
    }
    let ghost p = ResParams {
        info: *info,
        n: around(*neigh),
        qp: qp as int,
        chroma_offset: chroma_qp_index_offset as int,
        is_inter,
        scaling: *scaling,
        on: trace,
    };
    if info.cbp == 0 && (is_inter || info.i_nxn) {
        proof {
            lemma_uncoded(
                ResState { e: e@, c: ctxs@, cur: neigh.cur.0, trace: res_views(out@) },
                p,
            );
        }
        return MbResidual::default();
    }
    let luma = decode_luma_residual(
        e,
        ctxs,
        info,
        neigh,
        qp,
        is_inter,
        scaling,
        trace,
        out,
        Ghost(p),
    );
    let (cb, cr) = decode_chroma_residual(
        e,
        ctxs,
        info,
        neigh,
        qp,
        chroma_qp_index_offset,
        is_inter,
        scaling,
        trace,
        out,
        Ghost(p),
    );
    MbResidual { luma, cb, cr }
}

/// Decode and reconstruct a macroblock's residual, appending the decoded
/// levels to `out` as trace elements. `qp` is the macroblock's luma QP.
pub fn decode_mb_residual(
    e: &mut CabacEngine,
    ctxs: &mut ResidualContexts,
    info: &MbInfo,
    neigh: &mut CbfNeighbours,
    qp: i32,
    chroma_qp_index_offset: i32,
    is_inter: bool,
    scaling: &ScalingLists,
    out: &mut Vec<ResElem>,
) -> (r: MbResidual)
    requires
        old(e)@.awake(),
        old(ctxs)@.ok(),
        0 <= qp <= 51 || uncoded(*info, is_inter),
    ensures
        ({
            let (t, res) = mb_residual(
                ResState {
                    e: old(e)@,
                    c: old(ctxs)@,
                    cur: old(neigh).cur.0,
                    trace: res_views(old(out)@),
                },
                ResParams {
                    info: *info,
                    n: around(*old(neigh)),
                    qp: qp as int,
                    chroma_offset: chroma_qp_index_offset as int,
                    is_inter,
                    scaling: *scaling,
                    on: true,
                },
            );
            &&& final(e)@ == t.e
            &&& final(ctxs)@ == t.c
            &&& final(neigh).cur.0 == t.cur
            &&& res_views(final(out)@) == t.trace
            &&& r.shows(res)
        }),
        around(*final(neigh)) == around(*old(neigh)),
        final(e)@.awake(),
        old(e)@.live() ==> final(e)@.live(),
        final(ctxs)@.ok(),
{
    decode_residual(
        e,
        ctxs,
        info,
        neigh,
        qp,
        chroma_qp_index_offset,
        is_inter,
        scaling,
        true,
        out,
    )
}

} // verus!

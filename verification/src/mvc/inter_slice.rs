//! The macroblocks of a P or B slice. Both kinds share one decoder: a P slice
//! uses list 0 alone and has no direct partitions.

use crate::mvc::arith::lemma_row_of;
use crate::mvc::bitstream::BitReader;
use crate::mvc::cabac::{CabacEngine, Engine};
use crate::mvc::inter_plan::{
    all_direct, cells_ok, derive_spatial, direct_plan, list_mvs, list_refs, no_motion, paint, plan_of,
    plan_ok, read_list_mvs, read_list_refs, read_plan, skip_motion, skip_part, small, spatial_direct,
    Cell, DirectMotion, ListState, Part, Spatial,
};
use crate::mvc::inter_pred::{block_held, pictures, with_block, InterBlock, RefEnv, References};
use crate::mvc::mb_header::{
    cbp_of, chroma_mode, coded_block_pattern, decode_cbp_ctx, decode_chroma_mode, decode_dquant_ctx,
    decode_pred_modes, flag, has_cmode, i16_info, i16_mb_info, is_t8, modes_ok, pred_modes, qp_delta,
    MbInfo, Neighbors,
};
use crate::mvc::mb_inter::{
    b_mb_type, bins, decode_b_mb_type, decode_inter_mb_type, decode_mb_skip_flag,
    decode_mb_skip_flag_b, p_mb_type, InterBank, InterContexts,
};
use crate::mvc::mb_residual::{
    decode_residual, luma_nonzero, mb_residual, res_views, zero_residual, CbpBits, MbResidual,
    ResElem, ResState, Residual, ResidualBank, ResidualContexts,
};
use crate::mvc::pps::Pps;
use crate::mvc::recon::{
    band_fits, blank_grids, blank_info, blank_pic, change_qp, changed_qp, intra_mb,
    lemma_band_areas, lemma_joined_count, lemma_rows_before, mb_at, mb_pos, nothing_joined,
    pick_scaling, plan_view, reconstruct_intra_mb, residual_params, rows_before, uniform, Assembly,
    Band, Canvas, Grid, Joined, MbBands, MbGrids, MbPos, Pic, Picture, ReconError, SliceEnv,
};
use crate::mvc::recon_inter::{temporal_direct, temporal_motion, MotionData, MotionField};
use crate::mvc::scaling::ScalingLists;
use crate::mvc::slice_header::{
    parse_slice_header, widths_ok, PredWeights, SliceHeader, WeightTable,
};
use crate::mvc::sps::Sps;
use vstd::prelude::*;

verus! {

// ---- what a slice depends on ----

/// What the decoding of an inter slice depends on besides its bits: reference
/// pictures and their order counts by list, the co-located motion and the
/// default weights of bi-prediction.
pub struct InterEnv {
    pub env: SliceEnv,
    /// A B slice.
    pub two: bool,
    pub refs0: Seq<Picture>,
    pub refs1: Seq<Picture>,
    pub poc0: Seq<i32>,
    pub poc1: Seq<i32>,
    pub cur: i32,
    pub col: MotionData,
    pub mix: (i32, i32),
}

impl InterEnv {
    /// References and weights of a slice.
    pub open spec fn refs(self, weights: Option<WeightTable>) -> RefEnv {
        RefEnv {
            refs0: self.refs0,
            refs1: self.refs1,
            fw: 16 * self.env.width(),
            fh: 16 * self.env.height(),
            weights,
            mix: self.mix,
        }
    }
}

/// What a slice's header says about its motion.
pub struct SliceMode {
    pub weights: Option<WeightTable>,
    pub spatial: bool,
    pub num0: int,
    pub num1: int,
}

/// What the header of a slice says about its motion.
pub open spec fn slice_mode(rbsp: Seq<u8>, env: SliceEnv) -> SliceMode {
    let h = env.header(rbsp).0;
    SliceMode {
        weights: h.weights,
        spatial: h.fields.direct_spatial_mv_pred_flag,
        num0: h.fields.num_ref_idx_l0_active_minus1 + 1,
        num1: h.fields.num_ref_idx_l1_active_minus1 + 1,
    }
}

/// The lists of a frame's slices, and what direct prediction needs.
pub struct Lists<'a> {
    pub two: bool,
    pub refs: References<'a>,
    pub poc: [Vec<i32>; 2],
    pub cur: i32,
    pub col: &'a MotionField,
}

impl<'a> Lists<'a> {
    /// What the slices of a frame depend on.
    pub open spec fn env(self, env: SliceEnv) -> InterEnv {
        InterEnv {
            env,
            two: self.two,
            refs0: pictures(self.refs.l0@),
            refs1: pictures(self.refs.l1@),
            poc0: self.poc[0]@,
            poc1: self.poc[1]@,
            cur: self.cur,
            col: self.col@,
            mix: self.refs.mix,
        }
    }

    /// The references cover a frame of the sequence's size, and those of a B
    /// slice have order counts.
    pub open spec fn fits(self, env: SliceEnv) -> bool {
        &&& self.refs.ok()
        &&& self.refs.fw == 16 * env.width()
        &&& self.refs.fh == 16 * env.height()
        &&& self.two ==> self.poc[0]@.len() == self.refs.l0@.len() && self.poc[1]@.len()
            == self.refs.l1@.len()
    }

    /// The lists fit, and both lists of a B slice have a reference.
    pub open spec fn ok(self, env: SliceEnv) -> bool {
        &&& self.fits(env)
        &&& self.two ==> self.poc[0]@.len() > 0 && self.poc[1]@.len() > 0
    }
}

// ---- direct partitions ----

/// What direct prediction in a macroblock depends on.
pub struct DirectEnv {
    pub spatial: bool,
    pub sp: Spatial,
    pub col: MotionData,
    pub poc0: Seq<i32>,
    pub poc1: Seq<i32>,
    pub cur: i32,
    /// 4x4 blocks in a row of the frame.
    pub w4: int,
}

/// The co-located block is at rest on its first reference.
pub open spec fn col_zero(col: MotionData, k: int) -> bool {
    &&& k < col.refidx.len()
    &&& k < col.mv.len()
    &&& col.refidx[k] == 0
    &&& -1 <= col.mv[k].0 <= 1
    &&& -1 <= col.mv[k].1 <= 1
}

/// The co-located block of quarter `b8`: the 4x4 block in its outer corner.
pub open spec fn col_block(b8: int, pos: MbPos, w4: int) -> int {
    let x = 4 * pos.x + (if b8 % 2 == 0 {
        0int
    } else {
        3
    });
    let y = 4 * pos.y + (if b8 / 2 == 0 {
        0int
    } else {
        3
    });
    y * w4 + x
}

/// The motion of direct quarter `b8`.
#[verifier::opaque]
pub open spec fn direct_motion(d: DirectEnv, b8: int, pos: MbPos) -> DirectMotion {
    let k = col_block(b8, pos, d.w4);
    if d.spatial {
        d.sp.motion(col_zero(d.col, k))
    } else {
        temporal_motion(d.col, k, d.poc0, d.poc1, d.cur)
    }
}

/// The inferred motion of a block in one list.
pub open spec fn direct_cell(mv: (i32, i32), r: i32) -> Cell {
    Cell { mv, mvd: (0, 0), refi: r, direct: true }
}

/// The direct partitions of a macroblock, from partition `i` on, with their
/// motion.
pub open spec fn place_direct(
    g0: Grid<Cell>,
    g1: Grid<Cell>,
    plan: Seq<Part>,
    d: DirectEnv,
    pos: MbPos,
    i: int,
) -> (Grid<Cell>, Grid<Cell>, Seq<Part>)
    decreases plan.len() - i,
{
    if i < 0 || i >= plan.len() {
        (g0, g1, plan)
    } else if plan[i].direct {
        let p = plan[i];
        let m = direct_motion(d, p.group as int, pos);
        place_direct(
            paint(g0, p, pos, direct_cell(m.mv0, m.ref0)),
            paint(g1, p, pos, direct_cell(m.mv1, m.ref1)),
            plan.update(i, Part { ref0: m.ref0, ref1: m.ref1, mv0: m.mv0, mv1: m.mv1, ..p }),
            d,
            pos,
            i + 1,
        )
    } else {
        place_direct(g0, g1, plan, d, pos, i + 1)
    }
}

fn is_col_zero(col: &MotionField, k: u64) -> (b: bool)
    ensures
        b == col_zero(col@, k as int),
{
    if k >= col.refidx.len() as u64 || k >= col.mv.len() as u64 {
        return false;
    }
    let v = col.mv[k as usize];
    col.refidx[k as usize] == 0 && v.0 >= -1 && v.0 <= 1 && v.1 >= -1 && v.1 <= 1
}

fn col_block_of(b8: usize, pos: MbPos, width: usize, Ghost(s): Ghost<(int, int, int)>) -> (k: u64)
    requires
        small(s),
        pos.inside(s.0, s.1, s.2),
        width == s.0,
        b8 < 4,
    ensures
        k == col_block(b8 as int, pos, 4 * s.0),
{
    let x: u64 = 4 * (pos.x as u64) + if b8 % 2 == 0 {
        0
    } else {
        3
    };
    let y: u64 = 4 * (pos.y as u64) + if b8 / 2 == 0 {
        0
    } else {
        3
    };
    let w4: u64 = 4 * (width as u64);
    assert(0 <= y * w4 <= 0x4000_0000 * 0x2000_0000) by (nonlinear_arith)
        requires
            0 <= y <= 0x4000_0000,
            0 <= w4 <= 0x2000_0000,
    ;
    y * w4 + x
}

impl<'a> Lists<'a> {
    /// What direct prediction in a macroblock depends on.
    pub open spec fn direct_env(self, spatial: bool, sp: Spatial, width: int) -> DirectEnv {
        DirectEnv {
            spatial,
            sp,
            col: self.col@,
            poc0: self.poc[0]@,
            poc1: self.poc[1]@,
            cur: self.cur,
            w4: 4 * width,
        }
    }

    fn direct(&self, spatial: bool, sp: &Spatial, b8: usize, pos: MbPos, width: usize, Ghost(s): Ghost<(int, int, int)>) -> (m: DirectMotion)
        requires
            small(s),
            pos.inside(s.0, s.1, s.2),
            width == s.0,
            b8 < 4,
            self.poc[0]@.len() > 0,
            self.poc[1]@.len() > 0,
        ensures
            m == direct_motion(self.direct_env(spatial, *sp, s.0), b8 as int, pos),
    {
        proof {
            reveal(direct_motion);
        }
        let k: u64 = col_block_of(b8, pos, width, Ghost(s));
        if spatial {
            sp.resolve(is_col_zero(self.col, k))
        } else {
            let n: usize = self.col.mv.len();
            let c: usize = if k >= n as u64 {
                n
            } else {
                k as usize
            };
            let (mv0, mv1, ref0, ref1, _u0, _u1) = temporal_direct(self.col, c, &self.poc, self.cur);
            DirectMotion { mv0, mv1, ref0, ref1 }
        }
    }

    fn fill_direct(
        &self,
        g0: &mut Band<Cell>,
        g1: &mut Band<Cell>,
        plan: &mut Vec<Part>,
        spatial: bool,
        sp: &Spatial,
        pos: MbPos,
        width: usize,
        Ghost(s): Ghost<(int, int, int)>,
    )
        requires
            small(s),
            cells_ok(old(g0)@, s),
            cells_ok(old(g1)@, s),
            plan_ok(old(plan)@),
            pos.inside(s.0, s.1, s.2),
            width == s.0,
            self.poc[0]@.len() > 0,
            self.poc[1]@.len() > 0,
        ensures
            (final(g0)@, final(g1)@, final(plan)@) == place_direct(
                old(g0)@,
                old(g1)@,
                old(plan)@,
                self.direct_env(spatial, *sp, s.0),
                pos,
                0,
            ),
            cells_ok(final(g0)@, s),
            cells_ok(final(g1)@, s),
            plan_ok(final(plan)@),
    {
        let n: usize = plan.len();
        let ghost d = self.direct_env(spatial, *sp, s.0);
        let ghost whole = place_direct(g0@, g1@, plan@, d, pos, 0);
        for i in 0..n
            invariant
                n == plan@.len(),
                small(s),
                cells_ok(g0@, s),
                cells_ok(g1@, s),
                plan_ok(plan@),
                pos.inside(s.0, s.1, s.2),
                width == s.0,
                self.poc[0]@.len() > 0,
                self.poc[1]@.len() > 0,
                d == self.direct_env(spatial, *sp, s.0),
                whole == place_direct(g0@, g1@, plan@, d, pos, i as int),
        {
            let mut p = plan[i];
            assert(plan@[i as int].ok());
            if p.direct {
                let m = self.direct(spatial, sp, p.group, pos, width, Ghost(s));
                g0.fill(
                    4 * pos.x + p.x,
                    4 * pos.y + p.y,
                    p.w,
                    p.h,
                    Cell { mv: m.mv0, mvd: (0, 0), refi: m.ref0, direct: true },
                );
                g1.fill(
                    4 * pos.x + p.x,
                    4 * pos.y + p.y,
                    p.w,
                    p.h,
                    Cell { mv: m.mv1, mvd: (0, 0), refi: m.ref1, direct: true },
                );
                p.ref0 = m.ref0;
                p.ref1 = m.ref1;
                p.mv0 = m.mv0;
                p.mv1 = m.mv1;
                plan.set(i, p);
            }
        }
    }
}

// ---- the state of a slice ----

/// What an inter slice carries from macroblock to macroblock.
pub struct InterState {
    pub e: Engine,
    pub c: InterBank,
    pub r: ResidualBank,
    pub last_dquant: i32,
    pub qp: i32,
    pub pic: Pic,
    pub mb: MbGrids,
    /// The motion of the 4x4 blocks in each list.
    pub l0: Grid<Cell>,
    pub l1: Grid<Cell>,
    /// The 4x4 block belongs to an intra macroblock.
    pub intra: Grid<bool>,
    /// The 4x4 block has luma coefficients.
    pub nz: Grid<bool>,
    /// The macroblock is skipped.
    pub skip: Grid<bool>,
    /// The macroblock is neither skipped nor direct as a whole.
    pub coded: Grid<bool>,
}

impl InterState {
    /// The grids have the sizes of the band.
    pub open spec fn shaped(self, s: (int, int, int)) -> bool {
        &&& self.pic.ok(s.0, s.1, s.2)
        &&& self.mb.ok(s.0, s.1, s.2)
        &&& cells_ok(self.l0, s)
        &&& cells_ok(self.l1, s)
        &&& cells_ok(self.intra, s)
        &&& cells_ok(self.nz, s)
        &&& self.skip.ok() && self.skip.shape() == s
        &&& self.coded.ok() && self.coded.shape() == s
    }

    /// The state can decode another macroblock.
    pub open spec fn ok(self, s: (int, int, int)) -> bool {
        &&& self.e.live()
        &&& self.c.ok()
        &&& self.r.ok()
        &&& self.shaped(s)
    }
}

struct InterSlice<'a> {
    e: CabacEngine<'a>,
    c: InterContexts,
    r: ResidualContexts,
    last_dquant: i32,
    qp: i32,
    pic: Canvas,
    mb: MbBands,
    l0: Band<Cell>,
    l1: Band<Cell>,
    intra: Band<bool>,
    nz: Band<bool>,
    skip: Band<bool>,
    coded: Band<bool>,
}

impl<'a> View for InterSlice<'a> {
    type V = InterState;

    closed spec fn view(&self) -> InterState {
        InterState {
            e: self.e@,
            c: self.c@,
            r: self.r@,
            last_dquant: self.last_dquant,
            qp: self.qp,
            pic: self.pic@,
            mb: self.mb@,
            l0: self.l0@,
            l1: self.l1@,
            intra: self.intra@,
            nz: self.nz@,
            skip: self.skip@,
            coded: self.coded@,
        }
    }
}

// ---- macroblock kinds ----

/// A flag of the macroblock to the left, `false` at the border.
pub open spec fn left_flag(g: Grid<bool>, pos: MbPos) -> bool {
    pos.x > 0 && g.at(pos.x - 1, pos.y as int)
}

/// A flag of the macroblock above, `false` at the slice's border.
pub open spec fn up_flag(g: Grid<bool>, pos: MbPos) -> bool {
    pos.top && g.at(pos.x as int, pos.y - 1)
}

/// The neighbours that exist and are not skipped, counted.
pub open spec fn unskipped(g: Grid<bool>, pos: MbPos) -> int {
    flag(pos.x > 0 && !g.at(pos.x - 1, pos.y as int)) + flag(
        pos.top && !g.at(pos.x as int, pos.y - 1),
    )
}

/// The skip flag and the type of a macroblock: `None` where it is skipped.
#[verifier::opaque]
pub open spec fn mb_kind(st: InterState, two: bool, pos: MbPos) -> (InterState, Option<i64>) {
    let n = unskipped(st.skip, pos);
    if !two {
        let d = bins(st.e, st.c.mb_type).bin(n);
        let c1 = InterBank { mb_type: d.c, ..st.c };
        if d.b == 1 {
            (InterState { e: d.e, c: c1, ..st }, None)
        } else {
            let (f, t) = p_mb_type(bins(d.e, d.c));
            (InterState { e: f.e, c: InterBank { mb_type: f.c, ..c1 }, ..st }, Some(t))
        }
    } else {
        let d = bins(st.e, st.c.mb_type_b).bin(7 + n);
        let c1 = InterBank { mb_type_b: d.c, ..st.c };
        if d.b == 1 {
            (InterState { e: d.e, c: c1, ..st }, None)
        } else {
            let (e2, c2, t) = b_mb_type(
                d.e,
                c1,
                flag(left_flag(st.coded, pos)) + flag(up_flag(st.coded, pos)),
            );
            (InterState { e: e2, c: c2, ..st }, Some(t))
        }
    }
}

/// The state with the flags of a macroblock.
pub open spec fn flagged(st: InterState, kind: Option<i64>, pos: MbPos) -> InterState {
    InterState {
        skip: st.skip.set(pos.x as int, pos.y as int, kind is None),
        coded: st.coded.set(pos.x as int, pos.y as int, kind is Some && kind->0 != 0),
        ..st
    }
}

/// The number of a macroblock type among the intra types (0 = I_NxN, 1 to 24 =
/// I_16x16, 25 = I_PCM), negative for inter types.
pub open spec fn intra_index(two: bool, t: int) -> int {
    if two {
        t - 23
    } else {
        t - 6
    }
}

impl<'a> InterSlice<'a> {
    fn flag_left(g: &Band<bool>, pos: MbPos, Ghost(s): Ghost<(int, int, int)>) -> (b: bool)
        requires
            g@.ok(),
            g@.shape() == s,
            pos.inside(s.0, s.1, s.2),
        ensures
            b == left_flag(g@, pos),
    {
        pos.x > 0 && g.at(pos.x - 1, pos.y)
    }

    fn flag_up(g: &Band<bool>, pos: MbPos, Ghost(s): Ghost<(int, int, int)>) -> (b: bool)
        requires
            g@.ok(),
            g@.shape() == s,
            pos.inside(s.0, s.1, s.2),
        ensures
            b == up_flag(g@, pos),
    {
        pos.top && g.at(pos.x, pos.y - 1)
    }

    fn kind(&mut self, two: bool, pos: MbPos, Ghost(s): Ghost<(int, int, int)>) -> (k: Option<i64>)
        requires
            old(self)@.ok(s),
            pos.inside(s.0, s.1, s.2),
        ensures
            (final(self)@, k) == mb_kind(old(self)@, two, pos),
            k is Some ==> 0 <= k->0 && intra_index(two, k->0 as int) <= 25 && (intra_index(
                two,
                k->0 as int,
            ) < 0 ==> k->0 <= 22),
            k is None || intra_index(two, k->0 as int) != 25 ==> final(self)@.ok(s),
            final(self)@.shaped(s),
    {
        proof {
            reveal(mb_kind);
        }
        let a: u32 = if pos.x > 0 && !self.skip.at(pos.x - 1, pos.y) {
            1
        } else {
            0
        };
        let b: u32 = if pos.top && !self.skip.at(pos.x, pos.y - 1) {
            1
        } else {
            0
        };
        if !two {
            let (skipped, _v) = decode_mb_skip_flag(&mut self.e, &mut self.c, a, b);
            if skipped {
                None
            } else {
                Some(decode_inter_mb_type(&mut self.e, &mut self.c))
            }
        } else {
            let (skipped, _v) = decode_mb_skip_flag_b(&mut self.e, &mut self.c, a, b);
            if skipped {
                None
            } else {
                let l: u32 = if Self::flag_left(&self.coded, pos, Ghost(s)) {
                    1
                } else {
                    0
                };
                let u: u32 = if Self::flag_up(&self.coded, pos, Ghost(s)) {
                    1
                } else {
                    0
                };
                Some(decode_b_mb_type(&mut self.e, &mut self.c, l, u))
            }
        }
    }
}

// ---- macroblock headers ----

/// What the header of a macroblock reads and changes.
pub struct Head {
    pub e: Engine,
    pub c: InterBank,
    pub last: i32,
}

/// A macroblock header: the state after it, the macroblock, its prediction
/// modes and its quantiser change.
pub struct HeadOut {
    pub h: Head,
    pub info: MbInfo,
    pub modes: Seq<i64>,
    pub delta: i32,
}

/// The transform flag, read where `present` is set.
#[verifier::opaque]
pub open spec fn transform_flag(h: Head, n: Neighbors, present: bool) -> (Head, bool) {
    if present {
        let d = bins(h.e, h.c.transform).bin(flag(is_t8(n.left)) + flag(is_t8(n.up)));
        (Head { e: d.e, c: InterBank { transform: d.c, ..h.c }, ..h }, d.b == 1)
    } else {
        (h, false)
    }
}

/// The quantiser change, read where `present` is set and else 0.
#[verifier::opaque]
pub open spec fn head_delta(h: Head, present: bool) -> (Head, i32) {
    if present {
        let (d, v) = qp_delta(bins(h.e, h.c.delta_qp), h.last);
        (Head { e: d.e, c: InterBank { delta_qp: d.c, ..h.c }, last: v }, v)
    } else {
        (Head { last: 0, ..h }, 0)
    }
}

/// The coded block pattern.
#[verifier::opaque]
pub open spec fn head_cbp(h: Head, n: Neighbors) -> (Head, i64) {
    let (e, rows, v) = coded_block_pattern(h.e, h.c.cbp, cbp_of(n.up), cbp_of(n.left));
    (Head { e, c: InterBank { cbp: rows, ..h.c }, ..h }, v)
}

/// The header of an intra macroblock in an inter slice, type `x` of the intra
/// types.
#[verifier::opaque]
pub open spec fn intra_head(h: Head, n: Neighbors, t8_mode: bool, x: int) -> HeadOut {
    let (h1, t8) = transform_flag(h, n, x == 0 && t8_mode);
    let (p, ms) = pred_modes(
        bins(h1.e, h1.c.ipr),
        Seq::empty(),
        if t8 {
            4
        } else {
            16
        },
    );
    let (h2, modes) = if x == 0 {
        (Head { e: p.e, c: InterBank { ipr: p.c, ..h1.c }, ..h1 }, ms)
    } else {
        (h1, Seq::empty())
    };
    let (d, c_ipred) = chroma_mode(
        bins(h2.e, h2.c.cipr),
        flag(has_cmode(n.left)) + flag(has_cmode(n.up)),
    );
    let h3 = Head { e: d.e, c: InterBank { cipr: d.c, ..h2.c }, ..h2 };
    let (h4, cbp) = if x == 0 {
        head_cbp(h3, n)
    } else {
        (h3, 0)
    };
    let info = if x == 0 {
        MbInfo { i_nxn: true, transform8x8: t8, c_ipred, cbp: cbp as u8, i16_pred: 0 }
    } else {
        MbInfo { c_ipred, ..i16_info(x - 1) }
    };
    let (h5, delta) = head_delta(h4, info.cbp != 0 || x != 0);
    HeadOut { h: h5, info, modes, delta }
}

/// The rest of an inter macroblock's header after its motion. `big` is set
/// where no partition is smaller than 8x8.
#[verifier::opaque]
pub open spec fn inter_head(h: Head, n: Neighbors, t8_mode: bool, big: bool) -> HeadOut {
    let (h1, cbp) = head_cbp(h, n);
    let (h2, t8) = transform_flag(h1, n, cbp % 16 != 0 && t8_mode && big);
    let (h3, delta) = head_delta(h2, cbp != 0);
    HeadOut {
        h: h3,
        info: MbInfo { i_nxn: false, transform8x8: t8, c_ipred: 0, cbp: cbp as u8, i16_pred: 0 },
        modes: Seq::empty(),
        delta,
    }
}

fn opt_cbp(n: &Option<MbInfo>) -> (r: Option<u8>)
    ensures
        r == cbp_of(*n),
{
    match n {
        Some(i) => Some(i.cbp),
        None => None,
    }
}

fn count2(a: bool, b: bool) -> (r: usize)
    ensures
        r == flag(a) + flag(b),
        r <= 2,
{
    (if a {
        1
    } else {
        0
    }) + (if b {
        1
    } else {
        0
    })
}

fn opt_t8(n: &Option<MbInfo>) -> (r: bool)
    ensures
        r == is_t8(*n),
{
    match n {
        Some(i) => i.transform8x8,
        None => false,
    }
}

fn opt_cmode(n: &Option<MbInfo>) -> (r: bool)
    ensures
        r == has_cmode(*n),
{
    match n {
        Some(i) => i.c_ipred != 0,
        None => false,
    }
}

fn read_transform_flag(e: &mut CabacEngine, c: &mut InterContexts, n: &Neighbors, present: bool, Ghost(last): Ghost<i32>) -> (b: bool)
    requires
        old(e)@.live(),
        old(c)@.ok(),
    ensures
        (Head { e: final(e)@, c: final(c)@, last }, b) == transform_flag(
            Head { e: old(e)@, c: old(c)@, last },
            *n,
            present,
        ),
        final(e)@.live(),
        final(c)@.ok(),
        !present ==> !b,
{
    proof {
        reveal(transform_flag);
    }
    if present {
        let k: usize = count2(opt_t8(&n.left), opt_t8(&n.up));
        e.decode_decision(&mut c.transform[k]) == 1
    } else {
        false
    }
}

fn read_delta(e: &mut CabacEngine, c: &mut InterContexts, last: &mut i32, present: bool) -> (d: i32)
    requires
        old(e)@.live(),
        old(c)@.ok(),
    ensures
        (Head { e: final(e)@, c: final(c)@, last: *final(last) }, d) == head_delta(
            Head { e: old(e)@, c: old(c)@, last: *old(last) },
            present,
        ),
        final(e)@.live(),
        final(c)@.ok(),
{
    proof {
        reveal(head_delta);
    }
    if present {
        decode_dquant_ctx(e, &mut c.delta_qp, last)
    } else {
        *last = 0;
        0
    }
}

fn read_cbp(e: &mut CabacEngine, c: &mut InterContexts, n: &Neighbors, Ghost(last): Ghost<i32>) -> (v: i64)
    requires
        old(e)@.live(),
        old(c)@.ok(),
    ensures
        (Head { e: final(e)@, c: final(c)@, last }, v) == head_cbp(
            Head { e: old(e)@, c: old(c)@, last },
            *n,
        ),
        0 <= v < 48,
        final(e)@.live(),
        final(c)@.ok(),
{
    proof {
        reveal(head_cbp);
    }
    decode_cbp_ctx(e, &mut c.cbp, opt_cbp(&n.up), opt_cbp(&n.left))
}

fn read_intra_head(
    e: &mut CabacEngine,
    c: &mut InterContexts,
    last: &mut i32,
    n: &Neighbors,
    t8_mode: bool,
    x: i64,
) -> (r: (MbInfo, Vec<i64>, i32))
    requires
        old(e)@.live(),
        old(c)@.ok(),
        0 <= x <= 24,
    ensures
        ({
            let o = intra_head(
                Head { e: old(e)@, c: old(c)@, last: *old(last) },
                *n,
                t8_mode,
                x as int,
            );
            &&& o.h == (Head { e: final(e)@, c: final(c)@, last: *final(last) })
            &&& o.info == r.0
            &&& o.modes == r.1@
            &&& o.delta == r.2
        }),
        final(e)@.live(),
        final(c)@.ok(),
        r.0.i_nxn ==> r.1@.len() == (if r.0.transform8x8 {
            4int
        } else {
            16int
        }),
        modes_ok(r.1@),
        r.0.i16_pred < 4,
{
    proof {
        reveal(intra_head);
    }
    let t8: bool = read_transform_flag(e, c, n, x == 0 && t8_mode, Ghost(*last));
    let mut modes: Vec<i64> = Vec::new();
    assert(modes@ =~= Seq::empty());
    if x == 0 {
        let count: usize = if t8 {
            4
        } else {
            16
        };
        modes = decode_pred_modes(e, &mut c.ipr, count);
    }
    let inc: usize = count2(opt_cmode(&n.left), opt_cmode(&n.up));
    let c_ipred: u8 = decode_chroma_mode(e, &mut c.cipr, inc);
    let mut info = MbInfo { i_nxn: true, transform8x8: t8, c_ipred, cbp: 0, i16_pred: 0 };
    if x == 0 {
        let v: i64 = read_cbp(e, c, n, Ghost(*last));
        info.cbp = v as u8;
    } else {
        info = i16_mb_info(x - 1);
        info.c_ipred = c_ipred;
    }
    let delta: i32 = read_delta(e, c, last, info.cbp != 0 || x != 0);
    (info, modes, delta)
}

fn read_inter_head(
    e: &mut CabacEngine,
    c: &mut InterContexts,
    last: &mut i32,
    n: &Neighbors,
    t8_mode: bool,
    big: bool,
) -> (r: (MbInfo, i32))
    requires
        old(e)@.live(),
        old(c)@.ok(),
    ensures
        ({
            let o = inter_head(
                Head { e: old(e)@, c: old(c)@, last: *old(last) },
                *n,
                t8_mode,
                big,
            );
            &&& o.h == (Head { e: final(e)@, c: final(c)@, last: *final(last) })
            &&& o.info == r.0
            &&& o.delta == r.1
        }),
        final(e)@.live(),
        final(c)@.ok(),
{
    proof {
        reveal(inter_head);
    }
    let cbp: i64 = read_cbp(e, c, n, Ghost(*last));
    let t8: bool = read_transform_flag(e, c, n, cbp % 16 != 0 && t8_mode && big, Ghost(*last));
    let delta: i32 = read_delta(e, c, last, cbp != 0);
    (
        MbInfo { i_nxn: false, transform8x8: t8, c_ipred: 0, cbp: cbp as u8, i16_pred: 0 },
        delta,
    )
}

// ---- motion ----

/// The motion of an inter macroblock's partitions: direct ones first, then the
/// reference indices of both lists, then the vectors of both lists.
#[verifier::opaque]
pub open spec fn read_motion(st: InterState, plan: Seq<Part>, ie: InterEnv, m: SliceMode, pos: MbPos) -> (
    InterState,
    Seq<Part>,
) {
    let d = DirectEnv {
        spatial: m.spatial,
        sp: spatial_direct(st.l0, st.l1, pos),
        col: ie.col,
        poc0: ie.poc0,
        poc1: ie.poc1,
        cur: ie.cur,
        w4: 4 * ie.env.width(),
    };
    let (g0, g1, p) = if ie.two {
        place_direct(st.l0, st.l1, plan, d, pos, 0)
    } else {
        (st.l0, st.l1, plan)
    };
    let r0 = list_refs(ListState { e: st.e, c: st.c, g: g0, plan: p }, 0, m.num0, pos);
    let r1 = list_refs(ListState { e: r0.e, c: r0.c, g: g1, plan: r0.plan }, 1, m.num1, pos);
    let v0 = list_mvs(ListState { e: r1.e, c: r1.c, g: r0.g, plan: r1.plan }, 0, 0, pos);
    let v1 = list_mvs(ListState { e: v0.e, c: v0.c, g: r1.g, plan: v0.plan }, 1, 0, pos);
    (InterState { e: v1.e, c: v1.c, l0: v0.g, l1: v1.g, ..st }, v1.plan)
}

/// What a slice's header says about its motion.
struct Mode {
    weights: Option<PredWeights>,
    spatial: bool,
    num0: u64,
    num1: u64,
}

impl View for Mode {
    type V = SliceMode;

    closed spec fn view(&self) -> SliceMode {
        SliceMode {
            weights: match self.weights {
                Some(w) => Some(w@),
                None => None,
            },
            spatial: self.spatial,
            num0: self.num0 as int,
            num1: self.num1 as int,
        }
    }
}

impl<'a> InterSlice<'a> {
    fn motion(&mut self, plan: &mut Vec<Part>, lists: &Lists, m: &Mode, pos: MbPos, width: usize, Ghost(s): Ghost<(int, int, int)>, Ghost(env): Ghost<SliceEnv>)
        requires
            old(self)@.ok(s),
            small(s),
            plan_ok(old(plan)@),
            lists.ok(env),
            env.width() == s.0,
            width == s.0,
            pos.inside(s.0, s.1, s.2),
        ensures
            (final(self)@, final(plan)@) == read_motion(
                old(self)@,
                old(plan)@,
                lists.env(env),
                m@,
                pos,
            ),
            final(self)@.ok(s),
            plan_ok(final(plan)@),
    {
        proof {
            reveal(read_motion);
        }
        if lists.two {
            let sp = derive_spatial(&self.l0, &self.l1, pos, Ghost(s));
            lists.fill_direct(
                &mut self.l0,
                &mut self.l1,
                plan,
                m.spatial,
                &sp,
                pos,
                width,
                Ghost(s),
            );
        }
        read_list_refs(&mut self.e, &mut self.c, &mut self.l0, plan, 0, m.num0, pos, Ghost(s));
        read_list_refs(&mut self.e, &mut self.c, &mut self.l1, plan, 1, m.num1, pos, Ghost(s));
        read_list_mvs(&mut self.e, &mut self.c, &mut self.l0, plan, 0, pos, Ghost(s));
        read_list_mvs(&mut self.e, &mut self.c, &mut self.l1, plan, 1, pos, Ghost(s));
    }
}

// ---- reconstruction ----

/// A partition as a block of samples.
pub open spec fn block_of(p: Part, pos: MbPos) -> InterBlock {
    InterBlock {
        px: (16 * pos.x + 4 * p.x) as usize,
        py: (16 * pos.y + 4 * p.y) as usize,
        w: (4 * p.w) as usize,
        h: (4 * p.h) as usize,
        ref0: p.ref0,
        ref1: p.ref1,
        mv0: p.mv0,
        mv1: p.mv1,
    }
}

/// The references of a partition are in their lists of `n0` and `n1` pictures.
pub open spec fn refs_in_range(p: Part, n0: int, n1: int) -> bool {
    &&& p.ref0 < n0
    &&& p.ref1 < n1
    &&& p.codes(0) ==> p.ref0 >= 0
    &&& p.codes(1) ==> p.ref1 >= 0
}

/// A picture with the partitions of a macroblock, from partition `i` on. A
/// reference outside its list is an error, and one without a sample that the
/// partition reads is another.
pub open spec fn with_parts(p: Pic, plan: Seq<Part>, e: RefEnv, res: Residual, pos: MbPos, i: int) -> Result<
    Pic,
    ReconError,
>
    decreases plan.len() - i,
{
    if i >= plan.len() {
        Ok(p)
    } else if !refs_in_range(plan[i], e.refs0.len() as int, e.refs1.len() as int) {
        Err(ReconError::RefRange)
    } else if !block_held(e, block_of(plan[i], pos)) {
        Err(ReconError::ShortReference)
    } else {
        with_parts(with_block(p, e, block_of(plan[i], pos), res), plan, e, res, pos, i + 1)
    }
}

proof fn lemma_offset(a: int, b: int)
    requires
        a >= 0,
        0 <= b <= 3,
    ensures
        (16 * a + 4 * b) % 16 == 4 * b,
        (16 * a + 4 * b) % 4 == 0,
        (16 * a + 4 * b) / 2 == 8 * a + 2 * b,
{
}

proof fn lemma_block(p: Part, pos: MbPos, s: (int, int, int))
    requires
        p.ok(),
        small(s),
        16 * pos.y + 15 <= i32::MAX,
        pos.inside(s.0, s.1, s.2),
    ensures
        block_of(p, pos).ok(),
        block_of(p, pos).px == 16 * pos.x + 4 * p.x,
        block_of(p, pos).py == 16 * pos.y + 4 * p.y,
        block_of(p, pos).w == 4 * p.w,
        block_of(p, pos).h == 4 * p.h,
        (16 * pos.x + 4 * p.x) / 2 == 8 * pos.x + 2 * p.x,
        (16 * pos.y + 4 * p.y) / 2 == 8 * pos.y + 2 * p.y,
        (4 * p.w) / 2 == 2 * p.w,
        (4 * p.h) / 2 == 2 * p.h,
{
    lemma_offset(pos.x as int, p.x as int);
    lemma_offset(pos.y as int, p.y as int);
    let b = block_of(p, pos);
    assert(b.px == 16 * pos.x + 4 * p.x);
    assert(b.py == 16 * pos.y + 4 * p.y);
    assert((4 * p.w) % 4 == 0 && (4 * p.h) % 4 == 0);
}

fn draw_parts(
    pic: &mut Canvas,
    plan: &Vec<Part>,
    refs: &References,
    weights: &Option<PredWeights>,
    res: &MbResidual,
    pos: MbPos,
    Ghost(blk): Ghost<Residual>,
    Ghost(s): Ghost<(int, int, int)>,
) -> (r: Result<(), ReconError>)
    requires
        old(pic)@.ok(s.0, s.1, s.2),
        small(s),
        16 * pos.y + 15 <= i32::MAX,
        plan_ok(plan@),
        pos.inside(s.0, s.1, s.2),
        refs.ok(),
        res.shows(blk),
    ensures
        match r {
            Ok(_) => with_parts(old(pic)@, plan@, refs.env(*weights), blk, pos, 0) == Ok::<
                Pic,
                ReconError,
            >(final(pic)@) && final(pic)@.ok(s.0, s.1, s.2),
            Err(e) => with_parts(old(pic)@, plan@, refs.env(*weights), blk, pos, 0) == Err::<
                Pic,
                ReconError,
            >(e),
        },
{
    let ghost e = refs.env(*weights);
    let ghost whole = with_parts(pic@, plan@, e, blk, pos, 0);
    let n: usize = plan.len();
    let (n0, n1): (usize, usize) = (refs.l0.len(), refs.l1.len());
    for i in 0..n
        invariant
            n == plan@.len(),
            e == refs.env(*weights),
            whole == with_parts(old(pic)@, plan@, e, blk, pos, 0),
            whole == with_parts(pic@, plan@, e, blk, pos, i as int),
            pic@.ok(s.0, s.1, s.2),
            small(s),
            16 * pos.y + 15 <= i32::MAX,
            plan_ok(plan@),
            pos.inside(s.0, s.1, s.2),
            refs.ok(),
            res.shows(blk),
            n0 == refs.l0@.len(),
            n1 == refs.l1@.len(),
    {
        let p: Part = plan[i];
        assert(plan@[i as int].ok());
        let bad0: bool = p.ref0 >= 0 && p.ref0 as usize >= n0;
        let bad1: bool = p.ref1 >= 0 && p.ref1 as usize >= n1;
        let c0: bool = !p.direct && p.pdir != 1 && p.ref0 < 0;
        let c1: bool = !p.direct && p.pdir != 0 && p.ref1 < 0;
        if bad0 || bad1 || c0 || c1 {
            return Err(ReconError::RefRange);
        }
        proof {
            lemma_block(p, pos, s);
        }
        let b = InterBlock {
            px: 16 * pos.x + 4 * p.x,
            py: 16 * pos.y + 4 * p.y,
            w: 4 * p.w,
            h: 4 * p.h,
            ref0: p.ref0,
            ref1: p.ref1,
            mv0: p.mv0,
            mv1: p.mv1,
        };
        if !refs.hold(&b, Ghost(*weights)) {
            return Err(ReconError::ShortReference);
        }
        let ghost before = pic@;
        refs.reconstruct(
            &mut pic.y,
            &mut pic.cb,
            &mut pic.cr,
            &b,
            weights,
            res,
            Ghost(blk),
            Ghost(before),
        );
        assert(pic@ == with_block(before, e, b, blk));
    }
    Ok(())
}

/// The 4x4 blocks of a macroblock with luma coefficients, row by row.
pub open spec fn nonzero_blocks(cur: u64) -> Seq<bool> {
    Seq::new(16, |k: int| luma_nonzero(cur, k % 4, k / 4))
}

fn nonzero_of(cur: CbpBits) -> (r: [bool; 16])
    ensures
        r@ == nonzero_blocks(cur.0),
{
    let mut r: [bool; 16] = [false; 16];
    for k in 0..16usize
        invariant
            forall|j: int| 0 <= j < k ==> #[trigger] r[j] == luma_nonzero(cur.0, j % 4, j / 4),
    {
        r[k] = cur.luma4x4_nonzero((k % 4) as u32, (k / 4) as u32);
    }
    assert(r@ =~= nonzero_blocks(cur.0));
    r
}

/// A quantiser change, the residual that follows it and the macroblock's data.
#[verifier::opaque]
pub open spec fn read_residual(st: InterState, o: HeadOut, inter: bool, pos: MbPos, env: SliceEnv) -> (
    InterState,
    Residual,
) {
    let qp = changed_qp(st.qp, o.delta);
    let (rs, res) = mb_residual(
        ResState { e: o.h.e, c: st.r, cur: 0, trace: Seq::empty() },
        residual_params(o.info, st.mb.flags(pos), qp, inter, env),
    );
    (
        InterState {
            e: rs.e,
            c: o.h.c,
            r: rs.c,
            last_dquant: o.h.last,
            qp,
            mb: st.mb.store(pos, o.info, CbpBits(rs.cur), qp),
            nz: st.nz.put(4 * pos.x, 4 * pos.y, 4, 4, nonzero_blocks(rs.cur)),
            ..st
        },
        res,
    )
}

impl<'a> InterSlice<'a> {
    fn residual(
        &mut self,
        info: &MbInfo,
        delta: i32,
        inter: bool,
        pos: MbPos,
        scaling: &ScalingLists,
        pps: &Pps,
        Ghost(before): Ghost<InterState>,
        Ghost(o): Ghost<HeadOut>,
        Ghost(s): Ghost<(int, int, int)>,
        Ghost(env): Ghost<SliceEnv>,
    ) -> (r: MbResidual)
        requires
            old(self)@.ok(s),
            o.h == (Head { e: old(self)@.e, c: old(self)@.c, last: old(self)@.last_dquant }),
            o.info == *info,
            o.delta == delta,
            old(self)@ == (InterState {
                e: o.h.e,
                c: o.h.c,
                last_dquant: o.h.last,
                ..before
            }),
            pos.inside(s.0, s.1, s.2),
            env.pps == *pps,
            *scaling == env.scaling(),
        ensures
            final(self)@ == read_residual(before, o, inter, pos, env).0,
            r.shows(read_residual(before, o, inter, pos, env).1),
            final(self)@.ok(s),
    {
        proof {
            reveal(read_residual);
        }
        self.qp = change_qp(self.qp, delta);
        let mut flags = self.mb.flags(pos, Ghost(s));
        let mut sink: Vec<ResElem> = Vec::new();
        proof {
            assert(res_views(sink@) =~= Seq::empty());
        }
        let res = decode_residual(
            &mut self.e,
            &mut self.r,
            info,
            &mut flags,
            self.qp,
            pps.chroma_qp_index_offset,
            inter,
            scaling,
            false,
            &mut sink,
        );
        self.mb.store(pos, *info, flags.cur, self.qp, Ghost(s));
        let nz = nonzero_of(flags.cur);
        self.nz.put(4 * pos.x, 4 * pos.y, 4, 4, &nz);
        res
    }
}

// ---- one macroblock ----

/// The header state of a slice.
pub open spec fn head_of(st: InterState) -> Head {
    Head { e: st.e, c: st.c, last: st.last_dquant }
}

/// The neighbouring macroblocks.
pub open spec fn around_mb(st: InterState, pos: MbPos) -> Neighbors {
    Neighbors { left: st.mb.left(pos), up: st.mb.up(pos) }
}

/// An intra macroblock of type `x` in an inter slice.
#[verifier::opaque]
pub open spec fn intra_in_inter(st: InterState, x: int, pos: MbPos, env: SliceEnv) -> InterState {
    let o = intra_head(head_of(st), around_mb(st, pos), env.pps.transform_8x8_mode_flag, x);
    let (st1, res) = read_residual(st, o, false, pos, env);
    InterState {
        pic: intra_mb(st1.pic, o.info, o.modes, res, pos),
        intra: st1.intra.fill(4 * pos.x, 4 * pos.y, 4, 4, true),
        ..st1
    }
}

/// No partition is smaller than 8x8.
pub open spec fn all_big(plan: Seq<Part>) -> bool {
    forall|i: int| 0 <= i < plan.len() ==> (#[trigger] plan[i]).w >= 2 && plan[i].h >= 2
}

/// An inter macroblock of type `t`.
#[verifier::opaque]
pub open spec fn coded_inter(st: InterState, t: int, ie: InterEnv, m: SliceMode, pos: MbPos) -> Result<
    InterState,
    ReconError,
> {
    let (e, c, plan0) = read_plan(st.e, st.c, ie.two, t);
    let (st1, plan) = read_motion(InterState { e, c, ..st }, plan0, ie, m, pos);
    let o = inter_head(
        head_of(st1),
        around_mb(st1, pos),
        ie.env.pps.transform_8x8_mode_flag,
        all_big(plan),
    );
    let (st2, res) = read_residual(st1, o, true, pos, ie.env);
    match with_parts(st2.pic, plan, ie.refs(m.weights), res, pos, 0) {
        Err(x) => Err(x),
        Ok(pic) => Ok(InterState { pic, ..st2 }),
    }
}

/// A skipped macroblock: inferred motion and no residual.
#[verifier::opaque]
pub open spec fn skipped_mb(st: InterState, ie: InterEnv, m: SliceMode, pos: MbPos) -> Result<
    InterState,
    ReconError,
> {
    let p = skip_part(st.l0, pos);
    let (st1, plan) = if ie.two {
        read_motion(st, direct_plan(), ie, m, pos)
    } else {
        (
            InterState {
                l0: paint(
                    st.l0,
                    p,
                    pos,
                    Cell { mv: p.mv0, mvd: (0, 0), refi: 0, direct: false },
                ),
                ..st
            },
            seq![p],
        )
    };
    match with_parts(st1.pic, plan, ie.refs(m.weights), zero_residual(), pos, 0) {
        Err(x) => Err(x),
        Ok(pic) => Ok(
            InterState {
                pic,
                mb: st1.mb.store(pos, blank_info(), CbpBits(0), st1.qp),
                last_dquant: 0,
                ..st1
            },
        ),
    }
}

/// One macroblock of an inter slice, without the end-of-slice bin.
#[verifier::opaque]
pub open spec fn inter_mb(st: InterState, ie: InterEnv, m: SliceMode, pos: MbPos) -> Result<
    InterState,
    ReconError,
> {
    let (st0, kind) = mb_kind(st, ie.two, pos);
    let st1 = flagged(st0, kind, pos);
    match kind {
        None => skipped_mb(st1, ie, m, pos),
        Some(t) => {
            let x = intra_index(ie.two, t as int);
            if x == 25 {
                Err(ReconError::Pcm)
            } else if x >= 0 {
                Ok(intra_in_inter(st1, x, pos, ie.env))
            } else {
                coded_inter(st1, t as int, ie, m, pos)
            }
        },
    }
}

/// One macroblock of an inter slice and the end-of-slice bin.
pub open spec fn inter_step(st: InterState, ie: InterEnv, m: SliceMode, pos: MbPos) -> Result<
    (InterState, u32),
    ReconError,
> {
    match inter_mb(st, ie, m, pos) {
        Err(x) => Err(x),
        Ok(st1) => {
            let (e, eos) = st1.e.terminate();
            Ok((InterState { e, ..st1 }, eos))
        },
    }
}

fn is_all_big(plan: &Vec<Part>) -> (b: bool)
    ensures
        b == all_big(plan@),
{
    let n: usize = plan.len();
    for i in 0..n
        invariant
            n == plan@.len(),
            forall|j: int| 0 <= j < i ==> (#[trigger] plan@[j]).w >= 2 && plan@[j].h >= 2,
    {
        if plan[i].w < 2 || plan[i].h < 2 {
            assert(!(plan@[i as int].w >= 2 && plan@[i as int].h >= 2));
            return false;
        }
    }
    true
}

impl<'a> InterSlice<'a> {
    fn neighbours(&self, pos: MbPos, Ghost(s): Ghost<(int, int, int)>) -> (n: Neighbors)
        requires
            self@.shaped(s),
            pos.inside(s.0, s.1, s.2),
        ensures
            n == around_mb(self@, pos),
    {
        Neighbors { left: self.mb.left(pos, Ghost(s)), up: self.mb.up(pos, Ghost(s)) }
    }

    fn intra_mb(&mut self, x: i64, pos: MbPos, scaling: &ScalingLists, pps: &Pps, Ghost(s): Ghost<(int, int, int)>, Ghost(env): Ghost<SliceEnv>)
        requires
            old(self)@.ok(s),
            0 <= x <= 24,
            pos.inside(s.0, s.1, s.2),
            env.pps == *pps,
            *scaling == env.scaling(),
        ensures
            final(self)@ == intra_in_inter(old(self)@, x as int, pos, env),
            final(self)@.ok(s),
    {
        proof {
            reveal(intra_in_inter);
        }
        let ghost before = self@;
        let n = self.neighbours(pos, Ghost(s));
        let ghost o = intra_head(head_of(before), n, pps.transform_8x8_mode_flag, x as int);
        let (info, modes, delta) = read_intra_head(
            &mut self.e,
            &mut self.c,
            &mut self.last_dquant,
            &n,
            pps.transform_8x8_mode_flag,
            x,
        );
        let res = self.residual(
            &info,
            delta,
            false,
            pos,
            scaling,
            pps,
            Ghost(before),
            Ghost(o),
            Ghost(s),
            Ghost(env),
        );
        reconstruct_intra_mb(
            &mut self.pic,
            &info,
            modes.as_slice(),
            &res,
            pos,
            Ghost(read_residual(before, o, false, pos, env).1),
            Ghost(s),
        );
        self.intra.fill(4 * pos.x, 4 * pos.y, 4, 4, true);
        proof {
            reveal(read_residual);
        }
    }

    fn coded_mb(
        &mut self,
        t: i64,
        lists: &Lists,
        m: &Mode,
        pos: MbPos,
        scaling: &ScalingLists,
        pps: &Pps,
        width: usize,
        Ghost(s): Ghost<(int, int, int)>,
        Ghost(env): Ghost<SliceEnv>,
    ) -> (r: Result<(), ReconError>)
        requires
            old(self)@.ok(s),
            small(s),
            16 * pos.y + 15 <= i32::MAX,
            0 <= t <= 22,
            lists.ok(env),
            env.width() == s.0,
            width == s.0,
            pos.inside(s.0, s.1, s.2),
            env.pps == *pps,
            *scaling == env.scaling(),
        ensures
            match r {
                Ok(_) => coded_inter(old(self)@, t as int, lists.env(env), m@, pos) == Ok::<
                    InterState,
                    ReconError,
                >(final(self)@) && final(self)@.ok(s),
                Err(x) => coded_inter(old(self)@, t as int, lists.env(env), m@, pos) == Err::<
                    InterState,
                    ReconError,
                >(x),
            },
    {
        proof {
            reveal(coded_inter);
        }
        let mut plan = plan_of(&mut self.e, &mut self.c, lists.two, t);
        self.motion(&mut plan, lists, m, pos, width, Ghost(s), Ghost(env));
        let ghost before = self@;
        let n = self.neighbours(pos, Ghost(s));
        let big: bool = is_all_big(&plan);
        let ghost o = inter_head(head_of(before), n, pps.transform_8x8_mode_flag, big);
        let (info, delta) = read_inter_head(
            &mut self.e,
            &mut self.c,
            &mut self.last_dquant,
            &n,
            pps.transform_8x8_mode_flag,
            big,
        );
        assert(o.modes == Seq::<i64>::empty()) by {
            reveal(inter_head);
        }
        let res = self.residual(
            &info,
            delta,
            true,
            pos,
            scaling,
            pps,
            Ghost(before),
            Ghost(o),
            Ghost(s),
            Ghost(env),
        );
        assert(lists.refs.env(m.weights) == lists.env(env).refs(m@.weights));
        draw_parts(
            &mut self.pic,
            &plan,
            &lists.refs,
            &m.weights,
            &res,
            pos,
            Ghost(read_residual(before, o, true, pos, env).1),
            Ghost(s),
        )
    }

    fn skip_mb(
        &mut self,
        lists: &Lists,
        m: &Mode,
        pos: MbPos,
        width: usize,
        Ghost(s): Ghost<(int, int, int)>,
        Ghost(env): Ghost<SliceEnv>,
    ) -> (r: Result<(), ReconError>)
        requires
            old(self)@.ok(s),
            small(s),
            16 * pos.y + 15 <= i32::MAX,
            lists.ok(env),
            env.width() == s.0,
            width == s.0,
            pos.inside(s.0, s.1, s.2),
        ensures
            match r {
                Ok(_) => skipped_mb(old(self)@, lists.env(env), m@, pos) == Ok::<
                    InterState,
                    ReconError,
                >(final(self)@) && final(self)@.ok(s),
                Err(x) => skipped_mb(old(self)@, lists.env(env), m@, pos) == Err::<
                    InterState,
                    ReconError,
                >(x),
            },
    {
        proof {
            reveal(skipped_mb);
        }
        let plan: Vec<Part> = if lists.two {
            let mut plan = all_direct();
            self.motion(&mut plan, lists, m, pos, width, Ghost(s), Ghost(env));
            plan
        } else {
            let p = skip_motion(&mut self.l0, pos, Ghost(s));
            let mut plan: Vec<Part> = Vec::new();
            plan.push(p);
            assert(plan@ =~= seq![p]);
            plan
        };
        let res = MbResidual::default();
        assert(lists.refs.env(m.weights) == lists.env(env).refs(m@.weights));
        draw_parts(
            &mut self.pic,
            &plan,
            &lists.refs,
            &m.weights,
            &res,
            pos,
            Ghost(zero_residual()),
            Ghost(s),
        )?;
        let none = MbInfo { i_nxn: false, transform8x8: false, c_ipred: 0, cbp: 0, i16_pred: 0 };
        self.mb.store(pos, none, CbpBits(0), self.qp, Ghost(s));
        self.last_dquant = 0;
        Ok(())
    }

    fn step(
        &mut self,
        lists: &Lists,
        m: &Mode,
        pos: MbPos,
        scaling: &ScalingLists,
        pps: &Pps,
        width: usize,
        Ghost(s): Ghost<(int, int, int)>,
        Ghost(env): Ghost<SliceEnv>,
    ) -> (r: Result<u32, ReconError>)
        requires
            old(self)@.ok(s),
            small(s),
            16 * pos.y + 15 <= i32::MAX,
            lists.ok(env),
            env.width() == s.0,
            width == s.0,
            pos.inside(s.0, s.1, s.2),
            env.pps == *pps,
            *scaling == env.scaling(),
        ensures
            match r {
                Ok(eos) => inter_step(old(self)@, lists.env(env), m@, pos) == Ok::<
                    (InterState, u32),
                    ReconError,
                >((final(self)@, eos)) && (eos == 0 ==> final(self)@.ok(s)) && eos <= 1
                    && final(self)@.shaped(s),
                Err(x) => inter_step(old(self)@, lists.env(env), m@, pos) == Err::<
                    (InterState, u32),
                    ReconError,
                >(x),
            },
    {
        proof {
            reveal(inter_mb);
        }
        let kind = self.kind(lists.two, pos, Ghost(s));
        let coded: bool = match kind {
            Some(t) => t != 0,
            None => false,
        };
        self.skip.set(pos.x, pos.y, kind.is_none());
        self.coded.set(pos.x, pos.y, coded);
        match kind {
            None => {
                self.skip_mb(lists, m, pos, width, Ghost(s), Ghost(env))?;
            },
            Some(t) => {
                let x: i64 = if lists.two {
                    t - 23
                } else {
                    t - 6
                };
                if x == 25 {
                    return Err(ReconError::Pcm);
                }
                if x >= 0 {
                    self.intra_mb(x, pos, scaling, pps, Ghost(s), Ghost(env));
                } else {
                    self.coded_mb(t, lists, m, pos, scaling, pps, width, Ghost(s), Ghost(env))?;
                }
            },
        }
        Ok(self.e.decode_terminate())
    }
}

// ---- a slice ----

/// An inter slice from macroblock `a` on, up to its end-of-slice bin; running
/// past the `n` rows of its band or past the frame is an error. Also the number
/// of macroblocks.
pub open spec fn inter_run(st: InterState, a: int, n: int, r0: int, ie: InterEnv, m: SliceMode) -> Result<
    (InterState, int),
    ReconError,
>
    decreases ie.env.width() * n - a,
{
    if a >= ie.env.width() * n || r0 * ie.env.width() + a >= ie.env.width() * ie.env.height() {
        Err(ReconError::Desync)
    } else {
        match inter_step(st, ie, m, mb_pos(a, ie.env.width(), r0)) {
            Err(x) => Err(x),
            Ok((st1, eos)) => if eos == 1 {
                Ok((st1, a + 1))
            } else {
                inter_run(st1, a + 1, n, r0, ie, m)
            },
        }
    }
}

/// A decoded inter slice.
pub struct InterOut {
    pub pic: Pic,
    pub mb: MbGrids,
    pub l0: Grid<Cell>,
    pub l1: Grid<Cell>,
    pub intra: Grid<bool>,
    pub nz: Grid<bool>,
    pub count: int,
    pub deblocking: (u32, i32, i32),
}

/// The initial context model of a slice.
pub open spec fn init_model(rbsp: Seq<u8>, env: SliceEnv) -> u32 {
    match env.header(rbsp).0.fields.cabac_init_idc {
        Some(v) => v,
        None => 0,
    }
}

/// The state at the start of an inter slice.
#[verifier::opaque]
pub open spec fn inter_start(rbsp: Seq<u8>, n: int, r0: int, env: SliceEnv) -> InterState {
    let width = env.width();
    let qp = env.slice_qp(rbsp);
    let model = (init_model(rbsp, env) % 3) as int;
    InterState {
        e: env.engine(rbsp),
        c: InterBank::initial(model, qp as int),
        r: ResidualBank::initial(qp as int, true, model),
        last_dquant: 0,
        qp,
        pic: blank_pic(Some(2u8), width, n, r0),
        mb: blank_grids(width, n, r0),
        l0: uniform(no_motion(), 4 * width, 4 * n, 4 * r0),
        l1: uniform(no_motion(), 4 * width, 4 * n, 4 * r0),
        intra: uniform(false, 4 * width, 4 * n, 4 * r0),
        nz: uniform(false, 4 * width, 4 * n, 4 * r0),
        skip: uniform(false, width, n, r0),
        coded: uniform(false, width, n, r0),
    }
}

/// Why an inter slice cannot start, if so: no reference, an unreadable header,
/// or a list of a B slice shorter than the slice needs.
pub open spec fn start_error(rbsp: Seq<u8>, ie: InterEnv) -> Option<ReconError> {
    let m = slice_mode(rbsp, ie.env);
    if ie.refs0.len() == 0 || (ie.two && ie.refs1.len() == 0) {
        Some(ReconError::NoReference)
    } else if ie.env.header(rbsp).1.err is Some {
        Some(ReconError::Header(ie.env.header(rbsp).1.err->0))
    } else if ie.two && (m.num0 > ie.refs0.len() || m.num1 > ie.refs1.len()) {
        Some(ReconError::ShortList)
    } else {
        None
    }
}

/// An inter slice in a band of `n` macroblock rows from `r0` on.
#[verifier::opaque]
pub open spec fn inter_slice(rbsp: Seq<u8>, n: int, r0: int, ie: InterEnv) -> Result<InterOut, ReconError> {
    match start_error(rbsp, ie) {
        Some(x) => Err(x),
        None => match inter_run(
            inter_start(rbsp, n, r0, ie.env),
            0,
            n,
            r0,
            ie,
            slice_mode(rbsp, ie.env),
        ) {
            Err(x) => Err(x),
            Ok((end, count)) => Ok(
                InterOut {
                    pic: end.pic,
                    mb: end.mb,
                    l0: end.l0,
                    l1: end.l1,
                    intra: end.intra,
                    nz: end.nz,
                    count,
                    deblocking: ie.env.deblocking(rbsp),
                },
            ),
        },
    }
}

/// A decoded inter slice: its band and the number of its macroblocks.
pub struct InterBand {
    pub pic: Canvas,
    pub mb: MbBands,
    pub l0: Band<Cell>,
    pub l1: Band<Cell>,
    pub intra: Band<bool>,
    pub nz: Band<bool>,
    pub count: usize,
    pub deblocking: (u32, i32, i32),
}

impl View for InterBand {
    type V = InterOut;

    open spec fn view(&self) -> InterOut {
        InterOut {
            pic: self.pic@,
            mb: self.mb@,
            l0: self.l0@,
            l1: self.l1@,
            intra: self.intra@,
            nz: self.nz@,
            count: self.count as int,
            deblocking: self.deblocking,
        }
    }
}

impl InterOut {
    /// The grids have the sizes of the band.
    pub open spec fn shaped(self, s: (int, int, int)) -> bool {
        &&& self.pic.ok(s.0, s.1, s.2)
        &&& self.mb.ok(s.0, s.1, s.2)
        &&& cells_ok(self.l0, s)
        &&& cells_ok(self.l1, s)
        &&& cells_ok(self.intra, s)
        &&& cells_ok(self.nz, s)
        &&& 0 <= self.count <= s.0 * s.1
    }
}

impl<'a> InterSlice<'a> {
    fn start(
        data: &'a [u8],
        qp: i32,
        idc: u32,
        width: usize,
        n: usize,
        r0: usize,
        Ghost(rbsp): Ghost<Seq<u8>>,
        Ghost(env): Ghost<SliceEnv>,
    ) -> (r: Self)
        requires
            band_fits(width as int, n as int, r0 as int),
            env.width() == width,
            qp == env.slice_qp(rbsp),
            idc == init_model(rbsp, env),
            Engine::start(data@) == env.engine(rbsp),
        ensures
            r@ == inter_start(rbsp, n as int, r0 as int, env),
            r@.ok((width as int, n as int, r0 as int)),
    {
        proof {
            reveal(inter_start);
            lemma_band_areas(width as int, n as int);
        }
        let none = Cell { mv: (0, 0), mvd: (0, 0), refi: -1, direct: false };
        InterSlice {
            e: CabacEngine::new(data),
            c: InterContexts::new(idc, qp),
            r: ResidualContexts::new(qp, true, (idc % 3) as usize),
            last_dquant: 0,
            qp,
            pic: Canvas::blank(Some(2), width, n, r0),
            mb: MbBands::blank(width, n, r0),
            l0: Band::uniform(none, 4 * width, 4 * n, 4 * r0),
            l1: Band::uniform(none, 4 * width, 4 * n, 4 * r0),
            intra: Band::uniform(false, 4 * width, 4 * n, 4 * r0),
            nz: Band::uniform(false, 4 * width, 4 * n, 4 * r0),
            skip: Band::uniform(false, width, n, r0),
            coded: Band::uniform(false, width, n, r0),
        }
    }
}

proof fn lemma_inter_band(env: SliceEnv, n: int, r0: int)
    requires
        env.size_ok(),
        env.sides_ok(),
        0 <= n <= env.height(),
        0 <= r0 < env.height(),
    ensures
        band_fits(env.width(), n, r0),
        small((env.width(), n, r0)),
        0 <= env.width() * n <= isize::MAX,
        0 <= env.width() * (env.height() - r0) <= isize::MAX,
        r0 * env.width() + env.width() * (env.height() - r0) == env.width() * env.height(),
{
    let (w, h) = (env.width(), env.height());
    assert(0 <= w * n <= w * h && 0 <= w * (h - r0) <= w * h && w <= w * h && h <= w * h && r0 * w
        + w * (h - r0) == w * h) by (nonlinear_arith)
        requires
            0 <= n <= h,
            0 <= r0 < h,
            w >= 1,
    ;
}

/// Decode an inter slice into a band of `n` macroblock rows from `r0` on.
pub fn decode_inter_slice(
    rbsp: &[u8],
    nal_ref_idc: u8,
    idr: bool,
    sps: &Sps,
    pps: &Pps,
    lists: &Lists,
    n: usize,
    r0: usize,
) -> (r: Result<InterBand, ReconError>)
    requires
        widths_ok(*sps),
        (SliceEnv { idr, nal_ref_idc, sps: *sps, pps: *pps }).size_ok(),
        (SliceEnv { idr, nal_ref_idc, sps: *sps, pps: *pps }).sides_ok(),
        n <= sps.pic_height_in_map_units,
        lists.fits(SliceEnv { idr, nal_ref_idc, sps: *sps, pps: *pps }),
    ensures
        ({
            let env = SliceEnv { idr, nal_ref_idc, sps: *sps, pps: *pps };
            match r {
                Ok(b) => inter_slice(rbsp@, n as int, r0 as int, lists.env(env)) == Ok::<
                    InterOut,
                    ReconError,
                >(b@) && b@.shaped((env.width(), n as int, r0 as int)),
                Err(e) => inter_slice(rbsp@, n as int, r0 as int, lists.env(env)) == Err::<
                    InterOut,
                    ReconError,
                >(e),
            }
        }),
{
    proof {
        reveal(inter_slice);
    }
    let ghost env = SliceEnv { idr, nal_ref_idc, sps: *sps, pps: *pps };
    let ghost ie = lists.env(env);
    let ghost s = (env.width(), n as int, r0 as int);
    if lists.refs.l0.len() == 0 || (lists.two && lists.refs.l1.len() == 0) {
        return Err(ReconError::NoReference);
    }
    let mut reader = BitReader::new(rbsp);
    let sh: SliceHeader = match parse_slice_header(&mut reader, idr, nal_ref_idc, sps, pps) {
        Ok(h) => h,
        Err(e) => {
            return Err(ReconError::Header(e));
        },
    };
    let num0: u64 = sh.num_ref_idx_l0_active_minus1 as u64 + 1;
    let num1: u64 = sh.num_ref_idx_l1_active_minus1 as u64 + 1;
    if lists.two && (num0 > lists.refs.l0.len() as u64 || num1 > lists.refs.l1.len() as u64) {
        return Err(ReconError::ShortList);
    }
    let qp: i32 = 26i32.wrapping_add(pps.pic_init_qp_minus26).wrapping_add(sh.slice_qp_delta);
    let idc: u32 = match sh.cabac_init_idc {
        Some(v) => v,
        None => 0,
    };
    let deblocking: (u32, i32, i32) = (
        sh.disable_deblocking_filter_idc,
        sh.slice_alpha_c0_offset_div2,
        sh.slice_beta_offset_div2,
    );
    let spatial: bool = sh.direct_spatial_mv_pred_flag;
    let m = Mode { weights: sh.pred_weights, spatial, num0, num1 };
    let ghost sm = slice_mode(rbsp@, env);
    assert(m@ == sm);
    let width: usize = sps.pic_width_in_mbs as usize;
    let height: usize = sps.pic_height_in_map_units as usize;
    if r0 >= height {
        assert(r0 * width >= width * height) by (nonlinear_arith)
            requires
                r0 >= height,
        ;
        return Err(ReconError::Desync);
    }
    let scaling = pick_scaling(sps, pps, Ghost(env));
    proof {
        lemma_inter_band(env, n as int, r0 as int);
    }
    let mut slice = InterSlice::start(
        reader.rest(),
        qp,
        idc,
        width,
        n,
        r0,
        Ghost(rbsp@),
        Ghost(env),
    );
    let ghost whole = inter_run(slice@, 0, s.1, s.2, ie, sm);
    let total: usize = width * n;
    let room: usize = width * (height - r0);
    let mut a: usize = 0;
    loop
        invariant
            s == (env.width(), n as int, r0 as int),
            env == (SliceEnv { idr, nal_ref_idc, sps: *sps, pps: *pps }),
            env.sides_ok(),
            r0 < height,
            height == env.height(),
            room == width * (height - r0),
            r0 * width + room == width * height,
            ie == lists.env(env),
            lists.ok(env),
            sm == m@,
            width == env.width(),
            total == width * n,
            a <= total,
            band_fits(s.0, s.1, s.2),
            small(s),
            scaling == env.scaling(),
            slice@.ok(s),
            inter_run(slice@, a as int, s.1, s.2, ie, sm) == whole,
            inter_slice(rbsp@, n as int, r0 as int, ie) == (match whole {
                Err(e) => Err(e),
                Ok((end, count)) => Ok::<InterOut, ReconError>(
                    InterOut {
                        pic: end.pic,
                        mb: end.mb,
                        l0: end.l0,
                        l1: end.l1,
                        intra: end.intra,
                        nz: end.nz,
                        count,
                        deblocking: env.deblocking(rbsp@),
                    },
                ),
            }),
            env.deblocking(rbsp@) == deblocking,
        decreases total - a,
    {
        if a >= total || a >= room {
            return Err(ReconError::Desync);
        }
        let pos = mb_at(a, width, r0, Ghost(n as int));
        proof {
            lemma_row_of(width as int, height - r0, a as int);
        }
        let eos: u32 = slice.step(lists, &m, pos, &scaling, pps, width, Ghost(s), Ghost(env))?;
        a = a + 1;
        if eos == 1 {
            return Ok(
                InterBand {
                    pic: slice.pic,
                    mb: slice.mb,
                    l0: slice.l0,
                    l1: slice.l1,
                    intra: slice.intra,
                    nz: slice.nz,
                    count: a,
                    deblocking,
                },
            );
        }
    }
}

// ---- the slices of a frame ----

/// The bands of the slices so far, one after another.
#[verifier::ext_equal]
pub struct InterJoined {
    pub base: Joined,
    pub l0: Seq<Cell>,
    pub l1: Seq<Cell>,
    pub intra: Seq<bool>,
    pub nz: Seq<bool>,
}

/// No slice yet.
pub open spec fn nothing_read() -> InterJoined {
    InterJoined {
        base: nothing_joined(),
        l0: Seq::empty(),
        l1: Seq::empty(),
        intra: Seq::empty(),
        nz: Seq::empty(),
    }
}

impl InterJoined {
    /// With the band of another slice.
    pub open spec fn join(self, o: InterOut) -> InterJoined {
        InterJoined {
            base: self.base.join(o.pic, o.mb, o.count, o.deblocking),
            l0: self.l0 + o.l0.d,
            l1: self.l1 + o.l1.d,
            intra: self.intra + o.intra.d,
            nz: self.nz + o.nz.d,
        }
    }

    /// The parts hold `rows` macroblock rows.
    pub open spec fn holds(self, width: int, rows: int) -> bool {
        &&& self.base.holds(width, rows)
        &&& self.l0.len() == 16 * (width * rows)
        &&& self.l1.len() == 16 * (width * rows)
        &&& self.intra.len() == 16 * (width * rows)
        &&& self.nz.len() == 16 * (width * rows)
    }
}

/// The inter slices of a frame from slice `k` on, after those in `acc`.
pub open spec fn inter_slices(
    slices: Seq<Seq<u8>>,
    plan: Seq<(int, int)>,
    k: int,
    acc: InterJoined,
    ie: InterEnv,
) -> Result<InterJoined, ReconError>
    decreases slices.len() - k,
{
    if k >= slices.len() {
        Ok(acc)
    } else {
        match inter_slice(slices[k], plan[k].1, plan[k].0, ie) {
            Err(e) => Err(e),
            Ok(o) => inter_slices(slices, plan, k + 1, acc.join(o), ie),
        }
    }
}

/// A frame under construction, band by band.
pub struct InterAssembly {
    pub base: Assembly,
    pub l0: Vec<Cell>,
    pub l1: Vec<Cell>,
    pub intra: Vec<bool>,
    pub nz: Vec<bool>,
}

impl View for InterAssembly {
    type V = InterJoined;

    open spec fn view(&self) -> InterJoined {
        InterJoined {
            base: self.base@,
            l0: self.l0@,
            l1: self.l1@,
            intra: self.intra@,
            nz: self.nz@,
        }
    }
}

impl InterAssembly {
    fn join(&mut self, b: InterBand, Ghost(rows): Ghost<int>, Ghost(s): Ghost<(int, int, int)>)
        requires
            b@.shaped(s),
            old(self)@.holds(s.0, rows),
            old(self).base.count + b.count <= u64::MAX,
        ensures
            final(self)@ == old(self)@.join(b@),
            final(self)@.holds(s.0, rows + s.1),
    {
        let mut b = b;
        self.l0.append(&mut b.l0.d);
        self.l1.append(&mut b.l1.d);
        self.intra.append(&mut b.intra.d);
        self.nz.append(&mut b.nz.d);
        self.base.join(b.pic, b.mb, b.count, b.deblocking, Ghost(rows), Ghost(s));
        proof {
            lemma_band_areas(s.0, s.1);
            assert(s.0 * (rows + s.1) == s.0 * rows + s.0 * s.1) by (nonlinear_arith);
        }
    }
}

/// Decode the inter slices of a frame into their bands.
pub fn decode_inter_slices(
    slices: &[&[u8]],
    plan: &Vec<(usize, usize)>,
    nal_ref_idc: u8,
    idr: bool,
    sps: &Sps,
    pps: &Pps,
    lists: &Lists,
) -> (r: Result<InterAssembly, ReconError>)
    requires
        widths_ok(*sps),
        (SliceEnv { idr, nal_ref_idc, sps: *sps, pps: *pps }).size_ok(),
        (SliceEnv { idr, nal_ref_idc, sps: *sps, pps: *pps }).sides_ok(),
        lists.fits(SliceEnv { idr, nal_ref_idc, sps: *sps, pps: *pps }),
        slices@.len() == plan@.len(),
        rows_before(plan_view(plan@), plan@.len() as int) == sps.pic_height_in_map_units,
    ensures
        ({
            let env = SliceEnv { idr, nal_ref_idc, sps: *sps, pps: *pps };
            let all = crate::mvc::recon::bytes_of(slices@);
            let want = inter_slices(all, plan_view(plan@), 0, nothing_read(), lists.env(env));
            match r {
                Ok(a) => want == Ok::<InterJoined, ReconError>(a@) && a@.holds(
                    env.width(),
                    env.height(),
                ),
                Err(e) => want == Err::<InterJoined, ReconError>(e),
            }
        }),
{
    let ghost env = SliceEnv { idr, nal_ref_idc, sps: *sps, pps: *pps };
    let ghost ie = lists.env(env);
    let ghost all = crate::mvc::recon::bytes_of(slices@);
    let ghost pv = plan_view(plan@);
    let mut acc = InterAssembly {
        base: Assembly::new(),
        l0: Vec::new(),
        l1: Vec::new(),
        intra: Vec::new(),
        nz: Vec::new(),
    };
    assert(acc@ =~= nothing_read());
    let n: usize = slices.len();
    let mut k: usize = 0;
    assert(env.width() * 0 == 0);
    while k < n
        invariant
            n == slices@.len(),
            n == plan@.len(),
            k <= n,
            widths_ok(*sps),
            env == (SliceEnv { idr, nal_ref_idc, sps: *sps, pps: *pps }),
            env.size_ok(),
            env.sides_ok(),
            ie == lists.env(env),
            lists.fits(env),
            all == crate::mvc::recon::bytes_of(slices@),
            pv == plan_view(plan@),
            rows_before(pv, n as int) == env.height(),
            acc@.holds(env.width(), rows_before(pv, k as int)),
            acc.base.count <= env.width() * rows_before(pv, k as int),
            inter_slices(all, pv, k as int, acc@, ie) == inter_slices(all, pv, 0, nothing_read(), ie),
        decreases n - k,
    {
        proof {
            assert forall|j: int| 0 <= j < pv.len() implies (#[trigger] pv[j]).1 >= 0 by {}
            lemma_rows_before(pv, k as int, n as int);
            lemma_rows_before(pv, k + 1, n as int);
        }
        let (r0, rows): (usize, usize) = plan[k];
        let b = decode_inter_slice(slices[k], nal_ref_idc, idr, sps, pps, lists, rows, r0)?;
        proof {
            assert(all[k as int] == slices@[k as int]@);
            lemma_joined_count(pv, k as int, env);
        }
        acc.join(
            b,
            Ghost(rows_before(pv, k as int)),
            Ghost((env.width(), rows as int, r0 as int)),
        );
        k = k + 1;
    }
    Ok(acc)
}

} // verus!

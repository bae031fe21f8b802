//! Inter (P and B) macroblock CABAC decoding (H.264 sections 7.3.5 and 9.3):
//! mb_skip_flag, mb_type, sub_mb_type, ref_idx and mvd.

use crate::mvc::cabac::{bank_ok, Bins, CabacEngine, CtxState, Engine};
use crate::mvc::mb_header::{i16_type, rows_of, rows_ok, INIT_CIPR_I, INIT_IPR_I};
use crate::mvc::residual_ctx::{init_bank, init_row};
use vstd::prelude::*;

verus! {

/// mb_skip_flag (0..2), mb_type (4..7) and the I_16x16 suffix (8..10) of a P slice.
pub const INIT_MB_TYPE_P: [[(i32, i32); 11]; 3] = [
    [(23,33),(23,2),(21,0),(0,0),(1,9),(0,49),(-37,118),(5,57),(-13,78),(-11,65),(1,62)],
    [(22,25),(34,0),(16,0),(0,0),(-2,9),(4,41),(-29,118),(2,65),(-6,71),(-13,79),(5,52)],
    [(29,16),(25,0),(14,0),(0,0),(-10,51),(-3,62),(-27,99),(26,16),(-4,85),(-24,102),(5,57)],
];

/// mvd: the first bin, then the suffix; five contexts for each component.
pub const INIT_MV_RES_P: [[[(i32, i32); 10]; 2]; 3] = [
    [[(-3,69),(0,0),(-6,81),(-11,96),(0,0),(0,58),(0,0),(-3,76),(-10,94),(0,0)],
     [(6,55),(7,67),(-5,86),(2,88),(0,0),(5,54),(4,69),(-3,81),(0,88),(0,0)]],
    [[(0,65),(0,0),(-3,79),(-11,97),(0,0),(-1,69),(0,0),(-2,78),(-9,93),(0,0)],
     [(5,64),(11,53),(-4,87),(3,90),(0,0),(2,68),(3,73),(-3,84),(1,92),(0,0)]],
    [[(-1,70),(0,0),(-7,86),(-13,103),(0,0),(0,60),(0,0),(-3,80),(-10,98),(0,0)],
     [(8,55),(11,58),(-7,93),(3,93),(0,0),(7,53),(8,63),(-4,86),(2,95),(0,0)]],
];

/// coded_block_pattern.
pub const INIT_CBP_P: [[[(i32, i32); 4]; 3]; 3] = [
    [[(-27,126),(-28,98),(-25,101),(-23,67)],[(-28,82),(-20,94),(-16,83),(-22,110)],[(-21,91),(-18,102),(-13,93),(-29,127)]],
    [[(-39,127),(-18,91),(-17,96),(-26,81)],[(-35,98),(-24,102),(-23,97),(-27,119)],[(-24,99),(-21,110),(-18,102),(-36,127)]],
    [[(-36,127),(-17,91),(-14,95),(-25,84)],[(-25,86),(-12,89),(-17,91),(-31,127)],[(-14,76),(-18,103),(-13,90),(-37,127)]],
];

/// transform_size_8x8_flag.
pub const INIT_TRANSFORM_SIZE_P: [[(i32, i32); 3]; 3] = [
    [(12,40),(11,51),(14,59)],
    [(25,32),(21,49),(21,54)],
    [(21,33),(19,50),(17,61)],
];

/// mb_qp_delta.
pub const INIT_DELTA_QP_P: [[(i32, i32); 4]; 3] = [
    [(0,41),(0,63),(0,63),(0,63)],
    [(0,41),(0,63),(0,63),(0,63)],
    [(0,41),(0,63),(0,63),(0,63)],
];

/// sub_mb_type of a P slice.
pub const INIT_B8_TYPE_P: [[(i32, i32); 5]; 3] = [
    [(0,0),(12,49),(0,0),(-4,73),(17,50)],
    [(0,0),(9,50),(0,0),(-3,70),(10,54)],
    [(0,0),(6,57),(0,0),(-17,73),(14,57)],
];

/// mb_type (0..2, 4..6) and mb_skip_flag (7..9) of a B slice.
pub const INIT_MB_TYPE_B: [[(i32, i32); 11]; 3] = [
    [(26,67),(16,90),(9,104),(0,0),(-46,127),(-20,104),(1,67),(18,64),(9,43),(29,0),(0,0)],
    [(57,2),(41,36),(26,69),(0,0),(-45,127),(-15,101),(-4,76),(26,34),(19,22),(40,0),(0,0)],
    [(54,0),(37,42),(12,97),(0,0),(-32,127),(-22,117),(-2,74),(20,40),(20,10),(29,0),(0,0)],
];

/// sub_mb_type of a B slice.
pub const INIT_B8_TYPE_B: [[(i32, i32); 4]; 3] = [
    [(-6,86),(-17,95),(-6,61),(9,45)],
    [(6,69),(-13,90),(0,52),(8,43)],
    [(-6,93),(-14,88),(-6,44),(4,55)],
];

/// ref_idx: the first bin (0..3) and the unary suffix (4, 5).
pub const INIT_REF_NO_P: [[(i32, i32); 6]; 3] = [
    [(-7,67),(-5,74),(-4,74),(-5,80),(-7,72),(1,58)],
    [(-1,66),(-1,77),(1,70),(-2,86),(-5,72),(0,61)],
    [(3,55),(-4,79),(-2,75),(-12,97),(-7,50),(1,60)],
];

/// The contexts of inter macroblock header syntax, built once for a slice.
pub struct InterContexts {
    /// mb_type and mb_skip_flag of a P slice.
    pub mb_type: [CtxState; 11],
    /// mvd: `[0]` the first bin, `[1]` the suffix.
    pub mv_res: [[CtxState; 10]; 2],
    /// coded_block_pattern.
    pub cbp: [[CtxState; 4]; 3],
    /// transform_size_8x8_flag.
    pub transform: [CtxState; 3],
    /// mb_qp_delta.
    pub delta_qp: [CtxState; 4],
    /// sub_mb_type of a P slice.
    pub b8_type: [CtxState; 5],
    /// mb_type and mb_skip_flag of a B slice.
    pub mb_type_b: [CtxState; 11],
    /// sub_mb_type of a B slice.
    pub b8_type_b: [CtxState; 4],
    /// ref_idx.
    pub ref_no: [CtxState; 6],
    /// Intra prediction modes of an intra macroblock in an inter slice.
    pub ipr: [CtxState; 2],
    /// intra_chroma_pred_mode of an intra macroblock in an inter slice.
    pub cipr: [CtxState; 4],
}

/// The same contexts as sequences.
pub struct InterBank {
    pub mb_type: Seq<CtxState>,
    pub mv_first: Seq<CtxState>,
    pub mv_rest: Seq<CtxState>,
    pub cbp: Seq<Seq<CtxState>>,
    pub transform: Seq<CtxState>,
    pub delta_qp: Seq<CtxState>,
    pub b8_type: Seq<CtxState>,
    pub mb_type_b: Seq<CtxState>,
    pub b8_type_b: Seq<CtxState>,
    pub ref_no: Seq<CtxState>,
    pub ipr: Seq<CtxState>,
    pub cipr: Seq<CtxState>,
}

impl InterBank {
    /// Every context is in range.
    pub open spec fn ok(self) -> bool {
        &&& bank_ok(self.mb_type)
        &&& bank_ok(self.mv_first)
        &&& bank_ok(self.mv_rest)
        &&& rows_ok(self.cbp)
        &&& bank_ok(self.transform)
        &&& bank_ok(self.delta_qp)
        &&& bank_ok(self.b8_type)
        &&& bank_ok(self.mb_type_b)
        &&& bank_ok(self.b8_type_b)
        &&& bank_ok(self.ref_no)
        &&& bank_ok(self.ipr)
        &&& bank_ok(self.cipr)
    }

    /// The contexts at the start of a slice of cabac_init_idc model `m`.
    pub closed spec fn initial(m: int, qp: int) -> InterBank {
        InterBank {
            mb_type: init_row(INIT_MB_TYPE_P[m]@, qp),
            mv_first: init_row(INIT_MV_RES_P[m][0]@, qp),
            mv_rest: init_row(INIT_MV_RES_P[m][1]@, qp),
            cbp: seq![
                init_row(INIT_CBP_P[m][0]@, qp),
                init_row(INIT_CBP_P[m][1]@, qp),
                init_row(INIT_CBP_P[m][2]@, qp),
            ],
            transform: init_row(INIT_TRANSFORM_SIZE_P[m]@, qp),
            delta_qp: init_row(INIT_DELTA_QP_P[m]@, qp),
            b8_type: init_row(INIT_B8_TYPE_P[m]@, qp),
            mb_type_b: init_row(INIT_MB_TYPE_B[m]@, qp),
            b8_type_b: init_row(INIT_B8_TYPE_B[m]@, qp),
            ref_no: init_row(INIT_REF_NO_P[m]@, qp),
            ipr: init_row(INIT_IPR_I@, qp),
            cipr: init_row(INIT_CIPR_I@, qp),
        }
    }
}

impl View for InterContexts {
    type V = InterBank;

    open spec fn view(&self) -> InterBank {
        InterBank {
            mb_type: self.mb_type@,
            mv_first: self.mv_res[0]@,
            mv_rest: self.mv_res[1]@,
            cbp: rows_of(self.cbp),
            transform: self.transform@,
            delta_qp: self.delta_qp@,
            b8_type: self.b8_type@,
            mb_type_b: self.mb_type_b@,
            b8_type_b: self.b8_type_b@,
            ref_no: self.ref_no@,
            ipr: self.ipr@,
            cipr: self.cipr@,
        }
    }
}

impl InterContexts {
    /// The contexts of a slice with this cabac_init_idc and QP.
    pub fn new(cabac_init_idc: u32, slice_qp: i32) -> (c: Self)
        ensures
            c@ == InterBank::initial((cabac_init_idc % 3) as int, slice_qp as int),
            c@.ok(),
    {
        let m: usize = (cabac_init_idc % 3) as usize;
        InterContexts {
            mb_type: init_bank(&INIT_MB_TYPE_P[m], slice_qp),
            mv_res: [
                init_bank(&INIT_MV_RES_P[m][0], slice_qp),
                init_bank(&INIT_MV_RES_P[m][1], slice_qp),
            ],
            cbp: [
                init_bank(&INIT_CBP_P[m][0], slice_qp),
                init_bank(&INIT_CBP_P[m][1], slice_qp),
                init_bank(&INIT_CBP_P[m][2], slice_qp),
            ],
            transform: init_bank(&INIT_TRANSFORM_SIZE_P[m], slice_qp),
            delta_qp: init_bank(&INIT_DELTA_QP_P[m], slice_qp),
            b8_type: init_bank(&INIT_B8_TYPE_P[m], slice_qp),
            mb_type_b: init_bank(&INIT_MB_TYPE_B[m], slice_qp),
            b8_type_b: init_bank(&INIT_B8_TYPE_B[m], slice_qp),
            ref_no: init_bank(&INIT_REF_NO_P[m], slice_qp),
            ipr: init_bank(&INIT_IPR_I, slice_qp),
            cipr: init_bank(&INIT_CIPR_I, slice_qp),
        }
    }
}

/// The contexts at the start of a slice, from the tables.
pub proof fn law_inter_tables(m: int, qp: int)
    ensures
        InterBank::initial(m, qp) == (InterBank {
            mb_type: init_row(INIT_MB_TYPE_P[m]@, qp),
            mv_first: init_row(INIT_MV_RES_P[m][0]@, qp),
            mv_rest: init_row(INIT_MV_RES_P[m][1]@, qp),
            cbp: seq![
                init_row(INIT_CBP_P[m][0]@, qp),
                init_row(INIT_CBP_P[m][1]@, qp),
                init_row(INIT_CBP_P[m][2]@, qp),
            ],
            transform: init_row(INIT_TRANSFORM_SIZE_P[m]@, qp),
            delta_qp: init_row(INIT_DELTA_QP_P[m]@, qp),
            b8_type: init_row(INIT_B8_TYPE_P[m]@, qp),
            mb_type_b: init_row(INIT_MB_TYPE_B[m]@, qp),
            b8_type_b: init_row(INIT_B8_TYPE_B[m]@, qp),
            ref_no: init_row(INIT_REF_NO_P[m]@, qp),
            ipr: init_row(INIT_IPR_I@, qp),
            cipr: init_row(INIT_CIPR_I@, qp),
        }),
{
}

/// A run of bins from the start over one bank.
pub open spec fn bins(e: Engine, c: Seq<CtxState>) -> Bins {
    Bins { e, c, b: 0 }
}

// ---- ref_idx ----

/// Ones on context 5, counted on from `sym`.
pub open spec fn ref_ones(d: Bins, sym: i64) -> (Bins, i64)
    decreases i64::MAX - sym,
{
    let d1 = d.bin(5);
    if d1.b != 1 || sym == i64::MAX {
        (d1, sym)
    } else {
        ref_ones(d1, (sym + 1) as i64)
    }
}

/// ref_idx: a first bin on context `inc`, a second on 4, and ones on 5.
#[verifier::opaque]
pub open spec fn ref_idx(d: Bins, inc: int) -> (Bins, i64) {
    let d0 = d.bin(inc);
    if d0.b == 0 {
        (d0, 0)
    } else {
        let d1 = d0.bin(4);
        if d1.b == 0 {
            (d1, 1)
        } else {
            ref_ones(Bins { b: 0, ..d1 }, 2)
        }
    }
}

/// Decode a ref_idx. `a` is 1 where the left neighbour's index is above 0, `b`
/// is 2 where the upper one's is.
pub fn decode_ref_idx(e: &mut CabacEngine, ctx: &mut InterContexts, a: u32, b: u32) -> (v: i64)
    requires
        old(e)@.awake(),
        old(ctx)@.ok(),
        a + b <= 5,
    ensures
        ({
            let (d, x) = ref_idx(bins(old(e)@, old(ctx)@.ref_no), a + b);
            final(e)@ == d.e && final(ctx)@ == (InterBank { ref_no: d.c, ..old(ctx)@ }) && v == x
        }),
        v >= 0,
        final(e)@.live(),
        final(ctx)@.ok(),
{
    proof {
        reveal(ref_idx);
    }
    if e.decode_decision(&mut ctx.ref_no[(a + b) as usize]) == 0 {
        return 0;
    }
    if e.decode_decision(&mut ctx.ref_no[4]) == 0 {
        return 1;
    }
    let mut sym: i64 = 2;
    let ghost mut d = bins(e@, ctx@.ref_no);
    let ghost whole = ref_ones(d, 2);
    let ghost bank = ctx@;
    loop
        invariant_except_break
            d.e == e@,
            whole == ref_ones(d, sym),
        invariant
            d.c == ctx@.ref_no,
            ctx@ == (InterBank { ref_no: d.c, ..bank }),
            sym >= 2,
            e@.live(),
            ctx@.ok(),
        ensures
            whole.0.e == e@,
            whole.0.c == d.c,
            whole.1 == sym,
        decreases i64::MAX - sym,
    {
        let bin: u32 = e.decode_decision(&mut ctx.ref_no[5]);
        proof {
            d = d.bin(5);
        }
        if bin != 1 || sym == i64::MAX {
            break;
        }
        sym = sym + 1;
    }
    sym
}

// ---- mb_skip_flag ----

/// Decode mb_skip_flag of a P slice. The two arguments are 1 where that
/// neighbour exists and was not skipped. Returns whether the macroblock is
/// skipped, and the coded value (0 for a skipped macroblock, else 1).
pub fn decode_mb_skip_flag(
    e: &mut CabacEngine,
    ctx: &mut InterContexts,
    left_not_skip: u32,
    up_not_skip: u32,
) -> (r: (bool, i64))
    requires
        old(e)@.awake(),
        old(ctx)@.ok(),
        left_not_skip + up_not_skip <= 10,
    ensures
        ({
            let d = bins(old(e)@, old(ctx)@.mb_type).bin(left_not_skip + up_not_skip);
            final(e)@ == d.e && final(ctx)@ == (InterBank { mb_type: d.c, ..old(ctx)@ }) && r.0 == (
            d.b == 1)
        }),
        r.1 == (if r.0 {
            0int
        } else {
            1int
        }),
        final(e)@.live(),
        final(ctx)@.ok(),
{
    let bin: u32 = e.decode_decision(&mut ctx.mb_type[(left_not_skip + up_not_skip) as usize]);
    if bin == 1 {
        (true, 0)
    } else {
        (false, 1)
    }
}

/// Decode mb_skip_flag of a B slice, as [`decode_mb_skip_flag`] does of a P
/// slice.
pub fn decode_mb_skip_flag_b(
    e: &mut CabacEngine,
    ctx: &mut InterContexts,
    left_not_skip: u32,
    up_not_skip: u32,
) -> (r: (bool, i64))
    requires
        old(e)@.awake(),
        old(ctx)@.ok(),
        left_not_skip + up_not_skip <= 3,
    ensures
        ({
            let d = bins(old(e)@, old(ctx)@.mb_type_b).bin(7 + left_not_skip + up_not_skip);
            final(e)@ == d.e && final(ctx)@ == (InterBank { mb_type_b: d.c, ..old(ctx)@ }) && r.0
                == (d.b == 1)
        }),
        r.1 == (if r.0 {
            0int
        } else {
            1int
        }),
        final(e)@.live(),
        final(ctx)@.ok(),
{
    let bin: u32 = e.decode_decision(
        &mut ctx.mb_type_b[(7 + left_not_skip + up_not_skip) as usize],
    );
    if bin == 1 {
        (true, 0)
    } else {
        (false, 1)
    }
}

// ---- sub_mb_type ----

/// sub_mb_type of a P slice.
#[verifier::opaque]
pub open spec fn sub_mb_type(d: Bins) -> (Bins, i64) {
    let d0 = d.bin(1);
    if d0.b == 1 {
        (d0, 0)
    } else {
        let d1 = d0.bin(3);
        if d1.b == 1 {
            let d2 = d1.bin(4);
            if d2.b == 1 {
                (d2, 2)
            } else {
                (d2, 3)
            }
        } else {
            (d1, 1)
        }
    }
}

/// Decode sub_mb_type of a P slice: 0 = 8x8, 1 = 8x4, 2 = 4x8, 3 = 4x4.
pub fn decode_sub_mb_type(e: &mut CabacEngine, ctx: &mut InterContexts) -> (v: i64)
    requires
        old(e)@.awake(),
        old(ctx)@.ok(),
    ensures
        ({
            let (d, x) = sub_mb_type(bins(old(e)@, old(ctx)@.b8_type));
            final(e)@ == d.e && final(ctx)@ == (InterBank { b8_type: d.c, ..old(ctx)@ }) && v == x
        }),
        0 <= v <= 3,
        final(e)@.live(),
        final(ctx)@.ok(),
{
    proof {
        reveal(sub_mb_type);
    }
    if e.decode_decision(&mut ctx.b8_type[1]) == 1 {
        0
    } else if e.decode_decision(&mut ctx.b8_type[3]) == 1 {
        if e.decode_decision(&mut ctx.b8_type[4]) == 1 {
            2
        } else {
            3
        }
    } else {
        1
    }
}

/// sub_mb_type of a B slice.
#[verifier::opaque]
pub open spec fn b_sub_mb_type(d: Bins) -> (Bins, i64) {
    let d0 = d.bin(0);
    if d0.b == 0 {
        (d0, 0)
    } else {
        let d1 = d0.bin(1);
        if d1.b == 0 {
            let d2 = d1.bin(3);
            (d2, (1 + d2.b) as i64)
        } else {
            let d2 = d1.bin(2);
            let d3 = d2.bin(3);
            if d2.b != 0 && d3.b != 0 {
                let d4 = d3.bin(3);
                (d4, (11 + d4.b) as i64)
            } else {
                let (d4, hi) = if d2.b != 0 {
                    let x = d3.bin(3);
                    (x, 7 + 2 * x.b)
                } else {
                    (d3, 3 + 2 * d3.b)
                };
                let d5 = d4.bin(3);
                (d5, (hi + d5.b) as i64)
            }
        }
    }
}

/// Decode sub_mb_type of a B slice: 0 = direct, 1..=3 = 8x8 from list 0, list 1
/// or both, 4..=9 = 8x4 and 4x8, 10..=12 = 4x4.
pub fn decode_b_sub_mb_type(e: &mut CabacEngine, ctx: &mut InterContexts) -> (v: i64)
    requires
        old(e)@.awake(),
        old(ctx)@.ok(),
    ensures
        ({
            let (d, x) = b_sub_mb_type(bins(old(e)@, old(ctx)@.b8_type_b));
            final(e)@ == d.e && final(ctx)@ == (InterBank { b8_type_b: d.c, ..old(ctx)@ }) && v == x
        }),
        0 <= v <= 12,
        final(e)@.live(),
        final(ctx)@.ok(),
{
    proof {
        reveal(b_sub_mb_type);
    }
    if e.decode_decision(&mut ctx.b8_type_b[0]) == 0 {
        return 0;
    }
    if e.decode_decision(&mut ctx.b8_type_b[1]) == 0 {
        return if e.decode_decision(&mut ctx.b8_type_b[3]) != 0 {
            2
        } else {
            1
        };
    }
    let mut act_sym: i64;
    if e.decode_decision(&mut ctx.b8_type_b[2]) != 0 {
        if e.decode_decision(&mut ctx.b8_type_b[3]) != 0 {
            act_sym = 10;
            if e.decode_decision(&mut ctx.b8_type_b[3]) != 0 {
                act_sym = act_sym + 1;
            }
        } else {
            act_sym = 6;
            if e.decode_decision(&mut ctx.b8_type_b[3]) != 0 {
                act_sym = act_sym + 2;
            }
            if e.decode_decision(&mut ctx.b8_type_b[3]) != 0 {
                act_sym = act_sym + 1;
            }
        }
    } else {
        act_sym = 2;
        if e.decode_decision(&mut ctx.b8_type_b[3]) != 0 {
            act_sym = act_sym + 2;
        }
        if e.decode_decision(&mut ctx.b8_type_b[3]) != 0 {
            act_sym = act_sym + 1;
        }
    }
    act_sym + 1
}

// ---- mb_type ----

/// The bins of a B-slice mb_type before any Intra_16x16 suffix: 0..=23, or 24
/// for the suffix.
#[verifier::opaque]
pub open spec fn b_type_prefix(d: Bins, inc: int) -> (Bins, i64) {
    let d0 = d.bin(inc);
    if d0.b == 0 {
        (d0, 0)
    } else {
        let d1 = d0.bin(4);
        if d1.b == 0 {
            let d2 = d1.bin(6);
            (d2, (1 + d2.b) as i64)
        } else {
            let d2 = d1.bin(5);
            let d3 = d2.bin(6);
            let d4 = d3.bin(6);
            let d5 = d4.bin(6);
            if d2.b == 0 {
                (d5, (3 + 4 * d3.b + 2 * d4.b + d5.b) as i64)
            } else {
                let v = 12 + 8 * d3.b + 4 * d4.b + 2 * d5.b;
                if v == 24 {
                    (d5, 11)
                } else if v == 26 {
                    (d5, 22)
                } else {
                    let d6 = d5.bin(6);
                    (
                        d6,
                        ((if v == 22 {
                            23
                        } else {
                            v
                        }) + d6.b) as i64,
                    )
                }
            }
        }
    }
}

/// mb_type of a B slice: 0 = direct, 1..=21 = the inter types, 22 = B_8x8,
/// 23 = I_NxN, 24..=47 = I_16x16, 48 = I_PCM.
#[verifier::opaque]
pub open spec fn b_mb_type(e: Engine, c: InterBank, inc: int) -> (Engine, InterBank, i64) {
    let (d, v) = b_type_prefix(bins(e, c.mb_type_b), inc);
    let c1 = InterBank { mb_type_b: d.c, ..c };
    if v <= 23 {
        (d.e, c1, v)
    } else {
        let (t, x) = i16_type(bins(d.e, c.mb_type), 24, 48, 8, 9, 9, 10, 10);
        (t.e, InterBank { mb_type: t.c, ..c1 }, x)
    }
}

/// Decode the I_16x16 suffix of a P or B mb_type, counted from `base`.
fn decode_i16_suffix(e: &mut CabacEngine, mb_type: &mut [CtxState; 11], base: i64, pcm: i64) -> (v: i64)
    requires
        old(e)@.live(),
        bank_ok(old(mb_type)@),
        0 <= base <= 24,
        0 <= pcm <= 48,
    ensures
        ({
            let (d, x) = i16_type(
                bins(old(e)@, old(mb_type)@),
                base as int,
                pcm as int,
                8,
                9,
                9,
                10,
                10,
            );
            final(e)@ == d.e && final(mb_type)@ == d.c && v == x
        }),
        v == pcm || base <= v < base + 24,
        final(e)@.awake(),
        v != pcm ==> final(e)@.live(),
        bank_ok(final(mb_type)@),
{
    proof {
        reveal(i16_type);
    }
    if e.decode_terminate() == 1 {
        return pcm;
    }
    let mut act_sym: i64 = base;
    if e.decode_decision(&mut mb_type[8]) != 0 {
        act_sym = act_sym + 12;
    }
    if e.decode_decision(&mut mb_type[9]) != 0 {
        act_sym = act_sym + 4;
        if e.decode_decision(&mut mb_type[9]) != 0 {
            act_sym = act_sym + 4;
        }
    }
    if e.decode_decision(&mut mb_type[10]) != 0 {
        act_sym = act_sym + 2;
    }
    if e.decode_decision(&mut mb_type[10]) != 0 {
        act_sym = act_sym + 1;
    }
    act_sym
}

fn decode_b_type_prefix(e: &mut CabacEngine, mt: &mut [CtxState; 11], inc: usize) -> (v: i64)
    requires
        old(e)@.awake(),
        bank_ok(old(mt)@),
        inc <= 10,
    ensures
        ({
            let (d, x) = b_type_prefix(bins(old(e)@, old(mt)@), inc as int);
            final(e)@ == d.e && final(mt)@ == d.c && v == x
        }),
        0 <= v <= 24,
        final(e)@.live(),
        bank_ok(final(mt)@),
{
    proof {
        reveal(b_type_prefix);
    }
    let mut act_sym: i64;
    if e.decode_decision(&mut mt[inc]) != 0 {
        if e.decode_decision(&mut mt[4]) != 0 {
            if e.decode_decision(&mut mt[5]) != 0 {
                act_sym = 12;
                if e.decode_decision(&mut mt[6]) != 0 {
                    act_sym = act_sym + 8;
                }
                if e.decode_decision(&mut mt[6]) != 0 {
                    act_sym = act_sym + 4;
                }
                if e.decode_decision(&mut mt[6]) != 0 {
                    act_sym = act_sym + 2;
                }
                if act_sym == 24 {
                    act_sym = 11;
                } else if act_sym == 26 {
                    act_sym = 22;
                } else {
                    if act_sym == 22 {
                        act_sym = 23;
                    }
                    if e.decode_decision(&mut mt[6]) != 0 {
                        act_sym = act_sym + 1;
                    }
                }
            } else {
                act_sym = 3;
                if e.decode_decision(&mut mt[6]) != 0 {
                    act_sym = act_sym + 4;
                }
                if e.decode_decision(&mut mt[6]) != 0 {
                    act_sym = act_sym + 2;
                }
                if e.decode_decision(&mut mt[6]) != 0 {
                    act_sym = act_sym + 1;
                }
            }
        } else if e.decode_decision(&mut mt[6]) != 0 {
            act_sym = 2;
        } else {
            act_sym = 1;
        }
    } else {
        act_sym = 0;
    }
    act_sym
}

/// Decode mb_type of a B slice. `a` and `b` are 1 where the left and upper
/// macroblocks are not direct.
pub fn decode_b_mb_type(e: &mut CabacEngine, ctx: &mut InterContexts, a: u32, b: u32) -> (v: i64)
    requires
        old(e)@.awake(),
        old(ctx)@.ok(),
        a + b <= 10,
    ensures
        (final(e)@, final(ctx)@, v) == b_mb_type(old(e)@, old(ctx)@, a + b),
        0 <= v <= 48,
        final(e)@.awake(),
        v != 48 ==> final(e)@.live(),
        final(ctx)@.ok(),
{
    proof {
        reveal(b_mb_type);
    }
    let act_sym: i64 = decode_b_type_prefix(e, &mut ctx.mb_type_b, (a + b) as usize);
    if act_sym <= 23 {
        return act_sym;
    }
    decode_i16_suffix(e, &mut ctx.mb_type, 24, 48)
}

/// mb_type of a P slice: 1 = 16x16, 2 = 16x8, 3 = 8x16, 4 = 8x8, 6 = I_NxN,
/// 7..=30 = I_16x16, 31 = I_PCM.
#[verifier::opaque]
pub open spec fn p_mb_type(d: Bins) -> (Bins, i64) {
    let d0 = d.bin(4);
    if d0.b == 1 {
        let d1 = d0.bin(7);
        if d1.b == 1 {
            i16_type(Bins { b: 0, ..d1 }, 7, 31, 8, 9, 9, 10, 10)
        } else {
            (d1, 6)
        }
    } else {
        let d1 = d0.bin(5);
        if d1.b == 1 {
            let d2 = d1.bin(7);
            if d2.b == 1 {
                (d2, 2)
            } else {
                (d2, 3)
            }
        } else {
            let d2 = d1.bin(6);
            if d2.b == 1 {
                (d2, 4)
            } else {
                (d2, 1)
            }
        }
    }
}

/// Decode mb_type of a P slice.
pub fn decode_inter_mb_type(e: &mut CabacEngine, ctx: &mut InterContexts) -> (v: i64)
    requires
        old(e)@.awake(),
        old(ctx)@.ok(),
    ensures
        ({
            let (d, x) = p_mb_type(bins(old(e)@, old(ctx)@.mb_type));
            final(e)@ == d.e && final(ctx)@ == (InterBank { mb_type: d.c, ..old(ctx)@ }) && v == x
        }),
        1 <= v <= 31 && v != 5,
        final(e)@.awake(),
        v != 31 ==> final(e)@.live(),
        final(ctx)@.ok(),
{
    proof {
        reveal(p_mb_type);
    }
    if e.decode_decision(&mut ctx.mb_type[4]) == 1 {
        if e.decode_decision(&mut ctx.mb_type[7]) == 1 {
            decode_i16_suffix(e, &mut ctx.mb_type, 7, 31)
        } else {
            6
        }
    } else if e.decode_decision(&mut ctx.mb_type[5]) == 1 {
        if e.decode_decision(&mut ctx.mb_type[7]) == 1 {
            2
        } else {
            3
        }
    } else if e.decode_decision(&mut ctx.mb_type[6]) == 1 {
        4
    } else {
        1
    }
}

/// Prediction directions of the two partitions of a 16x8 or 8x16 B macroblock,
/// counted in pairs of types from 4.
pub open spec fn pair_dirs(t: int) -> (u8, u8) {
    if t == 0 {
        (0, 0)
    } else if t == 1 {
        (1, 1)
    } else if t == 2 {
        (0, 1)
    } else if t == 3 {
        (1, 0)
    } else if t == 4 {
        (0, 2)
    } else if t == 5 {
        (1, 2)
    } else if t == 6 {
        (2, 0)
    } else if t == 7 {
        (2, 1)
    } else {
        (2, 2)
    }
}

/// A B-slice mb_type as a partition shape (count, width and height in 4x4
/// units) and the direction of each partition: 0 = list 0, 1 = list 1, 2 =
/// both. Even types from 4 on are 16x8, odd ones 8x16.
pub open spec fn b_shape(mb_type: int) -> (int, int, int, Seq<u8>) {
    if mb_type == 0 {
        (1, 4, 4, seq![2, 2, 2, 2])
    } else if mb_type <= 3 {
        let p = (mb_type - 1) as u8;
        (1, 4, 4, seq![p, p, p, p])
    } else if mb_type == 22 {
        (4, 2, 2, seq![0, 0, 0, 0])
    } else {
        let (p, q) = pair_dirs((mb_type - 4) / 2);
        if mb_type % 2 == 0 {
            (2, 4, 2, seq![p, q, 0, 0])
        } else {
            (2, 2, 4, seq![p, q, 0, 0])
        }
    }
}

fn pair_directions(t: i64) -> (r: (u8, u8))
    ensures
        r == pair_dirs(t as int),
{
    if t == 0 {
        (0, 0)
    } else if t == 1 {
        (1, 1)
    } else if t == 2 {
        (0, 1)
    } else if t == 3 {
        (1, 0)
    } else if t == 4 {
        (0, 2)
    } else if t == 5 {
        (1, 2)
    } else if t == 6 {
        (2, 0)
    } else if t == 7 {
        (2, 1)
    } else {
        (2, 2)
    }
}

/// The partition shape and the prediction directions of an inter mb_type of a
/// B slice.
pub fn interpret_b_mb_type(mb_type: i64) -> (r: (usize, usize, usize, [u8; 4]))
    requires
        0 <= mb_type <= 22,
    ensures
        (r.0 as int, r.1 as int, r.2 as int, r.3@) == b_shape(mb_type as int),
        forall|i: int| 0 <= i < 4 ==> #[trigger] r.3@[i] <= 2,
{
    if mb_type == 0 {
        (1, 4, 4, [2, 2, 2, 2])
    } else if mb_type <= 3 {
        let p: u8 = (mb_type - 1) as u8;
        (1, 4, 4, [p, p, p, p])
    } else if mb_type == 22 {
        (4, 2, 2, [0, 0, 0, 0])
    } else {
        let (p, q) = pair_directions((mb_type - 4) / 2);
        if mb_type % 2 == 0 {
            (2, 4, 2, [p, q, 0, 0])
        } else {
            (2, 2, 4, [p, q, 0, 0])
        }
    }
}

// ---- mvd ----

/// The bins of an mvd magnitude after `s` ones of the suffix: contexts 1, 2,
/// then 3 from `base`, and an Exp-Golomb code after seven ones.
pub open spec fn mvd_tail(d: Bins, base: int, s: u32) -> (Bins, u32)
    decreases 7 - s,
{
    let d1 = d.bin(
        base + if s >= 2 {
            3int
        } else {
            s + 1
        },
    );
    if d1.b == 0 {
        (d1, (s + 1) as u32)
    } else if s + 1 >= 7 {
        let (e, g) = d1.e.golomb(3);
        (Bins { e, ..d1 }, 8u32.wrapping_add(g))
    } else {
        mvd_tail(Bins { b: 0, ..d1 }, base, (s + 1) as u32)
    }
}

/// The magnitude suffix of an mvd component.
#[verifier::opaque]
pub open spec fn mvd_suffix(d: Bins, base: int) -> (Bins, u32) {
    let d0 = d.bin(base);
    if d0.b == 0 {
        (d0, 0)
    } else {
        mvd_tail(Bins { b: 0, ..d0 }, base, 0)
    }
}

/// One mvd component: `k` is 0 for x and 1 for y.
#[verifier::opaque]
pub open spec fn mvd_component(e: Engine, c: InterBank, k: int, inc: int) -> (
    Engine,
    InterBank,
    i64,
) {
    let d0 = bins(e, c.mv_first).bin(5 * k + inc);
    let c0 = InterBank { mv_first: d0.c, ..c };
    if d0.b == 0 {
        (d0.e, c0, 0)
    } else {
        let (d1, m) = mvd_suffix(bins(d0.e, c.mv_rest), 5 * k);
        let mag = m.wrapping_add(1);
        let (e2, sign) = d1.e.bypass();
        (
            e2,
            InterBank { mv_rest: d1.c, ..c0 },
            if sign == 1 {
                (-mag) as i64
            } else {
                mag as i64
            },
        )
    }
}

fn unary_exp_golomb_mv(e: &mut CabacEngine, rest: &mut [CtxState; 10], base: usize) -> (v: u32)
    requires
        old(e)@.awake(),
        bank_ok(old(rest)@),
        base <= 5,
    ensures
        ({
            let (d, x) = mvd_suffix(bins(old(e)@, old(rest)@), base as int);
            final(e)@ == d.e && final(rest)@ == d.c && v == x
        }),
        final(e)@.live(),
        bank_ok(final(rest)@),
{
    proof {
        reveal(mvd_suffix);
    }
    if e.decode_decision(&mut rest[base]) == 0 {
        return 0;
    }
    let ghost mut d = bins(e@, rest@);
    let ghost whole = mvd_tail(d, base as int, 0);
    let mut symbol: u32 = 0;
    loop
        invariant
            whole == mvd_suffix(bins(old(e)@, old(rest)@), base as int),
            d == bins(e@, rest@),
            whole == mvd_tail(d, base as int, symbol),
            symbol <= 6,
            base <= 5,
            e@.live(),
            bank_ok(rest@),
        decreases 7 - symbol,
    {
        let idx: usize = if symbol >= 2 {
            3
        } else {
            symbol as usize + 1
        };
        let l: u32 = e.decode_decision(&mut rest[base + idx]);
        symbol = symbol + 1;
        if l == 0 {
            return symbol;
        }
        if symbol == 7 {
            let g: u32 = e.decode_exp_golomb_bypass(3);
            return 8u32.wrapping_add(g);
        }
        proof {
            d = bins(e@, rest@);
        }
    }
}

/// Decode one mvd component. `k` is 0 for x and 1 for y; `inc` is the context
/// increment that [`mvd_ctx_inc`] gives.
pub fn decode_mvd_component(e: &mut CabacEngine, ctx: &mut InterContexts, k: usize, inc: usize) -> (v: i64)
    requires
        old(e)@.awake(),
        old(ctx)@.ok(),
        k <= 1,
        5 * k + inc <= 9,
    ensures
        (final(e)@, final(ctx)@, v) == mvd_component(old(e)@, old(ctx)@, k as int, inc as int),
        final(e)@.live(),
        final(ctx)@.ok(),
{
    proof {
        reveal(mvd_component);
    }
    if e.decode_decision(&mut ctx.mv_res[0][5 * k + inc]) == 0 {
        return 0;
    }
    let mag: u32 = unary_exp_golomb_mv(e, &mut ctx.mv_res[1], 5 * k).wrapping_add(1);
    let sign: u32 = e.decode_bypass();
    if sign == 1 {
        -(mag as i64)
    } else {
        mag as i64
    }
}

/// The context increment of an mvd component: 0 below 3, 3 above 32, else 2.
pub open spec fn mvd_inc(abs_sum: int) -> int {
    if abs_sum < 3 {
        0
    } else if abs_sum > 32 {
        3
    } else {
        2
    }
}

/// The context increment of an mvd component from the sum of the neighbours'
/// magnitudes.
pub fn mvd_ctx_inc(abs_sum: i32) -> (inc: usize)
    ensures
        inc == mvd_inc(abs_sum as int),
        inc <= 3,
{
    if abs_sum < 3 {
        0
    } else if abs_sum > 32 {
        3
    } else {
        2
    }
}

} // verus!

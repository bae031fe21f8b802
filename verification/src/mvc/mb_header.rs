//! I-slice macroblock-header CABAC decoding (H.264 sections 7.3.5 and 9.3):
//! mb_type, transform_size_8x8_flag, intra prediction modes,
//! intra_chroma_pred_mode, coded_block_pattern and mb_qp_delta. Intra only
//! (I_NxN and I_16x16), 4:2:0 chroma.

use crate::mvc::cabac::{bank_ok, Bins, CabacEngine, CtxState, Engine};
use crate::mvc::residual_ctx::{init_bank, init_row};
use vstd::prelude::*;

verus! {

/// Per-macroblock state that the neighbour context derivation reads back.
#[derive(Debug, Clone, Copy, PartialEq, Eq, Structural)]
pub struct MbInfo {
    /// I_NxN (I_4x4 or I_8x8).
    pub i_nxn: bool,
    /// luma_transform_size_8x8_flag.
    pub transform8x8: bool,
    /// intra_chroma_pred_mode.
    pub c_ipred: u8,
    /// coded_block_pattern: luma bits 0..3, chroma in 4..5.
    pub cbp: u8,
    /// Intra_16x16 prediction mode, 0..=3.
    pub i16_pred: u8,
}

/// The macroblocks to the left and above, where they are available.
#[derive(Debug, Clone, Copy, PartialEq, Eq, Structural)]
pub struct Neighbors {
    pub left: Option<MbInfo>,
    pub up: Option<MbInfo>,
}

impl Default for Neighbors {
    fn default() -> (r: Self)
        ensures
            r.left is None && r.up is None,
    {
        Neighbors { left: None, up: None }
    }
}

/// The contexts of the I-slice macroblock header.
pub struct MbHeaderContexts {
    /// mb_type: 0..2 for the first bin, 4..8 for the I_16x16 bins.
    pub mb_type: [CtxState; 11],
    pub transform: [CtxState; 3],
    pub ipr: [CtxState; 2],
    pub cipr: [CtxState; 4],
    pub cbp: [[CtxState; 4]; 3],
    pub delta_qp: [CtxState; 4],
}

/// The same contexts as sequences.
pub struct HeaderBank {
    pub mb_type: Seq<CtxState>,
    pub transform: Seq<CtxState>,
    pub ipr: Seq<CtxState>,
    pub cipr: Seq<CtxState>,
    pub cbp: Seq<Seq<CtxState>>,
    pub delta_qp: Seq<CtxState>,
}

/// The rows of a table of contexts as sequences.
pub open spec fn rows_of(a: [[CtxState; 4]; 3]) -> Seq<Seq<CtxState>> {
    seq![a[0]@, a[1]@, a[2]@]
}

/// Every row of the coded_block_pattern contexts is in range.
pub open spec fn rows_ok(rows: Seq<Seq<CtxState>>) -> bool {
    &&& rows.len() == 3
    &&& bank_ok(rows[0]) && rows[0].len() == 4
    &&& bank_ok(rows[1]) && rows[1].len() == 4
    &&& bank_ok(rows[2]) && rows[2].len() == 4
}

impl HeaderBank {
    /// Every context is in range.
    pub open spec fn ok(self) -> bool {
        &&& bank_ok(self.mb_type)
        &&& bank_ok(self.transform)
        &&& bank_ok(self.ipr)
        &&& bank_ok(self.cipr)
        &&& rows_ok(self.cbp)
        &&& bank_ok(self.delta_qp)
    }

    /// The contexts at the start of an I slice.
    pub closed spec fn initial(qp: int) -> HeaderBank {
        HeaderBank {
            mb_type: init_row(INIT_MB_TYPE_I@, qp),
            transform: init_row(INIT_TRANSFORM_I@, qp),
            ipr: init_row(INIT_IPR_I@, qp),
            cipr: init_row(INIT_CIPR_I@, qp),
            cbp: seq![
                init_row(INIT_CBP_I[0]@, qp),
                init_row(INIT_CBP_I[1]@, qp),
                init_row(INIT_CBP_I[2]@, qp),
            ],
            delta_qp: init_row(INIT_DELTA_QP_I@, qp),
        }
    }
}

impl View for MbHeaderContexts {
    type V = HeaderBank;

    open spec fn view(&self) -> HeaderBank {
        HeaderBank {
            mb_type: self.mb_type@,
            transform: self.transform@,
            ipr: self.ipr@,
            cipr: self.cipr@,
            cbp: rows_of(self.cbp),
            delta_qp: self.delta_qp@,
        }
    }
}

/// A context that is never used.
pub const CTX_UNUSED: (i32, i32) = (0, 0);

pub const INIT_MB_TYPE_I: [(i32, i32); 11] = [
    (20, -15), (2, 54), (3, 74), CTX_UNUSED, (-28, 127), (-23, 104), (-6, 53), (-1, 54), (7, 51),
    CTX_UNUSED, CTX_UNUSED,
];

pub const INIT_TRANSFORM_I: [(i32, i32); 3] = [(31, 21), (31, 31), (25, 50)];

pub const INIT_IPR_I: [(i32, i32); 2] = [(13, 41), (3, 62)];

pub const INIT_CIPR_I: [(i32, i32); 4] = [(-9, 83), (4, 86), (0, 97), (-7, 72)];

pub const INIT_CBP_I: [[(i32, i32); 4]; 3] = [
    [(-17, 127), (-13, 102), (0, 82), (-7, 74)],
    [(-21, 107), (-27, 127), (-31, 127), (-24, 127)],
    [(-18, 95), (-27, 127), (-21, 114), (-30, 127)],
];

pub const INIT_DELTA_QP_I: [(i32, i32); 4] = [(0, 41), (0, 63), (0, 63), (0, 63)];

impl MbHeaderContexts {
    /// The contexts at the start of an I slice with this QP.
    pub fn new(slice_qp: i32) -> (c: Self)
        ensures
            c@ == HeaderBank::initial(slice_qp as int),
            c@.ok(),
    {
        MbHeaderContexts {
            mb_type: init_bank(&INIT_MB_TYPE_I, slice_qp),
            transform: init_bank(&INIT_TRANSFORM_I, slice_qp),
            ipr: init_bank(&INIT_IPR_I, slice_qp),
            cipr: init_bank(&INIT_CIPR_I, slice_qp),
            cbp: [
                init_bank(&INIT_CBP_I[0], slice_qp),
                init_bank(&INIT_CBP_I[1], slice_qp),
                init_bank(&INIT_CBP_I[2], slice_qp),
            ],
            delta_qp: init_bank(&INIT_DELTA_QP_I, slice_qp),
        }
    }
}

/// The contexts at the start of an I slice, from the tables.
pub proof fn law_header_tables(qp: int)
    ensures
        HeaderBank::initial(qp) == (HeaderBank {
            mb_type: init_row(INIT_MB_TYPE_I@, qp),
            transform: init_row(INIT_TRANSFORM_I@, qp),
            ipr: init_row(INIT_IPR_I@, qp),
            cipr: init_row(INIT_CIPR_I@, qp),
            cbp: seq![
                init_row(INIT_CBP_I[0]@, qp),
                init_row(INIT_CBP_I[1]@, qp),
                init_row(INIT_CBP_I[2]@, qp),
            ],
            delta_qp: init_row(INIT_DELTA_QP_I@, qp),
        }),
{
}

/// One decoded syntax element: its name and its value.
pub type Element = (String, i64);

/// The elements with their names as character sequences.
pub open spec fn element_views(s: Seq<Element>) -> Seq<(Seq<char>, i64)> {
    Seq::new(s.len(), |i: int| (s[i].0@, s[i].1))
}

/// 1 where `b` holds, else 0.
pub open spec fn flag(b: bool) -> int {
    if b {
        1
    } else {
        0
    }
}

// ---- intra prediction modes ----

/// `n` more prediction modes: -1 for the predicted mode, else the three bins
/// of rem_intra_pred_mode, least significant first.
pub open spec fn pred_modes(d: Bins, acc: Seq<i64>, n: int) -> (Bins, Seq<i64>)
    decreases n,
{
    if n <= 0 {
        (d, acc)
    } else {
        let d0 = d.bin(0);
        if d0.b == 1 {
            pred_modes(d0, acc.push(-1i64), n - 1)
        } else {
            let d1 = d0.bin(1);
            let d2 = d1.bin(1);
            let d3 = d2.bin(1);
            pred_modes(d3, acc.push((d1.b + 2 * d2.b + 4 * d3.b) as i64), n - 1)
        }
    }
}

/// Every mode value is -1 or a rem_intra_pred_mode.
pub open spec fn modes_ok(m: Seq<i64>) -> bool {
    forall|i: int| 0 <= i < m.len() ==> -1 <= #[trigger] m[i] <= 7
}

/// Decode the intra prediction modes of `n` luma blocks.
pub fn decode_pred_modes(e: &mut CabacEngine, ipr: &mut [CtxState; 2], n: usize) -> (modes: Vec<i64>)
    requires
        old(e)@.live(),
        bank_ok(old(ipr)@),
    ensures
        ({
            let (d, m) = pred_modes(
                Bins { e: old(e)@, c: old(ipr)@, b: 0 },
                Seq::empty(),
                n as int,
            );
            final(e)@ == d.e && final(ipr)@ == d.c && modes@ == m
        }),
        modes@.len() == n,
        modes_ok(modes@),
        final(e)@.live(),
        bank_ok(final(ipr)@),
{
    let mut modes: Vec<i64> = Vec::new();
    let ghost mut d = Bins { e: e@, c: ipr@, b: 0 };
    let ghost whole = pred_modes(d, Seq::empty(), n as int);
    for i in 0..n
        invariant
            d.e == e@,
            d.c == ipr@,
            whole == pred_modes(d, modes@, n - i),
            modes@.len() == i,
            modes_ok(modes@),
            e@.live(),
            bank_ok(ipr@),
    {
        let prev: u32 = e.decode_decision(&mut ipr[0]);
        if prev == 1 {
            modes.push(-1);
            proof {
                d = d.bin(0);
            }
        } else {
            let b0: u32 = e.decode_decision(&mut ipr[1]);
            let b1: u32 = e.decode_decision(&mut ipr[1]);
            let b2: u32 = e.decode_decision(&mut ipr[1]);
            modes.push((b0 + 2 * b1 + 4 * b2) as i64);
            proof {
                d = d.bin(0).bin(1).bin(1).bin(1);
            }
        }
    }
    modes
}

// ---- intra_chroma_pred_mode ----

/// intra_chroma_pred_mode: a first bin on context `inc`, then a truncated
/// unary code on context 3.
#[verifier::opaque]
pub open spec fn chroma_mode(d: Bins, inc: int) -> (Bins, u8) {
    let d0 = d.bin(inc);
    if d0.b == 0 {
        (d0, 0)
    } else {
        let d1 = d0.bin(3);
        if d1.b == 0 {
            (d1, 1)
        } else {
            let d2 = d1.bin(3);
            if d2.b == 0 {
                (d2, 2)
            } else {
                (d2, 3)
            }
        }
    }
}

/// Decode intra_chroma_pred_mode.
pub fn decode_chroma_mode(e: &mut CabacEngine, cipr: &mut [CtxState; 4], inc: usize) -> (mode: u8)
    requires
        old(e)@.awake(),
        bank_ok(old(cipr)@),
        inc < 4,
    ensures
        ({
            let (d, m) = chroma_mode(Bins { e: old(e)@, c: old(cipr)@, b: 0 }, inc as int);
            final(e)@ == d.e && final(cipr)@ == d.c && mode == m
        }),
        mode <= 3,
        final(e)@.live(),
        bank_ok(final(cipr)@),
{
    proof {
        reveal(chroma_mode);
    }
    if e.decode_decision(&mut cipr[inc]) == 0 {
        return 0;
    }
    if e.decode_decision(&mut cipr[3]) == 0 {
        return 1;
    }
    if e.decode_decision(&mut cipr[3]) == 0 {
        2
    } else {
        3
    }
}

// ---- coded_block_pattern ----

/// A neighbour is there and the bit of weight `w` of its pattern is clear.
pub open spec fn bit_clear(n: Option<u8>, w: int) -> bool {
    match n {
        Some(v) => (v as int / w) % 2 == 0,
        None => false,
    }
}

/// Context increment from the left and upper conditions.
pub open spec fn inc2(left: bool, up: bool) -> int {
    flag(left) + 2 * flag(up)
}

/// The luma half of coded_block_pattern: one bin for each 8x8 block, whose
/// context asks whether the blocks to the left and above have no coefficient.
#[verifier::opaque]
pub open spec fn cbp_luma(d: Bins, up: Option<u8>, left: Option<u8>) -> (Bins, int) {
    let d0 = d.bin(inc2(bit_clear(left, 2), bit_clear(up, 4)));
    let d1 = d0.bin(inc2(d0.b == 0, bit_clear(up, 8)));
    let d2 = d1.bin(inc2(bit_clear(left, 8), d0.b == 0));
    let d3 = d2.bin(inc2(d2.b == 0, d1.b == 0));
    (d3, d0.b + 2 * d1.b + 4 * d2.b + 8 * d3.b)
}

/// The neighbour has chroma coefficients.
pub open spec fn has_chroma(n: Option<u8>) -> bool {
    n is Some && n->0 > 15
}

/// The neighbour has chroma AC coefficients.
pub open spec fn has_chroma_ac(n: Option<u8>) -> bool {
    n is Some && n->0 as int / 16 == 2
}

/// coded_block_pattern over the three rows of contexts: luma, any chroma, and
/// chroma AC.
#[verifier::opaque]
pub open spec fn coded_block_pattern(
    e: Engine,
    rows: Seq<Seq<CtxState>>,
    up: Option<u8>,
    left: Option<u8>,
) -> (Engine, Seq<Seq<CtxState>>, i64) {
    let (d, luma) = cbp_luma(Bins { e, c: rows[0], b: 0 }, up, left);
    let c0 = (Bins { e: d.e, c: rows[1], b: 0 }).bin(inc2(has_chroma(left), has_chroma(up)));
    if c0.b == 1 {
        let c1 = (Bins { e: c0.e, c: rows[2], b: 0 }).bin(
            inc2(has_chroma_ac(left), has_chroma_ac(up)),
        );
        (
            c1.e,
            seq![d.c, c0.c, c1.c],
            (luma + if c1.b == 1 {
                32int
            } else {
                16int
            }) as i64,
        )
    } else {
        (c0.e, seq![d.c, c0.c, rows[2]], luma as i64)
    }
}

fn clear_bit(n: Option<u8>, w: u8) -> (b: bool)
    requires
        w > 0,
    ensures
        b == bit_clear(n, w as int),
{
    match n {
        Some(v) => (v / w) % 2 == 0,
        None => false,
    }
}

fn increment(left: bool, up: bool) -> (i: usize)
    ensures
        i == inc2(left, up),
        i < 4,
{
    (if left {
        1usize
    } else {
        0
    }) + (if up {
        2usize
    } else {
        0
    })
}

/// Decode the luma half of coded_block_pattern.
fn decode_cbp_luma(
    e: &mut CabacEngine,
    row: &mut [CtxState; 4],
    up: Option<u8>,
    left: Option<u8>,
) -> (v: i64)
    requires
        old(e)@.awake(),
        bank_ok(old(row)@),
    ensures
        ({
            let (d, luma) = cbp_luma(Bins { e: old(e)@, c: old(row)@, b: 0 }, up, left);
            final(e)@ == d.e && final(row)@ == d.c && v == luma
        }),
        0 <= v < 16,
        final(e)@.live(),
        bank_ok(final(row)@),
{
    proof {
        reveal(cbp_luma);
    }
    let b0: u32 = e.decode_decision(&mut row[increment(clear_bit(left, 2), clear_bit(up, 4))]);
    let b1: u32 = e.decode_decision(&mut row[increment(b0 == 0, clear_bit(up, 8))]);
    let b2: u32 = e.decode_decision(&mut row[increment(clear_bit(left, 8), b0 == 0)]);
    let b3: u32 = e.decode_decision(&mut row[increment(b2 == 0, b1 == 0)]);
    (b0 + 2 * b1 + 4 * b2 + 8 * b3) as i64
}

/// Decode coded_block_pattern (4:2:0). `up` and `left` are the patterns of the
/// neighbouring macroblocks.
pub fn decode_cbp_ctx(
    e: &mut CabacEngine,
    cbp: &mut [[CtxState; 4]; 3],
    up: Option<u8>,
    left: Option<u8>,
) -> (v: i64)
    requires
        old(e)@.awake(),
        rows_ok(rows_of(*old(cbp))),
    ensures
        (final(e)@, rows_of(*final(cbp)), v) == coded_block_pattern(
            old(e)@,
            rows_of(*old(cbp)),
            up,
            left,
        ),
        0 <= v < 48,
        final(e)@.live(),
        rows_ok(rows_of(*final(cbp))),
{
    proof {
        reveal(coded_block_pattern);
    }
    let luma: i64 = decode_cbp_luma(e, &mut cbp[0], up, left);
    let left_any: bool = match left {
        Some(v) => v > 15,
        None => false,
    };
    let up_any: bool = match up {
        Some(v) => v > 15,
        None => false,
    };
    let mut v: i64 = luma;
    if e.decode_decision(&mut cbp[1][increment(left_any, up_any)]) == 1 {
        let left_ac: bool = match left {
            Some(v) => v / 16 == 2,
            None => false,
        };
        let up_ac: bool = match up {
            Some(v) => v / 16 == 2,
            None => false,
        };
        let bit: u32 = e.decode_decision(&mut cbp[2][increment(left_ac, up_ac)]);
        v = luma + (if bit == 1 {
            32i64
        } else {
            16
        });
    }
    v
}

// ---- mb_qp_delta ----

/// Ones on context 3, counted from `s`. The count stops short of the register
/// width, which no stream reaches.
pub open spec fn count_ones(d: Bins, s: u32) -> (Bins, u32)
    decreases u32::MAX - s,
{
    let d1 = d.bin(3);
    if d1.b == 0 || s >= 0xffff_fff0 {
        (d1, (s + 1) as u32)
    } else {
        count_ones(d1, (s + 1) as u32)
    }
}

/// The signed value of a code number: 1, -1, 2, -2 and so on.
pub open spec fn qp_delta_value(sym: int) -> int {
    if sym % 2 == 0 {
        -(sym / 2)
    } else {
        (sym + 1) / 2
    }
}

/// mb_qp_delta after a macroblock whose own delta was `last`.
#[verifier::opaque]
pub open spec fn qp_delta(d: Bins, last: i32) -> (Bins, i32) {
    let d0 = d.bin(flag(last != 0));
    if d0.b == 0 {
        (d0, 0)
    } else {
        let d1 = d0.bin(2);
        if d1.b == 0 {
            (d1, 1)
        } else {
            let (d2, s) = count_ones(d1, 0);
            (d2, qp_delta_value(s + 1) as i32)
        }
    }
}

/// Decode mb_qp_delta, and keep it in `last_dquant` for the next macroblock.
pub fn decode_dquant_ctx(
    e: &mut CabacEngine,
    delta_qp: &mut [CtxState; 4],
    last_dquant: &mut i32,
) -> (dq: i32)
    requires
        old(e)@.awake(),
        bank_ok(old(delta_qp)@),
    ensures
        ({
            let (d, v) = qp_delta(
                Bins { e: old(e)@, c: old(delta_qp)@, b: 0 },
                *old(last_dquant),
            );
            final(e)@ == d.e && final(delta_qp)@ == d.c && dq == v
        }),
        *final(last_dquant) == dq,
        final(e)@.live(),
        bank_ok(final(delta_qp)@),
{
    proof {
        reveal(qp_delta);
    }
    let act: usize = if *last_dquant != 0 {
        1
    } else {
        0
    };
    let mut dquant: i32 = 0;
    if e.decode_decision(&mut delta_qp[act]) != 0 {
        dquant = 1;
        if e.decode_decision(&mut delta_qp[2]) != 0 {
            let mut s: u32 = 0;
            let ghost whole = count_ones(Bins { e: e@, c: delta_qp@, b: 0 }, 0);
            let ghost mut d = Bins { e: e@, c: delta_qp@, b: 0 };
            loop
                invariant_except_break
                    d.e == e@,
                    d.c == delta_qp@,
                    whole == count_ones(d, s),
                    s <= 0xffff_fff0,
                invariant
                    e@.live(),
                    bank_ok(delta_qp@),
                ensures
                    whole.0.e == e@,
                    whole.0.c == delta_qp@,
                    whole.1 == s,
                    1 <= s <= 0xffff_fff1,
                decreases u32::MAX - s,
            {
                let l: u32 = e.decode_decision(&mut delta_qp[3]);
                proof {
                    d = d.bin(3);
                }
                if l == 0 || s >= 0xffff_fff0 {
                    s = s + 1;
                    break;
                }
                s = s + 1;
            }
            let sym: u32 = s + 1;
            dquant = ((sym + 1) / 2) as i32;
            if sym % 2 == 0 {
                dquant = -dquant;
            }
        }
    }
    *last_dquant = dquant;
    dquant
}

// ---- mb_type ----

/// The bins of an Intra_16x16 mb_type from the terminating bin on, over
/// contexts `ac`, `cbp0`, `cbp1`, `hi` and `lo`: the value counted from
/// `base`, or `pcm` for the I_PCM escape.
#[verifier::opaque]
pub open spec fn i16_type(
    d: Bins,
    base: int,
    pcm: int,
    ac: int,
    cbp0: int,
    cbp1: int,
    hi: int,
    lo: int,
) -> (Bins, i64) {
    let t = d.terminate();
    if t.b == 1 {
        (t, pcm as i64)
    } else {
        let d0 = t.bin(ac);
        let d1 = d0.bin(cbp0);
        if d1.b != 0 {
            let d2 = d1.bin(cbp1);
            let d3 = d2.bin(hi);
            let d4 = d3.bin(lo);
            (
                d4,
                (base + 12 * d0.b + 4 + (if d2.b != 0 {
                    4int
                } else {
                    0int
                }) + 2 * d3.b + d4.b) as i64,
            )
        } else {
            let d3 = d1.bin(hi);
            let d4 = d3.bin(lo);
            (d4, (base + 12 * d0.b + 2 * d3.b + d4.b) as i64)
        }
    }
}

/// What an Intra_16x16 macroblock type says, numbered from 0: the prediction
/// mode, and the coded block pattern.
pub open spec fn i16_info(x: int) -> MbInfo {
    MbInfo {
        i_nxn: false,
        transform8x8: false,
        c_ipred: 0,
        cbp: ((if x >= 12 {
            15int
        } else {
            0int
        }) + 16 * ((x / 4) % 3)) as u8,
        i16_pred: (x % 4) as u8,
    }
}

/// The macroblock information of Intra_16x16 type `x`, numbered from 0.
pub fn i16_mb_info(x: i64) -> (info: MbInfo)
    requires
        0 <= x < 24,
    ensures
        info == i16_info(x as int),
        info.i16_pred < 4,
{
    let luma: u8 = if x >= 12 {
        15
    } else {
        0
    };
    MbInfo {
        i_nxn: false,
        transform8x8: false,
        c_ipred: 0,
        cbp: luma + 16 * ((x / 4) % 3) as u8,
        i16_pred: (x % 4) as u8,
    }
}

/// Decode the bins of an I_16x16 mb_type after the first: the value 1..=24, or
/// 25 for I_PCM.
fn decode_i16_mb_type(e: &mut CabacEngine, mb_type: &mut [CtxState; 11]) -> (v: i64)
    requires
        old(e)@.live(),
        bank_ok(old(mb_type)@),
    ensures
        ({
            let (d, x) = i16_type(
                Bins { e: old(e)@, c: old(mb_type)@, b: 0 },
                1,
                25,
                4,
                5,
                6,
                7,
                8,
            );
            final(e)@ == d.e && final(mb_type)@ == d.c && v == x
        }),
        1 <= v <= 25,
        final(e)@.awake(),
        bank_ok(final(mb_type)@),
{
    proof {
        reveal(i16_type);
    }
    if e.decode_terminate() == 1 {
        return 25;
    }
    let mut act: i64 = 1;
    act = act + e.decode_decision(&mut mb_type[4]) as i64 * 12;
    if e.decode_decision(&mut mb_type[5]) != 0 {
        act = act + 4;
        if e.decode_decision(&mut mb_type[6]) != 0 {
            act = act + 4;
        }
    }
    act = act + e.decode_decision(&mut mb_type[7]) as i64 * 2;
    act = act + e.decode_decision(&mut mb_type[8]) as i64;
    act
}

// ---- the whole header ----

/// The syntax elements of one I-slice macroblock header.
pub struct MbSyntax {
    /// mb_type: 0 for I_NxN, 1..=24 for I_16x16, 25 for I_PCM.
    pub mb_type: i64,
    /// transform_size_8x8_flag, where it is coded.
    pub transform_flag: Option<bool>,
    /// The intra prediction modes of an I_NxN macroblock.
    pub modes: Vec<i64>,
    /// intra_chroma_pred_mode.
    pub c_ipred: u8,
    /// coded_block_pattern, where it is coded.
    pub cbp: Option<i64>,
    /// mb_qp_delta, where it is coded.
    pub qp_delta: Option<i32>,
    /// What the neighbours read back.
    pub info: MbInfo,
}

/// The syntax elements of one macroblock header as values.
pub struct Syntax {
    pub mb_type: i64,
    pub transform_flag: Option<bool>,
    pub modes: Seq<i64>,
    pub c_ipred: u8,
    pub cbp: Option<i64>,
    pub qp_delta: Option<i32>,
    pub info: MbInfo,
}

impl View for MbSyntax {
    type V = Syntax;

    open spec fn view(&self) -> Syntax {
        Syntax {
            mb_type: self.mb_type,
            transform_flag: self.transform_flag,
            modes: self.modes@,
            c_ipred: self.c_ipred,
            cbp: self.cbp,
            qp_delta: self.qp_delta,
            info: self.info,
        }
    }
}

/// The state that a macroblock header reads and changes.
pub struct HeaderState {
    pub e: Engine,
    pub c: HeaderBank,
    pub last_dquant: i32,
}

/// The neighbour is there and is not I_NxN.
pub open spec fn not_nxn(n: Option<MbInfo>) -> bool {
    n is Some && !(n->0).i_nxn
}

/// The neighbour is there and uses the 8x8 transform.
pub open spec fn is_t8(n: Option<MbInfo>) -> bool {
    n is Some && (n->0).transform8x8
}

/// The neighbour is there and its chroma mode is not DC.
pub open spec fn has_cmode(n: Option<MbInfo>) -> bool {
    n is Some && (n->0).c_ipred != 0
}

/// The coded block pattern of a neighbour.
pub open spec fn cbp_of(n: Option<MbInfo>) -> Option<u8> {
    match n {
        Some(i) => Some(i.cbp),
        None => None,
    }
}

/// mb_type of an I slice.
#[verifier::opaque]
pub open spec fn slice_mb_type(d: Bins, n: Neighbors) -> (Bins, i64) {
    let d0 = d.bin(flag(not_nxn(n.left)) + flag(not_nxn(n.up)));
    if d0.b == 0 {
        (d0, 0)
    } else {
        i16_type(Bins { b: 0, ..d0 }, 1, 25, 4, 5, 6, 7, 8)
    }
}

/// The transform flag and the prediction modes of an I_NxN macroblock.
#[verifier::opaque]
pub open spec fn nxn_part(s: HeaderState, n: Neighbors, t8_mode: bool) -> (
    HeaderState,
    Option<bool>,
    Seq<i64>,
) {
    let t = (Bins { e: s.e, c: s.c.transform, b: 0 }).bin(flag(is_t8(n.left)) + flag(is_t8(n.up)));
    let e1 = if t8_mode {
        t.e
    } else {
        s.e
    };
    let transform = if t8_mode {
        t.c
    } else {
        s.c.transform
    };
    let (p, modes) = pred_modes(
        Bins { e: e1, c: s.c.ipr, b: 0 },
        Seq::empty(),
        if t8_mode && t.b == 1 {
            4
        } else {
            16
        },
    );
    (
        HeaderState { e: p.e, c: HeaderBank { transform, ipr: p.c, ..s.c }, ..s },
        if t8_mode {
            Some(t.b == 1)
        } else {
            None
        },
        modes,
    )
}

/// One I-slice macroblock header: the state after it, and its elements. The
/// transform flag is coded only where the picture allows the 8x8 transform.
#[verifier::opaque]
pub open spec fn mb_header(s: HeaderState, n: Neighbors, t8_mode: bool) -> (HeaderState, Syntax) {
    let (d, mb_type) = slice_mb_type(Bins { e: s.e, c: s.c.mb_type, b: 0 }, n);
    let s1 = HeaderState { e: d.e, c: HeaderBank { mb_type: d.c, ..s.c }, ..s };
    let i_nxn = mb_type == 0;
    let is_i16 = 1 <= mb_type <= 24;
    let (s2, tflag, modes) = if i_nxn {
        nxn_part(s1, n, t8_mode)
    } else {
        (s1, None, Seq::empty())
    };
    let (c, c_ipred) = chroma_mode(
        Bins { e: s2.e, c: s2.c.cipr, b: 0 },
        flag(has_cmode(n.left)) + flag(has_cmode(n.up)),
    );
    let s3 = HeaderState { e: c.e, c: HeaderBank { cipr: c.c, ..s2.c }, ..s2 };
    let (e4, rows, cbp) = coded_block_pattern(s3.e, s3.c.cbp, cbp_of(n.up), cbp_of(n.left));
    let s4 = if is_i16 {
        s3
    } else {
        HeaderState { e: e4, c: HeaderBank { cbp: rows, ..s3.c }, ..s3 }
    };
    let base = if is_i16 {
        i16_info(mb_type - 1)
    } else {
        MbInfo { i_nxn, transform8x8: tflag == Some(true), c_ipred: 0, cbp: cbp as u8, i16_pred: 0 }
    };
    let info = MbInfo { c_ipred, ..base };
    let has_delta = info.cbp != 0 || is_i16;
    let (q, dq) = qp_delta(Bins { e: s4.e, c: s4.c.delta_qp, b: 0 }, s4.last_dquant);
    let s5 = if has_delta {
        HeaderState { e: q.e, c: HeaderBank { delta_qp: q.c, ..s4.c }, last_dquant: dq }
    } else {
        HeaderState { last_dquant: 0, ..s4 }
    };
    (
        s5,
        Syntax {
            mb_type,
            transform_flag: tflag,
            modes,
            c_ipred,
            cbp: if is_i16 {
                None
            } else {
                Some(cbp)
            },
            qp_delta: if has_delta {
                Some(dq)
            } else {
                None
            },
            info,
        },
    )
}

/// The elements of a header under their names, in coding order.
pub open spec fn header_elements(s: Syntax) -> Seq<(Seq<char>, i64)> {
    seq![("mb_type"@, s.mb_type)] + (match s.transform_flag {
        Some(t) => seq![("transform_size_8x8_flag"@, flag(t) as i64)],
        None => Seq::empty(),
    }) + s.modes.map_values(|m: i64| ("intra4x4_pred_mode"@, m)) + seq![
        ("intra_chroma_pred_mode"@, s.c_ipred as i64),
    ] + (match s.cbp {
        Some(v) => seq![("coded_block_pattern"@, v)],
        None => Seq::empty(),
    }) + (match s.qp_delta {
        Some(v) => seq![("mb_qp_delta"@, v as i64)],
        None => Seq::empty(),
    })
}

fn count2(a: bool, b: bool) -> (n: usize)
    ensures
        n == flag(a) + flag(b),
        n <= 2,
{
    (if a {
        1usize
    } else {
        0
    }) + (if b {
        1usize
    } else {
        0
    })
}

/// The neighbour is there and is not I_NxN.
fn is_not_nxn(n: &Option<MbInfo>) -> (b: bool)
    ensures
        b == not_nxn(*n),
{
    match n {
        Some(i) => !i.i_nxn,
        None => false,
    }
}

fn uses_t8(n: &Option<MbInfo>) -> (b: bool)
    ensures
        b == is_t8(*n),
{
    match n {
        Some(i) => i.transform8x8,
        None => false,
    }
}

fn has_chroma_mode(n: &Option<MbInfo>) -> (b: bool)
    ensures
        b == has_cmode(*n),
{
    match n {
        Some(i) => i.c_ipred != 0,
        None => false,
    }
}

fn pattern_of(n: &Option<MbInfo>) -> (r: Option<u8>)
    ensures
        r == cbp_of(*n),
{
    match n {
        Some(i) => Some(i.cbp),
        None => None,
    }
}

/// Decode mb_type of an I slice.
fn decode_slice_mb_type(
    e: &mut CabacEngine,
    mb_type: &mut [CtxState; 11],
    neigh: &Neighbors,
) -> (v: i64)
    requires
        old(e)@.live(),
        bank_ok(old(mb_type)@),
    ensures
        ({
            let (d, x) = slice_mb_type(Bins { e: old(e)@, c: old(mb_type)@, b: 0 }, *neigh);
            final(e)@ == d.e && final(mb_type)@ == d.c && v == x
        }),
        0 <= v <= 25,
        final(e)@.awake(),
        v == 0 ==> final(e)@.live(),
        bank_ok(final(mb_type)@),
{
    proof {
        reveal(slice_mb_type);
    }
    let first: u32 = e.decode_decision(
        &mut mb_type[count2(is_not_nxn(&neigh.left), is_not_nxn(&neigh.up))],
    );
    if first == 0 {
        0
    } else {
        decode_i16_mb_type(e, mb_type)
    }
}

/// Decode the transform flag and the prediction modes of an I_NxN macroblock.
fn decode_nxn(
    e: &mut CabacEngine,
    ctx: &mut MbHeaderContexts,
    neigh: &Neighbors,
    transform_8x8_mode: bool,
    Ghost(dq): Ghost<i32>,
) -> (r: (Option<bool>, Vec<i64>))
    requires
        old(e)@.live(),
        old(ctx)@.ok(),
    ensures
        (HeaderState { e: final(e)@, c: final(ctx)@, last_dquant: dq }, r.0, r.1@) == nxn_part(
            HeaderState { e: old(e)@, c: old(ctx)@, last_dquant: dq },
            *neigh,
            transform_8x8_mode,
        ),
        r.1@.len() == (if r.0 == Some(true) {
            4int
        } else {
            16int
        }),
        modes_ok(r.1@),
        final(e)@.live(),
        final(ctx)@.ok(),
{
    proof {
        reveal(nxn_part);
    }
    let mut transform_flag: Option<bool> = None;
    let mut t8: bool = false;
    if transform_8x8_mode {
        let t: u32 = e.decode_decision(
            &mut ctx.transform[count2(uses_t8(&neigh.left), uses_t8(&neigh.up))],
        );
        t8 = t == 1;
        transform_flag = Some(t8);
    }
    let blocks: usize = if t8 {
        4
    } else {
        16
    };
    let modes = decode_pred_modes(e, &mut ctx.ipr, blocks);
    (transform_flag, modes)
}

/// Decode the syntax elements of an I-slice macroblock header. `last_dquant`
/// carries the previous macroblock's mb_qp_delta; the caller resets it at the
/// start of a slice. `transform_8x8_mode` is the picture's flag of that name.
pub fn decode_mb_syntax(
    e: &mut CabacEngine,
    ctx: &mut MbHeaderContexts,
    neigh: &Neighbors,
    last_dquant: &mut i32,
    transform_8x8_mode: bool,
) -> (syn: MbSyntax)
    requires
        old(e)@.live(),
        old(ctx)@.ok(),
    ensures
        (
            HeaderState { e: final(e)@, c: final(ctx)@, last_dquant: *final(last_dquant) },
            syn@,
        ) == mb_header(
            HeaderState { e: old(e)@, c: old(ctx)@, last_dquant: *old(last_dquant) },
            *neigh,
            transform_8x8_mode,
        ),
        final(e)@.live(),
        final(ctx)@.ok(),
        syn.info.i_nxn == (syn.mb_type == 0),
        syn.info.i_nxn ==> syn.modes@.len() == (if syn.info.transform8x8 {
            4int
        } else {
            16int
        }),
        modes_ok(syn.modes@),
        syn.info.i16_pred < 4,
        syn.info.c_ipred <= 3,
{
    proof {
        reveal(mb_header);
    }
    let ghost s0 = HeaderState { e: e@, c: ctx@, last_dquant: *last_dquant };
    let mb_type: i64 = decode_slice_mb_type(e, &mut ctx.mb_type, neigh);
    let i_nxn: bool = mb_type == 0;
    let is_i16: bool = 1 <= mb_type && mb_type <= 24;
    let ghost d = slice_mb_type(Bins { e: s0.e, c: s0.c.mb_type, b: 0 }, *neigh);
    let ghost s1 = HeaderState { e: d.0.e, c: HeaderBank { mb_type: d.0.c, ..s0.c }, ..s0 };
    assert(e@ == s1.e && ctx@ == s1.c);

    let mut transform_flag: Option<bool> = None;
    let mut modes: Vec<i64> = Vec::new();
    if i_nxn {
        let (t, m) = decode_nxn(e, ctx, neigh, transform_8x8_mode, Ghost(*last_dquant));
        transform_flag = t;
        modes = m;
    }
    let t8: bool = match transform_flag {
        Some(t) => t,
        None => false,
    };
    let ghost s2 = if i_nxn {
        nxn_part(s1, *neigh, transform_8x8_mode).0
    } else {
        s1
    };
    assert(e@ == s2.e && ctx@ == s2.c);

    let c_ipred: u8 = decode_chroma_mode(
        e,
        &mut ctx.cipr,
        count2(has_chroma_mode(&neigh.left), has_chroma_mode(&neigh.up)),
    );
    let mut info: MbInfo = MbInfo { i_nxn, transform8x8: t8, c_ipred, cbp: 0, i16_pred: 0 };
    let mut cbp: Option<i64> = None;
    if is_i16 {
        info = i16_mb_info(mb_type - 1);
        info.c_ipred = c_ipred;
    } else {
        let v: i64 = decode_cbp_ctx(
            e,
            &mut ctx.cbp,
            pattern_of(&neigh.up),
            pattern_of(&neigh.left),
        );
        info.cbp = v as u8;
        cbp = Some(v);
    }
    let mut qp_delta: Option<i32> = None;
    if info.cbp != 0 || is_i16 {
        qp_delta = Some(decode_dquant_ctx(e, &mut ctx.delta_qp, last_dquant));
    } else {
        *last_dquant = 0;
    }
    MbSyntax { mb_type, transform_flag, modes, c_ipred, cbp, qp_delta, info }
}

/// Decode an I-slice macroblock header of a picture that allows the 8x8
/// transform. Appends the decoded syntax elements to `out` and returns what
/// the neighbours read back.
pub fn decode_mb_header(
    e: &mut CabacEngine,
    ctx: &mut MbHeaderContexts,
    neigh: &Neighbors,
    last_dquant: &mut i32,
    out: &mut Vec<Element>,
) -> (info: MbInfo)
    requires
        old(e)@.live(),
        old(ctx)@.ok(),
    ensures
        ({
            let (s, syn) = mb_header(
                HeaderState { e: old(e)@, c: old(ctx)@, last_dquant: *old(last_dquant) },
                *neigh,
                true,
            );
            &&& HeaderState { e: final(e)@, c: final(ctx)@, last_dquant: *final(last_dquant) } == s
            &&& info == syn.info
            &&& element_views(final(out)@) == element_views(old(out)@) + header_elements(syn)
        }),
        final(e)@.live(),
        final(ctx)@.ok(),
{
    let syn = decode_mb_syntax(e, ctx, neigh, last_dquant, true);
    push_elements(&syn, out);
    syn.info
}

fn push_element(out: &mut Vec<Element>, name: &str, value: i64)
    ensures
        element_views(final(out)@) == element_views(old(out)@).push((name@, value)),
{
    let ghost before = out@;
    out.push((name.to_owned(), value));
    assert(element_views(out@) =~= element_views(before).push((name@, value)));
}

/// Append the elements of a header under their names.
pub fn push_elements(syn: &MbSyntax, out: &mut Vec<Element>)
    ensures
        element_views(final(out)@) == element_views(old(out)@) + header_elements(syn@),
{
    let ghost start = element_views(out@);
    push_element(out, "mb_type", syn.mb_type);
    if let Some(t) = syn.transform_flag {
        push_element(
            out,
            "transform_size_8x8_flag",
            if t {
                1
            } else {
                0
            },
        );
    }
    let ghost head = element_views(out@);
    for i in 0..syn.modes.len()
        invariant
            element_views(out@) == head + syn.modes@.subrange(0, i as int).map_values(
                |m: i64| ("intra4x4_pred_mode"@, m),
            ),
    {
        let ghost was = element_views(out@);
        push_element(out, "intra4x4_pred_mode", syn.modes[i]);
        assert(element_views(out@) =~= head + syn.modes@.subrange(0, i + 1).map_values(
            |m: i64| ("intra4x4_pred_mode"@, m),
        ));
    }
    assert(syn.modes@.subrange(0, syn.modes@.len() as int) =~= syn.modes@);
    push_element(out, "intra_chroma_pred_mode", syn.c_ipred as i64);
    if let Some(v) = syn.cbp {
        push_element(out, "coded_block_pattern", v);
    }
    if let Some(v) = syn.qp_delta {
        push_element(out, "mb_qp_delta", v as i64);
    }
    assert(element_views(out@) =~= start + header_elements(syn@));
}

} // verus!

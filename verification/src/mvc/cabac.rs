//! The CABAC arithmetic decoding engine (H.264 section 9.3.3.2): the three
//! decode primitives and the context state that they adapt.

use crate::mvc::arith::{clip, lemma_i64_shr, lemma_shift_in, lemma_u32_bits};
use crate::mvc::bitstream::bit_at;
use vstd::prelude::*;

verus! {

/// A single context model: a 6-bit probability-state index and the value of
/// the most probable symbol.
#[derive(Debug, Clone, Copy, PartialEq, Eq, Structural)]
pub struct CtxState {
    /// pStateIdx, 0..=63.
    pub pstate: u8,
    /// valMPS, 0 or 1.
    pub mps: u8,
}

impl CtxState {
    /// The state index and the symbol are in range.
    pub open spec fn ok(self) -> bool {
        self.pstate <= 63 && self.mps <= 1
    }

    /// preCtxState of section 9.3.1.1.
    pub open spec fn pre_state(m: int, n: int, slice_qp: int) -> int {
        clip(1, 126, (m * clip(0, 51, slice_qp)) / 16 + n)
    }

    /// The state that `(m, n)` gives at a slice QP.
    pub open spec fn initial(m: int, n: int, slice_qp: int) -> CtxState {
        let pre = Self::pre_state(m, n, slice_qp);
        if pre <= 63 {
            CtxState { pstate: (63 - pre) as u8, mps: 0 }
        } else {
            CtxState { pstate: (pre - 64) as u8, mps: 1 }
        }
    }

    /// The state after a symbol: the less probable one swaps the symbols when
    /// the state is 0.
    pub closed spec fn after(self, lps: bool) -> CtxState {
        if lps {
            CtxState {
                pstate: TRANS_IDX_LPS[self.pstate as int],
                mps: if self.pstate == 0 {
                    (1 - self.mps) as u8
                } else {
                    self.mps
                },
            }
        } else {
            CtxState { pstate: TRANS_IDX_MPS[self.pstate as int], mps: self.mps }
        }
    }

    /// Initialise from the context's `(m, n)` values and the slice QP, which
    /// is limited to 0..=51 (section 9.3.1.1).
    pub fn init(m: i32, n: i32, slice_qp: i32) -> (r: Self)
        ensures
            r == CtxState::initial(m as int, n as int, slice_qp as int),
            r.ok(),
    {
        let qp: i64 = if slice_qp < 0 {
            0
        } else if slice_qp > 51 {
            51
        } else {
            slice_qp as i64
        };
        assert(-0x8000_0000 * 51 <= m * qp <= 0x7fff_ffff * 51) by (nonlinear_arith)
            requires
                0 <= qp <= 51,
                -0x8000_0000 <= m <= 0x7fff_ffff,
        ;
        let scaled: i64 = m as i64 * qp;
        proof {
            lemma_i64_shr(scaled);
        }
        let raw: i64 = (scaled >> 4) + n as i64;
        let pre: i64 = if raw < 1 {
            1
        } else if raw > 126 {
            126
        } else {
            raw
        };
        if pre <= 63 {
            CtxState { pstate: (63 - pre) as u8, mps: 0 }
        } else {
            CtxState { pstate: (pre - 64) as u8, mps: 1 }
        }
    }
}

/// Every context of a bank is in range.
pub open spec fn bank_ok(bank: Seq<CtxState>) -> bool {
    forall|i: int| 0 <= i < bank.len() ==> (#[trigger] bank[i]).ok()
}

/// The arithmetic decoder as a mathematical state: the slice data, the next
/// bit, codIRange and codIOffset.
pub struct Engine {
    pub data: Seq<u8>,
    pub pos: int,
    pub range: int,
    pub offset: int,
}

impl Engine {
    /// The next bit; past the end there are only zeros.
    pub open spec fn bit(self) -> int {
        if self.pos < 8 * self.data.len() && bit_at(self.data, self.pos) {
            1
        } else {
            0
        }
    }

    /// One bit shifted into the offset register.
    pub open spec fn pull(self) -> Engine {
        Engine {
            pos: if self.pos < 8 * self.data.len() {
                self.pos + 1
            } else {
                self.pos
            },
            offset: (2 * self.offset + self.bit()) % 0x1_0000_0000,
            ..self
        }
    }

    /// `n` bits shifted in.
    pub open spec fn pull_n(self, n: nat) -> Engine
        decreases n,
    {
        if n == 0 {
            self
        } else {
            self.pull().pull_n((n - 1) as nat)
        }
    }

    /// The engine at the start of slice data.
    #[verifier::opaque]
    pub open spec fn start(data: Seq<u8>) -> Engine {
        (Engine { data, pos: 0, range: 510, offset: 0 }).pull_n(9)
    }

    /// Renormalisation: the range doubles until it is 256 or more.
    pub open spec fn renorm(self) -> Engine
        decreases
            if self.range < 256 {
                256 - self.range
            } else {
                0
            },
    {
        if self.range <= 0 || self.range >= 256 {
            self
        } else {
            (Engine { range: 2 * self.range, ..self.pull() }).renorm()
        }
    }

    /// The part of the range that the less probable symbol takes.
    pub closed spec fn lps_range(self, ctx: CtxState) -> int {
        RANGE_TAB_LPS[ctx.pstate as int][(self.range / 64) % 4] as int
    }

    /// The next bin is the less probable symbol.
    pub open spec fn is_lps(self, ctx: CtxState) -> bool {
        self.offset >= self.range - self.lps_range(ctx)
    }

    /// One context-coded bin: the engine and the context after it, and the bin.
    #[verifier::opaque]
    pub open spec fn decision(self, ctx: CtxState) -> (Engine, CtxState, u32) {
        let mps_range = self.range - self.lps_range(ctx);
        if self.is_lps(ctx) {
            (
                (Engine {
                    range: self.lps_range(ctx),
                    offset: self.offset - mps_range,
                    ..self
                }).renorm(),
                ctx.after(true),
                (1 - ctx.mps) as u32,
            )
        } else {
            ((Engine { range: mps_range, ..self }).renorm(), ctx.after(false), ctx.mps as u32)
        }
    }

    /// One equiprobable bin.
    #[verifier::opaque]
    pub open spec fn bypass(self) -> (Engine, u32) {
        let e = self.pull();
        if e.offset >= e.range {
            (Engine { offset: e.offset - e.range, ..e }, 1)
        } else {
            (e, 0)
        }
    }

    /// The terminating bin.
    #[verifier::opaque]
    pub open spec fn terminate(self) -> (Engine, u32) {
        let e = Engine { range: self.range - 2, ..self };
        if e.offset >= e.range {
            (e, 1)
        } else {
            (e.renorm(), 0)
        }
    }

    /// The unary prefix of an Exp-Golomb code: each one adds `2^k` and raises
    /// the order.
    pub open spec fn golomb_prefix(self, sym: u32, k: u32) -> (Engine, u32, u32)
        decreases u32::MAX - k,
    {
        let (e, b) = self.bypass();
        if b == 0 || k == u32::MAX {
            (e, sym, k)
        } else {
            e.golomb_prefix(sym.wrapping_add(1u32.wrapping_shl(k)), (k + 1) as u32)
        }
    }

    /// The `k` suffix bits of an Exp-Golomb code, most significant first.
    pub open spec fn golomb_suffix(self, sym: u32, k: u32) -> (Engine, u32)
        decreases k,
    {
        if k == 0 {
            (self, sym)
        } else {
            let (e, b) = self.bypass();
            e.golomb_suffix(
                sym.wrapping_add(b.wrapping_shl((k - 1) as u32)),
                (k - 1) as u32,
            )
        }
    }

    /// A k-th order Exp-Golomb code of bypass bins.
    #[verifier::opaque]
    pub open spec fn golomb(self, k: u32) -> (Engine, u32) {
        let (e, sym, order) = self.golomb_prefix(0, k);
        e.golomb_suffix(sym, order)
    }

    /// Between bins: the range register holds nine bits.
    pub open spec fn live(self) -> bool {
        256 <= self.range <= 510
    }

    /// As [`Engine::live`], or just after a terminating bin of 1.
    pub open spec fn awake(self) -> bool {
        254 <= self.range <= 510
    }
}

/// A run of bins over one bank of contexts: the engine, the bank, and the last
/// bin decoded.
pub struct Bins {
    pub e: Engine,
    pub c: Seq<CtxState>,
    pub b: u32,
}

impl Bins {
    /// One more bin on context `i` of the bank.
    pub open spec fn bin(self, i: int) -> Bins {
        let (e, x, b) = self.e.decision(self.c[i]);
        Bins { e, c: self.c.update(i, x), b }
    }

    /// One more bypass bin.
    pub open spec fn bypass(self) -> Bins {
        let (e, b) = self.e.bypass();
        Bins { e, b, ..self }
    }

    /// A terminating bin.
    pub open spec fn terminate(self) -> Bins {
        let (e, b) = self.e.terminate();
        Bins { e, b, ..self }
    }
}

/// The arithmetic decoder over the byte-aligned slice data.
pub struct CabacEngine<'a> {
    data: &'a [u8],
    byte_pos: usize,
    bit_pos: u8,
    range: u32,
    offset: u32,
}

impl<'a> View for CabacEngine<'a> {
    type V = Engine;

    closed spec fn view(&self) -> Engine {
        Engine {
            data: self.data@,
            pos: 8 * self.byte_pos + self.bit_pos,
            range: self.range as int,
            offset: self.offset as int,
        }
    }
}

impl<'a> CabacEngine<'a> {
    #[verifier::type_invariant]
    spec fn inv(self) -> bool {
        &&& self.bit_pos < 8
        &&& self.byte_pos <= self.data@.len()
        &&& self.byte_pos == self.data@.len() ==> self.bit_pos == 0
    }

    /// Initialise the engine at the first byte of slice data (section
    /// 9.3.1.2).
    pub fn new(data: &'a [u8]) -> (e: Self)
        ensures
            e@ == Engine::start(data@),
            e@.live(),
    {
        proof {
            reveal(Engine::start);
        }
        let mut e = CabacEngine { data, byte_pos: 0, bit_pos: 0, range: 510, offset: 0 };
        let ghost whole = e@.pull_n(9);
        for i in 0..9u32
            invariant
                e@.pull_n((9 - i) as nat) == whole,
                e@.range == 510,
        {
            e.pull();
        }
        e
    }

    /// Shift one bit into the offset register. Reading past the end gives 0:
    /// the engine looks a few bits beyond the last syntax element.
    fn pull(&mut self)
        ensures
            final(self)@ == old(self)@.pull(),
    {
        proof {
            use_type_invariant(&*self);
        }
        let mut bit: u32 = 0;
        if self.byte_pos < self.data.len() {
            let byte: u8 = self.data[self.byte_pos];
            proof {
                let p = self@.pos;
                assert(p / 8 == self.byte_pos && p % 8 == self.bit_pos);
                let n = (7 - self.bit_pos) as u8;
                assert((byte >> n) & 1 == 0 || (byte >> n) & 1 == 1) by (bit_vector);
            }
            bit = ((byte >> (7 - self.bit_pos)) & 1) as u32;
            if self.bit_pos == 7 {
                self.bit_pos = 0;
                self.byte_pos = self.byte_pos + 1;
            } else {
                self.bit_pos = self.bit_pos + 1;
            }
        }
        proof {
            lemma_shift_in(self.offset, bit);
        }
        self.offset = (self.offset << 1) | bit;
    }

    /// Grow the range back to 256 or more, shifting a fresh bit into the
    /// offset at each step.
    fn renorm(&mut self)
        requires
            0 < old(self)@.range <= 510,
        ensures
            final(self)@ == old(self)@.renorm(),
            final(self)@.live(),
    {
        let ghost start = self@;
        while self.range < 256
            invariant
                self@.renorm() == start.renorm(),
                0 < self.range <= 510,
            decreases
                if self.range < 256 {
                    256 - self.range
                } else {
                    0
                },
        {
            proof {
                use_type_invariant(&*self);
            }
            self.range = self.range * 2;
            self.pull();
        }
    }

    /// Decode one context-coded bin, updating `ctx`.
    pub fn decode_decision(&mut self, ctx: &mut CtxState) -> (bin: u32)
        requires
            old(self)@.awake(),
            old(ctx).ok(),
        ensures
            (final(self)@, *final(ctx), bin) == old(self)@.decision(*old(ctx)),
            final(self)@.live(),
            final(ctx).ok(),
            bin <= 1,
    {
        proof {
            reveal(Engine::decision);
        }
        proof {
            use_type_invariant(&*self);
            lemma_u32_bits(self.range);
            lemma_u32_bits(self.range / 64);
            lemma_tables();
        }
        let q: usize = ((self.range >> 6) & 3) as usize;
        let r_lps: u32 = RANGE_TAB_LPS[ctx.pstate as usize][q] as u32;
        self.range = self.range - r_lps;
        let bin: u32;
        if self.offset >= self.range {
            bin = (1 - ctx.mps) as u32;
            self.offset = self.offset - self.range;
            self.range = r_lps;
            if ctx.pstate == 0 {
                ctx.mps = 1 - ctx.mps;
            }
            ctx.pstate = TRANS_IDX_LPS[ctx.pstate as usize];
        } else {
            bin = ctx.mps as u32;
            ctx.pstate = TRANS_IDX_MPS[ctx.pstate as usize];
        }
        self.renorm();
        bin
    }

    /// Decode one equiprobable bin. The range is left unchanged.
    pub fn decode_bypass(&mut self) -> (bin: u32)
        ensures
            (final(self)@, bin) == old(self)@.bypass(),
            final(self)@.range == old(self)@.range,
            bin <= 1,
    {
        proof {
            reveal(Engine::bypass);
        }
        self.pull();
        proof {
            use_type_invariant(&*self);
        }
        if self.offset >= self.range {
            self.offset = self.offset - self.range;
            1
        } else {
            0
        }
    }

    /// Decode the terminating bin: 1 at the end of a slice or at an I_PCM
    /// escape; otherwise 0, and decoding continues.
    pub fn decode_terminate(&mut self) -> (bin: u32)
        requires
            old(self)@.live(),
        ensures
            (final(self)@, bin) == old(self)@.terminate(),
            final(self)@.awake(),
            bin == 0 ==> final(self)@.live(),
            bin <= 1,
    {
        proof {
            reveal(Engine::terminate);
        }
        proof {
            use_type_invariant(&*self);
        }
        self.range = self.range - 2;
        if self.offset >= self.range {
            1
        } else {
            self.renorm();
            0
        }
    }

    /// Decode a `k`-th order Exp-Golomb code of bypass bins. The sum is taken
    /// modulo 2^32, which only a code of more than 31 leading ones exceeds.
    pub fn decode_exp_golomb_bypass(&mut self, k: u32) -> (v: u32)
        ensures
            (final(self)@, v) == old(self)@.golomb(k),
            final(self)@.range == old(self)@.range,
    {
        proof {
            reveal(Engine::golomb);
        }
        let ghost whole = self@.golomb_prefix(0, k);
        let ghost range = self@.range;
        let mut sym: u32 = 0;
        let mut order: u32 = k;
        loop
            invariant_except_break
                self@.golomb_prefix(sym, order) == whole,
            invariant
                self@.range == range,
            ensures
                whole == (self@, sym, order),
                self@.range == range,
            decreases u32::MAX - order,
        {
            let b: u32 = self.decode_bypass();
            if b == 0 || order == u32::MAX {
                break;
            }
            sym = sym.wrapping_add(1u32.wrapping_shl(order));
            order = order + 1;
        }
        let ghost tail = self@.golomb_suffix(sym, order);
        while order > 0
            invariant
                self@.golomb_suffix(sym, order) == tail,
                self@.range == range,
            decreases order,
        {
            let b: u32 = self.decode_bypass();
            order = order - 1;
            sym = sym.wrapping_add(b.wrapping_shl(order));
        }
        sym
    }
}

/// What the state tables say of a context: the range of the less probable
/// symbol, and the next state.
pub proof fn law_state_tables(e: Engine, ctx: CtxState)
    ensures
        e.lps_range(ctx) == RANGE_TAB_LPS[ctx.pstate as int][(e.range / 64) % 4],
        ctx.after(false) == (CtxState { pstate: TRANS_IDX_MPS[ctx.pstate as int], mps: ctx.mps }),
        ctx.after(true).pstate == TRANS_IDX_LPS[ctx.pstate as int],
        ctx.after(true).mps == (if ctx.pstate == 0 {
            (1 - ctx.mps) as u8
        } else {
            ctx.mps
        }),
{
}

proof fn lemma_tables()
    ensures
        forall|p: int, q: int|
            0 <= p < 64 && 0 <= q < 4 ==> 2 <= #[trigger] RANGE_TAB_LPS[p][q] <= 240,
        forall|p: int| 0 <= p < 64 ==> #[trigger] TRANS_IDX_LPS[p] < 64,
        forall|p: int| 0 <= p < 64 ==> #[trigger] TRANS_IDX_MPS[p] < 64,
{
}

/// The more probable symbol never makes a state less sure, and the less probable
/// one never makes it more sure. The last state stays.
pub proof fn law_transitions(c: CtxState)
    requires
        c.ok(),
    ensures
        c.after(false).pstate >= c.pstate,
        c.after(true).pstate <= c.pstate,
        c.pstate == 63 ==> c.after(false).pstate == 63 && c.after(true).pstate == 63,
        c.pstate == 0 <==> c.after(true).mps != c.mps,
        c.after(false).mps == c.mps,
{
    assert(forall|p: int|
        0 <= p < 64 ==> #[trigger] TRANS_IDX_MPS[p] >= p && TRANS_IDX_LPS[p] <= p);
}

/// rangeTabLPS (H.264 Table 9-46), indexed `[pStateIdx][qCodIRangeIdx]`.
pub const RANGE_TAB_LPS: [[u8; 4]; 64] = [
    [128, 176, 208, 240], [128, 167, 197, 227], [128, 158, 187, 216], [123, 150, 178, 205],
    [116, 142, 169, 195], [111, 135, 160, 185], [105, 128, 152, 175], [100, 122, 144, 166],
    [ 95, 116, 137, 158], [ 90, 110, 130, 150], [ 85, 104, 123, 142], [ 81,  99, 117, 135],
    [ 77,  94, 111, 128], [ 73,  89, 105, 122], [ 69,  85, 100, 116], [ 66,  80,  95, 110],
    [ 62,  76,  90, 104], [ 59,  72,  86,  99], [ 56,  69,  81,  94], [ 53,  65,  77,  89],
    [ 51,  62,  73,  85], [ 48,  59,  69,  80], [ 46,  56,  66,  76], [ 43,  53,  63,  72],
    [ 41,  50,  59,  69], [ 39,  48,  56,  65], [ 37,  45,  54,  62], [ 35,  43,  51,  59],
    [ 33,  41,  48,  56], [ 32,  39,  46,  53], [ 30,  37,  43,  50], [ 29,  35,  41,  48],
    [ 27,  33,  39,  45], [ 26,  31,  37,  43], [ 24,  30,  35,  41], [ 23,  28,  33,  39],
    [ 22,  27,  32,  37], [ 21,  26,  30,  35], [ 20,  24,  29,  33], [ 19,  23,  27,  31],
    [ 18,  22,  26,  30], [ 17,  21,  25,  28], [ 16,  20,  23,  27], [ 15,  19,  22,  25],
    [ 14,  18,  21,  24], [ 14,  17,  20,  23], [ 13,  16,  19,  22], [ 12,  15,  18,  21],
    [ 12,  14,  17,  20], [ 11,  14,  16,  19], [ 11,  13,  15,  18], [ 10,  12,  15,  17],
    [ 10,  12,  14,  16], [  9,  11,  13,  15], [  9,  11,  12,  14], [  8,  10,  12,  14],
    [  8,   9,  11,  13], [  7,   9,  11,  12], [  7,   9,  10,  12], [  7,   8,  10,  11],
    [  6,   8,   9,  11], [  6,   7,   9,  10], [  6,   7,   8,   9], [  2,   2,   2,   2],
];

/// transIdxLPS (H.264 Table 9-47): the next state after a less probable symbol.
pub const TRANS_IDX_LPS: [u8; 64] = [
     0,  0,  1,  2,  2,  4,  4,  5,  6,  7,  8,  9,  9, 11, 11, 12,
    13, 13, 15, 15, 16, 16, 18, 18, 19, 19, 21, 21, 22, 22, 23, 24,
    24, 25, 26, 26, 27, 27, 28, 29, 29, 30, 30, 30, 31, 32, 32, 33,
    33, 33, 34, 34, 35, 35, 35, 36, 36, 36, 37, 37, 37, 38, 38, 63,
];

/// transIdxMPS (H.264 Table 9-47): the next state after a more probable symbol.
pub const TRANS_IDX_MPS: [u8; 64] = [
     1,  2,  3,  4,  5,  6,  7,  8,  9, 10, 11, 12, 13, 14, 15, 16,
    17, 18, 19, 20, 21, 22, 23, 24, 25, 26, 27, 28, 29, 30, 31, 32,
    33, 34, 35, 36, 37, 38, 39, 40, 41, 42, 43, 44, 45, 46, 47, 48,
    49, 50, 51, 52, 53, 54, 55, 56, 57, 58, 59, 60, 61, 62, 62, 63,
];

/// Contexts stay in range.
pub proof fn lemma_bank_step(c: Seq<CtxState>, k: int, lps: bool)
    requires
        bank_ok(c),
        0 <= k < c.len(),
    ensures
        bank_ok(c.update(k, c[k].after(lps))),
{
    lemma_tables();
    assert(c[k].ok());
    assert forall|i: int| 0 <= i < c.len() implies (#[trigger] c.update(
        k,
        c[k].after(lps),
    )[i]).ok() by {
        assert(c[i].ok());
    }
}

/// The part of the less probable symbol depends on the range alone, and never
/// takes it all.
pub proof fn lemma_lps_range(e: Engine, f: Engine, ctx: CtxState)
    requires
        e.range == f.range,
        256 <= e.range <= 510,
        ctx.ok(),
    ensures
        e.lps_range(ctx) == f.lps_range(ctx),
        2 <= e.lps_range(ctx) <= 240,
{
    lemma_tables();
}

} // verus!

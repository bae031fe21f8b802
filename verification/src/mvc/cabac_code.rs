//! The arithmetic encoder (H.264 section 9.3.4) as a model, and that the decoder
//! undoes it.

use crate::mvc::bitstream::{bit_at, bits_value};
use crate::mvc::cabac::{bank_ok, lemma_bank_step, lemma_lps_range, CtxState, Engine};
use vstd::arithmetic::power2::{lemma_pow2_pos, lemma_pow2_unfold, pow2};
use vstd::prelude::*;

verus! {

/// A bin to be coded: with a context of the bank, on its own, or to end a slice.
pub enum Op {
    Decision(int, u32),
    Bypass(u32),
    Terminate(u32),
}

impl Op {
    /// The bin is 0 or 1 and its context is in the bank.
    pub open spec fn ok(self, n: int) -> bool {
        match self {
            Op::Decision(k, b) => 0 <= k < n && b <= 1,
            Op::Bypass(b) => b <= 1,
            Op::Terminate(b) => b <= 1,
        }
    }

    /// Nothing follows the bin that ends a slice.
    pub open spec fn ends(self) -> bool {
        self matches Op::Terminate(b) && b == 1
    }
}

/// Decoding gives the bins from `i` on.
pub open spec fn decodes(e: Engine, c: Seq<CtxState>, ops: Seq<Op>, i: int) -> bool
    decreases ops.len() - i,
{
    if i >= ops.len() {
        true
    } else {
        match ops[i] {
            Op::Decision(k, b) => {
                let (f, x, v) = e.decision(c[k]);
                v == b && decodes(f, c.update(k, x), ops, i + 1)
            },
            Op::Bypass(b) => {
                let (f, v) = e.bypass();
                v == b && decodes(f, c, ops, i + 1)
            },
            Op::Terminate(b) => {
                let (f, v) = e.terminate();
                v == b && decodes(f, c, ops, i + 1)
            },
        }
    }
}

// ---- the encoder ----

/// The encoder's registers: codILow, codIRange, the bits that wait for a carry to
/// be settled, whether the first bit is still to come, and the bits written.
pub struct Coder {
    pub low: int,
    pub range: int,
    pub outstanding: nat,
    pub first: bool,
    pub bits: Seq<bool>,
}

impl Coder {
    /// The encoder at the start of a slice.
    pub open spec fn start() -> Coder {
        Coder { low: 0, range: 510, outstanding: 0, first: true, bits: Seq::empty() }
    }

    /// The bits that waited are written, opposite to `b`.
    pub open spec fn released(self, b: bool) -> Coder
        decreases self.outstanding,
    {
        if self.outstanding == 0 {
            self
        } else {
            (Coder {
                outstanding: (self.outstanding - 1) as nat,
                bits: self.bits.push(!b),
                ..self
            }).released(b)
        }
    }

    /// Write a bit and those that waited for it. The first bit of all is always
    /// zero and is left out.
    pub open spec fn put(self, b: bool) -> Coder {
        (Coder {
            first: false,
            bits: if self.first {
                self.bits
            } else {
                self.bits.push(b)
            },
            ..self
        }).released(b)
    }

    /// The registers doubled: the top bit is written, or has to wait.
    #[verifier::opaque]
    pub open spec fn doubled(self) -> Coder {
        let c = if self.low < 256 {
            self.put(false)
        } else if self.low >= 512 {
            (Coder { low: self.low - 512, ..self }).put(true)
        } else {
            Coder { low: self.low - 256, outstanding: self.outstanding + 1, ..self }
        };
        Coder { low: 2 * c.low, range: 2 * self.range, ..c }
    }

    /// Renormalisation: the range doubles until it is 256 or more.
    pub open spec fn renorm(self) -> Coder
        decreases
            if self.range < 256 {
                256 - self.range
            } else {
                0
            },
    {
        if self.range <= 0 || self.range >= 256 {
            self
        } else {
            proof {
                reveal(Coder::doubled);
            }
            self.doubled().renorm()
        }
    }

    /// The part of the range that the less probable symbol takes.
    pub open spec fn lps_range(self, ctx: CtxState) -> int {
        (Engine { data: Seq::empty(), pos: 0, range: self.range, offset: 0 }).lps_range(ctx)
    }

    /// The part of the interval that stands for a bin of this context.
    pub open spec fn narrowed(self, ctx: CtxState, b: u32) -> Coder {
        let r = self.lps_range(ctx);
        if b != ctx.mps {
            Coder { low: self.low + self.range - r, range: r, ..self }
        } else {
            Coder { range: self.range - r, ..self }
        }
    }

    /// A bin with a context.
    pub open spec fn decision(self, ctx: CtxState, b: u32) -> Coder {
        self.narrowed(ctx, b).renorm()
    }

    /// An equiprobable bin.
    #[verifier::opaque]
    pub open spec fn bypass(self, b: u32) -> Coder {
        let low = 2 * self.low + if b == 1 {
            self.range
        } else {
            0
        };
        if low >= 1024 {
            (Coder { low: low - 1024, ..self }).put(true)
        } else if low < 512 {
            (Coder { low, ..self }).put(false)
        } else {
            Coder { low: low - 512, outstanding: self.outstanding + 1, ..self }
        }
    }

    /// The end of the slice: what is left in the registers is written, with a one
    /// at the end.
    pub open spec fn flushed(self) -> Coder {
        let c = (Coder { low: self.low + self.range - 2, range: 2, ..self }).renorm();
        let d = c.put((c.low / 512) % 2 == 1);
        Coder { bits: d.bits.push((c.low / 256) % 2 == 1).push(true), ..d }
    }

    /// A terminating bin.
    pub open spec fn terminate(self, b: u32) -> Coder {
        if b == 1 {
            self.flushed()
        } else {
            (Coder { range: self.range - 2, ..self }).renorm()
        }
    }

    /// The bins from `i` on.
    pub open spec fn run(self, c: Seq<CtxState>, ops: Seq<Op>, i: int) -> Coder
        decreases ops.len() - i,
    {
        if i >= ops.len() {
            self
        } else {
            match ops[i] {
                Op::Decision(k, b) => self.decision(c[k], b).run(
                    c.update(k, c[k].after(b != c[k].mps)),
                    ops,
                    i + 1,
                ),
                Op::Bypass(b) => self.bypass(b).run(c, ops, i + 1),
                Op::Terminate(b) => self.terminate(b).run(c, ops, i + 1),
            }
        }
    }
}

/// The value of a bit.
pub open spec fn bit_of(s: Seq<bool>, i: int) -> u8 {
    if 0 <= i < s.len() && s[i] {
        1
    } else {
        0
    }
}

/// The byte of eight bits from `i` on.
pub open spec fn byte_at(s: Seq<bool>, i: int) -> u8 {
    (bit_of(s, i) << 7) | (bit_of(s, i + 1) << 6) | (bit_of(s, i + 2) << 5) | (bit_of(s, i + 3)
        << 4) | (bit_of(s, i + 4) << 3) | (bit_of(s, i + 5) << 2) | (bit_of(s, i + 6) << 1)
        | bit_of(s, i + 7)
}

/// Bits as bytes, the last one filled up with zeros.
pub open spec fn packed(s: Seq<bool>) -> Seq<u8> {
    Seq::new(((s.len() + 7) / 8) as nat, |k: int| byte_at(s, 8 * k))
}

/// The code of some bins.
pub open spec fn encoded(c: Seq<CtxState>, ops: Seq<Op>) -> Seq<u8> {
    packed(Coder::start().run(c, ops, 0).bits)
}

proof fn lemma_byte_bits(
    b0: u8,
    b1: u8,
    b2: u8,
    b3: u8,
    b4: u8,
    b5: u8,
    b6: u8,
    b7: u8,
)
    by (bit_vector)
    requires
        b0 <= 1,
        b1 <= 1,
        b2 <= 1,
        b3 <= 1,
        b4 <= 1,
        b5 <= 1,
        b6 <= 1,
        b7 <= 1,
    ensures
        ({
            let v = (b0 << 7) | (b1 << 6) | (b2 << 5) | (b3 << 4) | (b4 << 3) | (b5 << 2) | (b6
                << 1) | b7;
            &&& (v >> 7u8) & 1 == b0
            &&& (v >> 6u8) & 1 == b1
            &&& (v >> 5u8) & 1 == b2
            &&& (v >> 4u8) & 1 == b3
            &&& (v >> 3u8) & 1 == b4
            &&& (v >> 2u8) & 1 == b5
            &&& (v >> 1u8) & 1 == b6
            &&& (v >> 0u8) & 1 == b7
        }),
{
}

proof fn lemma_packed(s: Seq<bool>, p: int)
    requires
        0 <= p < s.len(),
    ensures
        p < 8 * packed(s).len(),
        bit_at(packed(s), p) == s[p],
{
    let k = p / 8;
    let i = 8 * k;
    lemma_byte_bits(
        bit_of(s, i),
        bit_of(s, i + 1),
        bit_of(s, i + 2),
        bit_of(s, i + 3),
        bit_of(s, i + 4),
        bit_of(s, i + 5),
        bit_of(s, i + 6),
        bit_of(s, i + 7),
    );
    assert(packed(s)[k] == byte_at(s, i));
    assert(p == i + p % 8);
}

/// The bins are in order: contexts of the bank, and nothing after an end.
pub open spec fn ops_ok(ops: Seq<Op>, n: int) -> bool {
    &&& forall|i: int| 0 <= i < ops.len() ==> (#[trigger] ops[i]).ok(n)
    &&& forall|i: int| 0 <= i < ops.len() - 1 ==> !(#[trigger] ops[i]).ends()
}

/// The contexts after decoding the bins from `i` on.
pub open spec fn decoded_bank(e: Engine, c: Seq<CtxState>, ops: Seq<Op>, i: int) -> Seq<CtxState>
    decreases ops.len() - i,
{
    if i >= ops.len() {
        c
    } else {
        match ops[i] {
            Op::Decision(k, b) => {
                let (f, x, v) = e.decision(c[k]);
                decoded_bank(f, c.update(k, x), ops, i + 1)
            },
            Op::Bypass(b) => decoded_bank(e.bypass().0, c, ops, i + 1),
            Op::Terminate(b) => decoded_bank(e.terminate().0, c, ops, i + 1),
        }
    }
}

/// The contexts after coding the bins from `i` on: each bin moves its context.
pub open spec fn coded_bank(c: Seq<CtxState>, ops: Seq<Op>, i: int) -> Seq<CtxState>
    decreases ops.len() - i,
{
    if i >= ops.len() {
        c
    } else {
        match ops[i] {
            Op::Decision(k, b) => coded_bank(c.update(k, c[k].after(b != c[k].mps)), ops, i + 1),
            _ => coded_bank(c, ops, i + 1),
        }
    }
}

proof fn lemma_banks(e: Engine, c: Seq<CtxState>, ops: Seq<Op>, i: int)
    requires
        bank_ok(c),
        ops_ok(ops, c.len() as int),
        0 <= i,
        decodes(e, c, ops, i),
    ensures
        decoded_bank(e, c, ops, i) == coded_bank(c, ops, i),
    decreases ops.len() - i,
{
    if i < ops.len() {
        assert(ops[i].ok(c.len() as int));
        match ops[i] {
            Op::Decision(k, b) => {
                reveal(Engine::decision);
                let (f, x, v) = e.decision(c[k]);
                lemma_bank_step(c, k, b != c[k].mps);
                lemma_banks(f, c.update(k, x), ops, i + 1);
            },
            Op::Bypass(b) => {
                lemma_banks(e.bypass().0, c, ops, i + 1);
            },
            Op::Terminate(b) => {
                lemma_banks(e.terminate().0, c, ops, i + 1);
            },
        }
    }
}

// ---- the interval as numbers ----

/// The number that bits stand for.
spec fn num(s: Seq<bool>) -> nat
    decreases s.len(),
{
    if s.len() == 0 {
        0
    } else {
        2 * num(s.drop_last()) + if s.last() {
            1nat
        } else {
            0
        }
    }
}

proof fn lemma_num_push(s: Seq<bool>, b: bool)
    ensures
        num(s.push(b)) == 2 * num(s) + if b {
            1nat
        } else {
            0
        },
{
    assert(s.push(b).drop_last() =~= s);
}

impl Coder {
    /// The low end of the interval, with all bits that are written or wait.
    #[verifier::opaque]
    spec fn exact(self) -> int {
        num(self.bits) * pow2(self.outstanding) * 1024 + 512 * (pow2(self.outstanding) - 1)
            + self.low
    }

    /// The quarters of the register that leave it when it is doubled.
    spec fn quarters(self) -> int {
        if self.low < 256 {
            0
        } else if self.low >= 512 {
            2
        } else {
            1
        }
    }

    /// How often the registers have been doubled.
    spec fn shifts(self) -> nat {
        self.bits.len() + self.outstanding + if self.first {
            0nat
        } else {
            1
        }
    }

    /// The interval lies in the registers and among the codes of its length.
    spec fn ok(self) -> bool {
        &&& 0 <= self.low
        &&& 0 < self.range <= 510
        &&& self.low + self.range <= 1024
        &&& self.exact() + self.range <= 512 * pow2(self.shifts())
        &&& self.first ==> self.bits.len() == 0
    }
}

proof fn lemma_released(c: Coder, b: bool)
    ensures
        ({
            let d = c.released(b);
            let p = pow2(c.outstanding);
            &&& d.outstanding == 0
            &&& d.low == c.low
            &&& d.range == c.range
            &&& d.first == c.first
            &&& d.bits.len() == c.bits.len() + c.outstanding
            &&& num(d.bits) == num(c.bits) * p + if b {
                0
            } else {
                p - 1
            }
        }),
    decreases c.outstanding,
{
    vstd::arithmetic::power2::lemma2_to64();
    if c.outstanding > 0 {
        let o = (c.outstanding - 1) as nat;
        let e = Coder { outstanding: o, bits: c.bits.push(!b), ..c };
        lemma_released(e, b);
        lemma_num_push(c.bits, !b);
        lemma_pow2_unfold(c.outstanding);
        let (n, q) = (num(c.bits) as int, pow2(o) as int);
        assert((2 * n) * q == n * (2 * q)) by (nonlinear_arith);
        assert((2 * n + 1) * q == n * (2 * q) + q) by (nonlinear_arith);
    } else {
        assert(num(c.bits) * 1 == num(c.bits));
    }
}

proof fn lemma_put(c: Coder, b: bool)
    requires
        c.first ==> c.bits.len() == 0 && !b,
    ensures
        ({
            let d = c.put(b);
            let p = pow2(c.outstanding);
            &&& d.outstanding == 0
            &&& d.low == c.low
            &&& d.range == c.range
            &&& !d.first
            &&& d.shifts() == c.shifts() + 1
            &&& num(d.bits) == 2 * (num(c.bits) * p) + if b {
                p as int
            } else {
                p - 1
            }
        }),
{
    let e = Coder {
        first: false,
        bits: if c.first {
            c.bits
        } else {
            c.bits.push(b)
        },
        ..c
    };
    lemma_released(e, b);
    lemma_num_push(c.bits, b);
    let (n, p) = (num(c.bits) as int, pow2(c.outstanding) as int);
    assert((2 * n) * p == 2 * (n * p)) by (nonlinear_arith);
    assert((2 * n + 1) * p == 2 * (n * p) + p) by (nonlinear_arith);
    if c.first {
        assert(n == 0);
    }
}

/// Doubling the registers doubles the exact interval.
proof fn lemma_doubled(c: Coder)
    requires
        c.ok(),
        c.range < 256,
    ensures
        c.doubled().ok(),
        c.doubled().exact() == 2 * c.exact(),
        c.doubled().range == 2 * c.range,
        c.doubled().shifts() == c.shifts() + 1,
        c.doubled().low == 2 * (c.low - 256 * c.quarters()),
{
    reveal(Coder::doubled);
    reveal(Coder::exact);
    vstd::arithmetic::power2::lemma2_to64();
    let (n, o) = (num(c.bits) as int, c.outstanding);
    let p = pow2(o) as int;
    lemma_pow2_pos(o);
    lemma_pow2_unfold(o + 1);
    lemma_pow2_unfold(c.shifts() + 1);
    if c.first {
        assert(n == 0);
        assert(n * p == 0) by (nonlinear_arith)
            requires
                n == 0,
        ;
    }
    if c.low < 256 {
        lemma_put(c, false);
        let m = num(c.put(false).bits) as int;
        assert(m * 1 * 1024 == m * 1024);
    } else if c.low >= 512 {
        let d = Coder { low: c.low - 512, ..c };
        lemma_put(d, true);
        let m = num(d.put(true).bits) as int;
        assert(m * 1 * 1024 == m * 1024);
    } else {
        assert(n * (2 * p) == 2 * (n * p)) by (nonlinear_arith);
    }
}

proof fn lemma_bypassed(c: Coder, b: u32)
    requires
        c.ok(),
        b <= 1,
    ensures
        ({
            let d = c.bypass(b);
            &&& d.ok()
            &&& d.exact() == 2 * c.exact() + b * c.range
            &&& d.range == c.range
            &&& d.shifts() == c.shifts() + 1
        }),
{
    reveal(Coder::bypass);
    reveal(Coder::exact);
    vstd::arithmetic::power2::lemma2_to64();
    let (n, o) = (num(c.bits) as int, c.outstanding);
    let p = pow2(o) as int;
    lemma_pow2_pos(o);
    lemma_pow2_unfold(o + 1);
    lemma_pow2_unfold(c.shifts() + 1);
    if c.first {
        assert(n == 0);
        assert(n * p == 0) by (nonlinear_arith)
            requires
                n == 0,
        ;
    }
    assert(b * c.range == if b == 1 {
        c.range
    } else {
        0
    }) by (nonlinear_arith)
        requires
            b <= 1,
    ;
    let low = 2 * c.low + b * c.range;
    if low >= 1024 {
        let d = Coder { low: low - 1024, ..c };
        lemma_put(d, true);
        let m = num(d.put(true).bits) as int;
        assert(m * 1 * 1024 == m * 1024);
    } else if low < 512 {
        let d = Coder { low, ..c };
        lemma_put(d, false);
        let m = num(d.put(false).bits) as int;
        assert(m * 1 * 1024 == m * 1024);
    } else {
        assert(n * (2 * p) == 2 * (n * p)) by (nonlinear_arith);
    }
}

// ---- the decoder in the interval ----

/// The number of the first `n` bits of some data.
spec fn val(d: Seq<u8>, n: int) -> int {
    bits_value(d, 0, n as nat) as int
}

impl Coder {
    /// The data is a number in the interval.
    spec fn holds(self, d: Seq<u8>) -> bool {
        self.exact() <= val(d, (9 + self.shifts()) as int) < self.exact() + self.range
    }

    /// The decoder stands where the encoder stood.
    spec fn meets(self, e: Engine) -> bool {
        &&& e.range == self.range
        &&& e.pos == 9 + self.shifts()
        &&& e.offset == val(e.data, e.pos) - self.exact()
    }
}

proof fn lemma_val_step(d: Seq<u8>, n: int)
    requires
        0 <= n,
    ensures
        val(d, n + 1) == 2 * val(d, n) + if bit_at(d, n) {
            1int
        } else {
            0
        },
{
    assert((n + 1) as nat - 1 == n);
}

proof fn lemma_packed_value(s: Seq<bool>, n: int)
    requires
        0 <= n <= s.len(),
    ensures
        val(packed(s), n) == num(s.take(n)),
    decreases n,
{
    if n > 0 {
        lemma_packed_value(s, n - 1);
        lemma_val_step(packed(s), n - 1);
        lemma_packed(s, n - 1);
        lemma_num_push(s.take(n - 1), s[n - 1]);
        assert(s.take(n) =~= s.take(n - 1).push(s[n - 1]));
    }
}

proof fn lemma_renorm(c: Coder, d: Seq<u8>)
    requires
        c.ok(),
    ensures
        c.renorm().ok(),
        256 <= c.renorm().range,
        c.renorm().shifts() >= c.shifts(),
        c.renorm().holds(d) ==> c.holds(d),
    decreases
        if c.range < 256 {
            256 - c.range
        } else {
            0
        },
{
    if c.range < 256 {
        lemma_doubled(c);
        lemma_renorm(c.doubled(), d);
        lemma_val_step(d, (9 + c.shifts()) as int);
    }
}

proof fn lemma_renorm_meets(e: Engine, c: Coder)
    requires
        c.ok(),
        c.meets(e),
        c.renorm().holds(e.data),
        9 + c.renorm().shifts() <= 8 * e.data.len(),
    ensures
        c.renorm().meets(e.renorm()),
        e.renorm().data == e.data,
    decreases
        if c.range < 256 {
            256 - c.range
        } else {
            0
        },
{
    if c.range < 256 {
        lemma_doubled(c);
        lemma_renorm(c, e.data);
        lemma_renorm(c.doubled(), e.data);
        lemma_val_step(e.data, e.pos);
        let f = Engine { range: 2 * e.range, ..e.pull() };
        lemma_renorm_meets(f, c.doubled());
    }
}

proof fn lemma_narrowed(c: Coder, ctx: CtxState, b: u32)
    requires
        c.ok(),
        256 <= c.range,
        ctx.ok(),
    ensures
        c.narrowed(ctx, b).ok(),
        2 <= c.lps_range(ctx) <= 240,
        c.narrowed(ctx, b).shifts() == c.shifts(),
        c.narrowed(ctx, b).exact() == c.exact() + if b != ctx.mps {
            c.range - c.lps_range(ctx)
        } else {
            0
        },
{
    reveal(Coder::exact);
    let e = Engine { data: Seq::empty(), pos: 0, range: c.range, offset: 0 };
    lemma_lps_range(e, e, ctx);
}

/// From a range of two it takes seven doublings.
proof fn lemma_seven(c0: Coder) -> (c7: Coder)
    requires
        c0.ok(),
        c0.range == 2,
    ensures
        c7 == c0.renorm(),
        c7.ok(),
        c7.exact() == 128 * c0.exact(),
        c7.shifts() == c0.shifts() + 7,
        c7.low % 128 == 0,
{
    let c1 = c0.doubled();
    lemma_doubled(c0);
    let c2 = c1.doubled();
    lemma_doubled(c1);
    let c3 = c2.doubled();
    lemma_doubled(c2);
    let c4 = c3.doubled();
    lemma_doubled(c3);
    let c5 = c4.doubled();
    lemma_doubled(c4);
    let c6 = c5.doubled();
    lemma_doubled(c5);
    let c7 = c6.doubled();
    lemma_doubled(c6);
    assert(c0.renorm() == c7) by {
        reveal_with_fuel(Coder::renorm, 8);
    }
    let (q0, q1, q2, q3) = (c0.quarters(), c1.quarters(), c2.quarters(), c3.quarters());
    let (q4, q5, q6) = (c4.quarters(), c5.quarters(), c6.quarters());
    assert(c7.low == 128 * (c0.low - 256 * q0 - 128 * q1 - 64 * q2 - 32 * q3 - 16 * q4 - 8 * q5 - 4
        * q6));
    c7
}

/// The last bits name a number in the last two places of the interval.
proof fn lemma_flushed(c: Coder)
    requires
        c.ok(),
        256 <= c.range,
    ensures
        c.flushed().bits.len() == 9 + c.shifts(),
        c.exact() + c.range - 2 <= num(c.flushed().bits) < c.exact() + c.range,
{
    let c0 = Coder { low: c.low + c.range - 2, range: 2, ..c };
    assert(c0.exact() == c.exact() + c.range - 2) by {
        reveal(Coder::exact);
    }
    let c7 = lemma_seven(c0);
    let b = (c7.low / 512) % 2 == 1;
    assert(b == (c7.low >= 512));
    let (n, p) = (num(c7.bits) as int, pow2(c7.outstanding) as int);
    let m = n * p;
    assert(c7.exact() == 1024 * m + 512 * (p - 1) + c7.low) by {
        reveal(Coder::exact);
        assert(n * p * 1024 == 1024 * (n * p)) by (nonlinear_arith);
    }
    if c7.first {
        assert(m == 0) by (nonlinear_arith)
            requires
                n == 0,
                m == n * p,
        ;
    }
    lemma_put(c7, b);
    let d = c7.put(b);
    let x = (c7.low / 256) % 2 == 1;
    lemma_num_push(d.bits, x);
    lemma_num_push(d.bits.push(x), true);
    assert(c7.exact() == 512 * num(d.bits) + c7.low % 512);
}

proof fn lemma_run(c: Coder, bank: Seq<CtxState>, ops: Seq<Op>, i: int)
    requires
        c.ok(),
        256 <= c.range,
        bank_ok(bank),
        ops_ok(ops, bank.len() as int),
        0 <= i < ops.len(),
        ops.last().ends(),
    ensures
        9 + c.shifts() <= c.run(bank, ops, i).bits.len(),
        c.holds(packed(c.run(bank, ops, i).bits)),
    decreases ops.len() - i,
{
    assert(ops[i].ok(bank.len() as int));
    let s = c.run(bank, ops, i).bits;
    let d = packed(s);
    if i == ops.len() - 1 {
        lemma_flushed(c);
        assert(s == c.flushed().bits) by {
            reveal_with_fuel(Coder::run, 2);
        }
        lemma_packed_value(s, s.len() as int);
        assert(s.take(s.len() as int) =~= s);
    } else {
        assert(!ops[i].ends());
        match ops[i] {
            Op::Decision(k, b) => {
                assert(bank[k].ok());
                lemma_narrowed(c, bank[k], b);
                lemma_bank_step(bank, k, b != bank[k].mps);
                lemma_renorm(c.narrowed(bank[k], b), d);
                lemma_run(
                    c.decision(bank[k], b),
                    bank.update(k, bank[k].after(b != bank[k].mps)),
                    ops,
                    i + 1,
                );
            },
            Op::Bypass(b) => {
                lemma_bypassed(c, b);
                lemma_run(c.bypass(b), bank, ops, i + 1);
                lemma_val_step(d, (9 + c.shifts()) as int);
                assert(b * c.range == if b == 1 {
                    c.range
                } else {
                    0
                }) by (nonlinear_arith)
                    requires
                        b <= 1,
                ;
            },
            Op::Terminate(b) => {
                let t = Coder { range: c.range - 2, ..c };
                assert(t.exact() == c.exact()) by {
                    reveal(Coder::exact);
                }
                lemma_renorm(t, d);
                lemma_run(c.terminate(b), bank, ops, i + 1);
            },
        }
    }
}

proof fn lemma_decides(e: Engine, c: Coder, ctx: CtxState, b: u32)
    requires
        c.ok(),
        256 <= c.range,
        ctx.ok(),
        b <= 1,
        c.meets(e),
        c.decision(ctx, b).holds(e.data),
        9 + c.decision(ctx, b).shifts() <= 8 * e.data.len(),
    ensures
        e.decision(ctx).1 == ctx.after(b != ctx.mps),
        e.decision(ctx).2 == b,
        e.decision(ctx).0.data == e.data,
        c.decision(ctx, b).meets(e.decision(ctx).0),
{
    reveal(Engine::decision);
    let t = c.narrowed(ctx, b);
    lemma_narrowed(c, ctx, b);
    lemma_lps_range(
        e,
        Engine { data: Seq::empty(), pos: 0, range: c.range, offset: 0 },
        ctx,
    );
    lemma_renorm(t, e.data);
    let f = if b != ctx.mps {
        Engine {
            range: e.lps_range(ctx),
            offset: e.offset - (e.range - e.lps_range(ctx)),
            ..e
        }
    } else {
        Engine { range: e.range - e.lps_range(ctx), ..e }
    };
    assert(t.meets(f));
    lemma_renorm_meets(f, t);
    assert(e.is_lps(ctx) == (b != ctx.mps));
}

proof fn lemma_passes(e: Engine, c: Coder, b: u32)
    requires
        c.ok(),
        b <= 1,
        c.meets(e),
        c.bypass(b).holds(e.data),
        9 + c.bypass(b).shifts() <= 8 * e.data.len(),
    ensures
        e.bypass().1 == b,
        e.bypass().0.data == e.data,
        c.bypass(b).meets(e.bypass().0),
{
    lemma_bypassed(c, b);
    lemma_val_step(e.data, e.pos);
    assert(b * c.range == if b == 1 {
        c.range
    } else {
        0
    }) by (nonlinear_arith)
        requires
            b <= 1,
    ;
    let f = e.pull();
    assert(0 <= e.offset < c.range);
    assert(f.offset == val(e.data, e.pos + 1) - 2 * c.exact());
    reveal(Engine::bypass);
}

proof fn lemma_goes_on(e: Engine, c: Coder)
    requires
        c.ok(),
        256 <= c.range,
        c.meets(e),
        c.terminate(0).holds(e.data),
        9 + c.terminate(0).shifts() <= 8 * e.data.len(),
    ensures
        e.terminate().1 == 0,
        e.terminate().0.data == e.data,
        c.terminate(0).ok(),
        256 <= c.terminate(0).range,
        c.terminate(0).meets(e.terminate().0),
{
    reveal(Engine::terminate);
    let t = Coder { range: c.range - 2, ..c };
    assert(t.exact() == c.exact()) by {
        reveal(Coder::exact);
    }
    lemma_renorm(t, e.data);
    let f = Engine { range: e.range - 2, ..e };
    assert(t.meets(f));
    lemma_renorm_meets(f, t);
}

proof fn lemma_ends(e: Engine, c: Coder)
    requires
        c.ok(),
        256 <= c.range,
        c.meets(e),
        e.data == packed(c.flushed().bits),
    ensures
        e.terminate().1 == 1,
{
    reveal(Engine::terminate);
    lemma_flushed(c);
    let s = c.flushed().bits;
    lemma_packed_value(s, s.len() as int);
    assert(s.take(s.len() as int) =~= s);
}

proof fn lemma_decodes(e: Engine, c: Coder, bank: Seq<CtxState>, ops: Seq<Op>, i: int)
    requires
        c.ok(),
        256 <= c.range,
        bank_ok(bank),
        ops_ok(ops, bank.len() as int),
        0 <= i < ops.len(),
        ops.last().ends(),
        c.meets(e),
        e.data == packed(c.run(bank, ops, i).bits),
    ensures
        decodes(e, bank, ops, i),
    decreases ops.len() - i,
{
    assert(ops[i].ok(bank.len() as int));
    if i == ops.len() - 1 {
        assert(c.run(bank, ops, i) == c.flushed()) by {
            reveal_with_fuel(Coder::run, 2);
        }
        lemma_ends(e, c);
        reveal_with_fuel(decodes, 2);
    } else {
        assert(!ops[i].ends());
        match ops[i] {
            Op::Decision(k, b) => {
                let ctx = bank[k];
                assert(ctx.ok());
                let next = bank.update(k, ctx.after(b != ctx.mps));
                lemma_narrowed(c, ctx, b);
                lemma_bank_step(bank, k, b != ctx.mps);
                lemma_renorm(c.narrowed(ctx, b), e.data);
                lemma_run(c.decision(ctx, b), next, ops, i + 1);
                lemma_decides(e, c, ctx, b);
                lemma_decodes(e.decision(ctx).0, c.decision(ctx, b), next, ops, i + 1);
            },
            Op::Bypass(b) => {
                lemma_bypassed(c, b);
                lemma_run(c.bypass(b), bank, ops, i + 1);
                lemma_passes(e, c, b);
                lemma_decodes(e.bypass().0, c.bypass(b), bank, ops, i + 1);
            },
            Op::Terminate(b) => {
                assert(b == 0);
                let t = Coder { range: c.range - 2, ..c };
                assert(t.exact() == c.exact()) by {
                    reveal(Coder::exact);
                }
                lemma_renorm(t, e.data);
                lemma_run(c.terminate(0), bank, ops, i + 1);
                lemma_goes_on(e, c);
                lemma_decodes(e.terminate().0, c.terminate(0), bank, ops, i + 1);
            },
        }
    }
}

proof fn lemma_pulled(e: Engine, n: nat)
    requires
        0 <= e.pos,
        e.pos + n <= 8 * e.data.len(),
        e.pos + n <= 9,
        e.offset == val(e.data, e.pos),
        0 <= e.offset < pow2(e.pos as nat),
    ensures
        e.pull_n(n).pos == e.pos + n,
        e.pull_n(n).offset == val(e.data, e.pos + n),
        e.pull_n(n).range == e.range,
        e.pull_n(n).data == e.data,
    decreases n,
{
    if n > 0 {
        vstd::arithmetic::power2::lemma2_to64();
        lemma_val_step(e.data, e.pos);
        lemma_pow2_unfold((e.pos + 1) as nat);
        if e.pos < 9 {
            vstd::arithmetic::power2::lemma_pow2_strictly_increases(e.pos as nat, 9);
        }
        lemma_pulled(e.pull(), (n - 1) as nat);
    }
}

/// The decoder undoes the encoder: from the code of any bins of a slice, whether
/// they have a context, are equiprobable or terminating, up to the one that ends
/// the slice, it decodes the same bins, and each context ends in the state in
/// which coding left it.
pub proof fn law_encoded_bins_come_back(c: Seq<CtxState>, ops: Seq<Op>)
    requires
        bank_ok(c),
        ops_ok(ops, c.len() as int),
        ops.len() > 0,
        ops.last().ends(),
    ensures
        decodes(Engine::start(encoded(c, ops)), c, ops, 0),
        decoded_bank(Engine::start(encoded(c, ops)), c, ops, 0) == coded_bank(c, ops, 0),
{
    reveal(Engine::start);
    vstd::arithmetic::power2::lemma2_to64();
    let k = Coder::start();
    assert(num(k.bits) == 0);
    assert(num(k.bits) * pow2(0) * 1024 == 0);
    assert(k.exact() == 0) by {
        reveal(Coder::exact);
    }
    lemma_run(k, c, ops, 0);
    let s = k.run(c, ops, 0).bits;
    let data = packed(s);
    let e = Engine { data, pos: 0, range: 510, offset: 0 };
    lemma_pulled(e, 9);
    lemma_decodes(e.pull_n(9), k, c, ops, 0);
    lemma_banks(e.pull_n(9), c, ops, 0);
}

} // verus!

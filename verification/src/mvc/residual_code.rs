//! Codes for residual blocks: every block with a coefficient has a run of bins
//! from which it decodes.

use crate::mvc::cabac::{bank_ok, CtxState, Engine};
use crate::mvc::cabac_code::{decodes, encoded, law_encoded_bins_come_back, ops_ok, Op};
use crate::mvc::residual::{
    abs_level_minus1, level_tail, levels, one_level, residual_block, sig_map, signed_level,
    CoeffBank, Levels, SigMap,
};
use vstd::arithmetic::power2::{lemma_pow2_pos, lemma_pow2_unfold, pow2};
use vstd::prelude::*;

verus! {

/// A bin in front of others.
pub open spec fn ahead(op: Op, rest: Seq<Op>) -> Seq<Op> {
    seq![op] + rest
}

/// The bins of the low `k` bits of `v`, most significant first.
pub open spec fn suffix_ops(v: int, k: nat, rest: Seq<Op>) -> Seq<Op>
    decreases k,
{
    if k == 0 {
        rest
    } else {
        let half = pow2((k - 1) as nat) as int;
        if v >= half {
            ahead(Op::Bypass(1), suffix_ops(v - half, (k - 1) as nat, rest))
        } else {
            ahead(Op::Bypass(0), suffix_ops(v, (k - 1) as nat, rest))
        }
    }
}

/// The bins of the Exp-Golomb code of order `k` of `v`.
pub open spec fn golomb_ops(v: int, k: nat, rest: Seq<Op>) -> Seq<Op>
    decreases v,
{
    if v >= pow2(k) {
        proof {
            lemma_pow2_pos(k);
        }
        ahead(Op::Bypass(1), golomb_ops(v - pow2(k), k + 1, rest))
    } else {
        ahead(Op::Bypass(0), suffix_ops(v, k, rest))
    }
}

/// The bins of a level magnitude after the first, from `prefix` on, with context
/// `k`.
pub open spec fn tail_ops(k: int, prefix: int, m1: int, rest: Seq<Op>) -> Seq<Op>
    decreases 14 - prefix,
{
    if prefix >= 14 {
        golomb_ops(m1 - 14, 0, rest)
    } else if prefix == m1 {
        ahead(Op::Decision(k, 0), rest)
    } else {
        ahead(Op::Decision(k, 1), tail_ops(k, prefix + 1, m1, rest))
    }
}

/// The level context of the first bin after `eq1` levels of magnitude 1 and
/// `gt1` greater ones.
pub open spec fn first_ctx(eq1: int, gt1: int) -> int {
    if gt1 != 0 {
        0
    } else if 1 + eq1 > 4 {
        4
    } else {
        1 + eq1
    }
}

/// The level context of the bins after the first.
pub open spec fn tail_ctx(gt1: int, cap: int) -> int {
    5 + if gt1 > cap {
        cap
    } else {
        gt1
    }
}

/// A coefficient without its sign.
pub open spec fn magnitude(v: i32) -> int {
    if v < 0 {
        -v
    } else {
        v as int
    }
}

/// The bins of one level magnitude less one. The level contexts begin at `base`.
pub open spec fn level_ops(
    m1: int,
    eq1: int,
    gt1: int,
    cap: int,
    base: int,
    rest: Seq<Op>,
) -> Seq<Op> {
    if m1 == 0 {
        ahead(Op::Decision(base + first_ctx(eq1, gt1), 0), rest)
    } else {
        ahead(
            Op::Decision(base + first_ctx(eq1, gt1), 1),
            tail_ops(base + tail_ctx(gt1, cap), 1, m1, rest),
        )
    }
}

/// The bins of the levels below scan position `pos`, from the last down.
pub open spec fn levels_ops(
    x: Seq<i32>,
    pos: int,
    eq1: int,
    gt1: int,
    cap: int,
    base: int,
    rest: Seq<Op>,
) -> Seq<Op>
    decreases pos,
{
    if pos <= 0 {
        rest
    } else if x[pos - 1] == 0 {
        levels_ops(x, pos - 1, eq1, gt1, cap, base, rest)
    } else {
        let v = x[pos - 1];
        let one = magnitude(v) == 1;
        let sign = if v < 0 {
            1u32
        } else {
            0u32
        };
        let more = levels_ops(
            x,
            pos - 1,
            if one {
                eq1 + 1
            } else {
                eq1
            },
            if one {
                gt1
            } else {
                gt1 + 1
            },
            cap,
            base,
            rest,
        );
        level_ops(magnitude(v) - 1, eq1, gt1, cap, base, ahead(Op::Bypass(sign), more))
    }
}

/// One more than the last scan position that holds a coefficient.
pub open spec fn coded_len(x: Seq<i32>) -> int
    decreases x.len(),
{
    if x.len() == 0 {
        0
    } else if x.last() != 0 {
        x.len() as int
    } else {
        coded_len(x.drop_last())
    }
}

/// The bins of the significance map from scan position `i` on, for a block whose
/// last coefficient is at `n - 1`. The last-flag contexts begin at `base`.
pub open spec fn map_ops(
    x: Seq<i32>,
    i: int,
    n: int,
    map: Seq<u8>,
    last_map: Seq<u8>,
    base: int,
    rest: Seq<Op>,
) -> Seq<Op>
    decreases x.len() - i,
{
    if i >= x.len() - 1 {
        rest
    } else if x[i] == 0 {
        ahead(
            Op::Decision(map[i] as int, 0),
            map_ops(x, i + 1, n, map, last_map, base, rest),
        )
    } else if i == n - 1 {
        ahead(
            Op::Decision(map[i] as int, 1),
            ahead(Op::Decision(base + last_map[i], 1), rest),
        )
    } else {
        ahead(
            Op::Decision(map[i] as int, 1),
            ahead(
                Op::Decision(base + last_map[i], 0),
                map_ops(x, i + 1, n, map, last_map, base, rest),
            ),
        )
    }
}

/// The contexts of a category in one bank: significance, last and level.
pub open spec fn joined(c: CoeffBank) -> Seq<CtxState> {
    c.sig + c.last + c.level
}

/// The bins of a block with the contexts of `c`, followed by `rest`.
pub open spec fn block_ops(
    x: Seq<i32>,
    c: CoeffBank,
    map: Seq<u8>,
    last_map: Seq<u8>,
    cap: int,
    rest: Seq<Op>,
) -> Seq<Op> {
    let n = coded_len(x);
    let base = c.sig.len() as int;
    map_ops(
        x,
        0,
        n,
        map,
        last_map,
        base,
        levels_ops(x, n, 0, 0, cap, base + c.last.len(), rest),
    )
}

/// A block and its context maps fit the contexts of the category.
pub open spec fn block_fits(
    x: Seq<i32>,
    c: CoeffBank,
    map: Seq<u8>,
    last_map: Seq<u8>,
    cap: int,
) -> bool {
    &&& c.ok()
    &&& 1 <= x.len() <= 64
    &&& x.len() <= map.len() + 1
    &&& x.len() <= last_map.len() + 1
    &&& forall|i: int| 0 <= i < x.len() - 1 ==> (#[trigger] map[i]) < c.sig.len()
    &&& forall|i: int| 0 <= i < x.len() - 1 ==> (#[trigger] last_map[i]) < c.last.len()
    &&& 0 <= cap <= 4
}

proof fn lemma_behind(e: Engine, c: Seq<CtxState>, op: Op, rest: Seq<Op>, i: int)
    requires
        0 <= i,
    ensures
        decodes(e, c, ahead(op, rest), i + 1) == decodes(e, c, rest, i),
    decreases rest.len() - i,
{
    let ops = ahead(op, rest);
    if i < rest.len() {
        assert(ops[i + 1] == rest[i]);
        match rest[i] {
            Op::Decision(k, b) => {
                let (f, y, v) = e.decision(c[k]);
                lemma_behind(f, c.update(k, y), op, rest, i + 1);
            },
            Op::Bypass(b) => {
                let (f, v) = e.bypass();
                lemma_behind(f, c, op, rest, i + 1);
            },
            Op::Terminate(b) => {
                let (f, v) = e.terminate();
                lemma_behind(f, c, op, rest, i + 1);
            },
        }
    }
}

proof fn lemma_decision(e: Engine, c: Seq<CtxState>, k: int, b: u32, rest: Seq<Op>)
    requires
        decodes(e, c, ahead(Op::Decision(k, b), rest), 0),
    ensures
        e.decision(c[k]).2 == b,
        decodes(e.decision(c[k]).0, c.update(k, e.decision(c[k]).1), rest, 0),
{
    let op = Op::Decision(k, b);
    assert(ahead(op, rest)[0] == op);
    lemma_behind(e.decision(c[k]).0, c.update(k, e.decision(c[k]).1), op, rest, 0);
}

proof fn lemma_bypass(e: Engine, c: Seq<CtxState>, b: u32, rest: Seq<Op>)
    requires
        decodes(e, c, ahead(Op::Bypass(b), rest), 0),
    ensures
        e.bypass().1 == b,
        decodes(e.bypass().0, c, rest, 0),
{
    let op = Op::Bypass(b);
    assert(ahead(op, rest)[0] == op);
    lemma_behind(e.bypass().0, c, op, rest, 0);
}

proof fn lemma_shift(b: u32, k: u32)
    requires
        b <= 1,
        k < 32,
    ensures
        b.wrapping_shl(k) == b * pow2(k as nat),
        0 < pow2(k as nat) <= u32::MAX,
{
    vstd::bits::lemma_u32_pow2_no_overflow(k as nat);
    assert(b * pow2(k as nat) <= pow2(k as nat)) by (nonlinear_arith)
        requires
            b <= 1,
            0 <= pow2(k as nat),
    ;
    vstd::bits::lemma_u32_shl_is_mul(b, k);
}

proof fn lemma_suffix(e: Engine, c: Seq<CtxState>, sym: u32, v: int, k: u32, rest: Seq<Op>)
    requires
        0 <= v < pow2(k as nat),
        sym + v <= u32::MAX,
        k <= 32,
        decodes(e, c, suffix_ops(v, k as nat, rest), 0),
    ensures
        e.golomb_suffix(sym, k).1 == sym + v,
        decodes(e.golomb_suffix(sym, k).0, c, rest, 0),
    decreases k,
{
    if k == 0 {
        vstd::arithmetic::power2::lemma2_to64();
    } else {
        let h = (k - 1) as u32;
        lemma_pow2_unfold(k as nat);
        lemma_shift(0, h);
        lemma_shift(1, h);
        let half = pow2(h as nat) as int;
        if v >= half {
            lemma_bypass(e, c, 1, suffix_ops(v - half, h as nat, rest));
            lemma_suffix(e.bypass().0, c, (sym + half) as u32, v - half, h, rest);
        } else {
            lemma_bypass(e, c, 0, suffix_ops(v, h as nat, rest));
            lemma_suffix(e.bypass().0, c, sym, v, h, rest);
        }
    }
}

proof fn lemma_prefix(e: Engine, c: Seq<CtxState>, sym: u32, v: int, k: u32, rest: Seq<Op>)
    requires
        0 <= v,
        sym + v <= u32::MAX,
        k <= 32,
        decodes(e, c, golomb_ops(v, k as nat, rest), 0),
    ensures
        ({
            let (f, s, n) = e.golomb_prefix(sym, k);
            let (g, w) = f.golomb_suffix(s, n);
            w == sym + v && decodes(g, c, rest, 0)
        }),
    decreases v,
{
    lemma_pow2_pos(k as nat);
    if v >= pow2(k as nat) {
        if k == 32 {
            vstd::arithmetic::power2::lemma2_to64();
        }
        lemma_shift(1, k);
        let less = v - pow2(k as nat);
        lemma_bypass(e, c, 1, golomb_ops(less, k as nat + 1, rest));
        lemma_prefix(
            e.bypass().0,
            c,
            (sym + pow2(k as nat)) as u32,
            less,
            (k + 1) as u32,
            rest,
        );
    } else {
        lemma_bypass(e, c, 0, suffix_ops(v, k as nat, rest));
        lemma_suffix(e.bypass().0, c, sym, v, k, rest);
    }
}

proof fn lemma_golomb(e: Engine, c: Seq<CtxState>, v: int, rest: Seq<Op>)
    requires
        0 <= v <= u32::MAX,
        decodes(e, c, golomb_ops(v, 0, rest), 0),
    ensures
        e.golomb(0).1 == v,
        decodes(e.golomb(0).0, c, rest, 0),
{
    reveal(Engine::golomb);
    lemma_prefix(e, c, 0, v, 0, rest);
}

proof fn lemma_joined_sig(c: CoeffBank, i: int, x: CtxState)
    requires
        0 <= i < c.sig.len(),
    ensures
        joined(c)[i] == c.sig[i],
        joined(CoeffBank { sig: c.sig.update(i, x), ..c }) == joined(c).update(i, x),
{
    assert(joined(CoeffBank { sig: c.sig.update(i, x), ..c }) =~= joined(c).update(i, x));
}

proof fn lemma_joined_last(c: CoeffBank, i: int, x: CtxState)
    requires
        0 <= i < c.last.len(),
    ensures
        joined(c)[c.sig.len() + i] == c.last[i],
        joined(CoeffBank { last: c.last.update(i, x), ..c }) == joined(c).update(
            c.sig.len() + i,
            x,
        ),
{
    assert(joined(CoeffBank { last: c.last.update(i, x), ..c }) =~= joined(c).update(
        c.sig.len() + i,
        x,
    ));
}

proof fn lemma_joined_level(c: CoeffBank, i: int, x: CtxState)
    requires
        0 <= i < c.level.len(),
    ensures
        joined(c)[c.sig.len() + c.last.len() + i] == c.level[i],
        joined(CoeffBank { level: c.level.update(i, x), ..c }) == joined(c).update(
            c.sig.len() + c.last.len() + i,
            x,
        ),
{
    assert(joined(CoeffBank { level: c.level.update(i, x), ..c }) =~= joined(c).update(
        c.sig.len() + c.last.len() + i,
        x,
    ));
}

proof fn lemma_tail(e: Engine, c: CoeffBank, k: int, prefix: u32, m1: int, rest: Seq<Op>)
    requires
        0 <= k < c.level.len(),
        prefix <= m1 <= u32::MAX,
        prefix <= 14,
        decodes(
            e,
            joined(c),
            tail_ops(c.sig.len() + c.last.len() + k, prefix as int, m1, rest),
            0,
        ),
    ensures
        ({
            let (f, l, v) = level_tail(e, c.level, k, prefix);
            &&& v == m1
            &&& l.len() == c.level.len()
            &&& decodes(f, joined(CoeffBank { level: l, ..c }), rest, 0)
        }),
    decreases 14 - prefix,
{
    let at = c.sig.len() + c.last.len() + k;
    if prefix >= 14 {
        lemma_golomb(e, joined(c), m1 - 14, rest);
    } else {
        let (f, y, b) = e.decision(c.level[k]);
        lemma_joined_level(c, k, y);
        let d = CoeffBank { level: c.level.update(k, y), ..c };
        if prefix == m1 {
            lemma_decision(e, joined(c), at, 0, rest);
        } else {
            lemma_decision(e, joined(c), at, 1, tail_ops(at, prefix + 1, m1, rest));
            lemma_tail(f, d, k, (prefix + 1) as u32, m1, rest);
        }
    }
}

proof fn lemma_level(
    e: Engine,
    c: CoeffBank,
    eq1: int,
    gt1: int,
    cap: int,
    m1: int,
    rest: Seq<Op>,
)
    requires
        c.level.len() == 10,
        0 <= eq1,
        0 <= gt1,
        0 <= cap <= 4,
        0 <= m1 <= u32::MAX,
        decodes(
            e,
            joined(c),
            level_ops(m1, eq1, gt1, cap, (c.sig.len() + c.last.len()) as int, rest),
            0,
        ),
    ensures
        ({
            let (f, l, v) = abs_level_minus1(e, c.level, eq1, gt1, cap);
            &&& v == m1
            &&& l.len() == 10
            &&& decodes(f, joined(CoeffBank { level: l, ..c }), rest, 0)
        }),
{
    let base = (c.sig.len() + c.last.len()) as int;
    let k = first_ctx(eq1, gt1);
    let (f, y, b) = e.decision(c.level[k]);
    lemma_joined_level(c, k, y);
    let d = CoeffBank { level: c.level.update(k, y), ..c };
    if m1 == 0 {
        lemma_decision(e, joined(c), base + k, 0, rest);
    } else {
        let t = tail_ctx(gt1, cap);
        lemma_decision(e, joined(c), base + k, 1, tail_ops(base + t, 1, m1, rest));
        lemma_tail(f, d, t, 1, m1, rest);
    }
}

proof fn lemma_signed(v: i32)
    requires
        v != 0,
    ensures
        signed_level(
            magnitude(v) as u32,
            if v < 0 {
                1u32
            } else {
                0u32
            },
        ) == v,
{
    if v == i32::MIN {
        assert(0x8000_0000u32 as i32 == -0x8000_0000i32) by (bit_vector);
    }
}

proof fn lemma_levels(
    s: Levels,
    c: CoeffBank,
    x: Seq<i32>,
    coded: Seq<bool>,
    pos: int,
    cap: int,
    rest: Seq<Op>,
)
    requires
        s.c == c.level,
        c.level.len() == 10,
        0 <= pos <= x.len() <= 64,
        s.coeffs.len() == 64,
        0 <= s.eq1,
        0 <= s.gt1,
        0 <= cap <= 4,
        forall|j: int| 0 <= j < pos ==> (#[trigger] coded[j]) == (x[j] != 0),
        forall|j: int| 0 <= j < pos ==> (#[trigger] s.coeffs[j]) == 0,
        forall|j: int| pos <= j < x.len() ==> (#[trigger] s.coeffs[j]) == x[j],
        decodes(
            s.e,
            joined(c),
            levels_ops(x, pos, s.eq1, s.gt1, cap, (c.sig.len() + c.last.len()) as int, rest),
            0,
        ),
    ensures
        ({
            let l = levels(s, coded, pos, cap);
            &&& l.coeffs.len() == 64
            &&& forall|j: int| 0 <= j < x.len() ==> (#[trigger] l.coeffs[j]) == x[j]
            &&& decodes(l.e, joined(CoeffBank { level: l.c, ..c }), rest, 0)
        }),
    decreases pos,
{
    if pos > 0 {
        let base = (c.sig.len() + c.last.len()) as int;
        let v = x[pos - 1];
        assert(coded[pos - 1] == (v != 0));
        if v == 0 {
            lemma_levels(s, c, x, coded, pos - 1, cap, rest);
        } else {
            let t = one_level(s, pos - 1, cap);
            let sign = if v < 0 {
                1u32
            } else {
                0u32
            };
            let more = levels_ops(x, pos - 1, t.eq1, t.gt1, cap, base, rest);
            let (f, l, m1) = abs_level_minus1(s.e, s.c, s.eq1, s.gt1, cap);
            let one = magnitude(v) == 1;
            let next = levels_ops(
                x,
                pos - 1,
                if one {
                    s.eq1 + 1
                } else {
                    s.eq1
                },
                if one {
                    s.gt1
                } else {
                    s.gt1 + 1
                },
                cap,
                base,
                rest,
            );
            let d = CoeffBank { level: l, ..c };
            lemma_level(
                s.e,
                c,
                s.eq1,
                s.gt1,
                cap,
                magnitude(v) - 1,
                ahead(Op::Bypass(sign), next),
            );
            assert(m1.wrapping_add(1) == magnitude(v));
            assert(next == more);
            lemma_bypass(f, joined(d), sign, more);
            lemma_signed(v);
            lemma_levels(t, d, x, coded, pos - 1, cap, rest);
        }
    }
}

proof fn lemma_map(
    s: SigMap,
    level: Seq<CtxState>,
    x: Seq<i32>,
    i: int,
    n: int,
    map: Seq<u8>,
    last_map: Seq<u8>,
    rest: Seq<Op>,
)
    requires
        0 <= i < n <= x.len() <= 64,
        x[n - 1] != 0,
        forall|j: int| n <= j < x.len() ==> (#[trigger] x[j]) == 0,
        forall|j: int| 0 <= j < x.len() - 1 ==> (#[trigger] map[j]) < s.sig.len(),
        forall|j: int| 0 <= j < x.len() - 1 ==> (#[trigger] last_map[j]) < s.last.len(),
        s.coded.len() == 64,
        forall|j: int| 0 <= j < i ==> (#[trigger] s.coded[j]) == (x[j] != 0),
        decodes(
            s.e,
            joined(CoeffBank { sig: s.sig, last: s.last, level }),
            map_ops(x, i, n, map, last_map, s.sig.len() as int, rest),
            0,
        ),
        forall|j: int| i <= j < 64 ==> !(#[trigger] s.coded[j]),
    ensures
        ({
            let m = sig_map(s, i, x.len() as int, map, last_map);
            &&& m.n == n
            &&& m.sig.len() == s.sig.len()
            &&& m.last.len() == s.last.len()
            &&& forall|j: int| 0 <= j < n ==> (#[trigger] m.coded[j]) == (x[j] != 0)
            &&& decodes(m.e, joined(CoeffBank { sig: m.sig, last: m.last, level }), rest, 0)
        }),
    decreases x.len() - i,
{
    if i < x.len() - 1 {
        let base = s.sig.len() as int;
        let c = CoeffBank { sig: s.sig, last: s.last, level };
        let a = map[i] as int;
        let z = last_map[i] as int;
        let (e1, c1, b1) = s.e.decision(s.sig[a]);
        lemma_joined_sig(c, a, c1);
        let d = CoeffBank { sig: s.sig.update(a, c1), ..c };
        if x[i] == 0 {
            let more = map_ops(x, i + 1, n, map, last_map, base, rest);
            lemma_decision(s.e, joined(c), a, 0, more);
            lemma_map(SigMap { e: e1, sig: d.sig, ..s }, level, x, i + 1, n, map, last_map, rest);
        } else {
            let (e2, c2, b2) = e1.decision(s.last[z]);
            lemma_joined_last(d, z, c2);
            let g = CoeffBank { last: s.last.update(z, c2), ..d };
            if i == n - 1 {
                lemma_decision(s.e, joined(c), a, 1, ahead(Op::Decision(base + z, 1), rest));
                lemma_decision(e1, joined(d), base + z, 1, rest);
            } else {
                let more = map_ops(x, i + 1, n, map, last_map, base, rest);
                lemma_decision(s.e, joined(c), a, 1, ahead(Op::Decision(base + z, 0), more));
                lemma_decision(e1, joined(d), base + z, 0, more);
                let t = SigMap {
                    e: e2,
                    sig: g.sig,
                    last: g.last,
                    coded: s.coded.update(i, true),
                    n: s.n,
                };
                lemma_map(t, level, x, i + 1, n, map, last_map, rest);
            }
        }
    }
}

proof fn lemma_coded_len(x: Seq<i32>)
    ensures
        0 <= coded_len(x) <= x.len(),
        coded_len(x) > 0 ==> x[coded_len(x) - 1] != 0,
        forall|j: int| coded_len(x) <= j < x.len() ==> (#[trigger] x[j]) == 0,
    decreases x.len(),
{
    if x.len() > 0 && x.last() == 0 {
        let y = x.drop_last();
        lemma_coded_len(y);
        assert forall|j: int| coded_len(x) <= j < x.len() implies (#[trigger] x[j]) == 0 by {
            if j < y.len() {
                assert(y[j] == x[j]);
            }
        }
    }
}

/// Decoding the bins of a block gives the block back, and goes on with what
/// follows them.
pub proof fn law_block_bins(
    e: Engine,
    c: CoeffBank,
    x: Seq<i32>,
    map: Seq<u8>,
    last_map: Seq<u8>,
    cap: int,
    rest: Seq<Op>,
)
    requires
        block_fits(x, c, map, last_map, cap),
        exists|i: int| 0 <= i < x.len() && x[i] != 0,
        decodes(e, joined(c), block_ops(x, c, map, last_map, cap, rest), 0),
    ensures
        ({
            let (f, d, got) = residual_block(e, c, x.len() as int, map, last_map, cap);
            got == x && decodes(f, joined(d), rest, 0)
        }),
{
    let n = coded_len(x);
    lemma_coded_len(x);
    assert(n > 0);
    let max = x.len() as int;
    let base = c.sig.len() as int;
    let s = SigMap { e, sig: c.sig, last: c.last, coded: Seq::new(64, |i: int| false), n: max };
    let tail = levels_ops(x, n, 0, 0, cap, base + c.last.len(), rest);
    assert(CoeffBank { sig: s.sig, last: s.last, level: c.level } == c);
    lemma_map(s, c.level, x, 0, n, map, last_map, tail);
    let m = sig_map(s, 0, max, map, last_map);
    let d = CoeffBank { sig: m.sig, last: m.last, level: c.level };
    let t = Levels { e: m.e, c: c.level, coeffs: Seq::new(64, |i: int| 0i32), eq1: 0, gt1: 0 };
    lemma_levels(t, d, x, m.coded, n, cap, rest);
    let l = levels(t, m.coded, n, cap);
    assert(l.coeffs.subrange(0, max) =~= x);
}

/// Bins end as those behind them do.
spec fn ends_as(ops: Seq<Op>, rest: Seq<Op>) -> bool {
    rest.len() > 0 ==> ops.len() > 0 && ops.last() == rest.last()
}

proof fn lemma_ahead_ok(op: Op, rest: Seq<Op>, n: int)
    requires
        op.ok(n),
        !op.ends(),
        ops_ok(rest, n),
    ensures
        ops_ok(ahead(op, rest), n),
        ends_as(ahead(op, rest), rest),
{
    let ops = ahead(op, rest);
    assert forall|i: int| 0 <= i < ops.len() implies (#[trigger] ops[i]).ok(n) by {
        if i > 0 {
            assert(ops[i] == rest[i - 1]);
        }
    }
    assert forall|i: int| 0 <= i < ops.len() - 1 implies !(#[trigger] ops[i]).ends() by {
        if i > 0 {
            assert(ops[i] == rest[i - 1]);
        }
    }
}

proof fn lemma_suffix_ok(v: int, k: nat, rest: Seq<Op>, n: int)
    requires
        ops_ok(rest, n),
    ensures
        ops_ok(suffix_ops(v, k, rest), n),
        ends_as(suffix_ops(v, k, rest), rest),
    decreases k,
{
    if k > 0 {
        let half = pow2((k - 1) as nat) as int;
        if v >= half {
            let more = suffix_ops(v - half, (k - 1) as nat, rest);
            lemma_suffix_ok(v - half, (k - 1) as nat, rest, n);
            lemma_ahead_ok(Op::Bypass(1), more, n);
        } else {
            let more = suffix_ops(v, (k - 1) as nat, rest);
            lemma_suffix_ok(v, (k - 1) as nat, rest, n);
            lemma_ahead_ok(Op::Bypass(0), more, n);
        }
    }
}

proof fn lemma_golomb_ok(v: int, k: nat, rest: Seq<Op>, n: int)
    requires
        ops_ok(rest, n),
    ensures
        ops_ok(golomb_ops(v, k, rest), n),
        ends_as(golomb_ops(v, k, rest), rest),
    decreases v,
{
    lemma_pow2_pos(k);
    if v >= pow2(k) {
        lemma_golomb_ok(v - pow2(k), k + 1, rest, n);
        lemma_ahead_ok(Op::Bypass(1), golomb_ops(v - pow2(k), k + 1, rest), n);
    } else {
        lemma_suffix_ok(v, k, rest, n);
        lemma_ahead_ok(Op::Bypass(0), suffix_ops(v, k, rest), n);
    }
}

proof fn lemma_tail_ok(k: int, prefix: int, m1: int, rest: Seq<Op>, n: int)
    requires
        0 <= k < n,
        ops_ok(rest, n),
    ensures
        ops_ok(tail_ops(k, prefix, m1, rest), n),
        ends_as(tail_ops(k, prefix, m1, rest), rest),
    decreases 14 - prefix,
{
    if prefix >= 14 {
        lemma_golomb_ok(m1 - 14, 0, rest, n);
    } else if prefix == m1 {
        lemma_ahead_ok(Op::Decision(k, 0), rest, n);
    } else {
        lemma_tail_ok(k, prefix + 1, m1, rest, n);
        lemma_ahead_ok(Op::Decision(k, 1), tail_ops(k, prefix + 1, m1, rest), n);
    }
}

proof fn lemma_levels_ok(
    x: Seq<i32>,
    pos: int,
    eq1: int,
    gt1: int,
    cap: int,
    base: int,
    rest: Seq<Op>,
    n: int,
)
    requires
        0 <= eq1,
        0 <= gt1,
        0 <= cap <= 4,
        0 <= base,
        base + 10 <= n,
        ops_ok(rest, n),
    ensures
        ops_ok(levels_ops(x, pos, eq1, gt1, cap, base, rest), n),
        ends_as(levels_ops(x, pos, eq1, gt1, cap, base, rest), rest),
    decreases pos,
{
    if pos > 0 {
        let v = x[pos - 1];
        if v == 0 {
            lemma_levels_ok(x, pos - 1, eq1, gt1, cap, base, rest, n);
        } else {
            let one = magnitude(v) == 1;
            let sign = if v < 0 {
                1u32
            } else {
                0u32
            };
            let p = if one {
                eq1 + 1
            } else {
                eq1
            };
            let q = if one {
                gt1
            } else {
                gt1 + 1
            };
            let more = levels_ops(x, pos - 1, p, q, cap, base, rest);
            lemma_levels_ok(x, pos - 1, p, q, cap, base, rest, n);
            let signed = ahead(Op::Bypass(sign), more);
            lemma_ahead_ok(Op::Bypass(sign), more, n);
            let k = base + first_ctx(eq1, gt1);
            let m1 = magnitude(v) - 1;
            if m1 == 0 {
                lemma_ahead_ok(Op::Decision(k, 0), signed, n);
            } else {
                let t = base + tail_ctx(gt1, cap);
                lemma_tail_ok(t, 1, m1, signed, n);
                lemma_ahead_ok(Op::Decision(k, 1), tail_ops(t, 1, m1, signed), n);
            }
        }
    }
}

proof fn lemma_map_ok(
    x: Seq<i32>,
    i: int,
    n: int,
    map: Seq<u8>,
    last_map: Seq<u8>,
    base: int,
    rest: Seq<Op>,
    len: int,
)
    requires
        0 <= i,
        forall|j: int| 0 <= j < x.len() - 1 ==> (#[trigger] map[j]) < len,
        forall|j: int| 0 <= j < x.len() - 1 ==> base + (#[trigger] last_map[j]) < len,
        0 <= base,
        ops_ok(rest, len),
    ensures
        ops_ok(map_ops(x, i, n, map, last_map, base, rest), len),
        ends_as(map_ops(x, i, n, map, last_map, base, rest), rest),
    decreases x.len() - i,
{
    if i < x.len() - 1 {
        let a = map[i] as int;
        let z = base + last_map[i];
        let more = map_ops(x, i + 1, n, map, last_map, base, rest);
        lemma_map_ok(x, i + 1, n, map, last_map, base, rest, len);
        if x[i] == 0 {
            lemma_ahead_ok(Op::Decision(a, 0), more, len);
        } else if i == n - 1 {
            lemma_ahead_ok(Op::Decision(z, 1), rest, len);
            lemma_ahead_ok(Op::Decision(a, 1), ahead(Op::Decision(z, 1), rest), len);
        } else {
            lemma_ahead_ok(Op::Decision(z, 0), more, len);
            lemma_ahead_ok(Op::Decision(a, 1), ahead(Op::Decision(z, 0), more), len);
        }
    }
}

/// The bin that ends a slice.
pub open spec fn slice_end() -> Seq<Op> {
    seq![Op::Terminate(1)]
}

/// Any block with a coefficient can be coded, with the end of the slice behind it.
/// Decoding the code gives the block back, and then the bin that ends the slice.
pub proof fn law_coded_block_comes_back(
    c: CoeffBank,
    x: Seq<i32>,
    map: Seq<u8>,
    last_map: Seq<u8>,
    cap: int,
)
    requires
        block_fits(x, c, map, last_map, cap),
        exists|i: int| 0 <= i < x.len() && x[i] != 0,
    ensures
        ({
            let ops = block_ops(x, c, map, last_map, cap, slice_end());
            let e = Engine::start(encoded(joined(c), ops));
            let (f, d, got) = residual_block(e, c, x.len() as int, map, last_map, cap);
            got == x && f.terminate().1 == 1
        }),
{
    let rest = slice_end();
    let n = joined(c).len() as int;
    let base = c.sig.len() as int;
    let m = coded_len(x);
    lemma_levels_ok(x, m, 0, 0, cap, base + c.last.len(), rest, n);
    let tail = levels_ops(x, m, 0, 0, cap, base + c.last.len(), rest);
    lemma_map_ok(x, 0, m, map, last_map, base, tail, n);
    let ops = block_ops(x, c, map, last_map, cap, rest);
    assert(bank_ok(joined(c)));
    law_encoded_bins_come_back(joined(c), ops);
    let e = Engine::start(encoded(joined(c), ops));
    law_block_bins(e, c, x, map, last_map, cap, rest);
    let (f, d, got) = residual_block(e, c, x.len() as int, map, last_map, cap);
    assert(rest[0] == Op::Terminate(1));
    assert(decodes(f, joined(d), rest, 0));
}

} // verus!

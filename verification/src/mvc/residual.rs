//! Residual block decoding for CABAC (H.264 sections 7.3.5.3.3 and
//! 9.3.3.1.1.9): the significance map, the last-coefficient flag, and the
//! run-adaptive absolute level and sign.

use crate::mvc::cabac::{bank_ok, CabacEngine, CtxState, Engine};
use vstd::prelude::*;

verus! {

/// Context models for one coefficient-block category. `sig` and `last` are
/// indexed through a position-to-context map; `level` holds five contexts for
/// the first bin of a level and five for the bins after it.
pub struct CoeffContexts {
    pub sig: Vec<CtxState>,
    pub last: Vec<CtxState>,
    pub level: [CtxState; 10],
}

/// The contexts of one category as sequences.
pub struct CoeffBank {
    pub sig: Seq<CtxState>,
    pub last: Seq<CtxState>,
    pub level: Seq<CtxState>,
}

impl CoeffBank {
    /// Every context is in range.
    pub open spec fn ok(self) -> bool {
        bank_ok(self.sig) && bank_ok(self.last) && bank_ok(self.level) && self.level.len() == 10
    }
}

impl View for CoeffContexts {
    type V = CoeffBank;

    open spec fn view(&self) -> CoeffBank {
        CoeffBank { sig: self.sig@, last: self.last@, level: self.level@ }
    }
}

/// Position-to-context map of the 4x4 categories, where the context increment
/// is the scan position.
pub const POS2CTX_IDENTITY_4X4: [u8; 16] = [
    0, 1, 2, 3, 4, 5, 6, 7, 8, 9, 10, 11, 12, 13, 14, 15,
];

/// Fixed-capacity buffer of coefficients in scan order. It holds `len`
/// coefficients, zero where none was coded.
pub struct Coeffs {
    data: [i32; 64],
    len: usize,
}

impl View for Coeffs {
    type V = Seq<i32>;

    closed spec fn view(&self) -> Seq<i32> {
        self.data@.subrange(0, self.len as int)
    }
}

impl Coeffs {
    #[verifier::type_invariant]
    spec fn inv(self) -> bool {
        self.len <= 64
    }

    /// The coefficients in scan order.
    pub fn to_vec(&self) -> (v: Vec<i32>)
        ensures
            v@ == self@,
    {
        proof {
            use_type_invariant(self);
        }
        let mut v: Vec<i32> = Vec::new();
        for i in 0..self.len
            invariant
                self.len <= 64,
                v@ == self.data@.subrange(0, i as int),
        {
            v.push(self.data[i]);
            assert(v@ =~= self.data@.subrange(0, i + 1));
        }
        v
    }

    /// How many coefficients there are.
    pub fn len(&self) -> (n: usize)
        ensures
            n == self@.len(),
    {
        proof {
            use_type_invariant(self);
        }
        self.len
    }

    /// The coefficient at scan position `i`.
    pub fn at(&self, i: usize) -> (v: i32)
        requires
            i < self@.len(),
        ensures
            v == self@[i as int],
    {
        proof {
            use_type_invariant(self);
        }
        self.data[i]
    }
}

/// The significance map of a block while it is decoded: the engine, the two
/// flag banks, and which scan positions hold a coefficient. `n` is one more
/// than the last such position once the map is complete.
pub struct SigMap {
    pub e: Engine,
    pub sig: Seq<CtxState>,
    pub last: Seq<CtxState>,
    pub coded: Seq<bool>,
    pub n: int,
}

/// The map from scan position `i` on. The final position is significant when
/// no earlier one was marked as the last.
pub open spec fn sig_map(s: SigMap, i: int, max: int, map: Seq<u8>, last_map: Seq<u8>) -> SigMap
    decreases max - i,
{
    if i >= max - 1 {
        SigMap { coded: s.coded.update(max - 1, true), n: max, ..s }
    } else {
        let (e1, c1, b1) = s.e.decision(s.sig[map[i] as int]);
        let sig = s.sig.update(map[i] as int, c1);
        if b1 == 1 {
            let (e2, c2, b2) = e1.decision(s.last[last_map[i] as int]);
            let t = SigMap {
                e: e2,
                sig,
                last: s.last.update(last_map[i] as int, c2),
                coded: s.coded.update(i, true),
                n: if b2 == 1 {
                    i + 1
                } else {
                    s.n
                },
            };
            if b2 == 1 {
                t
            } else {
                sig_map(t, i + 1, max, map, last_map)
            }
        } else {
            sig_map(SigMap { e: e1, sig, ..s }, i + 1, max, map, last_map)
        }
    }
}

/// The bins of a level after the first: ones on context `i` up to a prefix of
/// 14, then an Exp-Golomb suffix.
pub open spec fn level_tail(e: Engine, c: Seq<CtxState>, i: int, prefix: u32) -> (
    Engine,
    Seq<CtxState>,
    u32,
)
    decreases 14 - prefix,
{
    if prefix >= 14 {
        let (e1, v) = e.golomb(0);
        (e1, c, 14u32.wrapping_add(v))
    } else {
        let (e1, c1, b) = e.decision(c[i]);
        if b == 0 {
            (e1, c.update(i, c1), prefix)
        } else {
            level_tail(e1, c.update(i, c1), i, (prefix + 1) as u32)
        }
    }
}

/// coeff_abs_level_minus1 after `eq1` levels of magnitude 1 and `gt1` greater
/// ones in this block.
pub open spec fn abs_level_minus1(e: Engine, c: Seq<CtxState>, eq1: int, gt1: int, cap: int) -> (
    Engine,
    Seq<CtxState>,
    u32,
) {
    let first = if gt1 != 0 {
        0
    } else if 1 + eq1 > 4 {
        4
    } else {
        1 + eq1
    };
    let rest = 5 + if gt1 > cap {
        cap
    } else {
        gt1
    };
    let (e1, c1, b) = e.decision(c[first]);
    if b == 0 {
        (e1, c.update(first, c1), 0)
    } else {
        level_tail(e1, c.update(first, c1), rest, 1)
    }
}

/// The levels of a block while they are decoded, from the last scan position
/// down.
pub struct Levels {
    pub e: Engine,
    pub c: Seq<CtxState>,
    pub coeffs: Seq<i32>,
    pub eq1: int,
    pub gt1: int,
}

/// A magnitude with its sign bin.
pub open spec fn signed_level(abs_level: u32, sign: u32) -> i32 {
    if sign == 1 {
        0i32.wrapping_sub(abs_level as i32)
    } else {
        abs_level as i32
    }
}

/// One level at scan position `pos`.
pub open spec fn one_level(s: Levels, pos: int, cap: int) -> Levels {
    let (e1, c1, m1) = abs_level_minus1(s.e, s.c, s.eq1, s.gt1, cap);
    let abs_level = m1.wrapping_add(1);
    let (e2, sign) = e1.bypass();
    Levels {
        e: e2,
        c: c1,
        coeffs: s.coeffs.update(pos, signed_level(abs_level, sign)),
        eq1: if abs_level == 1 {
            s.eq1 + 1
        } else {
            s.eq1
        },
        gt1: if abs_level == 1 {
            s.gt1
        } else {
            s.gt1 + 1
        },
    }
}

/// The levels of the scan positions below `pos`.
pub open spec fn levels(s: Levels, coded: Seq<bool>, pos: int, cap: int) -> Levels
    decreases pos,
{
    if pos <= 0 {
        s
    } else if coded[pos - 1] {
        levels(one_level(s, pos - 1, cap), coded, pos - 1, cap)
    } else {
        levels(s, coded, pos - 1, cap)
    }
}

/// A whole residual block of `max` coefficients: the engine and the contexts
/// after it, and the coefficients in scan order.
pub open spec fn residual_block(
    e: Engine,
    c: CoeffBank,
    max: int,
    map: Seq<u8>,
    last_map: Seq<u8>,
    cap: int,
) -> (Engine, CoeffBank, Seq<i32>) {
    let m = sig_map(
        SigMap { e, sig: c.sig, last: c.last, coded: Seq::new(64, |i: int| false), n: max },
        0,
        max,
        map,
        last_map,
    );
    let l = levels(
        Levels { e: m.e, c: c.level, coeffs: Seq::new(64, |i: int| 0i32), eq1: 0, gt1: 0 },
        m.coded,
        m.n,
        cap,
    );
    (l.e, CoeffBank { sig: m.sig, last: m.last, level: l.c }, l.coeffs.subrange(0, max))
}

/// Decode one residual block of up to `max_num_coeff` coefficients, in scan
/// order. Called only when the block is known to have coefficients.
/// `pos2ctx_map` and `pos2ctx_last` give each scan position its context;
/// `cat_gt1_cap` limits the context of the bins after the first.
pub fn decode_residual_block(
    e: &mut CabacEngine,
    ctx: &mut CoeffContexts,
    max_num_coeff: usize,
    pos2ctx_map: &[u8],
    pos2ctx_last: &[u8],
    cat_gt1_cap: u32,
) -> (r: Coeffs)
    requires
        old(e)@.awake(),
        old(ctx)@.ok(),
        1 <= max_num_coeff <= 64,
        max_num_coeff <= pos2ctx_map@.len() + 1,
        max_num_coeff <= pos2ctx_last@.len() + 1,
        forall|i: int|
            0 <= i < max_num_coeff - 1 ==> (#[trigger] pos2ctx_map@[i]) < old(ctx).sig@.len(),
        forall|i: int|
            0 <= i < max_num_coeff - 1 ==> (#[trigger] pos2ctx_last@[i]) < old(ctx).last@.len(),
        cat_gt1_cap <= 4,
    ensures
        (final(e)@, final(ctx)@, r@) == residual_block(
            old(e)@,
            old(ctx)@,
            max_num_coeff as int,
            pos2ctx_map@,
            pos2ctx_last@,
            cat_gt1_cap as int,
        ),
        r@.len() == max_num_coeff,
        final(ctx)@.ok(),
        final(ctx).sig@.len() == old(ctx).sig@.len(),
        final(ctx).last@.len() == old(ctx).last@.len(),
        final(e)@.live(),
{
    let ghost max = max_num_coeff as int;
    let ghost map = pos2ctx_map@;
    let ghost last_map = pos2ctx_last@;
    let ghost level0 = ctx.level@;
    let mut coded: [bool; 64] = [false; 64];
    let mut num_coeff: usize = max_num_coeff;
    let ghost whole = sig_map(
        SigMap { e: e@, sig: ctx.sig@, last: ctx.last@, coded: Seq::new(64, |i: int| false), n: max },
        0,
        max,
        map,
        last_map,
    );
    assert(coded@ =~= Seq::new(64, |i: int| false));
    let mut i: usize = 0;
    while i < max_num_coeff - 1
        invariant_except_break
            whole == sig_map(
                SigMap { e: e@, sig: ctx.sig@, last: ctx.last@, coded: coded@, n: max },
                i as int,
                max,
                map,
                last_map,
            ),
            num_coeff == max_num_coeff,
        invariant
            1 <= max_num_coeff <= 64,
            max == max_num_coeff,
            map == pos2ctx_map@,
            last_map == pos2ctx_last@,
            max_num_coeff <= map.len() + 1,
            max_num_coeff <= last_map.len() + 1,
            forall|j: int| 0 <= j < max - 1 ==> (#[trigger] map[j]) < ctx.sig@.len(),
            forall|j: int| 0 <= j < max - 1 ==> (#[trigger] last_map[j]) < ctx.last@.len(),
            ctx.sig@.len() == old(ctx).sig@.len(),
            ctx.last@.len() == old(ctx).last@.len(),
            ctx.level@ == level0,
            ctx@.ok(),
            i <= max_num_coeff - 1,
            e@.awake(),
        ensures
            1 <= num_coeff <= max_num_coeff,
            whole == (SigMap {
                e: e@,
                sig: ctx.sig@,
                last: ctx.last@,
                coded: coded@.update(num_coeff - 1, true),
                n: num_coeff as int,
            }),
        decreases max_num_coeff - i,
    {
        if e.decode_decision(&mut ctx.sig[pos2ctx_map[i] as usize]) == 1 {
            coded[i] = true;
            if e.decode_decision(&mut ctx.last[pos2ctx_last[i] as usize]) == 1 {
                num_coeff = i + 1;
                assert(coded@.update(i as int, true) =~= coded@);
                break;
            }
        }
        i = i + 1;
    }
    coded[num_coeff - 1] = true;

    // Levels come in reverse scan order. The context of the first bin depends
    // on how many levels of magnitude 1 were seen so far; that of the others
    // on how many greater ones.
    let ghost cap = cat_gt1_cap as int;
    let mut coeffs: [i32; 64] = [0i32; 64];
    assert(coeffs@ =~= Seq::new(64, |i: int| 0i32));
    let ghost all = levels(
        Levels { e: e@, c: ctx.level@, coeffs: coeffs@, eq1: 0, gt1: 0 },
        coded@,
        num_coeff as int,
        cap,
    );
    let mut num_eq1: u32 = 0;
    let mut num_gt1: u32 = 0;
    let mut pos: usize = num_coeff;
    while pos > 0
        invariant
            pos <= num_coeff <= 64,
            1 <= num_coeff,
            coded@[num_coeff - 1],
            cap == cat_gt1_cap <= 4,
            num_eq1 + num_gt1 <= num_coeff - pos,
            ctx.sig@ == whole.sig,
            ctx.last@ == whole.last,
            ctx@.ok(),
            e@.awake(),
            pos < num_coeff ==> e@.live(),
            all == levels(
                Levels {
                    e: e@,
                    c: ctx.level@,
                    coeffs: coeffs@,
                    eq1: num_eq1 as int,
                    gt1: num_gt1 as int,
                },
                coded@,
                pos as int,
                cap,
            ),
        decreases pos,
    {
        pos = pos - 1;
        if coded[pos] {
            let m1: u32 = decode_abs_level_minus1(e, &mut ctx.level, num_eq1, num_gt1, cat_gt1_cap);
            let abs_level: u32 = m1.wrapping_add(1);
            if abs_level == 1 {
                num_eq1 = num_eq1 + 1;
            } else {
                num_gt1 = num_gt1 + 1;
            }
            let sign: u32 = e.decode_bypass();
            coeffs[pos] = if sign == 1 {
                0i32.wrapping_sub(abs_level as i32)
            } else {
                abs_level as i32
            };
        }
    }
    Coeffs { data: coeffs, len: max_num_coeff }
}

/// coeff_abs_level_minus1: a truncated unary prefix over the level contexts
/// and, when it saturates at 14, an Exp-Golomb suffix.
fn decode_abs_level_minus1(
    e: &mut CabacEngine,
    level: &mut [CtxState; 10],
    num_eq1: u32,
    num_gt1: u32,
    cat_gt1_cap: u32,
) -> (v: u32)
    requires
        old(e)@.awake(),
        bank_ok(old(level)@),
        cat_gt1_cap <= 4,
        num_eq1 <= 64,
    ensures
        (final(e)@, final(level)@, v) == abs_level_minus1(
            old(e)@,
            old(level)@,
            num_eq1 as int,
            num_gt1 as int,
            cat_gt1_cap as int,
        ),
        bank_ok(final(level)@),
        final(e)@.live(),
{
    let ctx0: usize = if num_gt1 != 0 {
        0
    } else if 1 + num_eq1 > 4 {
        4
    } else {
        (1 + num_eq1) as usize
    };
    let ctx1: usize = 5 + (if num_gt1 > cat_gt1_cap {
        cat_gt1_cap
    } else {
        num_gt1
    }) as usize;
    if e.decode_decision(&mut level[ctx0]) == 0 {
        return 0;
    }
    let mut prefix: u32 = 1;
    let ghost whole = level_tail(e@, level@, ctx1 as int, 1);
    while prefix < 14
        invariant
            prefix <= 14,
            ctx1 < 10,
            e@.live(),
            bank_ok(level@),
            whole == level_tail(e@, level@, ctx1 as int, prefix),
            whole == abs_level_minus1(
                old(e)@,
                old(level)@,
                num_eq1 as int,
                num_gt1 as int,
                cat_gt1_cap as int,
            ),
        decreases 14 - prefix,
    {
        if e.decode_decision(&mut level[ctx1]) == 0 {
            return prefix;
        }
        prefix = prefix + 1;
    }
    let v: u32 = e.decode_exp_golomb_bypass(0);
    14u32.wrapping_add(v)
}

} // verus!

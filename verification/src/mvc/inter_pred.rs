//! The samples of inter blocks (H.264 section 8.4.2): motion-compensated
//! prediction from one or two references, with default, implicit or explicit
//! weights, plus the residual.

use crate::mvc::arith::{clip, clip1};
use crate::mvc::mc::{
    bordered, chroma_held, chroma_pred, law_whole_planes_hold_every_block, luma_held, luma_pred,
    mc_chroma, mc_luma, Plane as RefPlane,
};
use crate::mvc::mb_residual::{shows16, MbResidual, Residual};
use crate::mvc::recon::{sample_of, Frame, Pic, Picture, Plane};
use crate::mvc::slice_header::{PredWeights, RefWeight, WeightTable};
use crate::mvc::transform::{shows8, Block};
use vstd::arithmetic::power2::pow2;
use vstd::prelude::*;

verus! {

/// A prediction from one reference, weighted by (weight, offset) with a
/// denominator of 2 to the `denom` modulo 32.
pub open spec fn weighted_one(s: int, w: (i32, i32), denom: u32) -> int {
    let d = denom as nat % 32;
    clip(
        0,
        255,
        if d == 0 {
            s * w.0 + w.1
        } else {
            (s * w.0 + pow2((d - 1) as nat)) / (pow2(d) as int) + w.1
        },
    )
}

/// A prediction from two references, each weighted.
pub open spec fn weighted_two(a: int, b: int, w0: (i32, i32), w1: (i32, i32), denom: u32) -> int {
    let d = denom as nat % 32;
    clip(
        0,
        255,
        (a * w0.0 + b * w1.0 + pow2(d)) / (pow2(d + 1) as int) + (w0.1 + w1.1 + 1) / 2,
    )
}

/// How the predictions of one component join.
#[derive(Clone, Copy)]
pub struct Blend {
    /// The lists in use.
    pub use0: bool,
    pub use1: bool,
    /// Explicit weights of both lists and the denominator.
    pub weights: Option<((i32, i32), (i32, i32), u32)>,
    /// The weights of a default prediction from both lists, in 1/64.
    pub mix: (i32, i32),
}

/// The joined prediction of two samples.
#[verifier::opaque]
pub open spec fn blended(b: Blend, x: int, y: int) -> int {
    match b.weights {
        Some((w0, w1, d)) => if b.use0 && b.use1 {
            weighted_two(x, y, w0, w1, d)
        } else if b.use0 {
            weighted_one(x, w0, d)
        } else if b.use1 {
            weighted_one(y, w1, d)
        } else {
            0
        },
        None => if b.use0 && b.use1 {
            clip(0, 255, (x * b.mix.0 + y * b.mix.1 + 32) / 64)
        } else if b.use0 {
            x
        } else if b.use1 {
            y
        } else {
            0
        },
    }
}

fn power_of_two(d: u32) -> (r: i64)
    requires
        d <= 32,
    ensures
        r == pow2(d as nat),
        1 <= r <= 0x1_0000_0000,
{
    let mut r: i64 = 1;
    proof {
        vstd::arithmetic::power2::lemma2_to64();
    }
    for i in 0..d
        invariant
            d <= 32,
            r == pow2(i as nat),
            1 <= r <= 0x1_0000_0000,
    {
        proof {
            vstd::arithmetic::power2::lemma_pow2_unfold((i + 1) as nat);
            vstd::arithmetic::power2::lemma2_to64();
            if i + 1 < 32 {
                vstd::arithmetic::power2::lemma_pow2_strictly_increases((i + 1) as nat, 32);
            }
        }
        r = 2 * r;
    }
    r
}

fn floor_div(v: i64, p: i64) -> (r: i64)
    requires
        p > 0,
        -0x1000_0000_0000 <= v <= 0x1000_0000_0000,
    ensures
        r == v as int / p as int,
        -0x1000_0000_0001 <= r <= 0x1000_0000_0000,
{
    if v >= 0 {
        proof {
            vstd::arithmetic::div_mod::lemma_div_is_ordered_by_denominator(v as int, 1, p as int);
            vstd::arithmetic::div_mod::lemma_div_pos_is_pos(v as int, p as int);
        }
        v / p
    } else {
        let u: i64 = -v - 1;
        let q: i64 = u / p;
        proof {
            let r = u as int % p as int;
            vstd::arithmetic::div_mod::lemma_fundamental_div_mod(u as int, p as int);
            assert(v == (-q - 1) * p + (p - r - 1)) by (nonlinear_arith)
                requires
                    u == p * q + r,
                    v == -u - 1,
            ;
            vstd::arithmetic::div_mod::lemma_fundamental_div_mod_converse(
                v as int,
                p as int,
                -q - 1,
                p - r - 1,
            );
            vstd::arithmetic::div_mod::lemma_div_is_ordered_by_denominator(u as int, 1, p as int);
            vstd::arithmetic::div_mod::lemma_div_pos_is_pos(u as int, p as int);
        }
        -q - 1
    }
}

fn clip_wide(v: i64) -> (r: i32)
    ensures
        r == clip(0, 255, v as int),
        0 <= r <= 255,
{
    if v < 0 {
        0
    } else if v > 255 {
        255
    } else {
        v as i32
    }
}

proof fn lemma_scaled(s: int, w: int)
    by (nonlinear_arith)
    requires
        0 <= s <= 255,
        -0x8000_0000 <= w <= 0x7fff_ffff,
    ensures
        -255 * 0x8000_0000 <= s * w <= 255 * 0x8000_0000,
{
}

fn weigh_one(s: u8, w: (i32, i32), denom: u32) -> (r: i32)
    ensures
        r == weighted_one(s as int, w, denom),
        0 <= r <= 255,
{
    let d: u32 = denom % 32;
    proof {
        lemma_scaled(s as int, w.0 as int);
    }
    let v: i64 = s as i64 * w.0 as i64;
    if d == 0 {
        clip_wide(v + w.1 as i64)
    } else {
        clip_wide(floor_div(v + power_of_two(d - 1), power_of_two(d)) + w.1 as i64)
    }
}

fn weigh_two(a: u8, b: u8, w0: (i32, i32), w1: (i32, i32), denom: u32) -> (r: i32)
    ensures
        r == weighted_two(a as int, b as int, w0, w1, denom),
        0 <= r <= 255,
{
    let d: u32 = denom % 32;
    proof {
        lemma_scaled(a as int, w0.0 as int);
        lemma_scaled(b as int, w1.0 as int);
    }
    let v: i64 = a as i64 * w0.0 as i64 + b as i64 * w1.0 as i64 + power_of_two(d);
    let o: i64 = w0.1 as i64 + w1.1 as i64 + 1;
    clip_wide(floor_div(v, power_of_two(d + 1)) + floor_div(o, 2))
}

fn blend(b: Blend, x: u8, y: u8) -> (r: i32)
    ensures
        r == blended(b, x as int, y as int),
        0 <= r <= 255,
{
    proof {
        reveal(blended);
    }
    match b.weights {
        Some((w0, w1, d)) => if b.use0 && b.use1 {
            weigh_two(x, y, w0, w1, d)
        } else if b.use0 {
            weigh_one(x, w0, d)
        } else if b.use1 {
            weigh_one(y, w1, d)
        } else {
            0
        },
        None => if b.use0 && b.use1 {
            proof {
                lemma_scaled(x as int, b.mix.0 as int);
                lemma_scaled(y as int, b.mix.1 as int);
            }
            let v: i64 = x as i64 * b.mix.0 as i64 + y as i64 * b.mix.1 as i64 + 32;
            clip_wide(floor_div(v, 64))
        } else if b.use0 {
            x as i32
        } else if b.use1 {
            y as i32
        } else {
            0
        },
    }
}

/// The samples of a block of `w` columns and `h` rows: the joined predictions
/// plus the residual that starts at row `oy` and column `ox`.
pub open spec fn inter_samples(
    w: int,
    h: int,
    b: Blend,
    p0: Seq<u8>,
    p1: Seq<u8>,
    res: Block,
    oy: int,
    ox: int,
) -> Seq<u8> {
    Seq::new(
        (w * h) as nat,
        |k: int|
            sample_of(
                blended(b, p0[k] as int, p1[k] as int) as i32,
                res(oy + k / w, ox + k % w),
            ),
    )
}

fn picked(p: &Vec<u8>, used: bool, k: usize) -> (v: u8)
    requires
        used ==> k < p@.len(),
    ensures
        used ==> v == p@[k as int],
{
    if used {
        p[k]
    } else {
        0
    }
}

fn sum(pred: i32, res: i32) -> (r: u8)
    ensures
        r == sample_of(pred, res),
{
    clip1(pred.wrapping_add(res)) as u8
}

proof fn lemma_unused(b: Blend, x: int, y: int, u: int, v: int)
    requires
        b.use0 ==> x == u,
        b.use1 ==> y == v,
    ensures
        blended(b, x, y) == blended(b, u, v),
{
    reveal(blended);
}

fn merge_luma(
    w: usize,
    h: usize,
    b: Blend,
    p0: &Vec<u8>,
    p1: &Vec<u8>,
    res: &[[i32; 16]; 16],
    oy: usize,
    ox: usize,
    Ghost(q): Ghost<(Seq<u8>, Seq<u8>, Block)>,
) -> (out: Vec<u8>)
    requires
        1 <= w <= 16,
        1 <= h <= 16,
        oy + h <= 16,
        ox + w <= 16,
        b.use0 ==> p0@ == q.0 && q.0.len() == w * h,
        b.use1 ==> p1@ == q.1 && q.1.len() == w * h,
        shows16(*res, q.2),
    ensures
        out@ == inter_samples(w as int, h as int, b, q.0, q.1, q.2, oy as int, ox as int),
{
    let mut out: Vec<u8> = Vec::new();
    assert(w * h <= 256) by (nonlinear_arith)
        requires
            1 <= w <= 16,
            1 <= h <= 16,
    ;
    let n: usize = w * h;
    let ghost want = inter_samples(w as int, h as int, b, q.0, q.1, q.2, oy as int, ox as int);
    for k in 0..n
        invariant
            n == w * h,
            1 <= w <= 16,
            1 <= h <= 16,
            oy + h <= 16,
            ox + w <= 16,
            b.use0 ==> p0@ == q.0 && q.0.len() == w * h,
            b.use1 ==> p1@ == q.1 && q.1.len() == w * h,
            shows16(*res, q.2),
            want == inter_samples(w as int, h as int, b, q.0, q.1, q.2, oy as int, ox as int),
            out@.len() == k,
            forall|j: int| 0 <= j < k ==> #[trigger] out@[j] == want[j],
    {
        proof {
            crate::mvc::arith::lemma_row_of(w as int, h as int, k as int);
        }
        let x: u8 = picked(p0, b.use0, k);
        let y: u8 = picked(p1, b.use1, k);
        proof {
            lemma_unused(b, x as int, y as int, q.0[k as int] as int, q.1[k as int] as int);
        }
        let (j, i): (usize, usize) = (k / w, k % w);
        out.push(sum(blend(b, x, y), res[oy + j][ox + i]));
    }
    assert(out@ =~= want);
    out
}

fn merge_chroma(
    w: usize,
    h: usize,
    b: Blend,
    p0: &Vec<u8>,
    p1: &Vec<u8>,
    res: &[[i32; 8]; 8],
    oy: usize,
    ox: usize,
    Ghost(q): Ghost<(Seq<u8>, Seq<u8>, Block)>,
) -> (out: Vec<u8>)
    requires
        1 <= w <= 8,
        1 <= h <= 8,
        oy + h <= 8,
        ox + w <= 8,
        b.use0 ==> p0@ == q.0 && q.0.len() == w * h,
        b.use1 ==> p1@ == q.1 && q.1.len() == w * h,
        shows8(*res, q.2),
    ensures
        out@ == inter_samples(w as int, h as int, b, q.0, q.1, q.2, oy as int, ox as int),
{
    let mut out: Vec<u8> = Vec::new();
    assert(w * h <= 64) by (nonlinear_arith)
        requires
            1 <= w <= 8,
            1 <= h <= 8,
    ;
    let n: usize = w * h;
    let ghost want = inter_samples(w as int, h as int, b, q.0, q.1, q.2, oy as int, ox as int);
    for k in 0..n
        invariant
            n == w * h,
            1 <= w <= 8,
            1 <= h <= 8,
            oy + h <= 8,
            ox + w <= 8,
            b.use0 ==> p0@ == q.0 && q.0.len() == w * h,
            b.use1 ==> p1@ == q.1 && q.1.len() == w * h,
            shows8(*res, q.2),
            want == inter_samples(w as int, h as int, b, q.0, q.1, q.2, oy as int, ox as int),
            out@.len() == k,
            forall|j: int| 0 <= j < k ==> #[trigger] out@[j] == want[j],
    {
        proof {
            crate::mvc::arith::lemma_row_of(w as int, h as int, k as int);
        }
        let x: u8 = picked(p0, b.use0, k);
        let y: u8 = picked(p1, b.use1, k);
        proof {
            lemma_unused(b, x as int, y as int, q.0[k as int] as int, q.1[k as int] as int);
        }
        let (j, i): (usize, usize) = (k / w, k % w);
        out.push(sum(blend(b, x, y), res[oy + j][ox + i]));
    }
    assert(out@ =~= want);
    out
}

// ---- a block ----

/// An inter block: where it lies in the luma plane, its size, and per list the
/// reference (-1 where the list is not used) and the vector.
#[derive(Clone, Copy)]
pub struct InterBlock {
    pub px: usize,
    pub py: usize,
    pub w: usize,
    pub h: usize,
    pub ref0: i32,
    pub ref1: i32,
    pub mv0: (i32, i32),
    pub mv1: (i32, i32),
}

impl InterBlock {
    /// The block is one of 4 to 16 rows and columns inside a macroblock.
    pub open spec fn ok(self) -> bool {
        &&& 4 <= self.w <= 16
        &&& 4 <= self.h <= 16
        &&& self.w % 4 == 0
        &&& self.h % 4 == 0
        &&& self.px % 4 == 0
        &&& self.py % 4 == 0
        &&& self.px % 16 + self.w <= 16
        &&& self.py % 16 + self.h <= 16
        &&& self.px <= 0x7fff_ffff
        &&& self.py <= 0x7fff_ffff
    }
}

/// The reference pictures of a slice and what joins their predictions. The
/// planes have `fw` columns and `fh` rows, the chroma planes half of that.
pub struct RefEnv {
    pub refs0: Seq<Picture>,
    pub refs1: Seq<Picture>,
    pub fw: int,
    pub fh: int,
    pub weights: Option<WeightTable>,
    pub mix: (i32, i32),
}

/// The weights of a reference: the coded ones, or neutral ones past the table.
pub open spec fn weights_at(l: Seq<RefWeight>, r: int, t: WeightTable) -> RefWeight {
    if 0 <= r < l.len() {
        l[r]
    } else {
        RefWeight {
            luma: (1i32.wrapping_shl(t.luma_denom), 0i32),
            cb: (1i32.wrapping_shl(t.chroma_denom), 0i32),
            cr: (1i32.wrapping_shl(t.chroma_denom), 0i32),
        }
    }
}

/// How the predictions of component `c` (0 luma, 1 Cb, 2 Cr) of a block join.
pub open spec fn blend_of(e: RefEnv, b: InterBlock, c: int) -> Blend {
    Blend {
        use0: b.ref0 >= 0,
        use1: b.ref1 >= 0,
        weights: match e.weights {
            None => None,
            Some(t) => {
                let w0 = weights_at(t.l0, clip(0, i32::MAX as int, b.ref0 as int), t);
                let w1 = weights_at(t.l1, clip(0, i32::MAX as int, b.ref1 as int), t);
                Some(
                    if c == 0 {
                        (w0.luma, w1.luma, t.luma_denom)
                    } else if c == 1 {
                        (w0.cb, w1.cb, t.chroma_denom)
                    } else {
                        (w0.cr, w1.cr, t.chroma_denom)
                    },
                )
            },
        },
        mix: e.mix,
    }
}

/// The luma samples of a block.
#[verifier::opaque]
pub open spec fn luma_block(e: RefEnv, b: InterBlock, res: Block) -> Seq<u8> {
    inter_samples(
        b.w as int,
        b.h as int,
        blend_of(e, b, 0),
        luma_pred(
            bordered(e.refs0[b.ref0 as int].y, e.fw, e.fh),
            b.px as int,
            b.py as int,
            b.mv0.0 as int,
            b.mv0.1 as int,
            b.w as int,
            b.h as int,
        ),
        luma_pred(
            bordered(e.refs1[b.ref1 as int].y, e.fw, e.fh),
            b.px as int,
            b.py as int,
            b.mv1.0 as int,
            b.mv1.1 as int,
            b.w as int,
            b.h as int,
        ),
        res,
        b.py as int % 16,
        b.px as int % 16,
    )
}

/// The samples of a reference's chroma plane `c` (1 Cb, 2 Cr).
pub open spec fn chroma_of(p: Picture, c: int) -> Seq<u8> {
    if c == 1 {
        p.cb
    } else {
        p.cr
    }
}

/// The samples of chroma plane `c` (1 Cb, 2 Cr) of a block.
#[verifier::opaque]
pub open spec fn chroma_block(e: RefEnv, b: InterBlock, c: int, res: Block) -> Seq<u8> {
    inter_samples(
        b.w as int / 2,
        b.h as int / 2,
        blend_of(e, b, c),
        chroma_pred(
            bordered(chroma_of(e.refs0[b.ref0 as int], c), e.fw / 2, e.fh / 2),
            b.px as int / 2,
            b.py as int / 2,
            b.mv0.0 as int,
            b.mv0.1 as int,
            b.w as int / 2,
            b.h as int / 2,
        ),
        chroma_pred(
            bordered(chroma_of(e.refs1[b.ref1 as int], c), e.fw / 2, e.fh / 2),
            b.px as int / 2,
            b.py as int / 2,
            b.mv1.0 as int,
            b.mv1.1 as int,
            b.w as int / 2,
            b.h as int / 2,
        ),
        res,
        b.py as int / 2 % 8,
        b.px as int / 2 % 8,
    )
}

/// A picture with an inter block.
#[verifier::opaque]
pub open spec fn with_block(p: Pic, e: RefEnv, b: InterBlock, res: Residual) -> Pic {
    let (cx, cy, cw, ch) = (
        b.px as int / 2,
        b.py as int / 2,
        b.w as int / 2,
        b.h as int / 2,
    );
    Pic {
        y: p.y.put(b.px as int, b.py as int, b.w as int, b.h as int, luma_block(e, b, res.luma)),
        cb: p.cb.put(cx, cy, cw, ch, chroma_block(e, b, 1, res.cb)),
        cr: p.cr.put(cx, cy, cw, ch, chroma_block(e, b, 2, res.cr)),
        ..p
    }
}

/// The reference pictures of a slice, by list, and what joins their
/// predictions.
pub struct References<'a> {
    pub l0: Vec<&'a Frame>,
    pub l1: Vec<&'a Frame>,
    pub fw: usize,
    pub fh: usize,
    pub mix: (i32, i32),
}

/// The pictures of some frames.
pub open spec fn pictures(l: Seq<&Frame>) -> Seq<Picture> {
    Seq::new(l.len(), |k: int| l[k]@)
}

/// A reference taken as a plane of `fw` columns and `fh` rows has all the samples
/// that a block with vector `mv` reads.
pub open spec fn picture_holds(p: Picture, fw: int, fh: int, b: InterBlock, mv: (i32, i32)) -> bool {
    let (cx, cy, cw, ch) = (
        b.px as int / 2,
        b.py as int / 2,
        b.w as int / 2,
        b.h as int / 2,
    );
    let (mx, my) = (mv.0 as int, mv.1 as int);
    &&& luma_held(
        p.y.len() as int,
        fw,
        fh,
        b.px as int,
        b.py as int,
        mx,
        my,
        b.w as int,
        b.h as int,
    )
    &&& chroma_held(p.cb.len() as int, fw / 2, fh / 2, cx, cy, mx, my, cw, ch)
    &&& chroma_held(p.cr.len() as int, fw / 2, fh / 2, cx, cy, mx, my, cw, ch)
}

/// The references that a block uses have all the samples that it reads.
pub open spec fn block_held(e: RefEnv, b: InterBlock) -> bool {
    &&& b.ref0 >= 0 ==> picture_holds(e.refs0[b.ref0 as int], e.fw, e.fh, b, b.mv0)
    &&& b.ref1 >= 0 ==> picture_holds(e.refs1[b.ref1 as int], e.fw, e.fh, b, b.mv1)
}

impl<'a> References<'a> {
    /// What the references show, with a slice's weights.
    pub open spec fn env(self, weights: Option<PredWeights>) -> RefEnv {
        RefEnv {
            refs0: pictures(self.l0@),
            refs1: pictures(self.l1@),
            fw: self.fw as int,
            fh: self.fh as int,
            weights: match weights {
                Some(w) => Some(w@),
                None => None,
            },
            mix: self.mix,
        }
    }

    /// The planes are not empty, and their positions can be addressed.
    pub open spec fn ok(self) -> bool {
        &&& 2 <= self.fw <= i32::MAX
        &&& 2 <= self.fh <= i32::MAX
    }
}

fn weights_of(l: &Vec<RefWeight>, r: i32, t: &PredWeights) -> (w: RefWeight)
    ensures
        w == weights_at(l@, clip(0, i32::MAX as int, r as int), t@),
{
    let k: usize = if r < 0 {
        0
    } else {
        r as usize
    };
    if k < l.len() {
        l[k]
    } else {
        RefWeight {
            luma: (1i32.wrapping_shl(t.luma_denom), 0),
            cb: (1i32.wrapping_shl(t.chroma_denom), 0),
            cr: (1i32.wrapping_shl(t.chroma_denom), 0),
        }
    }
}

proof fn lemma_half(px: int, w: int)
    requires
        px >= 0,
        4 <= w <= 16,
        w % 4 == 0,
        px % 4 == 0,
        px % 16 + w <= 16,
    ensures
        px / 2 % 8 + w / 2 <= 8,
        2 <= w / 2 <= 8,
        0 <= px / 2 % 8,
{
}

impl<'a> References<'a> {
    fn blend_for(&self, b: &InterBlock, c: usize, weights: &Option<PredWeights>) -> (r: Blend)
        ensures
            r == blend_of(self.env(*weights), *b, c as int),
    {
        let w: Option<((i32, i32), (i32, i32), u32)> = match weights {
            None => None,
            Some(t) => {
                let w0 = weights_of(&t.l0, b.ref0, t);
                let w1 = weights_of(&t.l1, b.ref1, t);
                Some(
                    if c == 0 {
                        (w0.luma, w1.luma, t.luma_denom)
                    } else if c == 1 {
                        (w0.cb, w1.cb, t.chroma_denom)
                    } else {
                        (w0.cr, w1.cr, t.chroma_denom)
                    },
                )
            },
        };
        Blend { use0: b.ref0 >= 0, use1: b.ref1 >= 0, weights: w, mix: self.mix }
    }

    fn picture_has(&self, f: &Frame, b: &InterBlock, mv: (i32, i32)) -> (r: bool)
        requires
            self.ok(),
            b.ok(),
        ensures
            r == picture_holds(f@, self.fw as int, self.fh as int, *b, mv),
    {
        let (w, h): (usize, usize) = (b.w / 2, b.h / 2);
        let (px, py): (i32, i32) = ((b.px / 2) as i32, (b.py / 2) as i32);
        let (fw, fh): (usize, usize) = (self.fw / 2, self.fh / 2);
        let y = RefPlane { data: f.y.as_slice(), w: self.fw, h: self.fh };
        let cb = RefPlane { data: f.cb.as_slice(), w: fw, h: fh };
        let cr = RefPlane { data: f.cr.as_slice(), w: fw, h: fh };
        y.holds_luma(b.px as i32, b.py as i32, mv.0, mv.1, b.w, b.h) && cb.holds_chroma(
            px,
            py,
            mv.0,
            mv.1,
            w,
            h,
        ) && cr.holds_chroma(px, py, mv.0, mv.1, w, h)
    }

    /// Whether the references that a block uses have all the samples that it reads.
    pub fn hold(&self, b: &InterBlock, Ghost(weights): Ghost<Option<PredWeights>>) -> (r: bool)
        requires
            self.ok(),
            b.ok(),
            b.ref0 < self.l0@.len(),
            b.ref1 < self.l1@.len(),
        ensures
            r == block_held(self.env(weights), *b),
    {
        (b.ref0 < 0 || self.picture_has(self.l0[b.ref0 as usize], b, b.mv0)) && (b.ref1 < 0
            || self.picture_has(self.l1[b.ref1 as usize], b, b.mv1))
    }

    fn luma_of(&self, list1: bool, b: &InterBlock) -> (p: Vec<u8>)
        requires
            self.ok(),
            b.ok(),
            b.ref0 < self.l0@.len(),
            b.ref1 < self.l1@.len(),
            block_held(self.env(None), *b),
        ensures
            !list1 && b.ref0 >= 0 ==> p@ == luma_pred(
                bordered(self.l0@[b.ref0 as int]@.y, self.fw as int, self.fh as int),
                b.px as int,
                b.py as int,
                b.mv0.0 as int,
                b.mv0.1 as int,
                b.w as int,
                b.h as int,
            ),
            list1 && b.ref1 >= 0 ==> p@ == luma_pred(
                bordered(self.l1@[b.ref1 as int]@.y, self.fw as int, self.fh as int),
                b.px as int,
                b.py as int,
                b.mv1.0 as int,
                b.mv1.1 as int,
                b.w as int,
                b.h as int,
            ),
    {
        assert(b.w * b.h <= 256) by (nonlinear_arith)
            requires
                b.w <= 16,
                b.h <= 16,
        ;
        if !list1 {
            if b.ref0 < 0 {
                return Vec::new();
            }
            let f: &Frame = self.l0[b.ref0 as usize];
            let plane = RefPlane { data: f.y.as_slice(), w: self.fw, h: self.fh };
            mc_luma(&plane, b.px as i32, b.py as i32, b.mv0.0, b.mv0.1, b.w, b.h)
        } else {
            if b.ref1 < 0 {
                return Vec::new();
            }
            let f: &Frame = self.l1[b.ref1 as usize];
            let plane = RefPlane { data: f.y.as_slice(), w: self.fw, h: self.fh };
            mc_luma(&plane, b.px as i32, b.py as i32, b.mv1.0, b.mv1.1, b.w, b.h)
        }
    }

    fn chroma_of(&self, list1: bool, b: &InterBlock, c: usize) -> (p: Vec<u8>)
        requires
            self.ok(),
            b.ok(),
            b.ref0 < self.l0@.len(),
            b.ref1 < self.l1@.len(),
            block_held(self.env(None), *b),
        ensures
            !list1 && b.ref0 >= 0 ==> p@ == chroma_pred(
                bordered(
                    chroma_of(self.l0@[b.ref0 as int]@, c as int),
                    self.fw as int / 2,
                    self.fh as int / 2,
                ),
                b.px as int / 2,
                b.py as int / 2,
                b.mv0.0 as int,
                b.mv0.1 as int,
                b.w as int / 2,
                b.h as int / 2,
            ),
            list1 && b.ref1 >= 0 ==> p@ == chroma_pred(
                bordered(
                    chroma_of(self.l1@[b.ref1 as int]@, c as int),
                    self.fw as int / 2,
                    self.fh as int / 2,
                ),
                b.px as int / 2,
                b.py as int / 2,
                b.mv1.0 as int,
                b.mv1.1 as int,
                b.w as int / 2,
                b.h as int / 2,
            ),
    {
        let (w, h): (usize, usize) = (b.w / 2, b.h / 2);
        let (fw, fh): (usize, usize) = (self.fw / 2, self.fh / 2);
        assert(w * h <= 64) by (nonlinear_arith)
            requires
                w <= 8,
                h <= 8,
        ;
        let (px, py): (i32, i32) = ((b.px / 2) as i32, (b.py / 2) as i32);
        if !list1 {
            if b.ref0 < 0 {
                return Vec::new();
            }
            let f: &Frame = self.l0[b.ref0 as usize];
            let data: &[u8] = if c == 1 {
                f.cb.as_slice()
            } else {
                f.cr.as_slice()
            };
            let plane = RefPlane { data, w: fw, h: fh };
            mc_chroma(&plane, px, py, b.mv0.0, b.mv0.1, w, h)
        } else {
            if b.ref1 < 0 {
                return Vec::new();
            }
            let f: &Frame = self.l1[b.ref1 as usize];
            let data: &[u8] = if c == 1 {
                f.cb.as_slice()
            } else {
                f.cr.as_slice()
            };
            let plane = RefPlane { data, w: fw, h: fh };
            mc_chroma(&plane, px, py, b.mv1.0, b.mv1.1, w, h)
        }
    }

    fn luma_samples(&self, b: &InterBlock, weights: &Option<PredWeights>, res: &[[i32; 16]; 16], Ghost(blk): Ghost<Block>) -> (out: Vec<u8>)
        requires
            self.ok(),
            b.ok(),
            b.ref0 < self.l0@.len(),
            b.ref1 < self.l1@.len(),
            block_held(self.env(*weights), *b),
            shows16(*res, blk),
        ensures
            out@ == luma_block(self.env(*weights), *b, blk),
    {
        proof {
            reveal(luma_block);
        }
        let ghost e = self.env(*weights);
        let bl = self.blend_for(b, 0, weights);
        let p0 = self.luma_of(false, b);
        let p1 = self.luma_of(true, b);
        merge_luma(
            b.w,
            b.h,
            bl,
            &p0,
            &p1,
            res,
            b.py % 16,
            b.px % 16,
            Ghost(
                (
                    luma_pred(
                        bordered(e.refs0[b.ref0 as int].y, e.fw, e.fh),
                        b.px as int,
                        b.py as int,
                        b.mv0.0 as int,
                        b.mv0.1 as int,
                        b.w as int,
                        b.h as int,
                    ),
                    luma_pred(
                        bordered(e.refs1[b.ref1 as int].y, e.fw, e.fh),
                        b.px as int,
                        b.py as int,
                        b.mv1.0 as int,
                        b.mv1.1 as int,
                        b.w as int,
                        b.h as int,
                    ),
                    blk,
                ),
            ),
        )
    }

    fn chroma_samples(&self, b: &InterBlock, c: usize, weights: &Option<PredWeights>, res: &[[i32; 8]; 8], Ghost(blk): Ghost<Block>) -> (out: Vec<u8>)
        requires
            self.ok(),
            b.ok(),
            1 <= c <= 2,
            b.ref0 < self.l0@.len(),
            b.ref1 < self.l1@.len(),
            block_held(self.env(*weights), *b),
            shows8(*res, blk),
        ensures
            out@ == chroma_block(self.env(*weights), *b, c as int, blk),
    {
        proof {
            reveal(chroma_block);
        }
        let ghost e = self.env(*weights);
        let bl = self.blend_for(b, c, weights);
        let p0 = self.chroma_of(false, b, c);
        let p1 = self.chroma_of(true, b, c);
        let (w, h): (usize, usize) = (b.w / 2, b.h / 2);
        proof {
            lemma_half(b.px as int, b.w as int);
            lemma_half(b.py as int, b.h as int);
            assert(0 <= w * h) by (nonlinear_arith)
                requires
                    0 <= w,
                    0 <= h,
            ;
        }
        merge_chroma(
            w,
            h,
            bl,
            &p0,
            &p1,
            res,
            b.py / 2 % 8,
            b.px / 2 % 8,
            Ghost(
                (
                    chroma_pred(
                        bordered(
                            chroma_of(e.refs0[b.ref0 as int], c as int),
                            e.fw / 2,
                            e.fh / 2,
                        ),
                        b.px as int / 2,
                        b.py as int / 2,
                        b.mv0.0 as int,
                        b.mv0.1 as int,
                        b.w as int / 2,
                        b.h as int / 2,
                    ),
                    chroma_pred(
                        bordered(
                            chroma_of(e.refs1[b.ref1 as int], c as int),
                            e.fw / 2,
                            e.fh / 2,
                        ),
                        b.px as int / 2,
                        b.py as int / 2,
                        b.mv1.0 as int,
                        b.mv1.1 as int,
                        b.w as int / 2,
                        b.h as int / 2,
                    ),
                    blk,
                ),
            ),
        )
    }

    /// Reconstruct an inter block into the planes of a picture.
    pub fn reconstruct(
        &self,
        y: &mut Plane,
        cb: &mut Plane,
        cr: &mut Plane,
        b: &InterBlock,
        weights: &Option<PredWeights>,
        res: &MbResidual,
        Ghost(blk): Ghost<Residual>,
        Ghost(p): Ghost<Pic>,
    )
        requires
            self.ok(),
            b.ok(),
            b.ref0 < self.l0@.len(),
            b.ref1 < self.l1@.len(),
            block_held(self.env(*weights), *b),
            res.shows(blk),
            p.y == old(y)@ && p.cb == old(cb)@ && p.cr == old(cr)@,
            p.y.ok() && p.y.covers(b.px as int, b.py as int, b.w as int, b.h as int),
            p.cb.ok() && p.cb.covers(
                b.px as int / 2,
                b.py as int / 2,
                b.w as int / 2,
                b.h as int / 2,
            ),
            p.cr.ok() && p.cr.shape() == p.cb.shape(),
        ensures
            ({
                let q = with_block(p, self.env(*weights), *b, blk);
                &&& final(y)@ == q.y
                &&& final(cb)@ == q.cb
                &&& final(cr)@ == q.cr
                &&& q.modes == p.modes
                &&& q.y.ok() && q.y.shape() == p.y.shape()
                &&& q.cb.ok() && q.cb.shape() == p.cb.shape()
                &&& q.cr.ok() && q.cr.shape() == p.cr.shape()
            }),
    {
        proof {
            reveal(with_block);
            reveal(luma_block);
            reveal(chroma_block);
        }
        let (cx, cy, cw, ch): (usize, usize, usize, usize) = (b.px / 2, b.py / 2, b.w / 2, b.h / 2);
        proof {
            assert(0 <= b.w * b.h && 0 <= cw * ch) by (nonlinear_arith)
                requires
                    0 <= b.w,
                    0 <= b.h,
                    0 <= cw,
                    0 <= ch,
            ;
        }
        let luma = self.luma_samples(b, weights, &res.luma, Ghost(blk.luma));
        y.put(b.px, b.py, b.w, b.h, luma.as_slice());
        let c1 = self.chroma_samples(b, 1, weights, &res.cb, Ghost(blk.cb));
        cb.put(cx, cy, cw, ch, c1.as_slice());
        let c2 = self.chroma_samples(b, 2, weights, &res.cr, Ghost(blk.cr));
        cr.put(cx, cy, cw, ch, c2.as_slice());
    }
}

// ---- laws ----

/// A reference with a sample for every position of its planes has all that any
/// block reads, wherever its vector leads.
pub proof fn law_whole_references_hold_every_block(
    p: Picture,
    fw: int,
    fh: int,
    b: InterBlock,
    mv: (i32, i32),
)
    requires
        fw >= 2,
        fh >= 2,
        p.y.len() >= fw * fh,
        p.cb.len() >= (fw / 2) * (fh / 2),
        p.cr.len() >= (fw / 2) * (fh / 2),
    ensures
        picture_holds(p, fw, fh, b, mv),
{
    let (cx, cy, cw, ch) = (
        b.px as int / 2,
        b.py as int / 2,
        b.w as int / 2,
        b.h as int / 2,
    );
    let (mx, my) = (mv.0 as int, mv.1 as int);
    law_whole_planes_hold_every_block(
        p.y.len() as int,
        fw,
        fh,
        b.px as int,
        b.py as int,
        mx,
        my,
        b.w as int,
        b.h as int,
    );
    law_whole_planes_hold_every_block(
        p.cb.len() as int,
        fw / 2,
        fh / 2,
        cx,
        cy,
        mx,
        my,
        cw,
        ch,
    );
    law_whole_planes_hold_every_block(
        p.cr.len() as int,
        fw / 2,
        fh / 2,
        cx,
        cy,
        mx,
        my,
        cw,
        ch,
    );
}

/// Equal default weights give the rounded mean of both predictions.
pub proof fn law_equal_mix_is_mean(b: Blend, x: int, y: int)
    requires
        b.weights is None,
        b.use0,
        b.use1,
        b.mix == (32i32, 32i32),
        0 <= x <= 255,
        0 <= y <= 255,
    ensures
        blended(b, x, y) == (x + y + 1) / 2,
{
    reveal(blended);
}

/// Weights of one and no offsets change nothing: a single prediction stays as it
/// is, and two join to their rounded mean.
pub proof fn law_unit_weights(x: int, y: int, d: u32)
    requires
        d <= 7,
        0 <= x <= 255,
        0 <= y <= 255,
    ensures
        weighted_one(x, (pow2(d as nat) as i32, 0), d) == x,
        weighted_two(x, y, (pow2(d as nat) as i32, 0), (pow2(d as nat) as i32, 0), d) == (x + y + 1)
            / 2,
{
    vstd::arithmetic::power2::lemma2_to64();
    if d > 0 {
        vstd::arithmetic::power2::lemma_pow2_unfold(d as nat);
    }
    vstd::arithmetic::power2::lemma_pow2_unfold((d + 1) as nat);
    if d < 7 {
        vstd::arithmetic::power2::lemma_pow2_strictly_increases(d as nat, 7);
    }
    vstd::arithmetic::power2::lemma_pow2_pos(d as nat);
    let p = pow2(d as nat) as int;
    assert(1 <= p <= 128);
    assert(pow2((d + 1) as nat) == 2 * p);
    if d > 0 {
        let h = pow2((d - 1) as nat) as int;
        vstd::arithmetic::power2::lemma_pow2_pos((d - 1) as nat);
        assert(p == 2 * h);
        assert(x * p + h == p * x + h) by (nonlinear_arith);
        vstd::arithmetic::div_mod::lemma_fundamental_div_mod_converse(x * p + h, p, x, h);
    }
    let s = x + y + 1;
    let (q, r) = (s / 2, s % 2);
    assert(x * p + y * p + p == q * (2 * p) + p * r) by (nonlinear_arith)
        requires
            x + y + 1 == 2 * q + r,
    ;
    assert(0 <= p * r < 2 * p) by (nonlinear_arith)
        requires
            0 <= r < 2,
            p >= 1,
    ;
    vstd::arithmetic::div_mod::lemma_fundamental_div_mod_converse(
        x * p + y * p + p,
        2 * p,
        q,
        p * r,
    );
}

} // verus!

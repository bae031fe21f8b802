//! Inter reconstruction: P and B frames against reference frames, with the
//! motion that they leave behind for later direct prediction and for the
//! deblocking of the frame.

use crate::mvc::arith::{clip, lemma_i32_shr, magnitude};
use crate::mvc::inter_plan::{Cell, DirectMotion};
use crate::mvc::inter_pred::{pictures, References};
use crate::mvc::inter_slice::{
    decode_inter_slices, inter_slices, nothing_read, InterEnv, InterJoined, Lists,
};
use crate::mvc::loop_filter::{deblock, deblocked, Motion, MotionKind};
use crate::mvc::pps::Pps;
use crate::mvc::recon::{
    bytes_of, plan_slices, slice_plan, Frame, Picture, ReconError, SliceEnv,
};
use crate::mvc::slice_header::widths_ok;
use crate::mvc::sps::Sps;
use vstd::prelude::*;

verus! {

/// The list-0 motion of a frame's 4x4 blocks in raster order: vector, reference
/// index (-1 for intra blocks), order count of the referenced picture and
/// whether the block has luma coefficients.
#[derive(Debug, Clone)]
pub struct MotionField {
    pub mv: Vec<(i32, i32)>,
    pub refidx: Vec<i32>,
    /// Order counts, -1 where there is no reference; empty until resolved.
    pub refpoc: Vec<i32>,
    pub nz: Vec<bool>,
    pub bw4: usize,
    pub bh4: usize,
}

/// The list-0 motion of a frame.
#[verifier::ext_equal]
pub struct MotionData {
    pub mv: Seq<(i32, i32)>,
    pub refidx: Seq<i32>,
    pub refpoc: Seq<i32>,
    pub nz: Seq<bool>,
    pub bw4: int,
    pub bh4: int,
}

impl View for MotionField {
    type V = MotionData;

    open spec fn view(&self) -> MotionData {
        MotionData {
            mv: self.mv@,
            refidx: self.refidx@,
            refpoc: self.refpoc@,
            nz: self.nz@,
            bw4: self.bw4 as int,
            bh4: self.bh4 as int,
        }
    }
}

/// The motion of a frame's 4x4 blocks for both lists: per list a vector, a
/// reference index and the order count of the referenced picture (-1 where the
/// list is not used), whether the block is intra, and whether it has luma
/// coefficients.
#[derive(Debug, Clone)]
pub struct BMotionField {
    pub mv: [Vec<(i32, i32)>; 2],
    pub refidx: [Vec<i32>; 2],
    pub refpoc: [Vec<i32>; 2],
    pub intra: Vec<bool>,
    pub nz: Vec<bool>,
    pub bw4: usize,
    pub bh4: usize,
}

/// The motion of a frame for both lists.
#[verifier::ext_equal]
pub struct BMotionData {
    pub mv: (Seq<(i32, i32)>, Seq<(i32, i32)>),
    pub refidx: (Seq<i32>, Seq<i32>),
    pub refpoc: (Seq<i32>, Seq<i32>),
    pub intra: Seq<bool>,
    pub nz: Seq<bool>,
    pub bw4: int,
    pub bh4: int,
}

impl View for BMotionField {
    type V = BMotionData;

    open spec fn view(&self) -> BMotionData {
        BMotionData {
            mv: (self.mv[0]@, self.mv[1]@),
            refidx: (self.refidx[0]@, self.refidx[1]@),
            refpoc: (self.refpoc[0]@, self.refpoc[1]@),
            intra: self.intra@,
            nz: self.nz@,
            bw4: self.bw4 as int,
            bh4: self.bh4 as int,
        }
    }
}

/// The order count of the picture that a reference index names, -1 where there
/// is none.
pub open spec fn poc_of(r: i32, pocs: Seq<i32>) -> i32 {
    if 0 <= r < pocs.len() {
        pocs[r as int]
    } else {
        -1i32
    }
}

/// The order counts of the pictures that some reference indices name.
pub open spec fn resolved(refidx: Seq<i32>, pocs: Seq<i32>) -> Seq<i32> {
    refidx.map_values(|r: i32| poc_of(r, pocs))
}

fn resolve(refidx: &Vec<i32>, pocs: &[i32]) -> (out: Vec<i32>)
    ensures
        out@ == resolved(refidx@, pocs@),
{
    let mut out: Vec<i32> = Vec::new();
    let n: usize = refidx.len();
    let m: usize = pocs.len();
    for i in 0..n
        invariant
            n == refidx@.len(),
            m == pocs@.len(),
            out@.len() == i,
            forall|j: int| 0 <= j < i ==> #[trigger] out@[j] == poc_of(refidx@[j], pocs@),
    {
        let r: i32 = refidx[i];
        out.push(
            if r >= 0 && (r as usize) < m {
                pocs[r as usize]
            } else {
                -1
            },
        );
    }
    assert(out@ =~= resolved(refidx@, pocs@));
    out
}

impl MotionField {
    /// There is an entry for each block of a frame of this many macroblocks.
    pub open spec fn covers(self, width: int, height: int) -> bool {
        &&& self.bw4 == 4 * width
        &&& self.mv@.len() >= 16 * (width * height)
        &&& self.refidx@.len() >= 16 * (width * height)
        &&& self.nz@.len() >= 16 * (width * height)
    }

    /// Note the order count of each block's reference, given those of the
    /// frame's list 0.
    pub fn resolve_refpoc(&mut self, ref_pocs: &[i32])
        ensures
            final(self)@ == (MotionData {
                refpoc: resolved(old(self)@.refidx, ref_pocs@),
                ..old(self)@
            }),
    {
        self.refpoc = resolve(&self.refidx, ref_pocs);
    }
}

/// The list that stands for a two-list block as a co-located one: the first
/// where it is used, else the second, else none.
pub open spec fn col_list(m: BMotionData, i: int) -> Option<bool> {
    if m.refpoc.0[i] >= 0 {
        Some(false)
    } else if m.refpoc.1[i] >= 0 {
        Some(true)
    } else {
        None
    }
}

/// The motion of a two-list frame as a co-located one.
pub open spec fn colocated_motion(m: BMotionData) -> MotionData {
    let n = m.mv.0.len();
    let at_least_zero = |v: i32|
        if v < 0 {
            0i32
        } else {
            v
        };
    MotionData {
        mv: Seq::new(
            n,
            |i: int|
                match col_list(m, i) {
                    Some(false) => m.mv.0[i],
                    Some(true) => m.mv.1[i],
                    None => (0i32, 0i32),
                },
        ),
        refidx: Seq::new(
            n,
            |i: int|
                match col_list(m, i) {
                    Some(false) => at_least_zero(m.refidx.0[i]),
                    Some(true) => at_least_zero(m.refidx.1[i]),
                    None => -1i32,
                },
        ),
        refpoc: Seq::new(
            n,
            |i: int|
                match col_list(m, i) {
                    Some(false) => m.refpoc.0[i],
                    Some(true) => m.refpoc.1[i],
                    None => -1i32,
                },
        ),
        nz: m.nz,
        bw4: m.bw4,
        bh4: m.bh4,
    }
}

fn copy_flags(v: &Vec<bool>) -> (r: Vec<bool>)
    ensures
        r@ == v@,
{
    let mut r: Vec<bool> = Vec::new();
    let n: usize = v.len();
    for i in 0..n
        invariant
            n == v@.len(),
            r@ == v@.take(i as int),
    {
        r.push(v[i]);
        assert(v@.take(i as int).push(v@[i as int]) =~= v@.take(i + 1));
    }
    assert(v@.take(n as int) =~= v@);
    r
}

impl BMotionField {
    /// There is an entry for each block of a frame of this many macroblocks.
    pub open spec fn covers(self, width: int, height: int) -> bool {
        &&& self.bw4 == 4 * width
        &&& self.mv[0]@.len() >= 16 * (width * height)
        &&& self.mv[1]@.len() >= 16 * (width * height)
        &&& self.refpoc[0]@.len() >= 16 * (width * height)
        &&& self.refpoc[1]@.len() >= 16 * (width * height)
        &&& self.intra@.len() >= 16 * (width * height)
        &&& self.nz@.len() >= 16 * (width * height)
    }

    /// There is an entry for the motion of block `i`, in the list that it uses.
    pub open spec fn has_motion(self, i: int) -> bool {
        &&& i < self.refpoc[0]@.len()
        &&& if self.refpoc[0]@[i] >= 0 {
            i < self.refidx[0]@.len()
        } else {
            &&& i < self.refpoc[1]@.len()
            &&& self.refpoc[1]@[i] >= 0 ==> i < self.mv[1]@.len() && i < self.refidx[1]@.len()
        }
    }

    /// The motion of each block of list 0 has its entries.
    pub open spec fn has_all_motion(self) -> bool {
        forall|i: int| 0 <= i < self.mv[0]@.len() ==> #[trigger] self.has_motion(i)
    }

    /// The motion as that of a co-located frame.
    pub fn colocated(&self) -> (m: MotionField)
        requires
            self.has_all_motion(),
        ensures
            m@ == colocated_motion(self@),
    {
        let ghost d = self@;
        let ghost want = colocated_motion(d);
        let n: usize = self.mv[0].len();
        let mut mv: Vec<(i32, i32)> = Vec::new();
        let mut refidx: Vec<i32> = Vec::new();
        let mut refpoc: Vec<i32> = Vec::new();
        for i in 0..n
            invariant
                n == self.mv[0]@.len(),
                self.has_all_motion(),
                d == self@,
                want == colocated_motion(d),
                mv@.len() == i,
                refidx@.len() == i,
                refpoc@.len() == i,
                forall|j: int| 0 <= j < i ==> #[trigger] mv@[j] == want.mv[j],
                forall|j: int| 0 <= j < i ==> #[trigger] refidx@[j] == want.refidx[j],
                forall|j: int| 0 <= j < i ==> #[trigger] refpoc@[j] == want.refpoc[j],
        {
            assert(self.has_motion(i as int));
            let (v, r, p): ((i32, i32), i32, i32) = if self.refpoc[0][i] >= 0 {
                (self.mv[0][i], self.refidx[0][i], self.refpoc[0][i])
            } else if self.refpoc[1][i] >= 0 {
                (self.mv[1][i], self.refidx[1][i], self.refpoc[1][i])
            } else {
                ((0, 0), -1, -1)
            };
            mv.push(v);
            refidx.push(
                if p >= 0 && r < 0 {
                    0
                } else {
                    r
                },
            );
            refpoc.push(p);
        }
        assert(mv@ =~= want.mv);
        assert(refidx@ =~= want.refidx);
        assert(refpoc@ =~= want.refpoc);
        MotionField {
            mv,
            refidx,
            refpoc,
            nz: copy_flags(&self.nz),
            bw4: self.bw4,
            bh4: self.bh4,
        }
    }
}

// ---- temporal direct prediction ----

/// The first index from `i` on at which a list has this order count, or 0.
pub open spec fn first_poc(l: Seq<i32>, v: i32, i: int) -> int
    decreases l.len() - i,
{
    if i >= l.len() {
        0
    } else if l[i] == v {
        i
    } else {
        first_poc(l, v, i + 1)
    }
}

/// How far a vector scales between order counts: `tb` of `td` parts, in 1/256.
pub open spec fn distance_scale(tb: int, td: int) -> int {
    let m = magnitude(td);
    let q = (16384 + m / 2) / m;
    let tx = if td > 0 {
        q
    } else {
        -q
    };
    clip(-1024, 1023, (tb * tx + 32) / 64)
}

/// A scaled vector component, modulo 2^32.
pub open spec fn scaled(f: int, v: i32) -> i32 {
    ((f as i32).wrapping_mul(v).wrapping_add(128) / 256) as i32
}

/// Motion at rest on the first references.
pub open spec fn at_rest() -> DirectMotion {
    DirectMotion { mv0: (0, 0), mv1: (0, 0), ref0: 0, ref1: 0 }
}

/// The co-located block `k` has motion.
pub open spec fn has_motion(col: MotionData, k: int) -> bool {
    k < col.mv.len() && k < col.refidx.len() && col.refidx[k] >= 0
}

/// Temporal direct prediction (H.264 section 8.4.1.2.3) from block `k` of the
/// co-located picture: its vector scaled by the distances in order count. The
/// list-0 reference is the picture that the block refers to. Blocks without
/// motion give rest.
pub open spec fn temporal_motion(col: MotionData, k: int, poc0: Seq<i32>, poc1: Seq<i32>, cur: i32) -> DirectMotion {
    if !has_motion(col, k) {
        at_rest()
    } else {
        let v = col.mv[k];
        let p = if k < col.refpoc.len() {
            col.refpoc[k]
        } else {
            -1i32
        };
        let r = first_poc(poc0, p, 0);
        let td = clip(-128, 127, poc1[0] - poc0[r]);
        let tb = clip(-128, 127, cur - poc0[r]);
        if td == 0 {
            DirectMotion { mv0: v, mv1: (0, 0), ref0: r as i32, ref1: 0 }
        } else {
            let f = distance_scale(tb, td);
            let m = (scaled(f, v.0), scaled(f, v.1));
            DirectMotion {
                mv0: m,
                mv1: (m.0.wrapping_sub(v.0), m.1.wrapping_sub(v.1)),
                ref0: r as i32,
                ref1: 0,
            }
        }
    }
}

fn find_poc(l: &Vec<i32>, v: i32) -> (r: usize)
    requires
        l@.len() > 0,
    ensures
        r == first_poc(l@, v, 0),
        r < l@.len(),
{
    let n: usize = l.len();
    let mut i: usize = 0;
    while i < n
        invariant
            i <= n,
            n == l@.len(),
            n > 0,
            first_poc(l@, v, 0) == first_poc(l@, v, i as int),
        decreases n - i,
    {
        if l[i] == v {
            return i;
        }
        i = i + 1;
    }
    0
}

fn poc_distance(a: i32, b: i32) -> (r: i32)
    ensures
        r == clip(-128, 127, a - b),
        -128 <= r <= 127,
{
    let d: i64 = a as i64 - b as i64;
    if d < -128 {
        -128
    } else if d > 127 {
        127
    } else {
        d as i32
    }
}

proof fn lemma_quotient(m: int)
    requires
        1 <= m <= 128,
    ensures
        0 <= (16384 + m / 2) / m <= 16448,
{
    vstd::arithmetic::div_mod::lemma_div_is_ordered_by_denominator(16384 + m / 2, 1, m);
    vstd::arithmetic::div_mod::lemma_div_pos_is_pos(16384 + m / 2, m);
}

fn scale_factor(tb: i32, td: i32) -> (f: i32)
    requires
        -128 <= tb <= 127,
        -128 <= td <= 127,
        td != 0,
    ensures
        f == distance_scale(tb as int, td as int),
        -1024 <= f <= 1023,
{
    let m: i32 = if td < 0 {
        -td
    } else {
        td
    };
    proof {
        lemma_quotient(m as int);
    }
    let q: i32 = (16384 + m / 2) / m;
    let tx: i32 = if td > 0 {
        q
    } else {
        -q
    };
    assert(-128 * 16448 <= tb * tx <= 128 * 16448) by (nonlinear_arith)
        requires
            -128 <= tb <= 127,
            -16448 <= tx <= 16448,
    ;
    let v: i32 = tb * tx + 32;
    proof {
        lemma_i32_shr(v);
    }
    crate::mvc::arith::clip3(-1024, 1023, v >> 6)
}

fn scale_by(f: i32, v: i32) -> (r: i32)
    ensures
        r == scaled(f as int, v),
{
    let x: i32 = f.wrapping_mul(v).wrapping_add(128);
    proof {
        lemma_i32_shr(x);
    }
    x >> 8
}

/// Temporal direct motion from block `cidx` of the co-located field, for a
/// picture of order count `cur` whose lists have the order counts `poc`:
/// vectors and references of both lists, both of which are used.
pub fn temporal_direct(col: &MotionField, cidx: usize, poc: &[Vec<i32>; 2], cur: i32) -> (r: (
    (i32, i32),
    (i32, i32),
    i32,
    i32,
    bool,
    bool,
))
    requires
        has_motion(col@, cidx as int) ==> poc[0]@.len() > 0 && poc[1]@.len() > 0,
    ensures
        (DirectMotion { mv0: r.0, mv1: r.1, ref0: r.2, ref1: r.3 }) == temporal_motion(
            col@,
            cidx as int,
            poc[0]@,
            poc[1]@,
            cur,
        ),
        r.4,
        r.5,
{
    if cidx >= col.mv.len() || cidx >= col.refidx.len() || col.refidx[cidx] < 0 {
        return ((0, 0), (0, 0), 0, 0, true, true);
    }
    let v: (i32, i32) = col.mv[cidx];
    let p: i32 = if cidx < col.refpoc.len() {
        col.refpoc[cidx]
    } else {
        -1
    };
    let k: usize = find_poc(&poc[0], p);
    let (p0, p1): (i32, i32) = (poc[0][k], poc[1][0]);
    let td: i32 = poc_distance(p1, p0);
    let tb: i32 = poc_distance(cur, p0);
    if td == 0 {
        return (v, (0, 0), k as i32, 0, true, true);
    }
    let f: i32 = scale_factor(tb, td);
    let m: (i32, i32) = (scale_by(f, v.0), scale_by(f, v.1));
    (m, (m.0.wrapping_sub(v.0), m.1.wrapping_sub(v.1)), k as i32, 0, true, true)
}

/// Halfway between two references, the first vector of a temporal direct block
/// is half of the co-located one, rounded up.
pub proof fn law_temporal_midpoint(tb: int, v: i32)
    requires
        1 <= tb <= 63,
        -0x7f_ffff <= v <= 0x7f_ffff,
    ensures
        distance_scale(tb, 2 * tb) == 128,
        scaled(distance_scale(tb, 2 * tb), v) == (v + 1) / 2,
{
    let n = 16384 + tb;
    let q = n / (2 * tb);
    vstd::arithmetic::div_mod::lemma_fundamental_div_mod(n, 2 * tb);
    let r = n % (2 * tb);
    assert(2 * (tb * q) == n - r) by (nonlinear_arith)
        requires
            n == (2 * tb) * q + r,
    ;
    assert(0 <= r < 2 * tb);
    assert((2 * tb) / 2 == tb);
    assert(8192 <= tb * q + 32 < 8256);
    let x = 128i32.wrapping_mul(v).wrapping_add(128);
    assert(x == 128 * v + 128);
}

// ---- frames ----

/// The vectors of some blocks.
pub open spec fn vectors_of(c: Seq<Cell>) -> Seq<(i32, i32)> {
    c.map_values(|x: Cell| x.mv)
}

/// The reference indices of some blocks.
pub open spec fn indices_of(c: Seq<Cell>) -> Seq<i32> {
    c.map_values(|x: Cell| x.refi)
}

fn vectors(c: &Vec<Cell>) -> (r: Vec<(i32, i32)>)
    ensures
        r@ == vectors_of(c@),
{
    let mut r: Vec<(i32, i32)> = Vec::new();
    let n: usize = c.len();
    for i in 0..n
        invariant
            n == c@.len(),
            r@.len() == i,
            forall|j: int| 0 <= j < i ==> #[trigger] r@[j] == c@[j].mv,
    {
        r.push(c[i].mv);
    }
    assert(r@ =~= vectors_of(c@));
    r
}

fn indices(c: &Vec<Cell>) -> (r: Vec<i32>)
    ensures
        r@ == indices_of(c@),
{
    let mut r: Vec<i32> = Vec::new();
    let n: usize = c.len();
    for i in 0..n
        invariant
            n == c@.len(),
            r@.len() == i,
            forall|j: int| 0 <= j < i ==> #[trigger] r@[j] == c@[j].refi,
    {
        r.push(c[i].refi);
    }
    assert(r@ =~= indices_of(c@));
    r
}

/// No motion.
pub open spec fn empty_motion() -> MotionData {
    MotionData {
        mv: Seq::empty(),
        refidx: Seq::empty(),
        refpoc: Seq::empty(),
        nz: Seq::empty(),
        bw4: 0,
        bh4: 0,
    }
}

impl MotionField {
    /// A field without blocks, as an intra frame leaves it.
    pub fn empty() -> (m: Self)
        ensures
            m@ == empty_motion(),
    {
        let m = MotionField {
            mv: Vec::new(),
            refidx: Vec::new(),
            refpoc: Vec::new(),
            nz: Vec::new(),
            bw4: 0,
            bh4: 0,
        };
        assert(m@ =~= empty_motion());
        m
    }
}

/// What the slices of a P frame depend on.
pub open spec fn p_env(env: SliceEnv, refs: Seq<Picture>) -> InterEnv {
    InterEnv {
        env,
        two: false,
        refs0: refs,
        refs1: Seq::empty(),
        poc0: Seq::empty(),
        poc1: Seq::empty(),
        cur: 0,
        col: empty_motion(),
        mix: (32, 32),
    }
}

/// What the slices of a B frame depend on.
pub open spec fn b_env(
    env: SliceEnv,
    l0: Seq<(Picture, i32)>,
    l1: Seq<(Picture, i32)>,
    cur: i32,
    col: MotionData,
    mix: (i32, i32),
) -> InterEnv {
    InterEnv {
        env,
        two: true,
        refs0: l0.map_values(|x: (Picture, i32)| x.0),
        refs1: l1.map_values(|x: (Picture, i32)| x.0),
        poc0: l0.map_values(|x: (Picture, i32)| x.1),
        poc1: l1.map_values(|x: (Picture, i32)| x.1),
        cur,
        col,
        mix,
    }
}

/// The bands of an inter frame, joined, and the frame before deblocking.
#[verifier::opaque]
pub open spec fn inter_frame(slices: Seq<Seq<u8>>, ie: InterEnv) -> Result<
    (Picture, InterJoined),
    ReconError,
> {
    match slice_plan(slices, ie.env) {
        Err(e) => Err(e),
        Ok(plan) => if !ie.env.sides_ok() {
            Err(ReconError::Size)
        } else {
            match inter_slices(slices, plan, 0, nothing_read(), ie) {
                Err(e) => Err(e),
                Ok(j) => match j.base.frame(ie.env) {
                    Err(e) => Err(e),
                    Ok(p) => Ok((p, j)),
                },
            }
        },
    }
}

/// The motion of a P frame.
pub open spec fn p_motion(j: InterJoined, env: SliceEnv) -> MotionData {
    MotionData {
        mv: vectors_of(j.l0),
        refidx: indices_of(j.l0),
        refpoc: Seq::empty(),
        nz: j.nz,
        bw4: 4 * env.width(),
        bh4: 4 * env.height(),
    }
}

/// The motion of a B frame.
pub open spec fn b_motion(j: InterJoined, ie: InterEnv) -> BMotionData {
    BMotionData {
        mv: (vectors_of(j.l0), vectors_of(j.l1)),
        refidx: (indices_of(j.l0), indices_of(j.l1)),
        refpoc: (resolved(indices_of(j.l0), ie.poc0), resolved(indices_of(j.l1), ie.poc1)),
        intra: j.intra,
        nz: j.nz,
        bw4: 4 * ie.env.width(),
        bh4: 4 * ie.env.height(),
    }
}

fn frame_sides(sps: &Sps, Ghost(env): Ghost<SliceEnv>) -> (r: Result<(usize, usize), ReconError>)
    requires
        env.sps == *sps,
        env.size_ok(),
    ensures
        match r {
            Ok(v) => env.sides_ok() && v.0 == 16 * env.width() && v.1 == 16 * env.height(),
            Err(e) => !env.sides_ok() && e == ReconError::Size,
        },
{
    proof {
        assert(env.width() <= env.width() * env.height() && env.height() <= env.width()
            * env.height()) by (nonlinear_arith)
            requires
                env.width() >= 1,
                env.height() >= 1,
        ;
    }
    if sps.pic_width_in_mbs > 0x7ff_ffff || sps.pic_height_in_map_units > 0x7ff_ffff {
        return Err(ReconError::Size);
    }
    Ok((16 * sps.pic_width_in_mbs as usize, 16 * sps.pic_height_in_map_units as usize))
}

/// Decode a P frame, before deblocking, from its slices in decoding order, and
/// its motion. `refs` is list 0.
pub fn decode_p_frame(
    slices: &[&[u8]],
    nal_ref_idc: u8,
    idr: bool,
    sps: &Sps,
    pps: &Pps,
    refs: &[&Frame],
) -> (r: Result<(Frame, MotionField), ReconError>)
    requires
        widths_ok(*sps),
    ensures
        ({
            let env = SliceEnv { idr, nal_ref_idc, sps: *sps, pps: *pps };
            let want = inter_frame(bytes_of(slices@), p_env(env, pictures(refs@)));
            match r {
                Ok((f, m)) => want is Ok && f@ == want->Ok_0.0 && m@ == p_motion(
                    want->Ok_0.1,
                    env,
                ) && f.ok() && f@.width == env.width() && f@.height == env.height() && m.covers(
                    f@.width,
                    f@.height,
                ) && m.mv@.len() == m.refidx@.len(),
                Err(e) => want == Err::<(Picture, InterJoined), ReconError>(e),
            }
        }),
{
    proof {
        reveal(inter_frame);
    }
    let ghost env = SliceEnv { idr, nal_ref_idc, sps: *sps, pps: *pps };
    let plan: Vec<(usize, usize)> = plan_slices(slices, nal_ref_idc, idr, sps, pps)?;
    let (fw, fh) = frame_sides(sps, Ghost(env))?;
    let mut l0: Vec<&Frame> = Vec::new();
    let n: usize = refs.len();
    for k in 0..n
        invariant
            n == refs@.len(),
            l0@ == refs@.take(k as int),
    {
        l0.push(refs[k]);
        assert(refs@.take(k as int).push(refs@[k as int]) =~= refs@.take(k + 1));
    }
    assert(refs@.take(n as int) =~= refs@);
    let none = MotionField::empty();
    let lists = Lists {
        two: false,
        refs: References { l0, l1: Vec::new(), fw, fh, mix: (32, 32) },
        poc: [Vec::new(), Vec::new()],
        cur: 0,
        col: &none,
    };
    proof {
        let ie = lists.env(env);
        assert(ie.refs1 =~= Seq::<Picture>::empty());
        assert(ie.poc0 =~= Seq::<i32>::empty());
        assert(ie.poc1 =~= Seq::<i32>::empty());
        assert(ie == p_env(env, pictures(refs@)));
    }
    let a = decode_inter_slices(slices, &plan, nal_ref_idc, idr, sps, pps, &lists)?;
    let ghost j = a@;
    let f = a.base.finish(sps, Ghost(env))?;
    let m = MotionField {
        mv: vectors(&a.l0),
        refidx: indices(&a.l0),
        refpoc: Vec::new(),
        nz: a.nz,
        bw4: fw / 4,
        bh4: fh / 4,
    };
    assert(m@ =~= p_motion(j, env));
    Ok((f, m))
}

/// The pictures of a reference list with their order counts.
pub open spec fn listed(l: Seq<(&Frame, i32)>) -> Seq<(Picture, i32)> {
    Seq::new(l.len(), |k: int| (l[k].0@, l[k].1))
}

fn split_list<'a>(l: &[(&'a Frame, i32)]) -> (r: (Vec<&'a Frame>, Vec<i32>))
    ensures
        r.0@.len() == l@.len(),
        r.1@.len() == l@.len(),
        forall|k: int| 0 <= k < l@.len() ==> #[trigger] r.0@[k] == l@[k].0,
        forall|k: int| 0 <= k < l@.len() ==> #[trigger] r.1@[k] == l@[k].1,
{
    let mut f: Vec<&'a Frame> = Vec::new();
    let mut p: Vec<i32> = Vec::new();
    let n: usize = l.len();
    for k in 0..n
        invariant
            n == l@.len(),
            f@.len() == k,
            p@.len() == k,
            forall|j: int| 0 <= j < k ==> #[trigger] f@[j] == l@[j].0,
            forall|j: int| 0 <= j < k ==> #[trigger] p@[j] == l@[j].1,
    {
        f.push(l[k].0);
        p.push(l[k].1);
    }
    (f, p)
}

/// Decode a B frame, before deblocking, from its slices in decoding order, and
/// its motion. `l0` and `l1` are the lists with order counts, `cur_poc` is the
/// frame's own, `col` the motion of the first picture of list 1, and `bipred`
/// the default weights of bi-prediction in 1/64.
pub fn decode_b_frame(
    slices: &[&[u8]],
    nal_ref_idc: u8,
    idr: bool,
    sps: &Sps,
    pps: &Pps,
    l0: &[(&Frame, i32)],
    l1: &[(&Frame, i32)],
    cur_poc: i32,
    col: &MotionField,
    bipred: (i32, i32),
) -> (r: Result<(Frame, BMotionField), ReconError>)
    requires
        widths_ok(*sps),
    ensures
        ({
            let env = SliceEnv { idr, nal_ref_idc, sps: *sps, pps: *pps };
            let ie = b_env(env, listed(l0@), listed(l1@), cur_poc, col@, bipred);
            let want = inter_frame(bytes_of(slices@), ie);
            match r {
                Ok((f, m)) => want is Ok && f@ == want->Ok_0.0 && m@ == b_motion(want->Ok_0.1, ie)
                    && f.ok() && f@.width == env.width() && f@.height == env.height() && m.covers(
                    f@.width,
                    f@.height,
                ) && m.has_all_motion(),
                Err(e) => want == Err::<(Picture, InterJoined), ReconError>(e),
            }
        }),
{
    proof {
        reveal(inter_frame);
    }
    let ghost env = SliceEnv { idr, nal_ref_idc, sps: *sps, pps: *pps };
    let ghost ie = b_env(env, listed(l0@), listed(l1@), cur_poc, col@, bipred);
    let plan: Vec<(usize, usize)> = plan_slices(slices, nal_ref_idc, idr, sps, pps)?;
    let (fw, fh) = frame_sides(sps, Ghost(env))?;
    let (f0, p0) = split_list(l0);
    let (f1, p1) = split_list(l1);
    let lists = Lists {
        two: true,
        refs: References { l0: f0, l1: f1, fw, fh, mix: bipred },
        poc: [p0, p1],
        cur: cur_poc,
        col,
    };
    proof {
        let got = lists.env(env);
        assert(got.refs0 =~= ie.refs0);
        assert(got.refs1 =~= ie.refs1);
        assert(got.poc0 =~= ie.poc0);
        assert(got.poc1 =~= ie.poc1);
        assert(got == ie);
    }
    let a = decode_inter_slices(slices, &plan, nal_ref_idc, idr, sps, pps, &lists)?;
    let ghost j = a@;
    let f = a.base.finish(sps, Ghost(env))?;
    let (i0, i1) = (indices(&a.l0), indices(&a.l1));
    let (c0, c1) = (resolve(&i0, lists.poc[0].as_slice()), resolve(&i1, lists.poc[1].as_slice()));
    let m = BMotionField {
        mv: [vectors(&a.l0), vectors(&a.l1)],
        refidx: [i0, i1],
        refpoc: [c0, c1],
        intra: a.intra,
        nz: a.nz,
        bw4: fw / 4,
        bh4: fh / 4,
    };
    assert(m@ =~= b_motion(j, ie));
    Ok((f, m))
}

// ---- deblocking ----

/// Deblock a P frame in place with the strengths of its motion.
pub fn deblock_inter(frame: &mut Frame, mf: &MotionField, chroma_off: i32)
    requires
        old(frame).ok(),
        mf.covers(old(frame)@.width, old(frame)@.height),
    ensures
        final(frame)@ == deblocked(old(frame)@, MotionKind::Single(mf@), chroma_off as int),
        final(frame).ok(),
{
    deblock(frame, Motion::Single(mf), chroma_off);
}

/// Deblock a B frame in place with the strengths of its motion.
pub fn deblock_b(frame: &mut Frame, mf: &BMotionField, chroma_off: i32)
    requires
        old(frame).ok(),
        mf.covers(old(frame)@.width, old(frame)@.height),
    ensures
        final(frame)@ == deblocked(old(frame)@, MotionKind::Double(mf@), chroma_off as int),
        final(frame).ok(),
{
    deblock(frame, Motion::Double(mf), chroma_off);
}

} // verus!

//! Streams with B frames: frames are decoded out of display order, their order
//! counts put them back. Each view predicts from frames before and after in
//! display order. The base view runs one access unit ahead of the dependent
//! one.

use crate::mvc::clip::au::{slices_of, strings, Au, AuData};
use crate::mvc::clip::stream::{
    all_whole, base_env, clone_frame, count, counted, dep_env, paired, pairs, pps_in_force, FramePair,
    Pair, Sets,
};
use crate::mvc::clip::view::{
    all_sized, asks_other_view, decode_hier_view, header_of, hier_view, read_header, ref_data,
    sized_for, wants_other_view, only_if, RefData, ViewRef,
};
use crate::mvc::clip::ClipError;
use crate::mvc::recon::{Frame, Picture};
use crate::mvc::recon_inter::{MotionData, MotionField};
use crate::mvc::reflist::{by_keys, law_ranked, rank};
use crate::mvc::slice_header::{widths_ok, SliceData, SliceHeader};
use crate::mvc::sps::Sps;
use vstd::arithmetic::power2::pow2;
use vstd::prelude::*;

verus! {

// ---- order counts ----

/// The number of low parts of order counts. The largest width wraps.
pub open spec fn lsb_count(sps: Sps) -> i32 {
    if sps.log2_max_pic_order_cnt_lsb_minus4 == 27 {
        i32::MIN
    } else {
        pow2((sps.log2_max_pic_order_cnt_lsb_minus4 + 4) as nat) as i32
    }
}

/// Half of the number of low parts.
pub open spec fn half(max: i32) -> int {
    if max < 0 {
        -((-max) / 2)
    } else {
        max as int / 2
    }
}

/// The high part of an order count with this low part, the nearest to the last
/// reference's (H.264 section 8.2.1.1).
pub open spec fn msb_after(msb: i32, last: i32, lsb: i32, max: i32) -> i32 {
    if lsb < last && last - lsb >= half(max) {
        msb.wrapping_add(max)
    } else if lsb > last && lsb - last > half(max) {
        msb.wrapping_sub(max)
    } else {
        msb
    }
}

fn count_lsb(sps: &Sps) -> (r: i32)
    requires
        sps.log2_max_pic_order_cnt_lsb_minus4 <= 27,
    ensures
        r == lsb_count(*sps),
{
    let n: u32 = sps.log2_max_pic_order_cnt_lsb_minus4 + 4;
    if n == 31 {
        return i32::MIN;
    }
    proof {
        vstd::arithmetic::power2::lemma2_to64();
        if n < 30 {
            vstd::arithmetic::power2::lemma_pow2_strictly_increases(n as nat, 30);
        }
        vstd::bits::lemma_u32_shl_is_mul(1, n);
    }
    (1u32 << n) as i32
}

fn next_msb(msb: i32, last: i32, lsb: i32, max: i32) -> (r: i32)
    ensures
        r == msb_after(msb, last, lsb, max),
{
    let h: i64 = if max < 0 {
        -((-(max as i64)) / 2)
    } else {
        max as i64 / 2
    };
    let d: i64 = last as i64 - lsb as i64;
    if lsb < last && d >= h {
        msb.wrapping_add(max)
    } else if lsb > last && -d > h {
        msb.wrapping_sub(max)
    } else {
        msb
    }
}

/// Order counts come back from their low parts wherever the next one differs
/// from the last reference's by less than half of the range of low parts.
pub proof fn law_order_count_recovered(sps: Sps, last: int, poc: int)
    requires
        sps.log2_max_pic_order_cnt_lsb_minus4 <= 12,
        -0x3fff_ffff <= last <= 0x3fff_ffff,
        -0x3fff_ffff <= poc <= 0x3fff_ffff,
        -half(lsb_count(sps)) < poc - last < half(lsb_count(sps)),
    ensures
        ({
            let max = lsb_count(sps) as int;
            let (last_lsb, lsb) = (last % max, poc % max);
            msb_after((last - last_lsb) as i32, last_lsb as i32, lsb as i32, max as i32) + lsb
                == poc
        }),
{
    vstd::arithmetic::power2::lemma2_to64();
    let n = (sps.log2_max_pic_order_cnt_lsb_minus4 + 4) as nat;
    if n < 16 {
        vstd::arithmetic::power2::lemma_pow2_strictly_increases(n, 16);
    }
    if n > 4 {
        vstd::arithmetic::power2::lemma_pow2_strictly_increases(4, n);
    }
    let max = pow2(n) as int;
    let (a, b) = (last % max, poc % max);
    let (qa, qb) = (last / max, poc / max);
    vstd::arithmetic::div_mod::lemma_fundamental_div_mod(last, max);
    vstd::arithmetic::div_mod::lemma_fundamental_div_mod(poc, max);
    assert(0 <= a < max && 0 <= b < max);
    assert(max * qb - max * qa == max * (qb - qa)) by (nonlinear_arith);
    let d = qb - qa;
    assert(-max < max * d + (b - a) < max);
    assert(-2 < d < 2) by (nonlinear_arith)
        requires
            -2 * max < max * d < 2 * max,
            max > 0,
    ;
    assert(max * d == (if d == 0 {
        0
    } else if d == 1 {
        max
    } else {
        -max
    })) by (nonlinear_arith)
        requires
            d == 0 || d == 1 || d == -1,
    ;
}

// ---- the state ----

/// A decoded base frame whose dependent frame is still to come.
pub struct Held {
    pub au: Au,
    pub poc: i32,
    /// Displayed before the first frame of a stream that starts in the middle.
    pub leading: bool,
    pub base: Frame,
}

/// A decoded base frame whose dependent frame is still to come.
pub struct HeldData {
    pub au: AuData,
    pub poc: i32,
    pub leading: bool,
    pub base: Picture,
}

/// A pair that waits for its turn in display order.
pub struct Waiting {
    pub poc: i32,
    pub pair: FramePair,
}

/// A stream under way: reference frames by view, the last reference's order
/// count in two parts, pairs that wait for their turn, the number of pairs, the
/// first order count since the start or the last IDR frame, whether an IDR
/// frame has come, and the base frame that is held.
pub struct Hier {
    pub brefs: Vec<ViewRef>,
    pub drefs: Vec<ViewRef>,
    pub msb: i32,
    pub lsb: i32,
    pub waiting: Vec<Waiting>,
    pub frames: usize,
    pub first: Option<i32>,
    pub seen_idr: bool,
    pub held: Option<Held>,
}

/// A stream under way.
#[verifier::ext_equal]
pub struct HierData {
    pub brefs: Seq<RefData>,
    pub drefs: Seq<RefData>,
    pub msb: i32,
    pub lsb: i32,
    pub waiting: Seq<(i32, Pair)>,
    pub frames: usize,
    pub first: Option<i32>,
    pub seen_idr: bool,
    pub held: Option<HeldData>,
}

/// Pairs that wait, with their order counts.
pub open spec fn wait_data(v: Seq<Waiting>) -> Seq<(i32, Pair)> {
    Seq::new(v.len(), |k: int| (v[k].poc, v[k].pair@))
}

/// The base frame that is held.
pub open spec fn held_data(h: Option<Held>) -> Option<HeldData> {
    match h {
        Some(x) => Some(
            HeldData { au: x.au@, poc: x.poc, leading: x.leading, base: x.base@ },
        ),
        None => None,
    }
}

impl View for Hier {
    type V = HierData;

    open spec fn view(&self) -> HierData {
        HierData {
            brefs: ref_data(self.brefs@),
            drefs: ref_data(self.drefs@),
            msb: self.msb,
            lsb: self.lsb,
            waiting: wait_data(self.waiting@),
            frames: self.frames,
            first: self.first,
            seen_idr: self.seen_idr,
            held: held_data(self.held),
        }
    }
}

/// A stream before its first access unit.
pub open spec fn unstarted() -> HierData {
    HierData {
        brefs: Seq::empty(),
        drefs: Seq::empty(),
        msb: 0,
        lsb: 0,
        waiting: Seq::empty(),
        frames: 0,
        first: None,
        seen_idr: false,
        held: None,
    }
}

/// How many reference frames a view keeps, and how many pairs can wait.
pub open spec fn window(sets: Sets) -> int {
    if sets.bsps.max_num_ref_frames < 2 {
        2
    } else {
        sets.bsps.max_num_ref_frames as int
    }
}

/// Reference frames after another: the oldest leaves when there are too many.
pub open spec fn with_ref(refs: Seq<RefData>, r: RefData, cap: int) -> Seq<RefData> {
    let t = refs.push(r);
    if t.len() > cap {
        t.skip(1)
    } else {
        t
    }
}

/// The first pair with the lowest order count among the first `n`.
pub open spec fn lowest(w: Seq<(i32, Pair)>, n: int) -> int
    decreases n,
{
    if n <= 1 {
        0
    } else {
        let k = lowest(w, n - 1);
        if w[n - 1].0 < w[k].0 {
            n - 1
        } else {
            k
        }
    }
}

/// The pair that goes first has the lowest order count.
pub proof fn law_lowest(w: Seq<(i32, Pair)>, n: int)
    requires
        1 <= n <= w.len(),
    ensures
        0 <= lowest(w, n) < n,
        forall|k: int| 0 <= k < n ==> w[lowest(w, n)].0 <= (#[trigger] w[k]).0,
    decreases n,
{
    if n > 1 {
        law_lowest(w, n - 1);
    }
}

/// Let the lowest pairs go while more than `cap` wait: those that still wait,
/// and those that went, after those in `out`.
pub open spec fn bumped(w: Seq<(i32, Pair)>, cap: int, out: Seq<Pair>) -> (
    Seq<(i32, Pair)>,
    Seq<Pair>,
)
    decreases w.len(),
{
    if w.len() == 0 || w.len() <= cap {
        (w, out)
    } else {
        let k = lowest(w, w.len() as int);
        if 0 <= k < w.len() {
            bumped(w.remove(k), cap, out.push(w[k].1))
        } else {
            (w, out)
        }
    }
}

/// The order counts of waiting pairs as sort keys.
pub open spec fn wait_keys(w: Seq<(i32, Pair)>) -> Seq<Option<i64>> {
    Seq::new(w.len(), |k: int| Some(w[k].0 as i64))
}

/// All waiting pairs in display order.
#[verifier::opaque]
pub open spec fn flushed(w: Seq<(i32, Pair)>) -> Seq<Pair> {
    let order = by_keys(wait_keys(w));
    Seq::new(order.len(), |k: int| w[order[k] as int].1)
}

/// A dependent frame of order count `poc`. It may refer to the base frame of the
/// same access unit if it is an anchor or its modifications ask for it.
#[verifier::opaque]
pub open spec fn dep_view(au: AuData, sets: Sets, poc: i32, refs: Seq<RefData>, base: Picture) -> Result<
    (Picture, MotionData),
    ClipError,
> {
    let env = dep_env(au, sets);
    if au.dep.len() == 0 {
        Err(ClipError::NoDependentView)
    } else {
        match header_of(au.dep[0], env) {
            Err(e) => Err(e),
            Ok(h) => hier_view(
                au.dep,
                env,
                h,
                poc,
                refs,
                only_if(
                    au.dep_anchor || wants_other_view(h.mods.0) || wants_other_view(h.mods.1),
                    Some(base),
                ),
            ),
        }
    }
}

/// Decode the dependent frame of the held base frame, keep it as a reference if
/// it is one, and let the pair wait for its turn; leading pairs are not shown.
#[verifier::opaque]
pub open spec fn completed(s: HierData, sets: Sets) -> Result<
    (HierData, Seq<Pair>),
    ClipError,
> {
    match s.held {
        None => Ok((s, Seq::empty())),
        Some(h) => match dep_view(h.au, sets, h.poc, s.drefs, h.base) {
            Err(e) => Err(e),
            Ok((d, m)) => {
                let refs = if h.au.dep_idc != 0 {
                    with_ref(s.drefs, RefData { poc: h.poc, pic: d, motion: m }, window(sets))
                } else {
                    s.drefs
                };
                let more = if h.leading {
                    s.waiting
                } else {
                    s.waiting.push((h.poc, paired(h.base, d, sets)))
                };
                let (waiting, out) = bumped(more, window(sets), Seq::empty());
                Ok(
                    (
                        HierData {
                            drefs: refs,
                            waiting,
                            frames: if h.leading {
                                s.frames
                            } else {
                                counted(s.frames)
                            },
                            held: None,
                            ..s
                        },
                        out,
                    ),
                )
            },
        },
    }
}

/// The state at an IDR frame: no references, nothing waits.
pub open spec fn restarted(s: HierData) -> HierData {
    HierData {
        brefs: Seq::empty(),
        drefs: Seq::empty(),
        msb: 0,
        lsb: 0,
        waiting: Seq::empty(),
        first: None,
        seen_idr: true,
        ..s
    }
}

/// The low part of a frame's order count.
pub open spec fn low_part(h: SliceData) -> i32 {
    match h.fields.pic_order_cnt_lsb {
        Some(v) => v as i32,
        None => 0,
    }
}

/// The high part of a frame's order count.
pub open spec fn high_part(s: HierData, au: AuData, h: SliceData, sets: Sets) -> i32 {
    if au.base_idr {
        0
    } else {
        msb_after(s.msb, s.lsb, low_part(h), lsb_count(sets.bsps))
    }
}

/// The state with a decoded base frame, kept as a reference if it is one, and
/// held for its dependent frame.
pub open spec fn with_base(
    s: HierData,
    au: AuData,
    h: SliceData,
    sets: Sets,
    pic: Picture,
    motion: MotionData,
) -> HierData {
    let (lsb, msb) = (low_part(h), high_part(s, au, h, sets));
    let poc = msb.wrapping_add(lsb);
    HierData {
        brefs: if au.base_idc != 0 {
            with_ref(s.brefs, RefData { poc, pic, motion }, window(sets))
        } else {
            s.brefs
        },
        msb: if au.base_idc != 0 {
            msb
        } else {
            s.msb
        },
        lsb: if au.base_idc != 0 {
            lsb
        } else {
            s.lsb
        },
        first: if s.first is None {
            Some(poc)
        } else {
            s.first
        },
        held: Some(
            HeldData {
                au,
                poc,
                leading: !s.seen_idr && match s.first {
                    Some(f) => poc < f,
                    None => false,
                },
                base: pic,
            },
        ),
        ..s
    }
}

/// The base frame of an access unit.
pub open spec fn base_view(s: HierData, au: AuData, h: SliceData, sets: Sets) -> Result<
    (Picture, MotionData),
    ClipError,
> {
    let poc = high_part(s, au, h, sets).wrapping_add(low_part(h));
    hier_view(au.base, base_env(au, sets), h, poc, s.brefs, None)
}

/// Decode the base frame of an access unit, then complete the one held before.
#[verifier::opaque]
pub open spec fn advanced(s: HierData, au: AuData, h: SliceData, sets: Sets) -> Result<
    (HierData, Seq<Pair>),
    ClipError,
> {
    match base_view(s, au, h, sets) {
        Err(e) => Err(e),
        Ok((p, m)) => match completed(s, sets) {
            Err(e) => Err(e),
            Ok((t, out)) => Ok((with_base(t, au, h, sets, p, m), out)),
        },
    }
}

/// The next access unit: the pairs that can be shown, and what is left. An IDR
/// frame lets everything before it go first.
#[verifier::opaque]
pub open spec fn hier_step(s: HierData, au: AuData, sets: Sets) -> (
    Seq<Pair>,
    Result<HierData, ClipError>,
) {
    match header_of(au.base[0], base_env(au, sets)) {
        Err(e) => (Seq::empty(), Err(e)),
        Ok(h) => if au.base_idr {
            match completed(s, sets) {
                Err(e) => (Seq::empty(), Err(e)),
                Ok((t, out)) => {
                    let shown = out + flushed(t.waiting);
                    match advanced(restarted(t), au, h, sets) {
                        Err(e) => (shown, Err(e)),
                        Ok((u, more)) => (shown + more, Ok(u)),
                    }
                },
            }
        } else {
            match advanced(s, au, h, sets) {
                Err(e) => (Seq::empty(), Err(e)),
                Ok((u, more)) => (more, Ok(u)),
            }
        },
    }
}

/// The end of the stream: the held frame is completed and all pairs go.
#[verifier::opaque]
pub open spec fn hier_end(s: HierData, sets: Sets) -> (
    Seq<Pair>,
    Result<HierData, ClipError>,
) {
    match completed(s, sets) {
        Err(e) => (Seq::empty(), Err(e)),
        Ok((t, out)) => (
            out + flushed(t.waiting),
            Ok(HierData { waiting: Seq::empty(), ..t }),
        ),
    }
}

// ---- the steps ----

fn push_ref(refs: &mut Vec<ViewRef>, r: ViewRef, sets: &Sets, Ghost(sps): Ghost<Sps>)
    requires
        all_sized(old(refs)@, sps),
        sized_for(r.frame, sps),
    ensures
        ref_data(final(refs)@) == with_ref(ref_data(old(refs)@), r@, window(*sets)),
        all_sized(final(refs)@, sps),
{
    let ghost was = refs@;
    refs.push(r);
    assert(ref_data(refs@) =~= ref_data(was).push(r@));
    assert(all_sized(refs@, sps));
    let cap: u32 = if sets.bsps.max_num_ref_frames < 2 {
        2
    } else {
        sets.bsps.max_num_ref_frames
    };
    if refs.len() as u64 > cap as u64 {
        let ghost all = refs@;
        let _oldest = refs.remove(0);
        assert(refs@ =~= all.skip(1));
        assert(ref_data(refs@) =~= ref_data(all).skip(1));
        assert(all_sized(refs@, sps)) by {
            assert forall|k: int| 0 <= k < refs@.len() implies sized_for(
                (#[trigger] refs@[k]).frame,
                sps,
            ) by {
                assert(refs@[k] == all[k + 1]);
            }
        }
    }
}

/// All waiting pairs are whole.
pub open spec fn waiting_whole(w: Seq<Waiting>) -> bool {
    forall|k: int| 0 <= k < w.len() ==> (#[trigger] w[k]).pair.base.ok() && w[k].pair.dep.ok()
}

fn find_lowest(w: &Vec<Waiting>) -> (k: usize)
    requires
        w@.len() > 0,
    ensures
        k == lowest(wait_data(w@), w@.len() as int),
        k < w@.len(),
{
    let n: usize = w.len();
    let mut k: usize = 0;
    let ghost d = wait_data(w@);
    for i in 1..n
        invariant
            n == w@.len(),
            n > 0,
            d == wait_data(w@),
            k < i,
            k == lowest(d, i as int),
    {
        if w[i].poc < w[k].poc {
            k = i;
        }
    }
    k
}

fn append_pair(out: &mut Vec<FramePair>, p: FramePair)
    requires
        p.base.ok(),
        p.dep.ok(),
    ensures
        pairs(final(out)@) == pairs(old(out)@).push(p@),
        all_whole(old(out)@) ==> all_whole(final(out)@),
{
    let ghost was = out@;
    out.push(p);
    assert(pairs(out@) =~= pairs(was).push(p@));
}

proof fn lemma_bumped(w: Seq<(i32, Pair)>, cap: int, out: Seq<Pair>)
    ensures
        bumped(w, cap, out).0 == bumped(w, cap, Seq::empty()).0,
        bumped(w, cap, out).1 == out + bumped(w, cap, Seq::empty()).1,
    decreases w.len(),
{
    if w.len() == 0 || w.len() <= cap {
        assert(out + Seq::<Pair>::empty() =~= out);
    } else {
        let k = lowest(w, w.len() as int);
        if 0 <= k < w.len() {
            let x = w[k].1;
            lemma_bumped(w.remove(k), cap, out.push(x));
            lemma_bumped(w.remove(k), cap, Seq::empty().push(x));
            let rest = bumped(w.remove(k), cap, Seq::empty()).1;
            assert(out.push(x) + rest =~= out + (Seq::empty().push(x) + rest));
        } else {
            assert(out + Seq::<Pair>::empty() =~= out);
        }
    }
}

fn bump(w: &mut Vec<Waiting>, sets: &Sets, out: &mut Vec<FramePair>)
    requires
        waiting_whole(old(w)@),
    ensures
        (wait_data(final(w)@), pairs(final(out)@)) == bumped(
            wait_data(old(w)@),
            window(*sets),
            pairs(old(out)@),
        ),
        waiting_whole(final(w)@),
        all_whole(old(out)@) ==> all_whole(final(out)@),
{
    let cap: u32 = if sets.bsps.max_num_ref_frames < 2 {
        2
    } else {
        sets.bsps.max_num_ref_frames
    };
    let ghost want = bumped(wait_data(w@), cap as int, pairs(out@));
    while w.len() as u64 > cap as u64
        invariant
            waiting_whole(w@),
            all_whole(old(out)@) ==> all_whole(out@),
            cap >= 2,
            bumped(wait_data(w@), cap as int, pairs(out@)) == want,
        decreases w@.len(),
    {
        let k: usize = find_lowest(w);
        let ghost was = w@;
        let x = w.remove(k);
        assert(w@ =~= was.remove(k as int));
        assert(wait_data(w@) =~= wait_data(was).remove(k as int));
        assert(waiting_whole(w@)) by {
            assert forall|j: int| 0 <= j < w@.len() implies (#[trigger] w@[j]).pair.base.ok()
                && w@[j].pair.dep.ok() by {
                assert(w@[j] == was[if j < k {
                    j
                } else {
                    j + 1
                }]);
            }
        }
        assert(x == was[k as int]);
        append_pair(out, x.pair);
    }
}

fn wait_order(w: &Vec<Waiting>) -> (r: Vec<usize>)
    ensures
        r@ == by_keys(wait_keys(wait_data(w@))),
        forall|k: int| 0 <= k < r@.len() ==> (#[trigger] r@[k]) < w@.len(),
{
    let mut keys: Vec<Option<i64>> = Vec::new();
    let n: usize = w.len();
    let ghost want = wait_keys(wait_data(w@));
    for i in 0..n
        invariant
            n == w@.len(),
            want == wait_keys(wait_data(w@)),
            keys@.len() == i,
            forall|k: int| 0 <= k < i ==> #[trigger] keys@[k] == want[k],
    {
        keys.push(Some(w[i].poc as i64));
    }
    assert(keys@ =~= want);
    proof {
        law_ranked(want, n as int);
    }
    rank(&keys)
}

fn flush(w: &mut Vec<Waiting>, out: &mut Vec<FramePair>)
    requires
        waiting_whole(old(w)@),
    ensures
        final(w)@ == Seq::<Waiting>::empty(),
        pairs(final(out)@) == pairs(old(out)@) + flushed(wait_data(old(w)@)),
        all_whole(old(out)@) ==> all_whole(final(out)@),
{
    proof {
        reveal(flushed);
    }
    let order = wait_order(w);
    let n: usize = order.len();
    let ghost all = flushed(wait_data(w@));
    let ghost start = pairs(out@);
    for i in 0..n
        invariant
            n == order@.len(),
            w@ == old(w)@,
            waiting_whole(w@),
            all_whole(old(out)@) ==> all_whole(out@),
            forall|k: int| 0 <= k < order@.len() ==> (#[trigger] order@[k]) < w@.len(),
            order@ == by_keys(wait_keys(wait_data(w@))),
            all.len() == order@.len(),
            forall|k: int|
                0 <= k < order@.len() ==> #[trigger] all[k] == w@[order@[k] as int].pair@,
            pairs(out@) == start + all.take(i as int),
    {
        let k: usize = order[i];
        let p = FramePair {
            base: clone_frame(&w[k].pair.base),
            dep: clone_frame(&w[k].pair.dep),
            width: w[k].pair.width,
            height: w[k].pair.height,
        };
        append_pair(out, p);
        assert((start + all.take(i as int)).push(all[i as int]) =~= start + all.take(i + 1));
    }
    assert(all.take(n as int) =~= all);
    w.clear();
}

fn decode_dep(au: &Au, sets: &Sets, poc: i32, refs: &Vec<ViewRef>, base: &Frame) -> (r: Result<
    (Frame, MotionField),
    ClipError,
>)
    requires
        all_sized(refs@, sets.dsps),
    ensures
        ({
            let want = dep_view(au@, *sets, poc, ref_data(refs@), base@);
            match r {
                Ok((f, m)) => want == Ok::<(Picture, MotionData), ClipError>((f@, m@)) && sized_for(
                    f,
                    sets.dsps,
                ),
                Err(e) => want == Err::<(Picture, MotionData), ClipError>(e),
            }
        }),
{
    proof {
        reveal(dep_view);
    }
    if au.dep.len() == 0 {
        return Err(ClipError::NoDependentView);
    }
    let pps = pps_in_force(&au.dpps, &sets.dpps);
    let slices = slices_of(&au.dep);
    assert(slices@[0]@ == strings(au.dep@)[0]);
    let h = read_header(slices[0], au.dep_idr, au.dep_idc, &sets.dsps, &pps)?;
    let inter: bool = au.dep_anchor || asks_other_view(&h.ref_pic_list_modifications.list0)
        || asks_other_view(&h.ref_pic_list_modifications.list1);
    let other: Option<&Frame> = if inter {
        Some(base)
    } else {
        None
    };
    decode_hier_view(
        slices.as_slice(),
        au.dep_idc,
        au.dep_idr,
        &h,
        poc,
        &sets.dsps,
        &pps,
        refs,
        other,
    )
}

impl Hier {
    /// The frames have the sizes of their sequences.
    pub open spec fn wf(self, sets: Sets) -> bool {
        &&& all_sized(self.brefs@, sets.bsps)
        &&& all_sized(self.drefs@, sets.dsps)
        &&& waiting_whole(self.waiting@)
        &&& match self.held {
            Some(h) => sized_for(h.base, sets.bsps),
            None => true,
        }
    }

    pub fn new() -> (s: Hier)
        ensures
            s@ == unstarted(),
            forall|sets: Sets| s.wf(sets),
    {
        let s = Hier {
            brefs: Vec::new(),
            drefs: Vec::new(),
            msb: 0,
            lsb: 0,
            waiting: Vec::new(),
            frames: 0,
            first: None,
            seen_idr: false,
            held: None,
        };
        assert(s@ =~= unstarted());
        s
    }

    fn complete(&mut self, sets: &Sets, out: &mut Vec<FramePair>) -> (r: Result<(), ClipError>)
        requires
            old(self).wf(*sets),
        ensures
            ({
                let want = completed(old(self)@, *sets);
                match r {
                    Ok(_) => want is Ok && final(self)@ == want->Ok_0.0 && pairs(final(out)@)
                        == pairs(old(out)@) + want->Ok_0.1 && final(self).wf(*sets),
                    Err(e) => want == Err::<(HierData, Seq<Pair>), ClipError>(e)
                        && final(out)@ == old(out)@,
                }
            }),
            all_whole(old(out)@) ==> all_whole(final(out)@),
    {
        proof {
            reveal(completed);
        }
        let held = self.held.take();
        let h = match held {
            Some(h) => h,
            None => {
                assert(pairs(out@) + Seq::<Pair>::empty() =~= pairs(out@));
                return Ok(());
            },
        };
        let (d, m) = decode_dep(&h.au, sets, h.poc, &self.drefs, &h.base)?;
        if h.au.dep_idc != 0 {
            push_ref(
                &mut self.drefs,
                ViewRef { poc: h.poc, frame: clone_frame(&d), motion: m },
                sets,
                Ghost(sets.dsps),
            );
        }
        let ghost was = self.waiting@;
        if !h.leading {
            self.frames = count(self.frames);
            let pair = FramePair {
                base: h.base,
                dep: d,
                width: sets.bsps.width,
                height: sets.bsps.height,
            };
            self.waiting.push(Waiting { poc: h.poc, pair });
            assert(wait_data(self.waiting@) =~= wait_data(was).push(
                (h.poc, paired(h.base@, d@, *sets)),
            ));
        }
        proof {
            lemma_bumped(wait_data(self.waiting@), window(*sets), pairs(out@));
        }
        bump(&mut self.waiting, sets, out);
        Ok(())
    }

    fn restart(&mut self, Ghost(sets): Ghost<Sets>)
        requires
            old(self).wf(sets),
            old(self).waiting@.len() == 0,
        ensures
            final(self)@ == restarted(old(self)@),
            final(self).wf(sets),
    {
        self.brefs.clear();
        self.drefs.clear();
        self.msb = 0;
        self.lsb = 0;
        self.seen_idr = true;
        self.first = None;
        assert(self@ =~= restarted(old(self)@));
    }

    fn advance(&mut self, au: Au, h: &SliceHeader, sets: &Sets, out: &mut Vec<FramePair>) -> (r:
        Result<(), ClipError>)
        requires
            old(self).wf(*sets),
            widths_ok(sets.bsps),
            sets.bsps.log2_max_pic_order_cnt_lsb_minus4 <= 27,
        ensures
            ({
                let want = advanced(old(self)@, au@, h@, *sets);
                match r {
                    Ok(_) => want is Ok && final(self)@ == want->Ok_0.0 && pairs(final(out)@)
                        == pairs(old(out)@) + want->Ok_0.1 && final(self).wf(*sets),
                    Err(e) => want == Err::<(HierData, Seq<Pair>), ClipError>(e)
                        && final(out)@ == old(out)@,
                }
            }),
            all_whole(old(out)@) ==> all_whole(final(out)@),
    {
        proof {
            reveal(advanced);
        }
        let lsb: i32 = match h.pic_order_cnt_lsb {
            Some(v) => v as i32,
            None => 0,
        };
        let msb: i32 = if au.base_idr {
            0
        } else {
            next_msb(self.msb, self.lsb, lsb, count_lsb(&sets.bsps))
        };
        let poc: i32 = msb.wrapping_add(lsb);
        let pps = pps_in_force(&au.bpps, &sets.bpps);
        let slices = slices_of(&au.base);
        let (b, m) = decode_hier_view(
            slices.as_slice(),
            au.base_idc,
            au.base_idr,
            h,
            poc,
            &sets.bsps,
            &pps,
            &self.brefs,
            None,
        )?;
        self.complete(sets, out)?;
        let ghost t = self@;
        let leading: bool = !self.seen_idr && match self.first {
            Some(f) => poc < f,
            None => false,
        };
        if self.first.is_none() {
            self.first = Some(poc);
        }
        if au.base_idc != 0 {
            self.msb = msb;
            self.lsb = lsb;
            push_ref(
                &mut self.brefs,
                ViewRef { poc, frame: clone_frame(&b), motion: m },
                sets,
                Ghost(sets.bsps),
            );
        }
        proof {
            lemma_completed_frame(old(self)@, *sets);
        }
        self.held = Some(Held { au, poc, leading, base: b });
        assert(self@ =~= with_base(t, au@, h@, *sets, b@, m@));
        Ok(())
    }

    /// Decode an access unit and append the pairs that can be shown.
    pub fn step(&mut self, au: Au, sets: &Sets, out: &mut Vec<FramePair>) -> (r: Result<
        (),
        ClipError,
    >)
        requires
            old(self).wf(*sets),
            sets.bsps.log2_max_pic_order_cnt_lsb_minus4 <= 27,
            au@.base.len() > 0,
        ensures
            ({
                let want = hier_step(old(self)@, au@, *sets);
                &&& pairs(final(out)@) == pairs(old(out)@) + want.0
                &&& match r {
                    Ok(_) => want.1 == Ok::<HierData, ClipError>(final(self)@) && final(self).wf(
                        *sets,
                    ),
                    Err(e) => want.1 == Err::<HierData, ClipError>(e),
                }
            }),
            all_whole(old(out)@) ==> all_whole(final(out)@),
    {
        proof {
            reveal(hier_step);
        }
        let pps = pps_in_force(&au.bpps, &sets.bpps);
        assert(au.base@[0]@ == strings(au.base@)[0]);
        let ghost start = pairs(out@);
        assert(start + Seq::<Pair>::empty() =~= start);
        let h = read_header(au.base[0].as_slice(), au.base_idr, au.base_idc, &sets.bsps, &pps)?;
        if au.base_idr {
            self.complete(sets, out)?;
            let ghost t = self@;
            let ghost o1 = completed(old(self)@, *sets)->Ok_0.1;
            flush(&mut self.waiting, out);
            let ghost o2 = flushed(t.waiting);
            assert((start + o1) + o2 =~= start + (o1 + o2));
            self.restart(Ghost(*sets));
            assert(self@ =~= restarted(t));
            self.advance(au, &h, sets, out)?;
            proof {
                let more = advanced(restarted(t), au@, h@, *sets)->Ok_0.1;
                assert((start + (o1 + o2)) + more =~= start + ((o1 + o2) + more));
            }
        } else {
            self.advance(au, &h, sets, out)?;
        }
        Ok(())
    }

    /// Decode what is held and append all pairs that are left.
    pub fn end(&mut self, sets: &Sets, out: &mut Vec<FramePair>) -> (r: Result<(), ClipError>)
        requires
            old(self).wf(*sets),
        ensures
            ({
                let want = hier_end(old(self)@, *sets);
                &&& pairs(final(out)@) == pairs(old(out)@) + want.0
                &&& match r {
                    Ok(_) => want.1 == Ok::<HierData, ClipError>(final(self)@),
                    Err(e) => want.1 == Err::<HierData, ClipError>(e),
                }
            }),
            all_whole(old(out)@) ==> all_whole(final(out)@),
    {
        proof {
            reveal(hier_end);
        }
        let ghost start = pairs(out@);
        assert(start + Seq::<Pair>::empty() =~= start);
        self.complete(sets, out)?;
        let ghost t = self@;
        let ghost o1 = completed(old(self)@, *sets)->Ok_0.1;
        flush(&mut self.waiting, out);
        assert((start + o1) + flushed(t.waiting) =~= start + (o1 + flushed(t.waiting)));
        assert(self@ =~= (HierData { waiting: Seq::empty(), ..t }));
        Ok(())
    }
}

/// Completing a pair leaves the base view as it is, and holds nothing.
pub proof fn lemma_completed_frame(s: HierData, sets: Sets)
    ensures
        completed(s, sets) matches Ok((t, out)) ==> t.brefs == s.brefs && t.msb == s.msb && t.lsb
            == s.lsb && t.first == s.first && t.seen_idr == s.seen_idr && t.held is None,
{
    reveal(completed);
}

} // verus!

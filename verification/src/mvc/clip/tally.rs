//! What a clip reports of itself: it counts the pairs that it has given, and all
//! of them have its size.

use crate::mvc::clip::au::{coded, fed, AuData, Gathered};
use crate::mvc::clip::hier::{
    advanced, bumped, completed, dep_view, flushed, hier_end, hier_step, law_lowest, lowest,
    restarted, window, HierData,
};
use crate::mvc::clip::laws::law_flushed_in_display_order;
use crate::mvc::clip::sliding::sliding_step;
use crate::mvc::clip::stream::{paired, Pair, Sets};
use crate::mvc::clip::{
    begun, clip_end, clip_run, clip_step, clip_start, last_step, phase_step, route_of, route_run,
    route_step, sets_of, ClipData, PhaseData, RouteData,
};
use vstd::prelude::*;

verus! {

/// A number as far as the counter goes.
pub open spec fn capped(n: nat) -> usize {
    if n < usize::MAX {
        n as usize
    } else {
        usize::MAX
    }
}

/// All pairs are shown in this size.
pub open spec fn all_size(v: Seq<Pair>, width: u32, height: u32) -> bool {
    forall|k: int| 0 <= k < v.len() ==> (#[trigger] v[k]).width == width && v[k].height == height
}

/// A stream with B frames that has given `n` pairs: they and those that wait are
/// counted.
pub open spec fn hier_accounts(s: HierData, sets: Sets, n: nat) -> bool {
    &&& s.frames == capped(n + s.waiting.len())
    &&& s.waiting.len() <= window(sets)
    &&& forall|k: int|
        0 <= k < s.waiting.len() ==> (#[trigger] s.waiting[k]).1.width == sets.bsps.width
            && s.waiting[k].1.height == sets.bsps.height
}

/// A stream that has given these pairs.
pub open spec fn route_accounts(r: RouteData, sets: Sets, given: Seq<Pair>) -> bool {
    &&& all_size(given, sets.bsps.width, sets.bsps.height)
    &&& match r {
        RouteData::Sliding(s) => s.frames == capped(given.len()),
        RouteData::Hier(s) => hier_accounts(s, sets, given.len()),
    }
}

/// A decoding that has given these pairs.
pub open spec fn phase_accounts(p: PhaseData, given: Seq<Pair>) -> bool {
    match p {
        PhaseData::Detecting(_) => given.len() == 0,
        PhaseData::Running(sets, r) => route_accounts(r, sets, given),
    }
}

/// A clip that has given these pairs, and no others, so far.
pub open spec fn accounts(c: ClipData, given: Seq<Pair>) -> bool {
    phase_accounts(c.phase, given)
}

proof fn lemma_bumped(w: Seq<(i32, Pair)>, cap: int, out: Seq<Pair>, width: u32, height: u32)
    requires
        cap >= 0,
        all_size(out, width, height),
        forall|k: int|
            0 <= k < w.len() ==> (#[trigger] w[k]).1.width == width && w[k].1.height == height,
    ensures
        ({
            let (x, o) = bumped(w, cap, out);
            &&& x.len() + o.len() == w.len() + out.len()
            &&& x.len() <= cap
            &&& all_size(o, width, height)
            &&& forall|k: int|
                0 <= k < x.len() ==> (#[trigger] x[k]).1.width == width && x[k].1.height == height
        }),
    decreases w.len(),
{
    if w.len() > cap {
        law_lowest(w, w.len() as int);
        let k = lowest(w, w.len() as int);
        lemma_bumped(w.remove(k), cap, out.push(w[k].1), width, height);
    }
}

proof fn lemma_flushed(w: Seq<(i32, Pair)>, sets: Sets)
    requires
        w.len() <= window(sets),
        forall|k: int|
            0 <= k < w.len() ==> (#[trigger] w[k]).1.width == sets.bsps.width && w[k].1.height
                == sets.bsps.height,
    ensures
        flushed(w).len() == w.len(),
        all_size(flushed(w), sets.bsps.width, sets.bsps.height),
{
    law_flushed_in_display_order(w);
    let order = crate::mvc::reflist::by_keys(crate::mvc::clip::hier::wait_keys(w));
    assert forall|k: int| 0 <= k < w.len() implies (#[trigger] flushed(w)[k]).width
        == sets.bsps.width && flushed(w)[k].height == sets.bsps.height by {
        assert(order[k] < w.len());
        assert(flushed(w)[k] == w[order[k] as int].1);
    }
}

proof fn lemma_completed(s: HierData, sets: Sets, n: nat)
    requires
        hier_accounts(s, sets, n),
    ensures
        completed(s, sets) matches Ok((t, out)) ==> hier_accounts(t, sets, n + out.len())
            && all_size(out, sets.bsps.width, sets.bsps.height),
{
    reveal(completed);
    match s.held {
        None => {},
        Some(h) => match dep_view(h.au, sets, h.poc, s.drefs, h.base) {
            Err(_) => {},
            Ok((d, m)) => {
                let more = if h.leading {
                    s.waiting
                } else {
                    s.waiting.push((h.poc, paired(h.base, d, sets)))
                };
                lemma_bumped(
                    more,
                    window(sets),
                    Seq::empty(),
                    sets.bsps.width,
                    sets.bsps.height,
                );
            },
        },
    }
}

proof fn lemma_hier_step(s: HierData, au: AuData, sets: Sets, n: nat)
    requires
        hier_accounts(s, sets, n),
    ensures
        hier_step(s, au, sets) matches (out, Ok(t)) ==> hier_accounts(t, sets, n + out.len())
            && all_size(out, sets.bsps.width, sets.bsps.height),
{
    reveal(hier_step);
    reveal(advanced);
    lemma_completed(s, sets, n);
    match completed(s, sets) {
        Err(_) => {},
        Ok((t, out)) => {
            lemma_flushed(t.waiting, sets);
            lemma_completed(restarted(t), sets, n + out.len() + t.waiting.len());
        },
    }
}

proof fn lemma_hier_end(s: HierData, sets: Sets, n: nat)
    requires
        hier_accounts(s, sets, n),
    ensures
        hier_end(s, sets) matches (out, Ok(t)) ==> t.frames == capped(n + out.len())
            && all_size(out, sets.bsps.width, sets.bsps.height),
{
    reveal(hier_end);
    lemma_completed(s, sets, n);
    match completed(s, sets) {
        Err(_) => {},
        Ok((t, out)) => {
            lemma_flushed(t.waiting, sets);
        },
    }
}

proof fn lemma_route_step(r: RouteData, au: AuData, sets: Sets, given: Seq<Pair>)
    requires
        route_accounts(r, sets, given),
    ensures
        route_step(r, au, sets) matches (out, Ok(t)) ==> route_accounts(t, sets, given + out),
{
    reveal(sliding_step);
    match r {
        RouteData::Sliding(s) => {},
        RouteData::Hier(s) => {
            lemma_hier_step(s, au, sets, given.len());
        },
    }
}

proof fn lemma_route_run(
    r: RouteData,
    aus: Seq<AuData>,
    i: int,
    sets: Sets,
    out: Seq<Pair>,
)
    requires
        route_accounts(r, sets, out),
    ensures
        route_run(r, aus, i, sets, out) matches (all, Ok(t)) ==> route_accounts(t, sets, all),
    decreases aus.len() - i,
{
    if i < aus.len() {
        lemma_route_step(r, aus[i], sets, out);
        match route_step(r, aus[i], sets) {
            (more, Ok(t)) => {
                lemma_route_run(t, aus, i + 1, sets, out + more);
            },
            (more, Err(e)) => {},
        }
    }
}

proof fn lemma_begun(a: Gathered, aus: Seq<AuData>)
    ensures
        begun(a, aus) matches (out, Ok(p)) ==> phase_accounts(p, out),
{
    match sets_of(a) {
        Err(_) => {},
        Ok(sets) => match route_of(aus, sets) {
            Err(_) => {},
            Ok(r) => {
                lemma_route_run(r, aus, 0, sets, Seq::empty());
            },
        },
    }
}

proof fn lemma_phase_step(a: Gathered, p: PhaseData, au: AuData, given: Seq<Pair>)
    requires
        phase_accounts(p, given),
    ensures
        phase_step(a, p, au) matches (out, Ok(q)) ==> phase_accounts(q, given + out),
{
    reveal(phase_step);
    match p {
        PhaseData::Detecting(aus) => {
            lemma_begun(a, aus.push(au));
            let out = phase_step(a, p, au).0;
            assert(given + out =~= out);
        },
        PhaseData::Running(sets, r) => {
            lemma_route_step(r, au, sets, given);
        },
    }
}

/// A clip accounts for the pairs that it gives: after another NAL unit for those
/// of that unit too, and at the end it reports how many they were, as far as the
/// counter goes, and their size.
pub proof fn law_pairs_are_counted(c: ClipData, nal: Seq<u8>, given: Seq<Pair>)
    requires
        accounts(c, given),
    ensures
        accounts(clip_start(), Seq::empty()),
        clip_step(c, nal) matches (out, Ok(d)) ==> accounts(d, given + out),
        clip_end(c) matches (out, Ok(info)) ==> info.frames == capped((given + out).len())
            && all_size(given + out, info.width, info.height),
{
    reveal(clip_step);
    reveal(clip_end);
    reveal(last_step);
    assert(given + Seq::<Pair>::empty() =~= given);
    match fed(c.units, nal) {
        Ok((a, Some(au))) => {
            lemma_phase_step(a, c.phase, au, given);
        },
        _ => {},
    }
    match (c.phase, coded(c.units.cur)) {
        (PhaseData::Detecting(aus), None) => {
            lemma_begun(c.units, aus);
        },
        (PhaseData::Detecting(aus), Some(au)) => {
            lemma_begun(c.units, aus.push(au));
        },
        (PhaseData::Running(sets, r), None) => {},
        (PhaseData::Running(sets, r), Some(au)) => {
            lemma_phase_step(c.units, c.phase, au, given);
        },
    }
    match last_step(c) {
        (out, Ok(p)) => {
            assert(phase_accounts(p, given + out)) by {
                assert(c.phase is Detecting ==> given + out =~= out);
            }
            match p {
                PhaseData::Running(sets, RouteData::Hier(s)) => {
                    lemma_hier_end(s, sets, (given + out).len());
                    let more = hier_end(s, sets).0;
                    assert((given + out) + more =~= given + (out + more));
                },
                _ => {
                    assert(given + (out + Seq::<Pair>::empty()) =~= given + out);
                },
            }
        },
        (out, Err(e)) => {},
    }
}

/// A whole clip reports how many pairs it has given, as far as the counter goes,
/// and their size.
pub proof fn law_clip_is_counted(c: ClipData, nals: Seq<Seq<u8>>, i: int, out: Seq<Pair>)
    requires
        accounts(c, out),
    ensures
        clip_run(c, nals, i, out) matches (all, Ok(info)) ==> info.frames == capped(all.len())
            && all_size(all, info.width, info.height),
    decreases nals.len() - i,
{
    if i >= nals.len() {
        law_pairs_are_counted(c, Seq::empty(), out);
    } else {
        law_pairs_are_counted(c, nals[i], out);
        match clip_step(c, nals[i]) {
            (more, Ok(d)) => {
                law_clip_is_counted(d, nals, i + 1, out + more);
            },
            (more, Err(e)) => {},
        }
    }
}

} // verus!

//! What holds of whole streams with B frames: pairs leave in display order, few
//! frames are kept, and running the base view ahead changes nothing.

use crate::mvc::clip::au::AuData;
use crate::mvc::clip::hier::{
    advanced, base_view, bumped, completed, flushed, hier_end, hier_step, lemma_completed_frame,
    lowest, restarted, unstarted, wait_keys, window, with_base, HierData,
};
use crate::mvc::clip::stream::{base_env, paired, Pair, Sets};
use crate::mvc::clip::view::header_of;
use crate::mvc::clip::ClipError;
use crate::mvc::reflist::{by_keys, law_ranked, precedes, ranked};
use vstd::prelude::*;

verus! {

// ---- display order ----

proof fn lemma_ranked_all(keys: Seq<Option<i64>>, n: int)
    requires
        0 <= n <= keys.len(),
        forall|k: int| 0 <= k < keys.len() ==> (#[trigger] keys[k]) is Some,
    ensures
        ranked(keys, n).len() == n,
    decreases n,
{
    if n > 0 {
        lemma_ranked_all(keys, n - 1);
        assert(keys[n - 1] is Some);
        crate::mvc::reflist::lemma_place(ranked(keys, n - 1), keys, keys[n - 1]->0, 0);
    }
}

/// When the waiting pairs all go, each goes once, in display order; pairs of the
/// same order count go in the order in which they came.
pub proof fn law_flushed_in_display_order(w: Seq<(i32, Pair)>)
    requires
        w.len() <= usize::MAX,
    ensures
        ({
            let order = by_keys(wait_keys(w));
            &&& flushed(w).len() == w.len()
            &&& order.len() == w.len()
            &&& forall|k: int|
                0 <= k < w.len() ==> (#[trigger] order[k]) < w.len() && flushed(w)[k]
                    == w[order[k] as int].1
            &&& forall|a: int, b: int|
                0 <= a < b < w.len() ==> {
                    let (i, j) = (#[trigger] order[a] as int, #[trigger] order[b] as int);
                    w[i].0 < w[j].0 || (w[i].0 == w[j].0 && i < j)
                }
        }),
{
    reveal(flushed);
    let keys = wait_keys(w);
    law_ranked(keys, keys.len() as int);
    lemma_ranked_all(keys, keys.len() as int);
    let order = by_keys(keys);
    assert forall|a: int, b: int| 0 <= a < b < w.len() implies {
        let (i, j) = (#[trigger] order[a] as int, #[trigger] order[b] as int);
        w[i].0 < w[j].0 || (w[i].0 == w[j].0 && i < j)
    } by {
        assert(precedes(keys, order[a] as int, order[b] as int));
    }
}

// ---- few frames are kept ----

/// Each view keeps at most a window of reference frames, and no more pairs wait.
pub open spec fn bounded(s: HierData, sets: Sets) -> bool {
    &&& s.brefs.len() <= window(sets)
    &&& s.drefs.len() <= window(sets)
    &&& s.waiting.len() <= window(sets)
}

proof fn lemma_bumped_len(w: Seq<(i32, Pair)>, cap: int, out: Seq<Pair>)
    requires
        cap >= 0,
    ensures
        bumped(w, cap, out).0.len() <= cap,
    decreases w.len(),
{
    if w.len() > cap {
        crate::mvc::clip::hier::law_lowest(w, w.len() as int);
        let k = lowest(w, w.len() as int);
        lemma_bumped_len(w.remove(k), cap, out.push(w[k].1));
    }
}

proof fn lemma_completed_bounded(s: HierData, sets: Sets)
    requires
        bounded(s, sets),
    ensures
        completed(s, sets) matches Ok((t, out)) ==> bounded(t, sets),
{
    reveal(completed);
    match s.held {
        None => {},
        Some(h) => {
            match crate::mvc::clip::hier::dep_view(h.au, sets, h.poc, s.drefs, h.base) {
                Err(_) => {},
                Ok((d, m)) => {
                    let more = if h.leading {
                        s.waiting
                    } else {
                        s.waiting.push((h.poc, paired(h.base, d, sets)))
                    };
                    lemma_bumped_len(more, window(sets), Seq::empty());
                },
            }
        },
    }
}

/// However long the stream, decoding keeps no more frames than a window for
/// each view, and no more pairs than that wait for their turn.
pub proof fn law_bounded(s: HierData, au: AuData, sets: Sets)
    requires
        bounded(s, sets),
    ensures
        bounded(unstarted(), sets),
        hier_step(s, au, sets).1 matches Ok(t) ==> bounded(t, sets),
{
    reveal(hier_step);
    reveal(advanced);
    lemma_completed_bounded(s, sets);
    match completed(s, sets) {
        Err(_) => {},
        Ok((t, _)) => {
            lemma_completed_bounded(restarted(t), sets);
        },
    }
}

// ---- one view ahead ----

/// Decode an access unit in full before the next: base frame, dependent frame,
/// and what can be shown.
#[verifier::opaque]
pub open spec fn serial_step(s: HierData, au: AuData, sets: Sets) -> Result<
    (HierData, Seq<Pair>),
    ClipError,
> {
    match header_of(au.base[0], base_env(au, sets)) {
        Err(e) => Err(e),
        Ok(h) => {
            let (s0, before) = if au.base_idr {
                (restarted(s), flushed(s.waiting))
            } else {
                (s, Seq::empty())
            };
            match base_view(s0, au, h, sets) {
                Err(e) => Err(e),
                Ok((p, m)) => match completed(with_base(s0, au, h, sets, p, m), sets) {
                    Err(e) => Err(e),
                    Ok((t, out)) => Ok((t, before + out)),
                },
            }
        },
    }
}

/// The access units from `i` on with the base view ahead, after those in `out`.
pub open spec fn ahead_run(
    s: HierData,
    aus: Seq<AuData>,
    i: int,
    sets: Sets,
    out: Seq<Pair>,
) -> Result<Seq<Pair>, ClipError>
    decreases aus.len() - i,
{
    if i >= aus.len() {
        match hier_end(s, sets) {
            (more, Ok(_)) => Ok(out + more),
            (more, Err(e)) => Err(e),
        }
    } else {
        match hier_step(s, aus[i], sets) {
            (more, Ok(t)) => ahead_run(t, aus, i + 1, sets, out + more),
            (more, Err(e)) => Err(e),
        }
    }
}

/// The access units from `i` on, each in full, after those in `out`.
pub open spec fn serial_run(
    s: HierData,
    aus: Seq<AuData>,
    i: int,
    sets: Sets,
    out: Seq<Pair>,
) -> Result<Seq<Pair>, ClipError>
    decreases aus.len() - i,
{
    if i >= aus.len() {
        Ok(out + flushed(s.waiting))
    } else {
        match serial_step(s, aus[i], sets) {
            Ok((t, more)) => serial_run(t, aus, i + 1, sets, out + more),
            Err(e) => Err(e),
        }
    }
}

proof fn lemma_idle(s: HierData, sets: Sets)
    requires
        s.held is None,
    ensures
        completed(s, sets) == Ok::<(HierData, Seq<Pair>), ClipError>(
            (s, Seq::empty()),
        ),
{
    reveal(completed);
}

proof fn lemma_step(s: HierData, au: AuData, sets: Sets, c: HierData, oc: Seq<Pair>)
    requires
        completed(s, sets) == Ok::<(HierData, Seq<Pair>), ClipError>((c, oc)),
        hier_step(s, au, sets).1 is Ok,
        completed(hier_step(s, au, sets).1->Ok_0, sets) is Ok,
    ensures
        ({
            let (out, u) = (hier_step(s, au, sets).0, hier_step(s, au, sets).1->Ok_0);
            let (d, od) = completed(u, sets)->Ok_0;
            let r = serial_step(c, au, sets);
            &&& r is Ok
            &&& r->Ok_0.0 == d
            &&& oc + r->Ok_0.1 == out + od
        }),
{
    reveal(hier_step);
    reveal(advanced);
    reveal(serial_step);
    lemma_completed_frame(s, sets);
    let (out, u) = (hier_step(s, au, sets).0, hier_step(s, au, sets).1->Ok_0);
    let (d, od) = completed(u, sets)->Ok_0;
    if au.base_idr {
        lemma_idle(restarted(c), sets);
        let f = flushed(c.waiting);
        assert(oc + (f + od) =~= (oc + f + Seq::<Pair>::empty()) + od);
    } else {
        assert(oc + (Seq::<Pair>::empty() + od) =~= oc + od);
    }
}

proof fn lemma_runs(
    s: HierData,
    aus: Seq<AuData>,
    i: int,
    sets: Sets,
    out: Seq<Pair>,
    c: HierData,
    oc: Seq<Pair>,
)
    requires
        completed(s, sets) == Ok::<(HierData, Seq<Pair>), ClipError>((c, oc)),
        ahead_run(s, aus, i, sets, out) is Ok,
    ensures
        serial_run(c, aus, i, sets, out + oc) == ahead_run(s, aus, i, sets, out),
    decreases aus.len() - i,
{
    if i >= aus.len() {
        reveal(hier_end);
        assert((out + oc) + flushed(c.waiting) =~= out + (oc + flushed(c.waiting)));
    } else {
        let (more, r) = hier_step(s, aus[i], sets);
        let u = r->Ok_0;
        lemma_completes(u, aus, i + 1, sets, out + more);
        let (d, od) = completed(u, sets)->Ok_0;
        lemma_step(s, aus[i], sets, c, oc);
        lemma_runs(u, aus, i + 1, sets, out + more, d, od);
        let m = serial_step(c, aus[i], sets)->Ok_0.1;
        assert((out + oc) + m =~= out + (oc + m));
        assert((out + more) + od =~= out + (more + od));
    }
}

/// A stream that decodes to its end completes what is held.
proof fn lemma_completes(
    s: HierData,
    aus: Seq<AuData>,
    i: int,
    sets: Sets,
    out: Seq<Pair>,
)
    requires
        ahead_run(s, aus, i, sets, out) is Ok,
    ensures
        completed(s, sets) is Ok,
{
    if i >= aus.len() {
        reveal(hier_end);
    } else {
        reveal(hier_step);
        reveal(advanced);
    }
}

/// Running the base view one access unit ahead of the dependent view does not
/// change what is shown: a stream that decodes gives the same pairs in the same
/// order as when each access unit is decoded in full before the next.
pub proof fn law_ahead_shows_the_same(aus: Seq<AuData>, sets: Sets)
    requires
        ahead_run(unstarted(), aus, 0, sets, Seq::empty()) is Ok,
    ensures
        serial_run(unstarted(), aus, 0, sets, Seq::empty()) == ahead_run(
            unstarted(),
            aus,
            0,
            sets,
            Seq::empty(),
        ),
{
    let none = Seq::<Pair>::empty();
    lemma_idle(unstarted(), sets);
    lemma_runs(unstarted(), aus, 0, sets, none, unstarted(), none);
    assert(none + none =~= none);
}

} // verus!

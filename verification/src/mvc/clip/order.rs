//! Display order over a whole stream with B frames.

use crate::mvc::clip::au::{coded, fed, nothing_gathered, AuData, Gathered};
use crate::mvc::clip::hier::{
    base_view, bumped, completed, dep_view, flushed, hier_end, hier_step, lowest, restarted,
    unstarted, wait_keys, window, with_base, HierData,
};
use crate::mvc::clip::laws::{
    ahead_run, law_ahead_shows_the_same, law_flushed_in_display_order, serial_run, serial_step,
};
use crate::mvc::clip::stream::{base_env, paired, Pair, Sets};
use crate::mvc::clip::view::header_of;
use crate::mvc::clip::{
    begun, clip_end, clip_run, clip_start, clip_step, decoded, last_step, phase_step, route_of,
    route_run, route_step, sets_of, ClipData, ClipError, PhaseData, RouteData,
};
use crate::mvc::reflist::{by_keys, law_ranked};
use vstd::prelude::*;

verus! {

/// An access unit as it is decoded: how many IDR frames there are up to it, its
/// order count, whether it is withheld, and its pair of pictures.
pub struct Unit {
    pub period: nat,
    pub poc: i32,
    pub leading: bool,
    pub pair: Pair,
}

/// The state from which the base frame of an access unit is decoded: an IDR
/// frame starts anew.
pub open spec fn entered(s: HierData, au: AuData) -> HierData {
    if au.base_idr {
        restarted(s)
    } else {
        s
    }
}

/// The state with the base frame of an access unit.
pub open spec fn with_unit(s: HierData, au: AuData, sets: Sets) -> HierData {
    let h = header_of(au.base[0], base_env(au, sets))->Ok_0;
    let (p, m) = base_view(entered(s, au), au, h, sets)->Ok_0;
    with_base(entered(s, au), au, h, sets, p, m)
}

/// The state after the first `i` access units.
pub open spec fn state_at(aus: Seq<AuData>, i: int, sets: Sets) -> HierData
    decreases i,
{
    if i <= 0 {
        unstarted()
    } else {
        let s = state_at(aus, i - 1, sets);
        match serial_step(s, aus[i - 1], sets) {
            Ok((t, _)) => t,
            Err(_) => s,
        }
    }
}

/// How many of the first `n` access units are IDR ones.
pub open spec fn periods(aus: Seq<AuData>, n: int) -> nat
    decreases n,
{
    if n <= 0 {
        0
    } else {
        periods(aus, n - 1) + if aus[n - 1].base_idr {
            1nat
        } else {
            0
        }
    }
}

/// Access unit `i` as it is decoded.
pub open spec fn unit_at(aus: Seq<AuData>, i: int, sets: Sets) -> Unit {
    let b = with_unit(state_at(aus, i, sets), aus[i], sets);
    let h = b.held->0;
    let d = dep_view(h.au, sets, h.poc, b.drefs, h.base)->Ok_0.0;
    Unit {
        period: periods(aus, i + 1),
        poc: h.poc,
        leading: h.leading,
        pair: paired(h.base, d, sets),
    }
}

/// The access units as they are decoded.
pub open spec fn units(aus: Seq<AuData>, sets: Sets) -> Seq<Unit> {
    Seq::new(aus.len(), |i: int| unit_at(aus, i, sets))
}

/// How many of the first `n` units that are shown and belong to the period of
/// unit `i` have a higher order count.
pub open spec fn overtaken(u: Seq<Unit>, i: int, n: int) -> nat
    decreases n,
{
    if n <= 0 {
        0
    } else {
        overtaken(u, i, n - 1) + if !u[n - 1].leading && u[n - 1].period == u[i].period && u[n
            - 1].poc > u[i].poc {
            1nat
        } else {
            0
        }
    }
}

/// Unit `a` is displayed before unit `b`: it belongs to an earlier period, or to
/// the same one with a lower order count; units of the same order count stay in
/// the order in which they came.
pub open spec fn displayed_before(u: Seq<Unit>, a: int, b: int) -> bool {
    u[a].period < u[b].period || (u[a].period == u[b].period && (u[a].poc < u[b].poc || (u[a].poc
        == u[b].poc && a < b)))
}

/// The indices of all units that are not withheld, each once, in display order.
pub open spec fn display_order(u: Seq<Unit>, order: Seq<int>) -> bool {
    &&& forall|x: int|
        0 <= x < order.len() ==> 0 <= #[trigger] order[x] < u.len() && !u[order[x]].leading
    &&& forall|j: int| 0 <= j < u.len() && !(#[trigger] u[j]).leading ==> order.contains(j)
    &&& forall|x: int, y: int|
        0 <= x < y < order.len() ==> displayed_before(u, #[trigger] order[x], #[trigger] order[y])
}

/// The pairs of units.
pub open spec fn shown(u: Seq<Unit>, o: Seq<int>) -> Seq<Pair> {
    Seq::new(o.len(), |x: int| u[o[x]].pair)
}

spec fn tagged(u: Seq<Unit>, w: Seq<int>) -> Seq<(i32, Pair)> {
    Seq::new(w.len(), |x: int| (u[w[x]].poc, u[w[x]].pair))
}

/// How many of the first `n` units that are shown and belong to the period of
/// unit `i` have no lower order count.
spec fn no_lower(u: Seq<Unit>, i: int, n: int) -> nat
    decreases n,
{
    if n <= 0 {
        0
    } else {
        no_lower(u, i, n - 1) + if !u[n - 1].leading && u[n - 1].period == u[i].period && u[n
            - 1].poc >= u[i].poc {
            1nat
        } else {
            0
        }
    }
}

/// The first `n` units have come, the last of them of period `now`: those of `o`
/// have gone, those of `w` wait.
spec fn queued(u: Seq<Unit>, n: int, now: nat, cap: int, w: Seq<int>, o: Seq<int>) -> bool {
    &&& forall|x: int|
        0 <= x < w.len() ==> 0 <= #[trigger] w[x] < n && !u[w[x]].leading && u[w[x]].period == now
    &&& forall|x: int, y: int| 0 <= x < y < w.len() ==> #[trigger] w[x] < #[trigger] w[y]
    &&& forall|x: int|
        0 <= x < o.len() ==> 0 <= #[trigger] o[x] < n && !u[o[x]].leading && u[o[x]].period <= now
    &&& forall|x: int, y: int|
        0 <= x < y < o.len() ==> displayed_before(u, #[trigger] o[x], #[trigger] o[y])
    &&& forall|x: int, y: int|
        0 <= x < o.len() && 0 <= y < w.len() ==> displayed_before(
            u,
            #[trigger] o[x],
            #[trigger] w[y],
        )
    &&& forall|j: int| 0 <= j < n && !(#[trigger] u[j]).leading ==> o.contains(j) || w.contains(j)
    &&& forall|x: int|
        0 <= x < o.len() && u[#[trigger] o[x]].period == now ==> no_lower(u, o[x], n) > cap
}

proof fn lemma_first_lowest(w: Seq<(i32, Pair)>, n: int)
    requires
        1 <= n <= w.len(),
    ensures
        0 <= lowest(w, n) < n,
        forall|k: int| 0 <= k < n ==> w[lowest(w, n)].0 <= (#[trigger] w[k]).0,
        forall|k: int| 0 <= k < lowest(w, n) ==> w[lowest(w, n)].0 < (#[trigger] w[k]).0,
    decreases n,
{
    if n > 1 {
        lemma_first_lowest(w, n - 1);
    }
}

proof fn lemma_many(u: Seq<Unit>, i: int, w: Seq<int>, n: int)
    requires
        0 <= n,
        forall|x: int|
            0 <= x < w.len() ==> 0 <= #[trigger] w[x] < n && !u[w[x]].leading && u[w[x]].period
                == u[i].period && u[w[x]].poc >= u[i].poc,
        forall|x: int, y: int| 0 <= x < y < w.len() ==> #[trigger] w[x] < #[trigger] w[y],
    ensures
        no_lower(u, i, n) >= w.len(),
    decreases n,
{
    if w.len() > 0 && n > 0 {
        if w.last() == n - 1 {
            let v = w.drop_last();
            assert forall|x: int| 0 <= x < v.len() implies 0 <= #[trigger] v[x] < n - 1
                && !u[v[x]].leading && u[v[x]].period == u[i].period && u[v[x]].poc >= u[i].poc by {
                assert(v[x] == w[x]);
                assert(w[x] < w[w.len() - 1]);
            }
            lemma_many(u, i, v, n - 1);
        } else {
            assert forall|x: int| 0 <= x < w.len() implies 0 <= #[trigger] w[x] < n - 1 by {
                if x < w.len() - 1 {
                    assert(w[x] < w[w.len() - 1]);
                }
            }
            lemma_many(u, i, w, n - 1);
        }
    } else if w.len() > 0 {
        assert(w[0] < n);
    }
}

proof fn lemma_overtaken(u: Seq<Unit>, i: int, j: int, n: int)
    requires
        u[i].period == u[j].period,
        u[i].poc < u[j].poc,
    ensures
        overtaken(u, i, n) >= no_lower(u, j, n),
    decreases n,
{
    if n > 0 {
        lemma_overtaken(u, i, j, n - 1);
    }
}

/// Let the lowest go while too many wait.
proof fn lemma_bump(
    u: Seq<Unit>,
    n: int,
    now: nat,
    cap: int,
    w: Seq<int>,
    o: Seq<int>,
    out: Seq<Pair>,
) -> (r: (Seq<int>, Seq<int>))
    requires
        0 <= n,
        0 <= cap,
        queued(u, n, now, cap, w, o),
    ensures
        queued(u, n, now, cap, r.0, o + r.1),
        r.0.len() <= cap,
        bumped(tagged(u, w), cap, out) == (tagged(u, r.0), out + shown(u, r.1)),
    decreases w.len(),
{
    let t = tagged(u, w);
    if w.len() <= cap {
        let none = Seq::<int>::empty();
        assert(o + none =~= o);
        assert(out + shown(u, none) =~= out);
        (w, none)
    } else {
        lemma_first_lowest(t, t.len() as int);
        let q = lowest(t, t.len() as int);
        let g = w[q];
        let v = w.remove(q);
        let p = o.push(g);
        assert(tagged(u, v) =~= t.remove(q));
        assert forall|x: int| 0 <= x < v.len() implies displayed_before(u, g, #[trigger] v[x])
            && 0 <= v[x] < n && !u[v[x]].leading && u[v[x]].period == now by {
            let y = if x < q {
                x
            } else {
                x + 1
            };
            assert(v[x] == w[y]);
            assert(t[q].0 <= t[y].0);
            assert(y < q ==> t[q].0 < t[y].0);
            assert(y > q ==> w[q] < w[y]);
        }
        assert forall|x: int| 0 <= x < w.len() implies u[#[trigger] w[x]].poc >= u[g].poc by {
            assert(t[q].0 <= t[x].0);
        }
        lemma_many(u, g, w, n);
        assert forall|x: int, y: int| 0 <= x < y < v.len() implies #[trigger] v[x] < #[trigger] v[y] by {
            let a = if x < q {
                x
            } else {
                x + 1
            };
            let b = if y < q {
                y
            } else {
                y + 1
            };
            assert(v[x] == w[a] && v[y] == w[b]);
        }
        assert forall|j: int| 0 <= j < n && !(#[trigger] u[j]).leading implies p.contains(j)
            || v.contains(j) by {
            if o.contains(j) {
                let x = choose|x: int| 0 <= x < o.len() && o[x] == j;
                assert(p[x] == j);
            } else {
                assert(w.contains(j));
                let x = choose|x: int| 0 <= x < w.len() && w[x] == j;
                if x == q {
                    assert(p[o.len() as int] == j);
                } else if x < q {
                    assert(v[x] == j);
                } else {
                    assert(v[x - 1] == j);
                }
            }
        }
        assert forall|x: int, y: int| 0 <= x < y < p.len() implies displayed_before(
            u,
            #[trigger] p[x],
            #[trigger] p[y],
        ) by {
            assert(p[x] == o[x]);
            if y < o.len() {
                assert(p[y] == o[y]);
            } else {
                assert(displayed_before(u, o[x], w[q]));
            }
        }
        assert forall|x: int, y: int| 0 <= x < p.len() && 0 <= y < v.len() implies displayed_before(
            u,
            #[trigger] p[x],
            #[trigger] v[y],
        ) by {
            if x < o.len() {
                assert(p[x] == o[x]);
                let b = if y < q {
                    y
                } else {
                    y + 1
                };
                assert(v[y] == w[b]);
            }
        }
        assert forall|x: int| 0 <= x < p.len() implies 0 <= #[trigger] p[x] < n && !u[p[x]].leading
            && u[p[x]].period <= now && (u[p[x]].period == now ==> no_lower(u, p[x], n) > cap) by {
            if x < o.len() {
                assert(p[x] == o[x]);
            }
        }
        assert(queued(u, n, now, cap, v, p));
        let (a, b) = lemma_bump(u, n, now, cap, v, p, out.push(t[q].1));
        let d = seq![g] + b;
        assert(o + d =~= p + b);
        assert(out + shown(u, d) =~= out.push(t[q].1) + shown(u, b));
        (a, d)
    }
}

/// Let all go in display order.
proof fn lemma_flush(u: Seq<Unit>, n: int, now: nat, cap: int, w: Seq<int>, o: Seq<int>) -> (d: Seq<
    int,
>)
    requires
        0 <= n,
        queued(u, n, now, cap, w, o),
        w.len() <= usize::MAX,
    ensures
        flushed(tagged(u, w)) == shown(u, d),
        forall|x: int|
            0 <= x < (o + d).len() ==> 0 <= #[trigger] (o + d)[x] < n && !u[(o + d)[x]].leading
                && u[(o + d)[x]].period <= now,
        forall|x: int, y: int|
            0 <= x < y < (o + d).len() ==> displayed_before(
                u,
                #[trigger] (o + d)[x],
                #[trigger] (o + d)[y],
            ),
        forall|j: int| 0 <= j < n && !(#[trigger] u[j]).leading ==> (o + d).contains(j),
{
    let t = tagged(u, w);
    law_flushed_in_display_order(t);
    let keys = wait_keys(t);
    law_ranked(keys, keys.len() as int);
    let order = by_keys(keys);
    let d = Seq::new(order.len(), |k: int| w[order[k] as int]);
    assert forall|x: int| 0 <= x < d.len() implies #[trigger] d[x] == w[order[x] as int]
        && order[x] < w.len() by {}
    assert(flushed(t) =~= shown(u, d)) by {
        assert forall|x: int| 0 <= x < d.len() implies flushed(t)[x] == #[trigger] shown(u, d)[x] by {
            assert(flushed(t)[x] == t[order[x] as int].1);
        }
    }
    let a = o + d;
    assert forall|x: int, y: int| 0 <= x < y < a.len() implies displayed_before(
        u,
        #[trigger] a[x],
        #[trigger] a[y],
    ) by {
        let m = o.len() as int;
        if y < m {
            assert(a[x] == o[x] && a[y] == o[y]);
        } else if x < m {
            assert(a[x] == o[x] && a[y] == d[y - m]);
            assert(displayed_before(u, o[x], w[order[y - m] as int]));
        } else {
            assert(a[x] == d[x - m] && a[y] == d[y - m]);
            let (i, j) = (order[x - m] as int, order[y - m] as int);
            assert(t[i].0 < t[j].0 || (t[i].0 == t[j].0 && i < j));
            assert(i < j ==> w[i] < w[j]);
        }
    }
    assert forall|x: int| 0 <= x < a.len() implies 0 <= #[trigger] a[x] < n && !u[a[x]].leading
        && u[a[x]].period <= now by {
        if x < o.len() {
            assert(a[x] == o[x]);
        } else {
            assert(a[x] == d[x - o.len()]);
        }
    }
    assert forall|j: int| 0 <= j < n && !(#[trigger] u[j]).leading implies a.contains(j) by {
        if o.contains(j) {
            let x = choose|x: int| 0 <= x < o.len() && o[x] == j;
            assert(a[x] == j);
        } else {
            assert(w.contains(j));
            let x = choose|x: int| 0 <= x < w.len() && w[x] == j;
            assert(keys[x] is Some);
            assert(order.contains(x as usize));
            let y = choose|y: int| 0 <= y < order.len() && order[y] == x as usize;
            assert(d[y] == j);
            assert(a[o.len() + y] == j);
        }
    }
    d
}

/// Another unit of the same period comes.
proof fn lemma_arrive(u: Seq<Unit>, n: int, now: nat, cap: int, w: Seq<int>, o: Seq<int>) -> (v: Seq<
    int,
>)
    requires
        0 <= n < u.len(),
        queued(u, n, now, cap, w, o),
        u[n].period == now,
        u[n].leading || overtaken(u, n, n) <= cap,
    ensures
        v == if u[n].leading {
            w
        } else {
            w.push(n)
        },
        queued(u, n + 1, now, cap, v, o),
{
    let v = if u[n].leading {
        w
    } else {
        w.push(n)
    };
    assert forall|x: int, y: int| 0 <= x < o.len() && 0 <= y < v.len() implies displayed_before(
        u,
        #[trigger] o[x],
        #[trigger] v[y],
    ) by {
        if y < w.len() {
            assert(v[y] == w[y]);
        } else if u[o[x]].period == now && u[o[x]].poc > u[n].poc {
            lemma_overtaken(u, n, o[x], n);
        }
    }
    assert forall|j: int| 0 <= j < n + 1 && !(#[trigger] u[j]).leading implies o.contains(j)
        || v.contains(j) by {
        if j == n {
            assert(v[w.len() as int] == n);
        } else if !o.contains(j) {
            assert(w.contains(j));
            let x = choose|x: int| 0 <= x < w.len() && w[x] == j;
            assert(v[x] == j);
        }
    }
    v
}

proof fn lemma_serial(aus: Seq<AuData>, i: int, sets: Sets)
    requires
        0 <= i < aus.len(),
        serial_step(state_at(aus, i, sets), aus[i], sets) is Ok,
    ensures
        ({
            let s = state_at(aus, i, sets);
            let (t, more) = serial_step(s, aus[i], sets)->Ok_0;
            let x = unit_at(aus, i, sets);
            let waiting = entered(s, aus[i]).waiting;
            let (w, out) = bumped(
                if x.leading {
                    waiting
                } else {
                    waiting.push((x.poc, x.pair))
                },
                window(sets),
                Seq::empty(),
            );
            &&& t == state_at(aus, i + 1, sets)
            &&& t.waiting == w
            &&& more == (if aus[i].base_idr {
                flushed(s.waiting)
            } else {
                Seq::empty()
            }) + out
        }),
{
    reveal(serial_step);
    reveal(completed);
}

proof fn lemma_run(
    aus: Seq<AuData>,
    i: int,
    sets: Sets,
    out: Seq<Pair>,
    w: Seq<int>,
    o: Seq<int>,
) -> (order: Seq<int>)
    requires
        0 <= i <= aus.len(),
        serial_run(state_at(aus, i, sets), aus, i, sets, out) is Ok,
        queued(units(aus, sets), i, periods(aus, i), window(sets), w, o),
        w.len() <= window(sets),
        state_at(aus, i, sets).waiting == tagged(units(aus, sets), w),
        out == shown(units(aus, sets), o),
        forall|j: int|
            0 <= j < aus.len() && !(#[trigger] units(aus, sets)[j]).leading ==> overtaken(
                units(aus, sets),
                j,
                j,
            ) <= window(sets),
    ensures
        serial_run(state_at(aus, i, sets), aus, i, sets, out)->Ok_0 == shown(
            units(aus, sets),
            order,
        ),
        display_order(units(aus, sets), order),
    decreases aus.len() - i,
{
    let u = units(aus, sets);
    let cap = window(sets);
    let s = state_at(aus, i, sets);
    let now = periods(aus, i);
    if i >= aus.len() {
        let d = lemma_flush(u, i, now, cap, w, o);
        assert(shown(u, o + d) =~= out + shown(u, d));
        o + d
    } else {
        let (t, more) = serial_step(s, aus[i], sets)->Ok_0;
        lemma_serial(aus, i, sets);
        let (w0, d, now0) = if aus[i].base_idr {
            (Seq::<int>::empty(), lemma_flush(u, i, now, cap, w, o), now + 1)
        } else {
            (w, Seq::<int>::empty(), now)
        };
        let o0 = o + d;
        if aus[i].base_idr {
            assert(queued(u, i, now0, cap, w0, o0));
            assert(tagged(u, w0) =~= Seq::empty());
            assert(shown(u, d) == flushed(s.waiting));
        } else {
            assert(o0 =~= o);
            assert(shown(u, d) =~= Seq::<Pair>::empty());
        }
        assert(u[i] == unit_at(aus, i, sets));
        let v = lemma_arrive(u, i, now0, cap, w0, o0);
        let x = u[i];
        assert(tagged(u, v) =~= (if x.leading {
            tagged(u, w0)
        } else {
            tagged(u, w0).push((x.poc, x.pair))
        }));
        let (w1, d1) = lemma_bump(u, i + 1, now0, cap, v, o0, Seq::empty());
        let o1 = o0 + d1;
        assert(Seq::<Pair>::empty() + shown(u, d1) =~= shown(u, d1));
        assert(shown(u, o1) =~= out + (shown(u, d) + shown(u, d1)));
        lemma_run(aus, i + 1, sets, out + more, w1, o1)
    }
}

/// A stream with B frames that decodes is shown in display order, provided that
/// within each period between IDR frames no access unit comes after more than a
/// window of units with a higher order count: each access unit is shown exactly
/// once, except for the leading ones of a stream that starts in the middle;
/// within a period order counts ascend; and all before an IDR frame is shown
/// before all from it on.
pub proof fn law_display_order(aus: Seq<AuData>, sets: Sets) -> (order: Seq<int>)
    requires
        ahead_run(unstarted(), aus, 0, sets, Seq::empty()) is Ok,
        forall|i: int|
            0 <= i < aus.len() && !(#[trigger] units(aus, sets)[i]).leading ==> overtaken(
                units(aus, sets),
                i,
                i,
            ) <= window(sets),
    ensures
        display_order(units(aus, sets), order),
        ahead_run(unstarted(), aus, 0, sets, Seq::empty())->Ok_0 == shown(
            units(aus, sets),
            order,
        ),
{
    law_ahead_shows_the_same(aus, sets);
    let none = Seq::<int>::empty();
    let u = units(aus, sets);
    assert(tagged(u, none) =~= Seq::empty());
    assert(shown(u, none) =~= Seq::empty());
    lemma_run(aus, 0, sets, Seq::empty(), none, none)
}

// ---- whole clips ----

/// What has been gathered of the first `n` NAL units of a stream, and the access
/// units that are complete.
pub open spec fn gathered(nals: Seq<Seq<u8>>, n: int) -> (Gathered, Seq<AuData>)
    decreases n,
{
    if n <= 0 {
        (nothing_gathered(), Seq::empty())
    } else {
        let (a, aus) = gathered(nals, n - 1);
        if nals[n - 1].len() == 0 {
            (a, aus)
        } else {
            match fed(a, nals[n - 1]) {
                Ok((b, None)) => (b, aus),
                Ok((b, Some(au))) => (b, aus.push(au)),
                Err(_) => (a, aus),
            }
        }
    }
}

/// The access units of a stream of NAL units.
pub open spec fn access_units(nals: Seq<Seq<u8>>) -> Seq<AuData> {
    let (a, aus) = gathered(nals, nals.len() as int);
    match coded(a.cur) {
        Some(au) => aus.push(au),
        None => aus,
    }
}

/// A clip after the first `n` NAL units of a stream.
pub open spec fn clip_at(nals: Seq<Seq<u8>>, n: int) -> ClipData
    decreases n,
{
    if n <= 0 {
        clip_start()
    } else {
        match clip_step(clip_at(nals, n - 1), nals[n - 1]) {
            (_, Ok(d)) => d,
            (_, Err(_)) => clip_at(nals, n - 1),
        }
    }
}

/// How the decoding of a stream stands after its last access unit.
pub open spec fn last_phase(nals: Seq<Seq<u8>>) -> PhaseData {
    last_step(clip_at(nals, nals.len() as int)).1->Ok_0
}

/// The stream is decoded as one with B frames, with these parameter sets.
pub open spec fn decoded_as_hier(nals: Seq<Seq<u8>>, sets: Sets) -> bool {
    last_phase(nals) matches PhaseData::Running(s, RouteData::Hier(_)) && s == sets
}

/// Access units `aus` with parameter sets `sets` have been decoded to `out`, and
/// the decoding stands at `r`.
spec fn ran(r: RouteData, sets: Sets, aus: Seq<AuData>, out: Seq<Pair>) -> bool {
    r matches RouteData::Hier(_) ==> route_run(
        RouteData::Hier(unstarted()),
        aus,
        0,
        sets,
        Seq::empty(),
    ) == (out, Ok::<RouteData, ClipError>(r))
}

spec fn phase_ran(p: PhaseData, aus: Seq<AuData>, out: Seq<Pair>) -> bool {
    match p {
        PhaseData::Detecting(v) => v == aus && out.len() == 0,
        PhaseData::Running(sets, r) => ran(r, sets, aus, out),
    }
}

proof fn lemma_kind(r: RouteData, aus: Seq<AuData>, i: int, sets: Sets, out: Seq<Pair>)
    ensures
        route_run(r, aus, i, sets, out) matches (_, Ok(t)) ==> (r is Hier <==> t is Hier),
    decreases aus.len() - i,
{
    if i < aus.len() {
        match route_step(r, aus[i], sets) {
            (more, Ok(t)) => {
                lemma_kind(t, aus, i + 1, sets, out + more);
            },
            (more, Err(e)) => {},
        }
    }
}

proof fn lemma_run_push(
    r: RouteData,
    aus: Seq<AuData>,
    au: AuData,
    i: int,
    sets: Sets,
    out: Seq<Pair>,
)
    requires
        0 <= i <= aus.len(),
        route_run(r, aus, i, sets, out).1 is Ok,
    ensures
        ({
            let (o, t) = (
                route_run(r, aus, i, sets, out).0,
                route_run(r, aus, i, sets, out).1->Ok_0,
            );
            route_run(r, aus.push(au), i, sets, out) == match route_step(t, au, sets) {
                (more, Ok(u)) => (o + more, Ok(u)),
                (more, Err(e)) => (o + more, Err(e)),
            }
        }),
    decreases aus.len() - i,
{
    let all = aus.push(au);
    if i == aus.len() {
        assert(all[i] == au);
        reveal_with_fuel(route_run, 2);
    } else {
        assert(all[i] == aus[i]);
        match route_step(r, aus[i], sets) {
            (more, Ok(t)) => {
                lemma_run_push(t, aus, au, i + 1, sets, out + more);
            },
            (more, Err(e)) => {},
        }
    }
}

proof fn lemma_begun(a: Gathered, aus: Seq<AuData>)
    ensures
        begun(a, aus) matches (out, Ok(p)) ==> p is Running && phase_ran(
            p,
            aus,
            out,
        ),
{
    match sets_of(a) {
        Err(_) => {},
        Ok(sets) => match route_of(aus, sets) {
            Err(_) => {},
            Ok(r) => {
                lemma_kind(r, aus, 0, sets, Seq::empty());
            },
        },
    }
}

proof fn lemma_phase(a: Gathered, p: PhaseData, au: AuData, aus: Seq<AuData>, out: Seq<Pair>)
    requires
        phase_ran(p, aus, out),
    ensures
        phase_step(a, p, au) matches (more, Ok(q)) ==> phase_ran(q, aus.push(au), out + more) && (p
            is Running ==> q is Running),
{
    reveal(phase_step);
    match p {
        PhaseData::Detecting(v) => {
            lemma_begun(a, aus.push(au));
            let more = phase_step(a, p, au).0;
            assert(out + more =~= more);
        },
        PhaseData::Running(sets, r) => {
            if r is Hier {
                lemma_run_push(
                    RouteData::Hier(unstarted()),
                    aus,
                    au,
                    0,
                    sets,
                    Seq::empty(),
                );
            }
        },
    }
}

proof fn lemma_ahead(s: HierData, aus: Seq<AuData>, i: int, sets: Sets, out: Seq<Pair>)
    requires
        route_run(RouteData::Hier(s), aus, i, sets, out) matches (_, Ok(RouteData::Hier(t)))
            && hier_end(t, sets).1 is Ok,
    ensures
        ({
            let (o, r) = route_run(RouteData::Hier(s), aus, i, sets, out);
            let t = r->Ok_0->Hier_0;
            ahead_run(s, aus, i, sets, out) == Ok::<Seq<Pair>, ClipError>(
                o + hier_end(t, sets).0,
            )
        }),
    decreases aus.len() - i,
{
    if i < aus.len() {
        match hier_step(s, aus[i], sets) {
            (more, Ok(t)) => {
                lemma_ahead(t, aus, i + 1, sets, out + more);
            },
            (more, Err(e)) => {},
        }
    }
}

proof fn lemma_clip(nals: Seq<Seq<u8>>, i: int, out: Seq<Pair>)
    requires
        0 <= i <= nals.len(),
        clip_run(clip_at(nals, i), nals, i, out).1 is Ok,
        clip_at(nals, i).units == gathered(nals, i).0,
        phase_ran(clip_at(nals, i).phase, gathered(nals, i).1, out),
    ensures
        ({
            let (all, _) = clip_run(clip_at(nals, i), nals, i, out);
            match last_phase(nals) {
                PhaseData::Running(sets, RouteData::Hier(t)) => ahead_run(
                    unstarted(),
                    access_units(nals),
                    0,
                    sets,
                    Seq::empty(),
                ) == Ok::<Seq<Pair>, ClipError>(all),
                _ => true,
            }
        }),
    decreases nals.len() - i,
{
    let c = clip_at(nals, i);
    let (a, aus) = gathered(nals, i);
    if i >= nals.len() {
        reveal(clip_end);
        reveal(last_step);
        let none = Seq::<Pair>::empty();
        assert(out + none =~= out);
        match coded(a.cur) {
            Some(au) => {
                lemma_phase(a, c.phase, au, aus, out);
                lemma_begun(a, aus.push(au));
            },
            None => {
                lemma_begun(a, aus);
            },
        }
        let (o1, r) = last_step(c);
        let p = r->Ok_0;
        assert(phase_ran(p, access_units(nals), out + o1)) by {
            if c.phase is Detecting {
                assert(out + o1 =~= o1);
            }
        }
        match p {
            PhaseData::Running(sets, RouteData::Hier(t)) => {
                lemma_ahead(unstarted(), access_units(nals), 0, sets, none);
                let o2 = hier_end(t, sets).0;
                assert((out + o1) + o2 =~= out + (o1 + o2));
            },
            _ => {},
        }
    } else {
        reveal(clip_step);
        let (more, r) = clip_step(c, nals[i]);
        let d = r->Ok_0;
        assert(clip_at(nals, i + 1) == d);
        assert(out + Seq::<Pair>::empty() =~= out);
        if nals[i].len() > 0 {
            match fed(a, nals[i]) {
                Ok((b, Some(au))) => {
                    lemma_phase(b, c.phase, au, aus, out);
                },
                _ => {},
            }
        }
        lemma_clip(nals, i + 1, out + more);
    }
}

/// A whole clip with B frames comes in display order, as
/// [`law_display_order`] says of its access units.
pub proof fn law_clip_in_display_order(nals: Seq<Seq<u8>>, sets: Sets) -> (order: Seq<int>)
    requires
        decoded(nals).1 is Ok,
        decoded_as_hier(nals, sets),
        forall|i: int|
            0 <= i < access_units(nals).len() && !(#[trigger] units(
                access_units(nals),
                sets,
            )[i]).leading ==> overtaken(units(access_units(nals), sets), i, i) <= window(sets),
    ensures
        display_order(units(access_units(nals), sets), order),
        decoded(nals).0 == shown(units(access_units(nals), sets), order),
{
    lemma_clip(nals, 0, Seq::empty());
    law_display_order(access_units(nals), sets)
}

} // verus!

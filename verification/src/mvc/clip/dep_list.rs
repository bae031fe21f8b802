//! List 0 of the dependent view: recent frames of its own, the base frame of
//! the same access unit, and the modifications that the slice asks for.

use crate::mvc::ref_pic_list_modification::{mods_of, Mods, RefPicListModification};
use vstd::prelude::*;

verus! {

/// An entry of the dependent view's list 0.
#[derive(Debug, Clone, Copy, PartialEq, Eq, Structural)]
pub enum DRef {
    /// The base frame of the same access unit.
    InterView,
    /// A decoded frame of the dependent view, counted back from the last one.
    Temporal(u64),
}

/// At most the first `n` entries.
pub open spec fn at_most<A>(s: Seq<A>, n: int) -> Seq<A> {
    if s.len() > n {
        s.take(n)
    } else {
        s
    }
}

/// The list before modification: the own frames, most recent first, then the
/// base frame; only the base frame for anchors.
pub open spec fn initial_list(num: int, len: int, anchor: bool) -> Seq<DRef> {
    let own = if anchor {
        Seq::<DRef>::empty()
    } else {
        Seq::new(len as nat, |i: int| DRef::Temporal(i as u64))
    };
    at_most(
        own.push(DRef::InterView),
        if num < 1 {
            1
        } else {
            num
        },
    )
}

/// The own frame whose picture number is `rel` above the current one.
pub open spec fn temporal_at(rel: i64) -> DRef {
    DRef::Temporal(
        if rel >= 0 {
            0u64
        } else {
            (-(rel + 1)) as u64
        },
    )
}

/// The predicted picture number, relative to the current one, after a
/// modification, and the entry that it moves; long-term ones move none.
pub open spec fn target(m: RefPicListModification, rel: i64) -> (i64, Option<DRef>) {
    match m {
        RefPicListModification::PicNumSub { abs_diff_pic_num_minus1: d } => {
            let r = rel.wrapping_sub((d + 1) as i64);
            (r, Some(temporal_at(r)))
        },
        RefPicListModification::PicNumAdd { abs_diff_pic_num_minus1: d } => {
            let r = rel.wrapping_add((d + 1) as i64);
            (r, Some(temporal_at(r)))
        },
        RefPicListModification::LongTerm { .. } => (rel, None),
        _ => (rel, Some(DRef::InterView)),
    }
}

/// The list without an entry.
pub open spec fn lacking(list: Seq<DRef>, t: DRef) -> Seq<DRef>
    decreases list.len(),
{
    if list.len() == 0 {
        list
    } else {
        let rest = lacking(list.drop_last(), t);
        if list.last() == t {
            rest
        } else {
            rest.push(list.last())
        }
    }
}

/// The list with an entry moved to place `at`.
pub open spec fn moved(list: Seq<DRef>, t: DRef, at: int, num: int) -> Seq<DRef> {
    let rest = lacking(list, t);
    at_most(
        rest.insert(
            if at < rest.len() {
                at
            } else {
                rest.len() as int
            },
            t,
        ),
        num,
    )
}

/// The list after the modifications from `i` on, with the next place `at`.
pub open spec fn modified(
    list: Seq<DRef>,
    mods: Seq<RefPicListModification>,
    num: int,
    i: int,
    at: int,
    rel: i64,
) -> Seq<DRef>
    decreases mods.len() - i,
{
    if i >= mods.len() {
        list
    } else {
        let (r, t) = target(mods[i], rel);
        match t {
            None => modified(list, mods, num, i + 1, at, r),
            Some(d) => modified(moved(list, d, at, num), mods, num, i + 1, at + 1, r),
        }
    }
}

/// The dependent view's list 0 for a slice with `num` references, after `len`
/// own frames.
#[verifier::opaque]
pub open spec fn dep_l0(mods: Mods, num: int, len: int, anchor: bool) -> Seq<DRef> {
    let list = initial_list(num, len, anchor);
    match mods {
        None => list,
        Some(m) => modified(list, m, num, 0, 0, 0),
    }
}

fn shorten(list: &mut Vec<DRef>, n: u64)
    ensures
        final(list)@ == at_most(old(list)@, n as int),
{
    if list.len() as u64 > n {
        let ghost was = list@;
        list.truncate(n as usize);
        assert(list@ =~= was.take(n as int));
    }
}

fn without(list: &Vec<DRef>, t: DRef) -> (out: Vec<DRef>)
    ensures
        out@ == lacking(list@, t),
{
    let mut out: Vec<DRef> = Vec::new();
    let n: usize = list.len();
    assert(list@.take(0) =~= Seq::empty());
    for i in 0..n
        invariant
            n == list@.len(),
            out@ == lacking(list@.take(i as int), t),
    {
        assert(list@.take(i + 1).drop_last() =~= list@.take(i as int));
        if list[i] != t {
            out.push(list[i]);
        }
    }
    assert(list@.take(n as int) =~= list@);
    out
}

fn place(list: Vec<DRef>, t: DRef, at: usize, num: u64) -> (r: Vec<DRef>)
    ensures
        r@ == moved(list@, t, at as int, num as int),
{
    let mut r = without(&list, t);
    let n: usize = r.len();
    r.insert(
        if at < n {
            at
        } else {
            n
        },
        t,
    );
    shorten(&mut r, num);
    r
}

fn find_target(m: &RefPicListModification, rel: i64) -> (r: (i64, Option<DRef>))
    ensures
        r == target(*m, rel),
{
    match m {
        RefPicListModification::PicNumSub { abs_diff_pic_num_minus1: d } => {
            let r: i64 = rel.wrapping_sub(*d as i64 + 1);
            (r, Some(at_distance(r)))
        },
        RefPicListModification::PicNumAdd { abs_diff_pic_num_minus1: d } => {
            let r: i64 = rel.wrapping_add(*d as i64 + 1);
            (r, Some(at_distance(r)))
        },
        RefPicListModification::LongTerm { .. } => (rel, None),
        _ => (rel, Some(DRef::InterView)),
    }
}

fn at_distance(rel: i64) -> (r: DRef)
    ensures
        r == temporal_at(rel),
{
    DRef::Temporal(
        if rel >= 0 {
            0
        } else {
            (-(rel + 1)) as u64
        },
    )
}

/// The dependent view's list 0: `num_ref` entries at most, from `dpb_len` own
/// frames and the base frame, after the slice's modifications.
pub fn build_dep_l0(
    mods: &Option<Vec<RefPicListModification>>,
    num_ref: u64,
    dpb_len: usize,
    anchor: bool,
) -> (r: Vec<DRef>)
    ensures
        r@ == dep_l0(mods_of(*mods), num_ref as int, dpb_len as int, anchor),
{
    proof {
        reveal(dep_l0);
    }
    let ghost own = Seq::new(dpb_len as nat, |i: int| DRef::Temporal(i as u64));
    let mut list: Vec<DRef> = Vec::new();
    if !anchor {
        for i in 0..dpb_len
            invariant
                own == Seq::new(dpb_len as nat, |i: int| DRef::Temporal(i as u64)),
                list@ == own.take(i as int),
        {
            list.push(DRef::Temporal(i as u64));
            assert(own.take(i as int).push(own[i as int]) =~= own.take(i + 1));
        }
        assert(own.take(dpb_len as int) =~= own);
    }
    list.push(DRef::InterView);
    shorten(
        &mut list,
        if num_ref < 1 {
            1
        } else {
            num_ref
        },
    );
    assert(list@ == initial_list(num_ref as int, dpb_len as int, anchor));
    let cmds: &Vec<RefPicListModification> = match mods {
        Some(m) => m,
        None => {
            return list;
        },
    };
    let n: usize = cmds.len();
    let mut at: usize = 0;
    let mut rel: i64 = 0;
    let ghost want = modified(list@, cmds@, num_ref as int, 0, 0, 0);
    for i in 0..n
        invariant
            n == cmds@.len(),
            at <= i,
            want == modified(list@, cmds@, num_ref as int, i as int, at as int, rel),
    {
        let (r, t) = find_target(&cmds[i], rel);
        rel = r;
        match t {
            None => {},
            Some(d) => {
                list = place(list, d, at, num_ref);
                at = at + 1;
            },
        }
    }
    list
}

/// A list that asks for no more than its slice's references holds at most that
/// many entries, and never more than one for the same picture.
pub proof fn law_dep_list(mods: Mods, num: int, len: int, anchor: bool)
    requires
        num >= 1,
        0 <= len <= u64::MAX,
    ensures
        dep_l0(mods, num, len, anchor).len() <= num,
        dep_l0(mods, num, len, anchor).no_duplicates(),
{
    reveal(dep_l0);
    let list = initial_list(num, len, anchor);
    assert(list.no_duplicates()) by {
        assert forall|i: int, j: int| 0 <= i < j < list.len() implies list[i] != list[j] by {}
    }
    match mods {
        None => {},
        Some(m) => {
            lemma_modified(list, m, num, 0, 0, 0);
        },
    }
}

proof fn lemma_modified(
    list: Seq<DRef>,
    mods: Seq<RefPicListModification>,
    num: int,
    i: int,
    at: int,
    rel: i64,
)
    requires
        num >= 1,
        at >= 0,
        list.len() <= num,
        list.no_duplicates(),
    ensures
        modified(list, mods, num, i, at, rel).len() <= num,
        modified(list, mods, num, i, at, rel).no_duplicates(),
    decreases mods.len() - i,
{
    if i < mods.len() {
        let (r, t) = target(mods[i], rel);
        match t {
            None => {
                lemma_modified(list, mods, num, i + 1, at, r);
            },
            Some(d) => {
                lemma_moved(list, d, at, num);
                lemma_modified(moved(list, d, at, num), mods, num, i + 1, at + 1, r);
            },
        }
    }
}

proof fn lemma_filtered(list: Seq<DRef>, t: DRef)
    requires
        list.no_duplicates(),
    ensures
        lacking(list, t).no_duplicates(),
        !lacking(list, t).contains(t),
        forall|d: DRef| #[trigger] lacking(list, t).contains(d) ==> list.contains(d),
    decreases list.len(),
{
    if list.len() > 0 {
        let head = list.drop_last();
        assert(head.no_duplicates());
        lemma_filtered(head, t);
        let f = lacking(head, t);
        assert forall|d: DRef| lacking(list, t).contains(d) implies list.contains(d) by {
            if f.contains(d) {
                assert(head.contains(d));
                let k = choose|k: int| 0 <= k < head.len() && head[k] == d;
                assert(list[k] == d);
            } else {
                let g = lacking(list, t);
                let k = choose|k: int| 0 <= k < g.len() && g[k] == d;
                assert(k < f.len() ==> f.contains(f[k]));
                assert(d == list[list.len() - 1]);
            }
        }
        if list.last() != t {
            assert(!head.contains(list.last()));
            let g = f.push(list.last());
            assert(lacking(list, t) == g);
            assert forall|i: int, j: int| 0 <= i < j < g.len() implies g[i] != g[j] by {
                assert(f.contains(g[i]));
            }
        }
    }
}

proof fn lemma_moved(list: Seq<DRef>, t: DRef, at: int, num: int)
    requires
        list.no_duplicates(),
        at >= 0,
        num >= 1,
    ensures
        moved(list, t, at, num).no_duplicates(),
        moved(list, t, at, num).len() <= num,
{
    lemma_filtered(list, t);
    let rest = lacking(list, t);
    let p = if at < rest.len() {
        at
    } else {
        rest.len() as int
    };
    let g = rest.insert(p, t);
    assert forall|i: int, j: int| 0 <= i < j < g.len() implies g[i] != g[j] by {
        assert forall|k: int| 0 <= k < rest.len() implies rest[k] != t by {
            assert(rest.contains(rest[k]));
        }
    }
    let m = moved(list, t, at, num);
    assert forall|i: int, j: int| 0 <= i < j < m.len() implies m[i] != m[j] by {
        assert(m[i] == g[i] && m[j] == g[j]);
    }
}

} // verus!

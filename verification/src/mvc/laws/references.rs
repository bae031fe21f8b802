//! Reference lists and reference marking: the order of the initial lists, what a
//! marking operation forgets and keeps, and the dependent view's list.

use crate::mvc::clip::dep_list::{dep_l0, initial_list, lacking, modified, moved, target, DRef};
use crate::mvc::ref_pic_list_modification::RefPicListModification;
use crate::mvc::reflist::{
    b_lists, by_keys, forgets, future_keys, law_ranked, long_keys, mmco_run, mmco_step,
    oldest_short, p_list, past_keys, precedes, promoted, short_keys, DpbRef,
};
use crate::mvc::slice_header::Mmco;
use vstd::prelude::*;

verus! {

/// The number of a short-term picture for ordering: frame numbers above the current
/// one have wrapped around.
pub open spec fn age(r: DpbRef, cur: i32, max: i32) -> int {
    if r.frame_num > cur {
        r.frame_num - max
    } else {
        r.frame_num as int
    }
}

/// The initial list of a P slice: short-term pictures by falling number, then
/// long-term ones by rising index.
pub proof fn law_p_list_order(dpb: Seq<DpbRef>, cur: i32, max: i32, a: int, b: int)
    requires
        dpb.len() <= usize::MAX,
        0 <= a < b < p_list(dpb, cur, max).len(),
    ensures
        ({
            let l = p_list(dpb, cur, max);
            let (p, q) = (dpb[l[a] as int], dpb[l[b] as int]);
            &&& l[a] < dpb.len() && l[b] < dpb.len() && l[a] != l[b]
            &&& p.long_term ==> q.long_term
            &&& !p.long_term && !q.long_term ==> age(p, cur, max) >= age(q, cur, max)
            &&& p.long_term && q.long_term ==> p.long_term_frame_idx <= q.long_term_frame_idx
        }),
{
    let (s, t) = (short_keys(dpb, cur, max), long_keys(dpb));
    law_ranked(s, s.len() as int);
    law_ranked(t, t.len() as int);
    let (x, y) = (by_keys(s), by_keys(t));
    let l = p_list(dpb, cur, max);
    lemma_entry(s, a, x);
    lemma_entry(s, b, x);
    lemma_entry(t, a - x.len(), y);
    lemma_entry(t, b - x.len(), y);
    if b < x.len() {
        assert(precedes(s, x[a] as int, x[b] as int));
    } else if a >= x.len() {
        assert(precedes(t, y[a - x.len()] as int, y[b - x.len()] as int));
    }
}

proof fn lemma_entry(keys: Seq<Option<i64>>, a: int, s: Seq<usize>)
    requires
        keys.len() <= usize::MAX,
        s == by_keys(keys),
    ensures
        0 <= a < s.len() ==> s[a] < keys.len() && keys[s[a] as int] is Some,
{
    law_ranked(keys, keys.len() as int);
}

/// The group of a picture in list 0 of a B slice: earlier in display order, later,
/// or long-term.
pub open spec fn group0(r: DpbRef, poc: i32) -> int {
    if r.long_term {
        2
    } else if r.poc < poc {
        0
    } else {
        1
    }
}

/// The initial lists of a B slice: list 0 has the earlier pictures, the nearest
/// first, then the later ones, the nearest first, then the long-term ones; list 1 has
/// the later ones before the earlier ones, and where it would equal list 0 its first
/// two are exchanged.
pub proof fn law_b_list_order(dpb: Seq<DpbRef>, poc: i32, a: int, b: int)
    requires
        dpb.len() <= usize::MAX,
        0 <= a < b < b_lists(dpb, poc).0.len(),
    ensures
        ({
            let l = b_lists(dpb, poc).0;
            let (p, q) = (dpb[l[a] as int], dpb[l[b] as int]);
            &&& l[a] < dpb.len() && l[b] < dpb.len()
            &&& group0(p, poc) <= group0(q, poc)
            &&& group0(p, poc) == 0 && group0(q, poc) == 0 ==> p.poc >= q.poc
            &&& group0(p, poc) == 1 && group0(q, poc) == 1 ==> p.poc <= q.poc && p.poc > poc
            &&& group0(p, poc) == 2 ==> p.long_term_frame_idx <= q.long_term_frame_idx
        }),
{
    let (s, t, u) = (past_keys(dpb, poc), future_keys(dpb, poc), long_keys(dpb));
    law_ranked(s, s.len() as int);
    law_ranked(t, t.len() as int);
    law_ranked(u, u.len() as int);
    let (x, y, z) = (by_keys(s), by_keys(t), by_keys(u));
    lemma_entry(s, a, x);
    lemma_entry(s, b, x);
    lemma_entry(t, a - x.len(), y);
    lemma_entry(t, b - x.len(), y);
    lemma_entry(u, a - x.len() - y.len(), z);
    lemma_entry(u, b - x.len() - y.len(), z);
    if b < x.len() {
        assert(precedes(s, x[a] as int, x[b] as int));
    } else if a >= x.len() && b < x.len() + y.len() {
        assert(precedes(t, y[a - x.len()] as int, y[b - x.len()] as int));
    } else if a >= x.len() + y.len() {
        assert(precedes(u, z[a - x.len() - y.len()] as int, z[b - x.len() - y.len()] as int));
    }
}

/// List 1 of a B slice against list 0.
pub proof fn law_b_list_1(dpb: Seq<DpbRef>, poc: i32)
    ensures
        ({
            let (past, future, long) = (
                by_keys(past_keys(dpb, poc)),
                by_keys(future_keys(dpb, poc)),
                by_keys(long_keys(dpb)),
            );
            let (l0, l1) = b_lists(dpb, poc);
            let turned = future + past + long;
            &&& l0 == past + future + long
            &&& l1.len() == l0.len()
            &&& turned != l0 || turned.len() < 2 ==> l1 == turned
            &&& turned == l0 && l0.len() >= 2 ==> l1[0] == l0[1] && l1[1] == l0[0] && forall|k: int|
                2 <= k < l0.len() ==> #[trigger] l1[k] == l0[k]
        }),
        forall|i: int|
            0 <= i < dpb.len() ==> (#[trigger] past_keys(dpb, poc)[i] is Some <==> !dpb[i].long_term
                && dpb[i].poc < poc),
        forall|i: int|
            0 <= i < dpb.len() ==> (#[trigger] future_keys(dpb, poc)[i] is Some
                <==> !dpb[i].long_term && dpb[i].poc > poc),
{
}

/// The sliding window drops the short-term picture with the smallest number.
pub proof fn law_window_victim(dpb: Seq<DpbRef>, cur: i32, max: i32, i: int, j: int)
    requires
        oldest_short(dpb, cur, max, dpb.len() as int, i),
        0 <= j < dpb.len(),
    ensures
        !dpb[i].long_term,
        !dpb[j].long_term ==> age(dpb[i], cur, max) <= age(dpb[j], cur, max),
{
}

/// What each marking operation forgets: 1 the short-term picture so many numbers back,
/// 2 the long-term one of an index, 3 and 6 the one whose index is given away, 4 all
/// at or above a limit, 5 everything.
pub proof fn law_forgotten_pictures(r: DpbRef, cur: i32, max: i32, d: u32, x: u32)
    requires
        d <= 0x7fff_0000,
        x <= 0x7fff_0000,
    ensures
        forgets(Mmco::ForgetShort { diff_pic_nums_minus1: d }, r, cur, max) <==> !r.long_term && age(
            r,
            cur,
            max,
        ) == cur - d - 1,
        forgets(Mmco::ForgetLong { long_term_pic_num: x }, r, cur, max) <==> r.long_term
            && r.long_term_frame_idx == x,
        forgets(
            Mmco::ShortToLong { diff_pic_nums_minus1: d, long_term_frame_idx: x },
            r,
            cur,
            max,
        ) <==> r.long_term && r.long_term_frame_idx == x,
        forgets(Mmco::SetMaxLong { max_long_term_frame_idx_plus1: x }, r, cur, max) <==> r.long_term
            && r.long_term_frame_idx >= x,
        forgets(Mmco::ResetAll, r, cur, max),
        forgets(Mmco::CurrentToLong { long_term_frame_idx: x }, r, cur, max) <==> r.long_term
            && r.long_term_frame_idx == x,
{
}

proof fn lemma_promoted(dpb: Seq<DpbRef>, num: int, idx: i32, cur: i32, max: i32, i: int, k: int)
    requires
        0 <= i <= k < dpb.len(),
        !dpb[k].long_term,
        age(dpb[k], cur, max) == num,
        forall|j: int| i <= j < k ==> (#[trigger] dpb[j]).long_term || age(dpb[j], cur, max) != num,
    ensures
        promoted(dpb, num, idx, cur, max, i) == dpb.update(
            k,
            DpbRef { long_term: true, long_term_frame_idx: idx, ..dpb[k] },
        ),
    decreases k - i,
{
    if i < k {
        lemma_promoted(dpb, num, idx, cur, max, i + 1, k);
    }
}

/// Operation 3 makes the short-term picture of a number a long-term one with the
/// index, and changes no other.
pub proof fn law_short_to_long(dpb: Seq<DpbRef>, num: int, idx: i32, cur: i32, max: i32, k: int)
    requires
        0 <= k < dpb.len(),
        !dpb[k].long_term,
        age(dpb[k], cur, max) == num,
        forall|j: int| 0 <= j < k ==> (#[trigger] dpb[j]).long_term || age(dpb[j], cur, max) != num,
    ensures
        ({
            let t = promoted(dpb, num, idx, cur, max, 0);
            &&& t.len() == dpb.len()
            &&& t[k].long_term && t[k].long_term_frame_idx == idx && t[k].frame_num
                == dpb[k].frame_num && t[k].poc == dpb[k].poc
            &&& forall|j: int| 0 <= j < dpb.len() && j != k ==> #[trigger] t[j] == dpb[j]
        }),
{
    lemma_promoted(dpb, num, idx, cur, max, 0, k);
}

/// Marking operations are carried out in turn; the pictures that an operation does
/// not forget stay in order, and the current picture gets an index from operation 6
/// alone.
pub proof fn law_marking_in_turn(
    dpb: Seq<DpbRef>,
    long: Option<i32>,
    ops: Seq<Mmco>,
    cur: i32,
    max: i32,
    i: int,
)
    requires
        0 <= i < ops.len(),
    ensures
        ({
            let (d, l) = mmco_step(dpb, long, ops[i], cur, max);
            let kept = dpb.filter(|r: DpbRef| !forgets(ops[i], r, cur, max));
            &&& mmco_run(dpb, long, ops, cur, max, i) == mmco_run(d, l, ops, cur, max, i + 1)
            &&& ops[i] matches Mmco::ShortToLong { diff_pic_nums_minus1: n, long_term_frame_idx: x }
                ==> l == long && d == promoted(kept, cur - n - 1, x as i32, cur, max, 0)
            &&& !(ops[i] is ShortToLong) ==> d == kept
            &&& ops[i] matches Mmco::CurrentToLong { long_term_frame_idx: x } ==> l == Some(x as i32)
            &&& ops[i] is ResetAll ==> l is None
            &&& (ops[i] is ForgetShort || ops[i] is ForgetLong || ops[i] is SetMaxLong) ==> l == long
        }),
        mmco_run(dpb, long, ops, cur, max, ops.len() as int) == (dpb, long),
{
}

// ---- the dependent view ----

/// The initial list 0 of the dependent view: its own last frames, the most recent
/// first, and then the base frame of the same time; only that one in an anchor. No
/// more than the list's size, and at least one.
pub proof fn law_initial_dependent_list(num: int, len: int, anchor: bool, k: int)
    requires
        0 <= len <= u64::MAX,
        0 <= k,
    ensures
        ({
            let l = initial_list(num, len, anchor);
            let size = if num < 1 {
                1
            } else {
                num
            };
            let all = if anchor {
                1
            } else {
                len + 1
            };
            &&& l.len() == (if all < size {
                all
            } else {
                size
            })
            &&& anchor ==> l[0] == DRef::InterView
            &&& !anchor && k < len && k < l.len() ==> l[k] == DRef::Temporal(k as u64)
            &&& !anchor && k == len && k < l.len() ==> l[k] == DRef::InterView
        }),
{
}

/// What a modification names: numbers count back from the current picture, so that
/// the last frame is one back; the base frame stands for the operations on views;
/// long-term pictures are passed over.
pub proof fn law_named_frames(rel: i64, d: u32, x: u32)
    requires
        -0x4000_0000_0000 <= rel <= 0,
    ensures
        ({
            let (r, t) = target(
                RefPicListModification::PicNumSub { abs_diff_pic_num_minus1: d },
                rel,
            );
            r == rel - d - 1 && t == Some(DRef::Temporal((d - rel) as u64))
        }),
        ({
            let (r, t) = target(
                RefPicListModification::PicNumAdd { abs_diff_pic_num_minus1: d },
                rel,
            );
            r == rel + d + 1 && (r < 0 ==> t == Some(DRef::Temporal((-r - 1) as u64))) && (r >= 0
                ==> t == Some(DRef::Temporal(0)))
        }),
        target(RefPicListModification::LongTerm { long_term_pic_num: x }, rel) == (
            rel,
            None::<DRef>,
        ),
        target(RefPicListModification::InterViewSub { abs_diff_view_idx_minus1: x }, rel) == (
            rel,
            Some(DRef::InterView),
        ),
        target(RefPicListModification::InterViewAdd { abs_diff_view_idx_minus1: x }, rel) == (
            rel,
            Some(DRef::InterView),
        ),
{
}

proof fn lemma_lacking(list: Seq<DRef>, t: DRef)
    ensures
        !lacking(list, t).contains(t),
        lacking(list, t).len() <= list.len(),
        forall|d: DRef| d != t ==> (lacking(list, t).contains(d) <==> list.contains(d)),
    decreases list.len(),
{
    if list.len() > 0 {
        let r = list.drop_last();
        lemma_lacking(r, t);
        let q = lacking(r, t);
        assert forall|d: DRef| d != t implies (lacking(list, t).contains(d) <==> list.contains(d)) by {
            if list.contains(d) {
                let i = choose|i: int| 0 <= i < list.len() && list[i] == d;
                if i < r.len() {
                    assert(r[i] == d);
                    assert(r.contains(d));
                    assert(q.contains(d));
                    let j = choose|j: int| 0 <= j < q.len() && q[j] == d;
                    assert(lacking(list, t)[j] == d);
                } else {
                    assert(lacking(list, t)[q.len() as int] == d);
                }
            }
            if lacking(list, t).contains(d) {
                let i = choose|i: int| 0 <= i < lacking(list, t).len() && lacking(list, t)[i] == d;
                if i < q.len() {
                    assert(q[i] == d);
                    assert(q.contains(d));
                    assert(r.contains(d));
                    let j = choose|j: int| 0 <= j < r.len() && r[j] == d;
                    assert(list[j] == d);
                } else {
                    assert(list[list.len() - 1] == d);
                }
            }
        }
    }
}

/// A named frame moves to its place in the list; it is there once, the others keep
/// their order, and the list keeps its size.
pub proof fn law_named_frame_moves(list: Seq<DRef>, t: DRef, at: int, num: int)
    requires
        0 <= at <= list.len(),
        at < num,
    ensures
        ({
            let l = moved(list, t, at, num);
            let place = if at < lacking(list, t).len() {
                at
            } else {
                lacking(list, t).len() as int
            };
            &&& l.len() <= num
            &&& place < l.len()
            &&& l[place] == t
            &&& forall|k: int| 0 <= k < l.len() && k != place ==> #[trigger] l[k] != t
            &&& forall|k: int| 0 <= k < place ==> #[trigger] l[k] == lacking(list, t)[k]
            &&& forall|k: int| place < k < l.len() ==> #[trigger] l[k] == lacking(list, t)[k - 1]
        }),
        !lacking(list, t).contains(t),
        forall|d: DRef| d != t ==> (lacking(list, t).contains(d) <==> list.contains(d)),
{
    lemma_lacking(list, t);
    let r = lacking(list, t);
    assert forall|k: int| 0 <= k < r.len() implies r[k] != t by {
        assert(r.contains(r[k]));
    }
}

/// Modifications are carried out in turn, each one place further on; a list without
/// modifications is the initial one.
pub proof fn law_modifications_in_turn(
    list: Seq<DRef>,
    m: Seq<RefPicListModification>,
    num: int,
    i: int,
    at: int,
    rel: i64,
    len: int,
    anchor: bool,
)
    requires
        0 <= i < m.len(),
    ensures
        ({
            let (r, t) = target(m[i], rel);
            &&& t is None ==> modified(list, m, num, i, at, rel) == modified(
                list,
                m,
                num,
                i + 1,
                at,
                r,
            )
            &&& t matches Some(d) ==> modified(list, m, num, i, at, rel) == modified(
                moved(list, d, at, num),
                m,
                num,
                i + 1,
                at + 1,
                r,
            )
        }),
        modified(list, m, num, m.len() as int, at, rel) == list,
        dep_l0(None, num, len, anchor) == initial_list(num, len, anchor),
        dep_l0(Some(m), num, len, anchor) == modified(
            initial_list(num, len, anchor),
            m,
            num,
            0,
            0,
            0,
        ),
{
    reveal(dep_l0);
}

} // verus!

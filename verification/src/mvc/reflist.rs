//! Reference picture lists and marking (H.264 sections 8.2.4 and 8.2.5) for
//! streams coded in frames: the initial lists of P and B slices, the sliding
//! window, and the memory management control operations, with long-term
//! references.

use crate::mvc::slice_header::Mmco;
use vstd::prelude::*;

verus! {

/// A reference picture, as far as lists and marking need it.
#[derive(Debug, Clone, Copy, PartialEq, Eq, Structural)]
pub struct DpbRef {
    pub frame_num: i32,
    pub poc: i32,
    pub long_term: bool,
    /// Of a long-term picture only.
    pub long_term_frame_idx: i32,
}

impl DpbRef {
    /// A short-term picture.
    pub fn short(frame_num: i32, poc: i32) -> (r: Self)
        ensures
            r == (DpbRef { frame_num, poc, long_term: false, long_term_frame_idx: 0 }),
    {
        DpbRef { frame_num, poc, long_term: false, long_term_frame_idx: 0 }
    }

    /// FrameNumWrap: the frame number, lowered by its range where it lies ahead
    /// of the current one.
    pub open spec fn wrapped(self, cur: i32, max: i32) -> int {
        if self.frame_num > cur {
            self.frame_num - max
        } else {
            self.frame_num as int
        }
    }

    /// FrameNumWrap.
    pub fn frame_num_wrap(&self, cur_frame_num: i32, max_frame_num: i32) -> (w: i64)
        ensures
            w == self.wrapped(cur_frame_num, max_frame_num),
            -0x1_0000_0000 <= w <= 0x1_0000_0000,
    {
        if self.frame_num > cur_frame_num {
            self.frame_num as i64 - max_frame_num as i64
        } else {
            self.frame_num as i64
        }
    }
}

// ---- ordering ----

/// The position behind the entries of `s`, from `a` on, whose keys are not
/// above `k`.
pub open spec fn place(s: Seq<usize>, keys: Seq<Option<i64>>, k: i64, a: int) -> int
    decreases s.len() - a,
{
    if a >= s.len() {
        s.len() as int
    } else if keys[s[a] as int]->0 > k {
        a
    } else {
        place(s, keys, k, a + 1)
    }
}

/// The indices below `n` that have a key, by ascending key; equal keys keep
/// their order.
pub open spec fn ranked(keys: Seq<Option<i64>>, n: int) -> Seq<usize>
    decreases n,
{
    if n <= 0 {
        Seq::empty()
    } else {
        let s = ranked(keys, n - 1);
        match keys[n - 1] {
            None => s,
            Some(k) => s.insert(place(s, keys, k, 0), (n - 1) as usize),
        }
    }
}

/// `i` comes before `j` by key, then by index.
pub open spec fn precedes(keys: Seq<Option<i64>>, i: int, j: int) -> bool {
    keys[i]->0 < keys[j]->0 || (keys[i]->0 == keys[j]->0 && i < j)
}

/// The entries are distinct indices with keys below `n`, in order.
pub open spec fn in_order(s: Seq<usize>, keys: Seq<Option<i64>>, n: int) -> bool {
    &&& forall|a: int| 0 <= a < s.len() ==> 0 <= #[trigger] s[a] < n && keys[s[a] as int] is Some
    &&& forall|a: int, b: int|
        0 <= a < b < s.len() ==> precedes(keys, #[trigger] s[a] as int, #[trigger] s[b] as int)
}

/// The place of a key lies within the list.
pub proof fn lemma_place(s: Seq<usize>, keys: Seq<Option<i64>>, k: i64, a: int)
    requires
        0 <= a <= s.len(),
    ensures
        a <= place(s, keys, k, a) <= s.len(),
        forall|b: int|
            a <= b < place(s, keys, k, a) ==> keys[#[trigger] s[b] as int]->0 <= k,
        place(s, keys, k, a) < s.len() ==> keys[s[place(s, keys, k, a)] as int]->0 > k,
    decreases s.len() - a,
{
    if a < s.len() && !(keys[s[a] as int]->0 > k) {
        lemma_place(s, keys, k, a + 1);
    }
}

/// Ranked indices are in order, and every index with a key is among them.
pub proof fn law_ranked(keys: Seq<Option<i64>>, n: int)
    requires
        0 <= n <= keys.len(),
        n <= usize::MAX,
    ensures
        in_order(ranked(keys, n), keys, n),
        forall|i: int|
            0 <= i < n && (#[trigger] keys[i]) is Some ==> ranked(keys, n).contains(i as usize),
    decreases n,
{
    if n > 0 {
        law_ranked(keys, n - 1);
        let s = ranked(keys, n - 1);
        match keys[n - 1] {
            None => {},
            Some(k) => {
                lemma_place(s, keys, k, 0);
                let p = place(s, keys, k, 0);
                let t = s.insert(p, (n - 1) as usize);
                assert(t =~= ranked(keys, n));
                assert forall|a: int, b: int| 0 <= a < b < t.len() implies precedes(
                    keys,
                    #[trigger] t[a] as int,
                    #[trigger] t[b] as int,
                ) by {
                    if a < p && b == p {
                        assert(t[a] == s[a]);
                    } else if a == p {
                        assert(t[b] == s[b - 1]);
                        if p < b - 1 {
                            assert(precedes(keys, s[p] as int, s[b - 1] as int));
                        }
                    } else if b < p {
                        assert(precedes(keys, s[a] as int, s[b] as int));
                    } else if a > p {
                        assert(precedes(keys, s[a - 1] as int, s[b - 1] as int));
                    } else {
                        assert(precedes(keys, s[a] as int, s[b - 1] as int));
                    }
                }
                assert forall|i: int| 0 <= i < n && (#[trigger] keys[i]) is Some implies t.contains(
                    i as usize,
                ) by {
                    if i == n - 1 {
                        assert(t[p] == i as usize);
                    } else {
                        let a = choose|a: int| 0 <= a < s.len() && s[a] == i as usize;
                        if a < p {
                            assert(t[a] == i as usize);
                        } else {
                            assert(t[a + 1] == i as usize);
                        }
                    }
                }
            },
        }
    }
}

proof fn lemma_ranked_bounds(keys: Seq<Option<i64>>, n: int)
    requires
        0 <= n <= keys.len(),
        n <= usize::MAX,
    ensures
        ranked(keys, n).len() <= n,
        forall|a: int| 0 <= a < ranked(keys, n).len() ==> 0 <= #[trigger] ranked(keys, n)[a] < n,
        forall|a: int|
            0 <= a < ranked(keys, n).len() ==> keys[#[trigger] ranked(keys, n)[a] as int] is Some,
    decreases n,
{
    law_ranked(keys, n);
    if n > 0 {
        lemma_ranked_bounds(keys, n - 1);
        match keys[n - 1] {
            None => {},
            Some(k) => {
                lemma_place(ranked(keys, n - 1), keys, k, 0);
            },
        }
    }
}

fn find_place(s: &Vec<usize>, keys: &Vec<Option<i64>>, k: i64) -> (p: usize)
    requires
        forall|a: int| 0 <= a < s@.len() ==> #[trigger] s@[a] < keys@.len(),
        forall|a: int| 0 <= a < s@.len() ==> keys@[#[trigger] s@[a] as int] is Some,
    ensures
        p == place(s@, keys@, k, 0),
        p <= s@.len(),
{
    let n: usize = s.len();
    let mut a: usize = 0;
    while a < n
        invariant
            a <= n,
            n == s@.len(),
            forall|b: int| 0 <= b < s@.len() ==> #[trigger] s@[b] < keys@.len(),
            forall|b: int| 0 <= b < s@.len() ==> keys@[#[trigger] s@[b] as int] is Some,
            place(s@, keys@, k, 0) == place(s@, keys@, k, a as int),
        decreases n - a,
    {
        match keys[s[a]] {
            Some(v) => {
                if v > k {
                    return a;
                }
            },
            None => {},
        }
        a = a + 1;
    }
    n
}

/// The indices that have a key, by ascending key.
pub fn rank(keys: &Vec<Option<i64>>) -> (out: Vec<usize>)
    ensures
        out@ == ranked(keys@, keys@.len() as int),
{
    let mut out: Vec<usize> = Vec::new();
    let n: usize = keys.len();
    assert(out@ =~= ranked(keys@, 0));
    for i in 0..n
        invariant
            n == keys@.len(),
            out@ == ranked(keys@, i as int),
    {
        proof {
            lemma_ranked_bounds(keys@, i as int);
        }
        match keys[i] {
            None => {},
            Some(k) => {
                let p: usize = find_place(&out, keys, k);
                out.insert(p, i);
            },
        }
    }
    out
}

// ---- lists ----

/// Short-term pictures by descending FrameNumWrap.
pub open spec fn short_keys(dpb: Seq<DpbRef>, cur: i32, max: i32) -> Seq<Option<i64>> {
    Seq::new(
        dpb.len(),
        |i: int|
            if dpb[i].long_term {
                None
            } else {
                Some((-dpb[i].wrapped(cur, max)) as i64)
            },
    )
}

/// Long-term pictures by ascending LongTermFrameIdx.
pub open spec fn long_keys(dpb: Seq<DpbRef>) -> Seq<Option<i64>> {
    Seq::new(
        dpb.len(),
        |i: int|
            if dpb[i].long_term {
                Some(dpb[i].long_term_frame_idx as i64)
            } else {
                None
            },
    )
}

/// Short-term pictures before the current one, nearest first.
pub open spec fn past_keys(dpb: Seq<DpbRef>, poc: i32) -> Seq<Option<i64>> {
    Seq::new(
        dpb.len(),
        |i: int|
            if !dpb[i].long_term && dpb[i].poc < poc {
                Some((-dpb[i].poc) as i64)
            } else {
                None
            },
    )
}

/// Short-term pictures after the current one, nearest first.
pub open spec fn future_keys(dpb: Seq<DpbRef>, poc: i32) -> Seq<Option<i64>> {
    Seq::new(
        dpb.len(),
        |i: int|
            if !dpb[i].long_term && dpb[i].poc > poc {
                Some(dpb[i].poc as i64)
            } else {
                None
            },
    )
}

/// The ranked indices of a whole key sequence.
pub open spec fn by_keys(keys: Seq<Option<i64>>) -> Seq<usize> {
    ranked(keys, keys.len() as int)
}

/// The initial list 0 of a P slice.
pub open spec fn p_list(dpb: Seq<DpbRef>, cur: i32, max: i32) -> Seq<usize> {
    by_keys(short_keys(dpb, cur, max)) + by_keys(long_keys(dpb))
}

/// The initial lists of a B slice. List 1 has its first two entries exchanged
/// where it has several and is the same as list 0.
pub open spec fn b_lists(dpb: Seq<DpbRef>, poc: i32) -> (Seq<usize>, Seq<usize>) {
    let (past, future, long) = (
        by_keys(past_keys(dpb, poc)),
        by_keys(future_keys(dpb, poc)),
        by_keys(long_keys(dpb)),
    );
    let l0 = past + future + long;
    let l1 = future + past + long;
    (
        l0,
        if l1.len() > 1 && l1 == l0 {
            l1.update(0, l1[1]).update(1, l1[0])
        } else {
            l1
        },
    )
}

fn rank_long(dpb: &[DpbRef]) -> (out: Vec<usize>)
    ensures
        out@ == by_keys(long_keys(dpb@)),
{
    let mut keys: Vec<Option<i64>> = Vec::new();
    let n: usize = dpb.len();
    for i in 0..n
        invariant
            n == dpb@.len(),
            keys@.len() == i,
            forall|j: int| 0 <= j < i ==> #[trigger] keys@[j] == long_keys(dpb@)[j],
    {
        keys.push(
            if dpb[i].long_term {
                Some(dpb[i].long_term_frame_idx as i64)
            } else {
                None
            },
        );
    }
    assert(keys@ =~= long_keys(dpb@));
    rank(&keys)
}

fn rank_short(dpb: &[DpbRef], cur: i32, max: i32) -> (out: Vec<usize>)
    ensures
        out@ == by_keys(short_keys(dpb@, cur, max)),
{
    let mut keys: Vec<Option<i64>> = Vec::new();
    let n: usize = dpb.len();
    for i in 0..n
        invariant
            n == dpb@.len(),
            keys@.len() == i,
            forall|j: int| 0 <= j < i ==> #[trigger] keys@[j] == short_keys(dpb@, cur, max)[j],
    {
        keys.push(
            if dpb[i].long_term {
                None
            } else {
                Some(-dpb[i].frame_num_wrap(cur, max))
            },
        );
    }
    assert(keys@ =~= short_keys(dpb@, cur, max));
    rank(&keys)
}

fn rank_by_poc(dpb: &[DpbRef], poc: i32, future: bool) -> (out: Vec<usize>)
    ensures
        out@ == by_keys(
            if future {
                future_keys(dpb@, poc)
            } else {
                past_keys(dpb@, poc)
            },
        ),
{
    let ghost want = if future {
        future_keys(dpb@, poc)
    } else {
        past_keys(dpb@, poc)
    };
    let mut keys: Vec<Option<i64>> = Vec::new();
    let n: usize = dpb.len();
    for i in 0..n
        invariant
            n == dpb@.len(),
            want == (if future {
                future_keys(dpb@, poc)
            } else {
                past_keys(dpb@, poc)
            }),
            keys@.len() == i,
            forall|j: int| 0 <= j < i ==> #[trigger] keys@[j] == want[j],
    {
        let r = dpb[i];
        keys.push(
            if !r.long_term && future && r.poc > poc {
                Some(r.poc as i64)
            } else if !r.long_term && !future && r.poc < poc {
                Some(-(r.poc as i64))
            } else {
                None
            },
        );
    }
    assert(keys@ =~= want);
    rank(&keys)
}

/// The initial list 0 of a P slice, as indices into `dpb`: short-term pictures
/// by descending picture number, then long-term ones by ascending index.
pub fn init_p_list0(dpb: &[DpbRef], cur_frame_num: i32, max_frame_num: i32) -> (r: Vec<usize>)
    ensures
        r@ == p_list(dpb@, cur_frame_num, max_frame_num),
{
    let mut r = rank_short(dpb, cur_frame_num, max_frame_num);
    let mut long = rank_long(dpb);
    r.append(&mut long);
    r
}

fn append_all(out: &mut Vec<usize>, v: &Vec<usize>)
    ensures
        final(out)@ == old(out)@ + v@,
{
    let n: usize = v.len();
    for i in 0..n
        invariant
            n == v@.len(),
            out@ == old(out)@ + v@.take(i as int),
    {
        out.push(v[i]);
        assert(out@ =~= old(out)@ + v@.take(i + 1));
    }
    assert(v@.take(n as int) =~= v@);
}

fn same(a: &Vec<usize>, b: &Vec<usize>) -> (r: bool)
    ensures
        r == (a@ == b@),
{
    if a.len() != b.len() {
        return false;
    }
    let n: usize = a.len();
    for i in 0..n
        invariant
            n == a@.len(),
            n == b@.len(),
            forall|j: int| 0 <= j < i ==> a@[j] == b@[j],
    {
        if a[i] != b[i] {
            return false;
        }
    }
    assert(a@ =~= b@);
    true
}

/// The initial lists of a B slice, as indices into `dpb`. List 0 has the
/// short-term pictures before the current one, nearest first, then those after
/// it; list 1 has them the other way round. Long-term pictures end both. Where
/// list 1 has several entries and is the same as list 0, its first two are
/// exchanged.
pub fn init_b_lists(dpb: &[DpbRef], cur_poc: i32) -> (r: (Vec<usize>, Vec<usize>))
    ensures
        (r.0@, r.1@) == b_lists(dpb@, cur_poc),
{
    let past = rank_by_poc(dpb, cur_poc, false);
    let future = rank_by_poc(dpb, cur_poc, true);
    let long = rank_long(dpb);
    let mut l0: Vec<usize> = Vec::new();
    append_all(&mut l0, &past);
    append_all(&mut l0, &future);
    append_all(&mut l0, &long);
    let mut l1: Vec<usize> = Vec::new();
    append_all(&mut l1, &future);
    append_all(&mut l1, &past);
    append_all(&mut l1, &long);
    proof {
        assert(l0@ =~= past@ + future@ + long@);
        assert(l1@ =~= future@ + past@ + long@);
    }
    if l1.len() > 1 && same(&l1, &l0) {
        let (a, b): (usize, usize) = (l1[0], l1[1]);
        l1.set(0, b);
        l1.set(1, a);
    }
    (l0, l1)
}

/// Every picture is in the initial list of a P slice.
pub proof fn law_p_list_is_complete(dpb: Seq<DpbRef>, cur: i32, max: i32, i: int)
    requires
        0 <= i < dpb.len(),
        dpb.len() <= usize::MAX,
    ensures
        p_list(dpb, cur, max).contains(i as usize),
{
    let (s, l) = (short_keys(dpb, cur, max), long_keys(dpb));
    law_ranked(s, s.len() as int);
    law_ranked(l, l.len() as int);
    let (a, b) = (by_keys(s), by_keys(l));
    if dpb[i].long_term {
        assert(l[i] is Some);
        let k = choose|k: int| 0 <= k < b.len() && b[k] == i as usize;
        assert((a + b)[a.len() + k] == i as usize);
    } else {
        assert(s[i] is Some);
        let k = choose|k: int| 0 <= k < a.len() && a[k] == i as usize;
        assert((a + b)[k] == i as usize);
    }
}

// ---- the sliding window ----

/// The picture at `i` is the short-term one with the smallest FrameNumWrap, the
/// first of several.
pub open spec fn oldest_short(dpb: Seq<DpbRef>, cur: i32, max: i32, n: int, i: int) -> bool {
    &&& 0 <= i < n
    &&& !dpb[i].long_term
    &&& forall|j: int|
        0 <= j < n && !(#[trigger] dpb[j]).long_term ==> dpb[i].wrapped(cur, max)
            <= dpb[j].wrapped(cur, max) && (j < i ==> dpb[i].wrapped(cur, max) < dpb[j].wrapped(
            cur,
            max,
        ))
}

/// The picture that leaves to make room for another: where `num_ref_frames`
/// pictures are held already, the short-term one with the smallest FrameNumWrap.
/// Long-term pictures never leave this way.
pub fn sliding_window_victim(
    dpb: &[DpbRef],
    cur_frame_num: i32,
    max_frame_num: i32,
    num_ref_frames: usize,
) -> (r: Option<usize>)
    ensures
        match r {
            Some(i) => dpb@.len() >= num_ref_frames && dpb@.len() >= 1 && oldest_short(
                dpb@,
                cur_frame_num,
                max_frame_num,
                dpb@.len() as int,
                i as int,
            ),
            None => dpb@.len() < num_ref_frames || dpb@.len() < 1 || forall|j: int|
                0 <= j < dpb@.len() ==> (#[trigger] dpb@[j]).long_term,
        },
{
    let n: usize = dpb.len();
    if n < num_ref_frames || n < 1 {
        return None;
    }
    let mut best: Option<usize> = None;
    for i in 0..n
        invariant
            n == dpb@.len(),
            match best {
                Some(b) => oldest_short(
                    dpb@,
                    cur_frame_num,
                    max_frame_num,
                    i as int,
                    b as int,
                ),
                None => forall|j: int| 0 <= j < i ==> (#[trigger] dpb@[j]).long_term,
            },
    {
        if !dpb[i].long_term {
            match best {
                None => {
                    best = Some(i);
                },
                Some(b) => {
                    if dpb[i].frame_num_wrap(cur_frame_num, max_frame_num) < dpb[b].frame_num_wrap(
                        cur_frame_num,
                        max_frame_num,
                    ) {
                        best = Some(i);
                    }
                },
            }
        }
    }
    best
}

// ---- memory management control operations ----

/// The operation forgets this picture.
pub open spec fn forgets(op: Mmco, r: DpbRef, cur: i32, max: i32) -> bool {
    match op {
        Mmco::ForgetShort { diff_pic_nums_minus1 } => !r.long_term && r.wrapped(cur, max) == cur - (
        diff_pic_nums_minus1 + 1),
        Mmco::ForgetLong { long_term_pic_num } => r.long_term && r.long_term_frame_idx
            == long_term_pic_num as i32,
        Mmco::ShortToLong { diff_pic_nums_minus1, long_term_frame_idx } => r.long_term
            && r.long_term_frame_idx == long_term_frame_idx as i32,
        Mmco::SetMaxLong { max_long_term_frame_idx_plus1 } => r.long_term && r.long_term_frame_idx > (
        max_long_term_frame_idx_plus1 as i32) - 1,
        Mmco::ResetAll => true,
        Mmco::CurrentToLong { long_term_frame_idx } => r.long_term && r.long_term_frame_idx
            == long_term_frame_idx as i32,
    }
}

/// The first short-term picture from `i` on with this FrameNumWrap becomes a
/// long-term one.
pub open spec fn promoted(dpb: Seq<DpbRef>, num: int, idx: i32, cur: i32, max: i32, i: int) -> Seq<DpbRef>
    decreases dpb.len() - i,
{
    if i >= dpb.len() {
        dpb
    } else if !dpb[i].long_term && dpb[i].wrapped(cur, max) == num {
        dpb.update(i, DpbRef { long_term: true, long_term_frame_idx: idx, ..dpb[i] })
    } else {
        promoted(dpb, num, idx, cur, max, i + 1)
    }
}

/// The pictures after an operation, and the long-term index of the current one.
pub open spec fn mmco_step(dpb: Seq<DpbRef>, long: Option<i32>, op: Mmco, cur: i32, max: i32) -> (
    Seq<DpbRef>,
    Option<i32>,
) {
    let kept = dpb.filter(|r: DpbRef| !forgets(op, r, cur, max));
    match op {
        Mmco::ShortToLong { diff_pic_nums_minus1, long_term_frame_idx } => (
            promoted(
                kept,
                cur - (diff_pic_nums_minus1 + 1),
                long_term_frame_idx as i32,
                cur,
                max,
                0,
            ),
            long,
        ),
        Mmco::ResetAll => (kept, None),
        Mmco::CurrentToLong { long_term_frame_idx } => (kept, Some(long_term_frame_idx as i32)),
        _ => (kept, long),
    }
}

/// The pictures after the operations from `i` on, and the long-term index of
/// the current one.
pub open spec fn mmco_run(
    dpb: Seq<DpbRef>,
    long: Option<i32>,
    ops: Seq<Mmco>,
    cur: i32,
    max: i32,
    i: int,
) -> (Seq<DpbRef>, Option<i32>)
    decreases ops.len() - i,
{
    if i >= ops.len() {
        (dpb, long)
    } else {
        let (d, l) = mmco_step(dpb, long, ops[i], cur, max);
        mmco_run(d, l, ops, cur, max, i + 1)
    }
}

fn does_forget(op: &Mmco, r: &DpbRef, cur: i32, max: i32) -> (b: bool)
    ensures
        b == forgets(*op, *r, cur, max),
{
    match *op {
        Mmco::ForgetShort { diff_pic_nums_minus1 } => !r.long_term && r.frame_num_wrap(cur, max)
            == cur as i64 - (diff_pic_nums_minus1 as i64 + 1),
        Mmco::ForgetLong { long_term_pic_num } => r.long_term && r.long_term_frame_idx
            == long_term_pic_num as i32,
        Mmco::ShortToLong { diff_pic_nums_minus1: _, long_term_frame_idx } => r.long_term
            && r.long_term_frame_idx == long_term_frame_idx as i32,
        Mmco::SetMaxLong { max_long_term_frame_idx_plus1 } => r.long_term
            && r.long_term_frame_idx as i64 > (max_long_term_frame_idx_plus1 as i32) as i64 - 1,
        Mmco::ResetAll => true,
        Mmco::CurrentToLong { long_term_frame_idx } => r.long_term && r.long_term_frame_idx
            == long_term_frame_idx as i32,
    }
}

fn keep(dpb: &Vec<DpbRef>, op: &Mmco, cur: i32, max: i32) -> (out: Vec<DpbRef>)
    ensures
        out@ == dpb@.filter(|r: DpbRef| !forgets(*op, r, cur, max)),
{
    let mut out: Vec<DpbRef> = Vec::new();
    let n: usize = dpb.len();
    let ghost pred = |r: DpbRef| !forgets(*op, r, cur, max);
    proof {
        reveal(Seq::filter);
        assert(dpb@.take(0).filter(pred) =~= Seq::empty());
    }
    for i in 0..n
        invariant
            n == dpb@.len(),
            pred == (|r: DpbRef| !forgets(*op, r, cur, max)),
            out@ == dpb@.take(i as int).filter(pred),
    {
        let r = dpb[i];
        proof {
            reveal(Seq::filter);
            assert(dpb@.take(i + 1).drop_last() =~= dpb@.take(i as int));
        }
        if !does_forget(op, &r, cur, max) {
            out.push(r);
        }
    }
    assert(dpb@.take(n as int) =~= dpb@);
    out
}

fn promote(dpb: &mut Vec<DpbRef>, num: i64, idx: i32, cur: i32, max: i32)
    ensures
        final(dpb)@ == promoted(old(dpb)@, num as int, idx, cur, max, 0),
{
    let n: usize = dpb.len();
    let mut i: usize = 0;
    while i < n
        invariant
            i <= n,
            n == dpb@.len(),
            dpb@ == old(dpb)@,
            promoted(dpb@, num as int, idx, cur, max, 0) == promoted(
                dpb@,
                num as int,
                idx,
                cur,
                max,
                i as int,
            ),
        decreases n - i,
    {
        let mut r = dpb[i];
        if !r.long_term && r.frame_num_wrap(cur, max) == num {
            r.long_term = true;
            r.long_term_frame_idx = idx;
            dpb.set(i, r);
            return;
        }
        i = i + 1;
    }
}

/// Apply memory management control operations to the pictures before the
/// current one joins them. Returns the long-term index of the current picture,
/// where an operation gives it one.
pub fn apply_mmco(dpb: &mut Vec<DpbRef>, mmco: &[Mmco], cur_frame_num: i32, max_frame_num: i32) -> (r: Option<
    i32,
>)
    ensures
        (final(dpb)@, r) == mmco_run(old(dpb)@, None, mmco@, cur_frame_num, max_frame_num, 0),
{
    let mut long: Option<i32> = None;
    let n: usize = mmco.len();
    for i in 0..n
        invariant
            n == mmco@.len(),
            mmco_run(dpb@, long, mmco@, cur_frame_num, max_frame_num, i as int) == mmco_run(
                old(dpb)@,
                None,
                mmco@,
                cur_frame_num,
                max_frame_num,
                0,
            ),
    {
        let op: Mmco = mmco[i];
        let kept = keep(dpb, &op, cur_frame_num, max_frame_num);
        *dpb = kept;
        match op {
            Mmco::ShortToLong { diff_pic_nums_minus1, long_term_frame_idx } => {
                promote(
                    dpb,
                    cur_frame_num as i64 - (diff_pic_nums_minus1 as i64 + 1),
                    long_term_frame_idx as i32,
                    cur_frame_num,
                    max_frame_num,
                );
            },
            Mmco::ResetAll => {
                long = None;
            },
            Mmco::CurrentToLong { long_term_frame_idx } => {
                long = Some(long_term_frame_idx as i32);
            },
            _ => {},
        }
    }
    long
}

/// No two long-term pictures share an index.
pub open spec fn unique_long(dpb: Seq<DpbRef>) -> bool {
    forall|i: int, j: int|
        0 <= i < j < dpb.len() && (#[trigger] dpb[i]).long_term && (#[trigger] dpb[j]).long_term
            ==> dpb[i].long_term_frame_idx != dpb[j].long_term_frame_idx
}

proof fn lemma_filter_keeps(dpb: Seq<DpbRef>, pred: spec_fn(DpbRef) -> bool)
    requires
        unique_long(dpb),
    ensures
        unique_long(dpb.filter(pred)),
        forall|i: int| 0 <= i < dpb.filter(pred).len() ==> pred(#[trigger] dpb.filter(pred)[i]),
        forall|i: int|
            0 <= i < dpb.filter(pred).len() ==> dpb.contains(#[trigger] dpb.filter(pred)[i]),
    decreases dpb.len(),
{
    reveal(Seq::filter);
    if dpb.len() > 0 {
        let d = dpb.drop_last();
        assert forall|i: int, j: int|
            0 <= i < j < d.len() && (#[trigger] d[i]).long_term && (#[trigger] d[j]).long_term implies
            d[i].long_term_frame_idx != d[j].long_term_frame_idx by {
            assert(d[i] == dpb[i] && d[j] == dpb[j]);
        }
        lemma_filter_keeps(d, pred);
        let f = d.filter(pred);
        assert forall|i: int| 0 <= i < f.len() implies dpb.contains(#[trigger] f[i]) by {
            let k = choose|k: int| 0 <= k < d.len() && d[k] == f[i];
            assert(dpb[k] == f[i]);
        }
        if pred(dpb.last()) {
            let g = f.push(dpb.last());
            assert(g =~= dpb.filter(pred));
            assert(dpb[dpb.len() - 1] == dpb.last());
            assert forall|i: int, j: int|
                0 <= i < j < g.len() && (#[trigger] g[i]).long_term && (#[trigger] g[j]).long_term implies
                g[i].long_term_frame_idx != g[j].long_term_frame_idx by {
                if j == f.len() {
                    let k = choose|k: int| 0 <= k < d.len() && d[k] == f[i];
                    assert(dpb[k] == g[i]);
                }
            }
        }
    }
}

proof fn lemma_promoted_unique(dpb: Seq<DpbRef>, num: int, idx: i32, cur: i32, max: i32, i: int)
    requires
        0 <= i,
        unique_long(dpb),
        forall|k: int|
            0 <= k < dpb.len() && (#[trigger] dpb[k]).long_term ==> dpb[k].long_term_frame_idx
                != idx,
    ensures
        unique_long(promoted(dpb, num, idx, cur, max, i)),
    decreases dpb.len() - i,
{
    if i < dpb.len() && !(!dpb[i].long_term && dpb[i].wrapped(cur, max) == num) {
        lemma_promoted_unique(dpb, num, idx, cur, max, i + 1);
    }
}

/// Long-term indices stay unique under the operations.
pub proof fn law_long_indices_stay_unique(
    dpb: Seq<DpbRef>,
    long: Option<i32>,
    ops: Seq<Mmco>,
    cur: i32,
    max: i32,
    i: int,
)
    requires
        0 <= i,
        unique_long(dpb),
    ensures
        unique_long(mmco_run(dpb, long, ops, cur, max, i).0),
    decreases ops.len() - i,
{
    if i < ops.len() {
        let op = ops[i];
        let pred = |r: DpbRef| !forgets(op, r, cur, max);
        lemma_filter_keeps(dpb, pred);
        let kept = dpb.filter(pred);
        match op {
            Mmco::ShortToLong { diff_pic_nums_minus1, long_term_frame_idx } => {
                assert forall|k: int| 0 <= k < kept.len() && (#[trigger] kept[k]).long_term implies
                kept[k].long_term_frame_idx != long_term_frame_idx as i32 by {
                    assert(pred(kept[k]));
                }
                lemma_promoted_unique(
                    kept,
                    cur - (diff_pic_nums_minus1 + 1),
                    long_term_frame_idx as i32,
                    cur,
                    max,
                    0,
                );
            },
            _ => {},
        }
        let (d, l) = mmco_step(dpb, long, op, cur, max);
        law_long_indices_stay_unique(d, l, ops, cur, max, i + 1);
    }
}

/// The pictures `t` are some of `s`, in the same order: picture `k` of `t` is
/// picture `from[k]` of `s`, and no long-term one has become a short-term one.
pub open spec fn drawn_from(t: Seq<DpbRef>, s: Seq<DpbRef>, from: Seq<int>) -> bool {
    &&& from.len() == t.len()
    &&& forall|k: int|
        0 <= k < t.len() ==> 0 <= #[trigger] from[k] < s.len() && t[k].frame_num
            == s[from[k]].frame_num && t[k].poc == s[from[k]].poc && (s[from[k]].long_term
            ==> t[k].long_term)
    &&& forall|a: int, b: int| 0 <= a < b < t.len() ==> #[trigger] from[a] < #[trigger] from[b]
}

proof fn lemma_drawn_on(
    u: Seq<DpbRef>,
    t: Seq<DpbRef>,
    s: Seq<DpbRef>,
    f: Seq<int>,
    g: Seq<int>,
) -> (h: Seq<int>)
    requires
        drawn_from(u, t, f),
        drawn_from(t, s, g),
    ensures
        drawn_from(u, s, h),
{
    let h = Seq::new(u.len(), |k: int| g[f[k]]);
    assert forall|k: int| 0 <= k < u.len() implies 0 <= #[trigger] h[k] < s.len() && u[k].frame_num
        == s[h[k]].frame_num && u[k].poc == s[h[k]].poc && (s[h[k]].long_term ==> u[k].long_term) by {
        let j = f[k];
        assert(0 <= g[j] < s.len());
    }
    assert forall|a: int, b: int| 0 <= a < b < u.len() implies #[trigger] h[a] < #[trigger] h[b] by {
        assert(f[a] < f[b]);
        assert(g[f[a]] < g[f[b]]);
    }
    h
}

proof fn lemma_filter_drawn(s: Seq<DpbRef>, pred: spec_fn(DpbRef) -> bool) -> (from: Seq<int>)
    ensures
        drawn_from(s.filter(pred), s, from),
        forall|k: int| 0 <= k < s.filter(pred).len() ==> pred(#[trigger] s.filter(pred)[k]),
    decreases s.len(),
{
    reveal(Seq::filter);
    if s.len() == 0 {
        Seq::empty()
    } else {
        let r = s.drop_last();
        let f = lemma_filter_drawn(r, pred);
        assert forall|k: int| 0 <= k < f.len() implies 0 <= #[trigger] f[k] < s.len() - 1
            && s[f[k]] == r[f[k]] by {}
        if pred(s.last()) {
            f.push(s.len() - 1)
        } else {
            f
        }
    }
}

proof fn lemma_promoted_drawn(s: Seq<DpbRef>, num: int, idx: i32, cur: i32, max: i32, i: int)
    requires
        0 <= i,
    ensures
        drawn_from(promoted(s, num, idx, cur, max, i), s, Seq::new(s.len(), |k: int| k)),
    decreases s.len() - i,
{
    if i < s.len() && !(!s[i].long_term && s[i].wrapped(cur, max) == num) {
        lemma_promoted_drawn(s, num, idx, cur, max, i + 1);
    }
}

/// The operations forget pictures and make short-term ones long-term; they add
/// none and keep the order, and no long-term picture becomes a short-term one.
pub proof fn law_operations_only_forget(
    dpb: Seq<DpbRef>,
    long: Option<i32>,
    ops: Seq<Mmco>,
    cur: i32,
    max: i32,
    i: int,
) -> (from: Seq<int>)
    requires
        0 <= i,
    ensures
        drawn_from(mmco_run(dpb, long, ops, cur, max, i).0, dpb, from),
    decreases ops.len() - i,
{
    let same = Seq::new(dpb.len(), |k: int| k);
    if i >= ops.len() {
        same
    } else {
        let op = ops[i];
        let pred = |r: DpbRef| !forgets(op, r, cur, max);
        let kept = dpb.filter(pred);
        let f = lemma_filter_drawn(dpb, pred);
        let (d, l) = mmco_step(dpb, long, op, cur, max);
        let g = match op {
            Mmco::ShortToLong { diff_pic_nums_minus1, long_term_frame_idx } => {
                lemma_promoted_drawn(
                    kept,
                    cur - (diff_pic_nums_minus1 + 1),
                    long_term_frame_idx as i32,
                    cur,
                    max,
                    0,
                );
                lemma_drawn_on(d, kept, dpb, Seq::new(kept.len(), |k: int| k), f)
            },
            _ => f,
        };
        let h = law_operations_only_forget(d, l, ops, cur, max, i + 1);
        lemma_drawn_on(mmco_run(d, l, ops, cur, max, i + 1).0, d, dpb, h, g)
    }
}

/// The long-term index that the first `n` operations give the current picture:
/// that of the last one which makes it long-term, unless a reset follows.
pub open spec fn current_index(ops: Seq<Mmco>, n: int, before: Option<i32>) -> Option<i32>
    decreases n,
{
    if n <= 0 {
        before
    } else {
        match ops[n - 1] {
            Mmco::CurrentToLong { long_term_frame_idx } => Some(long_term_frame_idx as i32),
            Mmco::ResetAll => None,
            _ => current_index(ops, n - 1, before),
        }
    }
}

proof fn lemma_current_index(
    dpb: Seq<DpbRef>,
    ops: Seq<Mmco>,
    cur: i32,
    max: i32,
    i: int,
    before: Option<i32>,
)
    requires
        0 <= i <= ops.len(),
    ensures
        mmco_run(dpb, current_index(ops, i, before), ops, cur, max, i).1 == current_index(
            ops,
            ops.len() as int,
            before,
        ),
    decreases ops.len() - i,
{
    if i < ops.len() {
        let (d, l) = mmco_step(dpb, current_index(ops, i, before), ops[i], cur, max);
        assert(l == current_index(ops, i + 1, before));
        lemma_current_index(d, ops, cur, max, i + 1, before);
    }
}

/// The current picture gets the index of the last operation that makes it
/// long-term, unless a reset follows or there is none.
pub proof fn law_current_index(dpb: Seq<DpbRef>, ops: Seq<Mmco>, cur: i32, max: i32)
    ensures
        mmco_run(dpb, None, ops, cur, max, 0).1 == current_index(ops, ops.len() as int, None),
{
    lemma_current_index(dpb, ops, cur, max, 0, None);
}

/// After operations with a reset among them no picture is left.
pub proof fn law_reset_leaves_nothing(
    dpb: Seq<DpbRef>,
    long: Option<i32>,
    ops: Seq<Mmco>,
    cur: i32,
    max: i32,
    i: int,
)
    requires
        0 <= i,
        dpb.len() == 0 || exists|k: int| i <= k < ops.len() && (#[trigger] ops[k]) is ResetAll,
    ensures
        mmco_run(dpb, long, ops, cur, max, i).0.len() == 0,
    decreases ops.len() - i,
{
    if i < ops.len() {
        let op = ops[i];
        let pred = |r: DpbRef| !forgets(op, r, cur, max);
        let kept = dpb.filter(pred);
        let f = lemma_filter_drawn(dpb, pred);
        if op is ResetAll {
            if kept.len() > 0 {
                assert(pred(kept[0]));
            }
        } else if dpb.len() == 0 && kept.len() > 0 {
            assert(0 <= f[0] < dpb.len());
        }
        let (d, l) = mmco_step(dpb, long, op, cur, max);
        law_reset_leaves_nothing(d, l, ops, cur, max, i + 1);
    }
}

} // verus!

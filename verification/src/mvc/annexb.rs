//! NAL units of an Annex B byte stream (H.264 section B.1): units follow start
//! codes `00 00 01` or `00 00 00 01`, and zero bytes behind a unit are padding.

use crate::mvc::bytes::piece;
use vstd::prelude::*;

verus! {

/// The length of the start code at `i`: 3, 4, or 0 where there is none.
pub open spec fn code_len(d: Seq<u8>, i: int) -> int {
    if 0 <= i && i + 2 < d.len() && d[i] == 0 && d[i + 1] == 0 && d[i + 2] == 1 {
        3
    } else if 0 <= i && i + 3 < d.len() && d[i] == 0 && d[i + 1] == 0 && d[i + 2] == 0 && d[i + 3]
        == 1 {
        4
    } else {
        0
    }
}

/// Where the first start code at or after `i` begins.
pub open spec fn next_code(d: Seq<u8>, i: int) -> Option<int>
    decreases d.len() - i,
{
    if i < 0 || i >= d.len() {
        None
    } else if code_len(d, i) > 0 {
        Some(i)
    } else {
        next_code(d, i + 1)
    }
}

/// The bytes without trailing zeros.
pub open spec fn trimmed(d: Seq<u8>) -> Seq<u8>
    decreases d.len(),
{
    if d.len() > 0 && d.last() == 0 {
        trimmed(d.drop_last())
    } else {
        d
    }
}

proof fn lemma_next_code(d: Seq<u8>, i: int)
    requires
        0 <= i,
    ensures
        match next_code(d, i) {
            Some(s) => i <= s && s + 3 <= d.len() && code_len(d, s) > 0 && s + code_len(d, s)
                <= d.len() && forall|k: int| i <= k < s ==> code_len(d, k) == 0,
            None => forall|k: int| i <= k ==> code_len(d, k) == 0,
        },
    decreases d.len() - i,
{
    if i < d.len() && code_len(d, i) == 0 {
        lemma_next_code(d, i + 1);
    }
}

/// The first start code, where nothing before it is one.
pub proof fn lemma_first_code(d: Seq<u8>, i: int, s: int)
    requires
        0 <= i <= s < d.len(),
        code_len(d, s) > 0,
        forall|k: int| i <= k < s ==> code_len(d, k) == 0,
    ensures
        next_code(d, i) == Some(s),
    decreases s - i,
{
    if i < s {
        assert(code_len(d, i) == 0);
        lemma_first_code(d, i + 1, s);
    }
}

/// A stream without start codes has no first one.
pub proof fn lemma_no_code(d: Seq<u8>, i: int)
    requires
        0 <= i,
        forall|k: int| i <= k < d.len() ==> code_len(d, k) == 0,
    ensures
        next_code(d, i) is None,
    decreases d.len() - i,
{
    if i < d.len() {
        assert(code_len(d, i) == 0);
        lemma_no_code(d, i + 1);
    }
}

/// The units of a stream whose first one starts at its first byte.
pub open spec fn units(p: Seq<u8>) -> Seq<Seq<u8>>
    decreases p.len(),
    via units_end
{
    match next_code(p, 0) {
        None => seq![trimmed(p)],
        Some(s) => seq![trimmed(p.take(s))] + units(p.skip(s + code_len(p, s))),
    }
}

#[via_fn]
proof fn units_end(p: Seq<u8>) {
    lemma_next_code(p, 0);
}

/// The units of a stream: what lies before the first start code is no unit.
pub open spec fn nal_units(d: Seq<u8>) -> Seq<Seq<u8>> {
    match next_code(d, 0) {
        None => Seq::empty(),
        Some(s) => units(d.skip(s + code_len(d, s))),
    }
}

fn find_start_code(data: &[u8], from: usize) -> (r: Option<usize>)
    ensures
        match r {
            Some(s) => next_code(data@, from as int) == Some(s as int),
            None => next_code(data@, from as int) is None,
        },
{
    let n: usize = data.len();
    let mut i: usize = from;
    while i < n && n - i > 2
        invariant
            n == data@.len(),
            next_code(data@, from as int) == next_code(data@, i as int),
        decreases n - i,
    {
        if data[i] == 0 && data[i + 1] == 0 {
            if data[i + 2] == 1 {
                return Some(i);
            }
            if n - i > 3 && data[i + 2] == 0 && data[i + 3] == 1 {
                return Some(i);
            }
        }
        i = i + 1;
    }
    proof {
        lemma_no_code(data@, i as int);
    }
    None
}

fn start_code_len(data: &[u8], at: usize) -> (r: usize)
    requires
        code_len(data@, at as int) > 0,
    ensures
        r == code_len(data@, at as int),
        at + r <= data@.len(),
        at + r <= usize::MAX,
{
    let n: usize = data.len();
    if data[at + 2] == 1 {
        3
    } else {
        4
    }
}

fn trimmed_len(data: &[u8], from: usize, to: usize) -> (end: usize)
    requires
        from <= to <= data@.len(),
    ensures
        from <= end <= to,
        data@.subrange(from as int, end as int) == trimmed(data@.subrange(from as int, to as int)),
{
    let mut end: usize = to;
    while end > from && data[end - 1] == 0
        invariant
            from <= end <= to <= data@.len(),
            trimmed(data@.subrange(from as int, to as int)) == trimmed(
                data@.subrange(from as int, end as int),
            ),
        decreases end,
    {
        proof {
            let a = data@.subrange(from as int, end as int);
            assert(a.last() == data@[end - 1]);
            assert(a.drop_last() =~= data@.subrange(from as int, end - 1));
        }
        end = end - 1;
    }
    proof {
        let a = data@.subrange(from as int, end as int);
        if end > from {
            assert(a.last() == data@[end - 1]);
        }
    }
    end
}

// ---- in memory ----

/// Goes through a byte stream in memory, unit by unit.
pub struct NalSplitter<'a> {
    data: &'a [u8],
    cursor: usize,
}

impl<'a> NalSplitter<'a> {
    /// The bytes that are left.
    pub closed spec fn left(self) -> Seq<u8> {
        self.data@.skip(self.cursor as int)
    }

    #[verifier::type_invariant]
    spec fn inv(self) -> bool {
        self.cursor <= self.data@.len()
    }

    /// Start at the front of a stream.
    pub fn new(data: &'a [u8]) -> (s: Self)
        ensures
            s.left() == data@,
    {
        proof {
            assert(data@.skip(0) =~= data@);
        }
        NalSplitter { data, cursor: 0 }
    }

    /// The next unit, `None` behind the last one.
    pub fn next(&mut self) -> (r: Option<&'a [u8]>)
        ensures
            match r {
                Some(u) => nal_units(old(self).left()).len() > 0 && u@ == nal_units(
                    old(self).left(),
                )[0] && nal_units(final(self).left()) == nal_units(old(self).left()).skip(1),
                None => nal_units(old(self).left()).len() == 0 && final(self).left() == old(
                    self,
                ).left(),
            },
    {
        proof {
            use_type_invariant(&*self);
        }
        let data: &'a [u8] = self.data;
        let n: usize = data.len();
        let from: usize = self.cursor;
        let ghost d = data@;
        let ghost l = d.skip(from as int);
        let start: usize = match find_start_code(data, from) {
            Some(s) => s,
            None => {
                proof {
                    lemma_shifted(d, from as int, 0);
                    lemma_next_code(d, from as int);
                }
                return None;
            },
        };
        proof {
            lemma_next_code(d, from as int);
            lemma_shifted(d, from as int, 0);
        }
        let after: usize = start + start_code_len(data, start);
        let ghost p = d.skip(after as int);
        let end: usize = match find_start_code(data, after) {
            Some(e) => e,
            None => n,
        };
        proof {
            lemma_next_code(d, after as int);
            lemma_shifted(d, after as int, 0);
            assert(l.skip(after - from) =~= p);
        }
        let to: usize = trimmed_len(data, after, end);
        proof {
            let q = end - after;
            assert(d.subrange(after as int, end as int) =~= p.take(q));
            match next_code(p, 0) {
                None => {
                    assert(p.take(q) =~= p);
                    assert(d.skip(end as int) =~= Seq::empty());
                    assert(units(p) =~= seq![trimmed(p)]);
                    assert(units(p).skip(1) =~= Seq::empty());
                    lemma_no_code(d.skip(end as int), 0);
                },
                Some(s) => {
                    assert(s == q);
                    let m = d.skip(end as int);
                    lemma_shifted(d, end as int, 0);
                    lemma_first_code(d, end as int, end as int);
                    assert(next_code(m, 0) == Some(0int));
                    assert(code_len(m, 0) == code_len(p, s));
                    assert(m.skip(code_len(m, 0)) =~= p.skip(s + code_len(p, s)));
                    assert(units(p).skip(1) =~= units(p.skip(s + code_len(p, s))));
                },
            }
        }
        self.cursor = end;
        Some(vstd::slice::slice_subrange(data, after, to))
    }
}

/// Codes of a stream and of its tail.
proof fn lemma_shifted(d: Seq<u8>, k: int, i: int)
    requires
        0 <= k <= d.len(),
        0 <= i,
    ensures
        next_code(d.skip(k), i) == (match next_code(d, k + i) {
            Some(s) => Some(s - k),
            None => None,
        }),
        forall|j: int| 0 <= j ==> #[trigger] code_len(d.skip(k), j) == code_len(d, k + j),
    decreases d.len() - i,
{
    let t = d.skip(k);
    assert forall|j: int| 0 <= j implies #[trigger] code_len(t, j) == code_len(d, k + j) by {
        if j < t.len() {
            assert(t[j] == d[k + j]);
        }
        if j + 1 < t.len() {
            assert(t[j + 1] == d[k + j + 1]);
        }
        if j + 2 < t.len() {
            assert(t[j + 2] == d[k + j + 2]);
        }
        if j + 3 < t.len() {
            assert(t[j + 3] == d[k + j + 3]);
        }
    }
    if i < t.len() {
        assert(code_len(t, i) == code_len(d, k + i));
        lemma_shifted(d, k, i + 1);
    }
}

// ---- piece by piece ----

/// A stream that arrives in pieces: the bytes not yet given out, which start a
/// unit once a start code has passed.
#[verifier::ext_equal]
pub struct Stream {
    pub started: bool,
    pub buf: Seq<u8>,
}

/// The units that are complete in a stream, and the stream behind them.
pub open spec fn drained(s: Stream) -> (Seq<Seq<u8>>, Stream)
    decreases s.buf.len(), if s.started {
        0int
    } else {
        1
    },
    via drained_ends
{
    match next_code(s.buf, 0) {
        None => (Seq::empty(), s),
        Some(k) => {
            let (u, t) = drained(
                Stream { started: true, buf: s.buf.skip(k + code_len(s.buf, k)) },
            );
            (
                if s.started {
                    seq![trimmed(s.buf.take(k))] + u
                } else {
                    u
                },
                t,
            )
        },
    }
}

#[via_fn]
proof fn drained_ends(s: Stream) {
    lemma_next_code(s.buf, 0);
}

/// The unit at the end of a stream: none where no start code has passed.
pub open spec fn last_unit(s: Stream) -> Option<Seq<u8>> {
    if s.started {
        Some(trimmed(s.buf))
    } else {
        None
    }
}

/// Gives out the units of a byte stream that arrives in pieces, so that only the
/// current unit is held.
pub struct NalReader {
    buf: Vec<u8>,
    scan: usize,
    started: bool,
}

impl View for NalReader {
    type V = Stream;

    closed spec fn view(&self) -> Stream {
        Stream { started: self.started, buf: self.buf@ }
    }
}

impl NalReader {
    #[verifier::type_invariant]
    spec fn inv(self) -> bool {
        &&& self.scan <= self.buf@.len()
        &&& forall|i: int| 0 <= i < self.scan ==> code_len(self.buf@, i) == 0
        &&& self.scan == 0 || self.scan + 3 <= self.buf@.len()
    }

    /// A stream of which nothing has arrived.
    pub fn new() -> (r: Self)
        ensures
            r@ == (Stream { started: false, buf: Seq::empty() }),
    {
        let r = NalReader { buf: Vec::new(), scan: 0, started: false };
        assert(r@ =~= Stream { started: false, buf: Seq::empty() });
        r
    }

    /// Another piece has arrived.
    pub fn push(&mut self, chunk: &[u8])
        ensures
            final(self)@ == (Stream { buf: old(self)@.buf + chunk@, ..old(self)@ }),
    {
        proof {
            use_type_invariant(&*self);
        }
        let ghost was = self.buf@;
        let ghost started = self.started;
        let mut buf: Vec<u8> = Vec::new();
        let scan: usize = self.scan;
        self.scan = 0;
        std::mem::swap(&mut buf, &mut self.buf);
        buf.extend_from_slice(chunk);
        proof {
            assert(buf@ =~= was + chunk@);
            assert forall|i: int| 0 <= i < scan implies code_len(buf@, i) == 0 by {
                assert(code_len(was, i) == 0);
                lemma_longer(was, chunk@, i);
            }
        }
        self.buf = buf;
        self.scan = scan;
    }

    fn drop_front(&mut self, n: usize)
        requires
            n <= old(self)@.buf.len(),
        ensures
            final(self)@ == (Stream { started: true, buf: old(self)@.buf.skip(n as int) }),
    {
        let mut buf: Vec<u8> = Vec::new();
        let ghost was = self.buf@;
        self.scan = 0;
        std::mem::swap(&mut buf, &mut self.buf);
        let rest: Vec<u8> = buf.split_off(n);
        assert(rest@ =~= was.skip(n as int));
        self.buf = rest;
        self.started = true;
    }

    /// The next complete unit, `None` where more bytes have to arrive first.
    pub fn next(&mut self) -> (r: Option<Vec<u8>>)
        ensures
            match r {
                Some(u) => drained(old(self)@).0.len() > 0 && u@ == drained(old(self)@).0[0]
                    && drained(final(self)@) == (
                    drained(old(self)@).0.skip(1),
                    drained(old(self)@).1,
                ),
                None => drained(old(self)@).0.len() == 0 && final(self)@ == drained(old(self)@).1,
            },
    {
        proof {
            use_type_invariant(&*self);
            lemma_next_code(self.buf@, 0);
        }
        if !self.started {
            match find_start_code(self.buf.as_slice(), 0) {
                Some(s) => {
                    let k: usize = start_code_len(self.buf.as_slice(), s);
                    self.drop_front(s + k);
                },
                None => {
                    return None;
                },
            }
        }
        let ghost mid = self@;
        proof {
            use_type_invariant(&*self);
            lemma_next_code(self.buf@, 0);
            lemma_next_code(self.buf@, self.scan as int);
        }
        match find_start_code(self.buf.as_slice(), self.scan) {
            Some(s) => {
                proof {
                    lemma_first_code(self.buf@, 0, s as int);
                }
                let k: usize = start_code_len(self.buf.as_slice(), s);
                let end: usize = trimmed_len(self.buf.as_slice(), 0, s);
                let ghost b = self.buf@;
                let nal: Vec<u8> = piece(self.buf.as_slice(), 0, end);
                proof {
                    assert(b.subrange(0, s as int) =~= b.take(s as int));
                    assert(nal@ =~= trimmed(b.take(s as int)));
                }
                self.drop_front(s + k);
                proof {
                    assert(drained(mid).0.skip(1) =~= drained(self@).0);
                }
                Some(nal)
            },
            None => {
                proof {
                    lemma_no_code(self.buf@, 0);
                }
                let n: usize = self.buf.len();
                if n >= 3 {
                    self.scan = n - 3;
                }
                None
            },
        }
    }

    /// The unit at the end of the stream, once nothing more arrives and all
    /// complete units have been given out. It may be empty, and is given out
    /// once.
    pub fn finish(&mut self) -> (r: Option<Vec<u8>>)
        ensures
            match r {
                Some(u) => last_unit(old(self)@) == Some(u@),
                None => last_unit(old(self)@) is None,
            },
            final(self)@ == (Stream { started: false, buf: Seq::empty() }),
    {
        proof {
            use_type_invariant(&*self);
        }
        let n: usize = self.buf.len();
        let ghost b = self.buf@;
        let end: usize = trimmed_len(self.buf.as_slice(), 0, n);
        proof {
            assert(b.subrange(0, n as int) =~= b);
        }
        let nal: Vec<u8> = piece(self.buf.as_slice(), 0, end);
        assert(nal@ =~= trimmed(b));
        let started: bool = self.started;
        self.scan = 0;
        self.buf = Vec::new();
        self.started = false;
        assert(self.buf@ =~= Seq::empty());
        if started {
            Some(nal)
        } else {
            None
        }
    }
}

proof fn lemma_longer(a: Seq<u8>, b: Seq<u8>, i: int)
    requires
        0 <= i,
        i + 3 < a.len() || code_len(a, i) > 0,
    ensures
        code_len(a + b, i) == code_len(a, i),
{
    let d = a + b;
    assert(i + 2 < a.len());
    assert(d[i] == a[i] && d[i + 1] == a[i + 1] && d[i + 2] == a[i + 2]);
    if i + 3 < a.len() {
        assert(d[i + 3] == a[i + 3]);
    }
}

proof fn lemma_code_stays(a: Seq<u8>, b: Seq<u8>)
    requires
        next_code(a, 0) is Some,
    ensures
        next_code(a + b, 0) == next_code(a, 0),
        code_len(a + b, next_code(a, 0)->0) == code_len(a, next_code(a, 0)->0),
{
    lemma_next_code(a, 0);
    let s = next_code(a, 0)->0;
    lemma_longer(a, b, s);
    assert forall|k: int| 0 <= k < s implies code_len(a + b, k) == 0 by {
        assert(code_len(a, k) == 0);
        lemma_longer(a, b, k);
    }
    lemma_first_code(a + b, 0, s);
}

/// It does not matter in which pieces a stream arrives: the units that are
/// complete after `a`, and then after `b`, are those that are complete after
/// both together, and what is left is the same.
pub proof fn law_pieces_do_not_matter(started: bool, a: Seq<u8>, b: Seq<u8>)
    ensures
        ({
            let (u, s) = drained(Stream { started, buf: a });
            let (v, t) = drained(Stream { buf: s.buf + b, ..s });
            drained(Stream { started, buf: a + b }) == (u + v, t)
        }),
    decreases a.len(), if started {
        0int
    } else {
        1
    },
{
    let st = Stream { started, buf: a };
    match next_code(a, 0) {
        None => {
            let (v, t) = drained(Stream { started, buf: a + b });
            assert(Seq::<Seq<u8>>::empty() + v =~= v);
        },
        Some(k) => {
            lemma_next_code(a, 0);
            lemma_code_stays(a, b);
            let rest = a.skip(k + code_len(a, k));
            assert((a + b).skip(k + code_len(a, k)) =~= rest + b);
            assert((a + b).take(k) =~= a.take(k));
            law_pieces_do_not_matter(true, rest, b);
            let (u, s) = drained(Stream { started: true, buf: rest });
            let (v, t) = drained(Stream { buf: s.buf + b, ..s });
            let first = seq![trimmed(a.take(k))];
            assert(first + (u + v) =~= (first + u) + v);
        },
    }
}

/// What a stream gives out in the end: its complete units and the last one.
pub open spec fn all_units(s: Stream) -> Seq<Seq<u8>> {
    let (u, t) = drained(s);
    match last_unit(t) {
        Some(l) => u.push(l),
        None => u,
    }
}

proof fn lemma_started(p: Seq<u8>)
    ensures
        all_units(Stream { started: true, buf: p }) == units(p),
        drained(Stream { started: true, buf: p }).1.started,
    decreases p.len(),
{
    lemma_next_code(p, 0);
    match next_code(p, 0) {
        None => {
            assert(Seq::<Seq<u8>>::empty().push(trimmed(p)) =~= seq![trimmed(p)]);
        },
        Some(k) => {
            let rest = p.skip(k + code_len(p, k));
            lemma_started(rest);
            let first = seq![trimmed(p.take(k))];
            let (u, t) = drained(Stream { started: true, buf: rest });
            assert((first + u).push(trimmed(t.buf)) =~= first + u.push(trimmed(t.buf)));
        },
    }
}

/// A stream that arrives in pieces gives out exactly the units of the whole
/// stream.
pub proof fn law_reader_matches_splitter(d: Seq<u8>)
    ensures
        all_units(Stream { started: false, buf: d }) == nal_units(d),
{
    lemma_next_code(d, 0);
    match next_code(d, 0) {
        None => {},
        Some(k) => {
            lemma_started(d.skip(k + code_len(d, k)));
        },
    }
}

} // verus!

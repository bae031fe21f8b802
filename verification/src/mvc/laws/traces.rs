//! Numbers in texts, and the lines of a trace.

use crate::mvc::trace::{
    before_word, bracketed, digits_end, elements, find_from, header_name, is_bits, last_word,
    line_element, residual, rfind, word_start, TraceData,
};
use crate::text::{digits, integer, is_digit, is_space, law_digits, natural, trim, trim_end};
use crate::mvc::mb_header::{header_elements, Syntax};
use crate::mvc::trace::{agree, compares, Comparison, TraceElement};
use vstd::prelude::*;

verus! {

/// A text that neither begins nor ends with a space.
pub open spec fn bare(s: Seq<char>) -> bool {
    s.len() > 0 && !is_space(s[0]) && !is_space(s.last())
}

/// A whole number as it is written.
pub open spec fn shown(v: i64) -> Seq<char> {
    if v < 0 {
        seq!['-'] + digits((-v) as nat)
    } else {
        digits(v as nat)
    }
}

/// Numbers are read as they are written, with a sign or without.
pub proof fn law_numbers_come_back(v: i64)
    ensures
        integer(shown(v)) == Some(v as int),
        v >= 0 ==> integer(seq!['+'] + digits(v as nat)) == Some(v as int),
        v >= 0 ==> natural(digits(v as nat), v as int) == Some(v as int),
        v >= 1 ==> natural(digits(v as nat), v - 1) is None,
{
    if v < 0 {
        law_digits((-v) as nat);
        assert((seq!['-'] + digits((-v) as nat)).skip(1) =~= digits((-v) as nat));
    } else {
        let d = digits(v as nat);
        law_digits(v as nat);
        assert((seq!['+'] + d).skip(1) =~= d);
        assert(is_digit(d[0]));
    }
}

/// The spaces on both ends of a text go, and nothing else.
pub proof fn law_trimmed(a: Seq<char>, s: Seq<char>, b: Seq<char>)
    requires
        bare(s),
        forall|i: int| 0 <= i < a.len() ==> is_space(#[trigger] a[i]),
        forall|i: int| 0 <= i < b.len() ==> is_space(#[trigger] b[i]),
    ensures
        trim(a + s + b) == s,
        trim_end(s + b) == s,
    decreases a.len() + b.len(),
{
    let t = a + s + b;
    if b.len() > 0 {
        let c = b.drop_last();
        assert forall|i: int| 0 <= i < c.len() implies is_space(#[trigger] c[i]) by {
            assert(c[i] == b[i]);
        }
        assert((s + b).last() == b[b.len() - 1]);
        assert((s + b).drop_last() =~= s + c);
        law_trimmed(Seq::empty(), s, c);
    } else {
        assert(s + b =~= s);
    }
    if a.len() > 0 {
        let c = a.skip(1);
        assert forall|i: int| 0 <= i < c.len() implies is_space(#[trigger] c[i]) by {
            assert(c[i] == a[i + 1]);
        }
        assert(t[0] == a[0]);
        assert(t.skip(1) =~= c + s + b);
        law_trimmed(c, s, b);
    } else {
        assert(t =~= s + b);
        assert(t[0] == s[0]);
    }
}

proof fn lemma_bare_number(v: i64)
    ensures
        bare(shown(v)),
        forall|i: int|
            0 <= i < shown(v).len() ==> !is_space(#[trigger] shown(v)[i]) && shown(v)[i] != '('
                && shown(v)[i] != ')',
{
    let d = digits((if v < 0 {
        -(v as int)
    } else {
        v as int
    }) as nat);
    law_digits(
        (if v < 0 {
            -(v as int)
        } else {
            v as int
        }) as nat,
    );
    let s = shown(v);
    assert forall|i: int| 0 <= i < s.len() implies !is_space(#[trigger] s[i]) && s[i] != '(' && s[i]
        != ')' by {
        if v < 0 {
            if i > 0 {
                assert(s[i] == d[i - 1]);
                assert(is_digit(d[i - 1]));
            }
        } else {
            assert(is_digit(d[i]));
        }
    }
    assert(!is_space(s[0]));
    assert(!is_space(s[s.len() - 1]));
}

proof fn lemma_digits_end(s: Seq<char>, i: int, k: int)
    requires
        0 <= i <= k < s.len(),
        forall|j: int| i <= j < k ==> is_digit(#[trigger] s[j]),
        !is_digit(s[k]),
    ensures
        digits_end(s, i) == k,
    decreases k - i,
{
    if i < k {
        lemma_digits_end(s, i + 1, k);
    }
}

proof fn lemma_rfind(s: Seq<char>, c: char, k: int, n: int)
    requires
        -1 <= k < n <= s.len() || (k == -1 && n == 0),
        k >= 0 ==> s[k] == c,
        forall|j: int| k < j < n ==> #[trigger] s[j] != c,
    ensures
        rfind(s, c, n) == k,
    decreases n,
{
    if n > 0 && n - 1 > k {
        assert(s[n - 1] != c);
        lemma_rfind(s, c, k, n - 1);
    }
}

/// The index of a line is the number behind its mark, and what follows it is read
/// alone.
proof fn lemma_indexed(n: u64, body: Seq<char>)
    requires
        body.len() > 0,
        !is_digit(body[0]),
    ensures
        ({
            let open = rfind(body, '(', body.len() as int);
            line_element(seq!['@'] + digits(n as nat) + body) == (if open >= 0 {
                bracketed(n, body, open)
            } else {
                residual(n, body)
            })
        }),
{
    let d = digits(n as nat);
    law_digits(n as nat);
    let line = seq!['@'] + d + body;
    let rest = line.skip(1);
    assert(rest =~= d + body);
    let k = d.len() as int;
    assert forall|j: int| 0 <= j < k implies is_digit(#[trigger] rest[j]) by {
        assert(rest[j] == d[j]);
    }
    assert(rest[k] == body[0]);
    lemma_digits_end(rest, 0, k);
    assert(rest.take(k) =~= d);
    assert(rest.skip(k) =~= body);
}

/// A line with a value in brackets: its index, the name before the brackets, the value
/// in them. A name with a colon belongs to a header.
pub proof fn law_bracketed_lines(n: u64, name: Seq<char>, v: i64)
    requires
        bare(name),
    ensures
        line_element(seq!['@'] + digits(n as nat) + (seq![' '] + name + seq!['('] + shown(v) + seq![')']))
            == Some(
            TraceData {
                index: n,
                name: if name.contains(':') {
                    header_name(name)
                } else {
                    name
                },
                value: v,
                value2: None,
                is_header: name.contains(':'),
            },
        ),
{
    let s = shown(v);
    let body = seq![' '] + name + seq!['('] + s + seq![')'];
    lemma_bare_number(v);
    lemma_indexed(n, body);
    let open = 1 + name.len() as int;
    let close = body.len() - 1;
    assert(body[open] == '(');
    assert(body[close] == ')');
    assert forall|j: int| open < j < body.len() implies #[trigger] body[j] != '(' by {
        if j < close {
            assert(body[j] == s[j - open - 1]);
        }
    }
    lemma_rfind(body, '(', open, body.len() as int);
    lemma_rfind(body, ')', close, body.len() as int);
    assert(body.subrange(open + 1, close) =~= s);
    assert(Seq::empty() + s + Seq::empty() =~= s);
    law_trimmed(Seq::empty(), s, Seq::empty());
    assert(body.take(open) =~= seq![' '] + name + Seq::empty());
    law_trimmed(seq![' '], name, Seq::empty());
    law_numbers_come_back(v);
}

proof fn lemma_last_word(a: Seq<char>, w: Seq<char>)
    requires
        a.len() > 0 ==> is_space(a.last()),
        forall|i: int| 0 <= i < w.len() ==> !is_space(#[trigger] w[i]),
    ensures
        word_start(a + w, (a + w).len() as int) == a.len(),
        last_word(a + w) == w,
        before_word(a + w) == a,
    decreases w.len(),
{
    lemma_word_start(a + w, a.len() as int, (a + w).len() as int);
    assert((a + w).skip(a.len() as int) =~= w);
    assert((a + w).take(a.len() as int) =~= a);
}

proof fn lemma_word_start(s: Seq<char>, k: int, n: int)
    requires
        0 <= k <= n <= s.len(),
        k > 0 ==> is_space(s[k - 1]),
        forall|i: int| k <= i < n ==> !is_space(#[trigger] s[i]),
    ensures
        word_start(s, n) == k,
    decreases n,
{
    if n > k {
        lemma_word_start(s, k, n - 1);
    }
}

/// The binary digits behind the name of a header element are no part of it.
pub proof fn law_header_names(name: Seq<char>, bits: Seq<char>)
    requires
        bare(name),
        is_bits(bits),
    ensures
        header_name(name + seq![' '] + bits) == name,
{
    let a = name + seq![' '];
    assert forall|i: int| 0 <= i < bits.len() implies !is_space(#[trigger] bits[i]) by {}
    lemma_last_word(a, bits);
    assert((a + bits).take(a.len() - 1) =~= name + Seq::empty());
    law_trimmed(Seq::empty(), name, Seq::empty());
}

/// A line without brackets is one of a residual: a name, a level and a run.
pub proof fn law_residual_lines(n: u64, name: Seq<char>, level: i64, run: i64)
    requires
        bare(name),
        !name.contains('('),
    ensures
        line_element(
            seq!['@'] + digits(n as nat) + (seq![' '] + name + seq![' '] + shown(level) + seq![' '] + shown(
                run,
            )),
        ) == Some(
            TraceData { index: n, name, value: level, value2: Some(run), is_header: false },
        ),
{
    let (l, r) = (shown(level), shown(run));
    let body = seq![' '] + name + seq![' '] + l + seq![' '] + r;
    lemma_bare_number(level);
    lemma_bare_number(run);
    lemma_indexed(n, body);
    assert forall|j: int| 0 <= j < body.len() implies #[trigger] body[j] != '(' by {
        if 1 <= j < 1 + name.len() {
            assert(body[j] == name[j - 1]);
        } else if 2 + name.len() <= j < 2 + name.len() + l.len() {
            assert(body[j] == l[j - 2 - name.len()]);
        } else if j >= 3 + name.len() + l.len() {
            assert(body[j] == r[j - 3 - name.len() - l.len()]);
        }
    }
    lemma_rfind(body, '(', -1, body.len() as int);
    assert(body.last() == r.last());
    assert(trim_end(body) == body);
    let before = seq![' '] + name + seq![' '] + l + seq![' '];
    lemma_last_word(before, r);
    let kept = seq![' '] + name + seq![' '] + l;
    assert(before.drop_last() =~= kept);
    assert(kept.last() == l.last());
    assert(trim_end(before) == trim_end(kept));
    assert(trim_end(kept) == kept);
    let front = seq![' '] + name + seq![' '];
    lemma_last_word(front, l);
    law_trimmed(seq![' '], name, seq![' ']);
    law_numbers_come_back(level);
    law_numbers_come_back(run);
}

proof fn lemma_find(s: Seq<char>, c: char, i: int, k: int)
    requires
        0 <= i <= k < s.len(),
        s[k] == c,
        forall|j: int| i <= j < k ==> #[trigger] s[j] != c,
    ensures
        find_from(s, c, i) == k,
    decreases k - i,
{
    if i < k {
        lemma_find(s, c, i + 1, k);
    }
}

/// A trace is read line by line; lines that hold no element are passed over.
pub proof fn law_lines_in_turn(line: Seq<char>, rest: Seq<char>, seen: Seq<TraceData>)
    requires
        !line.contains('\n'),
    ensures
        elements(Seq::empty(), seen) == seen,
        ({
            let e = line_element(
                if line.len() > 0 && line.last() == '\r' {
                    line.drop_last()
                } else {
                    line
                },
            );
            elements(line + seq!['\n'] + rest, seen) == elements(
                rest,
                if e is Some {
                    seen.push(e->0)
                } else {
                    seen
                },
            )
        }),
        line.len() == 0 || line[0] != '@' ==> line_element(line) is None,
{
    let s = line + seq!['\n'] + rest;
    let k = line.len() as int;
    assert forall|j: int| 0 <= j < k implies #[trigger] s[j] != '\n' by {
        assert(s[j] == line[j]);
    }
    assert(s[k] == '\n');
    lemma_find(s, '\n', 0, k);
    assert(s.take(k) =~= line);
    assert(s.skip(k + 1) =~= rest);
}

/// The elements of a macroblock header are traced in the order in which they stand in
/// the stream, each under its own name.
pub proof fn law_header_elements(s: Syntax, i: int)
    requires
        s.transform_flag is Some,
        s.cbp is Some,
        s.qp_delta is Some,
        0 <= i < s.modes.len(),
    ensures
        ({
            let e = header_elements(s);
            let n = s.modes.len() as int;
            &&& e.len() == n + 5
            &&& e[0] == ("mb_type"@, s.mb_type)
            &&& e[1] == (
                "transform_size_8x8_flag"@,
                if s.transform_flag == Some(true) {
                    1i64
                } else {
                    0i64
                },
            )
            &&& e[2 + i] == ("intra4x4_pred_mode"@, s.modes[i])
            &&& e[2 + n] == ("intra_chroma_pred_mode"@, s.c_ipred as i64)
            &&& e[3 + n] == ("coded_block_pattern"@, s.cbp->0)
            &&& e[4 + n] == ("mb_qp_delta"@, (s.qp_delta->0) as i64)
        }),
{
}

/// Elements that are not coded are not traced.
pub proof fn law_missing_elements(s: Syntax)
    requires
        s.transform_flag is None,
        s.cbp is None,
        s.qp_delta is None,
        s.modes.len() == 0,
    ensures
        header_elements(s) == seq![
            ("mb_type"@, s.mb_type),
            ("intra_chroma_pred_mode"@, s.c_ipred as i64),
        ],
{
    assert(header_elements(s) =~= seq![
        ("mb_type"@, s.mb_type),
        ("intra_chroma_pred_mode"@, s.c_ipred as i64),
    ]);
}

/// A trace that gives the same names and values as its reference, and as many, matches
/// it; any other diverges at its first difference, or is longer or shorter.
pub proof fn law_comparisons(c: Comparison, r: Seq<&TraceElement>, d: Seq<(String, i64)>)
    requires
        compares(c, r, d),
    ensures
        (r.len() == d.len() && forall|i: int|
            0 <= i < r.len() ==> (#[trigger] r[i]).name@ == d[i].0@ && r[i].value == d[i].1)
            <==> c is Match,
        c matches Comparison::Match { count } ==> count == r.len(),
        c matches Comparison::Diverged { position: k, reference: a, decoded: b } ==> {
            &&& k < r.len() && k < d.len()
            &&& a.0@ == r[k as int].name@ && a.1 == r[k as int].value
            &&& b.0@ == d[k as int].0@ && b.1 == d[k as int].1
            &&& a.0@ != b.0@ || a.1 != b.1
            &&& forall|i: int|
                0 <= i < k ==> (#[trigger] r[i]).name@ == d[i].0@ && r[i].value == d[i].1
        },
        c matches Comparison::LengthMismatch { common: k, reference_len: a, decoded_len: b } ==> a
            == r.len() && b == d.len() && a != b && k <= a && k <= b && (k == a || k == b),
{
    let same = |i: int| r[i].name@ == d[i].0@ && r[i].value == d[i].1;
    if c is Diverged {
        let k = c->position as int;
        assert(!same(k));
        assert(r[k] == r[k]);
    }
    if c is Match {
        assert forall|i: int| 0 <= i < r.len() implies (#[trigger] r[i]).name@ == d[i].0@ && r[i].value
            == d[i].1 by {
            assert(agree(r, d, i));
        }
    }
    if c is Diverged {
        let k = c->position as int;
        assert forall|i: int| 0 <= i < k implies (#[trigger] r[i]).name@ == d[i].0@ && r[i].value
            == d[i].1 by {
            assert(agree(r, d, i));
        }
    }
}

} // verus!

//! Decoder traces: the syntax elements that a reference decoder lists, one per
//! line, and the first element in which another decoder's list differs.
//!
//! A line is `@<n> <name> (<value>)` or, for residual levels,
//! `@<n> <name> <level> <run>`. Names of header elements hold a colon and are
//! followed by their bits.

use crate::text::{
    chars_of, integer, is_digit, is_space, natural, parse_integer, parse_natural, space, string_of,
    trim, trim_end, trimmed, trimmed_end,
};
use vstd::prelude::*;

verus! {

/// One syntax element of a trace.
#[derive(Debug, Clone, PartialEq, Eq)]
pub struct TraceElement {
    /// The number behind the `@`.
    pub index: u64,
    pub name: String,
    /// The value, or the level of a residual line.
    pub value: i64,
    /// The run of a residual line.
    pub value2: Option<i64>,
    /// A header element.
    pub is_header: bool,
}

/// One syntax element of a trace.
#[verifier::ext_equal]
pub struct TraceData {
    pub index: u64,
    pub name: Seq<char>,
    pub value: i64,
    pub value2: Option<i64>,
    pub is_header: bool,
}

impl View for TraceElement {
    type V = TraceData;

    open spec fn view(&self) -> TraceData {
        TraceData {
            index: self.index,
            name: self.name@,
            value: self.value,
            value2: self.value2,
            is_header: self.is_header,
        }
    }
}

// ---- searching ----

/// The first index at or after `i` of a character, or the length.
pub open spec fn find_from(s: Seq<char>, c: char, i: int) -> int
    decreases s.len() - i,
{
    if i >= s.len() {
        s.len() as int
    } else if s[i] == c {
        i
    } else {
        find_from(s, c, i + 1)
    }
}

/// The last index of a character in the first `n`, or -1.
pub open spec fn rfind(s: Seq<char>, c: char, n: int) -> int
    decreases n,
{
    if n <= 0 {
        -1
    } else if s[n - 1] == c {
        n - 1
    } else {
        rfind(s, c, n - 1)
    }
}

/// The number of digits at the start, from index `i` on.
pub open spec fn digits_end(s: Seq<char>, i: int) -> int
    decreases s.len() - i,
{
    if i >= s.len() || !is_digit(s[i]) {
        i
    } else {
        digits_end(s, i + 1)
    }
}

/// Where the last word of the first `n` characters starts: behind the last
/// white space.
pub open spec fn word_start(s: Seq<char>, n: int) -> int
    decreases n,
{
    if n <= 0 || is_space(s[n - 1]) {
        n
    } else {
        word_start(s, n - 1)
    }
}

/// The last word.
pub open spec fn last_word(s: Seq<char>) -> Seq<char> {
    s.skip(word_start(s, s.len() as int))
}

/// What comes before the last word.
pub open spec fn before_word(s: Seq<char>) -> Seq<char> {
    s.take(word_start(s, s.len() as int))
}

proof fn lemma_word_start(s: Seq<char>, n: int)
    requires
        0 <= n <= s.len(),
    ensures
        0 <= word_start(s, n) <= n,
    decreases n,
{
    if n > 0 && !is_space(s[n - 1]) {
        lemma_word_start(s, n - 1);
    }
}

fn find_word(s: &[char]) -> (k: usize)
    ensures
        k == word_start(s@, s@.len() as int),
        k <= s@.len(),
{
    let n: usize = s.len();
    let mut k: usize = n;
    while k > 0 && !space(s[k - 1])
        invariant
            k <= n,
            n == s@.len(),
            word_start(s@, n as int) == word_start(s@, k as int),
        decreases k,
    {
        k = k - 1;
    }
    k
}

fn find_last(s: &[char], c: char) -> (r: Option<usize>)
    ensures
        match r {
            Some(k) => rfind(s@, c, s@.len() as int) == k && k < s@.len(),
            None => rfind(s@, c, s@.len() as int) == -1,
        },
{
    let n: usize = s.len();
    let mut k: usize = n;
    while k > 0
        invariant
            k <= n,
            n == s@.len(),
            rfind(s@, c, n as int) == rfind(s@, c, k as int),
        decreases k,
    {
        if s[k - 1] == c {
            return Some(k - 1);
        }
        k = k - 1;
    }
    None
}

fn holds(s: &[char], c: char) -> (b: bool)
    ensures
        b == s@.contains(c),
{
    let n: usize = s.len();
    for i in 0..n
        invariant
            n == s@.len(),
            forall|k: int| 0 <= k < i ==> s@[k] != c,
    {
        if s[i] == c {
            assert(s@[i as int] == c);
            return true;
        }
    }
    false
}

fn cut<'a>(s: &'a [char], from: usize, to: usize) -> (r: &'a [char])
    requires
        from <= to <= s@.len(),
    ensures
        r@ == s@.subrange(from as int, to as int),
{
    vstd::slice::slice_subrange(s, from, to)
}

// ---- one line ----

/// Every character is `0` or `1`, and there is one.
pub open spec fn is_bits(s: Seq<char>) -> bool {
    s.len() > 0 && forall|i: int| 0 <= i < s.len() ==> (#[trigger] s[i] == '0' || s[i] == '1')
}

/// The name of a header element: without the bits behind it.
pub open spec fn header_name(s: Seq<char>) -> Seq<char> {
    if word_start(s, s.len() as int) > 0 && is_bits(last_word(s)) {
        trim_end(s.take(word_start(s, s.len() as int) - 1))
    } else {
        s
    }
}

/// The element of a line with a value in brackets: `body` is what follows the
/// index, with the last opening bracket at `open`.
pub open spec fn bracketed(index: u64, body: Seq<char>, open: int) -> Option<TraceData> {
    let close = rfind(body, ')', body.len() as int);
    if close < open {
        None
    } else {
        match integer(trim(body.subrange(open + 1, close))) {
            None => None,
            Some(v) => {
                let name = trim(body.take(open));
                let is_header = name.contains(':');
                Some(
                    TraceData {
                        index,
                        name: if is_header {
                            header_name(name)
                        } else {
                            name
                        },
                        value: v as i64,
                        value2: None,
                        is_header,
                    },
                )
            },
        }
    }
}

/// The element of a residual line: name, level and run.
pub open spec fn residual(index: u64, body: Seq<char>) -> Option<TraceData> {
    let text = trim_end(body);
    let rest = trim_end(before_word(text));
    match (integer(last_word(text)), integer(last_word(rest))) {
        (Some(run), Some(level)) => {
            let name = trim(before_word(rest));
            if name.len() == 0 {
                None
            } else {
                Some(
                    TraceData {
                        index,
                        name,
                        value: level as i64,
                        value2: Some(run as i64),
                        is_header: false,
                    },
                )
            }
        },
        _ => None,
    }
}

/// The element of a line, `None` for lines of another form.
pub open spec fn line_element(line: Seq<char>) -> Option<TraceData> {
    if line.len() == 0 || line[0] != '@' {
        None
    } else {
        let rest = line.skip(1);
        let k = digits_end(rest, 0);
        if k >= rest.len() {
            None
        } else {
            match natural(rest.take(k), u64::MAX as int) {
                None => None,
                Some(v) => {
                    let body = rest.skip(k);
                    let open = rfind(body, '(', body.len() as int);
                    if open >= 0 {
                        bracketed(v as u64, body, open)
                    } else {
                        residual(v as u64, body)
                    }
                },
            }
        }
    }
}

/// An optional element.
pub open spec fn opt_element(e: Option<TraceElement>) -> Option<TraceData> {
    match e {
        Some(t) => Some(t@),
        None => None,
    }
}

fn all_bits(s: &[char]) -> (b: bool)
    ensures
        b == is_bits(s@),
{
    let n: usize = s.len();
    for i in 0..n
        invariant
            n == s@.len(),
            forall|k: int| 0 <= k < i ==> (#[trigger] s@[k] == '0' || s@[k] == '1'),
    {
        if s[i] != '0' && s[i] != '1' {
            assert(!(s@[i as int] == '0' || s@[i as int] == '1'));
            return false;
        }
    }
    n > 0
}

fn name_of_header<'a>(s: &'a [char]) -> (r: &'a [char])
    ensures
        r@ == header_name(s@),
{
    let k: usize = find_word(s);
    let n: usize = s.len();
    if k > 0 {
        let word = cut(s, k, n);
        assert(word@ =~= last_word(s@));
        if all_bits(word) {
            let rest = cut(s, 0, k - 1);
            assert(rest@ =~= s@.take(k - 1));
            return trimmed_end(rest);
        }
    }
    s
}

fn parse_bracketed(index: u64, body: &[char], open: usize) -> (r: Option<TraceElement>)
    requires
        open < body@.len(),
        body@[open as int] == '(',
    ensures
        opt_element(r) == bracketed(index, body@, open as int),
{
    let close: usize = match find_last(body, ')') {
        Some(k) => k,
        None => {
            return None;
        },
    };
    if close < open {
        return None;
    }
    proof {
        lemma_rfind(body@, ')', body@.len() as int);
    }
    let value: i64 = match parse_integer(trimmed(cut(body, open + 1, close))) {
        Some(v) => v,
        None => {
            return None;
        },
    };
    let field = cut(body, 0, open);
    assert(field@ =~= body@.take(open as int));
    let name = trimmed(field);
    let is_header: bool = holds(name, ':');
    let shown = if is_header {
        name_of_header(name)
    } else {
        name
    };
    Some(TraceElement { index, name: string_of(shown), value, value2: None, is_header })
}

proof fn lemma_rfind(s: Seq<char>, c: char, n: int)
    requires
        0 <= n <= s.len(),
    ensures
        -1 <= rfind(s, c, n) < n || n == 0,
        rfind(s, c, n) >= 0 ==> s[rfind(s, c, n)] == c,
    decreases n,
{
    if n > 0 && s[n - 1] != c {
        lemma_rfind(s, c, n - 1);
    }
}

fn parse_residual(index: u64, body: &[char]) -> (r: Option<TraceElement>)
    ensures
        opt_element(r) == residual(index, body@),
{
    let text = trimmed_end(body);
    let n: usize = text.len();
    let k: usize = find_word(text);
    let word = cut(text, k, n);
    let head = cut(text, 0, k);
    assert(word@ =~= last_word(text@));
    assert(head@ =~= before_word(text@));
    let run: i64 = match parse_integer(word) {
        Some(v) => v,
        None => {
            return None;
        },
    };
    let rest = trimmed_end(head);
    let m: usize = rest.len();
    let j: usize = find_word(rest);
    let word2 = cut(rest, j, m);
    let head2 = cut(rest, 0, j);
    assert(word2@ =~= last_word(rest@));
    assert(head2@ =~= before_word(rest@));
    let level: i64 = match parse_integer(word2) {
        Some(v) => v,
        None => {
            return None;
        },
    };
    let name = trimmed(head2);
    if name.len() == 0 {
        return None;
    }
    Some(
        TraceElement {
            index,
            name: string_of(name),
            value: level,
            value2: Some(run),
            is_header: false,
        },
    )
}

fn count_digits(s: &[char]) -> (k: usize)
    ensures
        k == digits_end(s@, 0),
        k <= s@.len(),
{
    let n: usize = s.len();
    let mut i: usize = 0;
    while i < n && s[i] >= '0' && s[i] <= '9'
        invariant
            i <= n,
            n == s@.len(),
            digits_end(s@, 0) == digits_end(s@, i as int),
        decreases n - i,
    {
        i = i + 1;
    }
    i
}

fn parse_line(line: &[char]) -> (r: Option<TraceElement>)
    ensures
        opt_element(r) == line_element(line@),
{
    let len: usize = line.len();
    if len == 0 || line[0] != '@' {
        return None;
    }
    let rest = cut(line, 1, len);
    assert(rest@ =~= line@.skip(1));
    let n: usize = rest.len();
    let k: usize = count_digits(rest);
    if k >= n {
        return None;
    }
    let digits = cut(rest, 0, k);
    assert(digits@ =~= rest@.take(k as int));
    let index: u64 = match parse_natural(digits, u64::MAX) {
        Some(v) => v,
        None => {
            return None;
        },
    };
    let body = cut(rest, k, n);
    assert(body@ =~= rest@.skip(k as int));
    proof {
        lemma_rfind(body@, '(', body@.len() as int);
    }
    match find_last(body, '(') {
        Some(open) => parse_bracketed(index, body, open),
        None => parse_residual(index, body),
    }
}

// ---- the text ----

/// A line without the carriage return at its end.
pub open spec fn chomped(s: Seq<char>) -> Seq<char> {
    if s.len() > 0 && s.last() == '\r' {
        s.drop_last()
    } else {
        s
    }
}

/// The elements of the lines of a text, after those in `seen`.
pub open spec fn elements(s: Seq<char>, seen: Seq<TraceData>) -> Seq<TraceData>
    decreases s.len(),
    via elements_end
{
    if s.len() == 0 {
        seen
    } else {
        let k = find_from(s, '\n', 0);
        let line = if k < s.len() {
            chomped(s.take(k))
        } else {
            s
        };
        let rest = if k < s.len() {
            s.skip(k + 1)
        } else {
            Seq::empty()
        };
        elements(
            rest,
            match line_element(line) {
                Some(e) => seen.push(e),
                None => seen,
            },
        )
    }
}

#[via_fn]
proof fn elements_end(s: Seq<char>, seen: Seq<TraceData>) {
    lemma_find_from(s, '\n', 0);
}

proof fn lemma_find_from(s: Seq<char>, c: char, i: int)
    requires
        0 <= i <= s.len(),
    ensures
        i <= find_from(s, c, i) <= s.len(),
    decreases s.len() - i,
{
    if i < s.len() && s[i] != c {
        lemma_find_from(s, c, i + 1);
    }
}

/// Elements as data.
pub open spec fn element_data(v: Seq<TraceElement>) -> Seq<TraceData> {
    v.map_values(|e: TraceElement| e@)
}

fn find_line_end(s: &Vec<char>, from: usize) -> (k: usize)
    requires
        from <= s@.len(),
    ensures
        from <= k <= s@.len(),
        k - from == find_from(s@.skip(from as int), '\n', 0),
{
    let n: usize = s.len();
    let ghost t = s@.skip(from as int);
    let mut k: usize = from;
    while k < n && s[k] != '\n'
        invariant
            from <= k <= n,
            n == s@.len(),
            t == s@.skip(from as int),
            find_from(t, '\n', 0) == find_from(t, '\n', k - from),
        decreases n - k,
    {
        assert(t[k - from] == s@[k as int]);
        k = k + 1;
    }
    if k < n {
        assert(t[k - from] == s@[k as int]);
    }
    k
}

/// The syntax elements of a trace, in order.
pub fn parse_trace(text: &str) -> (r: Vec<TraceElement>)
    ensures
        element_data(r@) == elements(text@, Seq::empty()),
{
    let s = chars_of(text);
    let n: usize = s.len();
    let mut out: Vec<TraceElement> = Vec::new();
    let mut at: usize = 0;
    assert(s@.skip(0) =~= s@);
    assert(element_data(out@) =~= Seq::empty());
    while at < n
        invariant
            n == s@.len(),
            s@ == text@,
            at <= n,
            elements(s@.skip(at as int), element_data(out@)) == elements(text@, Seq::empty()),
        decreases n - at,
    {
        let k: usize = find_line_end(&s, at);
        let ghost t = s@.skip(at as int);
        let mut end: usize = k;
        if k < n && k > at && s[k - 1] == '\r' {
            end = k - 1;
        }
        let line = cut(s.as_slice(), at, end);
        proof {
            if k < n {
                assert(t.take(k - at) =~= s@.subrange(at as int, k as int));
                if k > at {
                    assert(t.take(k - at).last() == s@[k - 1]);
                }
                assert(line@ =~= chomped(t.take(k - at)));
                assert(t.skip(k - at + 1) =~= s@.skip(k + 1));
            } else {
                assert(line@ =~= t);
            }
        }
        let ghost was = out@;
        match parse_line(line) {
            Some(e) => {
                out.push(e);
                assert(element_data(out@) =~= element_data(was).push(e@));
            },
            None => {},
        }
        if k < n {
            at = k + 1;
        } else {
            at = n;
            assert(s@.skip(n as int) =~= Seq::empty());
        }
    }
    assert(s@.skip(at as int) =~= Seq::empty());
    out
}

/// The elements that do not belong to headers.
pub fn macroblock_elements(elems: &[TraceElement]) -> (r: Vec<&TraceElement>)
    ensures
        r@.map_values(|e: &TraceElement| *e) == elems@.filter(|e: TraceElement| !e.is_header),
{
    let mut out: Vec<&TraceElement> = Vec::new();
    let n: usize = elems.len();
    let ghost pred = |e: TraceElement| !e.is_header;
    let ghost deref = |e: &TraceElement| *e;
    proof {
        reveal(Seq::filter);
        assert(elems@.take(0).filter(pred) =~= Seq::empty());
        assert(out@.map_values(deref) =~= Seq::empty());
    }
    for i in 0..n
        invariant
            n == elems@.len(),
            pred == (|e: TraceElement| !e.is_header),
            deref == (|e: &TraceElement| *e),
            out@.map_values(deref) == elems@.take(i as int).filter(pred),
    {
        proof {
            reveal(Seq::filter);
            assert(elems@.take(i + 1).drop_last() =~= elems@.take(i as int));
        }
        let ghost was = out@;
        if !elems[i].is_header {
            out.push(&elems[i]);
            assert(out@.map_values(deref) =~= was.map_values(deref).push(elems@[i as int]));
        }
    }
    assert(elems@.take(n as int) =~= elems@);
    out
}

// ---- comparison ----

/// How two lists of elements compare.
#[derive(Debug, PartialEq, Eq)]
pub enum Comparison {
    /// All elements agree.
    Match { count: usize },
    /// The first element that differs: where, and name and value in each list.
    Diverged { position: usize, reference: (String, i64), decoded: (String, i64) },
    /// The elements agree as far as both lists go, but one is longer.
    LengthMismatch { common: usize, reference_len: usize, decoded_len: usize },
}

/// The lists agree in element `i`.
pub open spec fn agree(reference: Seq<&TraceElement>, decoded: Seq<(String, i64)>, i: int) -> bool {
    reference[i].name@ == decoded[i].0@ && reference[i].value == decoded[i].1
}

/// What a comparison says is so: up to which element the lists agree.
pub open spec fn compares(c: Comparison, reference: Seq<&TraceElement>, decoded: Seq<(String, i64)>) -> bool {
    let (m, n) = (reference.len(), decoded.len());
    let common = if m < n {
        m
    } else {
        n
    };
    match c {
        Comparison::Match { count } => m == n && count == m && forall|i: int|
            0 <= i < common ==> agree(reference, decoded, i),
        Comparison::Diverged { position, reference: r, decoded: d } => position < common
            && !agree(reference, decoded, position as int) && (forall|i: int|
            0 <= i < position ==> agree(reference, decoded, i)) && r.0@
            == reference[position as int].name@ && r.1 == reference[position as int].value && d.0@
            == decoded[position as int].0@ && d.1 == decoded[position as int].1,
        Comparison::LengthMismatch { common: k, reference_len, decoded_len } => m != n && k
            == common && reference_len == m && decoded_len == n && forall|i: int|
            0 <= i < common ==> agree(reference, decoded, i),
    }
}

/// Compare a decoder's elements with those of a trace: the first one that
/// differs.
pub fn first_divergence(reference: &[&TraceElement], decoded: &[(String, i64)]) -> (c: Comparison)
    ensures
        compares(c, reference@, decoded@),
{
    let (m, n): (usize, usize) = (reference.len(), decoded.len());
    let common: usize = if m < n {
        m
    } else {
        n
    };
    for i in 0..common
        invariant
            m == reference@.len(),
            n == decoded@.len(),
            common == (if m < n {
                m
            } else {
                n
            }),
            forall|k: int| 0 <= k < i ==> agree(reference@, decoded@, k),
    {
        let r: &TraceElement = reference[i];
        let d: &(String, i64) = &decoded[i];
        if !(r.name == d.0) || r.value != d.1 {
            return Comparison::Diverged {
                position: i,
                reference: (r.name.clone(), r.value),
                decoded: (d.0.clone(), d.1),
            };
        }
    }
    if m != n {
        Comparison::LengthMismatch { common, reference_len: m, decoded_len: n }
    } else {
        Comparison::Match { count: m }
    }
}

} // verus!

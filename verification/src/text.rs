//! Text as sequences of characters: white space, numbers in decimal, and the
//! step between strings and characters.

use vstd::prelude::*;

verus! {

/// `String::push`: appends one character.
pub assume_specification[ String::push ](s: &mut String, c: char)
    ensures
        final(s)@ == old(s)@.push(c),
;

/// The characters of a string.
pub fn chars_of(s: &str) -> (v: Vec<char>)
    ensures
        v@ == s@,
{
    let mut v: Vec<char> = Vec::new();
    for c in it: s.chars()
        invariant
            it.seq() == s@,
            v@ == s@.take(it.index() as int),
    {
        v.push(c);
        assert(s@.take(it.index() as int).push(c) =~= s@.take(it.index() + 1));
    }
    assert(s@.take(s@.len() as int) =~= s@);
    v
}

/// The string of some characters.
pub fn string_of(c: &[char]) -> (s: String)
    ensures
        s@ == c@,
{
    let mut s = String::new();
    let n: usize = c.len();
    for i in 0..n
        invariant
            n == c@.len(),
            s@ == c@.take(i as int),
    {
        s.push(c[i]);
        assert(c@.take(i as int).push(c@[i as int]) =~= c@.take(i + 1));
    }
    assert(c@.take(n as int) =~= c@);
    s
}

// ---- white space ----

/// The character has the Unicode property White_Space.
pub open spec fn is_space(c: char) -> bool {
    let u = c as u32;
    ||| 9 <= u <= 13
    ||| u == 32
    ||| u == 0x85
    ||| u == 0xa0
    ||| u == 0x1680
    ||| 0x2000 <= u <= 0x200a
    ||| u == 0x2028
    ||| u == 0x2029
    ||| u == 0x202f
    ||| u == 0x205f
    ||| u == 0x3000
}

/// The character has the Unicode property White_Space.
pub fn space(c: char) -> (b: bool)
    ensures
        b == is_space(c),
{
    let u: u32 = c as u32;
    (u >= 9 && u <= 13) || u == 32 || u == 0x85 || u == 0xa0 || u == 0x1680 || (u >= 0x2000 && u
        <= 0x200a) || u == 0x2028 || u == 0x2029 || u == 0x202f || u == 0x205f || u == 0x3000
}

/// The text without white space at its end.
pub open spec fn trim_end(s: Seq<char>) -> Seq<char>
    decreases s.len(),
{
    if s.len() > 0 && is_space(s.last()) {
        trim_end(s.drop_last())
    } else {
        s
    }
}

/// The text without white space at its start.
pub open spec fn trim_start(s: Seq<char>) -> Seq<char>
    decreases s.len(),
{
    if s.len() > 0 && is_space(s[0]) {
        trim_start(s.skip(1))
    } else {
        s
    }
}

/// The text without white space at its start and end.
pub open spec fn trim(s: Seq<char>) -> Seq<char> {
    trim_end(trim_start(s))
}

/// The text without white space at its end.
pub fn trimmed_end<'a>(s: &'a [char]) -> (r: &'a [char])
    ensures
        r@ == trim_end(s@),
        r@.len() <= s@.len(),
        r@ == s@.take(r@.len() as int),
{
    let n: usize = s.len();
    let mut end: usize = n;
    assert(s@.take(n as int) =~= s@);
    while end > 0 && space(s[end - 1])
        invariant
            end <= n,
            n == s@.len(),
            trim_end(s@.take(end as int)) == trim_end(s@),
        decreases end,
    {
        proof {
            let t = s@.take(end as int);
            assert(t.last() == s@[end - 1]);
            assert(t.drop_last() =~= s@.take(end - 1));
        }
        end = end - 1;
    }
    proof {
        let t = s@.take(end as int);
        if end > 0 {
            assert(t.last() == s@[end - 1]);
        }
        assert(s@.subrange(0, end as int) =~= t);
    }
    vstd::slice::slice_subrange(s, 0, end)
}

/// The text without white space at its start.
pub fn trimmed_start<'a>(s: &'a [char]) -> (r: &'a [char])
    ensures
        r@ == trim_start(s@),
{
    let n: usize = s.len();
    let mut from: usize = 0;
    assert(s@.skip(0) =~= s@);
    while from < n && space(s[from])
        invariant
            from <= n,
            n == s@.len(),
            trim_start(s@.skip(from as int)) == trim_start(s@),
        decreases n - from,
    {
        proof {
            let t = s@.skip(from as int);
            assert(t[0] == s@[from as int]);
            assert(t.skip(1) =~= s@.skip(from + 1));
        }
        from = from + 1;
    }
    proof {
        let t = s@.skip(from as int);
        if from < n {
            assert(t[0] == s@[from as int]);
        }
        assert(s@.subrange(from as int, n as int) =~= t);
    }
    vstd::slice::slice_subrange(s, from, n)
}

/// The text without white space at its start and end.
pub fn trimmed<'a>(s: &'a [char]) -> (r: &'a [char])
    ensures
        r@ == trim(s@),
{
    trimmed_end(trimmed_start(s))
}

// ---- decimal numbers ----

/// The character is a decimal digit.
pub open spec fn is_digit(c: char) -> bool {
    '0' <= c <= '9'
}

/// Every character is a decimal digit.
pub open spec fn all_digits(s: Seq<char>) -> bool {
    forall|i: int| 0 <= i < s.len() ==> is_digit(#[trigger] s[i])
}

/// The value of decimal digits.
pub open spec fn decimal(s: Seq<char>) -> int
    decreases s.len(),
{
    if s.len() == 0 {
        0
    } else {
        10 * decimal(s.drop_last()) + (s.last() as u32 - '0' as u32)
    }
}

/// The number that a text of digits stands for, up to `max`.
pub open spec fn natural(s: Seq<char>, max: int) -> Option<int> {
    if s.len() == 0 || !all_digits(s) || decimal(s) > max {
        None
    } else {
        Some(decimal(s))
    }
}

/// The number that a text stands for, with an optional sign.
pub open spec fn integer(s: Seq<char>) -> Option<int> {
    if s.len() > 0 && s[0] == '-' {
        match natural(s.skip(1), i64::MAX + 1) {
            Some(v) => Some(-v),
            None => None,
        }
    } else if s.len() > 0 && s[0] == '+' {
        natural(s.skip(1), i64::MAX as int)
    } else {
        natural(s, i64::MAX as int)
    }
}

proof fn lemma_decimal_grows(s: Seq<char>, n: int)
    requires
        all_digits(s),
        0 <= n <= s.len(),
    ensures
        0 <= decimal(s.take(n)) <= decimal(s),
    decreases s.len(),
{
    if n == s.len() {
        assert(s.take(n) =~= s);
        if s.len() > 0 {
            let t = s.drop_last();
            assert forall|i: int| 0 <= i < t.len() implies is_digit(#[trigger] t[i]) by {
                assert(t[i] == s[i]);
            }
            lemma_decimal_grows(t, t.len() as int);
            assert(t.take(t.len() as int) =~= t);
            assert(is_digit(s[s.len() - 1]));
        }
    } else {
        let t = s.drop_last();
        assert forall|i: int| 0 <= i < t.len() implies is_digit(#[trigger] t[i]) by {
            assert(t[i] == s[i]);
        }
        lemma_decimal_grows(t, n);
        assert(t.take(n) =~= s.take(n));
        assert(is_digit(s[s.len() - 1]));
    }
}

/// Read a text of digits as a number up to `max`.
pub fn parse_natural(s: &[char], max: u64) -> (r: Option<u64>)
    ensures
        match r {
            Some(v) => natural(s@, max as int) == Some(v as int),
            None => natural(s@, max as int) is None,
        },
{
    let n: usize = s.len();
    if n == 0 {
        return None;
    }
    let mut i: usize = 0;
    while i < n
        invariant
            i <= n,
            n == s@.len(),
            forall|k: int| 0 <= k < i ==> is_digit(#[trigger] s@[k]),
        decreases n - i,
    {
        if s[i] < '0' || s[i] > '9' {
            assert(!is_digit(s@[i as int]));
            return None;
        }
        i = i + 1;
    }
    let mut v: u64 = 0;
    assert(s@.take(0) =~= Seq::empty());
    for k in 0..n
        invariant
            n == s@.len(),
            all_digits(s@),
            v == decimal(s@.take(k as int)),
            v <= max,
    {
        let d: u64 = (s[k] as u32 - '0' as u32) as u64;
        proof {
            let t = s@.take(k + 1);
            assert(t.drop_last() =~= s@.take(k as int));
            assert(t.last() == s@[k as int]);
            assert(is_digit(s@[k as int]));
            lemma_decimal_grows(s@, k + 1);
        }
        if d > max || v > (max - d) / 10 {
            return None;
        }
        v = 10 * v + d;
    }
    assert(s@.take(n as int) =~= s@);
    Some(v)
}

/// Read a text as a signed number.
pub fn parse_integer(s: &[char]) -> (r: Option<i64>)
    ensures
        match r {
            Some(v) => integer(s@) == Some(v as int),
            None => integer(s@) is None,
        },
{
    let n: usize = s.len();
    if n > 0 && s[0] == '-' {
        let t = vstd::slice::slice_subrange(s, 1, n);
        assert(t@ =~= s@.skip(1));
        return match parse_natural(t, 0x8000_0000_0000_0000) {
            Some(v) => Some(
                if v == 0x8000_0000_0000_0000 {
                    i64::MIN
                } else {
                    -(v as i64)
                },
            ),
            None => None,
        };
    }
    let r = if n > 0 && s[0] == '+' {
        let t = vstd::slice::slice_subrange(s, 1, n);
        assert(t@ =~= s@.skip(1));
        parse_natural(t, i64::MAX as u64)
    } else {
        parse_natural(s, i64::MAX as u64)
    };
    match r {
        Some(v) => Some(v as i64),
        None => None,
    }
}

// ---- writing ----

/// A digit's character.
pub open spec fn digit(d: nat) -> char {
    (48 + d) as char
}

/// The decimal digits of a number.
pub open spec fn digits(n: nat) -> Seq<char>
    decreases n,
{
    if n < 10 {
        seq![digit(n)]
    } else {
        digits(n / 10).push(digit(n % 10))
    }
}

/// The decimal digits of a number, at least two.
pub open spec fn two_digits(n: nat) -> Seq<char> {
    if n < 10 {
        seq!['0', digit(n)]
    } else {
        digits(n)
    }
}

/// The digits of a number stand for it.
pub proof fn law_digits(n: nat)
    ensures
        digits(n).len() > 0,
        all_digits(digits(n)),
        decimal(digits(n)) == n,
    decreases n,
{
    if n < 10 {
        let s = seq![digit(n)];
        assert(s.drop_last() =~= Seq::empty());
        assert(decimal(s.drop_last()) == 0);
        assert(s.last() == digit(n));
    } else {
        law_digits(n / 10);
        let s = digits(n);
        assert(s.drop_last() =~= digits(n / 10));
        assert forall|i: int| 0 <= i < s.len() implies is_digit(#[trigger] s[i]) by {
            if i < s.len() - 1 {
                assert(s[i] == digits(n / 10)[i]);
            }
        }
    }
}

fn digit_char(d: u64) -> (c: char)
    requires
        d < 10,
    ensures
        c == digit(d as nat),
{
    match d {
        0 => '0',
        1 => '1',
        2 => '2',
        3 => '3',
        4 => '4',
        5 => '5',
        6 => '6',
        7 => '7',
        8 => '8',
        _ => '9',
    }
}

/// Append a text.
pub fn put_text(out: &mut Vec<char>, s: &str)
    ensures
        final(out)@ == old(out)@ + s@,
{
    let ghost start = out@;
    let mut v = chars_of(s);
    out.append(&mut v);
    assert(out@ =~= start + s@);
}

/// Append a number.
pub fn put_number(out: &mut Vec<char>, n: u64)
    ensures
        final(out)@ == old(out)@ + digits(n as nat),
    decreases n,
{
    let ghost start = out@;
    if n >= 10 {
        put_number(out, n / 10);
        out.push(digit_char(n % 10));
        assert(out@ =~= start + digits(n as nat));
    } else {
        out.push(digit_char(n));
        assert(out@ =~= start + digits(n as nat));
    }
}

/// Append a number with at least two digits.
pub fn put_two_digits(out: &mut Vec<char>, n: u32)
    ensures
        final(out)@ == old(out)@ + two_digits(n as nat),
{
    let ghost start = out@;
    if n < 10 {
        out.push('0');
        out.push(digit_char(n as u64));
        assert(out@ =~= start + two_digits(n as nat));
    } else {
        put_number(out, n as u64);
    }
}

/// A number between two texts.
pub fn numbered(before: &str, n: u64, after: &str) -> (s: String)
    ensures
        s@ == before@ + digits(n as nat) + after@,
{
    let mut out: Vec<char> = chars_of(before);
    put_number(&mut out, n);
    put_text(&mut out, after);
    string_of(&out)
}

} // verus!

//! Bit strings as they are written, element by element. A reader that has such a
//! string before it gets the elements back in the same order.

use crate::mvc::bitstream::{
    bit_at, code_of, comes, law_golomb_code_comes_back, law_number_comes_back,
    law_signed_code_comes_back, number_bits, order, ue_bits, Cursor,
};
use vstd::arithmetic::power2::pow2;
use crate::mvc::annexb::{code_len, next_code, trimmed};
use crate::mvc::bitstream::signed_code;
use crate::mvc::rbsp::unescaped;
use vstd::prelude::*;

verus! {

/// One bit, then the rest.
#[verifier::opaque]
pub open spec fn flag(b: bool, rest: Seq<bool>) -> Seq<bool> {
    seq![b] + rest
}

/// A number of `n` bits, then the rest.
#[verifier::opaque]
pub open spec fn number(v: int, n: int, rest: Seq<bool>) -> Seq<bool> {
    number_bits(v as nat, n as nat) + rest
}

/// An unsigned Exp-Golomb code, then the rest.
#[verifier::opaque]
pub open spec fn code(v: int, rest: Seq<bool>) -> Seq<bool> {
    ue_bits(v as nat) + rest
}

/// A signed Exp-Golomb code, then the rest.
#[verifier::opaque]
pub open spec fn signed(v: int, rest: Seq<bool>) -> Seq<bool> {
    ue_bits(code_of(v) as nat) + rest
}

proof fn lemma_behind(c: Cursor, a: Seq<bool>, rest: Seq<bool>)
    requires
        comes(c, a + rest),
    ensures
        comes(c, a),
        comes(c.skip(a.len() as int), rest),
{
    let s = a + rest;
    assert forall|j: int| 0 <= j < a.len() implies #[trigger] a[j] == bit_at(c.data, c.pos + j) by {
        assert(s[j] == a[j]);
    }
    let d = c.skip(a.len() as int);
    assert forall|j: int| 0 <= j < rest.len() implies #[trigger] rest[j] == bit_at(
        d.data,
        d.pos + j,
    ) by {
        assert(s[a.len() + j] == rest[j]);
    }
}

pub proof fn lemma_flag(c: Cursor, b: bool, rest: Seq<bool>)
    requires
        comes(c, flag(b, rest)),
    ensures
        c.bit().0 == b,
        comes(c.bit().1, rest),
{
    reveal(flag);
    let s = seq![b] + rest;
    assert(s[0] == bit_at(c.data, c.pos + 0));
    lemma_behind(c, seq![b], rest);
}

pub proof fn lemma_number(c: Cursor, v: int, n: int, rest: Seq<bool>)
    requires
        comes(c, number(v, n, rest)),
        0 <= n <= 32,
        0 <= v < pow2(n as nat),
    ensures
        c.u(n).0 == v,
        comes(c.u(n).1, rest),
{
    reveal(number);
    lemma_behind(c, number_bits(v as nat, n as nat), rest);
    law_number_comes_back(c, v as nat, n as nat);
    lemma_width(v as nat, n as nat);
    vstd::arithmetic::power2::lemma2_to64();
    if n < 32 {
        vstd::arithmetic::power2::lemma_pow2_strictly_increases(n as nat, 32);
    }
}

proof fn lemma_width(v: nat, n: nat)
    ensures
        number_bits(v, n).len() == n,
    decreases n,
{
    if n > 0 {
        lemma_width(v / 2, (n - 1) as nat);
    }
}

pub proof fn lemma_code(c: Cursor, v: int, rest: Seq<bool>)
    requires
        comes(c, code(v, rest)),
        0 <= v < u32::MAX,
    ensures
        c.ue().0 == v,
        comes(c.ue().1, rest),
        c.ue().1.data == c.data,
        c.ue().1.pos > c.pos,
{
    reveal(code);
    lemma_behind(c, ue_bits(v as nat), rest);
    lemma_width((v + 1) as nat, order((v + 1) as nat) + 1);
    law_golomb_code_comes_back(c, v as nat);
}

pub proof fn lemma_signed(c: Cursor, v: int, rest: Seq<bool>)
    requires
        comes(c, signed(v, rest)),
        -0x7fff_ffff <= v <= 0x7fff_ffff,
    ensures
        c.se().0 == v,
        comes(c.se().1, rest),
{
    reveal(signed);
    lemma_behind(c, ue_bits(code_of(v) as nat), rest);
    law_signed_code_comes_back(c, v);
}

/// A bit of a byte string: the most significant bit of each byte comes first.
pub proof fn law_bit_order(d: Seq<u8>, i: int)
    requires
        0 <= i < d.len(),
    ensures
        bit_at(d, 8 * i) == (d[i] >= 128),
        bit_at(d, 8 * i + 1) == (d[i] % 128 >= 64),
        bit_at(d, 8 * i + 2) == (d[i] % 64 >= 32),
        bit_at(d, 8 * i + 3) == (d[i] % 32 >= 16),
        bit_at(d, 8 * i + 4) == (d[i] % 16 >= 8),
        bit_at(d, 8 * i + 5) == (d[i] % 8 >= 4),
        bit_at(d, 8 * i + 6) == (d[i] % 4 >= 2),
        bit_at(d, 8 * i + 7) == (d[i] % 2 >= 1),
{
    lemma_byte(d[i]);
}

proof fn lemma_byte(b: u8)
    by (bit_vector)
    ensures
        ((b >> 7u8) & 1 == 1) == (b >= 128),
        ((b >> 6u8) & 1 == 1) == (b % 128 >= 64),
        ((b >> 5u8) & 1 == 1) == (b % 64 >= 32),
        ((b >> 4u8) & 1 == 1) == (b % 32 >= 16),
        ((b >> 3u8) & 1 == 1) == (b % 16 >= 8),
        ((b >> 2u8) & 1 == 1) == (b % 8 >= 4),
        ((b >> 1u8) & 1 == 1) == (b % 4 >= 2),
        ((b >> 0u8) & 1 == 1) == (b % 2 >= 1),
{
}

/// Signed codes go 0, 1, -1, 2, -2 and so on.
pub proof fn law_signed_order(k: int)
    requires
        k >= 1,
    ensures
        signed_code(0) == 0,
        signed_code(2 * k - 1) == k,
        signed_code(2 * k) == -k,
{
}

/// A byte of 3 behind two zeros is no part of the payload; any other byte is.
pub proof fn law_prevention_bytes(b: Seq<u8>, x: u8)
    ensures
        unescaped(seq![0u8, 0u8, 3u8] + b, 0) == seq![0u8, 0u8] + unescaped(b, 0),
        x != 0 && x != 3 ==> unescaped(seq![0u8, 0u8, x] + b, 0) == seq![0u8, 0u8, x] + unescaped(b, 0),
        x != 0 ==> unescaped(seq![0u8, x] + b, 0) == seq![0u8, x] + unescaped(b, 0),
{
    let (p, q, r) = (seq![0u8, 0u8, 3u8] + b, seq![0u8, 0u8, x] + b, seq![0u8, x] + b);
    reveal_with_fuel(unescaped, 4);
    assert(p.drop_first() =~= seq![0u8, 3u8] + b);
    assert((seq![0u8, 3u8] + b).drop_first() =~= seq![3u8] + b);
    assert((seq![3u8] + b).drop_first() =~= b);
    assert(q.drop_first() =~= seq![0u8, x] + b);
    assert((seq![0u8, x] + b).drop_first() =~= seq![x] + b);
    assert((seq![x] + b).drop_first() =~= b);
    assert(unescaped(seq![3u8] + b, 2) == unescaped(b, 0));
    assert(unescaped(p, 0) =~= seq![0u8, 0u8] + unescaped(b, 0));
    if x != 0 {
        assert(unescaped(seq![x] + b, 1) =~= seq![x] + unescaped(b, 0));
        assert(unescaped(r, 0) =~= seq![0u8, x] + unescaped(b, 0));
        if x != 3 {
            assert(unescaped(seq![x] + b, 2) =~= seq![x] + unescaped(b, 0));
            assert(unescaped(q, 0) =~= seq![0u8, 0u8, x] + unescaped(b, 0));
        }
    }
}

/// A start code is a byte of 1 behind two zeros or three; the zeros behind a unit are no
/// part of it.
pub proof fn law_start_codes(b: Seq<u8>, u: Seq<u8>)
    ensures
        next_code(seq![0u8, 0u8, 1u8] + b, 0) == Some(0int),
        code_len(seq![0u8, 0u8, 1u8] + b, 0) == 3,
        next_code(seq![0u8, 0u8, 0u8, 1u8] + b, 0) == Some(0int),
        code_len(seq![0u8, 0u8, 0u8, 1u8] + b, 0) == 4,
        trimmed(u.push(0)) == trimmed(u),
        u.len() > 0 && u.last() != 0 ==> trimmed(u) == u,
{
    let (p, q) = (seq![0u8, 0u8, 1u8] + b, seq![0u8, 0u8, 0u8, 1u8] + b);
    assert(p[0] == 0 && p[1] == 0 && p[2] == 1);
    assert(q[0] == 0 && q[1] == 0 && q[2] == 0 && q[3] == 1);
    assert(u.push(0).drop_last() =~= u);
}

} // verus!

//! Bit-level reader for H.264 NAL payloads: raw `u(n)` reads and Exp-Golomb
//! coded values (`ue(v)` / `se(v)`), most significant bit first.

use vstd::arithmetic::power2::*;
use vstd::prelude::*;

verus! {

/// Why a read failed.
#[derive(Debug, Clone, Copy, PartialEq, Eq, Structural)]
pub enum ReadError {
    /// Ran off the end of the bitstream.
    Truncated,
    /// Exp-Golomb codeword length exceeds 32 bits.
    ExpGolombOverflow,
}

impl ReadError {
    /// The message shown to a user.
    pub fn message(&self) -> (s: &'static str)
        ensures
            s@ == (match *self {
                ReadError::Truncated => "ran off the end of the bitstream"@,
                ReadError::ExpGolombOverflow => "exp-Golomb codeword length exceeds 32 bits"@,
            }),
    {
        match self {
            ReadError::Truncated => "ran off the end of the bitstream",
            ReadError::ExpGolombOverflow => "exp-Golomb codeword length exceeds 32 bits",
        }
    }
}

/// Bit `p` of `data`, counted from the most significant bit of the first byte.
pub open spec fn bit_at(data: Seq<u8>, p: int) -> bool {
    (data[p / 8] >> ((7 - p % 8) as u8)) & 1 == 1
}

/// The `n` bits from `p` on, as an unsigned integer.
pub open spec fn bits_value(data: Seq<u8>, p: int, n: nat) -> nat
    decreases n,
{
    if n == 0 {
        0
    } else {
        2 * bits_value(data, p, (n - 1) as nat) + (if bit_at(data, p + n - 1) {
            1nat
        } else {
            0nat
        })
    }
}

/// The value that Exp-Golomb code number `code` stands for in a signed element:
/// 0, 1, -1, 2, -2 and so on.
pub open spec fn signed_code(code: int) -> int {
    if code % 2 == 0 {
        -(code / 2)
    } else {
        (code + 1) / 2
    }
}

/// A read position in a byte string, with the error that stopped the reading.
/// Once there is an error, every further read gives 0 and changes nothing.
pub struct Cursor {
    pub data: Seq<u8>,
    pub pos: int,
    pub err: Option<ReadError>,
}

impl Cursor {
    /// The position `n` bits further on.
    pub open spec fn skip(self, n: int) -> Cursor {
        Cursor { pos: self.pos + n, ..self }
    }

    /// Stopped at the position `n` bits further on by `e`.
    pub open spec fn fail(self, n: int, e: ReadError) -> Cursor {
        Cursor { pos: self.pos + n, err: Some(e), ..self }
    }

    /// Bits left before the end.
    pub open spec fn left(self) -> int {
        8 * self.data.len() - self.pos
    }

    /// One bit.
    pub open spec fn bit(self) -> (bool, Cursor) {
        if self.err is Some {
            (false, self)
        } else if self.left() < 1 {
            (false, self.fail(0, ReadError::Truncated))
        } else {
            (bit_at(self.data, self.pos), self.skip(1))
        }
    }

    /// `n` bits as an unsigned integer.
    pub open spec fn u(self, n: int) -> (u32, Cursor) {
        if self.err is Some {
            (0, self)
        } else if self.left() < n {
            (0, self.fail(self.left(), ReadError::Truncated))
        } else {
            (bits_value(self.data, self.pos, n as nat) as u32, self.skip(n))
        }
    }

    /// An unsigned Exp-Golomb code of which `k` leading zeros are behind.
    pub open spec fn ue_after(self, k: int) -> (u32, Cursor)
        decreases 32 - k,
    {
        let (b, c) = self.bit();
        if c.err is Some {
            (0, c)
        } else if b {
            let (tail, d) = c.u(k);
            if d.err is Some {
                (0, d)
            } else {
                ((pow2(k as nat) - 1 + tail) as u32, d)
            }
        } else if k >= 31 {
            (0, c.fail(0, ReadError::ExpGolombOverflow))
        } else {
            c.ue_after(k + 1)
        }
    }

    /// An unsigned Exp-Golomb code.
    pub open spec fn ue(self) -> (u32, Cursor) {
        self.ue_after(0)
    }

    /// A signed Exp-Golomb code.
    pub open spec fn se(self) -> (i32, Cursor) {
        let (code, c) = self.ue();
        (signed_code(code as int) as i32, c)
    }

    /// Payload is left before the stop bit: a set bit follows the current one.
    pub open spec fn more_rbsp_data(self) -> bool {
        exists|p: int| self.pos < p < 8 * self.data.len() && #[trigger] bit_at(self.data, p)
    }
}

/// What an executable read reports, held against what the model reads: the
/// value and the new position, or the error and the position where it arose.
pub open spec fn reads<T>(r: Result<T, ReadError>, now: Cursor, model: (T, Cursor)) -> bool {
    match r {
        Ok(v) => model == (v, now) && now.err is None,
        Err(e) => model.1 == (Cursor { err: Some(e), ..now }) && now.err is None,
    }
}

/// The same for a value that is modelled by its view.
pub open spec fn reads_view<T: View>(
    r: Result<T, ReadError>,
    now: Cursor,
    model: (T::V, Cursor),
) -> bool {
    match r {
        Ok(v) => model == (v@, now) && now.err is None,
        Err(e) => model.1 == (Cursor { err: Some(e), ..now }) && now.err is None,
    }
}

impl Cursor {
    /// `n` unsigned Exp-Golomb codes in a row, after those in `seen`.
    pub open spec fn ue_list(self, seen: Seq<u32>, n: nat) -> (Seq<u32>, Cursor)
        decreases n,
    {
        if n == 0 || self.err is Some {
            (seen, self)
        } else {
            let (v, c) = self.ue();
            if c.err is Some {
                (seen, c)
            } else {
                c.ue_list(seen.push(v), (n - 1) as nat)
            }
        }
    }

    /// Past `n` rows of `a` unsigned Exp-Golomb codes and `b` single bits.
    pub open spec fn skip_rows(self, n: nat, a: nat, b: nat) -> Cursor
        decreases n,
    {
        if n == 0 || self.err is Some {
            self
        } else {
            let c = self.skip_codes(a).skip_bits(b);
            if c.err is Some {
                c
            } else {
                c.skip_rows((n - 1) as nat, a, b)
            }
        }
    }

    /// Past `n` unsigned Exp-Golomb codes.
    pub open spec fn skip_codes(self, n: nat) -> Cursor
        decreases n,
    {
        if n == 0 || self.err is Some {
            self
        } else {
            let c = self.ue().1;
            if c.err is Some {
                c
            } else {
                c.skip_codes((n - 1) as nat)
            }
        }
    }

    /// Past `n` bits, read one by one.
    pub open spec fn skip_bits(self, n: nat) -> Cursor
        decreases n,
    {
        if n == 0 || self.err is Some {
            self
        } else {
            let c = self.bit().1;
            if c.err is Some {
                c
            } else {
                c.skip_bits((n - 1) as nat)
            }
        }
    }

    /// Past `n` numbers of `w` bits each.
    pub open spec fn skip_numbers(self, n: nat, w: int) -> Cursor
        decreases n,
    {
        if n == 0 || self.err is Some {
            self
        } else {
            let c = self.u(w).1;
            if c.err is Some {
                c
            } else {
                c.skip_numbers((n - 1) as nat, w)
            }
        }
    }
}

/// A reader over the bits of a NAL unit payload.
#[derive(Debug)]
pub struct BitReader<'a> {
    data: &'a [u8],
    byte_pos: usize,
    bit_pos: u8,
}

impl<'a> View for BitReader<'a> {
    type V = Cursor;

    closed spec fn view(&self) -> Cursor {
        Cursor { data: self.data@, pos: 8 * self.byte_pos + self.bit_pos, err: None }
    }
}

impl<'a> Clone for BitReader<'a> {
    fn clone(&self) -> (r: Self)
        ensures
            r@ == self@,
    {
        proof {
            use_type_invariant(self);
        }
        BitReader { data: self.data, byte_pos: self.byte_pos, bit_pos: self.bit_pos }
    }
}

proof fn lemma_bits_value_bound(data: Seq<u8>, p: int, n: nat)
    ensures
        bits_value(data, p, n) < pow2(n),
    decreases n,
{
    if n == 0 {
        lemma2_to64();
    } else {
        lemma_bits_value_bound(data, p, (n - 1) as nat);
        lemma_pow2_unfold(n);
    }
}

impl<'a> BitReader<'a> {
    #[verifier::type_invariant]
    spec fn inv(self) -> bool {
        &&& self.bit_pos < 8
        &&& self.byte_pos <= self.data@.len()
        &&& self.byte_pos == self.data@.len() ==> self.bit_pos == 0
    }

    /// A reader at the first bit of `data`.
    pub fn new(data: &'a [u8]) -> (r: Self)
        ensures
            r@ == (Cursor { data: data@, pos: 0, err: None }),
    {
        BitReader { data, byte_pos: 0, bit_pos: 0 }
    }

    /// Total bits remaining.
    pub fn bits_left(&self) -> (n: u64)
        requires
            8 * self@.data.len() <= u64::MAX,
        ensures
            n == self@.left(),
            self@.err is None,
    {
        proof {
            use_type_invariant(self);
        }
        if self.byte_pos >= self.data.len() {
            return 0;
        }
        ((self.data.len() - self.byte_pos) as u64) * 8 - self.bit_pos as u64
    }

    /// The position is a multiple of 8.
    pub fn byte_aligned(&self) -> (b: bool)
        ensures
            b == (self@.pos % 8 == 0),
            self@.err is None,
    {
        proof {
            use_type_invariant(self);
        }
        self.bit_pos == 0
    }

    /// Absolute bit offset consumed so far.
    pub fn position_bits(&self) -> (n: usize)
        requires
            self@.pos <= usize::MAX,
        ensures
            n == self@.pos,
    {
        self.byte_pos * 8 + self.bit_pos as usize
    }

    /// The first byte boundary at or after the current position, in bytes.
    pub fn next_byte(&self) -> (n: usize)
        ensures
            n == (self@.pos + 7) / 8,
            n <= self@.data.len(),
    {
        proof {
            use_type_invariant(self);
        }
        let len: usize = self.data.len();
        if self.bit_pos == 0 || self.byte_pos >= len {
            self.byte_pos
        } else {
            self.byte_pos + 1
        }
    }

    /// The bytes from the first byte boundary at or after the current position.
    pub fn rest(&self) -> (r: &'a [u8])
        ensures
            r@ == self@.data.skip((self@.pos + 7) / 8),
    {
        let k: usize = self.next_byte();
        let n: usize = self.data.len();
        let r = vstd::slice::slice_subrange(self.data, k, n);
        assert(r@ =~= self@.data.skip((self@.pos + 7) / 8));
        r
    }

    /// There is payload remaining before the `rbsp_stop_one_bit`. The stop bit
    /// is the last set bit of the buffer, so this asks whether a set bit
    /// follows the current position.
    pub fn more_rbsp_data(&self) -> (b: bool)
        ensures
            b == self@.more_rbsp_data(),
    {
        proof {
            use_type_invariant(self);
        }
        let ghost data = self.data@;
        if self.byte_pos >= self.data.len() {
            return false;
        }
        let len: usize = self.data.len();
        let mut bit: u8 = self.bit_pos;
        let mut byte: usize = self.byte_pos;
        let ghost start = 8 * byte + bit;
        loop
            invariant
                data == self.data@,
                len == data.len(),
                byte < len,
                bit < 8,
                start == self@.pos,
                start <= 8 * byte + bit,
                forall|p: int| start < p <= 8 * byte + bit ==> !#[trigger] bit_at(data, p),
            decreases 8 * data.len() - 8 * byte - bit,
        {
            if bit == 7 {
                if byte + 1 == len {
                    return false;
                }
                byte = byte + 1;
                bit = 0;
            } else {
                bit = bit + 1;
            }
            let ghost here = 8 * byte + bit;
            assert(here / 8 == byte && here % 8 == bit);
            if (self.data[byte] >> (7 - bit)) & 1 == 1 {
                assert(bit_at(self@.data, here));
                return true;
            }
        }
    }

    /// Read a single bit.
    pub fn read_bit(&mut self) -> (r: Result<bool, ReadError>)
        ensures
            reads(r, final(self)@, old(self)@.bit()),
    {
        proof {
            use_type_invariant(&*self);
        }
        if self.byte_pos >= self.data.len() {
            return Err(ReadError::Truncated);
        }
        let byte: u8 = self.data[self.byte_pos];
        let bit: u8 = (byte >> (7 - self.bit_pos)) & 1;
        proof {
            let p = self@.pos;
            assert(p / 8 == self.byte_pos && p % 8 == self.bit_pos);
        }
        if self.bit_pos == 7 {
            self.bit_pos = 0;
            self.byte_pos = self.byte_pos + 1;
        } else {
            self.bit_pos = self.bit_pos + 1;
        }
        Ok(bit == 1)
    }

    /// Read `n` bits (1..=32) as an unsigned integer.
    pub fn read_u(&mut self, n: u32) -> (r: Result<u32, ReadError>)
        requires
            n <= 32,
        ensures
            reads(r, final(self)@, old(self)@.u(n as int)),
    {
        let mut acc: u32 = 0;
        let ghost start = self@;
        proof {
            use_type_invariant(&*self);
        }
        for i in 0..n
            invariant
                n <= 32,
                start == old(self)@,
                start.err is None,
                self@ == start.skip(i as int),
                start.left() >= i,
                acc == bits_value(start.data, start.pos, i as nat),
        {
            proof {
                lemma_bits_value_bound(start.data, start.pos, i as nat);
                lemma_bits_value_bound(start.data, start.pos, (i + 1) as nat);
                lemma_pow2_strictly_increases_or_equal(i as nat, 31);
                lemma2_to64();
                crate::mvc::arith::lemma_shift_in(acc, 0);
                crate::mvc::arith::lemma_shift_in(acc, 1);
            }
            let b: bool = self.read_bit()?;
            let bit: u32 = if b {
                1
            } else {
                0
            };
            acc = (acc << 1) | bit;
        }
        Ok(acc)
    }

    /// Read an unsigned Exp-Golomb code: `k` leading zeros, a one, and `k` more
    /// bits that are added to `2^k - 1`.
    pub fn read_ue(&mut self) -> (r: Result<u32, ReadError>)
        ensures
            reads(r, final(self)@, old(self)@.ue()),
    {
        let ghost start = self@;
        let mut k: u32 = 0;
        loop
            invariant
                k <= 31,
                start == old(self)@,
                start.ue() == self@.ue_after(k as int),
                self@.err is None,
            decreases 32 - k,
        {
            let b: bool = self.read_bit()?;
            if b {
                let ghost here = self@;
                let tail: u32 = self.read_u(k)?;
                proof {
                    lemma_bits_value_bound(here.data, here.pos, k as nat);
                    lemma_pow2_strictly_increases_or_equal(k as nat, 31);
                    lemma2_to64();
                }
                let head: u32 = power_of_two(k);
                return Ok(head - 1 + tail);
            }
            if k >= 31 {
                return Err(ReadError::ExpGolombOverflow);
            }
            k = k + 1;
        }
    }

    /// Read a signed Exp-Golomb code.
    pub fn read_se(&mut self) -> (r: Result<i32, ReadError>)
        ensures
            reads(r, final(self)@, old(self)@.se()),
    {
        let code: i64 = self.read_ue()? as i64;
        let value: i64 = if code % 2 == 0 {
            -(code / 2)
        } else {
            (code + 1) / 2
        };
        Ok(value as i32)
    }

    /// Read `n` unsigned Exp-Golomb codes.
    pub fn read_ue_list(&mut self, n: usize) -> (r: Result<Vec<u32>, ReadError>)
        ensures
            reads_view(r, final(self)@, old(self)@.ue_list(Seq::empty(), n as nat)),
    {
        let ghost start = self@;
        let mut out: Vec<u32> = Vec::new();
        let mut i: usize = 0;
        proof {
            use_type_invariant(&*self);
        }
        while i < n
            invariant
                i <= n,
                start == old(self)@,
                self@.err is None,
                self@.ue_list(out@, (n - i) as nat) == start.ue_list(Seq::empty(), n as nat),
            decreases n - i,
        {
            let v: u32 = self.read_ue()?;
            out.push(v);
            i = i + 1;
        }
        Ok(out)
    }

    /// Skip `n` unsigned Exp-Golomb codes.
    pub fn skip_codes(&mut self, n: u64) -> (r: Result<(), ReadError>)
        ensures
            reads(r, final(self)@, ((), old(self)@.skip_codes(n as nat))),
    {
        let ghost start = self@;
        let mut i: u64 = 0;
        proof {
            use_type_invariant(&*self);
        }
        while i < n
            invariant
                i <= n,
                start == old(self)@,
                self@.err is None,
                self@.skip_codes((n - i) as nat) == start.skip_codes(n as nat),
            decreases n - i,
        {
            let _v: u32 = self.read_ue()?;
            i = i + 1;
        }
        Ok(())
    }

    /// Skip `n` bits, one by one.
    pub fn skip_bits(&mut self, n: u64) -> (r: Result<(), ReadError>)
        ensures
            reads(r, final(self)@, ((), old(self)@.skip_bits(n as nat))),
    {
        let ghost start = self@;
        let mut i: u64 = 0;
        proof {
            use_type_invariant(&*self);
        }
        while i < n
            invariant
                i <= n,
                start == old(self)@,
                self@.err is None,
                self@.skip_bits((n - i) as nat) == start.skip_bits(n as nat),
            decreases n - i,
        {
            let _v: bool = self.read_bit()?;
            i = i + 1;
        }
        Ok(())
    }

    /// Skip `n` rows of `a` unsigned Exp-Golomb codes and `b` bits.
    pub fn skip_rows(&mut self, n: u64, a: u64, b: u64) -> (r: Result<(), ReadError>)
        ensures
            reads(r, final(self)@, ((), old(self)@.skip_rows(n as nat, a as nat, b as nat))),
    {
        let ghost start = self@;
        let mut i: u64 = 0;
        proof {
            use_type_invariant(&*self);
        }
        while i < n
            invariant
                i <= n,
                start == old(self)@,
                self@.err is None,
                self@.skip_rows((n - i) as nat, a as nat, b as nat) == start.skip_rows(
                    n as nat,
                    a as nat,
                    b as nat,
                ),
            decreases n - i,
        {
            self.skip_codes(a)?;
            self.skip_bits(b)?;
            i = i + 1;
        }
        Ok(())
    }

    /// Skip `n` numbers of `w` bits each.
    pub fn skip_numbers(&mut self, n: u64, w: u32) -> (r: Result<(), ReadError>)
        requires
            w <= 32,
        ensures
            reads(r, final(self)@, ((), old(self)@.skip_numbers(n as nat, w as int))),
    {
        let ghost start = self@;
        let mut i: u64 = 0;
        proof {
            use_type_invariant(&*self);
        }
        while i < n
            invariant
                i <= n,
                w <= 32,
                start == old(self)@,
                self@.err is None,
                self@.skip_numbers((n - i) as nat, w as int) == start.skip_numbers(
                    n as nat,
                    w as int,
                ),
            decreases n - i,
        {
            let _v: u32 = self.read_u(w)?;
            i = i + 1;
        }
        Ok(())
    }
}

proof fn lemma_pow2_strictly_increases_or_equal(a: nat, b: nat)
    requires
        a <= b,
    ensures
        pow2(a) <= pow2(b),
{
    if a < b {
        lemma_pow2_strictly_increases(a, b);
    }
}

/// `2^k`.
fn power_of_two(k: u32) -> (r: u32)
    requires
        k <= 31,
    ensures
        r == pow2(k as nat),
{
    let mut r: u32 = 1;
    let mut i: u32 = 0;
    proof {
        lemma2_to64();
    }
    while i < k
        invariant
            i <= k <= 31,
            r == pow2(i as nat),
        decreases k - i,
    {
        proof {
            lemma_pow2_unfold((i + 1) as nat);
            lemma_pow2_strictly_increases_or_equal((i + 1) as nat, 31);
            lemma2_to64();
        }
        r = r * 2;
        i = i + 1;
    }
    r
}

// ---- what was written comes back ----

/// The lowest `n` bits of a number, most significant first.
pub open spec fn number_bits(v: nat, n: nat) -> Seq<bool>
    decreases n,
{
    if n == 0 {
        Seq::empty()
    } else {
        number_bits(v / 2, (n - 1) as nat).push(v % 2 == 1)
    }
}

/// The exponent of the largest power of two in a number.
pub open spec fn order(x: nat) -> nat
    decreases x,
{
    if x <= 1 {
        0
    } else {
        1 + order(x / 2)
    }
}

/// The unsigned Exp-Golomb code of a number: as many zeros as its successor has
/// bits behind the first one, and the successor.
pub open spec fn ue_bits(v: nat) -> Seq<bool> {
    let k = order(v + 1);
    Seq::new(k, |i: int| false) + number_bits(v + 1, k + 1)
}

/// The Exp-Golomb code number of a signed value.
pub open spec fn code_of(v: int) -> int {
    if v > 0 {
        2 * v - 1
    } else {
        -2 * v
    }
}

/// The bits come next.
pub open spec fn comes(c: Cursor, s: Seq<bool>) -> bool {
    &&& c.err is None
    &&& c.pos >= 0
    &&& c.pos + s.len() <= 8 * c.data.len()
    &&& forall|j: int| 0 <= j < s.len() ==> #[trigger] s[j] == bit_at(c.data, c.pos + j)
}

proof fn lemma_number_bits(v: nat, n: nat)
    ensures
        number_bits(v, n).len() == n,
    decreases n,
{
    if n > 0 {
        lemma_number_bits(v / 2, (n - 1) as nat);
    }
}

proof fn lemma_bits_value(c: Cursor, v: nat, n: nat)
    requires
        comes(c, number_bits(v, n)),
        v < pow2(n),
    ensures
        bits_value(c.data, c.pos, n) == v,
    decreases n,
{
    vstd::arithmetic::power2::lemma2_to64();
    if n > 0 {
        let m = (n - 1) as nat;
        vstd::arithmetic::power2::lemma_pow2_unfold(n);
        lemma_number_bits(v / 2, m);
        let (s, t) = (number_bits(v, n), number_bits(v / 2, m));
        assert(s[n - 1] == bit_at(c.data, c.pos + n - 1));
        assert forall|j: int| 0 <= j < t.len() implies #[trigger] t[j] == bit_at(
            c.data,
            c.pos + j,
        ) by {
            assert(s[j] == t[j]);
        }
        lemma_bits_value(c, v / 2, m);
    }
}

/// Numbers come back from their bits.
pub proof fn law_number_comes_back(c: Cursor, v: nat, n: nat)
    requires
        n <= 32,
        v < pow2(n),
        comes(c, number_bits(v, n)),
    ensures
        c.u(n as int) == (v as u32, c.skip(n as int)),
{
    lemma_number_bits(v, n);
    lemma_bits_value(c, v, n);
}

proof fn lemma_order(x: nat)
    requires
        x >= 1,
    ensures
        pow2(order(x)) <= x < pow2(order(x) + 1),
    decreases x,
{
    vstd::arithmetic::power2::lemma2_to64();
    if x > 1 {
        lemma_order(x / 2);
        vstd::arithmetic::power2::lemma_pow2_unfold(order(x));
        vstd::arithmetic::power2::lemma_pow2_unfold(order(x) + 1);
    }
}

proof fn lemma_first_bit(x: nat, k: nat)
    requires
        pow2(k) <= x < pow2(k + 1),
    ensures
        number_bits(x, k + 1) == seq![true] + number_bits((x - pow2(k)) as nat, k),
    decreases k,
{
    vstd::arithmetic::power2::lemma2_to64();
    vstd::arithmetic::power2::lemma_pow2_unfold(k + 1);
    if k == 0 {
        assert(number_bits(x / 2, 0) =~= Seq::empty());
        assert(number_bits(x, 1) =~= seq![true] + number_bits((x - pow2(k)) as nat, 0));
    } else {
        let m = (k - 1) as nat;
        vstd::arithmetic::power2::lemma_pow2_unfold(k);
        lemma_first_bit(x / 2, m);
        let y = (x - pow2(k)) as nat;
        assert(y / 2 == x / 2 - pow2(m) && y % 2 == x % 2);
        assert(number_bits(x, k + 1) =~= seq![true] + number_bits(y, k));
    }
}

proof fn lemma_ue_after(c: Cursor, v: nat, j: nat)
    requires
        v < u32::MAX,
        j <= order(v + 1),
        comes(
            c,
            Seq::new((order(v + 1) - j) as nat, |i: int| false) + number_bits(
                v + 1,
                order(v + 1) + 1,
            ),
        ),
    ensures
        c.ue_after(j as int) == (v as u32, c.skip(2 * order(v + 1) + 1 - j)),
    decreases order(v + 1) - j,
{
    let k = order(v + 1);
    lemma_order(v + 1);
    vstd::arithmetic::power2::lemma2_to64();
    if k > 31 {
        vstd::arithmetic::power2::lemma_pow2_strictly_increases(31, k);
        if k > 32 {
            vstd::arithmetic::power2::lemma_pow2_strictly_increases(32, k);
        }
    }
    lemma_first_bit(v + 1, k);
    lemma_number_bits(v + 1, k + 1);
    let s = Seq::new((k - j) as nat, |i: int| false) + number_bits(v + 1, k + 1);
    assert(s[0] == bit_at(c.data, c.pos + 0));
    let d = c.skip(1);
    if j == k {
        let y = (v + 1 - pow2(k)) as nat;
        let t = number_bits(y, k);
        lemma_number_bits(y, k);
        assert(s =~= seq![true] + t);
        assert forall|i: int| 0 <= i < t.len() implies #[trigger] t[i] == bit_at(
            d.data,
            d.pos + i,
        ) by {
            assert(s[i + 1] == t[i]);
        }
        vstd::arithmetic::power2::lemma_pow2_unfold(k + 1);
        law_number_comes_back(d, y, k);
    } else {
        let t = Seq::new((k - (j + 1)) as nat, |i: int| false) + number_bits(v + 1, k + 1);
        assert forall|i: int| 0 <= i < t.len() implies #[trigger] t[i] == bit_at(
            d.data,
            d.pos + i,
        ) by {
            assert(s[i + 1] == t[i]);
        }
        lemma_ue_after(d, v, j + 1);
    }
}

/// Numbers come back from their Exp-Golomb codes, up to 2^32 - 2.
pub proof fn law_golomb_code_comes_back(c: Cursor, v: nat)
    requires
        v < u32::MAX,
        comes(c, ue_bits(v)),
    ensures
        c.ue() == (v as u32, c.skip(ue_bits(v).len() as int)),
{
    lemma_number_bits(v + 1, order(v + 1) + 1);
    lemma_ue_after(c, v, 0);
}

/// Signed values come back from their Exp-Golomb codes.
pub proof fn law_signed_code_comes_back(c: Cursor, v: int)
    requires
        -0x7fff_ffff <= v <= 0x7fff_ffff,
        comes(c, ue_bits(code_of(v) as nat)),
    ensures
        signed_code(code_of(v)) == v,
        c.se() == (v as i32, c.skip(ue_bits(code_of(v) as nat).len() as int)),
{
    law_golomb_code_comes_back(c, code_of(v) as nat);
}

/// One read from a bit string.
pub enum ReadOp {
    Bit,
    Number(int),
    Unsigned,
    Signed,
}

impl ReadOp {
    /// A number has as many bits as can be read at once.
    pub open spec fn ok(self) -> bool {
        self matches ReadOp::Number(n) ==> 0 <= n <= 32
    }
}

/// Where a read leaves a reader; one that fails does not stop it for good.
pub open spec fn after_read(c: Cursor, op: ReadOp) -> Cursor {
    let d = match op {
        ReadOp::Bit => c.bit().1,
        ReadOp::Number(n) => c.u(n).1,
        ReadOp::Unsigned => c.ue().1,
        ReadOp::Signed => c.se().1,
    };
    Cursor { err: None, ..d }
}

/// Where reads leave a reader.
pub open spec fn after_reads(c: Cursor, ops: Seq<ReadOp>) -> Cursor
    decreases ops.len(),
{
    if ops.len() == 0 {
        c
    } else {
        after_read(after_reads(c, ops.drop_last()), ops.last())
    }
}

proof fn lemma_ue_advances(c: Cursor, k: int)
    requires
        c.err is None,
        0 <= c.pos <= 8 * c.data.len(),
        0 <= k <= 31,
    ensures
        c.ue_after(k).1.data == c.data,
        c.pos <= c.ue_after(k).1.pos <= 8 * c.data.len(),
    decreases 32 - k,
{
    let (b, d) = c.bit();
    if d.err is None && !b && k < 31 {
        lemma_ue_advances(d, k + 1);
    }
}

/// Whatever is read, failed reads included, the position never goes back and
/// never leaves the data: what is read and what is left are the whole.
pub proof fn law_position_never_goes_back(c: Cursor, ops: Seq<ReadOp>)
    requires
        c.err is None,
        0 <= c.pos <= 8 * c.data.len(),
        forall|i: int| 0 <= i < ops.len() ==> (#[trigger] ops[i]).ok(),
    ensures
        ({
            let d = after_reads(c, ops);
            &&& d.err is None
            &&& d.data == c.data
            &&& c.pos <= d.pos <= 8 * c.data.len()
            &&& d.pos + d.left() == 8 * c.data.len()
        }),
        ops.len() > 0 ==> after_reads(c, ops.drop_last()).pos <= after_reads(c, ops).pos,
    decreases ops.len(),
{
    if ops.len() > 0 {
        let before = ops.drop_last();
        assert forall|i: int| 0 <= i < before.len() implies (#[trigger] before[i]).ok() by {
            assert(before[i] == ops[i]);
        }
        law_position_never_goes_back(c, before);
        let d = after_reads(c, before);
        assert(ops[ops.len() - 1].ok());
        lemma_ue_advances(d, 0);
    }
}

} // verus!

//! The elements of an EBML document, as far as it takes to find some of them in
//! a Matroska file: variable-length integers, element headers and payloads.

use crate::mvc::bytes::piece;
use crate::text::{digits, numbered};
use vstd::prelude::*;

pub mod id;

verus! {

/// Why an element cannot be read.
#[derive(Debug, Clone, Copy, PartialEq, Eq, Structural)]
pub enum EbmlError {
    /// The document ends too early.
    Truncated,
    /// A position that cannot be sought.
    Seek,
    /// A variable-length integer starts with a zero byte.
    InvalidVint,
    /// An identifier of more than four bytes.
    OversizedVint(u8),
    /// An element too large to hold.
    ElementTooLarge(u64),
}

impl EbmlError {
    /// What the message says.
    pub open spec fn says(self) -> Seq<char> {
        match self {
            EbmlError::Truncated => "I/O error: unexpected end of file"@,
            EbmlError::Seek => "I/O error: invalid seek"@,
            EbmlError::InvalidVint => "invalid VINT (length byte is 0)"@,
            EbmlError::OversizedVint(n) => "VINT length "@ + digits(n as nat)
                + " > 8 unsupported"@,
            EbmlError::ElementTooLarge(n) => "element of size "@ + digits(n as nat)
                + " is too large to load into memory"@,
        }
    }

    /// The message shown to a user.
    pub fn message(&self) -> (s: String)
        ensures
            s@ == self.says(),
    {
        match self {
            EbmlError::Truncated => "I/O error: unexpected end of file".to_owned(),
            EbmlError::Seek => "I/O error: invalid seek".to_owned(),
            EbmlError::InvalidVint => "invalid VINT (length byte is 0)".to_owned(),
            EbmlError::OversizedVint(n) => {
                numbered("VINT length ", *n as u64, " > 8 unsupported")
            },
            EbmlError::ElementTooLarge(n) => {
                numbered("element of size ", *n, " is too large to load into memory")
            },
        }
    }
}

// ---- integers ----

/// The big-endian value of `n` bytes from `from` on.
pub open spec fn be(d: Seq<u8>, from: int, n: nat) -> int
    decreases n,
{
    if n == 0 {
        0
    } else {
        256 * be(d, from, (n - 1) as nat) + d[from + n - 1]
    }
}

/// The length of a variable-length integer from its first byte: one more than
/// the number of leading zero bits.
pub open spec fn vint_len(b: u8) -> int {
    if b >= 128 {
        1
    } else if b >= 64 {
        2
    } else if b >= 32 {
        3
    } else if b >= 16 {
        4
    } else if b >= 8 {
        5
    } else if b >= 4 {
        6
    } else if b >= 2 {
        7
    } else {
        8
    }
}

/// The first byte without its highest set bit, the length marker.
pub open spec fn unmarked(b: u8) -> u8 {
    if b >= 128 {
        (b - 128) as u8
    } else if b >= 64 {
        (b - 64) as u8
    } else if b >= 32 {
        (b - 32) as u8
    } else if b >= 16 {
        (b - 16) as u8
    } else if b >= 8 {
        (b - 8) as u8
    } else if b >= 4 {
        (b - 4) as u8
    } else if b >= 2 {
        (b - 2) as u8
    } else {
        0
    }
}

fn marker(b: u8) -> (r: (usize, u8))
    requires
        b > 0,
    ensures
        r.0 == vint_len(b),
        r.1 == unmarked(b),
        1 <= r.0 <= 8,
{
    if b >= 128 {
        (1, b - 128)
    } else if b >= 64 {
        (2, b - 64)
    } else if b >= 32 {
        (3, b - 32)
    } else if b >= 16 {
        (4, b - 16)
    } else if b >= 8 {
        (5, b - 8)
    } else if b >= 4 {
        (6, b - 4)
    } else if b >= 2 {
        (7, b - 2)
    } else {
        (8, 0)
    }
}

/// The value of a variable-length integer at `pos` without its marker, and its
/// length.
pub open spec fn vint_value(d: Seq<u8>, pos: int) -> Result<(int, int), EbmlError> {
    if pos >= d.len() {
        Err(EbmlError::Truncated)
    } else if d[pos] == 0 {
        Err(EbmlError::InvalidVint)
    } else if pos + vint_len(d[pos]) > d.len() {
        Err(EbmlError::Truncated)
    } else {
        let n = vint_len(d[pos]);
        Ok((be(d.update(pos, unmarked(d[pos])), pos, n as nat), n))
    }
}

/// An identifier at `pos`, with its marker, and the position behind it.
pub open spec fn vint_id(d: Seq<u8>, pos: int) -> Result<(int, int), EbmlError> {
    match vint_value(d, pos) {
        Err(e) => Err(e),
        Ok((_, n)) => if n > 4 {
            Err(EbmlError::OversizedVint(n as u8))
        } else {
            Ok((be(d, pos, n as nat), pos + n))
        },
    }
}

/// A size at `pos` and the position behind it.
pub open spec fn vint_size(d: Seq<u8>, pos: int) -> Result<(int, int), EbmlError> {
    match vint_value(d, pos) {
        Err(e) => Err(e),
        Ok((v, n)) => Ok((v, pos + n)),
    }
}

/// Where reading at `pos` stops when the document ends too early: at its end, or
/// at `pos` where that lies behind it.
pub open spec fn run_out(d: Seq<u8>, pos: int) -> int {
    if pos < d.len() {
        d.len() as int
    } else {
        pos
    }
}

/// Where a variable-length integer at `pos` that cannot be read stops: behind a
/// zero byte, or where the document ends.
pub open spec fn vint_stop(d: Seq<u8>, pos: int) -> int {
    if pos < d.len() && d[pos] == 0 {
        pos + 1
    } else {
        run_out(d, pos)
    }
}

/// Where an identifier at `pos` that cannot be read stops: one that is too long is
/// read to its end.
pub open spec fn id_stop(d: Seq<u8>, pos: int) -> int {
    match vint_value(d, pos) {
        Err(_) => vint_stop(d, pos),
        Ok((_, n)) => pos + n,
    }
}

/// Where an element header at `pos` that cannot be read stops.
pub open spec fn element_stop(d: Seq<u8>, pos: int) -> int {
    match vint_id(d, pos) {
        Err(_) => id_stop(d, pos),
        Ok((_, p)) => vint_stop(d, p),
    }
}

/// An element header at `pos`: identifier, size and the position behind it.
pub open spec fn element(d: Seq<u8>, pos: int) -> Result<(int, int, int), EbmlError> {
    match vint_id(d, pos) {
        Err(e) => Err(e),
        Ok((id, p)) => match vint_size(d, p) {
            Err(e) => Err(e),
            Ok((size, q)) => Ok((id, size, q)),
        },
    }
}

/// `n` bytes at `pos` and the position behind them.
pub open spec fn payload(d: Seq<u8>, pos: int, n: int) -> Result<(Seq<u8>, int), EbmlError> {
    if n == 0 {
        Ok((Seq::empty(), pos))
    } else if pos + n > d.len() {
        Err(EbmlError::Truncated)
    } else {
        Ok((d.subrange(pos, pos + n), pos + n))
    }
}

/// The number in `n` bytes at `pos`, modulo 2^64, and the position behind it.
pub open spec fn number(d: Seq<u8>, pos: int, n: int) -> Result<(u64, int), EbmlError> {
    match payload(d, pos, n) {
        Err(e) => Err(e),
        Ok((b, p)) => Ok(((be(b, 0, b.len()) % 0x1_0000_0000_0000_0000) as u64, p)),
    }
}

/// The position `n` bytes further on.
pub open spec fn skipped(pos: int, n: int) -> Result<int, EbmlError> {
    if pos + n > u64::MAX {
        Err(EbmlError::Seek)
    } else {
        Ok(pos + n)
    }
}

/// The position that a step of `n` leads to, where `n` from 2^63 on stands for
/// `n` - 2^64, a step back.
pub open spec fn stepped(pos: int, n: int) -> Result<int, EbmlError> {
    if n <= i64::MAX {
        skipped(pos, n)
    } else if pos + n < 0x1_0000_0000_0000_0000 {
        Err(EbmlError::Seek)
    } else {
        Ok(pos + n - 0x1_0000_0000_0000_0000)
    }
}

/// Where an element of `size` bytes at `pos` ends, as far as positions go.
pub open spec fn ending(pos: int, size: int) -> int {
    if pos > u64::MAX {
        pos
    } else if pos + size > u64::MAX {
        u64::MAX as int
    } else {
        pos + size
    }
}

/// The bytes left at a position.
pub open spec fn room(d: Seq<u8>, pos: int) -> nat {
    if pos < d.len() {
        (d.len() - pos) as nat
    } else {
        0
    }
}

proof fn lemma_be(d: Seq<u8>, from: int, n: nat)
    ensures
        0 <= be(d, from, n),
        n <= 4 ==> be(d, from, n) <= 0xffff_ffff,
        n <= 7 ==> be(d, from, n) < 0x100_0000_0000_0000,
        n <= 8 ==> be(d, from, n) <= u64::MAX,
    decreases n,
{
    reveal_with_fuel(be, 10);
    if n > 8 {
        lemma_be(d, from, (n - 1) as nat);
    }
}

/// A size is below 2^56.
pub proof fn lemma_size(d: Seq<u8>, pos: int)
    requires
        0 <= pos,
    ensures
        vint_value(d, pos) is Ok ==> 0 <= vint_value(d, pos)->Ok_0.0 < 0x100_0000_0000_0000,
        vint_value(d, pos) is Ok ==> 1 <= vint_value(d, pos)->Ok_0.1 <= 8 && pos + vint_value(
            d,
            pos,
        )->Ok_0.1 <= d.len(),
        vint_id(d, pos) is Ok ==> 0 <= vint_id(d, pos)->Ok_0.0 <= u32::MAX,
        element(d, pos) is Ok ==> pos + 2 <= element(d, pos)->Ok_0.2 <= d.len(),
{
    if pos < d.len() && d[pos] != 0 {
        let n = vint_len(d[pos]) as nat;
        lemma_be(d.update(pos, unmarked(d[pos])), pos, n);
        lemma_be(d, pos, n);
        if n == 8 && 0 <= pos && pos + n <= d.len() {
            let e = d.update(pos, unmarked(d[pos]));
            lemma_first_byte(e, pos, 8);
        }
    }
    match vint_id(d, pos) {
        Ok((id, p)) => {
            if p < d.len() && d[p] != 0 {
                let n = vint_len(d[p]) as nat;
                lemma_be(d.update(p, unmarked(d[p])), p, n);
            }
        },
        Err(_) => {},
    }
}

proof fn lemma_first_byte(d: Seq<u8>, from: int, n: nat)
    requires
        1 <= n <= 8,
        d[from] == 0,
    ensures
        be(d, from, n) < 0x100_0000_0000_0000,
{
    reveal_with_fuel(be, 10);
}

fn be_value(d: &[u8], from: usize, n: usize) -> (v: u64)
    requires
        from + n <= d@.len(),
        n <= 8,
    ensures
        v == be(d@, from as int, n as nat),
{
    let mut v: u64 = 0;
    let len: usize = d.len();
    for i in 0..n
        invariant
            len == d@.len(),
            from + n <= d@.len(),
            n <= 8,
            v == be(d@, from as int, i as nat),
    {
        proof {
            lemma_be(d@, from as int, (i + 1) as nat);
        }
        v = 256 * v + d[from + i] as u64;
    }
    v
}

fn be_from(first: u8, d: &[u8], from: usize, n: usize) -> (v: u64)
    requires
        from + n <= d@.len(),
        1 <= n <= 8,
    ensures
        v == be(d@.update(from as int, first), from as int, n as nat),
{
    let ghost e = d@.update(from as int, first);
    let len: usize = d.len();
    let mut v: u64 = first as u64;
    proof {
        reveal_with_fuel(be, 3);
        assert(be(e, from as int, 1) == 256 * be(e, from as int, 0) + e[from as int]);
    }
    for i in 1..n
        invariant
            len == d@.len(),
            from + n <= d@.len(),
            1 <= n <= 8,
            e == d@.update(from as int, first),
            v == be(e, from as int, i as nat),
    {
        proof {
            lemma_be(e, from as int, (i + 1) as nat);
            assert(e[from + i] == d@[from + i]);
        }
        v = 256 * v + d[from + i] as u64;
    }
    v
}

fn be_wide(d: &[u8]) -> (v: u64)
    ensures
        v == (be(d@, 0, d@.len()) % 0x1_0000_0000_0000_0000) as u64,
{
    let mut v: u64 = 0;
    let n: usize = d.len();
    for i in 0..n
        invariant
            n == d@.len(),
            v == be(d@, 0, i as nat) % 0x1_0000_0000_0000_0000,
    {
        let b: u8 = d[i];
        proof {
            let (a, m) = (be(d@, 0, i as nat), 0x1_0000_0000_0000_0000);
            vstd::arithmetic::div_mod::lemma_mul_mod_noop_right(256, a, m);
            vstd::arithmetic::div_mod::lemma_add_mod_noop(256 * a, b as int, m);
            vstd::arithmetic::div_mod::lemma_add_mod_noop(256 * (a % m), b as int, m);
            assert((256 * v + b) % m == be(d@, 0, (i + 1) as nat) % m);
            vstd::arithmetic::div_mod::lemma_small_mod(b as nat, m as nat);
            assert((256 * v) % m == v.wrapping_mul(256));
            assert((v.wrapping_mul(256) + b) % m == v.wrapping_mul(256).wrapping_add(b as u64));
        }
        v = v.wrapping_mul(256).wrapping_add(b as u64);
    }
    v
}

// ---- reading ----

/// A position in an EBML document.
pub struct EbmlReader<'a> {
    inner: &'a [u8],
    pos: u64,
}

impl<'a> EbmlReader<'a> {
    /// The document.
    pub closed spec fn data(self) -> Seq<u8> {
        self.inner@
    }

    /// The position.
    pub closed spec fn at(self) -> int {
        self.pos as int
    }

    /// Start at the front of a document.
    pub fn new(inner: &'a [u8]) -> (r: Self)
        ensures
            r.data() == inner@,
            r.at() == 0,
    {
        EbmlReader { inner, pos: 0 }
    }

    /// The document.
    pub fn into_inner(self) -> (r: &'a [u8])
        ensures
            r@ == self.data(),
    {
        self.inner
    }

    /// The position.
    pub fn position(&self) -> (p: u64)
        ensures
            p == self.at(),
    {
        self.pos
    }

    /// Where an element of `size` bytes at the position ends.
    pub fn end_of(&self, size: u64) -> (p: u64)
        ensures
            p == ending(self.at(), size as int),
    {
        if size > u64::MAX - self.pos {
            u64::MAX
        } else {
            self.pos + size
        }
    }

    /// Go to a position, which may lie behind the end.
    pub fn seek(&mut self, pos: u64)
        ensures
            final(self).data() == old(self).data(),
            final(self).at() == pos,
    {
        self.pos = pos;
    }

    /// Read an identifier, with its marker.
    pub fn read_vint_id(&mut self) -> (r: Result<u32, EbmlError>)
        ensures
            final(self).data() == old(self).data(),
            match r {
                Ok(v) => vint_id(old(self).data(), old(self).at()) == Ok::<(int, int), EbmlError>(
                    (v as int, final(self).at()),
                ),
                Err(e) => vint_id(old(self).data(), old(self).at()) == Err::<
                    (int, int),
                    EbmlError,
                >(e) && final(self).at() == id_stop(old(self).data(), old(self).at()),
            },
    {
        proof {
            lemma_size(self.inner@, self.pos as int);
        }
        let at: usize = self.here()?;
        let (n, _first) = self.width(at)?;
        if n > 4 {
            self.pos = (at + n) as u64;
            return Err(EbmlError::OversizedVint(n as u8));
        }
        let v: u64 = be_value(self.inner, at, n);
        self.pos = (at + n) as u64;
        Ok(v as u32)
    }

    fn here(&self) -> (r: Result<usize, EbmlError>)
        ensures
            match r {
                Ok(p) => p == self.at() && p < self.data().len(),
                Err(e) => e == EbmlError::Truncated && self.at() >= self.data().len(),
            },
    {
        let n: usize = self.inner.len();
        if self.pos >= n as u64 {
            return Err(EbmlError::Truncated);
        }
        Ok(self.pos as usize)
    }

    fn width(&mut self, at: usize) -> (r: Result<(usize, u8), EbmlError>)
        requires
            at == old(self).at(),
            at < old(self).data().len(),
        ensures
            final(self).data() == old(self).data(),
            ({
                let d = old(self).data();
                match r {
                    Ok((n, f)) => d[at as int] != 0 && n == vint_len(d[at as int]) && f == unmarked(
                        d[at as int],
                    ) && at + n <= d.len() && at + n <= usize::MAX && 1 <= n <= 8
                        && final(self).at() == at,
                    Err(e) => vint_value(d, at as int) == Err::<(int, int), EbmlError>(e)
                        && final(self).at() == vint_stop(d, at as int),
                }
            }),
    {
        let len: usize = self.inner.len();
        let b: u8 = self.inner[at];
        if b == 0 {
            self.pos = at as u64 + 1;
            return Err(EbmlError::InvalidVint);
        }
        let (n, first) = marker(b);
        if len - at < n {
            self.pos = len as u64;
            return Err(EbmlError::Truncated);
        }
        Ok((n, first))
    }

    /// Read a size.
    pub fn read_vint_size(&mut self) -> (r: Result<u64, EbmlError>)
        ensures
            final(self).data() == old(self).data(),
            match r {
                Ok(v) => vint_size(old(self).data(), old(self).at()) == Ok::<
                    (int, int),
                    EbmlError,
                >((v as int, final(self).at())) && v < 0x100_0000_0000_0000,
                Err(e) => vint_size(old(self).data(), old(self).at()) == Err::<
                    (int, int),
                    EbmlError,
                >(e) && final(self).at() == vint_stop(old(self).data(), old(self).at()),
            },
    {
        proof {
            lemma_size(self.inner@, self.pos as int);
        }
        let at: usize = self.here()?;
        let (n, first) = self.width(at)?;
        let v: u64 = be_from(first, self.inner, at, n);
        self.pos = (at + n) as u64;
        Ok(v)
    }

    /// Read an element header: identifier and size.
    pub fn read_element(&mut self) -> (r: Result<(u32, u64), EbmlError>)
        ensures
            final(self).data() == old(self).data(),
            match r {
                Ok((id, size)) => element(old(self).data(), old(self).at()) == Ok::<
                    (int, int, int),
                    EbmlError,
                >((id as int, size as int, final(self).at())) && size < 0x100_0000_0000_0000
                    && room(final(self).data(), final(self).at()) < room(
                    old(self).data(),
                    old(self).at(),
                ) && final(self).at() > old(self).at(),
                Err(e) => element(old(self).data(), old(self).at()) == Err::<
                    (int, int, int),
                    EbmlError,
                >(e) && final(self).at() == element_stop(old(self).data(), old(self).at()),
            },
    {
        proof {
            lemma_size(self.inner@, self.pos as int);
        }
        let id: u32 = self.read_vint_id()?;
        let size: u64 = self.read_vint_size()?;
        Ok((id, size))
    }

    /// Read `n` bytes.
    pub fn read_bytes(&mut self, n: u64) -> (r: Result<Vec<u8>, EbmlError>)
        ensures
            final(self).data() == old(self).data(),
            match r {
                Ok(v) => payload(old(self).data(), old(self).at(), n as int) == Ok::<
                    (Seq<u8>, int),
                    EbmlError,
                >((v@, final(self).at())) && final(self).at() >= old(self).at(),
                Err(e) => payload(old(self).data(), old(self).at(), n as int) == Err::<
                    (Seq<u8>, int),
                    EbmlError,
                >(e) && final(self).at() == run_out(old(self).data(), old(self).at()),
            },
    {
        if n == 0 {
            let v: Vec<u8> = Vec::new();
            assert(v@ =~= Seq::empty());
            return Ok(v);
        }
        let len: usize = self.inner.len();
        let at: usize = self.here()?;
        if n > (len - at) as u64 {
            self.pos = len as u64;
            return Err(EbmlError::Truncated);
        }
        let k: usize = n as usize;
        let v = piece(self.inner, at, at + k);
        self.pos = (at + k) as u64;
        Ok(v)
    }

    /// Read a number of `n` bytes.
    pub fn read_uint(&mut self, n: u64) -> (r: Result<u64, EbmlError>)
        ensures
            final(self).data() == old(self).data(),
            match r {
                Ok(v) => number(old(self).data(), old(self).at(), n as int) == Ok::<
                    (u64, int),
                    EbmlError,
                >((v, final(self).at())) && final(self).at() >= old(self).at(),
                Err(e) => number(old(self).data(), old(self).at(), n as int) == Err::<
                    (u64, int),
                    EbmlError,
                >(e) && final(self).at() == run_out(old(self).data(), old(self).at()),
            },
    {
        let b = self.read_bytes(n)?;
        Ok(be_wide(b.as_slice()))
    }

    /// Go `n` bytes further on, which may lead behind the end. From 2^63 on, `n`
    /// stands for `n` - 2^64 and leads back.
    pub fn skip(&mut self, n: u64) -> (r: Result<(), EbmlError>)
        ensures
            final(self).data() == old(self).data(),
            match r {
                Ok(_) => stepped(old(self).at(), n as int) == Ok::<int, EbmlError>(
                    final(self).at(),
                ),
                Err(e) => stepped(old(self).at(), n as int) == Err::<int, EbmlError>(e)
                    && final(self).at() == old(self).at(),
            },
    {
        if n <= 0x7fff_ffff_ffff_ffff {
            if n > u64::MAX - self.pos {
                return Err(EbmlError::Seek);
            }
            self.pos = self.pos + n;
        } else {
            let back: u64 = u64::MAX - n;
            if self.pos <= back {
                return Err(EbmlError::Seek);
            }
            self.pos = self.pos - back - 1;
        }
        Ok(())
    }
}

/// A position is not negative.
pub proof fn lemma_at(r: EbmlReader)
    ensures
        0 <= r.at() <= u64::MAX,
{
}

} // verus!

//! Byte strings.

use vstd::prelude::*;

verus! {

/// A copy of some bytes.
pub fn copied(s: &[u8]) -> (r: Vec<u8>)
    ensures
        r@ == s@,
{
    let mut r: Vec<u8> = Vec::new();
    r.extend_from_slice(s);
    assert(r@ =~= s@);
    r
}

/// A copy of the bytes from `from` up to `to`.
pub fn piece(s: &[u8], from: usize, to: usize) -> (r: Vec<u8>)
    requires
        from <= to <= s@.len(),
    ensures
        r@ == s@.subrange(from as int, to as int),
{
    copied(vstd::slice::slice_subrange(s, from, to))
}

} // verus!

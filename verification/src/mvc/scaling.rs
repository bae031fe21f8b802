//! Scaling lists (quantisation weight matrices), H.264 sections 7.3.2.1.1.1
//! and 8.5.9: parsing with the fall-back rules, and the flat lists.

use crate::mvc::bitstream::{reads_view, BitReader, Cursor, ReadError};
use crate::mvc::transform::{
    inverse_scan_4x4, inverse_scan_8x8, shows4, shows8, unscan4, unscan8, zigzag4, zigzag8,
};
use vstd::prelude::*;

verus! {

/// The eight resolved weight matrices of 4:2:0 in raster order: six 4x4 lists
/// (intra Y, Cb, Cr, inter Y, Cb, Cr) and two 8x8 lists (intra Y, inter Y).
#[derive(Debug, Clone, Copy, PartialEq, Eq)]
pub struct ScalingLists {
    pub list_4x4: [[[i32; 4]; 4]; 6],
    pub list_8x8: [[[i32; 8]; 8]; 2],
}

/// Weight matrices as lists in raster order.
#[verifier::ext_equal]
pub struct Weights {
    pub l4: Seq<Seq<i32>>,
    pub l8: Seq<Seq<i32>>,
}

/// A 4x4 matrix in raster order.
pub open spec fn flat4(m: [[i32; 4]; 4]) -> Seq<i32> {
    Seq::new(16, |p: int| m[p / 4][p % 4])
}

/// An 8x8 matrix in raster order.
pub open spec fn flat8(m: [[i32; 8]; 8]) -> Seq<i32> {
    Seq::new(64, |p: int| m[p / 8][p % 8])
}

impl View for ScalingLists {
    type V = Weights;

    open spec fn view(&self) -> Weights {
        Weights {
            l4: Seq::new(6, |k: int| flat4(self.list_4x4[k])),
            l8: Seq::new(2, |k: int| flat8(self.list_8x8[k])),
        }
    }
}

/// Weight matrices are determined by their lists.
pub proof fn lemma_same_lists(a: ScalingLists, b: ScalingLists)
    requires
        a@ == b@,
    ensures
        a == b,
{
    assert forall|k: int| 0 <= k < 6 implies a.list_4x4[k] == b.list_4x4[k] by {
        let (m, n) = (a.list_4x4[k], b.list_4x4[k]);
        assert(a@.l4[k] == b@.l4[k]);
        assert forall|i: int| 0 <= i < 4 implies m[i] == n[i] by {
            assert forall|j: int| 0 <= j < 4 implies m[i][j] == n[i][j] by {
                assert(flat4(m)[4 * i + j] == flat4(n)[4 * i + j]);
                assert((4 * i + j) / 4 == i && (4 * i + j) % 4 == j);
            }
            assert(m[i] =~= n[i]);
        }
        assert(m =~= n);
    }
    assert forall|k: int| 0 <= k < 2 implies a.list_8x8[k] == b.list_8x8[k] by {
        let (m, n) = (a.list_8x8[k], b.list_8x8[k]);
        assert(a@.l8[k] == b@.l8[k]);
        assert forall|i: int| 0 <= i < 8 implies m[i] == n[i] by {
            assert forall|j: int| 0 <= j < 8 implies m[i][j] == n[i][j] by {
                assert(flat8(m)[8 * i + j] == flat8(n)[8 * i + j]);
                assert((8 * i + j) / 8 == i && (8 * i + j) % 8 == j);
            }
            assert(m[i] =~= n[i]);
        }
        assert(m =~= n);
    }
    assert(a.list_4x4 =~= b.list_4x4);
    assert(a.list_8x8 =~= b.list_8x8);
}

/// 8x8 zig-zag scan: scan index to raster index.
pub const ZIGZAG_8X8: [usize; 64] = [
     0,  1,  8, 16,  9,  2,  3, 10, 17, 24, 32, 25, 18, 11,  4,  5,
    12, 19, 26, 33, 40, 48, 41, 34, 27, 20, 13,  6,  7, 14, 21, 28,
    35, 42, 49, 56, 57, 50, 43, 36, 29, 22, 15, 23, 30, 37, 44, 51,
    58, 59, 52, 45, 38, 31, 39, 46, 53, 60, 61, 54, 47, 55, 62, 63,
];

/// Default 4x4 intra list in scan order.
pub const DEFAULT_4X4_INTRA: [i32; 16] = [6, 13, 13, 20, 20, 20, 28, 28, 28, 28, 32, 32, 32, 37, 37, 42];

/// Default 4x4 inter list in scan order.
pub const DEFAULT_4X4_INTER: [i32; 16] = [10, 14, 14, 20, 20, 20, 24, 24, 24, 24, 27, 27, 27, 30, 30, 34];

/// Default 8x8 intra list in scan order.
pub const DEFAULT_8X8_INTRA: [i32; 64] = [
     6, 10, 10, 13, 11, 13, 16, 16, 16, 16, 18, 18, 18, 18, 18, 23,
    23, 23, 23, 23, 23, 25, 25, 25, 25, 25, 25, 25, 27, 27, 27, 27,
    27, 27, 27, 27, 29, 29, 29, 29, 29, 29, 29, 31, 31, 31, 31, 33,
    33, 33, 36, 36, 36, 38, 38, 40, 40, 42, 45, 45, 47, 47, 48, 57,
];

/// Default 8x8 inter list in scan order.
pub const DEFAULT_8X8_INTER: [i32; 64] = [
     9, 13, 13, 15, 13, 15, 17, 17, 17, 17, 19, 19, 19, 19, 19, 21,
    21, 21, 21, 21, 21, 22, 22, 22, 22, 22, 22, 22, 24, 24, 24, 24,
    24, 24, 24, 24, 25, 25, 25, 25, 25, 25, 25, 27, 27, 27, 27, 28,
    28, 28, 30, 30, 30, 32, 32, 33, 33, 35, 35, 38, 38, 40, 40, 42,
];

/// The default list that matrix `i` falls back to, in scan order.
pub closed spec fn default_list(i: int) -> Seq<i32> {
    if i < 3 {
        DEFAULT_4X4_INTRA@
    } else if i < 6 {
        DEFAULT_4X4_INTER@
    } else if i == 6 {
        DEFAULT_8X8_INTRA@
    } else {
        DEFAULT_8X8_INTER@
    }
}

/// What the default lists are: the tables.
pub proof fn law_default_lists()
    ensures
        default_list(0) == DEFAULT_4X4_INTRA@,
        default_list(3) == DEFAULT_4X4_INTER@,
        default_list(6) == DEFAULT_8X8_INTRA@,
        default_list(7) == DEFAULT_8X8_INTER@,
        forall|i: int| 0 <= i < 3 ==> #[trigger] default_list(i) == default_list(0),
        forall|i: int| 3 <= i < 6 ==> #[trigger] default_list(i) == default_list(3),
        forall|i: int| 7 <= i ==> #[trigger] default_list(i) == default_list(7),
{
}

/// The weights of matrix `i` in raster order, from a list in scan order.
pub open spec fn raster(i: int, scan: Seq<i32>) -> Seq<i32> {
    if i < 6 {
        Seq::new(16, |p: int| scan[zigzag4(p / 4, p % 4)])
    } else {
        Seq::new(64, |p: int| scan[zigzag8(p / 8, p % 8)])
    }
}

/// The rest of a scaling list after the weights in `seen`: each weight is the
/// last one plus a coded difference, until the sum is 0 and the last one stays.
/// Also whether the first sum is 0, which stands for the default list.
pub open spec fn rest_of_list(
    c: Cursor,
    seen: Seq<i32>,
    last: int,
    next: int,
    dflt: bool,
    n: nat,
) -> ((Seq<i32>, bool), Cursor)
    decreases n,
{
    if n == 0 || c.err is Some {
        ((seen, dflt), c)
    } else {
        let (delta, c1) = if next != 0 {
            c.se()
        } else {
            (0i32, c)
        };
        let sum = if next != 0 {
            (last + delta) % 256
        } else {
            0
        };
        let w = if sum == 0 {
            last
        } else {
            sum
        };
        if c1.err is Some {
            ((seen, dflt), c1)
        } else {
            rest_of_list(
                c1,
                seen.push(w as i32),
                w,
                sum,
                dflt || (seen.len() == 0 && sum == 0),
                (n - 1) as nat,
            )
        }
    }
}

/// A scaling list of `n` weights in scan order.
pub open spec fn scaling_list(c: Cursor, n: nat) -> ((Seq<i32>, bool), Cursor) {
    rest_of_list(c, Seq::empty(), 8, 8, false, n)
}

/// Parse a scaling list of `size` weights in scan order, and whether it stands
/// for the default list.
pub fn parse_scaling_list(reader: &mut BitReader<'_>, size: usize) -> (r: Result<
    (Vec<i32>, bool),
    ReadError,
>)
    ensures
        match r {
            Ok(v) => scaling_list(old(reader)@, size as nat) == ((v.0@, v.1), final(reader)@)
                && v.0@.len() == size,
            Err(e) => scaling_list(old(reader)@, size as nat).1 == (Cursor {
                err: Some(e),
                ..final(reader)@
            }),
        },
        final(reader)@.err is None,
{
    let ghost start = reader@;
    let mut list: Vec<i32> = Vec::new();
    let mut last: i32 = 8;
    let mut next: i32 = 8;
    let mut dflt: bool = false;
    let mut i: usize = 0;
    let _left: bool = reader.byte_aligned();
    while i < size
        invariant
            i <= size,
            list@.len() == i,
            0 <= last < 256,
            0 <= next < 256,
            i == 0 ==> next == 8,
            start == old(reader)@,
            reader@.err is None,
            rest_of_list(
                reader@,
                list@,
                last as int,
                next as int,
                dflt,
                (size - i) as nat,
            ) == scaling_list(start, size as nat),
        decreases size - i,
    {
        if next != 0 {
            let delta: i32 = reader.read_se()?;
            let sum: i64 = last as i64 + delta as i64 + 0x1_0000_0000;
            proof {
                vstd::arithmetic::div_mod::lemma_mod_multiples_vanish(
                    0x100_0000,
                    last + delta,
                    256,
                );
                assert(sum as int % 256 == (last + delta) % 256);
            }
            next = (sum % 256) as i32;
            if i == 0 && next == 0 {
                dflt = true;
            }
        }
        if next != 0 {
            last = next;
        }
        list.push(last);
        i = i + 1;
    }
    Ok((list, dflt))
}

/// A list with zeros up to `n` entries.
pub open spec fn padded(s: Seq<i32>, n: int) -> Seq<i32> {
    if s.len() >= n {
        s
    } else {
        s + Seq::new((n - s.len()) as nat, |i: int| 0i32)
    }
}

/// Place a list of up to 16 weights in scan order into a 4x4 matrix; the others
/// are zero.
pub fn scan_to_raster_4x4(scan: &[i32]) -> (m: [[i32; 4]; 4])
    requires
        scan@.len() <= 16,
    ensures
        shows4(m, unscan4(padded(scan@, 16))),
        flat4(m) == raster(0, padded(scan@, 16)),
{
    let mut a: [i32; 16] = [0i32; 16];
    let n: usize = scan.len();
    for i in 0..n
        invariant
            n == scan@.len(),
            n <= 16,
            forall|j: int| 0 <= j < i ==> #[trigger] a[j] == scan@[j],
            forall|j: int| i <= j < 16 ==> #[trigger] a[j] == 0,
    {
        a[i] = scan[i];
    }
    assert(a@ =~= padded(scan@, 16));
    let m = inverse_scan_4x4(&a);
    assert(flat4(m) =~= raster(0, padded(scan@, 16)));
    m
}

/// Place a list of up to 64 weights in scan order into an 8x8 matrix; the others
/// are zero.
pub fn scan_to_raster_8x8(scan: &[i32]) -> (m: [[i32; 8]; 8])
    requires
        scan@.len() <= 64,
    ensures
        shows8(m, unscan8(padded(scan@, 64))),
        flat8(m) == raster(6, padded(scan@, 64)),
{
    let mut a: [i32; 64] = [0i32; 64];
    let n: usize = scan.len();
    for i in 0..n
        invariant
            n == scan@.len(),
            n <= 64,
            forall|j: int| 0 <= j < i ==> #[trigger] a[j] == scan@[j],
            forall|j: int| i <= j < 64 ==> #[trigger] a[j] == 0,
    {
        a[i] = scan[i];
    }
    assert(a@ =~= padded(scan@, 64));
    let m = inverse_scan_8x8(&a);
    assert(flat8(m) =~= raster(6, padded(scan@, 64)));
    m
}

/// Matrix `i` of a scaling matrix: coded, or by the fall-back rules the default
/// of its kind or an earlier matrix.
pub open spec fn one_matrix(c: Cursor, i: int, l4: Seq<Seq<i32>>, l8: Seq<Seq<i32>>) -> (
    Seq<i32>,
    Cursor,
) {
    let (present, c1) = c.bit();
    if present {
        let (list, c2) = scaling_list(
            c1,
            if i < 6 {
                16
            } else {
                64
            },
        );
        (
            raster(
                i,
                if list.1 {
                    default_list(i)
                } else {
                    list.0
                },
            ),
            c2,
        )
    } else if i == 0 || i == 3 || i == 6 || i == 7 {
        (raster(i, default_list(i)), c1)
    } else if i < 6 {
        (l4[i - 1], c1)
    } else {
        (l8[i - 8], c1)
    }
}

/// Matrices from `i` to `count`, after those in `l4` and `l8`.
pub open spec fn matrices(c: Cursor, i: int, count: int, l4: Seq<Seq<i32>>, l8: Seq<Seq<i32>>) -> (
    (Seq<Seq<i32>>, Seq<Seq<i32>>),
    Cursor,
)
    decreases count - i,
{
    if i >= count || c.err is Some {
        ((l4, l8), c)
    } else {
        let (m, c1) = one_matrix(c, i, l4, l8);
        if c1.err is Some {
            ((l4, l8), c1)
        } else if i < 6 {
            matrices(c1, i + 1, count, l4.push(m), l8)
        } else {
            matrices(c1, i + 1, count, l4, l8.push(m))
        }
    }
}

/// The first `n` of some matrices, with zero matrices where there are fewer.
pub open spec fn first_matrices(l: Seq<Seq<i32>>, n: nat, size: nat) -> Seq<Seq<i32>> {
    Seq::new(
        n,
        |k: int|
            if k < l.len() {
                l[k]
            } else {
                Seq::new(size, |p: int| 0i32)
            },
    )
}

/// A scaling matrix of `count` lists: 8 for 4:2:0, of which six 4x4 and two 8x8
/// ones are kept.
#[verifier::opaque]
pub open spec fn scaling_matrix(c: Cursor, count: int) -> (Weights, Cursor) {
    let (l, c1) = matrices(c, 0, count, Seq::empty(), Seq::empty());
    (Weights { l4: first_matrices(l.0, 6, 16), l8: first_matrices(l.1, 2, 64) }, c1)
}

/// Reading on after an error changes nothing.
pub broadcast proof fn lemma_scaling_matrix_sticks(c: Cursor, count: int)
    requires
        c.err is Some,
    ensures
        (#[trigger] scaling_matrix(c, count)).1 == c,
{
    reveal(scaling_matrix);
}

/// The rasters of a list of 4x4 matrices.
pub open spec fn all_flat4(l: Seq<[[i32; 4]; 4]>) -> Seq<Seq<i32>> {
    Seq::new(l.len(), |k: int| flat4(l[k]))
}

/// The rasters of a list of 8x8 matrices.
pub open spec fn all_flat8(l: Seq<[[i32; 8]; 8]>) -> Seq<Seq<i32>> {
    Seq::new(l.len(), |k: int| flat8(l[k]))
}

fn default_4x4(i: usize) -> (m: [[i32; 4]; 4])
    requires
        i < 6,
    ensures
        flat4(m) == raster(i as int, default_list(i as int)),
{
    proof {
        law_default_lists();
    }
    if i < 3 {
        scan_to_raster_4x4(&DEFAULT_4X4_INTRA)
    } else {
        scan_to_raster_4x4(&DEFAULT_4X4_INTER)
    }
}

fn default_8x8(i: usize) -> (m: [[i32; 8]; 8])
    requires
        i >= 6,
    ensures
        flat8(m) == raster(i as int, default_list(i as int)),
{
    proof {
        law_default_lists();
    }
    if i == 6 {
        scan_to_raster_8x8(&DEFAULT_8X8_INTRA)
    } else {
        scan_to_raster_8x8(&DEFAULT_8X8_INTER)
    }
}

fn parse_4x4(reader: &mut BitReader<'_>, i: usize, l4: &Vec<[[i32; 4]; 4]>, Ghost(l8): Ghost<Seq<Seq<i32>>>) -> (r: Result<
    [[i32; 4]; 4],
    ReadError,
>)
    requires
        i < 6,
        l4@.len() == i,
    ensures
        match r {
            Ok(m) => one_matrix(old(reader)@, i as int, all_flat4(l4@), l8) == (flat4(m), final(reader)@),
            Err(e) => one_matrix(old(reader)@, i as int, all_flat4(l4@), l8).1 == (Cursor {
                err: Some(e),
                ..final(reader)@
            }),
        },
        final(reader)@.err is None,
{
    let present: bool = reader.read_bit()?;
    if !present {
        if i == 0 || i == 3 {
            return Ok(default_4x4(i));
        }
        return Ok(l4[i - 1]);
    }
    let (scan, dflt) = parse_scaling_list(reader, 16)?;
    if dflt {
        Ok(default_4x4(i))
    } else {
        Ok(scan_to_raster_4x4(scan.as_slice()))
    }
}

fn parse_8x8(reader: &mut BitReader<'_>, i: usize, l8: &Vec<[[i32; 8]; 8]>, Ghost(l4): Ghost<Seq<Seq<i32>>>) -> (r: Result<
    [[i32; 8]; 8],
    ReadError,
>)
    requires
        i >= 6,
        l8@.len() == i - 6,
    ensures
        match r {
            Ok(m) => one_matrix(old(reader)@, i as int, l4, all_flat8(l8@)) == (flat8(m), final(reader)@),
            Err(e) => one_matrix(old(reader)@, i as int, l4, all_flat8(l8@)).1 == (Cursor {
                err: Some(e),
                ..final(reader)@
            }),
        },
        final(reader)@.err is None,
{
    let present: bool = reader.read_bit()?;
    if !present {
        if i == 6 || i == 7 {
            return Ok(default_8x8(i));
        }
        return Ok(l8[i - 8]);
    }
    let (scan, dflt) = parse_scaling_list(reader, 64)?;
    if dflt {
        Ok(default_8x8(i))
    } else {
        Ok(scan_to_raster_8x8(scan.as_slice()))
    }
}

/// Parse a scaling matrix of `count` lists (8 for 4:2:0, 12 for 4:4:4, whose
/// further chroma lists are not kept), with the fall-back rules applied.
pub fn parse_scaling_matrix(reader: &mut BitReader<'_>, count: usize) -> (r: Result<
    ScalingLists,
    ReadError,
>)
    ensures
        reads_view(r, final(reader)@, scaling_matrix(old(reader)@, count as int)),
{
    proof {
        reveal(scaling_matrix);
    }
    let ghost start = reader@;
    let mut l4: Vec<[[i32; 4]; 4]> = Vec::new();
    let mut l8: Vec<[[i32; 8]; 8]> = Vec::new();
    let mut i: usize = 0;
    let _left: bool = reader.byte_aligned();
    assert(all_flat4(l4@) =~= Seq::<Seq<i32>>::empty());
    assert(all_flat8(l8@) =~= Seq::<Seq<i32>>::empty());
    while i < count
        invariant
            i <= count,
            l4@.len() == (if i < 6 {
                i as int
            } else {
                6
            }),
            l8@.len() == (if i < 6 {
                0
            } else {
                i - 6
            }),
            start == old(reader)@,
            reader@.err is None,
            matrices(reader@, i as int, count as int, all_flat4(l4@), all_flat8(l8@)) == matrices(
                start,
                0,
                count as int,
                Seq::empty(),
                Seq::empty(),
            ),
        decreases count - i,
    {
        proof {
            reveal(scaling_matrix);
        }
        let ghost (o4, o8) = (all_flat4(l4@), all_flat8(l8@));
        if i < 6 {
            let m = parse_4x4(reader, i, &l4, Ghost(o8))?;
            l4.push(m);
            assert(all_flat4(l4@) =~= o4.push(flat4(m)));
        } else {
            let m = parse_8x8(reader, i, &l8, Ghost(o4))?;
            l8.push(m);
            assert(all_flat8(l8@) =~= o8.push(flat8(m)));
        }
        i = i + 1;
    }
    let zero4: [[i32; 4]; 4] = [[0i32; 4]; 4];
    let zero8: [[i32; 8]; 8] = [[0i32; 8]; 8];
    let mut list_4x4: [[[i32; 4]; 4]; 6] = [zero4; 6];
    let mut k: usize = 0;
    while k < 6 && k < l4.len()
        invariant
            k <= 6,
            k <= l4@.len(),
            forall|j: int| 0 <= j < k ==> #[trigger] list_4x4[j] == l4@[j],
            forall|j: int| k <= j < 6 ==> #[trigger] list_4x4[j] == zero4,
        decreases 6 - k,
    {
        list_4x4[k] = l4[k];
        k = k + 1;
    }
    let ghost n4 = k;
    let mut list_8x8: [[[i32; 8]; 8]; 2] = [zero8; 2];
    let mut k: usize = 0;
    while k < 2 && k < l8.len()
        invariant
            k <= 2,
            k <= l8@.len(),
            forall|j: int| 0 <= j < k ==> #[trigger] list_8x8[j] == l8@[j],
            forall|j: int| k <= j < 2 ==> #[trigger] list_8x8[j] == zero8,
        decreases 2 - k,
    {
        list_8x8[k] = l8[k];
        k = k + 1;
    }
    let lists = ScalingLists { list_4x4, list_8x8 };
    proof {
        assert(flat4(zero4) =~= Seq::new(16, |p: int| 0i32));
        assert(flat8(zero8) =~= Seq::new(64, |p: int| 0i32));
        let want = scaling_matrix(start, count as int).0;
        assert(lists@.l4 =~= want.l4);
        assert(lists@.l8 =~= want.l8);
    }
    Ok(lists)
}

/// The flat 4x4 lists.
pub const FLAT_LISTS_4X4: [[[i32; 4]; 4]; 6] = [
    [[16, 16, 16, 16], [16, 16, 16, 16], [16, 16, 16, 16], [16, 16, 16, 16]],
    [[16, 16, 16, 16], [16, 16, 16, 16], [16, 16, 16, 16], [16, 16, 16, 16]],
    [[16, 16, 16, 16], [16, 16, 16, 16], [16, 16, 16, 16], [16, 16, 16, 16]],
    [[16, 16, 16, 16], [16, 16, 16, 16], [16, 16, 16, 16], [16, 16, 16, 16]],
    [[16, 16, 16, 16], [16, 16, 16, 16], [16, 16, 16, 16], [16, 16, 16, 16]],
    [[16, 16, 16, 16], [16, 16, 16, 16], [16, 16, 16, 16], [16, 16, 16, 16]],
];

/// The flat 8x8 lists.
pub const FLAT_LISTS_8X8: [[[i32; 8]; 8]; 2] = [
    [
        [16, 16, 16, 16, 16, 16, 16, 16],
        [16, 16, 16, 16, 16, 16, 16, 16],
        [16, 16, 16, 16, 16, 16, 16, 16],
        [16, 16, 16, 16, 16, 16, 16, 16],
        [16, 16, 16, 16, 16, 16, 16, 16],
        [16, 16, 16, 16, 16, 16, 16, 16],
        [16, 16, 16, 16, 16, 16, 16, 16],
        [16, 16, 16, 16, 16, 16, 16, 16],
    ],
    [
        [16, 16, 16, 16, 16, 16, 16, 16],
        [16, 16, 16, 16, 16, 16, 16, 16],
        [16, 16, 16, 16, 16, 16, 16, 16],
        [16, 16, 16, 16, 16, 16, 16, 16],
        [16, 16, 16, 16, 16, 16, 16, 16],
        [16, 16, 16, 16, 16, 16, 16, 16],
        [16, 16, 16, 16, 16, 16, 16, 16],
        [16, 16, 16, 16, 16, 16, 16, 16],
    ],
];

/// The lists of a stream without scaling matrices.
pub open spec fn flat_lists() -> ScalingLists {
    ScalingLists { list_4x4: FLAT_LISTS_4X4, list_8x8: FLAT_LISTS_8X8 }
}

impl ScalingLists {
    /// All weights 16: the lists of a stream without scaling matrices.
    pub fn flat() -> (r: Self)
        ensures
            r == flat_lists(),
            forall|k: int, i: int, j: int|
                0 <= k < 6 && 0 <= i < 4 && 0 <= j < 4 ==> #[trigger] r.list_4x4[k][i][j] == 16,
            forall|k: int, i: int, j: int|
                0 <= k < 2 && 0 <= i < 8 && 0 <= j < 8 ==> #[trigger] r.list_8x8[k][i][j] == 16,
    {
        ScalingLists { list_4x4: FLAT_LISTS_4X4, list_8x8: FLAT_LISTS_8X8 }
    }

    /// The weights of 8x8 intra luma blocks.
    pub fn intra_8x8_luma(&self) -> (r: &[[i32; 8]; 8])
        ensures
            *r == self.list_8x8[0],
    {
        &self.list_8x8[0]
    }
}

} // verus!

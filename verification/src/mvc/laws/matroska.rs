//! Matroska files: elements as they are written, and what the readers take from each.

use crate::mvc::ebml::{
    be, element, ending, number, payload, skipped, unmarked, vint_id, vint_len, vint_size,
};
use crate::mvc::mkv_extract::{
    addition, additions, annexed, block_frame, block_track, cluster, clusters, entry_track, extracted, group,
    mvc_track, prefixed, segment, tracks_track, Extract, ExtractError, ExtractionStats,
};
use crate::mvc::mvcc::{
    child, entry_info, entry_mvcc, found, mapping, record, tracks, tracks_info, tracks_mvcc,
    unit_list, video_mode, RecordData, StereoInfo,
};
use crate::mvc::mvcc::{file_info, file_mvcc};
use vstd::prelude::*;

verus! {

/// A number in so many bytes, the highest first.
pub open spec fn bytes_of(n: int, k: nat) -> Seq<u8>
    decreases k,
{
    if k == 0 {
        Seq::empty()
    } else {
        bytes_of(n / 256, (k - 1) as nat).push((n % 256) as u8)
    }
}

/// Whether a number can be written in so many bytes.
pub open spec fn fits(n: int, k: nat) -> bool
    decreases k,
{
    if k == 0 {
        n == 0
    } else {
        n >= 0 && fits(n / 256, (k - 1) as nat)
    }
}

/// Whether the bytes `s` stand at `pos`.
pub open spec fn held(d: Seq<u8>, pos: int, s: Seq<u8>) -> bool {
    &&& 0 <= pos
    &&& pos + s.len() <= d.len()
    &&& forall|i: int| 0 <= i < s.len() ==> d[pos + i] == #[trigger] s[i]
}

/// An element as it is written: its identifier, its size in eight bytes, its body.
pub open spec fn written(id: Seq<u8>, body: Seq<u8>) -> Seq<u8> {
    id + seq![1u8] + bytes_of(body.len() as int, 7) + body
}

/// Whether an element with this identifier and body stands at `pos`.
pub open spec fn stands(d: Seq<u8>, pos: int, id: Seq<u8>, body: Seq<u8>) -> bool {
    &&& d.len() <= u64::MAX
    &&& 1 <= id.len() <= 4
    &&& id[0] != 0
    &&& id.len() == vint_len(id[0])
    &&& fits(body.len() as int, 7)
    &&& held(d, pos, written(id, body))
}

/// Where the body of an element at `pos` begins.
pub open spec fn inside(pos: int, id: Seq<u8>) -> int {
    pos + id.len() + 8
}

/// Where the element at `pos` ends.
pub open spec fn behind(pos: int, id: Seq<u8>, body: Seq<u8>) -> int {
    inside(pos, id) + body.len()
}

proof fn lemma_bytes_len(n: int, k: nat)
    ensures
        bytes_of(n, k).len() == k,
    decreases k,
{
    if k > 0 {
        lemma_bytes_len(n / 256, (k - 1) as nat);
    }
}

proof fn lemma_be(d: Seq<u8>, pos: int, n: int, k: nat)
    requires
        held(d, pos, bytes_of(n, k)),
        fits(n, k),
    ensures
        be(d, pos, k) == n,
    decreases k,
{
    lemma_bytes_len(n, k);
    if k > 0 {
        let b = bytes_of(n, k);
        let s = bytes_of(n / 256, (k - 1) as nat);
        lemma_bytes_len(n / 256, (k - 1) as nat);
        assert forall|i: int| 0 <= i < s.len() implies d[pos + i] == #[trigger] s[i] by {
            assert(b[i] == s[i]);
        }
        lemma_be(d, pos, n / 256, (k - 1) as nat);
        assert(d[pos + (k - 1)] == b[k - 1]);
    }
}

proof fn lemma_lead(d: Seq<u8>, pos: int, k: nat)
    requires
        d[pos] == 0,
    ensures
        be(d, pos, k + 1) == be(d, pos + 1, k),
    decreases k,
{
    if k > 0 {
        lemma_lead(d, pos, (k - 1) as nat);
    } else {
        assert(be(d, pos, 0) == 0);
    }
}

proof fn lemma_be_same(d: Seq<u8>, p: int, e: Seq<u8>, q: int, k: nat)
    requires
        forall|i: int| 0 <= i < k ==> d[p + i] == #[trigger] e[q + i],
    ensures
        be(d, p, k) == be(e, q, k),
    decreases k,
{
    if k > 0 {
        lemma_be_same(d, p, e, q, (k - 1) as nat);
        assert(e[q + (k - 1)] == d[p + (k - 1)]);
    }
}

proof fn lemma_known(d: Seq<u8>, pos: int, id: Seq<u8>, body: Seq<u8>)
    requires
        stands(d, pos, id, body),
    ensures
        ({
            let (p, q) = (inside(pos, id), behind(pos, id, body));
            &&& vint_id(d, pos) == Ok::<(int, int), crate::mvc::ebml::EbmlError>(
                (be(id, 0, id.len()), pos + id.len()),
            )
            &&& vint_size(d, pos + id.len()) == Ok::<(int, int), crate::mvc::ebml::EbmlError>(
                (body.len() as int, p),
            )
            &&& element(d, pos) == Ok::<(int, int, int), crate::mvc::ebml::EbmlError>(
                (be(id, 0, id.len()), body.len() as int, p),
            )
            &&& payload(d, p, body.len() as int) == Ok::<(Seq<u8>, int), crate::mvc::ebml::EbmlError>(
                (body, q),
            )
            &&& ending(p, body.len() as int) == q
            &&& skipped(p, body.len() as int) == Ok::<int, crate::mvc::ebml::EbmlError>(q)
            &&& pos < p <= q <= d.len()
        }),
{
    let n = body.len() as int;
    let s = bytes_of(n, 7);
    lemma_bytes_len(n, 7);
    let w = written(id, body);
    let at = pos + id.len();
    let p = inside(pos, id);
    assert forall|i: int| 0 <= i < id.len() implies d[pos + i] == #[trigger] id[i] by {
        assert(w[i] == id[i]);
    }
    assert(d[pos + 0] == id[0]);
    lemma_be_same(d, pos, id, 0, id.len());
    assert(w[id.len() as int] == 1);
    assert(d[at] == 1);
    let z = d.update(at, 0u8);
    assert forall|i: int| 0 <= i < s.len() implies z[at + 1 + i] == #[trigger] s[i] by {
        assert(w[id.len() + 1 + i] == s[i]);
        assert(d[pos + (id.len() + 1 + i)] == s[i]);
    }
    lemma_be(z, at + 1, n, 7);
    lemma_lead(z, at, 7);
    assert(be(z, at, 8) == n);
    assert(d.subrange(p, p + n) =~= body) by {
        assert forall|i: int| 0 <= i < n implies d[p + i] == body[i] by {
            assert(w[id.len() + 8 + i] == body[i]);
            assert(d[pos + (id.len() + 8 + i)] == body[i]);
        }
    }
    if n == 0 {
        assert(body =~= Seq::empty());
    }
}

proof fn lemma_number(d: Seq<u8>, pos: int, id: Seq<u8>, v: u64, k: nat)
    requires
        stands(d, pos, id, bytes_of(v as int, k)),
        fits(v as int, k),
    ensures
        number(d, inside(pos, id), k as int) == Ok::<(u64, int), crate::mvc::ebml::EbmlError>(
            (v, inside(pos, id) + k),
        ),
{
    let body = bytes_of(v as int, k);
    lemma_known(d, pos, id, body);
    lemma_bytes_len(v as int, k);
    lemma_be(body, 0, v as int, k);
}

/// The length of a variable number is given by the place of the highest set bit in
/// its first byte, which is no part of the value.
pub proof fn law_length_markers(b: u8)
    ensures
        b >= 128 ==> vint_len(b) == 1 && unmarked(b) == b - 128,
        0 < b < 128 ==> vint_len((2 * b) as u8) == vint_len(b) - 1 && unmarked((2 * b) as u8) == 2
            * unmarked(b),
        vint_len(1) == 8,
{
}

/// Numbers have their highest byte first.
pub proof fn law_written_numbers(d: Seq<u8>, pos: int, n: int, k: nat)
    requires
        held(d, pos, bytes_of(n, k)),
        fits(n, k),
    ensures
        be(d, pos, k) == n,
{
    lemma_be(d, pos, n, k);
}

/// A variable number of one byte holds seven bits, and one of two bytes fourteen.
pub proof fn law_short_sizes(d: Seq<u8>, pos: int)
    requires
        0 <= pos,
        pos + 1 < d.len(),
    ensures
        d[pos] >= 128 ==> vint_size(d, pos) == Ok::<(int, int), crate::mvc::ebml::EbmlError>(
            (d[pos] - 128, pos + 1),
        ),
        64 <= d[pos] < 128 ==> vint_size(d, pos) == Ok::<(int, int), crate::mvc::ebml::EbmlError>(
            (256 * (d[pos] - 64) + d[pos + 1], pos + 2),
        ),
{
    reveal_with_fuel(be, 3);
}

/// A written element comes back: its identifier with the marker, its size, and its
/// body.
pub proof fn law_written_elements(d: Seq<u8>, pos: int, id: Seq<u8>, body: Seq<u8>)
    requires
        stands(d, pos, id, body),
    ensures
        element(d, pos) == Ok::<(int, int, int), crate::mvc::ebml::EbmlError>(
            (be(id, 0, id.len()), body.len() as int, inside(pos, id)),
        ),
        payload(d, inside(pos, id), body.len() as int) == Ok::<
            (Seq<u8>, int),
            crate::mvc::ebml::EbmlError,
        >((body, behind(pos, id, body))),
{
    lemma_known(d, pos, id, body);
}

proof fn lemma_id(id: Seq<u8>, a: u8)
    requires
        id == seq![a],
    ensures
        be(id, 0, id.len()) == a,
{
    reveal_with_fuel(be, 2);
}

proof fn lemma_id_2(id: Seq<u8>, a: u8, b: u8)
    requires
        id == seq![a, b],
    ensures
        be(id, 0, id.len()) == 256 * a + b,
{
    reveal_with_fuel(be, 3);
}

proof fn lemma_id_4(id: Seq<u8>, a: u8, b: u8, c: u8, e: u8)
    requires
        id == seq![a, b, c, e],
    ensures
        be(id, 0, id.len()) == 0x100_0000 * a + 0x1_0000 * b + 256 * c + e,
{
    reveal_with_fuel(be, 5);
}

proof fn lemma_distinct(a: Seq<u8>, b: Seq<u8>)
    requires
        1 <= a.len() <= 4,
        1 <= b.len() <= 4,
        a[0] != 0,
        b[0] != 0,
        a.len() == vint_len(a[0]),
        b.len() == vint_len(b[0]),
        a != b,
    ensures
        be(a, 0, a.len()) != be(b, 0, b.len()),
{
    reveal_with_fuel(be, 5);
    if a.len() == b.len() && be(a, 0, a.len()) == be(b, 0, b.len()) {
        assert forall|i: int| 0 <= i < a.len() implies a[i] == b[i] by {}
        assert(a =~= b);
    }
}

/// In a cluster a simple block (A3) of the track gives a frame of the base view, a group
/// (A0) one of both views where it has one; other elements are passed over.
pub proof fn law_cluster_elements(d: Seq<u8>, pos: int, end: int, track: int, n: int, x: Extract, id: Seq<u8>, body: Seq<u8>)
    requires
        stands(d, pos, id, body),
        pos < end,
    ensures
        ({
            let (p, q) = (inside(pos, id), behind(pos, id, body));
            &&& id == seq![0xA3u8] ==> match block_frame(body, track) {
                Err(e) => cluster(d, pos, end, track, n, x) == (x, Err::<(), ExtractError>(e), q),
                Ok(Some(f)) => cluster(d, pos, end, track, n, x) == cluster(
                    d,
                    q,
                    end,
                    track,
                    n,
                    x.frame(f, None, n),
                ),
                Ok(None) => cluster(d, pos, end, track, n, x) == cluster(d, q, end, track, n, x),
            }
            &&& id == seq![0xA0u8] ==> match group(d, p, q, track, None, None) {
                (Err(e), r) => cluster(d, pos, end, track, n, x) == (x, Err::<(), ExtractError>(e), r),
                (Ok((Some(b), dep)), r) => cluster(d, pos, end, track, n, x) == cluster(
                    d,
                    r,
                    end,
                    track,
                    n,
                    x.frame(b, dep, n),
                ),
                (Ok((None, _)), r) => cluster(d, pos, end, track, n, x) == cluster(
                    d,
                    r,
                    end,
                    track,
                    n,
                    x,
                ),
            }
            &&& id != seq![0xA3u8] && id != seq![0xA0u8] ==> cluster(d, pos, end, track, n, x) == cluster(d, q, end, track, n, x)
        }),
{
    lemma_known(d, pos, id, body);
    lemma_id(seq![0xA3u8], 0xA3);
    lemma_id(seq![0xA0u8], 0xA0);
    if id != seq![0xA3u8] {
        lemma_distinct(id, seq![0xA3u8]);
    }
    if id != seq![0xA0u8] {
        lemma_distinct(id, seq![0xA0u8]);
    }
}

/// In a group the block (A1) holds the base frame and the additions (75A1) the dependent
/// one.
pub proof fn law_group_elements(d: Seq<u8>, pos: int, end: int, track: int, base: Option<Seq<u8>>, dep: Option<Seq<u8>>, id: Seq<u8>, body: Seq<u8>)
    requires
        stands(d, pos, id, body),
        pos < end,
    ensures
        ({
            let (p, q) = (inside(pos, id), behind(pos, id, body));
            &&& id == seq![0xA1u8] ==> match block_frame(body, track) {
                Err(e) => group(d, pos, end, track, base, dep).0 is Err,
                Ok(Some(f)) => group(d, pos, end, track, base, dep) == group(
                    d,
                    q,
                    end,
                    track,
                    Some(f),
                    dep,
                ),
                Ok(None) => group(d, pos, end, track, base, dep) == group(d, q, end, track, base, dep),
            }
            &&& id == seq![0x75u8, 0xA1u8] ==> match additions(d, p, q, None) {
                (Err(e), r) => group(d, pos, end, track, base, dep).0 is Err,
                (Ok(Some(b)), r) => group(d, pos, end, track, base, dep) == group(
                    d,
                    r,
                    end,
                    track,
                    base,
                    Some(b),
                ),
                (Ok(None), r) => group(d, pos, end, track, base, dep) == group(
                    d,
                    r,
                    end,
                    track,
                    base,
                    dep,
                ),
            }
            &&& id != seq![0xA1u8] && id != seq![0x75u8, 0xA1u8] ==> group(d, pos, end, track, base, dep) == group(d, q, end, track, base, dep)
        }),
{
    lemma_known(d, pos, id, body);
    lemma_id(seq![0xA1u8], 0xA1);
    lemma_id_2(seq![0x75u8, 0xA1u8], 0x75, 0xA1);
    if id != seq![0xA1u8] {
        lemma_distinct(id, seq![0xA1u8]);
    }
    if id != seq![0x75u8, 0xA1u8] {
        lemma_distinct(id, seq![0x75u8, 0xA1u8]);
    }
}

/// Of the additions (A6) those count that have the number 1 or none, the last of them.
pub proof fn law_additions_elements(d: Seq<u8>, pos: int, end: int, chosen: Option<Seq<u8>>, id: Seq<u8>, body: Seq<u8>)
    requires
        stands(d, pos, id, body),
        pos < end,
    ensures
        ({
            let (p, q) = (inside(pos, id), behind(pos, id, body));
            &&& id == seq![0xA6u8] ==> match addition(d, p, q, None, None) {
                (Err(e), r) => additions(d, pos, end, chosen).0 is Err,
                (Ok((k, Some(b))), r) => if k is None || k == Some(1u64) {
                    additions(d, pos, end, chosen) == additions(d, r, end, Some(b))
                } else {
                    additions(d, pos, end, chosen) == additions(d, r, end, chosen)
                },
                (Ok((_, None)), r) => additions(d, pos, end, chosen) == additions(d, r, end, chosen),
            }
            &&& id != seq![0xA6u8] ==> additions(d, pos, end, chosen) == additions(d, q, end, chosen)
        }),
{
    lemma_known(d, pos, id, body);
    lemma_id(seq![0xA6u8], 0xA6);
    if id != seq![0xA6u8] {
        lemma_distinct(id, seq![0xA6u8]);
    }
}

/// An addition has its number in EE and its bytes in A5.
pub proof fn law_addition_elements(d: Seq<u8>, pos: int, end: int, k: Option<u64>, data: Option<Seq<u8>>, v: u64, id: Seq<u8>, body: Seq<u8>)
    requires
        stands(d, pos, id, body),
        pos < end,
    ensures
        ({
            let (p, q) = (inside(pos, id), behind(pos, id, body));
            &&& id == seq![0xEEu8] ==> (body == bytes_of(v as int, body.len()) && fits(v as int, body.len()) ==> addition(d, pos, end, k, data)
                == addition(d, q, end, Some(v), data))
            &&& id == seq![0xA5u8] ==> addition(d, pos, end, k, data) == addition(d, q, end, k, Some(body))
            &&& id != seq![0xEEu8] && id != seq![0xA5u8] ==> addition(d, pos, end, k, data) == addition(d, q, end, k, data)
        }),
{
    lemma_known(d, pos, id, body);
    lemma_id(seq![0xEEu8], 0xEE);
    lemma_id(seq![0xA5u8], 0xA5);
    if id != seq![0xEEu8] {
        lemma_distinct(id, seq![0xEEu8]);
    }
    if id != seq![0xA5u8] {
        lemma_distinct(id, seq![0xA5u8]);
    }
    if body == bytes_of(v as int, body.len()) && fits(v as int, body.len()) {
        lemma_number(d, pos, id, v, body.len());
    }
}

/// A segment is read cluster (1F43B675) by cluster.
pub proof fn law_segment_elements(d: Seq<u8>, pos: int, end: int, track: int, n: int, x: Extract, id: Seq<u8>, body: Seq<u8>)
    requires
        stands(d, pos, id, body),
        pos < end,
    ensures
        ({
            let (p, q) = (inside(pos, id), behind(pos, id, body));
            &&& id == seq![0x1Fu8, 0x43u8, 0xB6u8, 0x75u8] ==> match cluster(d, p, q, track, n, x) {
                (y, Err(e), r) => clusters(d, pos, end, track, n, x) == (y, Err::<(), ExtractError>(e), r),
                (y, Ok(_), r) => clusters(d, pos, end, track, n, x) == clusters(d, r, end, track, n, y),
            }
            &&& id != seq![0x1Fu8, 0x43u8, 0xB6u8, 0x75u8] ==> clusters(d, pos, end, track, n, x) == clusters(d, q, end, track, n, x)
        }),
{
    lemma_known(d, pos, id, body);
    lemma_id_4(seq![0x1Fu8, 0x43u8, 0xB6u8, 0x75u8], 0x1F, 0x43, 0xB6, 0x75);
    if id != seq![0x1Fu8, 0x43u8, 0xB6u8, 0x75u8] {
        lemma_distinct(id, seq![0x1Fu8, 0x43u8, 0xB6u8, 0x75u8]);
    }
}

/// A file is searched for its segment (18538067), and the segment for its tracks
/// (1654AE6B).
pub proof fn law_file_elements(d: Seq<u8>, pos: int, id: Seq<u8>, body: Seq<u8>)
    requires
        stands(d, pos, id, body),
    ensures
        ({
            let (p, q) = (inside(pos, id), behind(pos, id, body));
            &&& id == seq![0x18u8, 0x53u8, 0x80u8, 0x67u8] ==> ({
                &&& found(d, pos, 0x1853_8067) == (Ok::<Option<int>, crate::mvc::ebml::EbmlError>(Some(body.len() as int)), p)
                &&& tracks(d, pos) == child(d, p, q, 0x1654_AE6B)
                &&& forall|track: int, n: int, x: Extract|
                    #[trigger] segment(d, pos, track, n, x) == clusters(d, p, q, track, n, x)
            })
            &&& id != seq![0x18u8, 0x53u8, 0x80u8, 0x67u8] ==> ({
                &&& found(d, pos, 0x1853_8067) == found(d, q, 0x1853_8067)
                &&& tracks(d, pos) == tracks(d, q)
                &&& forall|track: int, n: int, x: Extract|
                    #[trigger] segment(d, pos, track, n, x) == segment(d, q, track, n, x)
            })
        }),
{
    lemma_known(d, pos, id, body);
    lemma_id_4(seq![0x18u8, 0x53u8, 0x80u8, 0x67u8], 0x18, 0x53, 0x80, 0x67);
    if id != seq![0x18u8, 0x53u8, 0x80u8, 0x67u8] {
        lemma_distinct(id, seq![0x18u8, 0x53u8, 0x80u8, 0x67u8]);
    }
}

/// The tracks are found among the elements of the segment.
pub proof fn law_tracks_element(d: Seq<u8>, pos: int, end: int, id: Seq<u8>, body: Seq<u8>)
    requires
        stands(d, pos, id, body),
        pos < end,
    ensures
        ({
            let (p, q) = (inside(pos, id), behind(pos, id, body));
            &&& id == seq![0x16u8, 0x54u8, 0xAEu8, 0x6Bu8] ==> child(d, pos, end, 0x1654_AE6B) == (Ok::<Option<int>, crate::mvc::ebml::EbmlError>(Some(q)), p)
            &&& id != seq![0x16u8, 0x54u8, 0xAEu8, 0x6Bu8] ==> child(d, pos, end, 0x1654_AE6B) == child(d, q, end, 0x1654_AE6B)
        }),
{
    lemma_known(d, pos, id, body);
    lemma_id_4(seq![0x16u8, 0x54u8, 0xAEu8, 0x6Bu8], 0x16, 0x54, 0xAE, 0x6B);
    if id != seq![0x16u8, 0x54u8, 0xAEu8, 0x6Bu8] {
        lemma_distinct(id, seq![0x16u8, 0x54u8, 0xAEu8, 0x6Bu8]);
    }
}

/// Each track has an entry (AE); the first one with a number and a decoder
/// configuration is taken.
pub proof fn law_track_entries(d: Seq<u8>, pos: int, end: int, id: Seq<u8>, body: Seq<u8>)
    requires
        stands(d, pos, id, body),
        pos < end,
    ensures
        ({
            let (p, q) = (inside(pos, id), behind(pos, id, body));
            &&& id == seq![0xAEu8] ==> match entry_track(d, p, q, None, None) {
                (Ok(Some(t)), r) => tracks_track(d, pos, end) == (
                    Ok::<Option<(u64, Seq<u8>)>, crate::mvc::ebml::EbmlError>(Some(t)),
                    r,
                ),
                (Ok(None), _) => tracks_track(d, pos, end) == tracks_track(d, q, end),
                (Err(_), _) => tracks_track(d, pos, end).0 is Err,
            }
            &&& id != seq![0xAEu8] ==> tracks_track(d, pos, end) == tracks_track(d, q, end)
        }),
{
    lemma_known(d, pos, id, body);
    lemma_id(seq![0xAEu8], 0xAE);
    if id != seq![0xAEu8] {
        lemma_distinct(id, seq![0xAEu8]);
    }
}

/// An entry has the number of its track in D7, and a decoder configuration in a block
/// addition mapping (41E4).
pub proof fn law_entry_elements(d: Seq<u8>, pos: int, end: int, num: Option<u64>, mvcc: Option<Seq<u8>>, v: u64, id: Seq<u8>, body: Seq<u8>)
    requires
        stands(d, pos, id, body),
        pos < end,
    ensures
        ({
            let (p, q) = (inside(pos, id), behind(pos, id, body));
            &&& id == seq![0xD7u8] ==> (body == bytes_of(v as int, body.len()) && fits(v as int, body.len()) ==> entry_track(d, pos, end, num, mvcc)
                == entry_track(d, q, end, Some(v), mvcc))
            &&& id == seq![0x41u8, 0xE4u8] ==> match mapping(d, p, q, None, None) {
                (Err(_), _) => entry_track(d, pos, end, num, mvcc).0 is Err,
                (Ok(Some(b)), _) => entry_track(d, pos, end, num, mvcc) == entry_track(
                    d,
                    q,
                    end,
                    num,
                    Some(b),
                ),
                (Ok(None), _) => entry_track(d, pos, end, num, mvcc) == entry_track(d, q, end, num, mvcc),
            }
            &&& id != seq![0xD7u8] && id != seq![0x41u8, 0xE4u8] ==> entry_track(d, pos, end, num, mvcc) == entry_track(d, q, end, num, mvcc)
        }),
{
    lemma_known(d, pos, id, body);
    lemma_id(seq![0xD7u8], 0xD7);
    lemma_id_2(seq![0x41u8, 0xE4u8], 0x41, 0xE4);
    if id != seq![0xD7u8] {
        lemma_distinct(id, seq![0xD7u8]);
    }
    if id != seq![0x41u8, 0xE4u8] {
        lemma_distinct(id, seq![0x41u8, 0xE4u8]);
    }
    if body == bytes_of(v as int, body.len()) && fits(v as int, body.len()) {
        lemma_number(d, pos, id, v, body.len());
    }
}

/// A block addition mapping has its kind in 41E7 and its data in 41ED.
pub proof fn law_mapping_elements(d: Seq<u8>, pos: int, end: int, kind: Option<u64>, extra: Option<Seq<u8>>, v: u64, id: Seq<u8>, body: Seq<u8>)
    requires
        stands(d, pos, id, body),
        pos < end,
    ensures
        ({
            let (p, q) = (inside(pos, id), behind(pos, id, body));
            &&& id == seq![0x41u8, 0xE7u8] ==> (body == bytes_of(v as int, body.len()) && fits(v as int, body.len()) ==> mapping(d, pos, end, kind, extra)
                == mapping(d, q, end, Some(v), extra))
            &&& id == seq![0x41u8, 0xEDu8] ==> mapping(d, pos, end, kind, extra) == mapping(d, q, end, kind, Some(body))
            &&& id != seq![0x41u8, 0xE7u8] && id != seq![0x41u8, 0xEDu8] ==> mapping(d, pos, end, kind, extra) == mapping(d, q, end, kind, extra)
        }),
{
    lemma_known(d, pos, id, body);
    lemma_id_2(seq![0x41u8, 0xE7u8], 0x41, 0xE7);
    lemma_id_2(seq![0x41u8, 0xEDu8], 0x41, 0xED);
    if id != seq![0x41u8, 0xE7u8] {
        lemma_distinct(id, seq![0x41u8, 0xE7u8]);
    }
    if id != seq![0x41u8, 0xEDu8] {
        lemma_distinct(id, seq![0x41u8, 0xEDu8]);
    }
    if body == bytes_of(v as int, body.len()) && fits(v as int, body.len()) {
        lemma_number(d, pos, id, v, body.len());
    }
}

/// The first decoder configuration of an entry is its configuration, and the first
/// entry with one gives that of the file.
pub proof fn law_first_configuration(d: Seq<u8>, pos: int, end: int, id: Seq<u8>, body: Seq<u8>)
    requires
        stands(d, pos, id, body),
        pos < end,
    ensures
        ({
            let (p, q) = (inside(pos, id), behind(pos, id, body));
            &&& id == seq![0x41u8, 0xE4u8] ==> match mapping(d, p, q, None, None) {
                (Ok(Some(b)), r) => entry_mvcc(d, pos, end) == (
                    Ok::<Option<Seq<u8>>, crate::mvc::ebml::EbmlError>(Some(b)),
                    r,
                ),
                (Ok(None), _) => entry_mvcc(d, pos, end) == entry_mvcc(d, q, end),
                (Err(_), _) => entry_mvcc(d, pos, end).0 is Err,
            }
            &&& id == seq![0xAEu8] ==> match entry_mvcc(d, p, q) {
                (Ok(Some(b)), r) => tracks_mvcc(d, pos, end) == (
                    Ok::<Option<Seq<u8>>, crate::mvc::ebml::EbmlError>(Some(b)),
                    r,
                ),
                (Ok(None), _) => tracks_mvcc(d, pos, end) == tracks_mvcc(d, q, end),
                (Err(_), _) => tracks_mvcc(d, pos, end).0 is Err,
            }
            &&& id != seq![0x41u8, 0xE4u8] && id != seq![0xAEu8] ==> entry_mvcc(d, pos, end) == entry_mvcc(d, q, end) && tracks_mvcc(d, pos, end) == tracks_mvcc(d, q, end)
        }),
{
    lemma_known(d, pos, id, body);
    lemma_id_2(seq![0x41u8, 0xE4u8], 0x41, 0xE4);
    lemma_id(seq![0xAEu8], 0xAE);
    if id != seq![0x41u8, 0xE4u8] {
        lemma_distinct(id, seq![0x41u8, 0xE4u8]);
    }
    if id != seq![0xAEu8] {
        lemma_distinct(id, seq![0xAEu8]);
    }
}

/// The stereo mode is in 53B8 of the video element (E0); of several modes and
/// configurations the first ones stay.
pub proof fn law_stereo_elements(d: Seq<u8>, pos: int, end: int, info: StereoInfo, v: u64, id: Seq<u8>, body: Seq<u8>)
    requires
        stands(d, pos, id, body),
        pos < end,
    ensures
        ({
            let (p, q) = (inside(pos, id), behind(pos, id, body));
            &&& id == seq![0x53u8, 0xB8u8] ==> (body == bytes_of(v as int, body.len()) && fits(v as int, body.len()) ==> video_mode(d, pos, end, info.mode)
                == video_mode(
                d,
                q,
                end,
                if info.mode is Some {
                    info.mode
                } else {
                    Some(v)
                },
            ))
            &&& id == seq![0xE0u8] ==> match video_mode(d, p, q, info.mode) {
                (Err(_), _) => entry_info(d, pos, end, info).0 is Err,
                (Ok(m), r) => entry_info(d, pos, end, info) == entry_info(
                    d,
                    r,
                    end,
                    (StereoInfo { mode: m, mvcc: info.mvcc }),
                ),
            }
            &&& id == seq![0x41u8, 0xE4u8] ==> match mapping(d, p, q, None, None) {
                (Err(_), _) => entry_info(d, pos, end, info).0 is Err,
                (Ok(b), _) => entry_info(d, pos, end, info) == entry_info(
                    d,
                    q,
                    end,
                    (StereoInfo {
                        mode: info.mode,
                        mvcc: if info.mvcc is Some {
                            info.mvcc
                        } else {
                            b
                        },
                    }),
                ),
            }
            &&& id == seq![0xAEu8] ==> match entry_info(d, p, q, info) {
                (Err(_), _) => tracks_info(d, pos, end, info).0 is Err,
                (Ok(i), _) => tracks_info(d, pos, end, info) == tracks_info(d, q, end, i),
            }
            &&& id != seq![0x53u8, 0xB8u8] && id != seq![0xE0u8] && id != seq![0x41u8, 0xE4u8] && id != seq![0xAEu8] ==> ({
                &&& video_mode(d, pos, end, info.mode) == video_mode(d, q, end, info.mode)
                &&& entry_info(d, pos, end, info) == entry_info(d, q, end, info)
                &&& tracks_info(d, pos, end, info) == tracks_info(d, q, end, info)
            })
        }),
{
    lemma_known(d, pos, id, body);
    lemma_id_2(seq![0x53u8, 0xB8u8], 0x53, 0xB8);
    lemma_id(seq![0xE0u8], 0xE0);
    lemma_id_2(seq![0x41u8, 0xE4u8], 0x41, 0xE4);
    lemma_id(seq![0xAEu8], 0xAE);
    if id != seq![0x53u8, 0xB8u8] {
        lemma_distinct(id, seq![0x53u8, 0xB8u8]);
    }
    if id != seq![0xE0u8] {
        lemma_distinct(id, seq![0xE0u8]);
    }
    if id != seq![0x41u8, 0xE4u8] {
        lemma_distinct(id, seq![0x41u8, 0xE4u8]);
    }
    if id != seq![0xAEu8] {
        lemma_distinct(id, seq![0xAEu8]);
    }
    if body == bytes_of(v as int, body.len()) && fits(v as int, body.len()) {
        lemma_number(d, pos, id, v, body.len());
    }
}

/// What the readers hold at the end of their element is their answer: a mapping only
/// where its kind is `mvcC`, a track only with both of its parts.
pub proof fn law_ends(
    d: Seq<u8>,
    pos: int,
    end: int,
    kind: Option<u64>,
    extra: Option<Seq<u8>>,
    num: Option<u64>,
    info: StereoInfo,
)
    requires
        pos >= end,
    ensures
        mapping(d, pos, end, kind, extra).0 == Ok::<Option<Seq<u8>>, crate::mvc::ebml::EbmlError>(
            if kind == Some(0x6D76_6343u64) {
                extra
            } else {
                None
            },
        ),
        num is Some && extra is Some ==> entry_track(d, pos, end, num, extra).0 == Ok::<
            Option<(u64, Seq<u8>)>,
            crate::mvc::ebml::EbmlError,
        >(Some((num->0, extra->0))),
        num is None || extra is None ==> entry_track(d, pos, end, num, extra).0 == Ok::<
            Option<(u64, Seq<u8>)>,
            crate::mvc::ebml::EbmlError,
        >(None),
        tracks_track(d, pos, end).0 == Ok::<Option<(u64, Seq<u8>)>, crate::mvc::ebml::EbmlError>(None),
        entry_mvcc(d, pos, end).0 == Ok::<Option<Seq<u8>>, crate::mvc::ebml::EbmlError>(None),
        tracks_mvcc(d, pos, end).0 == Ok::<Option<Seq<u8>>, crate::mvc::ebml::EbmlError>(None),
        video_mode(d, pos, end, num).0 == Ok::<Option<u64>, crate::mvc::ebml::EbmlError>(num),
        entry_info(d, pos, end, info).0 == Ok::<StereoInfo, crate::mvc::ebml::EbmlError>(info),
        tracks_info(d, pos, end, info).0 == Ok::<StereoInfo, crate::mvc::ebml::EbmlError>(info),
        addition(d, pos, end, num, extra).0 == Ok::<
            (Option<u64>, Option<Seq<u8>>),
            crate::mvc::ebml::EbmlError,
        >((num, extra)),
        additions(d, pos, end, extra).0 == Ok::<Option<Seq<u8>>, crate::mvc::ebml::EbmlError>(extra),
{
}

/// A block has the track's number, a time and its flags in front of its frame; it
/// counts for its own track, and only without lacing.
pub proof fn law_block_frames(t: u8, a: u8, b: u8, flags: u8, frame: Seq<u8>, track: int)
    requires
        t < 128,
    ensures
        ({
            let block = seq![(128 + t) as u8, a, b, flags] + frame;
            let r = block_frame(block, track);
            &&& r is Ok
            &&& r->Ok_0 == (if track == t && flags / 2 % 4 == 0 {
                Some(frame)
            } else {
                None
            })
        }),
{
    let block = seq![(128 + t) as u8, a, b, flags] + frame;
    reveal_with_fuel(be, 2);
    assert(block[0] == 128 + t);
    assert(block[3] == flags);
    assert(block.skip(4) =~= frame);
    let z = block.update(0, unmarked(block[0]));
    assert(be(z, 0, 1) == t);
    assert(block_track(block) == Ok::<(int, int), ExtractError>((t as int, 1)));
}

/// The units of a frame have their lengths in front of them.
pub proof fn law_units_of_a_frame(d: Seq<u8>, at: int, u: Seq<u8>, n: nat)
    requires
        n >= 1,
        fits(u.len() as int, n),
        held(d, at, bytes_of(u.len() as int, n) + u),
    ensures
        prefixed(d, at, n as int) == seq![u] + prefixed(d, at + n + u.len(), n as int),
        prefixed(d, d.len() as int, n as int) == Seq::<Seq<u8>>::empty(),
{
    let b = bytes_of(u.len() as int, n);
    let w = b + u;
    lemma_bytes_len(u.len() as int, n);
    assert forall|i: int| 0 <= i < b.len() implies d[at + i] == #[trigger] b[i] by {
        assert(w[i] == b[i]);
    }
    lemma_be(d, at, u.len() as int, n);
    assert(d.subrange(at + n, at + n + u.len()) =~= u) by {
        assert forall|i: int| 0 <= i < u.len() implies d[at + n + i] == u[i] by {
            assert(w[n + i] == u[i]);
            assert(d[at + (n + i)] == w[n + i]);
        }
    }
}

/// Units are written behind start codes, in their order.
pub proof fn law_start_codes(u: Seq<u8>, rest: Seq<Seq<u8>>)
    ensures
        annexed(Seq::empty()) == Seq::<u8>::empty(),
        annexed(seq![u] + rest) == seq![0u8, 0u8, 0u8, 1u8] + u + annexed(rest),
{
    assert((seq![u] + rest).skip(1) =~= rest);
}

/// A frame is written as the units of the base view, then those of the dependent view,
/// and both are counted.
pub proof fn law_frames_are_written(x: Extract, base: Seq<u8>, dep: Seq<u8>, n: int)
    requires
        x.stats.frames < u64::MAX,
        x.stats.base_nals + prefixed(base, 0, n).len() <= u64::MAX,
        x.stats.dep_nals + prefixed(dep, 0, n).len() <= u64::MAX,
    ensures
        ({
            let (b, u) = (prefixed(base, 0, n), prefixed(dep, 0, n));
            let (one, two) = (x.frame(base, None, n), x.frame(base, Some(dep), n));
            &&& one.out == x.out + annexed(b)
            &&& two.out == x.out + annexed(b) + annexed(u)
            &&& one.stats.frames == x.stats.frames + 1 && two.stats.frames == x.stats.frames + 1
            &&& one.stats.base_nals == x.stats.base_nals + b.len() && two.stats.base_nals
                == one.stats.base_nals
            &&& one.stats.dep_nals == x.stats.dep_nals && two.stats.dep_nals == x.stats.dep_nals
                + u.len()
        }),
{
}

/// An extraction begins with the parameter sets of the decoder configuration, and goes
/// through the segment with the lengths that it gives.
pub proof fn law_extraction(d: Seq<u8>, out: Seq<u8>, r: RecordData)
    requires
        mvc_track(d).0 is Ok,
        record((mvc_track(d).0->Ok_0).1) == Ok::<RecordData, crate::mvc::mvcc::MvccError>(r),
    ensures
        extracted(d, out) == segment(
            d,
            0,
            (mvc_track(d).0->Ok_0).0 as int,
            r.length_size_minus_one + 1,
            (Extract {
                out: out + annexed(r.sps_nals) + annexed(r.pps_nals),
                stats: ExtractionStats { frames: 0, base_nals: 0, dep_nals: 0 },
            }),
        ),
{
}

/// The units of a decoder configuration: each behind its length in two bytes.
pub open spec fn listed(u: Seq<Seq<u8>>) -> Seq<u8>
    decreases u.len(),
{
    if u.len() == 0 {
        Seq::empty()
    } else {
        bytes_of(u[0].len() as int, 2) + u[0] + listed(u.skip(1))
    }
}

proof fn lemma_listed(d: Seq<u8>, pos: int, u: Seq<Seq<u8>>, seen: Seq<Seq<u8>>)
    requires
        held(d, pos, listed(u)),
        forall|k: int| 0 <= k < u.len() ==> (#[trigger] u[k]).len() < 0x1_0000,
    ensures
        unit_list(d, pos, u.len(), seen) == Ok::<(Seq<Seq<u8>>, int), crate::mvc::mvcc::MvccError>(
            (seen + u, pos + listed(u).len()),
        ),
    decreases u.len(),
{
    if u.len() == 0 {
        assert(seen + u =~= seen);
    } else {
        let n = u[0].len() as int;
        let (w, b, rest) = (listed(u), bytes_of(n, 2), listed(u.skip(1)));
        lemma_bytes_len(n, 2);
        assert(fits(n, 2)) by {
            reveal_with_fuel(fits, 3);
        }
        assert forall|i: int| 0 <= i < 2 implies d[pos + i] == #[trigger] b[i] by {
            assert(w[i] == b[i]);
        }
        lemma_be(d, pos, n, 2);
        let end = pos + 2 + n;
        assert(d.subrange(pos + 2, end) =~= u[0]) by {
            assert forall|i: int| 0 <= i < n implies d[pos + 2 + i] == u[0][i] by {
                assert(w[2 + i] == u[0][i]);
                assert(d[pos + (2 + i)] == w[2 + i]);
            }
        }
        assert forall|i: int| 0 <= i < rest.len() implies d[end + i] == #[trigger] rest[i] by {
            assert(w[2 + n + i] == rest[i]);
            assert(d[pos + (2 + n + i)] == w[2 + n + i]);
        }
        assert forall|k: int| 0 <= k < u.skip(1).len() implies (#[trigger] u.skip(1)[k]).len()
            < 0x1_0000 by {
            assert(u.skip(1)[k] == u[k + 1]);
        }
        lemma_listed(d, end, u.skip(1), seen.push(u[0]));
        assert(seen.push(u[0]) + u.skip(1) =~= seen + u);
    }
}

/// A written decoder configuration comes back: version, profile, compatibility and
/// level, the size of the lengths, the sequence parameter sets, the picture parameter
/// sets. The bits above the size and above the first count are free.
pub proof fn law_configuration_comes_back(r: RecordData, free: u8, mark: bool)
    requires
        r.length_size_minus_one < 4,
        free < 64,
        r.sps_nals.len() < 128,
        r.pps_nals.len() < 256,
        forall|k: int| 0 <= k < r.sps_nals.len() ==> (#[trigger] r.sps_nals[k]).len() < 0x1_0000,
        forall|k: int| 0 <= k < r.pps_nals.len() ==> (#[trigger] r.pps_nals[k]).len() < 0x1_0000,
    ensures
        record(
            seq![
                r.configuration_version,
                r.avc_profile_indication,
                r.profile_compatibility,
                r.avc_level_indication,
                (4 * free + r.length_size_minus_one) as u8,
                (r.sps_nals.len() + (if mark {
                    128int
                } else {
                    0
                })) as u8,
            ] + listed(r.sps_nals) + seq![r.pps_nals.len() as u8] + listed(r.pps_nals),
        ) == Ok::<RecordData, crate::mvc::mvcc::MvccError>(r),
{
    let head = seq![
        r.configuration_version,
        r.avc_profile_indication,
        r.profile_compatibility,
        r.avc_level_indication,
        (4 * free + r.length_size_minus_one) as u8,
        (r.sps_nals.len() + (if mark {
            128int
        } else {
            0
        })) as u8,
    ];
    let (a, b) = (listed(r.sps_nals), listed(r.pps_nals));
    let d = head + a + seq![r.pps_nals.len() as u8] + b;
    assert(forall|i: int| 0 <= i < 6 ==> d[i] == #[trigger] head[i]);
    assert(d[0] == head[0] && d[1] == head[1] && d[2] == head[2] && d[3] == head[3] && d[4] == head[4]
        && d[5] == head[5]);
    assert forall|i: int| 0 <= i < a.len() implies d[6 + i] == #[trigger] a[i] by {}
    lemma_listed(d, 6, r.sps_nals, Seq::empty());
    assert(Seq::<Seq<u8>>::empty() + r.sps_nals =~= r.sps_nals);
    let p = 6 + a.len() as int;
    assert(d[p] == r.pps_nals.len());
    assert forall|i: int| 0 <= i < b.len() implies d[p + 1 + i] == #[trigger] b[i] by {}
    lemma_listed(d, p + 1, r.pps_nals, Seq::empty());
    assert(Seq::<Seq<u8>>::empty() + r.pps_nals =~= r.pps_nals);
    assert(d[5] % 128 == r.sps_nals.len());
    assert(d[4] % 4 == r.length_size_minus_one);
}

/// The configuration and the stereo mode of a file are those of its tracks; a file
/// without tracks has none.
pub proof fn law_file_answers(d: Seq<u8>, pos: int)
    ensures
        ({
            let t = tracks(d, pos);
            &&& t.0 is Err ==> file_mvcc(d, pos).0 is Err && file_info(d, pos).0 is Err
            &&& t.0 == Ok::<Option<int>, crate::mvc::ebml::EbmlError>(None) ==> file_mvcc(d, pos).0
                == Ok::<Option<Seq<u8>>, crate::mvc::ebml::EbmlError>(None) && file_info(d, pos).0
                == Ok::<StereoInfo, crate::mvc::ebml::EbmlError>(
                (StereoInfo { mvcc: None, mode: None }),
            )
            &&& t.0 is Ok && t.0->Ok_0 is Some ==> file_mvcc(d, pos) == tracks_mvcc(
                d,
                t.1,
                t.0->Ok_0->0,
            ) && file_info(d, pos) == tracks_info(
                d,
                t.1,
                t.0->Ok_0->0,
                (StereoInfo { mvcc: None, mode: None }),
            )
        }),
{
}

} // verus!

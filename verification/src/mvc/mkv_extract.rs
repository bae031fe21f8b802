//! From a Matroska file whose dependent view lies in block additions to one
//! Annex B stream. Blocks hold the units of the base view, block additions those
//! of the dependent view, each behind a length; both become units behind start
//! codes, frame by frame, after the parameter sets of the configuration record.

use crate::mvc::annexb::{code_len, lemma_first_code, lemma_no_code, nal_units, trimmed, units};
use crate::mvc::bytes::copied;
use crate::mvc::ebml::id::{
    BLOCK, BLOCK_ADDITIONAL, BLOCK_ADDITIONS, BLOCK_ADDITION_MAPPING, BLOCK_ADD_ID, BLOCK_GROUP,
    BLOCK_MORE, CLUSTER, SEGMENT, SIMPLE_BLOCK, TRACK_ENTRY, TRACK_NUMBER,
};
use crate::mvc::ebml::{
    be, element, element_stop, ending, lemma_at, number, payload, room, run_out, skipped, unmarked,
    vint_len, EbmlError, EbmlReader,
};
use crate::mvc::mvcc::{
    find_tracks, found, lemma_elements, mapping, opt_bytes, parse, record, scan_mapping, strings, tracks,
    walk_to, MvccError, RecordData,
};
use vstd::prelude::*;

verus! {

/// The block addition that carries the dependent view.
pub const DEFAULT_BLOCK_ADD_ID: u64 = 1;

/// Why a stream cannot be extracted.
#[derive(Debug, Clone, Copy, PartialEq, Eq, Structural)]
pub enum ExtractError {
    /// An element cannot be read.
    Ebml(EbmlError),
    /// The configuration record cannot be parsed.
    Mvcc(MvccError),
    /// There is no track with a configuration record.
    NoTrack,
    /// There is no segment.
    NoSegment,
    /// A block is empty.
    EmptyVint,
    /// The track number of a block starts with a zero byte.
    InvalidVint,
    /// The track number of a block is longer than the block.
    LongVint,
    /// A block ends in its header.
    ShortBlock,
}

impl ExtractError {
    /// What the message says.
    pub open spec fn says(self) -> Seq<char> {
        match self {
            ExtractError::Ebml(e) => e.says(),
            ExtractError::Mvcc(_) => "parsing mvcC record"@,
            ExtractError::NoTrack => "no video track with mvcC BlockAdditionMapping found in MKV"@,
            ExtractError::NoSegment => "MKV has no Segment"@,
            ExtractError::EmptyVint => "empty VINT"@,
            ExtractError::InvalidVint => "invalid VINT (leading byte is 0)"@,
            ExtractError::LongVint => "VINT length not supported here"@,
            ExtractError::ShortBlock => "Block too short for header"@,
        }
    }

    /// The message shown to a user.
    pub fn message(&self) -> (s: String)
        ensures
            s@ == self.says(),
    {
        match self {
            ExtractError::Ebml(e) => e.message(),
            ExtractError::Mvcc(_) => "parsing mvcC record".to_owned(),
            ExtractError::NoTrack => {
                "no video track with mvcC BlockAdditionMapping found in MKV".to_owned()
            },
            ExtractError::NoSegment => "MKV has no Segment".to_owned(),
            ExtractError::EmptyVint => "empty VINT".to_owned(),
            ExtractError::InvalidVint => "invalid VINT (leading byte is 0)".to_owned(),
            ExtractError::LongVint => "VINT length not supported here".to_owned(),
            ExtractError::ShortBlock => "Block too short for header".to_owned(),
        }
    }
}

/// How much was extracted: frames, and units of each view, modulo 2^64.
#[derive(Debug, Clone, Copy, PartialEq, Eq, Structural)]
pub struct ExtractionStats {
    pub frames: u64,
    pub base_nals: u64,
    pub dep_nals: u64,
}

impl Default for ExtractionStats {
    fn default() -> (s: Self)
        ensures
            s == (ExtractionStats { frames: 0, base_nals: 0, dep_nals: 0 }),
    {
        ExtractionStats { frames: 0, base_nals: 0, dep_nals: 0 }
    }
}

// ---- units behind lengths ----

/// The units behind `n`-byte lengths from `at` on, up to the first one that is
/// not complete.
pub open spec fn prefixed(d: Seq<u8>, at: int, n: int) -> Seq<Seq<u8>>
    decreases d.len() - at,
    via prefixed_ends
{
    if n <= 0 || at < 0 || at + n > d.len() || at + n + be(d, at, n as nat) > d.len() {
        Seq::empty()
    } else {
        let end = at + n + be(d, at, n as nat);
        seq![d.subrange(at + n, end)] + prefixed(d, end, n)
    }
}

#[via_fn]
proof fn prefixed_ends(d: Seq<u8>, at: int, n: int) {
    if n > 0 {
        lemma_be_positive(d, at, n as nat);
    }
}

proof fn lemma_be_positive(d: Seq<u8>, from: int, n: nat)
    ensures
        0 <= be(d, from, n),
    decreases n,
{
    if n > 0 {
        lemma_be_positive(d, from, (n - 1) as nat);
    }
}

/// A start code.
pub open spec fn start_code() -> Seq<u8> {
    seq![0u8, 0u8, 0u8, 1u8]
}

/// Units behind start codes.
pub open spec fn annexed(u: Seq<Seq<u8>>) -> Seq<u8>
    decreases u.len(),
{
    if u.len() == 0 {
        Seq::empty()
    } else {
        start_code() + u[0] + annexed(u.skip(1))
    }
}

fn length_at(d: &[u8], at: usize, n: usize) -> (v: u64)
    requires
        at + n <= d@.len(),
        n <= 4,
    ensures
        v == be(d@, at as int, n as nat),
        v <= 0xffff_ffff,
{
    let len: usize = d.len();
    let mut v: u64 = 0;
    proof {
        reveal_with_fuel(be, 6);
    }
    for i in 0..n
        invariant
            len == d@.len(),
            at + n <= d@.len(),
            n <= 4,
            v == be(d@, at as int, i as nat),
            i == 0 ==> v == 0,
            i == 1 ==> v <= 0xff,
            i == 2 ==> v <= 0xffff,
            i == 3 ==> v <= 0xff_ffff,
            i == 4 ==> v <= 0xffff_ffff,
    {
        v = 256 * v + d[at + i] as u64;
    }
    v
}

fn next_unit(d: &[u8], at: usize, n: usize) -> (r: Option<(usize, usize)>)
    requires
        at <= d@.len(),
        1 <= n <= 4,
    ensures
        match r {
            Some((a, b)) => a == at + n && a <= b <= d@.len() && prefixed(
                d@,
                at as int,
                n as int,
            ) == seq![d@.subrange(a as int, b as int)] + prefixed(d@, b as int, n as int),
            None => prefixed(d@, at as int, n as int) == Seq::<Seq<u8>>::empty(),
        },
{
    let len: usize = d.len();
    if len - at < n {
        return None;
    }
    let v: u64 = length_at(d, at, n);
    let a: usize = at + n;
    if v > (len - a) as u64 {
        return None;
    }
    Some((a, a + v as usize))
}

fn push_unit(out: &mut Vec<u8>, nal: &[u8])
    ensures
        final(out)@ == old(out)@ + start_code() + nal@,
{
    let ghost was = out@;
    out.push(0);
    out.push(0);
    out.push(0);
    out.push(1);
    assert(out@ =~= was + start_code());
    out.extend_from_slice(nal);
    assert(out@ =~= was + start_code() + nal@);
}

/// Write the units of `data`, which stand behind lengths, behind start codes.
pub fn write_length_prefixed(out: &mut Vec<u8>, data: &[u8], length_size: usize)
    requires
        1 <= length_size <= 4,
    ensures
        final(out)@ == old(out)@ + annexed(prefixed(data@, 0, length_size as int)),
{
    let ghost want = out@ + annexed(prefixed(data@, 0, length_size as int));
    let mut at: usize = 0;
    loop
        invariant
            1 <= length_size <= 4,
            at <= data@.len(),
            want == old(out)@ + annexed(prefixed(data@, 0, length_size as int)),
            want == out@ + annexed(prefixed(data@, at as int, length_size as int)),
        decreases data@.len() - at,
    {
        match next_unit(data, at, length_size) {
            None => {
                assert(out@ + Seq::<u8>::empty() =~= out@);
                return;
            },
            Some((a, b)) => {
                let ghost rest = prefixed(data@, b as int, length_size as int);
                let ghost u = data@.subrange(a as int, b as int);
                let ghost was = out@;
                push_unit(out, vstd::slice::slice_subrange(data, a, b));
                proof {
                    let all = seq![u] + rest;
                    assert(all.skip(1) =~= rest);
                    assert(all[0] == u);
                    assert(was + (start_code() + u + annexed(rest)) =~= (was + start_code() + u)
                        + annexed(rest));
                }
                at = b;
            },
        }
    }
}

/// Count the units of `data`, which stand behind lengths.
pub fn count_length_prefixed(data: &[u8], length_size: usize) -> (n: u64)
    requires
        1 <= length_size <= 4,
    ensures
        n == prefixed(data@, 0, length_size as int).len(),
{
    let mut at: usize = 0;
    let mut count: u64 = 0;
    let len: usize = data.len();
    loop
        invariant
            1 <= length_size <= 4,
            len == data@.len(),
            at <= len,
            count <= at,
            count + prefixed(data@, at as int, length_size as int).len() == prefixed(
                data@,
                0,
                length_size as int,
            ).len(),
        decreases len - at,
    {
        match next_unit(data, at, length_size) {
            None => {
                return count;
            },
            Some((a, b)) => {
                at = b;
                count = count + 1;
            },
        }
    }
}

// ---- blocks ----

/// The track number of a block and the length of its code.
pub open spec fn block_track(b: Seq<u8>) -> Result<(int, int), ExtractError> {
    if b.len() == 0 {
        Err(ExtractError::EmptyVint)
    } else if b[0] == 0 {
        Err(ExtractError::InvalidVint)
    } else if vint_len(b[0]) > b.len() {
        Err(ExtractError::LongVint)
    } else {
        let n = vint_len(b[0]);
        Ok((be(b.update(0, unmarked(b[0])), 0, n as nat), n))
    }
}

/// The frame of a block: what follows track number, time and flags; `None` for
/// another track or a laced block.
pub open spec fn block_frame(b: Seq<u8>, track: int) -> Result<Option<Seq<u8>>, ExtractError> {
    match block_track(b) {
        Err(e) => Err(e),
        Ok((t, n)) => if t != track {
            Ok(None)
        } else if b.len() < n + 3 {
            Err(ExtractError::ShortBlock)
        } else if b[n + 2] / 2 % 4 != 0 {
            Ok(None)
        } else {
            Ok(Some(b.skip(n + 3)))
        },
    }
}

/// Read a size from the front of some bytes: its value and its length.
pub fn read_vint_size_from(bytes: &[u8]) -> (r: Result<(u64, usize), ExtractError>)
    ensures
        match r {
            Ok((v, n)) => block_track(bytes@) == Ok::<(int, int), ExtractError>(
                (v as int, n as int),
            ) && n <= bytes@.len(),
            Err(e) => block_track(bytes@) == Err::<(int, int), ExtractError>(e),
        },
{
    if bytes.len() == 0 {
        return Err(ExtractError::EmptyVint);
    }
    if bytes[0] == 0 {
        return Err(ExtractError::InvalidVint);
    }
    let mut reader = EbmlReader::new(bytes);
    match reader.read_vint_size() {
        Ok(v) => {
            let n: u64 = reader.position();
            proof {
                crate::mvc::ebml::lemma_size(bytes@, 0);
            }
            Ok((v, n as usize))
        },
        Err(_) => Err(ExtractError::LongVint),
    }
}

/// The frame of a block: `None` for another track or a laced block.
pub fn block_frame_data<'a>(block_bytes: &'a [u8], target_track: u64) -> (r: Result<
    Option<&'a [u8]>,
    ExtractError,
>)
    ensures
        match r {
            Ok(Some(f)) => block_frame(block_bytes@, target_track as int) == Ok::<
                Option<Seq<u8>>,
                ExtractError,
            >(Some(f@)),
            Ok(None) => block_frame(block_bytes@, target_track as int) == Ok::<
                Option<Seq<u8>>,
                ExtractError,
            >(None),
            Err(e) => block_frame(block_bytes@, target_track as int) == Err::<
                Option<Seq<u8>>,
                ExtractError,
            >(e),
        },
{
    let len: usize = block_bytes.len();
    let (track, n) = read_vint_size_from(block_bytes)?;
    if track != target_track {
        return Ok(None);
    }
    if len - n < 3 {
        return Err(ExtractError::ShortBlock);
    }
    let flags: u8 = block_bytes[n + 2];
    if flags / 2 % 4 != 0 {
        return Ok(None);
    }
    let f = vstd::slice::slice_subrange(block_bytes, n + 3, len);
    assert(f@ =~= block_bytes@.skip(n + 3));
    Ok(Some(f))
}

// ---- the track ----

/// A track with a configuration record: its number and the record's bytes.
#[derive(Debug, Clone)]
pub struct MvcTrackInfo {
    pub track_number: u64,
    pub mvcc_bytes: Vec<u8>,
}

/// A track entry between `pos` and `end`, after a number and a record: both,
/// where there are both, and the position where reading stops.
pub open spec fn entry_track(
    d: Seq<u8>,
    pos: int,
    end: int,
    num: Option<u64>,
    mvcc: Option<Seq<u8>>,
) -> (Result<Option<(u64, Seq<u8>)>, EbmlError>, int)
    decreases room(d, pos),
    via entry_track_ends
{
    if pos < 0 || pos >= end {
        (
            Ok(
                if num is Some && mvcc is Some {
                    Some((num->0, mvcc->0))
                } else {
                    None
                },
            ),
            pos,
        )
    } else {
        match element(d, pos) {
            Err(e) => (Err(e), element_stop(d, pos)),
            Ok((id, size, p)) => if id == TRACK_NUMBER {
                match number(d, p, size) {
                    Err(e) => (Err(e), run_out(d, p)),
                    Ok((v, q)) => entry_track(d, q, end, Some(v), mvcc),
                }
            } else if id == BLOCK_ADDITION_MAPPING {
                match mapping(d, p, ending(p, size), None, None) {
                    (Err(e), q) => (Err(e), q),
                    (Ok(b), _) => entry_track(
                        d,
                        ending(p, size),
                        end,
                        num,
                        if b is Some {
                            b
                        } else {
                            mvcc
                        },
                    ),
                }
            } else {
                match skipped(p, size) {
                    Err(e) => (Err(e), p),
                    Ok(q) => entry_track(d, q, end, num, mvcc),
                }
            },
        }
    }
}

#[via_fn]
proof fn entry_track_ends(d: Seq<u8>, pos: int, end: int, num: Option<u64>, mvcc: Option<Seq<u8>>) {
    if pos >= 0 {
        lemma_elements(d, pos);
    }
}

/// A track as number and bytes.
pub open spec fn track_view(t: Option<MvcTrackInfo>) -> Option<(u64, Seq<u8>)> {
    match t {
        Some(i) => Some((i.track_number, i.mvcc_bytes@)),
        None => None,
    }
}

fn scan_track_entry(reader: &mut EbmlReader, end: u64) -> (r: Result<Option<MvcTrackInfo>, EbmlError>)
    ensures
        final(reader).data() == old(reader).data(),
        ({
            let want = entry_track(old(reader).data(), old(reader).at(), end as int, None, None);
            &&& want.1 == final(reader).at()
            &&& match r {
                Ok(t) => want.0 == Ok::<Option<(u64, Seq<u8>)>, EbmlError>(track_view(t)),
                Err(e) => want.0 == Err::<Option<(u64, Seq<u8>)>, EbmlError>(e),
            }
        }),
{
    proof {
        lemma_at(*reader);
    }
    let ghost d = reader.data();
    let ghost whole = entry_track(d, reader.at(), end as int, None, None);
    let mut num: Option<u64> = None;
    let mut mvcc: Option<Vec<u8>> = None;
    while reader.position() < end
        invariant
            d == old(reader).data(),
            whole == entry_track(d, old(reader).at(), end as int, None, None),
            reader.data() == d,
            reader.at() >= 0,
            entry_track(d, reader.at(), end as int, num, opt_bytes(mvcc)) == whole,
        decreases room(d, reader.at()),
    {
        proof {
            lemma_elements(d, reader.at());
        }
        let (id, size) = reader.read_element()?;
        if id == TRACK_NUMBER {
            num = Some(reader.read_uint(size)?);
        } else if id == BLOCK_ADDITION_MAPPING {
            let map_end: u64 = reader.end_of(size);
            let bytes = scan_mapping(reader, map_end)?;
            if bytes.is_some() {
                mvcc = bytes;
            }
            reader.seek(map_end);
        } else {
            reader.skip(size)?;
        }
    }
    match (num, mvcc) {
        (Some(track_number), Some(mvcc_bytes)) => Ok(
            Some(MvcTrackInfo { track_number, mvcc_bytes }),
        ),
        _ => Ok(None),
    }
}

/// The first track with a configuration record between `pos` and `end`, and
/// the position where reading stops.
pub open spec fn tracks_track(d: Seq<u8>, pos: int, end: int) -> (
    Result<Option<(u64, Seq<u8>)>, EbmlError>,
    int,
)
    decreases room(d, pos),
    via tracks_track_ends
{
    if pos < 0 || pos >= end {
        (Ok(None), pos)
    } else {
        match element(d, pos) {
            Err(e) => (Err(e), element_stop(d, pos)),
            Ok((id, size, p)) => if id == TRACK_ENTRY {
                match entry_track(d, p, ending(p, size), None, None) {
                    (Err(e), q) => (Err(e), q),
                    (Ok(Some(t)), q) => (Ok(Some(t)), q),
                    (Ok(None), _) => tracks_track(d, ending(p, size), end),
                }
            } else {
                match skipped(p, size) {
                    Err(e) => (Err(e), p),
                    Ok(q) => tracks_track(d, q, end),
                }
            },
        }
    }
}

#[via_fn]
proof fn tracks_track_ends(d: Seq<u8>, pos: int, end: int) {
    if pos >= 0 {
        lemma_elements(d, pos);
    }
}

/// Find the first track with a configuration record in the payload of a Tracks
/// element, which ends at `end`.
pub fn scan_tracks(reader: &mut EbmlReader, end: u64) -> (r: Result<Option<MvcTrackInfo>, EbmlError>)
    ensures
        final(reader).data() == old(reader).data(),
        ({
            let want = tracks_track(old(reader).data(), old(reader).at(), end as int);
            &&& want.1 == final(reader).at()
            &&& match r {
                Ok(t) => want.0 == Ok::<Option<(u64, Seq<u8>)>, EbmlError>(track_view(t)),
                Err(e) => want.0 == Err::<Option<(u64, Seq<u8>)>, EbmlError>(e),
            }
        }),
{
    proof {
        lemma_at(*reader);
    }
    let ghost d = reader.data();
    let ghost whole = tracks_track(d, reader.at(), end as int);
    while reader.position() < end
        invariant
            d == old(reader).data(),
            whole == tracks_track(d, old(reader).at(), end as int),
            reader.data() == d,
            reader.at() >= 0,
            tracks_track(d, reader.at(), end as int) == whole,
        decreases room(d, reader.at()),
    {
        proof {
            lemma_elements(d, reader.at());
        }
        let (id, size) = reader.read_element()?;
        if id == TRACK_ENTRY {
            let entry_end: u64 = reader.end_of(size);
            let t = scan_track_entry(reader, entry_end)?;
            if t.is_some() {
                return Ok(t);
            }
            reader.seek(entry_end);
        } else {
            reader.skip(size)?;
        }
    }
    Ok(None)
}

// ---- clusters ----

/// The stream so far and how much is in it.
#[verifier::ext_equal]
pub struct Extract {
    pub out: Seq<u8>,
    pub stats: ExtractionStats,
}

impl Extract {
    /// With a frame: the units of the base view and, where there is one, of the
    /// dependent view.
    pub open spec fn frame(self, base: Seq<u8>, dep: Option<Seq<u8>>, n: int) -> Extract {
        let b = prefixed(base, 0, n);
        let one = Extract {
            out: self.out + annexed(b),
            stats: ExtractionStats {
                frames: self.stats.frames.wrapping_add(1),
                base_nals: self.stats.base_nals.wrapping_add(b.len() as u64),
                ..self.stats
            },
        };
        match dep {
            None => one,
            Some(d) => {
                let u = prefixed(d, 0, n);
                Extract {
                    out: one.out + annexed(u),
                    stats: ExtractionStats {
                        dep_nals: one.stats.dep_nals.wrapping_add(u.len() as u64),
                        ..one.stats
                    },
                }
            },
        }
    }
}

fn add_frame(out: &mut Vec<u8>, stats: &mut ExtractionStats, base: &[u8], dep: Option<&[u8]>, n: usize)
    requires
        1 <= n <= 4,
    ensures
        (Extract { out: final(out)@, stats: *final(stats) }) == (Extract {
            out: old(out)@,
            stats: *old(stats),
        }).frame(
            base@,
            match dep {
                Some(d) => Some(d@),
                None => None,
            },
            n as int,
        ),
{
    write_length_prefixed(out, base, n);
    stats.frames = stats.frames.wrapping_add(1);
    stats.base_nals = stats.base_nals.wrapping_add(count_length_prefixed(base, n));
    match dep {
        Some(d) => {
            write_length_prefixed(out, d, n);
            stats.dep_nals = stats.dep_nals.wrapping_add(count_length_prefixed(d, n));
        },
        None => {},
    }
}

/// A block addition between `pos` and `end`, after an identifier and a payload:
/// both, and the position where reading stops.
pub open spec fn addition(
    d: Seq<u8>,
    pos: int,
    end: int,
    id: Option<u64>,
    data: Option<Seq<u8>>,
) -> (Result<(Option<u64>, Option<Seq<u8>>), EbmlError>, int)
    decreases room(d, pos),
    via addition_ends
{
    if pos < 0 || pos >= end {
        (Ok((id, data)), pos)
    } else {
        match element(d, pos) {
            Err(e) => (Err(e), element_stop(d, pos)),
            Ok((k, size, p)) => if k == BLOCK_ADD_ID {
                match number(d, p, size) {
                    Err(e) => (Err(e), run_out(d, p)),
                    Ok((v, q)) => addition(d, q, end, Some(v), data),
                }
            } else if k == BLOCK_ADDITIONAL {
                match payload(d, p, size) {
                    Err(e) => (Err(e), run_out(d, p)),
                    Ok((b, q)) => addition(d, q, end, id, Some(b)),
                }
            } else {
                match skipped(p, size) {
                    Err(e) => (Err(e), p),
                    Ok(q) => addition(d, q, end, id, data),
                }
            },
        }
    }
}

#[via_fn]
proof fn addition_ends(d: Seq<u8>, pos: int, end: int, id: Option<u64>, data: Option<Seq<u8>>) {
    if pos >= 0 {
        lemma_elements(d, pos);
    }
}

proof fn lemma_addition_forward(d: Seq<u8>, pos: int, end: int, id: Option<u64>, data: Option<Seq<u8>>)
    requires
        0 <= pos,
    ensures
        addition(d, pos, end, id, data).0 is Ok ==> addition(d, pos, end, id, data).1 >= pos,
    decreases room(d, pos),
{
    if pos < end {
        lemma_elements(d, pos);
        match element(d, pos) {
            Ok((k, size, p)) => if k == BLOCK_ADD_ID {
                match number(d, p, size) {
                    Ok((v, q)) => {
                        lemma_addition_forward(d, q, end, Some(v), data);
                    },
                    Err(_) => {},
                }
            } else if k == BLOCK_ADDITIONAL {
                match payload(d, p, size) {
                    Ok((b, q)) => {
                        lemma_addition_forward(d, q, end, id, Some(b));
                    },
                    Err(_) => {},
                }
            } else {
                match skipped(p, size) {
                    Ok(q) => {
                        lemma_addition_forward(d, q, end, id, data);
                    },
                    Err(_) => {},
                }
            },
            Err(_) => {},
        }
    }
}

fn read_addition(reader: &mut EbmlReader, end: u64) -> (r: Result<
    (Option<u64>, Option<Vec<u8>>),
    EbmlError,
>)
    ensures
        final(reader).data() == old(reader).data(),
        ({
            let want = addition(old(reader).data(), old(reader).at(), end as int, None, None);
            &&& want.1 == final(reader).at()
            &&& match r {
                Ok((i, b)) => want.0 == Ok::<(Option<u64>, Option<Seq<u8>>), EbmlError>((i, opt_bytes(b))),
                Err(e) => want.0 == Err::<(Option<u64>, Option<Seq<u8>>), EbmlError>(e),
            }
        }),
{
    proof {
        lemma_at(*reader);
    }
    let ghost d = reader.data();
    let ghost whole = addition(d, reader.at(), end as int, None, None);
    let mut add_id: Option<u64> = None;
    let mut data: Option<Vec<u8>> = None;
    while reader.position() < end
        invariant
            d == old(reader).data(),
            whole == addition(d, old(reader).at(), end as int, None, None),
            reader.data() == d,
            reader.at() >= 0,
            addition(d, reader.at(), end as int, add_id, opt_bytes(data)) == whole,
        decreases room(d, reader.at()),
    {
        proof {
            lemma_elements(d, reader.at());
        }
        let (id, size) = reader.read_element()?;
        if id == BLOCK_ADD_ID {
            add_id = Some(reader.read_uint(size)?);
        } else if id == BLOCK_ADDITIONAL {
            data = Some(reader.read_bytes(size)?);
        } else {
            reader.skip(size)?;
        }
    }
    Ok((add_id, data))
}

/// The additions of a block between `pos` and `end`, after `chosen`: the payload
/// of the last one that carries the dependent view, and the position where
/// reading stops. An addition without identifier carries it.
pub open spec fn additions(d: Seq<u8>, pos: int, end: int, chosen: Option<Seq<u8>>) -> (
    Result<Option<Seq<u8>>, EbmlError>,
    int,
)
    decreases room(d, pos),
    via additions_ends
{
    if pos < 0 || pos >= end {
        (Ok(chosen), pos)
    } else {
        match element(d, pos) {
            Err(e) => (Err(e), element_stop(d, pos)),
            Ok((k, size, p)) => if k == BLOCK_MORE {
                match addition(d, p, ending(p, size), None, None) {
                    (Err(e), q) => (Err(e), q),
                    (Ok((id, data)), q) => additions(
                        d,
                        q,
                        end,
                        if (id is None || id == Some(DEFAULT_BLOCK_ADD_ID)) && data is Some {
                            data
                        } else {
                            chosen
                        },
                    ),
                }
            } else {
                match skipped(p, size) {
                    Err(e) => (Err(e), p),
                    Ok(q) => additions(d, q, end, chosen),
                }
            },
        }
    }
}

#[via_fn]
proof fn additions_ends(d: Seq<u8>, pos: int, end: int, chosen: Option<Seq<u8>>) {
    if pos >= 0 {
        lemma_elements(d, pos);
        match element(d, pos) {
            Ok((k, size, p)) => {
                lemma_addition_forward(d, p, ending(p, size), None, None);
            },
            Err(_) => {},
        }
    }
}

proof fn lemma_additions_forward(d: Seq<u8>, pos: int, end: int, chosen: Option<Seq<u8>>)
    requires
        0 <= pos,
    ensures
        additions(d, pos, end, chosen).0 is Ok ==> additions(d, pos, end, chosen).1 >= pos,
    decreases room(d, pos),
{
    if pos < end {
        lemma_elements(d, pos);
        match element(d, pos) {
            Ok((k, size, p)) => if k == BLOCK_MORE {
                lemma_addition_forward(d, p, ending(p, size), None, None);
                match addition(d, p, ending(p, size), None, None) {
                    (Ok((id, data)), q) => {
                        lemma_additions_forward(
                            d,
                            q,
                            end,
                            if (id is None || id == Some(DEFAULT_BLOCK_ADD_ID)) && data is Some {
                                data
                            } else {
                                chosen
                            },
                        );
                    },
                    (Err(_), _) => {},
                }
            } else {
                match skipped(p, size) {
                    Ok(q) => {
                        lemma_additions_forward(d, q, end, chosen);
                    },
                    Err(_) => {},
                }
            },
            Err(_) => {},
        }
    }
}

fn pick_default_block_additional(reader: &mut EbmlReader, end: u64) -> (r: Result<
    Option<Vec<u8>>,
    EbmlError,
>)
    ensures
        final(reader).data() == old(reader).data(),
        ({
            let want = additions(old(reader).data(), old(reader).at(), end as int, None);
            &&& want.1 == final(reader).at()
            &&& match r {
                Ok(b) => want.0 == Ok::<Option<Seq<u8>>, EbmlError>(opt_bytes(b)),
                Err(e) => want.0 == Err::<Option<Seq<u8>>, EbmlError>(e),
            }
        }),
{
    proof {
        lemma_at(*reader);
    }
    let ghost d = reader.data();
    let ghost whole = additions(d, reader.at(), end as int, None);
    let mut chosen: Option<Vec<u8>> = None;
    while reader.position() < end
        invariant
            d == old(reader).data(),
            whole == additions(d, old(reader).at(), end as int, None),
            reader.data() == d,
            reader.at() >= 0,
            additions(d, reader.at(), end as int, opt_bytes(chosen)) == whole,
        decreases room(d, reader.at()),
    {
        proof {
            lemma_elements(d, reader.at());
        }
        let (id, size) = reader.read_element()?;
        if id == BLOCK_MORE {
            let more_end: u64 = reader.end_of(size);
            proof {
                lemma_addition_forward(d, reader.at(), more_end as int, None, None);
            }
            let (add_id, data) = read_addition(reader, more_end)?;
            let default: bool = match add_id {
                Some(v) => v == DEFAULT_BLOCK_ADD_ID,
                None => true,
            };
            if default && data.is_some() {
                chosen = data;
            }
        } else {
            reader.skip(size)?;
        }
    }
    Ok(chosen)
}

/// A block group between `pos` and `end`, after the frames of both views: both,
/// and the position where reading stops.
pub open spec fn group(
    d: Seq<u8>,
    pos: int,
    end: int,
    track: int,
    base: Option<Seq<u8>>,
    dep: Option<Seq<u8>>,
) -> (Result<(Option<Seq<u8>>, Option<Seq<u8>>), ExtractError>, int)
    decreases room(d, pos),
    via group_ends
{
    if pos < 0 || pos >= end {
        (Ok((base, dep)), pos)
    } else {
        match element(d, pos) {
            Err(e) => (Err(ExtractError::Ebml(e)), element_stop(d, pos)),
            Ok((k, size, p)) => if k == BLOCK {
                match payload(d, p, size) {
                    Err(e) => (Err(ExtractError::Ebml(e)), run_out(d, p)),
                    Ok((b, q)) => match block_frame(b, track) {
                        Err(e) => (Err(e), q),
                        Ok(f) => group(
                            d,
                            q,
                            end,
                            track,
                            if f is Some {
                                f
                            } else {
                                base
                            },
                            dep,
                        ),
                    },
                }
            } else if k == BLOCK_ADDITIONS {
                match additions(d, p, ending(p, size), None) {
                    (Err(e), q) => (Err(ExtractError::Ebml(e)), q),
                    (Ok(b), q) => group(
                        d,
                        q,
                        end,
                        track,
                        base,
                        if b is Some {
                            b
                        } else {
                            dep
                        },
                    ),
                }
            } else {
                match skipped(p, size) {
                    Err(e) => (Err(ExtractError::Ebml(e)), p),
                    Ok(q) => group(d, q, end, track, base, dep),
                }
            },
        }
    }
}

#[via_fn]
proof fn group_ends(d: Seq<u8>, pos: int, end: int, track: int, base: Option<Seq<u8>>, dep: Option<Seq<u8>>) {
    if pos >= 0 {
        lemma_elements(d, pos);
        match element(d, pos) {
            Ok((k, size, p)) => {
                lemma_additions_forward(d, p, ending(p, size), None);
            },
            Err(_) => {},
        }
    }
}

proof fn lemma_group_forward(
    d: Seq<u8>,
    pos: int,
    end: int,
    track: int,
    base: Option<Seq<u8>>,
    dep: Option<Seq<u8>>,
)
    requires
        0 <= pos,
    ensures
        group(d, pos, end, track, base, dep).0 is Ok ==> group(
            d,
            pos,
            end,
            track,
            base,
            dep,
        ).1 >= pos,
    decreases room(d, pos),
{
    if pos < end {
        lemma_elements(d, pos);
        match element(d, pos) {
            Ok((k, size, p)) => if k == BLOCK {
                match payload(d, p, size) {
                    Ok((b, q)) => match block_frame(b, track) {
                        Ok(f) => {
                            lemma_group_forward(
                                d,
                                q,
                                end,
                                track,
                                if f is Some {
                                    f
                                } else {
                                    base
                                },
                                dep,
                            );
                        },
                        Err(_) => {},
                    },
                    Err(_) => {},
                }
            } else if k == BLOCK_ADDITIONS {
                lemma_additions_forward(d, p, ending(p, size), None);
                match additions(d, p, ending(p, size), None) {
                    (Ok(b), q) => {
                        lemma_group_forward(
                            d,
                            q,
                            end,
                            track,
                            base,
                            if b is Some {
                                b
                            } else {
                                dep
                            },
                        );
                    },
                    (Err(_), _) => {},
                }
            } else {
                match skipped(p, size) {
                    Ok(q) => {
                        lemma_group_forward(d, q, end, track, base, dep);
                    },
                    Err(_) => {},
                }
            },
            Err(_) => {},
        }
    }
}

fn lift<T>(r: Result<T, EbmlError>) -> (l: Result<T, ExtractError>)
    ensures
        match r {
            Ok(v) => l == Ok::<T, ExtractError>(v),
            Err(e) => l == Err::<T, ExtractError>(ExtractError::Ebml(e)),
        },
{
    match r {
        Ok(v) => Ok(v),
        Err(e) => Err(ExtractError::Ebml(e)),
    }
}

fn read_group(reader: &mut EbmlReader, end: u64, track: u64) -> (r: Result<
    (Option<Vec<u8>>, Option<Vec<u8>>),
    ExtractError,
>)
    ensures
        final(reader).data() == old(reader).data(),
        ({
            let want = group(old(reader).data(), old(reader).at(), end as int, track as int, None, None);
            &&& want.1 == final(reader).at()
            &&& match r {
                Ok((b, x)) => want.0 == Ok::<(Option<Seq<u8>>, Option<Seq<u8>>), ExtractError>((opt_bytes(b), opt_bytes(x))),
                Err(e) => want.0 == Err::<(Option<Seq<u8>>, Option<Seq<u8>>), ExtractError>(e),
            }
        }),
{
    proof {
        lemma_at(*reader);
    }
    let ghost d = reader.data();
    let ghost whole = group(d, reader.at(), end as int, track as int, None, None);
    let mut base: Option<Vec<u8>> = None;
    let mut dep: Option<Vec<u8>> = None;
    while reader.position() < end
        invariant
            d == old(reader).data(),
            whole == group(d, old(reader).at(), end as int, track as int, None, None),
            reader.data() == d,
            reader.at() >= 0,
            group(
                d,
                reader.at(),
                end as int,
                track as int,
                opt_bytes(base),
                opt_bytes(dep),
            ) == whole,
        decreases room(d, reader.at()),
    {
        proof {
            lemma_elements(d, reader.at());
        }
        let (id, size) = lift(reader.read_element())?;
        if id == BLOCK {
            let b = lift(reader.read_bytes(size))?;
            match block_frame_data(b.as_slice(), track)? {
                Some(f) => {
                    base = Some(copied(f));
                },
                None => {},
            }
        } else if id == BLOCK_ADDITIONS {
            let adds_end: u64 = reader.end_of(size);
            proof {
                lemma_additions_forward(d, reader.at(), adds_end as int, None);
            }
            let b = lift(pick_default_block_additional(reader, adds_end))?;
            if b.is_some() {
                dep = b;
            }
        } else {
            lift(reader.skip(size))?;
        }
    }
    Ok((base, dep))
}

/// A cluster between `pos` and `end`, after what was extracted before: all that is
/// extracted, up to an element that cannot be read, and the position where reading
/// stops.
pub open spec fn cluster(d: Seq<u8>, pos: int, end: int, track: int, n: int, x: Extract) -> (
    Extract,
    Result<(), ExtractError>,
    int,
)
    decreases room(d, pos),
    via cluster_ends
{
    if pos < 0 || pos >= end {
        (x, Ok(()), pos)
    } else {
        match element(d, pos) {
            Err(e) => (x, Err(ExtractError::Ebml(e)), element_stop(d, pos)),
            Ok((k, size, p)) => if k == SIMPLE_BLOCK {
                match payload(d, p, size) {
                    Err(e) => (x, Err(ExtractError::Ebml(e)), run_out(d, p)),
                    Ok((b, q)) => match block_frame(b, track) {
                        Err(e) => (x, Err(e), q),
                        Ok(Some(f)) => cluster(d, q, end, track, n, x.frame(f, None, n)),
                        Ok(None) => cluster(d, q, end, track, n, x),
                    },
                }
            } else if k == BLOCK_GROUP {
                match group(d, p, ending(p, size), track, None, None) {
                    (Err(e), q) => (x, Err(e), q),
                    (Ok((Some(b), dep)), q) => cluster(d, q, end, track, n, x.frame(b, dep, n)),
                    (Ok((None, _)), q) => cluster(d, q, end, track, n, x),
                }
            } else {
                match skipped(p, size) {
                    Err(e) => (x, Err(ExtractError::Ebml(e)), p),
                    Ok(q) => cluster(d, q, end, track, n, x),
                }
            },
        }
    }
}

#[via_fn]
proof fn cluster_ends(d: Seq<u8>, pos: int, end: int, track: int, n: int, x: Extract) {
    if pos >= 0 {
        lemma_elements(d, pos);
        match element(d, pos) {
            Ok((k, size, p)) => {
                lemma_group_forward(d, p, ending(p, size), track, None, None);
            },
            Err(_) => {},
        }
    }
}

proof fn lemma_cluster_forward(d: Seq<u8>, pos: int, end: int, track: int, n: int, x: Extract)
    requires
        0 <= pos,
    ensures
        cluster(d, pos, end, track, n, x).1 is Ok ==> cluster(d, pos, end, track, n, x).2 >= pos,
    decreases room(d, pos),
{
    if pos < end {
        lemma_elements(d, pos);
        match element(d, pos) {
            Ok((k, size, p)) => if k == SIMPLE_BLOCK {
                match payload(d, p, size) {
                    Ok((b, q)) => match block_frame(b, track) {
                        Ok(Some(f)) => {
                            lemma_cluster_forward(d, q, end, track, n, x.frame(f, None, n));
                        },
                        Ok(None) => {
                            lemma_cluster_forward(d, q, end, track, n, x);
                        },
                        Err(_) => {},
                    },
                    Err(_) => {},
                }
            } else if k == BLOCK_GROUP {
                lemma_group_forward(d, p, ending(p, size), track, None, None);
                match group(d, p, ending(p, size), track, None, None) {
                    (Ok((Some(b), dep)), q) => {
                        lemma_cluster_forward(d, q, end, track, n, x.frame(b, dep, n));
                    },
                    (Ok((None, _)), q) => {
                        lemma_cluster_forward(d, q, end, track, n, x);
                    },
                    (Err(_), _) => {},
                }
            } else {
                match skipped(p, size) {
                    Ok(q) => {
                        lemma_cluster_forward(d, q, end, track, n, x);
                    },
                    Err(_) => {},
                }
            },
            Err(_) => {},
        }
    }
}

/// Extract the frames of a cluster whose payload ends at `end`.
pub fn extract_cluster(
    reader: &mut EbmlReader,
    end: u64,
    track: u64,
    length_size: usize,
    out: &mut Vec<u8>,
    stats: &mut ExtractionStats,
) -> (r: Result<(), ExtractError>)
    requires
        1 <= length_size <= 4,
    ensures
        final(reader).data() == old(reader).data(),
        ({
            let want = cluster(
                old(reader).data(),
                old(reader).at(),
                end as int,
                track as int,
                length_size as int,
                Extract { out: old(out)@, stats: *old(stats) },
            );
            &&& want.0 == (Extract { out: final(out)@, stats: *final(stats) })
            &&& want.1 == r
            &&& want.2 == final(reader).at()
        }),
{
    proof {
        lemma_at(*reader);
    }
    let ghost d = reader.data();
    let ghost n = length_size as int;
    let ghost whole = cluster(
        d,
        reader.at(),
        end as int,
        track as int,
        n,
        Extract { out: out@, stats: *stats },
    );
    while reader.position() < end
        invariant
            1 <= length_size <= 4,
            n == length_size,
            d == old(reader).data(),
            whole == cluster(
                d,
                old(reader).at(),
                end as int,
                track as int,
                n,
                Extract { out: old(out)@, stats: *old(stats) },
            ),
            reader.data() == d,
            reader.at() >= 0,
            cluster(
                d,
                reader.at(),
                end as int,
                track as int,
                n,
                Extract { out: out@, stats: *stats },
            ) == whole,
        decreases room(d, reader.at()),
    {
        proof {
            lemma_elements(d, reader.at());
        }
        let (id, size) = lift(reader.read_element())?;
        if id == SIMPLE_BLOCK {
            let b = lift(reader.read_bytes(size))?;
            match block_frame_data(b.as_slice(), track)? {
                Some(f) => {
                    add_frame(out, stats, f, None, length_size);
                },
                None => {},
            }
        } else if id == BLOCK_GROUP {
            let group_end: u64 = reader.end_of(size);
            proof {
                lemma_group_forward(d, reader.at(), group_end as int, track as int, None, None);
            }
            let (base, dep) = read_group(reader, group_end, track)?;
            match base {
                Some(b) => {
                    match dep {
                        Some(x) => {
                            add_frame(
                                out,
                                stats,
                                b.as_slice(),
                                Some(x.as_slice()),
                                length_size,
                            );
                        },
                        None => {
                            add_frame(out, stats, b.as_slice(), None, length_size);
                        },
                    }
                },
                None => {},
            }
        } else {
            lift(reader.skip(size))?;
        }
    }
    Ok(())
}

// ---- the file ----

/// The clusters of a segment between `pos` and `end`, after what was extracted
/// before: all that is extracted, up to an element that cannot be read, and the
/// position where reading stops.
pub open spec fn clusters(d: Seq<u8>, pos: int, end: int, track: int, n: int, x: Extract) -> (
    Extract,
    Result<(), ExtractError>,
    int,
)
    decreases room(d, pos),
    via clusters_ends
{
    if pos < 0 || pos >= end {
        (x, Ok(()), pos)
    } else {
        match element(d, pos) {
            Err(e) => (x, Err(ExtractError::Ebml(e)), element_stop(d, pos)),
            Ok((k, size, p)) => if k == CLUSTER {
                match cluster(d, p, ending(p, size), track, n, x) {
                    (y, Err(e), q) => (y, Err(e), q),
                    (y, Ok(_), q) => clusters(d, q, end, track, n, y),
                }
            } else {
                match skipped(p, size) {
                    Err(e) => (x, Err(ExtractError::Ebml(e)), p),
                    Ok(q) => clusters(d, q, end, track, n, x),
                }
            },
        }
    }
}

#[via_fn]
proof fn clusters_ends(d: Seq<u8>, pos: int, end: int, track: int, n: int, x: Extract) {
    if pos >= 0 {
        lemma_elements(d, pos);
        match element(d, pos) {
            Ok((k, size, p)) => {
                lemma_cluster_forward(d, p, ending(p, size), track, n, x);
            },
            Err(_) => {},
        }
    }
}

fn extract_segment(
    reader: &mut EbmlReader,
    track: u64,
    length_size: usize,
    out: &mut Vec<u8>,
    stats: &mut ExtractionStats,
) -> (r: Result<(), ExtractError>)
    requires
        1 <= length_size <= 4,
    ensures
        final(reader).data() == old(reader).data(),
        ({
            let want = segment(
                old(reader).data(),
                old(reader).at(),
                track as int,
                length_size as int,
                Extract { out: old(out)@, stats: *old(stats) },
            );
            &&& want.0 == (Extract { out: final(out)@, stats: *final(stats) })
            &&& want.1 == r
            &&& want.2 == final(reader).at()
        }),
{
    let size: u64 = match lift(walk_to(reader, SEGMENT))? {
        Some(s) => s,
        None => {
            return Err(ExtractError::NoSegment);
        },
    };
    let end: u64 = reader.end_of(size);
    proof {
        lemma_at(*reader);
    }
    let ghost d = reader.data();
    let ghost n = length_size as int;
    let ghost from = reader.at();
    let ghost whole = clusters(
        d,
        from,
        end as int,
        track as int,
        n,
        Extract { out: out@, stats: *stats },
    );
    while reader.position() < end
        invariant
            1 <= length_size <= 4,
            n == length_size,
            d == old(reader).data(),
            segment(
                d,
                old(reader).at(),
                track as int,
                n,
                Extract { out: old(out)@, stats: *old(stats) },
            ) == whole,
            reader.data() == d,
            reader.at() >= 0,
            clusters(
                d,
                reader.at(),
                end as int,
                track as int,
                n,
                Extract { out: out@, stats: *stats },
            ) == whole,
        decreases room(d, reader.at()),
    {
        proof {
            lemma_elements(d, reader.at());
        }
        let (id, size) = lift(reader.read_element())?;
        if id == CLUSTER {
            let cluster_end: u64 = reader.end_of(size);
            proof {
                lemma_cluster_forward(
                    d,
                    reader.at(),
                    cluster_end as int,
                    track as int,
                    n,
                    Extract { out: out@, stats: *stats },
                );
            }
            extract_cluster(reader, cluster_end, track, length_size, out, stats)?;
        } else {
            lift(reader.skip(size))?;
        }
    }
    Ok(())
}

/// The clusters of the first segment from `pos` on: all that is extracted, and the
/// position where reading stops.
pub open spec fn segment(d: Seq<u8>, pos: int, track: int, n: int, x: Extract) -> (
    Extract,
    Result<(), ExtractError>,
    int,
) {
    match found(d, pos, SEGMENT as int) {
        (Err(e), p) => (x, Err(ExtractError::Ebml(e)), p),
        (Ok(None), p) => (x, Err(ExtractError::NoSegment), p),
        (Ok(Some(size)), p) => clusters(d, p, ending(p, size), track, n, x),
    }
}

/// The track with the configuration record, and the position where reading stops.
pub open spec fn mvc_track(d: Seq<u8>) -> (Result<(u64, Seq<u8>), ExtractError>, int) {
    match tracks(d, 0) {
        (Err(e), p) => (Err(ExtractError::Ebml(e)), p),
        (Ok(None), p) => (Err(ExtractError::NoTrack), p),
        (Ok(Some(end)), p) => match tracks_track(d, p, end) {
            (Err(e), q) => (Err(ExtractError::Ebml(e)), q),
            (Ok(None), q) => (Err(ExtractError::NoTrack), q),
            (Ok(Some(t)), q) => (Ok(t), q),
        },
    }
}

/// The stream before the first frame: the parameter sets of a record, after what
/// is there already.
pub open spec fn opening(out: Seq<u8>, r: RecordData) -> Seq<u8> {
    out + annexed(r.sps_nals) + annexed(r.pps_nals)
}

/// Nothing extracted yet.
pub open spec fn no_stats() -> ExtractionStats {
    ExtractionStats { frames: 0, base_nals: 0, dep_nals: 0 }
}

/// The stream of a file, after what is there already: all that is extracted, up to
/// an element that cannot be read, and the position where reading stops.
pub open spec fn extracted(d: Seq<u8>, out: Seq<u8>) -> (Extract, Result<(), ExtractError>, int) {
    let nothing = Extract { out, stats: no_stats() };
    match mvc_track(d) {
        (Err(e), p) => (nothing, Err(e), p),
        (Ok((track, bytes)), p) => match record(bytes) {
            Err(e) => (nothing, Err(ExtractError::Mvcc(e)), p),
            Ok(r) => segment(
                d,
                0,
                track as int,
                r.length_size_minus_one + 1,
                Extract { out: opening(out, r), ..nothing },
            ),
        },
    }
}

fn push_units(out: &mut Vec<u8>, nals: &Vec<Vec<u8>>)
    ensures
        final(out)@ == old(out)@ + annexed(strings(nals@)),
{
    let ghost all = strings(nals@);
    let n: usize = nals.len();
    assert(all.skip(0) =~= all);
    for i in 0..n
        invariant
            n == nals@.len(),
            all == strings(nals@),
            out@ + annexed(all.skip(i as int)) == old(out)@ + annexed(all),
    {
        let ghost was = out@;
        push_unit(out, nals[i].as_slice());
        proof {
            let t = all.skip(i as int);
            assert(t.skip(1) =~= all.skip(i + 1));
            assert(t[0] == nals@[i as int]@);
            assert(was + (start_code() + t[0] + annexed(t.skip(1))) =~= (was + start_code() + t[0])
                + annexed(t.skip(1)));
        }
    }
    assert(all.skip(n as int) =~= Seq::empty());
    assert(out@ + Seq::<u8>::empty() =~= out@);
}

/// Start a stream with the parameter sets of a configuration record. Returns the
/// number of bytes in a unit's length.
pub fn open_stream(mvcc_bytes: &[u8], out: &mut Vec<u8>) -> (r: Result<usize, ExtractError>)
    ensures
        match r {
            Ok(n) => record(mvcc_bytes@) is Ok && final(out)@ == opening(
                old(out)@,
                record(mvcc_bytes@)->Ok_0,
            ) && n == record(mvcc_bytes@)->Ok_0.length_size_minus_one + 1 && 1 <= n <= 4,
            Err(e) => record(mvcc_bytes@) is Err && e == ExtractError::Mvcc(
                record(mvcc_bytes@)->Err_0,
            ) && final(out)@ == old(out)@,
        },
{
    let mvcc = match parse(mvcc_bytes) {
        Ok(m) => m,
        Err(e) => {
            return Err(ExtractError::Mvcc(e));
        },
    };
    push_units(out, &mvcc.sps_nals);
    push_units(out, &mvcc.pps_nals);
    Ok(mvcc.length_size_minus_one as usize + 1)
}

/// Extract both views of a file into one Annex B stream, which is appended to
/// `out`. Where an element cannot be read, the stream up to it is there.
pub fn extract_to_annex_b(reader: &mut EbmlReader, out: &mut Vec<u8>) -> (r: Result<
    ExtractionStats,
    ExtractError,
>)
    ensures
        final(reader).data() == old(reader).data(),
        ({
            let want = extracted(old(reader).data(), old(out)@);
            &&& final(out)@ == want.0.out
            &&& final(reader).at() == want.2
            &&& match r {
                Ok(s) => s == want.0.stats && want.1 is Ok,
                Err(e) => want.1 == Err::<(), ExtractError>(e),
            }
        }),
{
    reader.seek(0);
    let end: u64 = match lift(find_tracks(reader))? {
        Some(e) => e,
        None => {
            return Err(ExtractError::NoTrack);
        },
    };
    let info = match lift(scan_tracks(reader, end))? {
        Some(t) => t,
        None => {
            return Err(ExtractError::NoTrack);
        },
    };
    let length_size: usize = open_stream(info.mvcc_bytes.as_slice(), out)?;
    reader.seek(0);
    let mut stats = ExtractionStats { frames: 0, base_nals: 0, dep_nals: 0 };
    extract_segment(reader, info.track_number, length_size, out, &mut stats)?;
    Ok(stats)
}

// ---- reading back ----

/// The unit is not empty, does not end in a zero byte and holds no start code,
/// as escaping guarantees.
pub open spec fn clean(u: Seq<u8>) -> bool {
    &&& u.len() > 0
    &&& u.last() != 0
    &&& forall|i: int| 0 <= i < u.len() ==> code_len(u, i) == 0
}

proof fn lemma_before_code(n: Seq<u8>, rest: Seq<u8>, k: int)
    requires
        clean(n),
        0 <= k < n.len(),
    ensures
        code_len(n + start_code() + rest, k) == 0,
{
    let p = n + start_code() + rest;
    assert(p[k] == n[k]);
    assert(n.last() == n[n.len() - 1]);
    assert(code_len(n, k) == 0);
    if k + 1 < n.len() {
        assert(p[k + 1] == n[k + 1]);
    }
    if k + 2 < n.len() {
        assert(p[k + 2] == n[k + 2]);
    }
    if k + 3 < n.len() {
        assert(p[k + 3] == n[k + 3]);
    }
}

proof fn lemma_units_back(u: Seq<Seq<u8>>)
    requires
        u.len() > 0,
        forall|i: int| 0 <= i < u.len() ==> clean(#[trigger] u[i]),
    ensures
        units(u[0] + annexed(u.skip(1))) == u,
    decreases u.len(),
{
    let n = u[0];
    let r = u.skip(1);
    assert(clean(n));
    assert(trimmed(n) == n);
    if r.len() == 0 {
        assert(n + annexed(r) =~= n);
        lemma_no_code(n, 0);
        assert(u =~= seq![n]);
    } else {
        assert forall|i: int| 0 <= i < r.len() implies clean(#[trigger] r[i]) by {
            assert(r[i] == u[i + 1]);
        }
        lemma_units_back(r);
        let rest = r[0] + annexed(r.skip(1));
        let p = n + start_code() + rest;
        assert(n + annexed(r) =~= p);
        let m = n.len() as int;
        assert(p[m] == 0 && p[m + 1] == 0 && p[m + 2] == 0 && p[m + 3] == 1);
        assert forall|k: int| 0 <= k < m implies code_len(p, k) == 0 by {
            lemma_before_code(n, rest, k);
        }
        lemma_first_code(p, 0, m);
        assert(p.take(m) =~= n);
        assert(p.skip(m + 4) =~= rest);
        assert(u =~= seq![n] + r);
    }
}

/// Units written behind start codes come back from the stream.
pub proof fn law_written_units_come_back(u: Seq<Seq<u8>>)
    requires
        forall|i: int| 0 <= i < u.len() ==> clean(#[trigger] u[i]),
    ensures
        nal_units(annexed(u)) == u,
{
    if u.len() == 0 {
        lemma_no_code(annexed(u), 0);
        assert(u =~= Seq::empty());
    } else {
        let rest = u[0] + annexed(u.skip(1));
        let p = annexed(u);
        assert(p =~= start_code() + rest);
        assert(p[0] == 0 && p[1] == 0 && p[2] == 0 && p[3] == 1);
        lemma_first_code(p, 0, 0);
        assert(p.skip(4) =~= rest);
        lemma_units_back(u);
    }
}

} // verus!

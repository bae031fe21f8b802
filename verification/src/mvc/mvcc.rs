//! The MVC decoder configuration record (ISO/IEC 14496-15 section 7.4), which
//! holds the parameter sets of the dependent view, and where a Matroska file
//! keeps it: in a block addition mapping of type `mvcC`.

use crate::mvc::bytes::piece;
use crate::mvc::ebml::id::{
    BLOCK_ADDITION_MAPPING, BLOCK_ADD_ID_EXTRA_DATA, BLOCK_ADD_ID_TYPE, SEGMENT, STEREO_MODE, TRACKS,
    TRACK_ENTRY, VIDEO,
};
use crate::mvc::ebml::{
    be, element, element_stop, ending, id_stop, lemma_at, lemma_size, number, payload, room, run_out,
    skipped, vint_id, vint_size, vint_stop, EbmlError, EbmlReader,
};
use crate::text::{digits, numbered};
use vstd::prelude::*;

verus! {

/// The four characters `mvcC`.
pub const MVCC_TYPE: u32 = 0x6D76_6343;

/// A decoded configuration record.
#[derive(Debug, Clone, PartialEq, Eq)]
pub struct MvcDecoderConfigurationRecord {
    pub configuration_version: u8,
    pub avc_profile_indication: u8,
    pub profile_compatibility: u8,
    pub avc_level_indication: u8,
    pub length_size_minus_one: u8,
    /// Sequence parameter sets, each with its NAL header byte.
    pub sps_nals: Vec<Vec<u8>>,
    pub pps_nals: Vec<Vec<u8>>,
}

/// A configuration record.
#[verifier::ext_equal]
pub struct RecordData {
    pub configuration_version: u8,
    pub avc_profile_indication: u8,
    pub profile_compatibility: u8,
    pub avc_level_indication: u8,
    pub length_size_minus_one: u8,
    pub sps_nals: Seq<Seq<u8>>,
    pub pps_nals: Seq<Seq<u8>>,
}

/// Byte strings as sequences.
pub open spec fn strings(v: Seq<Vec<u8>>) -> Seq<Seq<u8>> {
    Seq::new(v.len(), |k: int| v[k]@)
}

impl View for MvcDecoderConfigurationRecord {
    type V = RecordData;

    open spec fn view(&self) -> RecordData {
        RecordData {
            configuration_version: self.configuration_version,
            avc_profile_indication: self.avc_profile_indication,
            profile_compatibility: self.profile_compatibility,
            avc_level_indication: self.avc_level_indication,
            length_size_minus_one: self.length_size_minus_one,
            sps_nals: strings(self.sps_nals@),
            pps_nals: strings(self.pps_nals@),
        }
    }
}

/// Why a configuration record cannot be parsed.
#[derive(Debug, Clone, Copy, PartialEq, Eq, Structural)]
pub enum MvccError {
    /// Fewer than six bytes: this many.
    TooShort(usize),
    /// The lists of parameter sets end too early.
    TruncatedNalList,
}

impl MvccError {
    /// What the message says.
    pub open spec fn says(self) -> Seq<char> {
        match self {
            MvccError::TooShort(n) => "buffer too short for header (got "@ + digits(n as nat)
                + " bytes, need >= 6)"@,
            MvccError::TruncatedNalList => "buffer truncated while reading NAL unit list"@,
        }
    }

    /// The message shown to a user.
    pub fn message(&self) -> (s: String)
        ensures
            s@ == self.says(),
    {
        match self {
            MvccError::TooShort(n) => {
                numbered("buffer too short for header (got ", *n as u64, " bytes, need >= 6)")
            },
            MvccError::TruncatedNalList => {
                "buffer truncated while reading NAL unit list".to_owned()
            },
        }
    }
}

/// `n` more units behind 16-bit lengths at `pos`, after those in `seen`, and the
/// position behind them.
pub open spec fn unit_list(d: Seq<u8>, pos: int, n: nat, seen: Seq<Seq<u8>>) -> Result<
    (Seq<Seq<u8>>, int),
    MvccError,
>
    decreases n,
{
    if n == 0 {
        Ok((seen, pos))
    } else if pos + 2 > d.len() || pos + 2 + be(d, pos, 2) > d.len() {
        Err(MvccError::TruncatedNalList)
    } else {
        let end = pos + 2 + be(d, pos, 2);
        unit_list(d, end, (n - 1) as nat, seen.push(d.subrange(pos + 2, end)))
    }
}

/// A configuration record.
pub open spec fn record(d: Seq<u8>) -> Result<RecordData, MvccError> {
    if d.len() < 6 {
        Err(MvccError::TooShort(d.len() as usize))
    } else {
        match unit_list(d, 6, (d[5] % 128) as nat, Seq::empty()) {
            Err(e) => Err(e),
            Ok((sps, p)) => if p >= d.len() {
                Err(MvccError::TruncatedNalList)
            } else {
                match unit_list(d, p + 1, d[p] as nat, Seq::empty()) {
                    Err(e) => Err(e),
                    Ok((pps, _)) => Ok(
                        RecordData {
                            configuration_version: d[0],
                            avc_profile_indication: d[1],
                            profile_compatibility: d[2],
                            avc_level_indication: d[3],
                            length_size_minus_one: (d[4] % 4) as u8,
                            sps_nals: sps,
                            pps_nals: pps,
                        },
                    ),
                }
            },
        }
    }
}

fn parse_units(d: &[u8], pos: usize, n: usize) -> (r: Result<(Vec<Vec<u8>>, usize), MvccError>)
    requires
        pos <= d@.len(),
    ensures
        match r {
            Ok((v, p)) => unit_list(d@, pos as int, n as nat, Seq::empty()) == Ok::<
                (Seq<Seq<u8>>, int),
                MvccError,
            >((strings(v@), p as int)) && p <= d@.len(),
            Err(e) => unit_list(d@, pos as int, n as nat, Seq::empty()) == Err::<
                (Seq<Seq<u8>>, int),
                MvccError,
            >(e),
        },
{
    let len: usize = d.len();
    let mut out: Vec<Vec<u8>> = Vec::new();
    let mut at: usize = pos;
    assert(strings(out@) =~= Seq::empty());
    for i in 0..n
        invariant
            len == d@.len(),
            at <= len,
            unit_list(d@, at as int, (n - i) as nat, strings(out@)) == unit_list(
                d@,
                pos as int,
                n as nat,
                Seq::empty(),
            ),
    {
        if len - at < 2 {
            return Err(MvccError::TruncatedNalList);
        }
        let size: usize = 256 * (d[at] as usize) + d[at + 1] as usize;
        proof {
            reveal_with_fuel(be, 3);
            assert(be(d@, at as int, 2) == size);
        }
        if len - at - 2 < size {
            return Err(MvccError::TruncatedNalList);
        }
        let end: usize = at + 2 + size;
        let ghost was = strings(out@);
        let nal = piece(d, at + 2, end);
        out.push(nal);
        assert(strings(out@) =~= was.push(d@.subrange(at + 2, end as int)));
        at = end;
    }
    Ok((out, at))
}

/// Parse a configuration record up to its lists of parameter sets.
pub fn parse(bytes: &[u8]) -> (r: Result<MvcDecoderConfigurationRecord, MvccError>)
    ensures
        match r {
            Ok(v) => record(bytes@) == Ok::<RecordData, MvccError>(v@),
            Err(e) => record(bytes@) == Err::<RecordData, MvccError>(e),
        },
{
    let len: usize = bytes.len();
    if len < 6 {
        return Err(MvccError::TooShort(len));
    }
    let (sps_nals, p) = parse_units(bytes, 6, (bytes[5] % 128) as usize)?;
    if p >= len {
        return Err(MvccError::TruncatedNalList);
    }
    let (pps_nals, _end) = parse_units(bytes, p + 1, bytes[p] as usize)?;
    Ok(
        MvcDecoderConfigurationRecord {
            configuration_version: bytes[0],
            avc_profile_indication: bytes[1],
            profile_compatibility: bytes[2],
            avc_level_indication: bytes[3],
            length_size_minus_one: bytes[4] % 4,
            sps_nals,
            pps_nals,
        },
    )
}

// ---- in a Matroska file ----

/// What a Matroska file says about stereo video: its configuration record and
/// the stereo mode of a video track.
#[derive(Debug, Clone, Default)]
pub struct Mkv3dInfo {
    pub mvcc_bytes: Option<Vec<u8>>,
    pub stereo_mode: Option<u64>,
}

/// What a Matroska file says about stereo video.
#[verifier::ext_equal]
pub struct StereoInfo {
    pub mvcc: Option<Seq<u8>>,
    pub mode: Option<u64>,
}

/// An optional byte string as a sequence.
pub open spec fn opt_bytes(v: Option<Vec<u8>>) -> Option<Seq<u8>> {
    match v {
        Some(b) => Some(b@),
        None => None,
    }
}

impl View for Mkv3dInfo {
    type V = StereoInfo;

    open spec fn view(&self) -> StereoInfo {
        StereoInfo { mvcc: opt_bytes(self.mvcc_bytes), mode: self.stereo_mode }
    }
}

impl Mkv3dInfo {
    /// There is a configuration record, or the stereo mode is one of those with
    /// both eyes in one block. Packed modes are not MVC.
    pub fn has_mvc(&self) -> (b: bool)
        ensures
            b == (self@.mvcc is Some || self@.mode == Some(13u64) || self@.mode == Some(14u64)),
    {
        if self.mvcc_bytes.is_some() {
            return true;
        }
        match self.stereo_mode {
            Some(m) => m == 13 || m == 14,
            None => false,
        }
    }
}

/// The size of the first element with this identifier at or after `pos`, side by
/// side; `None` where the document ends first. Reading stops at its payload, or
/// where no element could be read.
pub open spec fn found(d: Seq<u8>, pos: int, target: int) -> (Result<Option<int>, EbmlError>, int)
    decreases room(d, pos),
    via found_ends
{
    if pos < 0 {
        (Ok(None), pos)
    } else {
        match vint_id(d, pos) {
            Err(EbmlError::Truncated) => (Ok(None), id_stop(d, pos)),
            Err(e) => (Err(e), id_stop(d, pos)),
            Ok((id, p)) => match vint_size(d, p) {
                Err(e) => (Err(e), vint_stop(d, p)),
                Ok((size, q)) => if id == target {
                    (Ok(Some(size)), q)
                } else {
                    match skipped(q, size) {
                        Err(e) => (Err(e), q),
                        Ok(t) => found(d, t, target),
                    }
                },
            },
        }
    }
}

#[via_fn]
proof fn found_ends(d: Seq<u8>, pos: int, target: int) {
    if pos >= 0 {
        lemma_size(d, pos);
        match vint_id(d, pos) {
            Ok((id, p)) => {
                lemma_size(d, p);
            },
            Err(_) => {},
        }
    }
}

/// Where the payload of the first child with this identifier between `pos` and
/// `end` ends. Reading stops at that payload.
pub open spec fn child(d: Seq<u8>, pos: int, end: int, target: int) -> (
    Result<Option<int>, EbmlError>,
    int,
)
    decreases room(d, pos),
    via child_ends
{
    if pos < 0 || pos >= end {
        (Ok(None), pos)
    } else {
        match element(d, pos) {
            Err(e) => (Err(e), element_stop(d, pos)),
            Ok((id, size, p)) => if id == target {
                (Ok(Some(ending(p, size))), p)
            } else {
                match skipped(p, size) {
                    Err(e) => (Err(e), p),
                    Ok(t) => child(d, t, end, target),
                }
            },
        }
    }
}

#[via_fn]
proof fn child_ends(d: Seq<u8>, pos: int, end: int, target: int) {
    if pos >= 0 {
        lemma_elements(d, pos);
    }
}

/// Reading an element moves forward.
pub proof fn lemma_elements(d: Seq<u8>, pos: int)
    requires
        0 <= pos,
    ensures
        element(d, pos) is Ok ==> pos < d.len() && pos < element(d, pos)->Ok_0.2 <= d.len()
            && element(d, pos)->Ok_0.1 >= 0,
{
    lemma_size(d, pos);
    match vint_id(d, pos) {
        Ok((id, p)) => {
            lemma_size(d, p);
        },
        Err(_) => {},
    }
}

/// Where the tracks of a file end: those of the first Tracks element of the first
/// segment. Reading stops where they begin.
pub open spec fn tracks(d: Seq<u8>, pos: int) -> (Result<Option<int>, EbmlError>, int) {
    match found(d, pos, SEGMENT as int) {
        (Err(e), p) => (Err(e), p),
        (Ok(None), p) => (Ok(None), p),
        (Ok(Some(size)), p) => child(d, p, ending(p, size), TRACKS as int),
    }
}

/// Find an element, side by side from the position on; the position is then that
/// of its payload.
pub fn walk_to(reader: &mut EbmlReader, target: u32) -> (r: Result<Option<u64>, EbmlError>)
    ensures
        final(reader).data() == old(reader).data(),
        ({
            let want = found(old(reader).data(), old(reader).at(), target as int);
            &&& want.1 == final(reader).at()
            &&& match r {
                Ok(Some(v)) => want.0 == Ok::<Option<int>, EbmlError>(Some(v as int)),
                Ok(None) => want.0 == Ok::<Option<int>, EbmlError>(None),
                Err(e) => want.0 == Err::<Option<int>, EbmlError>(e),
            }
        }),
{
    proof {
        lemma_at(*reader);
    }
    let ghost d = reader.data();
    let ghost whole = found(d, reader.at(), target as int);
    loop
        invariant
            d == old(reader).data(),
            whole == found(d, old(reader).at(), target as int),
            reader.data() == d,
            reader.at() >= 0,
            found(d, reader.at(), target as int) == whole,
        decreases room(d, reader.at()),
    {
        proof {
            lemma_elements(d, reader.at());
        }
        match reader.read_vint_id() {
            Ok(id) => {
                let size: u64 = reader.read_vint_size()?;
                if id == target {
                    return Ok(Some(size));
                }
                reader.skip(size)?;
            },
            Err(e) => {
                match e {
                    EbmlError::Truncated => {
                        return Ok(None);
                    },
                    _ => {
                        return Err(e);
                    },
                }
            },
        }
    }
}

fn walk_children(reader: &mut EbmlReader, end: u64, target: u32) -> (r: Result<
    Option<u64>,
    EbmlError,
>)
    ensures
        final(reader).data() == old(reader).data(),
        ({
            let want = child(old(reader).data(), old(reader).at(), end as int, target as int);
            &&& want.1 == final(reader).at()
            &&& match r {
                Ok(Some(v)) => want.0 == Ok::<Option<int>, EbmlError>(Some(v as int)),
                Ok(None) => want.0 == Ok::<Option<int>, EbmlError>(None),
                Err(e) => want.0 == Err::<Option<int>, EbmlError>(e),
            }
        }),
{
    proof {
        lemma_at(*reader);
    }
    let ghost d = reader.data();
    let ghost whole = child(d, reader.at(), end as int, target as int);
    while reader.position() < end
        invariant
            d == old(reader).data(),
            whole == child(d, old(reader).at(), end as int, target as int),
            reader.data() == d,
            reader.at() >= 0,
            child(d, reader.at(), end as int, target as int) == whole,
        decreases room(d, reader.at()),
    {
        proof {
            lemma_elements(d, reader.at());
        }
        let (id, size) = reader.read_element()?;
        if id == target {
            return Ok(Some(reader.end_of(size)));
        }
        reader.skip(size)?;
    }
    Ok(None)
}

/// Find the tracks of a file; the position is then that of their payload, and
/// the result its end.
pub fn find_tracks(reader: &mut EbmlReader) -> (r: Result<Option<u64>, EbmlError>)
    ensures
        final(reader).data() == old(reader).data(),
        ({
            let want = tracks(old(reader).data(), old(reader).at());
            &&& want.1 == final(reader).at()
            &&& match r {
                Ok(Some(v)) => want.0 == Ok::<Option<int>, EbmlError>(Some(v as int)),
                Ok(None) => want.0 == Ok::<Option<int>, EbmlError>(None),
                Err(e) => want.0 == Err::<Option<int>, EbmlError>(e),
            }
        }),
{
    match walk_to(reader, SEGMENT)? {
        None => Ok(None),
        Some(size) => {
            let end: u64 = reader.end_of(size);
            walk_children(reader, end, TRACKS)
        },
    }
}

/// A block addition mapping between `pos` and `end`: the type and the data seen
/// so far go in, and the data of an `mvcC` mapping comes out, with the position
/// where reading stops.
pub open spec fn mapping(
    d: Seq<u8>,
    pos: int,
    end: int,
    kind: Option<u64>,
    extra: Option<Seq<u8>>,
) -> (Result<Option<Seq<u8>>, EbmlError>, int)
    decreases room(d, pos),
    via mapping_ends
{
    if pos < 0 || pos >= end {
        (
            Ok(
                if kind == Some(MVCC_TYPE as u64) {
                    extra
                } else {
                    None
                },
            ),
            pos,
        )
    } else {
        match element(d, pos) {
            Err(e) => (Err(e), element_stop(d, pos)),
            Ok((id, size, p)) => if id == BLOCK_ADD_ID_TYPE {
                match number(d, p, size) {
                    Err(e) => (Err(e), run_out(d, p)),
                    Ok((v, q)) => mapping(d, q, end, Some(v), extra),
                }
            } else if id == BLOCK_ADD_ID_EXTRA_DATA {
                match payload(d, p, size) {
                    Err(e) => (Err(e), run_out(d, p)),
                    Ok((b, q)) => mapping(d, q, end, kind, Some(b)),
                }
            } else {
                match skipped(p, size) {
                    Err(e) => (Err(e), p),
                    Ok(q) => mapping(d, q, end, kind, extra),
                }
            },
        }
    }
}

#[via_fn]
proof fn mapping_ends(d: Seq<u8>, pos: int, end: int, kind: Option<u64>, extra: Option<Seq<u8>>) {
    if pos >= 0 {
        lemma_elements(d, pos);
    }
}

/// Read a block addition mapping up to `end`: the data of an `mvcC` mapping.
pub fn scan_mapping(reader: &mut EbmlReader, end: u64) -> (r: Result<Option<Vec<u8>>, EbmlError>)
    ensures
        final(reader).data() == old(reader).data(),
        ({
            let want = mapping(old(reader).data(), old(reader).at(), end as int, None, None);
            &&& want.1 == final(reader).at()
            &&& match r {
                Ok(b) => want.0 == Ok::<Option<Seq<u8>>, EbmlError>(opt_bytes(b)),
                Err(e) => want.0 == Err::<Option<Seq<u8>>, EbmlError>(e),
            }
        }),
{
    proof {
        lemma_at(*reader);
    }
    let ghost d = reader.data();
    let ghost whole = mapping(d, reader.at(), end as int, None, None);
    let mut kind: Option<u64> = None;
    let mut extra: Option<Vec<u8>> = None;
    while reader.position() < end
        invariant
            d == old(reader).data(),
            whole == mapping(d, old(reader).at(), end as int, None, None),
            reader.data() == d,
            reader.at() >= 0,
            mapping(d, reader.at(), end as int, kind, opt_bytes(extra)) == whole,
        decreases room(d, reader.at()),
    {
        proof {
            lemma_elements(d, reader.at());
        }
        let (id, size) = reader.read_element()?;
        if id == BLOCK_ADD_ID_TYPE {
            kind = Some(reader.read_uint(size)?);
        } else if id == BLOCK_ADD_ID_EXTRA_DATA {
            extra = Some(reader.read_bytes(size)?);
        } else {
            reader.skip(size)?;
        }
    }
    match kind {
        Some(k) => {
            if k == MVCC_TYPE as u64 {
                Ok(extra)
            } else {
                Ok(None)
            }
        },
        None => Ok(None),
    }
}

/// The first `mvcC` data of a track entry between `pos` and `end`, and the
/// position where reading stops.
pub open spec fn entry_mvcc(d: Seq<u8>, pos: int, end: int) -> (
    Result<Option<Seq<u8>>, EbmlError>,
    int,
)
    decreases room(d, pos),
    via entry_mvcc_ends
{
    if pos < 0 || pos >= end {
        (Ok(None), pos)
    } else {
        match element(d, pos) {
            Err(e) => (Err(e), element_stop(d, pos)),
            Ok((id, size, p)) => if id == BLOCK_ADDITION_MAPPING {
                match mapping(d, p, ending(p, size), None, None) {
                    (Err(e), q) => (Err(e), q),
                    (Ok(Some(b)), q) => (Ok(Some(b)), q),
                    (Ok(None), _) => entry_mvcc(d, ending(p, size), end),
                }
            } else {
                match skipped(p, size) {
                    Err(e) => (Err(e), p),
                    Ok(q) => entry_mvcc(d, q, end),
                }
            },
        }
    }
}

#[via_fn]
proof fn entry_mvcc_ends(d: Seq<u8>, pos: int, end: int) {
    if pos >= 0 {
        lemma_elements(d, pos);
    }
}

fn scan_track_entry(reader: &mut EbmlReader, end: u64) -> (r: Result<Option<Vec<u8>>, EbmlError>)
    ensures
        final(reader).data() == old(reader).data(),
        ({
            let want = entry_mvcc(old(reader).data(), old(reader).at(), end as int);
            &&& want.1 == final(reader).at()
            &&& match r {
                Ok(b) => want.0 == Ok::<Option<Seq<u8>>, EbmlError>(opt_bytes(b)),
                Err(e) => want.0 == Err::<Option<Seq<u8>>, EbmlError>(e),
            }
        }),
{
    proof {
        lemma_at(*reader);
    }
    let ghost d = reader.data();
    let ghost whole = entry_mvcc(d, reader.at(), end as int);
    while reader.position() < end
        invariant
            d == old(reader).data(),
            whole == entry_mvcc(d, old(reader).at(), end as int),
            reader.data() == d,
            reader.at() >= 0,
            entry_mvcc(d, reader.at(), end as int) == whole,
        decreases room(d, reader.at()),
    {
        proof {
            lemma_elements(d, reader.at());
        }
        let (id, size) = reader.read_element()?;
        if id == BLOCK_ADDITION_MAPPING {
            let map_end: u64 = reader.end_of(size);
            let bytes = scan_mapping(reader, map_end)?;
            if bytes.is_some() {
                return Ok(bytes);
            }
            reader.seek(map_end);
        } else {
            reader.skip(size)?;
        }
    }
    Ok(None)
}

/// The first `mvcC` data of the tracks between `pos` and `end`, and the position
/// where reading stops.
pub open spec fn tracks_mvcc(d: Seq<u8>, pos: int, end: int) -> (
    Result<Option<Seq<u8>>, EbmlError>,
    int,
)
    decreases room(d, pos),
    via tracks_mvcc_ends
{
    if pos < 0 || pos >= end {
        (Ok(None), pos)
    } else {
        match element(d, pos) {
            Err(e) => (Err(e), element_stop(d, pos)),
            Ok((id, size, p)) => if id == TRACK_ENTRY {
                match entry_mvcc(d, p, ending(p, size)) {
                    (Err(e), q) => (Err(e), q),
                    (Ok(Some(b)), q) => (Ok(Some(b)), q),
                    (Ok(None), _) => tracks_mvcc(d, ending(p, size), end),
                }
            } else {
                match skipped(p, size) {
                    Err(e) => (Err(e), p),
                    Ok(q) => tracks_mvcc(d, q, end),
                }
            },
        }
    }
}

#[via_fn]
proof fn tracks_mvcc_ends(d: Seq<u8>, pos: int, end: int) {
    if pos >= 0 {
        lemma_elements(d, pos);
    }
}

/// The `mvcC` data of a file from `pos` on, and the position where reading stops.
pub open spec fn file_mvcc(d: Seq<u8>, pos: int) -> (Result<Option<Seq<u8>>, EbmlError>, int) {
    match tracks(d, pos) {
        (Err(e), p) => (Err(e), p),
        (Ok(None), p) => (Ok(None), p),
        (Ok(Some(end)), p) => tracks_mvcc(d, p, end),
    }
}

/// Find the data of the first `mvcC` mapping of a file.
pub fn find_mvcc_bytes(reader: &mut EbmlReader) -> (r: Result<Option<Vec<u8>>, EbmlError>)
    ensures
        final(reader).data() == old(reader).data(),
        ({
            let want = file_mvcc(old(reader).data(), old(reader).at());
            &&& want.1 == final(reader).at()
            &&& match r {
                Ok(b) => want.0 == Ok::<Option<Seq<u8>>, EbmlError>(opt_bytes(b)),
                Err(e) => want.0 == Err::<Option<Seq<u8>>, EbmlError>(e),
            }
        }),
{
    let end: u64 = match find_tracks(reader)? {
        Some(e) => e,
        None => {
            return Ok(None);
        },
    };
    proof {
        lemma_at(*reader);
    }
    let ghost d = reader.data();
    let ghost from = reader.at();
    let ghost whole = tracks_mvcc(d, from, end as int);
    while reader.position() < end
        invariant
            d == old(reader).data(),
            tracks(d, old(reader).at()) == (
                Ok::<Option<int>, EbmlError>(Some(end as int)),
                from,
            ),
            whole == tracks_mvcc(d, from, end as int),
            reader.data() == d,
            reader.at() >= 0,
            tracks_mvcc(d, reader.at(), end as int) == whole,
        decreases room(d, reader.at()),
    {
        proof {
            lemma_elements(d, reader.at());
        }
        let (id, size) = reader.read_element()?;
        if id == TRACK_ENTRY {
            let entry_end: u64 = reader.end_of(size);
            let bytes = scan_track_entry(reader, entry_end)?;
            if bytes.is_some() {
                return Ok(bytes);
            }
            reader.seek(entry_end);
        } else {
            reader.skip(size)?;
        }
    }
    Ok(None)
}

// ---- stereo mode ----

/// The first of two values that is there.
pub open spec fn first_of<T>(a: Option<T>, b: Option<T>) -> Option<T> {
    if a is Some {
        a
    } else {
        b
    }
}

/// The stereo mode of a video element between `pos` and `end`, after `mode`, and
/// the position where reading stops.
pub open spec fn video_mode(d: Seq<u8>, pos: int, end: int, mode: Option<u64>) -> (
    Result<Option<u64>, EbmlError>,
    int,
)
    decreases room(d, pos),
    via video_mode_ends
{
    if pos < 0 || pos >= end {
        (Ok(mode), pos)
    } else {
        match element(d, pos) {
            Err(e) => (Err(e), element_stop(d, pos)),
            Ok((id, size, p)) => if id == STEREO_MODE {
                match number(d, p, size) {
                    Err(e) => (Err(e), run_out(d, p)),
                    Ok((v, q)) => video_mode(d, q, end, first_of(mode, Some(v))),
                }
            } else {
                match skipped(p, size) {
                    Err(e) => (Err(e), p),
                    Ok(q) => video_mode(d, q, end, mode),
                }
            },
        }
    }
}

#[via_fn]
proof fn video_mode_ends(d: Seq<u8>, pos: int, end: int, mode: Option<u64>) {
    if pos >= 0 {
        lemma_elements(d, pos);
    }
}

proof fn lemma_video_forward(d: Seq<u8>, pos: int, end: int, mode: Option<u64>)
    requires
        0 <= pos,
    ensures
        video_mode(d, pos, end, mode).0 is Ok ==> video_mode(d, pos, end, mode).1 >= pos,
    decreases room(d, pos),
{
    if pos < end {
        lemma_elements(d, pos);
        match element(d, pos) {
            Ok((id, size, p)) => if id == STEREO_MODE {
                match number(d, p, size) {
                    Ok((v, q)) => {
                        lemma_video_forward(d, q, end, first_of(mode, Some(v)));
                    },
                    Err(_) => {},
                }
            } else {
                match skipped(p, size) {
                    Ok(q) => {
                        lemma_video_forward(d, q, end, mode);
                    },
                    Err(_) => {},
                }
            },
            Err(_) => {},
        }
    }
}

fn scan_video(reader: &mut EbmlReader, end: u64, mode: Option<u64>) -> (r: Result<
    Option<u64>,
    EbmlError,
>)
    ensures
        final(reader).data() == old(reader).data(),
        ({
            let want = video_mode(old(reader).data(), old(reader).at(), end as int, mode);
            &&& want.1 == final(reader).at()
            &&& match r {
                Ok(m) => want.0 == Ok::<Option<u64>, EbmlError>(m)
                    && final(reader).at() >= old(reader).at(),
                Err(e) => want.0 == Err::<Option<u64>, EbmlError>(e),
            }
        }),
{
    proof {
        lemma_at(*reader);
    }
    let ghost d = reader.data();
    let ghost whole = video_mode(d, reader.at(), end as int, mode);
    let mut now: Option<u64> = mode;
    while reader.position() < end
        invariant
            d == old(reader).data(),
            whole == video_mode(d, old(reader).at(), end as int, mode),
            reader.data() == d,
            reader.at() >= old(reader).at(),
            old(reader).at() >= 0,
            video_mode(d, reader.at(), end as int, now) == whole,
        decreases room(d, reader.at()),
    {
        proof {
            lemma_elements(d, reader.at());
        }
        let (id, size) = reader.read_element()?;
        if id == STEREO_MODE {
            let v: u64 = reader.read_uint(size)?;
            if now.is_none() {
                now = Some(v);
            }
        } else {
            reader.skip(size)?;
        }
    }
    Ok(now)
}

/// What a track entry between `pos` and `end` says, after `info`, and the position
/// where reading stops.
pub open spec fn entry_info(d: Seq<u8>, pos: int, end: int, info: StereoInfo) -> (
    Result<StereoInfo, EbmlError>,
    int,
)
    decreases room(d, pos),
    via entry_info_ends
{
    if pos < 0 || pos >= end {
        (Ok(info), pos)
    } else {
        match element(d, pos) {
            Err(e) => (Err(e), element_stop(d, pos)),
            Ok((id, size, p)) => if id == BLOCK_ADDITION_MAPPING {
                match mapping(d, p, ending(p, size), None, None) {
                    (Err(e), q) => (Err(e), q),
                    (Ok(b), _) => entry_info(
                        d,
                        ending(p, size),
                        end,
                        StereoInfo { mvcc: first_of(info.mvcc, b), ..info },
                    ),
                }
            } else if id == VIDEO {
                match video_mode(d, p, ending(p, size), info.mode) {
                    (Err(e), q) => (Err(e), q),
                    (Ok(m), q) => entry_info(d, q, end, StereoInfo { mode: m, ..info }),
                }
            } else {
                match skipped(p, size) {
                    Err(e) => (Err(e), p),
                    Ok(q) => entry_info(d, q, end, info),
                }
            },
        }
    }
}

#[via_fn]
proof fn entry_info_ends(d: Seq<u8>, pos: int, end: int, info: StereoInfo) {
    if pos >= 0 {
        lemma_elements(d, pos);
        match element(d, pos) {
            Ok((id, size, p)) => {
                lemma_video_forward(d, p, ending(p, size), info.mode);
            },
            Err(_) => {},
        }
    }
}

fn scan_track_entry_full(reader: &mut EbmlReader, end: u64, info: &mut Mkv3dInfo) -> (r: Result<
    (),
    EbmlError,
>)
    ensures
        final(reader).data() == old(reader).data(),
        ({
            let want = entry_info(old(reader).data(), old(reader).at(), end as int, old(info)@);
            &&& want.1 == final(reader).at()
            &&& match r {
                Ok(_) => want.0 == Ok::<StereoInfo, EbmlError>(final(info)@),
                Err(e) => want.0 == Err::<StereoInfo, EbmlError>(e),
            }
        }),
{
    proof {
        lemma_at(*reader);
    }
    let ghost d = reader.data();
    let ghost whole = entry_info(d, reader.at(), end as int, info@);
    while reader.position() < end
        invariant
            d == old(reader).data(),
            whole == entry_info(d, old(reader).at(), end as int, old(info)@),
            reader.data() == d,
            reader.at() >= 0,
            entry_info(d, reader.at(), end as int, info@) == whole,
        decreases room(d, reader.at()),
    {
        proof {
            lemma_elements(d, reader.at());
        }
        let (id, size) = reader.read_element()?;
        if id == BLOCK_ADDITION_MAPPING {
            let map_end: u64 = reader.end_of(size);
            let bytes = scan_mapping(reader, map_end)?;
            if info.mvcc_bytes.is_none() {
                info.mvcc_bytes = bytes;
            }
            reader.seek(map_end);
        } else if id == VIDEO {
            let video_end: u64 = reader.end_of(size);
            info.stereo_mode = scan_video(reader, video_end, info.stereo_mode)?;
        } else {
            reader.skip(size)?;
        }
    }
    Ok(())
}

/// What the tracks between `pos` and `end` say, after `info`, and the position
/// where reading stops.
pub open spec fn tracks_info(d: Seq<u8>, pos: int, end: int, info: StereoInfo) -> (
    Result<StereoInfo, EbmlError>,
    int,
)
    decreases room(d, pos),
    via tracks_info_ends
{
    if pos < 0 || pos >= end {
        (Ok(info), pos)
    } else {
        match element(d, pos) {
            Err(e) => (Err(e), element_stop(d, pos)),
            Ok((id, size, p)) => if id == TRACK_ENTRY {
                match entry_info(d, p, ending(p, size), info) {
                    (Err(e), q) => (Err(e), q),
                    (Ok(i), _) => tracks_info(d, ending(p, size), end, i),
                }
            } else {
                match skipped(p, size) {
                    Err(e) => (Err(e), p),
                    Ok(q) => tracks_info(d, q, end, info),
                }
            },
        }
    }
}

#[via_fn]
proof fn tracks_info_ends(d: Seq<u8>, pos: int, end: int, info: StereoInfo) {
    if pos >= 0 {
        lemma_elements(d, pos);
    }
}

/// What a file says about stereo video, from `pos` on, and the position where
/// reading stops.
pub open spec fn file_info(d: Seq<u8>, pos: int) -> (Result<StereoInfo, EbmlError>, int) {
    let none = StereoInfo { mvcc: None, mode: None };
    match tracks(d, pos) {
        (Err(e), p) => (Err(e), p),
        (Ok(None), p) => (Ok(none), p),
        (Ok(Some(end)), p) => tracks_info(d, p, end, none),
    }
}

/// Collect what a file says about stereo video: the first `mvcC` data and the
/// first stereo mode of its tracks.
pub fn scan_3d_info(reader: &mut EbmlReader) -> (r: Result<Mkv3dInfo, EbmlError>)
    ensures
        final(reader).data() == old(reader).data(),
        ({
            let want = file_info(old(reader).data(), old(reader).at());
            &&& want.1 == final(reader).at()
            &&& match r {
                Ok(i) => want.0 == Ok::<StereoInfo, EbmlError>(i@),
                Err(e) => want.0 == Err::<StereoInfo, EbmlError>(e),
            }
        }),
{
    let mut info = Mkv3dInfo { mvcc_bytes: None, stereo_mode: None };
    let end: u64 = match find_tracks(reader)? {
        Some(e) => e,
        None => {
            return Ok(info);
        },
    };
    proof {
        lemma_at(*reader);
    }
    let ghost d = reader.data();
    let ghost from = reader.at();
    let ghost whole = tracks_info(d, from, end as int, info@);
    while reader.position() < end
        invariant
            d == old(reader).data(),
            tracks(d, old(reader).at()) == (
                Ok::<Option<int>, EbmlError>(Some(end as int)),
                from,
            ),
            whole == tracks_info(
                d,
                from,
                end as int,
                StereoInfo { mvcc: None, mode: None },
            ),
            reader.data() == d,
            reader.at() >= 0,
            tracks_info(d, reader.at(), end as int, info@) == whole,
        decreases room(d, reader.at()),
    {
        proof {
            lemma_elements(d, reader.at());
        }
        let (id, size) = reader.read_element()?;
        if id == TRACK_ENTRY {
            let entry_end: u64 = reader.end_of(size);
            scan_track_entry_full(reader, entry_end, &mut info)?;
            reader.seek(entry_end);
        } else {
            reader.skip(size)?;
        }
    }
    Ok(info)
}

} // verus!

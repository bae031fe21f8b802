//! Whole Matroska files: finding the configuration record and the stereo mode,
//! and extracting both views.

use ripsaw::mvc::annexb::NalSplitter;
use ripsaw::mvc::ebml::id::{
    BLOCK, BLOCK_ADDITIONAL, BLOCK_ADDITIONS, BLOCK_ADDITION_MAPPING, BLOCK_ADD_ID,
    BLOCK_ADD_ID_EXTRA_DATA, BLOCK_ADD_ID_TYPE, BLOCK_GROUP, BLOCK_MORE, CLUSTER, SEGMENT,
    SIMPLE_BLOCK, STEREO_MODE, TRACKS, TRACK_ENTRY, TRACK_NUMBER, VIDEO,
};
use ripsaw::mvc::ebml::{EbmlError, EbmlReader};
use ripsaw::mvc::mkv_extract::{
    block_frame_data, extract_to_annex_b, read_vint_size_from, ExtractError, ExtractionStats,
};
use ripsaw::mvc::mvcc::{find_mvcc_bytes, parse, scan_3d_info, MvccError};

const EBML_HEADER: u32 = 0x1A45_DFA3;

fn element(id: u32, payload: &[u8]) -> Vec<u8> {
    let mut out: Vec<u8> = id.to_be_bytes().iter().copied().skip_while(|&b| b == 0).collect();
    out.push(0x10 | (payload.len() >> 24) as u8);
    out.extend_from_slice(&(payload.len() as u32).to_be_bytes()[1..]);
    out.extend_from_slice(payload);
    out
}

fn node(id: u32, children: &[Vec<u8>]) -> Vec<u8> {
    element(id, &children.concat())
}

fn record() -> Vec<u8> {
    vec![1, 118, 0, 41, 0xFD, 0x81, 0, 3, 0x6F, 1, 2, 1, 0, 2, 0x68, 3]
}

fn mapping(kind: &[u8], data: &[u8]) -> Vec<u8> {
    node(
        BLOCK_ADDITION_MAPPING,
        &[element(BLOCK_ADD_ID_TYPE, kind), element(BLOCK_ADD_ID_EXTRA_DATA, data)],
    )
}

fn track(number: u8, rest: &[Vec<u8>]) -> Vec<u8> {
    let mut parts = vec![element(TRACK_NUMBER, &[number])];
    parts.extend_from_slice(rest);
    node(TRACK_ENTRY, &parts)
}

fn file(tracks: &[Vec<u8>], clusters: &[Vec<u8>]) -> Vec<u8> {
    let mut parts = vec![element(0xEC, &[0; 5]), node(TRACKS, tracks)];
    parts.extend_from_slice(clusters);
    let mut out = element(EBML_HEADER, &[1, 2, 3]);
    out.extend_from_slice(&node(SEGMENT, &parts));
    out
}

fn units(list: &[&[u8]]) -> Vec<u8> {
    let mut out = Vec::new();
    for u in list {
        out.extend_from_slice(&(u.len() as u16).to_be_bytes());
        out.extend_from_slice(u);
    }
    out
}

fn block(number: u8, flags: u8, frame: &[u8]) -> Vec<u8> {
    let mut out = vec![0x80 | number, 0, 0, flags];
    out.extend_from_slice(frame);
    out
}

fn addition(id: Option<u8>, payload: &[u8]) -> Vec<u8> {
    let mut parts = Vec::new();
    if let Some(n) = id {
        parts.push(element(BLOCK_ADD_ID, &[n]));
    }
    parts.push(element(BLOCK_ADDITIONAL, payload));
    node(BLOCK_MORE, &parts)
}

fn stereo_file() -> Vec<u8> {
    let group = node(
        BLOCK_GROUP,
        &[
            element(BLOCK, &block(2, 0, &units(&[&[0x65, 7], &[0x41, 8]]))),
            node(
                BLOCK_ADDITIONS,
                &[addition(Some(4), &units(&[&[9]])), addition(None, &units(&[&[0x74, 1, 1]]))],
            ),
        ],
    );
    let other = node(BLOCK_GROUP, &[element(BLOCK, &block(1, 0, &units(&[&[0x55]])))]);
    let simple = element(SIMPLE_BLOCK, &block(2, 0, &units(&[&[0x41, 9, 9]])));
    let laced = element(SIMPLE_BLOCK, &block(2, 2, &units(&[&[0x41]])));
    file(
        &[
            track(1, &[mapping(b"dvcC", &[0])]),
            track(2, &[node(VIDEO, &[element(STEREO_MODE, &[13])]), mapping(b"mvcC", &record())]),
        ],
        &[node(CLUSTER, &[group, other]), node(CLUSTER, &[laced, simple])],
    )
}

#[test]
fn both_views_of_a_file_are_extracted() {
    let data = stereo_file();
    let mut out = Vec::new();
    let stats = extract_to_annex_b(&mut EbmlReader::new(&data), &mut out).unwrap();
    assert_eq!(stats, ExtractionStats { frames: 2, base_nals: 3, dep_nals: 1 });
    let mut split = NalSplitter::new(&out);
    let mut found: Vec<Vec<u8>> = Vec::new();
    while let Some(u) = split.next() {
        found.push(u.to_vec());
    }
    assert_eq!(
        found,
        vec![
            vec![0x6F, 1, 2],
            vec![0x68, 3],
            vec![0x65, 7],
            vec![0x41, 8],
            vec![0x74, 1, 1],
            vec![0x41, 9, 9],
        ]
    );
}

#[test]
fn stereo_information_of_a_file() {
    let data = stereo_file();
    let info = scan_3d_info(&mut EbmlReader::new(&data)).unwrap();
    assert_eq!(info.mvcc_bytes, Some(record()));
    assert_eq!(info.stereo_mode, Some(13));
    assert!(info.has_mvc());
    assert_eq!(find_mvcc_bytes(&mut EbmlReader::new(&data)).unwrap(), Some(record()));
}

#[test]
fn packed_stereo_is_not_mvc() {
    let data = file(&[track(1, &[node(VIDEO, &[element(STEREO_MODE, &[1])])])], &[]);
    let info = scan_3d_info(&mut EbmlReader::new(&data)).unwrap();
    assert_eq!(info.stereo_mode, Some(1));
    assert_eq!(info.mvcc_bytes, None);
    assert!(!info.has_mvc());
    assert_eq!(find_mvcc_bytes(&mut EbmlReader::new(&data)).unwrap(), None);
}

#[test]
fn a_file_without_tracks_says_nothing() {
    let mut data = element(EBML_HEADER, &[0]);
    assert!(!scan_3d_info(&mut EbmlReader::new(&data)).unwrap().has_mvc());
    data.extend_from_slice(&node(SEGMENT, &[element(0xEC, &[0])]));
    assert!(!scan_3d_info(&mut EbmlReader::new(&data)).unwrap().has_mvc());
    assert_eq!(find_mvcc_bytes(&mut EbmlReader::new(&data)).unwrap(), None);
}

#[test]
fn extraction_needs_a_stereo_track() {
    let data = file(&[track(1, &[mapping(b"dvcC", &record())])], &[]);
    let mut out = Vec::new();
    let r = extract_to_annex_b(&mut EbmlReader::new(&data), &mut out);
    assert_eq!(r.unwrap_err(), ExtractError::NoTrack);
    assert!(out.is_empty());
}

#[test]
fn extraction_reports_a_bad_record() {
    let data = file(&[track(1, &[mapping(b"mvcC", &[1, 2])])], &[]);
    let r = extract_to_annex_b(&mut EbmlReader::new(&data), &mut Vec::new());
    assert_eq!(r.unwrap_err(), ExtractError::Mvcc(MvccError::TooShort(2)));
    assert_eq!(
        MvccError::TooShort(2).message(),
        "buffer too short for header (got 2 bytes, need >= 6)"
    );
}

#[test]
fn extraction_reports_a_truncated_file() {
    let data = stereo_file();
    let r = extract_to_annex_b(&mut EbmlReader::new(&data[..data.len() - 1]), &mut Vec::new());
    assert_eq!(r.unwrap_err(), ExtractError::Ebml(EbmlError::Truncated));
}

#[test]
fn extraction_reports_bad_blocks() {
    let tracks = [track(2, &[mapping(b"mvcC", &record())])];
    let cases: [(&[u8], ExtractError); 4] = [
        (&[], ExtractError::EmptyVint),
        (&[0, 0, 0, 0], ExtractError::InvalidVint),
        (&[0x40], ExtractError::LongVint),
        (&[0x82, 0, 0], ExtractError::ShortBlock),
    ];
    for (bytes, want) in cases {
        let data = file(&tracks, &[node(CLUSTER, &[element(SIMPLE_BLOCK, bytes)])]);
        let r = extract_to_annex_b(&mut EbmlReader::new(&data), &mut Vec::new());
        assert_eq!(r.unwrap_err(), want);
    }
}

#[test]
fn long_track_numbers_are_read() {
    assert_eq!(read_vint_size_from(&[0x41, 0x02, 9]).unwrap(), (0x102, 2));
    assert_eq!(block_frame_data(&[0x41, 0x02, 0, 0, 0, 5], 0x102).unwrap(), Some(&[5u8][..]));
    assert_eq!(block_frame_data(&[0x41, 0x02, 0, 0, 0, 5], 2).unwrap(), None);
}

#[test]
fn element_headers_and_payloads() {
    let data = element(TRACK_NUMBER, &[1, 2, 3]);
    let mut r = EbmlReader::new(&data);
    assert_eq!(r.read_element().unwrap(), (TRACK_NUMBER, 3));
    assert_eq!(r.read_uint(3).unwrap(), 0x01_0203);
    assert_eq!(r.position(), data.len() as u64);
    assert_eq!(r.read_bytes(1).unwrap_err(), EbmlError::Truncated);
    r.seek(0);
    r.skip(5).unwrap();
    assert_eq!(r.read_bytes(3).unwrap(), vec![1, 2, 3]);
}

#[test]
fn element_errors() {
    let long_id = [0x08, 1, 1, 1, 1];
    assert_eq!(EbmlReader::new(&long_id).read_vint_id().unwrap_err(), EbmlError::OversizedVint(5));
    assert_eq!(EbmlError::OversizedVint(5).message(), "VINT length 5 > 8 unsupported");
    assert_eq!(EbmlReader::new(&[]).read_vint_size().unwrap_err(), EbmlError::Truncated);
    assert_eq!(EbmlReader::new(&[0x20, 1]).read_vint_size().unwrap_err(), EbmlError::Truncated);
    assert_eq!(EbmlReader::new(&[0]).read_vint_size().unwrap_err(), EbmlError::InvalidVint);
    let mut r = EbmlReader::new(&[1, 2, 3]);
    r.seek(2);
    assert_eq!(r.skip(u64::MAX - 2).unwrap_err(), EbmlError::Seek);
    r.skip(u64::MAX - 1).unwrap();
    assert_eq!(r.read_bytes(3).unwrap(), vec![1, 2, 3]);
    r.seek(u64::MAX);
    assert_eq!(r.skip(1).unwrap_err(), EbmlError::Seek);
    assert_eq!(
        EbmlError::ElementTooLarge(1_000).message(),
        "element of size 1000 is too large to load into memory"
    );
}

#[test]
fn a_failed_read_stops_at_a_known_place() {
    let mut r = EbmlReader::new(&[0, 7, 0x20, 1]);
    assert_eq!(r.read_vint_size().unwrap_err(), EbmlError::InvalidVint);
    assert_eq!(r.position(), 1);
    r.seek(2);
    assert_eq!(r.read_vint_size().unwrap_err(), EbmlError::Truncated);
    assert_eq!(r.position(), 4);
    r.seek(9);
    assert_eq!(r.read_vint_id().unwrap_err(), EbmlError::Truncated);
    assert_eq!(r.position(), 9);
    let mut r = EbmlReader::new(&[9, 0x08, 1, 1, 1, 1, 2]);
    r.seek(1);
    assert_eq!(r.read_vint_id().unwrap_err(), EbmlError::OversizedVint(5));
    assert_eq!(r.position(), 6);
    let mut r = EbmlReader::new(&[0xD7, 0, 5]);
    assert_eq!(r.read_element().unwrap_err(), EbmlError::InvalidVint);
    assert_eq!(r.position(), 2);
    r.seek(1);
    assert_eq!(r.read_bytes(3).unwrap_err(), EbmlError::Truncated);
    assert_eq!(r.position(), 3);
    r.seek(1);
    assert_eq!(r.read_uint(4).unwrap_err(), EbmlError::Truncated);
    assert_eq!(r.position(), 3);
    r.seek(2);
    assert_eq!(r.skip(u64::MAX - 2).unwrap_err(), EbmlError::Seek);
    assert_eq!(r.position(), 2);
}

#[test]
fn searches_stop_at_a_known_place() {
    let map = mapping(b"mvcC", &record());
    let data = file(&[track(2, &[map])], &[]);
    let mut r = EbmlReader::new(&data);
    assert!(find_mvcc_bytes(&mut r).unwrap().is_some());
    assert_eq!(r.position(), data.len() as u64);
    r.seek(0);
    scan_3d_info(&mut r).unwrap();
    assert_eq!(r.position(), data.len() as u64);
    let head = element(EBML_HEADER, &[1, 2, 3]);
    let mut r = EbmlReader::new(&head);
    assert_eq!(find_mvcc_bytes(&mut r).unwrap(), None);
    assert_eq!(r.position(), head.len() as u64);
    let mut bad = head.clone();
    bad.extend_from_slice(&[0, 9, 9]);
    let mut r = EbmlReader::new(&bad);
    assert_eq!(find_mvcc_bytes(&mut r).unwrap_err(), EbmlError::InvalidVint);
    assert_eq!(r.position(), head.len() as u64 + 1);
    let whole = stereo_file();
    let mut r = EbmlReader::new(&whole);
    extract_to_annex_b(&mut r, &mut Vec::new()).unwrap();
    assert_eq!(r.position(), whole.len() as u64);
}

/// The units as an Annex B stream.
fn annex_b(list: &[&[u8]]) -> Vec<u8> {
    let mut out = Vec::new();
    for u in list {
        out.extend_from_slice(&[0, 0, 0, 1]);
        out.extend_from_slice(u);
    }
    out
}

#[test]
fn the_stream_up_to_a_bad_element_is_kept() {
    let data = stereo_file();
    let mut out = vec![0xAA];
    let r = extract_to_annex_b(&mut EbmlReader::new(&data[..data.len() - 1]), &mut out);
    assert!(r.is_err());
    let mut want = vec![0xAA];
    want.extend(annex_b(&[&[0x6F, 1, 2], &[0x68, 3], &[0x65, 7], &[0x41, 8], &[0x74, 1, 1]]));
    assert_eq!(out, want);

    let tracks = [track(2, &[mapping(b"mvcC", &record())])];
    let bad = file(&tracks, &[node(CLUSTER, &[element(SIMPLE_BLOCK, &[])])]);
    let mut out = Vec::new();
    assert!(extract_to_annex_b(&mut EbmlReader::new(&bad), &mut out).is_err());
    assert_eq!(out, annex_b(&[&[0x6F, 1, 2], &[0x68, 3]]));

    let data = file(&[track(1, &[mapping(b"mvcC", &[1, 2])])], &[]);
    let mut out = vec![5];
    assert!(extract_to_annex_b(&mut EbmlReader::new(&data), &mut out).is_err());
    assert_eq!(out, vec![5]);
}

#[test]
fn records_list_their_parameter_sets() {
    let r = parse(&record()).unwrap();
    assert_eq!(r.length_size_minus_one, 1);
    assert_eq!(r.sps_nals, vec![vec![0x6F, 1, 2]]);
    assert_eq!(r.pps_nals, vec![vec![0x68, 3]]);
    assert_eq!(parse(&record()[..11]).unwrap_err(), MvccError::TruncatedNalList);
    assert_eq!(parse(&record()[..15]).unwrap_err(), MvccError::TruncatedNalList);
    assert_eq!(
        MvccError::TruncatedNalList.message(),
        "buffer truncated while reading NAL unit list"
    );
}

#[test]
fn readers_give_their_document_back() {
    let data = [0x42u8, 0x86, 0x81, 0x01];
    let reader = EbmlReader::new(&data);
    assert_eq!(reader.position(), 0);
    assert_eq!(reader.into_inner(), &data[..]);
}

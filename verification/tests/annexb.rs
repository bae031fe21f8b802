//! Byte streams split into NAL units.

use ripsaw::mvc::annexb::{NalReader, NalSplitter};

fn split(data: &[u8]) -> Vec<&[u8]> {
    let mut splitter = NalSplitter::new(data);
    let mut nals = Vec::new();
    while let Some(nal) = splitter.next() {
        nals.push(nal);
    }
    nals
}

#[test]
fn splits_three_byte_start_codes() {
    let data = b"\x00\x00\x01\x67\x42\x00\x00\x01\x68\x42";
    let nals: Vec<&[u8]> = split(data);
    assert_eq!(nals.len(), 2);
    assert_eq!(nals[0], &[0x67, 0x42]);
    assert_eq!(nals[1], &[0x68, 0x42]);
}

#[test]
fn splits_four_byte_start_codes() {
    let data = b"\x00\x00\x00\x01\x67\x42\x00\x00\x00\x01\x68\x42";
    let nals: Vec<&[u8]> = split(data);
    assert_eq!(nals.len(), 2);
    assert_eq!(nals[0], &[0x67, 0x42]);
    assert_eq!(nals[1], &[0x68, 0x42]);
}

#[test]
fn handles_mixed_three_and_four_byte_start_codes() {
    let data = b"\x00\x00\x00\x01\x67\x00\x00\x01\x68\x00\x00\x00\x01\x65";
    let nals: Vec<&[u8]> = split(data);
    assert_eq!(nals.len(), 3);
    assert_eq!(nals[0], &[0x67]);
    assert_eq!(nals[1], &[0x68]);
    assert_eq!(nals[2], &[0x65]);
}

#[test]
fn empty_input_yields_no_nals() {
    let nals: Vec<&[u8]> = split(&[]);
    assert!(nals.is_empty());
}

#[test]
fn data_without_start_codes_yields_no_nals() {
    let data = b"\x01\x02\x03\x04";
    let nals: Vec<&[u8]> = split(data);
    assert!(nals.is_empty());
}

#[test]
fn trims_trailing_zero_padding() {
    let data = b"\x00\x00\x01\x67\x42\x00\x00\x00";
    let nals: Vec<&[u8]> = split(data);
    assert_eq!(nals.len(), 1);
    assert_eq!(nals[0], &[0x67, 0x42]);
}

fn stream_nals(data: &[u8], step: usize) -> Vec<Vec<u8>> {
    let mut reader = NalReader::new();
    let mut nals = Vec::new();
    for chunk in data.chunks(step) {
        reader.push(chunk);
        while let Some(nal) = reader.next() {
            nals.push(nal);
        }
    }
    if let Some(nal) = reader.finish() {
        nals.push(nal);
    }
    nals
}

#[test]
fn nal_reader_matches_splitter_for_all_chunk_sizes() {
    let cases: &[&[u8]] = &[
        b"\x00\x00\x01\x67\x42\x00\x00\x01\x68\x42",
        b"\x00\x00\x00\x01\x67\x42\x00\x00\x00\x01\x68\x42",
        b"\x00\x00\x00\x01\x67\x00\x00\x01\x68\x00\x00\x00\x01\x65",
        b"\x00\x00\x01\x67\x42\x00\x00\x00",
        b"", b"\x01\x02\x03\x04",
    ];
    for data in cases {
        let want: Vec<Vec<u8>> = split(data).iter().map(|s| s.to_vec()).collect();
        for step in 1..=data.len().max(1) {
            assert_eq!(stream_nals(data, step), want, "case {data:?} step {step}");
        }
    }
}

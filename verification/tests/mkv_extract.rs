//! Blocks and length-prefixed units.

use ripsaw::mvc::mkv_extract::{
    block_frame_data, count_length_prefixed, read_vint_size_from, write_length_prefixed,
};

#[test]
fn read_vint_size_from_handles_one_byte() {
    let (v, len) = read_vint_size_from(&[0x82, 0xFF]).unwrap();
    assert_eq!(v, 2);
    assert_eq!(len, 1);
}

#[test]
fn write_length_prefixed_wraps_each_nal_with_start_code() {
    let mut data = vec![0u8, 0, 0, 3];
    data.extend_from_slice(&[0x67, 0x42, 0x00]);
    let mut out = Vec::new();
    write_length_prefixed(&mut out, &data, 4);
    assert_eq!(out, vec![0, 0, 0, 1, 0x67, 0x42, 0x00]);
}

#[test]
fn count_length_prefixed_matches_write() {
    let mut data = vec![];
    data.extend_from_slice(&[0, 0, 0, 2, 0x67, 0x42]);
    data.extend_from_slice(&[0, 0, 0, 2, 0x68, 0xCE]);
    assert_eq!(count_length_prefixed(&data, 4), 2);
}

#[test]
fn block_frame_data_skips_lacing() {
    let block = [0x81, 0x00, 0x00, 0b0000_0010, 0xAA, 0xBB];
    let r = block_frame_data(&block, 1).unwrap();
    assert!(r.is_none());
}

#[test]
fn block_frame_data_filters_by_track() {
    let block = [0x82, 0x00, 0x00, 0, 0xAA];
    let r = block_frame_data(&block, 1).unwrap();
    assert!(r.is_none());
}

#[test]
fn block_frame_data_returns_body_after_header() {
    let block = [0x81, 0x00, 0x00, 0, 0xAA, 0xBB, 0xCC];
    let body = block_frame_data(&block, 1).unwrap().unwrap();
    assert_eq!(body, &[0xAA, 0xBB, 0xCC]);
}

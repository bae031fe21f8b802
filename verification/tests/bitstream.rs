//! Bits and Exp-Golomb codes.

use ripsaw::mvc::bitstream::{BitReader, ReadError};

#[test]
fn read_single_bits() {
    let mut r = BitReader::new(&[0xA6]);
    assert!(r.read_bit().unwrap());
    assert!(!r.read_bit().unwrap());
    assert!(r.read_bit().unwrap());
    assert!(!r.read_bit().unwrap());
    assert!(!r.read_bit().unwrap());
    assert!(r.read_bit().unwrap());
    assert!(r.read_bit().unwrap());
    assert!(!r.read_bit().unwrap());
    assert_eq!(r.read_bit().unwrap_err(), ReadError::Truncated);
}

#[test]
fn read_u_crosses_byte_boundaries() {
    let mut r = BitReader::new(&[0xA5, 0x5A]);
    assert_eq!(r.read_u(12).unwrap(), 0xA55);
    assert_eq!(r.read_u(4).unwrap(), 0b1010);
}

#[test]
fn read_ue_for_known_codewords() {
    let mut r = BitReader::new(&[0xA6, 0x42, 0x98, 0xE0]);
    let values: Vec<u32> = (0..7).map(|_| r.read_ue().unwrap()).collect();
    assert_eq!(values, vec![0, 1, 2, 3, 4, 5, 6]);
}

#[test]
fn read_se_via_known_mapping() {
    let mut r = BitReader::new(&[0xA6, 0x42, 0x80]);
    assert_eq!(r.read_se().unwrap(), 0);
    assert_eq!(r.read_se().unwrap(), 1);
    assert_eq!(r.read_se().unwrap(), -1);
    assert_eq!(r.read_se().unwrap(), 2);
    assert_eq!(r.read_se().unwrap(), -2);
}

#[test]
fn read_ue_at_buffer_edge_returns_truncated() {
    let mut r = BitReader::new(&[0x00]);
    assert_eq!(r.read_ue().unwrap_err(), ReadError::Truncated);
}

#[test]
fn read_ue_overflow_after_32_leading_zeros() {
    let mut r = BitReader::new(&[0, 0, 0, 0, 0, 0x80]);
    assert_eq!(r.read_ue().unwrap_err(), ReadError::ExpGolombOverflow);
}

#[test]
fn more_rbsp_data_detects_stop_bit() {
    let mut r = BitReader::new(&[0b1100_1000]);
    assert!(r.more_rbsp_data());
    r.read_u(3).unwrap();
    assert!(r.more_rbsp_data());
    r.read_bit().unwrap();
    assert!(!r.more_rbsp_data());
}

#[test]
fn more_rbsp_data_false_when_exhausted_or_all_zero() {
    let mut r = BitReader::new(&[0x80]);
    assert!(!r.more_rbsp_data());
    let r2 = BitReader::new(&[0x00, 0x00]);
    assert!(!r2.more_rbsp_data());
    let mut r3 = BitReader::new(&[0xFF]);
    r3.read_u(8).unwrap();
    assert!(!r3.more_rbsp_data());
}

#[test]
fn byte_aligned_tracks_position() {
    let mut r = BitReader::new(&[0xFF, 0xFF]);
    assert!(r.byte_aligned());
    r.read_bit().unwrap();
    assert!(!r.byte_aligned());
    let _ = r.read_u(7);
    assert!(r.byte_aligned());
}

#[test]
fn bits_left_counts_down() {
    let mut r = BitReader::new(&[0xa5, 0x0f]);
    assert_eq!(r.bits_left(), 16);
    assert_eq!(r.read_u(5).unwrap(), 20);
    assert_eq!(r.bits_left(), 11);
    assert_eq!(r.read_u(11).unwrap(), 0x50f);
    assert_eq!(r.bits_left(), 0);
}

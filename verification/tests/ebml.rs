//! Variable-length numbers of Matroska.

use ripsaw::mvc::ebml::{EbmlError, EbmlReader};

#[test]
fn one_byte_id_parses() {
    let mut r = EbmlReader::new(&[0xAE]);
    assert_eq!(r.read_vint_id().unwrap(), 0xAE);
}

#[test]
fn four_byte_id_parses() {
    let mut r = EbmlReader::new(&[0x18, 0x53, 0x80, 0x67]);
    assert_eq!(r.read_vint_id().unwrap(), 0x1853_8067);
}

#[test]
fn vint_size_strips_marker_bit() {
    let mut r = EbmlReader::new(&[0xA5]);
    assert_eq!(r.read_vint_size().unwrap(), 0x25);

    let mut r = EbmlReader::new(&[0x40, 0x42]);
    assert_eq!(r.read_vint_size().unwrap(), 66);
}

#[test]
fn invalid_zero_byte_rejected() {
    let mut r = EbmlReader::new(&[0x00]);
    assert!(matches!(r.read_vint_id(), Err(EbmlError::InvalidVint)));
}

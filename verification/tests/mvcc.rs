//! Decoder configuration records.

use ripsaw::mvc::mvcc::{parse, MvccError};

#[test]
fn parses_handcrafted_mvcc_with_one_sps_no_pps() {
    let sps_payload = vec![0x6F, 0x42, 0x12];
    let len = sps_payload.len() as u16;
    let mut bytes = vec![
        0x01,
        0x80,
        0x00,
        0x29,
        0xFF,
        0x81,
    ];
    bytes.extend_from_slice(&len.to_be_bytes());
    bytes.extend_from_slice(&sps_payload);
    bytes.push(0x00);

    let parsed = parse(&bytes).expect("parse");
    assert_eq!(parsed.configuration_version, 1);
    assert_eq!(parsed.avc_profile_indication, 128);
    assert_eq!(parsed.avc_level_indication, 0x29);
    assert_eq!(parsed.length_size_minus_one, 3);
    assert_eq!(parsed.sps_nals.len(), 1);
    assert_eq!(parsed.sps_nals[0], sps_payload);
    assert_eq!(parsed.pps_nals.len(), 0);
}

#[test]
fn rejects_truncated_buffer() {
    assert!(matches!(parse(&[0, 1, 2]), Err(MvccError::TooShort(3))));
}

#[test]
fn rejects_truncated_nal_list() {
    let bytes = vec![0x01, 0x80, 0x00, 0x29, 0xFF, 0x81];
    assert!(matches!(parse(&bytes), Err(MvccError::TruncatedNalList)));
}

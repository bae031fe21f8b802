//! NAL unit headers.

use ripsaw::mvc::nal::parse_nal_unit_header;

#[test]
fn parses_plain_sps_nal_with_no_extension() {
    let header = parse_nal_unit_header(&[0x67]).unwrap();
    assert_eq!(header.1, 1);
    assert_eq!(header.0.nal_unit_type, 7);
    assert_eq!(header.0.nal_ref_idc, 3);
    assert!(!header.0.forbidden_zero_bit);
    assert!(header.0.mvc_extension.is_none());
}

#[test]
fn parses_subset_sps_with_no_extension_bytes() {
    let (header, consumed) = parse_nal_unit_header(&[0x6F]).unwrap();
    assert_eq!(consumed, 1);
    assert_eq!(header.nal_unit_type, 15);
    assert!(header.mvc_extension.is_none());
}

#[test]
fn parses_mvc_slice_layer_extension_nal() {
    let buf = [0x74, 0x40, 0x00, 0x53];
    let (header, consumed) = parse_nal_unit_header(&buf).unwrap();
    assert_eq!(consumed, 4);
    assert_eq!(header.nal_unit_type, 20);
    let ext = header.mvc_extension.expect("extension present");
    assert!(ext.non_idr_flag);
    assert_eq!(ext.priority_id, 0);
    assert_eq!(ext.view_id, 1);
    assert_eq!(ext.temporal_id, 2);
    assert!(!ext.anchor_pic_flag);
    assert!(ext.inter_view_flag);
    assert!(ext.reserved_one_bit);
}

#[test]
fn truncated_buffer_yields_error() {
    assert!(parse_nal_unit_header(&[]).is_err());
    assert!(parse_nal_unit_header(&[0x74]).is_err());
    assert!(parse_nal_unit_header(&[0x74, 0x40]).is_err());
}

#[test]
fn svc_extension_flag_short_circuits_mvc_parse() {
    let buf = [0x6E, 0x80, 0x00, 0x00];
    let (header, consumed) = parse_nal_unit_header(&buf).unwrap();
    assert_eq!(consumed, 4);
    assert_eq!(header.nal_unit_type, 14);
    assert!(header.mvc_extension.is_none());
}

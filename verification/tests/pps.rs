//! Picture parameter sets.

use ripsaw::mvc::pps::{ceil_log2, parse_pps_rbsp};

fn bits_to_bytes(bits: &[&str]) -> Vec<u8> {
    let joined: String = bits.concat();
    let pad = (8 - (joined.len() % 8)) % 8;
    let mut padded = joined;
    padded.extend(std::iter::repeat('0').take(pad));
    padded
        .as_bytes()
        .chunks(8)
        .map(|c| u8::from_str_radix(std::str::from_utf8(c).unwrap(), 2).unwrap())
        .collect()
}

#[test]
fn ceil_log2_matches_table() {
    assert_eq!(ceil_log2(1), 0);
    assert_eq!(ceil_log2(2), 1);
    assert_eq!(ceil_log2(3), 2);
    assert_eq!(ceil_log2(4), 2);
    assert_eq!(ceil_log2(5), 3);
    assert_eq!(ceil_log2(8), 3);
    assert_eq!(ceil_log2(9), 4);
}

#[test]
fn parses_minimal_cabac_pps() {
    let bits = [
        "1", "1", "1", "0", "1", "010", "1", "1", "10", "1", "1", "00101", "1", "0", "0",
        "1",
    ];
    let bytes = bits_to_bytes(&bits);
    let pps = parse_pps_rbsp(&bytes, 1).expect("parse PPS");

    assert_eq!(pps.pic_parameter_set_id, 0);
    assert_eq!(pps.seq_parameter_set_id, 0);
    assert!(pps.entropy_coding_mode_flag);
    assert_eq!(pps.num_slice_groups_minus1, 0);
    assert_eq!(pps.num_ref_idx_l0_default_active_minus1, 1);
    assert_eq!(pps.num_ref_idx_l1_default_active_minus1, 0);
    assert!(pps.weighted_pred_flag);
    assert_eq!(pps.weighted_bipred_idc, 2);
    assert_eq!(pps.pic_init_qp_minus26, 0);
    assert_eq!(pps.chroma_qp_index_offset, -2);
    assert!(pps.deblocking_filter_control_present_flag);
    assert!(!pps.transform_8x8_mode_flag);
    assert_eq!(pps.second_chroma_qp_index_offset, -2);
}

#[test]
fn parses_pps_with_transform_8x8_extension() {
    let bits = [
        "1", "1", "1", "0", "1", "010", "1", "1", "10", "1", "1", "00101", "1", "0", "0",
        "1", "0", "00110", "1",
    ];
    let bytes = bits_to_bytes(&bits);
    let pps = parse_pps_rbsp(&bytes, 1).expect("parse PPS");
    assert!(pps.transform_8x8_mode_flag);
    assert_eq!(pps.second_chroma_qp_index_offset, 3);
}

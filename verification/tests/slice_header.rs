//! Slice headers.

use ripsaw::mvc::bitstream::BitReader;
use ripsaw::mvc::pps::Pps;
use ripsaw::mvc::ref_pic_list_modification::SliceKind;
use ripsaw::mvc::slice_header::parse_slice_header;
use ripsaw::mvc::sps::Sps;

fn bits_to_bytes(bits: &[&str]) -> Vec<u8> {
    let joined: String = bits.concat();
    let pad = (8 - (joined.len() % 8)) % 8;
    let mut padded = joined;
    padded.extend(std::iter::repeat('0').take(pad));
    padded
        .as_bytes()
        .chunks(8)
        .map(|c| u8::from_str_radix(std::str::from_utf8(c).unwrap(), 2).unwrap())
        .collect()
}

fn test_sps() -> Sps {
    Sps {
        profile_idc: 100,
        level_idc: 41,
        seq_parameter_set_id: 0,
        chroma_format_idc: 1,
        separate_colour_plane_flag: false,
        bit_depth_luma_minus8: 0,
        bit_depth_chroma_minus8: 0,
        log2_max_frame_num_minus4: 0,
        pic_order_cnt_type: 0,
        log2_max_pic_order_cnt_lsb_minus4: 0,
        delta_pic_order_always_zero_flag: false,
        max_num_ref_frames: 4,
        gaps_in_frame_num_value_allowed_flag: false,
        pic_width_in_mbs: 120,
        pic_height_in_map_units: 68,
        frame_mbs_only_flag: true,
        mb_adaptive_frame_field_flag: false,
        direct_8x8_inference_flag: true,
        frame_crop: (0, 0, 0, 4),
        width: 1920,
        height: 1080,
        vui_timing: None,
        scaling: None,
    }
}

fn test_pps() -> Pps {
    Pps {
        pic_parameter_set_id: 0,
        seq_parameter_set_id: 0,
        entropy_coding_mode_flag: true,
        bottom_field_pic_order_in_frame_present_flag: false,
        num_slice_groups_minus1: 0,
        num_ref_idx_l0_default_active_minus1: 0,
        num_ref_idx_l1_default_active_minus1: 0,
        weighted_pred_flag: false,
        weighted_bipred_idc: 0,
        pic_init_qp_minus26: 0,
        pic_init_qs_minus26: 0,
        chroma_qp_index_offset: 0,
        deblocking_filter_control_present_flag: true,
        constrained_intra_pred_flag: false,
        redundant_pic_cnt_present_flag: false,
        transform_8x8_mode_flag: false,
        second_chroma_qp_index_offset: 0,
        scaling: None,
    }
}

#[test]
fn parses_idr_i_slice_header() {
    let bits = [
        "1",
        "0001000",
        "1",
        "0000",
        "1",
        "0000",
        "0",
        "0",
        "1",
        "1",
        "1",
        "1",
        "1",
    ];
    let bytes = bits_to_bytes(&bits);
    let mut r = BitReader::new(&bytes);
    let sh = parse_slice_header(&mut r, true, 3, &test_sps(), &test_pps()).expect("parse");

    assert_eq!(sh.first_mb_in_slice, 0);
    assert_eq!(sh.slice_type, 7);
    assert!(matches!(sh.slice_kind, SliceKind::I));
    assert_eq!(sh.frame_num, 0);
    assert_eq!(sh.idr_pic_id, Some(0));
    assert_eq!(sh.pic_order_cnt_lsb, Some(0));
    assert!(sh.cabac_init_idc.is_none());
    assert_eq!(sh.slice_qp_delta, 0);
    assert_eq!(sh.disable_deblocking_filter_idc, 0);
}

#[test]
fn parses_p_slice_with_cabac_init_and_ref_override() {
    let bits = [
        "1",
        "1",
        "1",
        "0011",
        "0110",
        "1",
        "010",
        "0",
        "0",
        "1",
        "011",
        "010",
        "1",
    ];
    let bytes = bits_to_bytes(&bits);
    let mut r = BitReader::new(&bytes);
    let sh = parse_slice_header(&mut r, false, 2, &test_sps(), &test_pps()).expect("parse");

    assert!(matches!(sh.slice_kind, SliceKind::P));
    assert_eq!(sh.frame_num, 3);
    assert_eq!(sh.pic_order_cnt_lsb, Some(6));
    assert_eq!(sh.num_ref_idx_l0_active_minus1, 1);
    assert_eq!(sh.cabac_init_idc, Some(0));
    assert_eq!(sh.slice_qp_delta, -1);
    assert_eq!(sh.disable_deblocking_filter_idc, 1);
    assert!(sh.idr_pic_id.is_none());
}

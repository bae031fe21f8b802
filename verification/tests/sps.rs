//! Sequence parameter sets.

use ripsaw::mvc::bitstream::{BitReader, ReadError};
use ripsaw::mvc::sps::{parse_sps_mvc_extension, parse_sps_nal, parse_sps_rbsp};

fn bits_to_bytes(bits: &[&str]) -> Vec<u8> {
    let joined: String = bits.concat();
    let pad = (8 - (joined.len() % 8)) % 8;
    let mut padded = joined;
    padded.extend(std::iter::repeat('0').take(pad));
    padded
        .as_bytes()
        .chunks(8)
        .map(|c| u8::from_str_radix(std::str::from_utf8(c).unwrap(), 2).unwrap())
        .collect()
}

#[test]
fn parses_base_sps_1080p_baseline() {
    let bits = [
        "01000010",
        "00000000",
        "00101000",
        "1",
        "1",
        "1",
        "1",
        "010",
        "0",
        "0000001111000",
        "0000001000100",
        "1",
        "0",
        "1",
        "1",
        "1",
        "1",
        "00101",
        "0",
        "1",
    ];
    let bytes = bits_to_bytes(&bits);
    let sps = parse_sps_rbsp(&bytes).expect("parse base SPS");

    assert_eq!(sps.profile_idc, 66);
    assert_eq!(sps.level_idc, 40);
    assert_eq!(sps.chroma_format_idc, 1);
    assert_eq!(sps.max_num_ref_frames, 1);
    assert!(sps.frame_mbs_only_flag);
    assert_eq!(sps.pic_width_in_mbs, 120);
    assert_eq!(sps.pic_height_in_map_units, 68);
    assert_eq!(sps.frame_crop, (0, 0, 0, 4));
    assert_eq!((sps.width, sps.height), (1920, 1080));
    assert_eq!(sps.max_frame_num(), 16);
    assert!(sps.vui_timing.is_none());
}

fn build_2view_extension() -> Vec<u8> {
    let bits = [
        "010", "1", "010", "010", "1", "1", "010", "1", "1", "1", "00101001",
        "1", "000", "010", "1", "010", "010",
    ];
    let joined: String = bits.concat();
    let pad = (8 - (joined.len() % 8)) % 8;
    let mut padded = joined;
    padded.extend(std::iter::repeat('0').take(pad));

    padded
        .as_bytes()
        .chunks(8)
        .map(|c| {
            let s = std::str::from_utf8(c).unwrap();
            u8::from_str_radix(s, 2).unwrap()
        })
        .collect()
}

#[test]
fn parses_two_view_blu_ray_pattern() {
    let bytes = build_2view_extension();
    let mut r = BitReader::new(&bytes);
    let sps = parse_sps_mvc_extension(&mut r).expect("parse");

    assert_eq!(sps.num_views_minus1, 1);
    assert_eq!(sps.view_id, vec![0, 1]);
    assert!(sps.anchor_refs[0].l0.is_empty());
    assert_eq!(sps.anchor_refs[1].l0, vec![0]);
    assert!(sps.anchor_refs[1].l1.is_empty());
    assert!(sps.non_anchor_refs[0].l0.is_empty());
    assert_eq!(sps.non_anchor_refs[1].l0, vec![0]);
    assert!(sps.non_anchor_refs[1].l1.is_empty());
    assert_eq!(sps.level_values.len(), 1);
    assert_eq!(sps.level_values[0].level_idc, 41);
    let op = &sps.level_values[0].operating_points[0];
    assert_eq!(op.temporal_id, 0);
    assert_eq!(op.target_view_ids, vec![0, 1]);
    assert_eq!(op.num_views_minus1, 1);
}

#[test]
fn rejects_extension_claiming_too_many_views() {
    let bytes = [0x00, 0x20, 0x08];
    let mut r = BitReader::new(&bytes);
    let err = parse_sps_mvc_extension(&mut r).expect_err("must reject");
    assert_eq!(err, ReadError::ExpGolombOverflow);
}

#[test]
fn sps_units_are_unescaped_behind_their_header() {
    let bits = [
        "01000010", "00000000", "00101000", "1", "1", "1", "1", "010", "0", "0000001111000",
        "0000001000100", "1", "0", "1", "1", "1", "1", "00101", "0", "1",
    ];
    let rbsp = bits_to_bytes(&bits);
    let mut nal = vec![0x67];
    let mut zeros = 0;
    for &b in &rbsp {
        if zeros >= 2 && b <= 3 {
            nal.push(3);
            zeros = 0;
        }
        zeros = if b == 0 { zeros + 1 } else { 0 };
        nal.push(b);
    }
    assert_eq!(parse_sps_nal(&nal), parse_sps_rbsp(&rbsp));
    assert!(parse_sps_nal(&nal).is_ok());
    assert_eq!(parse_sps_nal(&[]), Err(ReadError::Truncated));
}

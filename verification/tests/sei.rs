//! Frame packing messages.

use ripsaw::mvc::bitstream::BitReader;
use ripsaw::mvc::sei::{parse_frame_packing_arrangement, ArrangementType};

fn bits_to_bytes(s: &str) -> Vec<u8> {
    let mut s = s.replace(|c: char| c == ' ' || c == '|', "");
    let pad = (8 - (s.len() % 8)) % 8;
    s.extend(std::iter::repeat('0').take(pad));
    s.as_bytes()
        .chunks(8)
        .map(|c| u8::from_str_radix(std::str::from_utf8(c).unwrap(), 2).unwrap())
        .collect()
}

#[test]
fn arrangement_type_round_trip() {
    for v in 0u8..=6 {
        let t = ArrangementType::from_u8(v).expect("valid type");
        assert_eq!(t.as_u8(), v);
    }
    assert_eq!(ArrangementType::from_u8(7), None);
}

#[test]
fn parses_canonical_side_by_side_fpa() {
    let bits = [
        "1",
        "0",
        "0000011",
        "0",
        "000001",
        "0",
        "0",
        "0",
        "1",
        "1",
        "1",
        "0000",
        "1000",
        "1000",
        "1000",
        "00000000",
        "1",
        "0",
    ];
    let bytes = bits_to_bytes(&bits.concat());
    let mut r = BitReader::new(&bytes);
    let fpa = parse_frame_packing_arrangement(&mut r).expect("parse");
    assert_eq!(fpa.id, 0);
    assert!(!fpa.cancel_flag);
    let body = fpa.body.expect("body present");
    assert_eq!(body.arrangement_type, 3);
    assert!(!body.quincunx_sampling_flag);
    assert_eq!(body.content_interpretation_type, 1);
    assert!(body.current_frame_is_frame0_flag);
    let grid = body.grid_positions.expect("grid present");
    assert_eq!((grid.frame0_x, grid.frame0_y), (0, 8));
    assert_eq!((grid.frame1_x, grid.frame1_y), (8, 8));
    assert_eq!(body.repetition_period, 0);
    assert!(!fpa.extension_flag);
}

#[test]
fn cancel_flag_skips_body() {
    let bytes = bits_to_bytes("1 1 0");
    let mut r = BitReader::new(&bytes);
    let fpa = parse_frame_packing_arrangement(&mut r).expect("parse");
    assert_eq!(fpa.id, 0);
    assert!(fpa.cancel_flag);
    assert!(fpa.body.is_none());
    assert!(!fpa.extension_flag);
}

#[test]
fn temporal_interleaving_skips_grid_positions() {
    let bits = [
        "1",
        "0",
        "0000101",
        "0",
        "000000",
        "0",
        "0",
        "0",
        "1",
        "1",
        "1",
        "00000000",
        "1",
        "0",
    ];
    let bytes = bits_to_bytes(&bits.concat());
    let mut r = BitReader::new(&bytes);
    let fpa = parse_frame_packing_arrangement(&mut r).expect("parse");
    let body = fpa.body.expect("body");
    assert_eq!(body.arrangement_type, 5);
    assert!(body.grid_positions.is_none());
}

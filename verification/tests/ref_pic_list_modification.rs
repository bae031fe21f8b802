//! Modifications of reference lists.

use ripsaw::mvc::bitstream::BitReader;
use ripsaw::mvc::ref_pic_list_modification::{
    parse_ref_pic_list_modification, RefPicListModification, SliceKind,
};

fn bits_to_bytes(bits: &str) -> Vec<u8> {
    let mut s = bits.replace(|c: char| c == ' ' || c == '|', "");
    let pad = (8 - (s.len() % 8)) % 8;
    s.extend(std::iter::repeat('0').take(pad));
    s.as_bytes()
        .chunks(8)
        .map(|c| u8::from_str_radix(std::str::from_utf8(c).unwrap(), 2).unwrap())
        .collect()
}

#[test]
fn slice_kind_classification() {
    assert_eq!(SliceKind::from_slice_type(0), SliceKind::P);
    assert_eq!(SliceKind::from_slice_type(5), SliceKind::P);
    assert_eq!(SliceKind::from_slice_type(1), SliceKind::B);
    assert_eq!(SliceKind::from_slice_type(2), SliceKind::I);
    assert_eq!(SliceKind::from_slice_type(3), SliceKind::Sp);
    assert_eq!(SliceKind::from_slice_type(4), SliceKind::Si);
}

#[test]
fn i_slice_has_no_modification_data() {
    let bytes = [0u8; 1];
    let mut r = BitReader::new(&bytes);
    let mods = parse_ref_pic_list_modification(&mut r, SliceKind::I).unwrap();
    assert!(mods.list0.is_none());
    assert!(mods.list1.is_none());
}

#[test]
fn p_slice_flag_zero_yields_empty_list() {
    let bytes = [0b0_0000000];
    let mut r = BitReader::new(&bytes);
    let mods = parse_ref_pic_list_modification(&mut r, SliceKind::P).unwrap();
    assert_eq!(mods.list0.as_deref(), Some(&[][..]));
    assert!(mods.list1.is_none());
}

#[test]
fn p_slice_with_idc0_then_terminator() {
    let bytes = bits_to_bytes("1 1 1 00100");
    let mut r = BitReader::new(&bytes);
    let mods = parse_ref_pic_list_modification(&mut r, SliceKind::P).unwrap();
    let l0 = mods.list0.expect("list0 present");
    assert_eq!(l0.len(), 1);
    assert_eq!(l0[0], RefPicListModification::PicNumSub { abs_diff_pic_num_minus1: 0 });
}

#[test]
fn p_slice_with_mvc_inter_view_modification_idc4() {
    let bytes = bits_to_bytes("1 00101 1 00100");
    let mut r = BitReader::new(&bytes);
    let mods = parse_ref_pic_list_modification(&mut r, SliceKind::P).unwrap();
    let l0 = mods.list0.expect("list0 present");
    assert_eq!(l0.len(), 1);
    assert_eq!(
        l0[0],
        RefPicListModification::InterViewSub { abs_diff_view_idx_minus1: 0 }
    );
}

#[test]
fn b_slice_with_two_lists() {
    let bytes = bits_to_bytes("1 00110 011 00100 0");
    let mut r = BitReader::new(&bytes);
    let mods = parse_ref_pic_list_modification(&mut r, SliceKind::B).unwrap();
    let l0 = mods.list0.expect("list0 present");
    assert_eq!(l0.len(), 1);
    assert_eq!(
        l0[0],
        RefPicListModification::InterViewAdd { abs_diff_view_idx_minus1: 2 }
    );
    assert_eq!(mods.list1.as_deref(), Some(&[][..]));
}

#[test]
fn mixed_base_and_mvc_modifications_in_one_list() {
    let bytes = bits_to_bytes("1 1 010 011 00101 00110 1 00100");
    let mut r = BitReader::new(&bytes);
    let mods = parse_ref_pic_list_modification(&mut r, SliceKind::P).unwrap();
    let l0 = mods.list0.expect("list0 present");
    assert_eq!(l0.len(), 3);
    assert_eq!(l0[0], RefPicListModification::PicNumSub { abs_diff_pic_num_minus1: 1 });
    assert_eq!(l0[1], RefPicListModification::LongTerm { long_term_pic_num: 4 });
    assert_eq!(l0[2], RefPicListModification::InterViewAdd { abs_diff_view_idx_minus1: 0 });
}

//! Initial reference lists and reference marking.

use ripsaw::mvc::reflist::{
    apply_mmco, init_b_lists, init_p_list0, sliding_window_victim, DpbRef,
};
use ripsaw::mvc::slice_header::Mmco;

fn st(frame_num: i32, poc: i32) -> DpbRef {
    DpbRef::short(frame_num, poc)
}
fn lt(idx: i32, poc: i32) -> DpbRef {
    DpbRef { frame_num: 0, poc, long_term: true, long_term_frame_idx: idx }
}

#[test]
fn p_list0_short_desc_then_long_asc() {
    let dpb = vec![st(2, 4), lt(1, 0), st(4, 8), st(3, 6), lt(0, 2)];
    let list = init_p_list0(&dpb, 4, 16);
    assert_eq!(list, vec![2, 3, 0, 4, 1]);
}

#[test]
fn p_list0_frame_num_wrap_orders_recent_first() {
    let dpb = vec![st(15, 30), st(0, 34)];
    let list = init_p_list0(&dpb, 1, 16);
    assert_eq!(list, vec![1, 0]);
}

#[test]
fn b_lists_split_by_poc_around_current() {
    let dpb = vec![st(0, 0), st(1, 2), st(3, 6), st(4, 8)];
    let (l0, l1) = init_b_lists(&dpb, 4);
    assert_eq!(l0, vec![1, 0, 2, 3]);
    assert_eq!(l1, vec![2, 3, 1, 0]);
}

#[test]
fn b_lists_swap_first_two_when_l1_equals_l0() {
    let dpb = vec![st(3, 6), st(4, 8)];
    let (l0, l1) = init_b_lists(&dpb, 4);
    assert_eq!(l0, vec![0, 1]);
    assert_eq!(l1, vec![1, 0]);
}

#[test]
fn sliding_window_evicts_smallest_framenum_short_term() {
    let dpb = vec![lt(0, 0), st(3, 6), st(1, 2), st(2, 4)];
    let v = sliding_window_victim(&dpb, 3, 16, 4);
    assert_eq!(v, Some(2));
    assert_eq!(sliding_window_victim(&dpb[..2], 3, 16, 4), None);
}

#[test]
fn mmco3_promotes_short_term_to_long() {
    let mut dpb = vec![st(2, 4), st(4, 8), st(3, 6)];
    let cur = apply_mmco(&mut dpb, &[Mmco::ShortToLong { diff_pic_nums_minus1: 2, long_term_frame_idx: 0 }], 5, 16);
    assert_eq!(cur, None);
    let promoted = dpb.iter().find(|r| r.frame_num == 2).unwrap();
    assert!(promoted.long_term && promoted.long_term_frame_idx == 0);
}

#[test]
fn mmco6_marks_current_long_and_mmco1_forgets_short() {
    let mut dpb = vec![st(4, 8), st(3, 6)];
    let cur = apply_mmco(&mut dpb, &[Mmco::ForgetShort { diff_pic_nums_minus1: 0 }, Mmco::CurrentToLong { long_term_frame_idx: 1 }], 5, 16);
    assert_eq!(cur, Some(1));
    assert!(dpb.iter().all(|r| r.frame_num != 4));
}

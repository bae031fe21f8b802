//! Slice headers as they are written (H.264 sections 7.3.3, 7.3.3.1 to 7.3.3.3 and
//! G.7.3.3.1.1): a header that is written element by element comes back.

use crate::mvc::bitstream::{comes, Cursor};
use crate::mvc::laws::syntax::{
    code, flag, lemma_code, lemma_flag, lemma_number, lemma_signed, number, signed,
};
use crate::mvc::pps::Pps;
use crate::mvc::ref_pic_list_modification::{
    kind_of, list_mods, more_mods, slice_mods, RefPicListModification, SliceKind,
};
use crate::mvc::slice_header::{
    filter_part, list_part, marking_part, operation, operations, order_part, ref_weight,
    ref_weights, slice_data, start_part, weight_table, FilterPart, ListPart, Mmco, OrderPart,
    RefWeight, StartPart,
};
use crate::mvc::sps::Sps;
use vstd::arithmetic::power2::pow2;
use vstd::prelude::*;

verus! {

/// An unsigned element that has a code.
pub open spec fn fits(v: u32) -> bool {
    v < u32::MAX
}

/// A signed element that has a code.
pub open spec fn fits_signed(v: i32) -> bool {
    -0x7fff_ffff <= v
}

/// The kind of a slice by its type: the numbers from 5 on repeat those below.
pub proof fn law_slice_types(t: u32)
    ensures
        (t == 0 || t == 5) ==> kind_of(t) == SliceKind::P,
        (t == 1 || t == 6) ==> kind_of(t) == SliceKind::B,
        (t == 2 || t == 7) ==> kind_of(t) == SliceKind::I,
        (t == 3 || t == 8) ==> kind_of(t) == SliceKind::Sp,
        (t == 4 || t == 9) ==> kind_of(t) == SliceKind::Si,
        SliceKind::P.uses_list0() && SliceKind::B.uses_list0() && SliceKind::Sp.uses_list0(),
        !SliceKind::I.uses_list0() && !SliceKind::Si.uses_list0(),
{
}

/// First macroblock, type and picture parameter set; the colour plane where planes
/// are apart; the frame number in as many bits as the sequence gives it; the field
/// flags where the sequence has fields; the number of an IDR picture.
pub open spec fn start_text(a: StartPart, idr: bool, sps: Sps, rest: Seq<bool>) -> Seq<bool> {
    let e = if idr {
        code(a.idr_id->0 as int, rest)
    } else {
        rest
    };
    let d = if sps.frame_mbs_only_flag {
        e
    } else if a.field {
        flag(true, flag(a.bottom, e))
    } else {
        flag(false, e)
    };
    let f = number(a.frame_num as int, sps.log2_max_frame_num_minus4 + 4, d);
    let p = if sps.separate_colour_plane_flag {
        number(a.plane->0 as int, 2, f)
    } else {
        f
    };
    code(a.first_mb as int, code(a.slice_type as int, code(a.pps_id as int, p)))
}

/// The elements of the start that can be written.
pub open spec fn start_ok(a: StartPart, idr: bool, sps: Sps) -> bool {
    &&& fits(a.first_mb) && fits(a.slice_type) && fits(a.pps_id)
    &&& a.plane is Some <==> sps.separate_colour_plane_flag
    &&& a.plane is Some ==> a.plane->0 <= 3
    &&& sps.log2_max_frame_num_minus4 <= 28
    &&& a.frame_num < pow2((sps.log2_max_frame_num_minus4 + 4) as nat)
    &&& sps.frame_mbs_only_flag ==> !a.field
    &&& !a.field ==> !a.bottom
    &&& a.idr_id is Some <==> idr
    &&& a.idr_id is Some ==> fits(a.idr_id->0)
}

/// The start of a slice header comes back.
pub proof fn law_start_comes_back(c: Cursor, a: StartPart, idr: bool, sps: Sps, rest: Seq<bool>)
    requires
        start_ok(a, idr, sps),
        comes(c, start_text(a, idr, sps, rest)),
    ensures
        start_part(c, idr, sps).0 == a,
        comes(start_part(c, idr, sps).1, rest),
{
    reveal(start_part);
    vstd::arithmetic::power2::lemma2_to64();
    let e = if idr {
        code(a.idr_id->0 as int, rest)
    } else {
        rest
    };
    let d = if sps.frame_mbs_only_flag {
        e
    } else if a.field {
        flag(true, flag(a.bottom, e))
    } else {
        flag(false, e)
    };
    let f = number(a.frame_num as int, sps.log2_max_frame_num_minus4 + 4, d);
    let p = if sps.separate_colour_plane_flag {
        number(a.plane->0 as int, 2, f)
    } else {
        f
    };
    lemma_code(c, a.first_mb as int, code(a.slice_type as int, code(a.pps_id as int, p)));
    let c1 = c.ue().1;
    lemma_code(c1, a.slice_type as int, code(a.pps_id as int, p));
    let c2 = c1.ue().1;
    lemma_code(c2, a.pps_id as int, p);
    let c3 = c2.ue().1;
    let c4 = if sps.separate_colour_plane_flag {
        lemma_number(c3, a.plane->0 as int, 2, f);
        c3.u(2).1
    } else {
        c3
    };
    let n = sps.log2_max_frame_num_minus4 + 4;
    lemma_number(c4, a.frame_num as int, n, d);
    let c5 = c4.u(n).1;
    let c7 = if sps.frame_mbs_only_flag {
        c5
    } else if a.field {
        lemma_flag(c5, true, flag(a.bottom, e));
        lemma_flag(c5.bit().1, a.bottom, e);
        c5.bit().1.bit().1
    } else {
        lemma_flag(c5, false, e);
        c5.bit().1
    };
    if idr {
        lemma_code(c7, a.idr_id->0 as int, rest);
    }
}

/// The order count: its low bits where the sequence counts that way, or two
/// differences; the second of each only for frames whose picture parameter set has
/// it.
pub open spec fn order_text(o: OrderPart, field: bool, sps: Sps, pps: Pps, rest: Seq<bool>) -> Seq<
    bool,
> {
    let both = pps.bottom_field_pic_order_in_frame_present_flag && !field;
    if sps.pic_order_cnt_type == 0 {
        number(
            o.lsb->0 as int,
            sps.log2_max_pic_order_cnt_lsb_minus4 + 4,
            if both {
                signed(o.bottom as int, rest)
            } else {
                rest
            },
        )
    } else if sps.pic_order_cnt_type == 1 && !sps.delta_pic_order_always_zero_flag {
        signed(
            o.delta0 as int,
            if both {
                signed(o.delta1 as int, rest)
            } else {
                rest
            },
        )
    } else {
        rest
    }
}

/// The elements of the order count that can be written; those that are not are
/// zero.
pub open spec fn order_ok(o: OrderPart, field: bool, sps: Sps, pps: Pps) -> bool {
    let both = pps.bottom_field_pic_order_in_frame_present_flag && !field;
    &&& fits_signed(o.bottom) && fits_signed(o.delta0) && fits_signed(o.delta1)
    &&& o.lsb is Some <==> sps.pic_order_cnt_type == 0
    &&& o.lsb is Some ==> sps.log2_max_pic_order_cnt_lsb_minus4 <= 28 && o.lsb->0 < pow2(
        (sps.log2_max_pic_order_cnt_lsb_minus4 + 4) as nat,
    )
    &&& !(sps.pic_order_cnt_type == 0 && both) ==> o.bottom == 0
    &&& !(sps.pic_order_cnt_type == 1 && !sps.delta_pic_order_always_zero_flag) ==> o.delta0 == 0
        && o.delta1 == 0
    &&& !both ==> o.delta1 == 0
}

/// The order count of a slice header comes back.
pub proof fn law_order_comes_back(
    c: Cursor,
    o: OrderPart,
    field: bool,
    sps: Sps,
    pps: Pps,
    rest: Seq<bool>,
)
    requires
        order_ok(o, field, sps, pps),
        comes(c, order_text(o, field, sps, pps, rest)),
    ensures
        order_part(c, field, sps, pps).0 == o,
        comes(order_part(c, field, sps, pps).1, rest),
{
    reveal(order_part);
    let both = pps.bottom_field_pic_order_in_frame_present_flag && !field;
    if sps.pic_order_cnt_type == 0 {
        let n = sps.log2_max_pic_order_cnt_lsb_minus4 + 4;
        let r = if both {
            signed(o.bottom as int, rest)
        } else {
            rest
        };
        lemma_number(c, o.lsb->0 as int, n, r);
        if both {
            lemma_signed(c.u(n).1, o.bottom as int, rest);
        }
    } else if sps.pic_order_cnt_type == 1 && !sps.delta_pic_order_always_zero_flag {
        let r = if both {
            signed(o.delta1 as int, rest)
        } else {
            rest
        };
        lemma_signed(c, o.delta0 as int, r);
        if both {
            lemma_signed(c.se().1, o.delta1 as int, rest);
        }
    }
}

/// The redundancy where the picture parameter set has it, the direct mode of a B
/// slice, and for slices with references a flag and the sizes of their lists, or
/// none where the default ones hold.
pub open spec fn list_text(l: ListPart, given: bool, kind: SliceKind, pps: Pps, rest: Seq<bool>) -> Seq<
    bool,
> {
    let n = if given {
        flag(
            true,
            code(
                l.refs0 as int,
                if kind is B {
                    code(l.refs1 as int, rest)
                } else {
                    rest
                },
            ),
        )
    } else {
        flag(false, rest)
    };
    let r = if kind is P || kind is B || kind is Sp {
        n
    } else {
        rest
    };
    let s = if kind is B {
        flag(l.spatial, r)
    } else {
        r
    };
    if pps.redundant_pic_cnt_present_flag {
        code(l.redundant as int, s)
    } else {
        s
    }
}

/// The elements of the list sizes that can be written; those that are not have
/// their defaults.
pub open spec fn list_ok(l: ListPart, given: bool, kind: SliceKind, pps: Pps) -> bool {
    let inter = kind is P || kind is B || kind is Sp;
    &&& fits(l.redundant) && fits(l.refs0) && fits(l.refs1)
    &&& !pps.redundant_pic_cnt_present_flag ==> l.redundant == 0
    &&& !(kind is B) ==> !l.spatial
    &&& given ==> inter
    &&& !given ==> l.refs0 == pps.num_ref_idx_l0_default_active_minus1
    &&& !(given && kind is B) ==> l.refs1 == pps.num_ref_idx_l1_default_active_minus1
}

/// The list sizes of a slice header come back.
pub proof fn law_list_sizes_come_back(
    c: Cursor,
    l: ListPart,
    given: bool,
    kind: SliceKind,
    pps: Pps,
    rest: Seq<bool>,
)
    requires
        list_ok(l, given, kind, pps),
        comes(c, list_text(l, given, kind, pps, rest)),
    ensures
        list_part(c, kind, pps).0 == l,
        comes(list_part(c, kind, pps).1, rest),
{
    reveal(list_part);
    let m = if kind is B {
        code(l.refs1 as int, rest)
    } else {
        rest
    };
    let n = if given {
        flag(true, code(l.refs0 as int, m))
    } else {
        flag(false, rest)
    };
    let r = if kind is P || kind is B || kind is Sp {
        n
    } else {
        rest
    };
    let s = if kind is B {
        flag(l.spatial, r)
    } else {
        r
    };
    let c1 = if pps.redundant_pic_cnt_present_flag {
        lemma_code(c, l.redundant as int, s);
        c.ue().1
    } else {
        c
    };
    let c2 = if kind is B {
        lemma_flag(c1, l.spatial, r);
        c1.bit().1
    } else {
        c1
    };
    if kind is P || kind is B || kind is Sp {
        if given {
            lemma_flag(c2, true, code(l.refs0 as int, m));
            lemma_code(c2.bit().1, l.refs0 as int, m);
            if kind is B {
                lemma_code(c2.bit().1.ue().1, l.refs1 as int, rest);
            }
        } else {
            lemma_flag(c2, false, rest);
        }
    }
}

/// The number and the value of a list modification: 0 and 1 go down and up by
/// picture number, 2 takes a long-term picture, 4 and 5 go down and up by view.
pub open spec fn modification_code(m: RefPicListModification) -> (int, u32) {
    match m {
        RefPicListModification::PicNumSub { abs_diff_pic_num_minus1: v } => (0, v),
        RefPicListModification::PicNumAdd { abs_diff_pic_num_minus1: v } => (1, v),
        RefPicListModification::LongTerm { long_term_pic_num: v } => (2, v),
        RefPicListModification::InterViewSub { abs_diff_view_idx_minus1: v } => (4, v),
        RefPicListModification::InterViewAdd { abs_diff_view_idx_minus1: v } => (5, v),
    }
}

/// The modifications of a list, number and value each, with the number 3 behind
/// them.
pub open spec fn modifications_text(m: Seq<RefPicListModification>, rest: Seq<bool>) -> Seq<bool>
    decreases m.len(),
{
    if m.len() == 0 {
        code(3, rest)
    } else {
        code(
            modification_code(m[0]).0,
            code(modification_code(m[0]).1 as int, modifications_text(m.skip(1), rest)),
        )
    }
}

proof fn lemma_modifications(
    c: Cursor,
    seen: Seq<RefPicListModification>,
    m: Seq<RefPicListModification>,
    rest: Seq<bool>,
)
    requires
        seen.len() + m.len() <= 64,
        forall|i: int| 0 <= i < m.len() ==> fits(modification_code(#[trigger] m[i]).1),
        comes(c, modifications_text(m, rest)),
    ensures
        more_mods(c, seen).0 == seen + m,
        comes(more_mods(c, seen).1, rest),
    decreases m.len(),
{
    if m.len() == 0 {
        lemma_code(c, 3, rest);
        assert(seen + m =~= seen);
    } else {
        let (k, v) = modification_code(m[0]);
        let t = modifications_text(m.skip(1), rest);
        lemma_code(c, k, code(v as int, t));
        lemma_code(c.ue().1, v as int, t);
        let s = seen.push(m[0]);
        assert forall|i: int| 0 <= i < m.skip(1).len() implies fits(
            modification_code(#[trigger] m.skip(1)[i]).1,
        ) by {
            assert(m.skip(1)[i] == m[i + 1]);
        }
        lemma_modifications(c.ue().1.ue().1, s, m.skip(1), rest);
        assert(s + m.skip(1) =~= seen + m);
    }
}

/// A list's modifications come back, up to 64 of them; a single zero bit stands for
/// none.
pub proof fn law_modifications_come_back(
    c: Cursor,
    m: Seq<RefPicListModification>,
    rest: Seq<bool>,
)
    requires
        m.len() <= 64,
        forall|i: int| 0 <= i < m.len() ==> fits(modification_code(#[trigger] m[i]).1),
    ensures
        comes(c, flag(true, modifications_text(m, rest))) ==> list_mods(c).0 == m && comes(
            list_mods(c).1,
            rest,
        ),
        comes(c, flag(false, rest)) ==> list_mods(c).0.len() == 0 && comes(list_mods(c).1, rest),
{
    if comes(c, flag(true, modifications_text(m, rest))) {
        lemma_flag(c, true, modifications_text(m, rest));
        lemma_modifications(c.bit().1, Seq::empty(), m, rest);
        assert(Seq::<RefPicListModification>::empty() + m =~= m);
    }
    if comes(c, flag(false, rest)) {
        lemma_flag(c, false, rest);
    }
}

/// Slices with references have modifications of list 0, B slices of list 1 behind
/// them, and the others have none.
pub proof fn law_modified_lists(c: Cursor, kind: SliceKind)
    ensures
        ({
            let ((m0, m1), d) = slice_mods(c, kind);
            let (x, c1) = list_mods(c);
            let (y, c2) = list_mods(c1);
            &&& (kind is P || kind is Sp) ==> m0 == Some(x) && m1 is None && d == c1
            &&& kind is B ==> m0 == Some(x) && m1 == Some(y) && d == c2
            &&& (kind is I || kind is Si) ==> m0 is None && m1 is None && d == c
        }),
{
    reveal(slice_mods);
}

/// A reference's weights: luma behind a flag, then both chroma components behind
/// one, each as weight and offset; a missing weight is one, that is two to the
/// denominator, without an offset.
pub open spec fn weight_text(w: RefWeight, luma: bool, both: bool, chroma: bool, rest: Seq<bool>) -> Seq<
    bool,
> {
    let c = if both {
        flag(
            true,
            signed(
                w.cb.0 as int,
                signed(w.cb.1 as int, signed(w.cr.0 as int, signed(w.cr.1 as int, rest))),
            ),
        )
    } else {
        flag(false, rest)
    };
    let r = if chroma {
        c
    } else {
        rest
    };
    if luma {
        flag(true, signed(w.luma.0 as int, signed(w.luma.1 as int, r)))
    } else {
        flag(false, r)
    }
}

/// A reference's weights come back.
pub proof fn law_weights_come_back(
    c: Cursor,
    w: RefWeight,
    luma: bool,
    both: bool,
    chroma: bool,
    ld: u32,
    cd: u32,
    rest: Seq<bool>,
)
    requires
        ld <= 7,
        cd <= 7,
        both ==> chroma,
        fits_signed(w.luma.0) && fits_signed(w.luma.1) && fits_signed(w.cb.0) && fits_signed(w.cb.1)
            && fits_signed(w.cr.0) && fits_signed(w.cr.1),
        !luma ==> w.luma == (pow2(ld as nat) as i32, 0i32),
        !both ==> w.cb == (pow2(cd as nat) as i32, 0i32) && w.cr == (pow2(cd as nat) as i32, 0i32),
        comes(c, weight_text(w, luma, both, chroma, rest)),
    ensures
        ref_weight(c, chroma, ld, cd).0 == w,
        comes(ref_weight(c, chroma, ld, cd).1, rest),
{
    lemma_one_shifted(ld);
    lemma_one_shifted(cd);
    let t4 = signed(w.cr.1 as int, rest);
    let t3 = signed(w.cr.0 as int, t4);
    let t2 = signed(w.cb.1 as int, t3);
    let t1 = signed(w.cb.0 as int, t2);
    let r = if chroma {
        if both {
            flag(true, t1)
        } else {
            flag(false, rest)
        }
    } else {
        rest
    };
    let c2 = if luma {
        let s = signed(w.luma.1 as int, r);
        lemma_flag(c, true, signed(w.luma.0 as int, s));
        lemma_signed(c.bit().1, w.luma.0 as int, s);
        lemma_signed(c.bit().1.se().1, w.luma.1 as int, r);
        c.bit().1.se().1.se().1
    } else {
        lemma_flag(c, false, r);
        c.bit().1
    };
    if chroma {
        if both {
            lemma_flag(c2, true, t1);
            let d1 = c2.bit().1;
            lemma_signed(d1, w.cb.0 as int, t2);
            let d2 = d1.se().1;
            lemma_signed(d2, w.cb.1 as int, t3);
            let d3 = d2.se().1;
            lemma_signed(d3, w.cr.0 as int, t4);
            lemma_signed(d3.se().1, w.cr.1 as int, rest);
        } else {
            lemma_flag(c2, false, rest);
        }
    }
}

proof fn lemma_one_shifted(d: u32)
    requires
        d <= 7,
    ensures
        1i32.wrapping_shl(d) == pow2(d as nat),
{
    vstd::arithmetic::power2::lemma2_to64();
    assert(1i32 << 0u32 == 1 && 1i32 << 1u32 == 2 && 1i32 << 2u32 == 4 && 1i32 << 3u32 == 8 && 1i32
        << 4u32 == 16 && 1i32 << 5u32 == 32 && 1i32 << 6u32 == 64 && 1i32 << 7u32 == 128) by (
    bit_vector);
}

/// A weight table starts with the denominators, that of chroma where there is
/// chroma; then come the weights of one more reference than the size of list 0
/// says, and in a B slice those of list 1.
pub proof fn law_weight_table(
    c: Cursor,
    ld: u32,
    cd: u32,
    chroma: bool,
    refs0: u32,
    refs1: u32,
    two: bool,
    rest: Seq<bool>,
)
    requires
        fits(ld),
        fits(cd),
        !chroma ==> cd == 0,
        comes(
            c,
            code(
                ld as int,
                if chroma {
                    code(cd as int, rest)
                } else {
                    rest
                },
            ),
        ),
    ensures
        ({
            let (t, d) = weight_table(c, chroma, refs0, refs1, two);
            let c2 = if chroma {
                c.ue().1.ue().1
            } else {
                c.ue().1
            };
            let (l0, c3) = ref_weights(c2, Seq::empty(), (refs0 + 1) as nat, chroma, ld, cd);
            &&& comes(c2, rest)
            &&& t.luma_denom == ld && t.chroma_denom == cd
            &&& t.l0 == l0
            &&& two ==> (t.l1, d) == ref_weights(
                c3,
                Seq::empty(),
                (refs1 + 1) as nat,
                chroma,
                ld,
                cd,
            )
            &&& !two ==> t.l1.len() == 0 && d == c3
        }),
{
    reveal(weight_table);
    let r = if chroma {
        code(cd as int, rest)
    } else {
        rest
    };
    lemma_code(c, ld as int, r);
    if chroma {
        lemma_code(c.ue().1, cd as int, rest);
    }
}

/// Weights are read one after another until a list has as many as it needs.
pub proof fn law_weights_in_turn(
    c: Cursor,
    seen: Seq<RefWeight>,
    n: nat,
    chroma: bool,
    ld: u32,
    cd: u32,
)
    requires
        c.err is None,
        ref_weight(c, chroma, ld, cd).1.err is None,
    ensures
        ref_weights(c, seen, n + 1, chroma, ld, cd) == ref_weights(
            ref_weight(c, chroma, ld, cd).1,
            seen.push(ref_weight(c, chroma, ld, cd).0),
            n,
            chroma,
            ld,
            cd,
        ),
        ref_weights(c, seen, 0, chroma, ld, cd) == (seen, c),
{
}

/// A marking operation with its number and values.
pub open spec fn operation_text(m: Mmco, rest: Seq<bool>) -> Seq<bool> {
    match m {
        Mmco::ForgetShort { diff_pic_nums_minus1: v } => code(1, code(v as int, rest)),
        Mmco::ForgetLong { long_term_pic_num: v } => code(2, code(v as int, rest)),
        Mmco::ShortToLong { diff_pic_nums_minus1: v, long_term_frame_idx: w } => code(
            3,
            code(v as int, code(w as int, rest)),
        ),
        Mmco::SetMaxLong { max_long_term_frame_idx_plus1: v } => code(4, code(v as int, rest)),
        Mmco::ResetAll => code(5, rest),
        Mmco::CurrentToLong { long_term_frame_idx: v } => code(6, code(v as int, rest)),
    }
}

/// The values of an operation have codes.
pub open spec fn operation_fits(m: Mmco) -> bool {
    match m {
        Mmco::ForgetShort { diff_pic_nums_minus1: v } => fits(v),
        Mmco::ForgetLong { long_term_pic_num: v } => fits(v),
        Mmco::ShortToLong { diff_pic_nums_minus1: v, long_term_frame_idx: w } => fits(v) && fits(w),
        Mmco::SetMaxLong { max_long_term_frame_idx_plus1: v } => fits(v),
        Mmco::ResetAll => true,
        Mmco::CurrentToLong { long_term_frame_idx: v } => fits(v),
    }
}

/// Operations in turn, with a zero behind them.
pub open spec fn operations_text(m: Seq<Mmco>, rest: Seq<bool>) -> Seq<bool>
    decreases m.len(),
{
    if m.len() == 0 {
        code(0, rest)
    } else {
        operation_text(m[0], operations_text(m.skip(1), rest))
    }
}

/// A marking operation comes back from its number and values; zero ends the list.
pub proof fn law_operation_comes_back(c: Cursor, m: Mmco, rest: Seq<bool>)
    requires
        operation_fits(m),
    ensures
        comes(c, operation_text(m, rest)) ==> operation(c).0 == Some(m) && comes(
            operation(c).1,
            rest,
        ),
        comes(c, code(0, rest)) ==> operation(c).0 is None && comes(operation(c).1, rest),
{
    if comes(c, code(0, rest)) {
        lemma_code(c, 0, rest);
    }
    if comes(c, operation_text(m, rest)) {
        match m {
            Mmco::ForgetShort { diff_pic_nums_minus1: v } => {
                lemma_code(c, 1, code(v as int, rest));
                lemma_code(c.ue().1, v as int, rest);
            },
            Mmco::ForgetLong { long_term_pic_num: v } => {
                lemma_code(c, 2, code(v as int, rest));
                lemma_code(c.ue().1, v as int, rest);
            },
            Mmco::ShortToLong { diff_pic_nums_minus1: v, long_term_frame_idx: w } => {
                lemma_code(c, 3, code(v as int, code(w as int, rest)));
                lemma_code(c.ue().1, v as int, code(w as int, rest));
                lemma_code(c.ue().1.ue().1, w as int, rest);
            },
            Mmco::SetMaxLong { max_long_term_frame_idx_plus1: v } => {
                lemma_code(c, 4, code(v as int, rest));
                lemma_code(c.ue().1, v as int, rest);
            },
            Mmco::ResetAll => {
                lemma_code(c, 5, rest);
            },
            Mmco::CurrentToLong { long_term_frame_idx: v } => {
                lemma_code(c, 6, code(v as int, rest));
                lemma_code(c.ue().1, v as int, rest);
            },
        }
    }
}

proof fn lemma_operation_advances(c: Cursor, m: Mmco, rest: Seq<bool>)
    requires
        operation_fits(m),
        comes(c, operation_text(m, rest)),
    ensures
        operation(c).1.data == c.data,
        operation(c).1.pos > c.pos,
{
    match m {
        Mmco::ForgetShort { diff_pic_nums_minus1: v } => {
            lemma_code(c, 1, code(v as int, rest));
            lemma_code(c.ue().1, v as int, rest);
        },
        Mmco::ForgetLong { long_term_pic_num: v } => {
            lemma_code(c, 2, code(v as int, rest));
            lemma_code(c.ue().1, v as int, rest);
        },
        Mmco::ShortToLong { diff_pic_nums_minus1: v, long_term_frame_idx: w } => {
            lemma_code(c, 3, code(v as int, code(w as int, rest)));
            lemma_code(c.ue().1, v as int, code(w as int, rest));
            lemma_code(c.ue().1.ue().1, w as int, rest);
        },
        Mmco::SetMaxLong { max_long_term_frame_idx_plus1: v } => {
            lemma_code(c, 4, code(v as int, rest));
            lemma_code(c.ue().1, v as int, rest);
        },
        Mmco::ResetAll => {
            lemma_code(c, 5, rest);
        },
        Mmco::CurrentToLong { long_term_frame_idx: v } => {
            lemma_code(c, 6, code(v as int, rest));
            lemma_code(c.ue().1, v as int, rest);
        },
    }
}

/// A list of marking operations comes back in order.
pub proof fn law_operations_come_back(c: Cursor, seen: Seq<Mmco>, m: Seq<Mmco>, rest: Seq<bool>)
    requires
        forall|i: int| 0 <= i < m.len() ==> operation_fits(#[trigger] m[i]),
        comes(c, operations_text(m, rest)),
    ensures
        operations(c, seen).0 == seen + m,
        comes(operations(c, seen).1, rest),
    decreases m.len(),
{
    if m.len() == 0 {
        lemma_code(c, 0, rest);
        assert(seen + m =~= seen);
    } else {
        let t = operations_text(m.skip(1), rest);
        law_operation_comes_back(c, m[0], t);
        lemma_operation_advances(c, m[0], t);
        assert forall|i: int| 0 <= i < m.skip(1).len() implies operation_fits(
            #[trigger] m.skip(1)[i],
        ) by {
            assert(m.skip(1)[i] == m[i + 1]);
        }
        law_operations_come_back(operation(c).1, seen.push(m[0]), m.skip(1), rest);
        assert(seen.push(m[0]) + m.skip(1) =~= seen + m);
    }
}

/// Reference marking: two flags in an IDR picture, which carry no operations; else a
/// flag, and operations where it is set.
pub proof fn law_marking(c: Cursor, a: bool, b: bool, rest: Seq<bool>)
    ensures
        comes(c, flag(a, flag(b, rest))) ==> marking_part(c, true).0 is None && comes(
            marking_part(c, true).1,
            rest,
        ),
        comes(c, flag(false, rest)) ==> marking_part(c, false).0 is None && comes(
            marking_part(c, false).1,
            rest,
        ),
        comes(c, flag(true, rest)) ==> comes(c.bit().1, rest) && marking_part(c, false) == (
            Some(operations(c.bit().1, Seq::empty()).0),
            operations(c.bit().1, Seq::empty()).1,
        ),
{
    reveal(marking_part);
    if comes(c, flag(a, flag(b, rest))) {
        lemma_flag(c, a, flag(b, rest));
        lemma_flag(c.bit().1, b, rest);
    }
    if comes(c, flag(false, rest)) {
        lemma_flag(c, false, rest);
    }
    if comes(c, flag(true, rest)) {
        lemma_flag(c, true, rest);
    }
}

/// The context model where contexts are used for references, the quantiser, and the
/// deblocking parameters where the picture parameter set lets the slice choose them:
/// a number, and two offsets unless that number is 1.
pub open spec fn filter_text(f: FilterPart, kind: SliceKind, pps: Pps, rest: Seq<bool>) -> Seq<bool> {
    let d = if pps.deblocking_filter_control_present_flag {
        code(
            f.disable as int,
            if f.disable == 1 {
                rest
            } else {
                signed(f.alpha as int, signed(f.beta as int, rest))
            },
        )
    } else {
        rest
    };
    let q = signed(f.qp_delta as int, d);
    if pps.entropy_coding_mode_flag && (kind is P || kind is B) {
        code(f.cabac->0 as int, q)
    } else {
        q
    }
}

/// The elements of the last part that can be written; those that are not are zero.
pub open spec fn filter_ok(f: FilterPart, kind: SliceKind, pps: Pps) -> bool {
    &&& f.cabac is Some <==> pps.entropy_coding_mode_flag && (kind is P || kind is B)
    &&& f.cabac is Some ==> fits(f.cabac->0)
    &&& fits(f.disable)
    &&& fits_signed(f.qp_delta) && fits_signed(f.alpha) && fits_signed(f.beta)
    &&& !pps.deblocking_filter_control_present_flag ==> f.disable == 0 && f.alpha == 0 && f.beta == 0
    &&& f.disable == 1 ==> f.alpha == 0 && f.beta == 0
}

/// The last part of the header of an I, P or B slice comes back.
pub proof fn law_filter_part_comes_back(
    c: Cursor,
    f: FilterPart,
    kind: SliceKind,
    pps: Pps,
    rest: Seq<bool>,
)
    requires
        kind is I || kind is P || kind is B,
        filter_ok(f, kind, pps),
        comes(c, filter_text(f, kind, pps, rest)),
    ensures
        filter_part(c, kind, pps).0 == f,
        comes(filter_part(c, kind, pps).1, rest),
{
    reveal(filter_part);
    let o = if f.disable == 1 {
        rest
    } else {
        signed(f.alpha as int, signed(f.beta as int, rest))
    };
    let d = if pps.deblocking_filter_control_present_flag {
        code(f.disable as int, o)
    } else {
        rest
    };
    let c1 = if pps.entropy_coding_mode_flag && (kind is P || kind is B) {
        lemma_code(c, f.cabac->0 as int, signed(f.qp_delta as int, d));
        c.ue().1
    } else {
        c
    };
    lemma_signed(c1, f.qp_delta as int, d);
    let c2 = c1.se().1;
    if pps.deblocking_filter_control_present_flag {
        lemma_code(c2, f.disable as int, o);
        if f.disable != 1 {
            lemma_signed(c2.ue().1, f.alpha as int, signed(f.beta as int, rest));
            lemma_signed(c2.ue().1.se().1, f.beta as int, rest);
        }
    }
}

/// The parts of a slice header come in this order, each where the last one ends:
/// start, order count, list sizes, modifications, weights where the picture
/// parameter set has them for slices of this kind, marking for reference pictures,
/// and the last part. The result holds them unchanged.
pub proof fn law_parts_in_order(c: Cursor, idr: bool, nal_ref_idc: u8, sps: Sps, pps: Pps)
    ensures
        ({
            let (h, end) = slice_data(c, idr, nal_ref_idc, sps, pps);
            let (a, c1) = start_part(c, idr, sps);
            let kind = kind_of(a.slice_type);
            let (o, c2) = order_part(c1, a.field, sps, pps);
            let (l, c3) = list_part(c2, kind, pps);
            let (m, c4) = slice_mods(c3, kind);
            let explicit = (pps.weighted_pred_flag && (kind is P || kind is Sp)) || (
            pps.weighted_bipred_idc == 1 && kind is B);
            let chroma = !sps.separate_colour_plane_flag && sps.chroma_format_idc != 0;
            let w = weight_table(c4, chroma, l.refs0, l.refs1, kind is B);
            let c5 = if explicit {
                w.1
            } else {
                c4
            };
            let k = marking_part(c5, idr);
            let c6 = if nal_ref_idc > 0 {
                k.1
            } else {
                c5
            };
            let (f, c7) = filter_part(c6, kind, pps);
            let x = h.fields;
            &&& end == c7
            &&& x.first_mb_in_slice == a.first_mb && x.slice_type == a.slice_type && x.slice_kind
                == kind && x.pic_parameter_set_id == a.pps_id && x.colour_plane_id == a.plane
                && x.frame_num == a.frame_num && x.field_pic_flag == a.field && x.bottom_field_flag
                == a.bottom && x.idr_pic_id == a.idr_id
            &&& x.pic_order_cnt_lsb == o.lsb && x.delta_pic_order_cnt_bottom == o.bottom
                && x.delta_pic_order_cnt[0] == o.delta0 && x.delta_pic_order_cnt[1] == o.delta1
            &&& x.redundant_pic_cnt == l.redundant && x.direct_spatial_mv_pred_flag == l.spatial
                && x.num_ref_idx_l0_active_minus1 == l.refs0 && x.num_ref_idx_l1_active_minus1
                == l.refs1
            &&& h.mods == m
            &&& h.weights == (if explicit {
                Some(w.0)
            } else {
                None
            })
            &&& h.marking == (if nal_ref_idc > 0 {
                k.0
            } else {
                None
            })
            &&& x.cabac_init_idc == f.cabac && x.slice_qp_delta == f.qp_delta
                && x.disable_deblocking_filter_idc == f.disable && x.slice_alpha_c0_offset_div2
                == f.alpha && x.slice_beta_offset_div2 == f.beta
        }),
{
    reveal(slice_data);
}

} // verus!

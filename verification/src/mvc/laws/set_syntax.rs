//! Parameter sets, NAL unit headers and frame packing messages as they are written
//! (H.264 sections 7.3.1, 7.3.2.1, 7.3.2.2, D.1.25, E.1 and H.7.3.2.1.4): what is
//! written element by element comes back.

use crate::mvc::bitstream::{comes, Cursor};
use crate::mvc::laws::slice_syntax::{fits, fits_signed};
use crate::mvc::laws::syntax::{
    code, flag, lemma_code, lemma_flag, lemma_number, lemma_signed, number, signed,
};
use crate::mvc::nal::{extension, nal_header, MvcNalExtension};
use crate::mvc::pps::{plain_pps, pps_body, pps_data, pps_head, pps_tail, Pps, PpsBody, PpsHead};
use crate::mvc::scaling::{
    default_list, one_matrix, raster, rest_of_list, scaling_list, scaling_matrix,
};
use crate::mvc::sei::{
    arrangement_of, frame_packing, packing_body, ArrangementType, FramePackingArrangementBody,
};
use crate::mvc::sps::{
    chroma_part, crop_part, crop_unit, cropped_size, head_part, high_profile, hrd, level, levels,
    multiview_profile, mvc_extension, order_part, point, points, refs_of_views, size_part,
    skip_signed, sps_data, subset_sps, view_refs, vui_head, vui_part, vui_tail, vui_timing,
    ChromaPart, OrderPart, Point, SizePart, Sps, ViewRefs, VuiTiming,
};
use crate::mvc::pps::{bits_for, group_map, index_bits};
use vstd::prelude::*;

verus! {

// ---- sequence parameter set ----

/// Profile, constraints and level in a byte each, and the set's number.
pub proof fn law_sequence_head(c: Cursor, profile: u8, constraints: u8, lvl: u8, id: u32, rest: Seq<bool>)
    requires
        fits(id),
        comes(
            c,
            number(
                profile as int,
                8,
                number(constraints as int, 8, number(lvl as int, 8, code(id as int, rest))),
            ),
        ),
    ensures
        head_part(c).0 == (profile, lvl, id),
        comes(head_part(c).1, rest),
{
    reveal(head_part);
    vstd::arithmetic::power2::lemma2_to64();
    let t2 = number(lvl as int, 8, code(id as int, rest));
    let t1 = number(constraints as int, 8, t2);
    lemma_number(c, profile as int, 8, t1);
    let c1 = c.u(8).1;
    lemma_number(c1, constraints as int, 8, t2);
    let c2 = c1.u(8).1;
    lemma_number(c2, lvl as int, 8, code(id as int, rest));
    lemma_code(c2.u(8).1, id as int, rest);
}

/// The profiles whose sets carry the chroma format, and those of several views.
pub proof fn law_profiles(p: int)
    ensures
        high_profile(p) <==> (p == 44 || p == 83 || p == 86 || p == 100 || p == 110 || p == 118 || p
            == 122 || p == 128 || p == 134 || p == 135 || p == 138 || p == 139 || p == 244),
        multiview_profile(p) <==> (p == 118 || p == 128 || p == 134),
        multiview_profile(p) ==> high_profile(p),
        !high_profile(66) && !high_profile(77) && !high_profile(88),
{
}

/// In a high profile: the chroma format, a flag for separate planes where it is 3,
/// both bit depths, the bypass flag, and no matrices; in the others nothing, which
/// stands for 4:2:0 with eight bits.
pub proof fn law_chroma_format_comes_back(
    c: Cursor,
    profile: int,
    p: ChromaPart,
    bypass: bool,
    rest: Seq<bool>,
)
    requires
        fits(p.format) && fits(p.depth_luma) && fits(p.depth_chroma),
        p.scaling is None,
        p.format != 3 ==> !p.separate,
    ensures
        high_profile(profile) && comes(
            c,
            code(
                p.format as int,
                if p.format == 3 {
                    flag(
                        p.separate,
                        code(
                            p.depth_luma as int,
                            code(p.depth_chroma as int, flag(bypass, flag(false, rest))),
                        ),
                    )
                } else {
                    code(
                        p.depth_luma as int,
                        code(p.depth_chroma as int, flag(bypass, flag(false, rest))),
                    )
                },
            ),
        ) ==> chroma_part(c, profile).0.0 == p && chroma_part(c, profile).0.1 is None && comes(
            chroma_part(c, profile).1,
            rest,
        ),
        !high_profile(profile) ==> {
            let q = chroma_part(c, profile).0.0;
            &&& q.format == 1 && !q.separate && q.depth_luma == 0 && q.depth_chroma == 0
            &&& chroma_part(c, profile).0.1 is None
            &&& chroma_part(c, profile).1 == c
        },
{
    reveal(chroma_part);
    let t4 = flag(false, rest);
    let t3 = flag(bypass, t4);
    let t2 = code(p.depth_chroma as int, t3);
    let t1 = code(p.depth_luma as int, t2);
    let t0 = if p.format == 3 {
        flag(p.separate, t1)
    } else {
        t1
    };
    if high_profile(profile) && comes(c, code(p.format as int, t0)) {
        lemma_code(c, p.format as int, t0);
        let c1 = c.ue().1;
        let c2 = if p.format == 3 {
            lemma_flag(c1, p.separate, t1);
            c1.bit().1
        } else {
            c1
        };
        lemma_code(c2, p.depth_luma as int, t2);
        let c3 = c2.ue().1;
        lemma_code(c3, p.depth_chroma as int, t3);
        let c4 = c3.ue().1;
        lemma_flag(c4, bypass, t4);
        lemma_flag(c4.bit().1, false, rest);
    }
}

/// Signed codes in turn.
pub open spec fn signed_all(v: Seq<i32>, rest: Seq<bool>) -> Seq<bool>
    decreases v.len(),
{
    if v.len() == 0 {
        rest
    } else {
        signed(v[0] as int, signed_all(v.skip(1), rest))
    }
}

proof fn lemma_signed_all(c: Cursor, v: Seq<i32>, rest: Seq<bool>)
    requires
        forall|i: int| 0 <= i < v.len() ==> fits_signed(#[trigger] v[i]),
        comes(c, signed_all(v, rest)),
    ensures
        comes(skip_signed(c, v.len()), rest),
    decreases v.len(),
{
    if v.len() > 0 {
        lemma_signed(c, v[0] as int, signed_all(v.skip(1), rest));
        assert forall|i: int| 0 <= i < v.skip(1).len() implies fits_signed(
            #[trigger] v.skip(1)[i],
        ) by {
            assert(v.skip(1)[i] == v[i + 1]);
        }
        lemma_signed_all(c.se().1, v.skip(1), rest);
    }
}

/// The width of frame numbers and the kind of order counts: kind 0 has the width of
/// their low bits, kind 1 a flag, two offsets and a counted cycle of offsets, kind 2
/// nothing more.
pub proof fn law_order_counts_come_back(
    c: Cursor,
    o: OrderPart,
    a: i32,
    b: i32,
    cycle: Seq<i32>,
    rest: Seq<bool>,
)
    requires
        fits(o.log2_frame_num) && fits(o.poc_type) && fits(o.log2_poc_lsb),
        fits_signed(a) && fits_signed(b),
        forall|i: int| 0 <= i < cycle.len() ==> fits_signed(#[trigger] cycle[i]),
        cycle.len() < u32::MAX,
        o.poc_type != 0 ==> o.log2_poc_lsb == 0,
        o.poc_type != 1 ==> !o.delta_zero,
        comes(
            c,
            code(
                o.log2_frame_num as int,
                code(
                    o.poc_type as int,
                    if o.poc_type == 0 {
                        code(o.log2_poc_lsb as int, rest)
                    } else if o.poc_type == 1 {
                        flag(
                            o.delta_zero,
                            signed(
                                a as int,
                                signed(
                                    b as int,
                                    code(cycle.len() as int, signed_all(cycle, rest)),
                                ),
                            ),
                        )
                    } else {
                        rest
                    },
                ),
            ),
        ),
    ensures
        order_part(c).0 == o,
        comes(order_part(c).1, rest),
{
    reveal(order_part);
    let t4 = signed_all(cycle, rest);
    let t3 = code(cycle.len() as int, t4);
    let t2 = signed(b as int, t3);
    let t1 = signed(a as int, t2);
    let t0 = if o.poc_type == 0 {
        code(o.log2_poc_lsb as int, rest)
    } else if o.poc_type == 1 {
        flag(o.delta_zero, t1)
    } else {
        rest
    };
    lemma_code(c, o.log2_frame_num as int, code(o.poc_type as int, t0));
    let c1 = c.ue().1;
    lemma_code(c1, o.poc_type as int, t0);
    let c2 = c1.ue().1;
    if o.poc_type == 0 {
        lemma_code(c2, o.log2_poc_lsb as int, rest);
    } else if o.poc_type == 1 {
        lemma_flag(c2, o.delta_zero, t1);
        let c3 = c2.bit().1;
        lemma_signed(c3, a as int, t2);
        lemma_signed(c3.se().1, b as int, t3);
        let c5 = c3.se().1.se().1;
        lemma_code(c5, cycle.len() as int, t4);
        lemma_signed_all(c5.ue().1, cycle, rest);
    }
}

/// References, the gap flag, the picture's size in macroblocks less one each way,
/// and the field flags; the adaptive one only where there are fields.
pub proof fn law_picture_size_comes_back(c: Cursor, s: SizePart, rest: Seq<bool>)
    requires
        fits(s.max_refs),
        1 <= s.width_mbs < u32::MAX,
        1 <= s.height_units < u32::MAX,
        s.frames_only ==> !s.adaptive,
        comes(
            c,
            code(
                s.max_refs as int,
                flag(
                    s.gaps,
                    code(
                        s.width_mbs - 1,
                        code(
                            s.height_units - 1,
                            flag(
                                s.frames_only,
                                if s.frames_only {
                                    flag(s.direct_8x8, rest)
                                } else {
                                    flag(s.adaptive, flag(s.direct_8x8, rest))
                                },
                            ),
                        ),
                    ),
                ),
            ),
        ),
    ensures
        size_part(c).0 == s,
        comes(size_part(c).1, rest),
{
    reveal(size_part);
    let t5 = flag(s.direct_8x8, rest);
    let t4 = if s.frames_only {
        t5
    } else {
        flag(s.adaptive, t5)
    };
    let t3 = flag(s.frames_only, t4);
    let t2 = code(s.height_units - 1, t3);
    let t1 = code(s.width_mbs - 1, t2);
    lemma_code(c, s.max_refs as int, flag(s.gaps, t1));
    let c1 = c.ue().1;
    lemma_flag(c1, s.gaps, t1);
    let c2 = c1.bit().1;
    lemma_code(c2, s.width_mbs - 1, t2);
    let c3 = c2.ue().1;
    lemma_code(c3, s.height_units - 1, t3);
    let c4 = c3.ue().1;
    lemma_flag(c4, s.frames_only, t4);
    let c5 = c4.bit().1;
    let c6 = if s.frames_only {
        c5
    } else {
        lemma_flag(c5, s.adaptive, t5);
        c5.bit().1
    };
    lemma_flag(c6, s.direct_8x8, rest);
}

/// The crop offsets behind a flag: left, right, top and bottom.
pub proof fn law_crop_comes_back(c: Cursor, l: u32, r: u32, t: u32, b: u32, rest: Seq<bool>)
    requires
        fits(l) && fits(r) && fits(t) && fits(b),
    ensures
        comes(
            c,
            flag(
                true,
                code(l as int, code(r as int, code(t as int, code(b as int, rest)))),
            ),
        ) ==> crop_part(c).0 == (l, r, t, b) && comes(crop_part(c).1, rest),
        comes(c, flag(false, rest)) ==> crop_part(c).0 == (0u32, 0u32, 0u32, 0u32) && comes(
            crop_part(c).1,
            rest,
        ),
{
    reveal(crop_part);
    let t3 = code(b as int, rest);
    let t2 = code(t as int, t3);
    let t1 = code(r as int, t2);
    if comes(c, flag(true, code(l as int, t1))) {
        lemma_flag(c, true, code(l as int, t1));
        let c1 = c.bit().1;
        lemma_code(c1, l as int, t1);
        let c2 = c1.ue().1;
        lemma_code(c2, r as int, t2);
        let c3 = c2.ue().1;
        lemma_code(c3, t as int, t3);
        lemma_code(c3.ue().1, b as int, rest);
    }
    if comes(c, flag(false, rest)) {
        lemma_flag(c, false, rest);
    }
}

/// The cropped size in samples: 16 per macroblock, less the crop offsets in units of
/// chroma samples, and of two lines where pictures may be fields.
pub proof fn law_cropped_size(s: Sps)
    requires
        1 <= s.pic_width_in_mbs <= 0x10_0000,
        1 <= s.pic_height_in_map_units <= 0x10_0000,
        s.frame_crop.0 <= 0x100_0000 && s.frame_crop.1 <= 0x100_0000,
        s.frame_crop.2 <= 0x100_0000 && s.frame_crop.3 <= 0x100_0000,
    ensures
        ({
            let (l, r, t, b) = (
                s.frame_crop.0 as int,
                s.frame_crop.1 as int,
                s.frame_crop.2 as int,
                s.frame_crop.3 as int,
            );
            let mono = s.separate_colour_plane_flag || s.chroma_format_idc == 0;
            let half_wide = !mono && (s.chroma_format_idc == 1 || s.chroma_format_idc == 2);
            let half_high = !mono && s.chroma_format_idc == 1;
            let w = 16 * s.pic_width_in_mbs - (if half_wide {
                2 * (l + r)
            } else {
                l + r
            });
            let (high, cut_high) = if s.frame_mbs_only_flag {
                (16 * s.pic_height_in_map_units, t + b)
            } else {
                (32 * s.pic_height_in_map_units, 2 * (t + b))
            };
            let h = high - (if half_high {
                2 * cut_high
            } else {
                cut_high
            });
            &&& cropped_size(s).0 == (if w < 0 {
                0
            } else {
                w
            })
            &&& cropped_size(s).1 == (if h < 0 {
                0
            } else {
                h
            })
        }),
{
    let (ux, uy) = crop_unit(s);
    let (l, r, t, b) = s.frame_crop;
    let (lr, tb) = (l.wrapping_add(r), t.wrapping_add(b));
    assert(lr == l + r && tb == t + b);
    lemma_units(lr);
    lemma_units(tb);
    lemma_units(s.pic_height_in_map_units.wrapping_mul(16));
    assert(s.pic_height_in_map_units.wrapping_mul(16) == 16 * s.pic_height_in_map_units);
    assert(s.pic_width_in_mbs.wrapping_mul(16) == 16 * s.pic_width_in_mbs);
    if s.frame_mbs_only_flag {
        assert(uy == 1 || uy == 2);
    } else {
        assert(uy == 2 || uy == 4);
    }
    assert(ux == 1 || ux == 2);
}

proof fn lemma_units(v: u32)
    requires
        v <= 0x400_0000,
    ensures
        1u32.wrapping_mul(v) == v,
        2u32.wrapping_mul(v) == 2 * v,
        4u32.wrapping_mul(v) == 4 * v,
{
}

/// The first part of the VUI: an aspect ratio, with its two sides where its number
/// is 255, the overscan flag, the video signal with its colours, and the place of
/// chroma samples, each behind a flag of its own.
pub open spec fn vui_head_text(
    aspect: Option<(u8, u16, u16)>,
    overscan: Option<bool>,
    signal: Option<(u8, bool)>,
    colours: Option<(u8, u8, u8)>,
    place: Option<(u32, u32)>,
    rest: Seq<bool>,
) -> Seq<bool> {
    let d = match place {
        Some((a, b)) => flag(true, code(a as int, code(b as int, rest))),
        None => flag(false, rest),
    };
    let k = match colours {
        Some((p, t, m)) => flag(true, number(p as int, 8, number(t as int, 8, number(m as int, 8, d)))),
        None => flag(false, d),
    };
    let s = match signal {
        Some((f, r)) => flag(true, number(f as int, 3, flag(r, k))),
        None => flag(false, d),
    };
    let o = match overscan {
        Some(a) => flag(true, flag(a, s)),
        None => flag(false, s),
    };
    match aspect {
        Some((i, w, h)) => flag(
            true,
            number(
                i as int,
                8,
                if i == 255 {
                    number(w as int, 16, number(h as int, 16, o))
                } else {
                    o
                },
            ),
        ),
        None => flag(false, o),
    }
}

/// The first part of the VUI is passed over, whatever it holds.
pub proof fn law_vui_head_is_passed(
    c: Cursor,
    aspect: Option<(u8, u16, u16)>,
    overscan: Option<bool>,
    signal: Option<(u8, bool)>,
    colours: Option<(u8, u8, u8)>,
    place: Option<(u32, u32)>,
    rest: Seq<bool>,
)
    requires
        signal is Some ==> (signal->0).0 <= 7,
        place is Some ==> fits((place->0).0) && fits((place->0).1),
        comes(c, vui_head_text(aspect, overscan, signal, colours, place, rest)),
    ensures
        comes(vui_head(c), rest),
{
    reveal(vui_head);
    vstd::arithmetic::power2::lemma2_to64();
    let d = match place {
        Some((a, b)) => flag(true, code(a as int, code(b as int, rest))),
        None => flag(false, rest),
    };
    let k = match colours {
        Some((p, t, m)) => flag(true, number(p as int, 8, number(t as int, 8, number(m as int, 8, d)))),
        None => flag(false, d),
    };
    let s = match signal {
        Some((f, r)) => flag(true, number(f as int, 3, flag(r, k))),
        None => flag(false, d),
    };
    let o = match overscan {
        Some(a) => flag(true, flag(a, s)),
        None => flag(false, s),
    };
    let c2 = match aspect {
        Some((i, w, h)) => {
            let x = if i == 255 {
                number(w as int, 16, number(h as int, 16, o))
            } else {
                o
            };
            lemma_flag(c, true, number(i as int, 8, x));
            let c1 = c.bit().1;
            lemma_number(c1, i as int, 8, x);
            let e = c1.u(8).1;
            if i == 255 {
                lemma_number(e, w as int, 16, number(h as int, 16, o));
                lemma_number(e.u(16).1, h as int, 16, o);
                e.u(16).1.u(16).1
            } else {
                e
            }
        },
        None => {
            lemma_flag(c, false, o);
            c.bit().1
        },
    };
    let c4 = match overscan {
        Some(a) => {
            lemma_flag(c2, true, flag(a, s));
            lemma_flag(c2.bit().1, a, s);
            c2.bit().1.bit().1
        },
        None => {
            lemma_flag(c2, false, s);
            c2.bit().1
        },
    };
    let c6 = match signal {
        Some((f, r)) => {
            lemma_flag(c4, true, number(f as int, 3, flag(r, k)));
            let c5 = c4.bit().1;
            lemma_number(c5, f as int, 3, flag(r, k));
            let e = c5.u(3).1;
            lemma_flag(e, r, k);
            let g = e.bit().1;
            match colours {
                Some((p, t, m)) => {
                    let y = number(t as int, 8, number(m as int, 8, d));
                    lemma_flag(g, true, number(p as int, 8, y));
                    let q = g.bit().1;
                    lemma_number(q, p as int, 8, y);
                    lemma_number(q.u(8).1, t as int, 8, number(m as int, 8, d));
                    lemma_number(q.u(8).1.u(8).1, m as int, 8, d);
                    q.u(8).1.u(8).1.u(8).1
                },
                None => {
                    lemma_flag(g, false, d);
                    g.bit().1
                },
            }
        },
        None => {
            lemma_flag(c4, false, d);
            c4.bit().1
        },
    };
    match place {
        Some((a, b)) => {
            lemma_flag(c6, true, code(a as int, code(b as int, rest)));
            lemma_code(c6.bit().1, a as int, code(b as int, rest));
            lemma_code(c6.bit().1.ue().1, b as int, rest);
        },
        None => {
            lemma_flag(c6, false, rest);
        },
    }
}

/// The timing of the VUI behind a flag: two numbers of 32 bits and the flag for a
/// fixed rate.
pub proof fn law_timing_comes_back(c: Cursor, t: VuiTiming, rest: Seq<bool>)
    ensures
        comes(
            c,
            flag(
                true,
                number(
                    t.num_units_in_tick as int,
                    32,
                    number(t.time_scale as int, 32, flag(t.fixed_frame_rate_flag, rest)),
                ),
            ),
        ) ==> vui_timing(c).0 == Some(t) && comes(vui_timing(c).1, rest),
        comes(c, flag(false, rest)) ==> vui_timing(c).0 is None && comes(vui_timing(c).1, rest),
{
    reveal(vui_timing);
    vstd::arithmetic::power2::lemma2_to64();
    let t2 = flag(t.fixed_frame_rate_flag, rest);
    let t1 = number(t.time_scale as int, 32, t2);
    let t0 = number(t.num_units_in_tick as int, 32, t1);
    if comes(c, flag(true, t0)) {
        lemma_flag(c, true, t0);
        let c1 = c.bit().1;
        lemma_number(c1, t.num_units_in_tick as int, 32, t1);
        let c2 = c1.u(32).1;
        lemma_number(c2, t.time_scale as int, 32, t2);
        lemma_flag(c2.u(32).1, t.fixed_frame_rate_flag, rest);
    }
    if comes(c, flag(false, rest)) {
        lemma_flag(c, false, rest);
    }
}

/// The buffers of a reference decoder: bit rate, size and the constant-rate flag of
/// each.
pub open spec fn buffers_text(v: Seq<(u32, u32, bool)>, rest: Seq<bool>) -> Seq<bool>
    decreases v.len(),
{
    if v.len() == 0 {
        rest
    } else {
        code(v[0].0 as int, code(v[0].1 as int, flag(v[0].2, buffers_text(v.skip(1), rest))))
    }
}

proof fn lemma_buffers(c: Cursor, v: Seq<(u32, u32, bool)>, rest: Seq<bool>)
    requires
        forall|i: int| 0 <= i < v.len() ==> fits((#[trigger] v[i]).0) && fits(v[i].1),
        comes(c, buffers_text(v, rest)),
    ensures
        comes(c.skip_rows(v.len(), 2, 1), rest),
    decreases v.len(),
{
    if v.len() > 0 {
        let t = buffers_text(v.skip(1), rest);
        lemma_code(c, v[0].0 as int, code(v[0].1 as int, flag(v[0].2, t)));
        let c1 = c.ue().1;
        lemma_code(c1, v[0].1 as int, flag(v[0].2, t));
        let c2 = c1.ue().1;
        lemma_flag(c2, v[0].2, t);
        reveal_with_fuel(Cursor::skip_codes, 3);
        reveal_with_fuel(Cursor::skip_bits, 2);
        assert(c.skip_codes(2) == c2);
        assert(c2.skip_bits(1) == c2.bit().1);
        assert forall|i: int| 0 <= i < v.skip(1).len() implies fits((#[trigger] v.skip(1)[i]).0)
            && fits(v.skip(1)[i].1) by {
            assert(v.skip(1)[i] == v[i + 1]);
        }
        lemma_buffers(c2.bit().1, v.skip(1), rest);
    }
}

/// The parameters of a reference decoder are passed over: the number of buffers less
/// one, two scales of four bits, the buffers, and four numbers of five bits.
pub proof fn law_hrd_is_passed(
    c: Cursor,
    v: Seq<(u32, u32, bool)>,
    s: (u8, u8),
    n: (u8, u8, u8, u8),
    rest: Seq<bool>,
)
    requires
        0 < v.len() < u32::MAX,
        forall|i: int| 0 <= i < v.len() ==> fits((#[trigger] v[i]).0) && fits(v[i].1),
        s.0 <= 15 && s.1 <= 15,
        n.0 <= 31 && n.1 <= 31 && n.2 <= 31 && n.3 <= 31,
        comes(
            c,
            code(
                v.len() - 1,
                number(
                    s.0 as int,
                    4,
                    number(
                        s.1 as int,
                        4,
                        buffers_text(
                            v,
                            number(
                                n.0 as int,
                                5,
                                number(
                                    n.1 as int,
                                    5,
                                    number(n.2 as int, 5, number(n.3 as int, 5, rest)),
                                ),
                            ),
                        ),
                    ),
                ),
            ),
        ),
    ensures
        comes(hrd(c), rest),
{
    reveal(hrd);
    vstd::arithmetic::power2::lemma2_to64();
    let t3 = number(n.3 as int, 5, rest);
    let t2 = number(n.2 as int, 5, t3);
    let t1 = number(n.1 as int, 5, t2);
    let t0 = number(n.0 as int, 5, t1);
    let b = buffers_text(v, t0);
    lemma_code(c, v.len() - 1, number(s.0 as int, 4, number(s.1 as int, 4, b)));
    let c1 = c.ue().1;
    lemma_number(c1, s.0 as int, 4, number(s.1 as int, 4, b));
    lemma_number(c1.u(4).1, s.1 as int, 4, b);
    let c2 = c1.u(4).1.u(4).1;
    lemma_buffers(c2, v, t0);
    let c3 = c2.skip_rows(v.len(), 2, 1);
    lemma_number(c3, n.0 as int, 5, t1);
    lemma_number(c3.u(5).1, n.1 as int, 5, t2);
    lemma_number(c3.u(5).1.u(5).1, n.2 as int, 5, t3);
    lemma_number(c3.u(5).1.u(5).1.u(5).1, n.3 as int, 5, rest);
}

/// The last part of the VUI: parameters of a reference decoder for each kind of
/// stream behind a flag, the low-delay flag where there are any, the picture
/// structure flag, and a flag and six numbers of restrictions behind a flag.
pub proof fn law_vui_tail_is_passed(
    c: Cursor,
    low: bool,
    pic: bool,
    limits: Option<(bool, u32, u32, u32, u32, u32, u32)>,
    rest: Seq<bool>,
)
    requires
        limits matches Some(l) ==> fits(l.1) && fits(l.2) && fits(l.3) && fits(l.4) && fits(l.5)
            && fits(l.6),
    ensures
        ({
            let l = limits->0;
            let t = flag(
                pic,
                if limits is Some {
                    flag(
                        true,
                        flag(
                            l.0,
                            code(
                                l.1 as int,
                                code(
                                    l.2 as int,
                                    code(
                                        l.3 as int,
                                        code(
                                            l.4 as int,
                                            code(l.5 as int, code(l.6 as int, rest)),
                                        ),
                                    ),
                                ),
                            ),
                        ),
                    )
                } else {
                    flag(false, rest)
                },
            );
            &&& comes(c, flag(false, flag(false, t))) ==> comes(vui_tail(c), rest)
            &&& (c.bit().0 && comes(hrd(c.bit().1), flag(false, flag(low, t)))) ==> comes(
                vui_tail(c),
                rest,
            )
            &&& (comes(c, flag(false, flag(true, Seq::empty()))) && comes(
                hrd(c.bit().1.bit().1),
                flag(low, t),
            )) ==> comes(vui_tail(c), rest)
        }),
{
    reveal(vui_tail);
    let l = limits->0;
    let u = flag(
        l.0,
        code(
            l.1 as int,
            code(
                l.2 as int,
                code(l.3 as int, code(l.4 as int, code(l.5 as int, code(l.6 as int, rest)))),
            ),
        ),
    );
    let r = if limits is Some {
        flag(true, u)
    } else {
        flag(false, rest)
    };
    let t = flag(pic, r);
    if comes(c, flag(false, flag(false, t))) {
        lemma_flag(c, false, flag(false, t));
        lemma_flag(c.bit().1, false, t);
        lemma_limits(c.bit().1.bit().1, pic, limits, rest);
    }
    if c.bit().0 && comes(hrd(c.bit().1), flag(false, flag(low, t))) {
        let d = hrd(c.bit().1);
        lemma_flag(d, false, flag(low, t));
        lemma_flag(d.bit().1, low, t);
        lemma_limits(d.bit().1.bit().1, pic, limits, rest);
    }
    if comes(c, flag(false, flag(true, Seq::empty()))) && comes(
        hrd(c.bit().1.bit().1),
        flag(low, t),
    ) {
        lemma_flag(c, false, flag(true, Seq::empty()));
        lemma_flag(c.bit().1, true, Seq::empty());
        let d = hrd(c.bit().1.bit().1);
        lemma_flag(d, low, t);
        lemma_limits(d.bit().1, pic, limits, rest);
    }
}

proof fn lemma_limits(
    c: Cursor,
    pic: bool,
    limits: Option<(bool, u32, u32, u32, u32, u32, u32)>,
    rest: Seq<bool>,
)
    requires
        limits matches Some(l) ==> fits(l.1) && fits(l.2) && fits(l.3) && fits(l.4) && fits(l.5)
            && fits(l.6),
        ({
            let l = limits->0;
            comes(
                c,
                flag(
                    pic,
                    if limits is Some {
                        flag(
                            true,
                            flag(
                                l.0,
                                code(
                                    l.1 as int,
                                    code(
                                        l.2 as int,
                                        code(
                                            l.3 as int,
                                            code(
                                                l.4 as int,
                                                code(l.5 as int, code(l.6 as int, rest)),
                                            ),
                                        ),
                                    ),
                                ),
                            ),
                        )
                    } else {
                        flag(false, rest)
                    },
                ),
            )
        }),
    ensures
        ({
            let c7 = c.bit().1.bit().1;
            if c.bit().1.bit().0 {
                comes(c7.bit().1.skip_codes(6), rest)
            } else {
                comes(c7, rest)
            }
        }),
{
    let l = limits->0;
    let t6 = code(l.6 as int, rest);
    let t5 = code(l.5 as int, t6);
    let t4 = code(l.4 as int, t5);
    let t3 = code(l.3 as int, t4);
    let t2 = code(l.2 as int, t3);
    let t1 = code(l.1 as int, t2);
    let r = if limits is Some {
        flag(true, flag(l.0, t1))
    } else {
        flag(false, rest)
    };
    lemma_flag(c, pic, r);
    let c6 = c.bit().1;
    if limits is Some {
        lemma_flag(c6, true, flag(l.0, t1));
        let c7 = c6.bit().1;
        lemma_flag(c7, l.0, t1);
        let d0 = c7.bit().1;
        lemma_code(d0, l.1 as int, t2);
        let d1 = d0.ue().1;
        lemma_code(d1, l.2 as int, t3);
        let d2 = d1.ue().1;
        lemma_code(d2, l.3 as int, t4);
        let d3 = d2.ue().1;
        lemma_code(d3, l.4 as int, t5);
        let d4 = d3.ue().1;
        lemma_code(d4, l.5 as int, t6);
        let d5 = d4.ue().1;
        lemma_code(d5, l.6 as int, rest);
        reveal_with_fuel(Cursor::skip_codes, 7);
    } else {
        lemma_flag(c6, false, rest);
    }
}

/// The parts of a sequence parameter set come in this order, and the set holds them.
pub proof fn law_sequence_parts_in_order(c: Cursor)
    ensures
        ({
            let (s, end) = sps_data(c);
            let (head, c1) = head_part(c);
            let (chroma, c2) = chroma_part(c1, head.0 as int);
            let (order, c3) = order_part(c2);
            let (size, c4) = size_part(c3);
            let (crop, c5) = crop_part(c4);
            let (timing, c6) = vui_part(c5);
            let x = s.fields;
            &&& end == c6
            &&& s.scaling == chroma.1
            &&& x.profile_idc == head.0 && x.level_idc == head.1 && x.seq_parameter_set_id == head.2
            &&& x.chroma_format_idc == chroma.0.format && x.separate_colour_plane_flag
                == chroma.0.separate && x.bit_depth_luma_minus8 == chroma.0.depth_luma
                && x.bit_depth_chroma_minus8 == chroma.0.depth_chroma
            &&& x.log2_max_frame_num_minus4 == order.log2_frame_num && x.pic_order_cnt_type
                == order.poc_type && x.log2_max_pic_order_cnt_lsb_minus4 == order.log2_poc_lsb
                && x.delta_pic_order_always_zero_flag == order.delta_zero
            &&& x.max_num_ref_frames == size.max_refs && x.gaps_in_frame_num_value_allowed_flag
                == size.gaps && x.pic_width_in_mbs == size.width_mbs && x.pic_height_in_map_units
                == size.height_units && x.frame_mbs_only_flag == size.frames_only
                && x.mb_adaptive_frame_field_flag == size.adaptive && x.direct_8x8_inference_flag
                == size.direct_8x8
            &&& x.frame_crop == crop
            &&& x.vui_timing == timing
            &&& (x.width, x.height) == cropped_size(x)
        }),
        !c.bit().0 ==> vui_part(c) == (None::<VuiTiming>, c.bit().1),
        c.bit().0 ==> {
            let d = vui_head(c.bit().1);
            vui_part(c) == (vui_timing(d).0, vui_tail(vui_timing(d).1))
        },
{
    reveal(sps_data);
    reveal(vui_part);
}

// ---- several views ----

/// Unsigned codes in turn.
pub open spec fn codes(v: Seq<u32>, rest: Seq<bool>) -> Seq<bool>
    decreases v.len(),
{
    if v.len() == 0 {
        rest
    } else {
        code(v[0] as int, codes(v.skip(1), rest))
    }
}

/// All of the elements have codes.
pub open spec fn all_fit(v: Seq<u32>) -> bool {
    forall|i: int| 0 <= i < v.len() ==> fits(#[trigger] v[i])
}

proof fn lemma_codes(c: Cursor, seen: Seq<u32>, v: Seq<u32>, rest: Seq<bool>)
    requires
        all_fit(v),
        comes(c, codes(v, rest)),
    ensures
        c.ue_list(seen, v.len()).0 == seen + v,
        comes(c.ue_list(seen, v.len()).1, rest),
    decreases v.len(),
{
    if v.len() == 0 {
        assert(seen + v =~= seen);
    } else {
        lemma_code(c, v[0] as int, codes(v.skip(1), rest));
        assert(all_fit(v.skip(1))) by {
            assert forall|i: int| 0 <= i < v.skip(1).len() implies fits(#[trigger] v.skip(1)[i]) by {
                assert(v.skip(1)[i] == v[i + 1]);
            }
        }
        lemma_codes(c.ue().1, seen.push(v[0]), v.skip(1), rest);
        assert(seen.push(v[0]) + v.skip(1) =~= seen + v);
    }
}

/// The references of a view: those of list 0 and of list 1, each counted.
pub open spec fn refs_text(v: ViewRefs, rest: Seq<bool>) -> Seq<bool> {
    code(
        v.l0.len() as int,
        codes(v.l0, code(v.l1.len() as int, codes(v.l1, rest))),
    )
}

/// The references of a view have codes.
pub open spec fn refs_fit(v: ViewRefs) -> bool {
    all_fit(v.l0) && all_fit(v.l1) && v.l0.len() < u32::MAX && v.l1.len() < u32::MAX
}

/// The references of a view come back.
pub proof fn law_view_references_come_back(c: Cursor, v: ViewRefs, rest: Seq<bool>)
    requires
        refs_fit(v),
        comes(c, refs_text(v, rest)),
    ensures
        view_refs(c).0 == v,
        comes(view_refs(c).1, rest),
{
    let t1 = codes(v.l1, rest);
    let t0 = code(v.l1.len() as int, t1);
    lemma_code(c, v.l0.len() as int, codes(v.l0, t0));
    let c1 = c.ue().1;
    lemma_codes(c1, Seq::empty(), v.l0, t0);
    let c2 = c1.ue_list(Seq::empty(), v.l0.len()).1;
    lemma_code(c2, v.l1.len() as int, t1);
    lemma_codes(c2.ue().1, Seq::empty(), v.l1, rest);
    assert(Seq::<u32>::empty() + v.l0 =~= v.l0);
    assert(Seq::<u32>::empty() + v.l1 =~= v.l1);
    assert(view_refs(c).0 =~= v);
}

/// The references of views in turn.
pub open spec fn all_refs_text(v: Seq<ViewRefs>, rest: Seq<bool>) -> Seq<bool>
    decreases v.len(),
{
    if v.len() == 0 {
        rest
    } else {
        refs_text(v[0], all_refs_text(v.skip(1), rest))
    }
}

proof fn lemma_all_refs(c: Cursor, seen: Seq<ViewRefs>, v: Seq<ViewRefs>, rest: Seq<bool>)
    requires
        forall|i: int| 0 <= i < v.len() ==> refs_fit(#[trigger] v[i]),
        comes(c, all_refs_text(v, rest)),
    ensures
        refs_of_views(c, seen, v.len()).0 == seen + v,
        comes(refs_of_views(c, seen, v.len()).1, rest),
    decreases v.len(),
{
    if v.len() == 0 {
        assert(seen + v =~= seen);
    } else {
        law_view_references_come_back(c, v[0], all_refs_text(v.skip(1), rest));
        assert forall|i: int| 0 <= i < v.skip(1).len() implies refs_fit(#[trigger] v.skip(1)[i]) by {
            assert(v.skip(1)[i] == v[i + 1]);
        }
        lemma_all_refs(view_refs(c).1, seen.push(v[0]), v.skip(1), rest);
        assert(seen.push(v[0]) + v.skip(1) =~= seen + v);
    }
}

/// An operating point: the temporal layer in three bits, the number of target views
/// less one, the views, and the number of views less one that it needs.
pub proof fn law_operating_point_comes_back(c: Cursor, p: Point, rest: Seq<bool>)
    requires
        p.temporal_id <= 7,
        0 < p.views.len() < u32::MAX,
        all_fit(p.views),
        fits(p.num_views_minus1),
        comes(
            c,
            number(
                p.temporal_id as int,
                3,
                code(p.views.len() - 1, codes(p.views, code(p.num_views_minus1 as int, rest))),
            ),
        ),
    ensures
        point(c).0 == p,
        comes(point(c).1, rest),
{
    vstd::arithmetic::power2::lemma2_to64();
    let t2 = code(p.num_views_minus1 as int, rest);
    let t1 = codes(p.views, t2);
    lemma_number(c, p.temporal_id as int, 3, code(p.views.len() - 1, t1));
    let c1 = c.u(3).1;
    lemma_code(c1, p.views.len() - 1, t1);
    let c2 = c1.ue().1;
    lemma_codes(c2, Seq::empty(), p.views, t2);
    assert(Seq::<u32>::empty() + p.views =~= p.views);
    lemma_code(c2.ue_list(Seq::empty(), p.views.len()).1, p.num_views_minus1 as int, rest);
    assert(point(c).0 =~= p);
}

/// A level in eight bits, the number of its operating points less one, and these;
/// the levels of a set in turn.
pub proof fn law_levels_in_turn(c: Cursor, l: u8, n: u32, rest: Seq<bool>)
    requires
        fits(n),
        comes(c, number(l as int, 8, code(n as int, rest))),
    ensures
        ({
            let c2 = c.u(8).1.ue().1;
            &&& comes(c2, rest)
            &&& level(c).0.level_idc == l
            &&& (level(c).0.points, level(c).1) == points(c2, Seq::empty(), (n + 1) as nat)
        }),
{
    vstd::arithmetic::power2::lemma2_to64();
    lemma_number(c, l as int, 8, code(n as int, rest));
    lemma_code(c.u(8).1, n as int, rest);
}

/// The views of the extension: their number less one, their identifiers in decoding
/// order, then the anchor references of every view but the first, then the other
/// references of every view but the first, and then the levels. The first view has
/// no references.
pub proof fn law_views_come_back(
    c: Cursor,
    ids: Seq<u32>,
    anchor: Seq<ViewRefs>,
    other: Seq<ViewRefs>,
    n: u32,
    rest: Seq<bool>,
)
    requires
        0 < ids.len() <= 1024,
        all_fit(ids),
        anchor.len() == ids.len() - 1,
        other.len() == ids.len() - 1,
        forall|i: int| 0 <= i < anchor.len() ==> refs_fit(#[trigger] anchor[i]),
        forall|i: int| 0 <= i < other.len() ==> refs_fit(#[trigger] other[i]),
        fits(n),
        comes(
            c,
            code(
                ids.len() - 1,
                codes(
                    ids,
                    all_refs_text(anchor, all_refs_text(other, code(n as int, rest))),
                ),
            ),
        ),
    ensures
        ({
            let (x, end) = mvc_extension(c);
            let none = ViewRefs { l0: Seq::empty(), l1: Seq::empty() };
            &&& x.num_views_minus1 == ids.len() - 1
            &&& x.view_id == ids
            &&& x.anchor == seq![none] + anchor
            &&& x.non_anchor == seq![none] + other
            &&& exists|d: Cursor| #[trigger] comes(d, rest) && (x.levels, end) == levels(
                d,
                Seq::empty(),
                (n + 1) as nat,
            )
        }),
{
    reveal(mvc_extension);
    let none = ViewRefs { l0: Seq::empty(), l1: Seq::empty() };
    let t3 = code(n as int, rest);
    let t2 = all_refs_text(other, t3);
    let t1 = all_refs_text(anchor, t2);
    lemma_code(c, ids.len() - 1, codes(ids, t1));
    let c1 = c.ue().1;
    lemma_codes(c1, Seq::empty(), ids, t1);
    assert(Seq::<u32>::empty() + ids =~= ids);
    let c2 = c1.ue_list(Seq::empty(), ids.len()).1;
    lemma_all_refs(c2, seq![none], anchor, t2);
    let c3 = refs_of_views(c2, seq![none], anchor.len()).1;
    lemma_all_refs(c3, seq![none], other, t3);
    let c4 = refs_of_views(c3, seq![none], other.len()).1;
    lemma_code(c4, n as int, rest);
    assert(comes(c4.ue().1, rest));
}

/// A subset sequence parameter set is a sequence parameter set; in a multiview
/// profile one bit and the extension follow.
pub proof fn law_subset_set(c: Cursor)
    ensures
        subset_sps(c).0.0 == sps_data(c).0,
        ({
            let p = sps_data(c).0.fields.profile_idc;
            let d = sps_data(c).1;
            &&& (p == 118 || p == 128 || p == 134) ==> (subset_sps(c).0.1, subset_sps(c).1)
                == mvc_extension(d.bit().1)
            &&& !(p == 118 || p == 128 || p == 134) ==> subset_sps(c).1 == d && subset_sps(
                c,
            ).0.1.num_views_minus1 == 0
        }),
{
}

// ---- picture parameter set ----

/// The first elements of a picture parameter set without slice groups.
pub proof fn law_picture_head_comes_back(c: Cursor, h: PpsHead, rest: Seq<bool>)
    requires
        fits(h.id) && fits(h.sps_id),
        h.groups == 0,
        comes(
            c,
            code(
                h.id as int,
                code(h.sps_id as int, flag(h.cabac, flag(h.bottom, code(0, rest)))),
            ),
        ),
    ensures
        pps_head(c).0 == h,
        comes(pps_head(c).1, rest),
{
    reveal(pps_head);
    let t2 = flag(h.bottom, code(0, rest));
    let t1 = flag(h.cabac, t2);
    lemma_code(c, h.id as int, code(h.sps_id as int, t1));
    let c1 = c.ue().1;
    lemma_code(c1, h.sps_id as int, t1);
    let c2 = c1.ue().1;
    lemma_flag(c2, h.cabac, t2);
    let c3 = c2.bit().1;
    lemma_flag(c3, h.bottom, code(0, rest));
    lemma_code(c3.bit().1, 0, rest);
}

/// The elements behind the slice groups: list sizes, weighted prediction, the
/// quantisers, the chroma offset and three flags.
pub open spec fn body_text(b: PpsBody, rest: Seq<bool>) -> Seq<bool> {
    code(
        b.refs0 as int,
        code(
            b.refs1 as int,
            flag(
                b.weighted,
                number(
                    b.bipred as int,
                    2,
                    signed(
                        b.qp as int,
                        signed(
                            b.qs as int,
                            signed(
                                b.chroma as int,
                                flag(b.deblock, flag(b.constrained, flag(b.redundant, rest))),
                            ),
                        ),
                    ),
                ),
            ),
        ),
    )
}

/// The elements behind the slice groups come back.
pub proof fn law_picture_body_comes_back(c: Cursor, b: PpsBody, rest: Seq<bool>)
    requires
        fits(b.refs0) && fits(b.refs1),
        b.bipred <= 3,
        fits_signed(b.qp) && fits_signed(b.qs) && fits_signed(b.chroma),
        comes(c, body_text(b, rest)),
    ensures
        pps_body(c).0 == b,
        comes(pps_body(c).1, rest),
{
    reveal(pps_body);
    vstd::arithmetic::power2::lemma2_to64();
    let t9 = flag(b.redundant, rest);
    let t8 = flag(b.constrained, t9);
    let t7 = flag(b.deblock, t8);
    let t6 = signed(b.chroma as int, t7);
    let t5 = signed(b.qs as int, t6);
    let t4 = signed(b.qp as int, t5);
    let t3 = number(b.bipred as int, 2, t4);
    let t2 = flag(b.weighted, t3);
    let t1 = code(b.refs1 as int, t2);
    lemma_code(c, b.refs0 as int, t1);
    let c1 = c.ue().1;
    lemma_code(c1, b.refs1 as int, t2);
    let c2 = c1.ue().1;
    lemma_flag(c2, b.weighted, t3);
    let c3 = c2.bit().1;
    lemma_number(c3, b.bipred as int, 2, t4);
    let c4 = c3.u(2).1;
    lemma_signed(c4, b.qp as int, t5);
    let c5 = c4.se().1;
    lemma_signed(c5, b.qs as int, t6);
    let c6 = c5.se().1;
    lemma_signed(c6, b.chroma as int, t7);
    let c7 = c6.se().1;
    lemma_flag(c7, b.deblock, t8);
    let c8 = c7.bit().1;
    lemma_flag(c8, b.constrained, t9);
    lemma_flag(c8.bit().1, b.redundant, rest);
}

/// Where more data follows, it is the flag of the 8x8 transform, the flag of the
/// matrices, these where it is set, and the offset of the second chroma component;
/// where none does, there is no 8x8 transform and one offset holds for both.
pub proof fn law_picture_tail(
    c: Cursor,
    idc: u32,
    a: PpsHead,
    b: PpsBody,
    t8: bool,
    second: i32,
    rest: Seq<bool>,
)
    requires
        fits_signed(second),
    ensures
        ({
            let p = plain_pps(a, b);
            let (r, d) = pps_tail(c, idc, p);
            let x = r.fields;
            &&& !c.more_rbsp_data() ==> r.scaling is None && x == p && d == c
            &&& (c.more_rbsp_data() && comes(c, flag(t8, flag(false, signed(second as int, rest)))))
                ==> r.scaling is None && comes(d, rest) && x == (Pps {
                transform_8x8_mode_flag: t8,
                second_chroma_qp_index_offset: second,
                ..p
            })
            &&& (c.more_rbsp_data() && comes(c, flag(t8, flag(true, rest)))) ==> {
                let m = scaling_matrix(
                    c.bit().1.bit().1,
                    if !t8 {
                        6
                    } else if idc == 3 {
                        12
                    } else {
                        8
                    },
                );
                comes(c.bit().1.bit().1, rest) && r.scaling == Some(m.0)
                    && x.second_chroma_qp_index_offset == m.1.se().0 && d == m.1.se().1
                    && x.transform_8x8_mode_flag == t8
            }
            &&& !p.transform_8x8_mode_flag && p.second_chroma_qp_index_offset == b.chroma
            &&& p.chroma_qp_index_offset == b.chroma && p.pic_init_qp_minus26 == b.qp
                && p.pic_init_qs_minus26 == b.qs
            &&& p.pic_parameter_set_id == a.id && p.seq_parameter_set_id == a.sps_id
                && p.entropy_coding_mode_flag == a.cabac
                && p.bottom_field_pic_order_in_frame_present_flag == a.bottom
                && p.num_slice_groups_minus1 == a.groups
            &&& p.num_ref_idx_l0_default_active_minus1 == b.refs0
                && p.num_ref_idx_l1_default_active_minus1 == b.refs1 && p.weighted_pred_flag
                == b.weighted && p.weighted_bipred_idc == b.bipred
                && p.deblocking_filter_control_present_flag == b.deblock
                && p.constrained_intra_pred_flag == b.constrained
                && p.redundant_pic_cnt_present_flag == b.redundant
        }),
{
    reveal(pps_tail);
    if comes(c, flag(t8, flag(false, signed(second as int, rest)))) {
        lemma_flag(c, t8, flag(false, signed(second as int, rest)));
        lemma_flag(c.bit().1, false, signed(second as int, rest));
        lemma_signed(c.bit().1.bit().1, second as int, rest);
    }
    if comes(c, flag(t8, flag(true, rest))) {
        lemma_flag(c, t8, flag(true, rest));
        lemma_flag(c.bit().1, true, rest);
    }
}

/// A picture parameter set is its head, the elements behind the slice groups and the
/// tail, one after another.
pub proof fn law_picture_parts_in_order(c: Cursor, idc: u32)
    ensures
        pps_data(c, idc) == pps_tail(
            pps_body(pps_head(c).1).1,
            idc,
            plain_pps(pps_head(c).0, pps_body(pps_head(c).1).0),
        ),
{
    reveal(pps_data);
}

// ---- scaling lists ----

/// The weights of a list that are coded one by one: each difference is the weight
/// less the one before, modulo 256; the first one's predecessor is 8.
pub open spec fn differences(last: int, w: Seq<i32>, rest: Seq<bool>) -> Seq<bool>
    decreases w.len(),
{
    if w.len() == 0 {
        rest
    } else {
        signed(w[0] - last, differences(w[0] as int, w.skip(1), rest))
    }
}

proof fn lemma_list(c: Cursor, seen: Seq<i32>, last: int, w: Seq<i32>, next: int, rest: Seq<bool>)
    requires
        1 <= last <= 255,
        next != 0,
        forall|i: int| 0 <= i < w.len() ==> 1 <= #[trigger] w[i] <= 255,
        comes(c, differences(last, w, rest)),
    ensures
        rest_of_list(c, seen, last, next, false, w.len()).0 == (seen + w, false),
        comes(rest_of_list(c, seen, last, next, false, w.len()).1, rest),
    decreases w.len(),
{
    if w.len() == 0 {
        assert(seen + w =~= seen);
    } else {
        lemma_signed(c, w[0] - last, differences(w[0] as int, w.skip(1), rest));
        let v = w[0] as int;
        assert((last + (w[0] - last)) % 256 == v);
        assert forall|i: int| 0 <= i < w.skip(1).len() implies 1 <= #[trigger] w.skip(1)[i]
            <= 255 by {
            assert(w.skip(1)[i] == w[i + 1]);
        }
        lemma_list(c.se().1, seen.push(w[0]), v, w.skip(1), v, rest);
        assert(seen.push(w[0]) + w.skip(1) =~= seen + w);
    }
}

/// A scaling list whose weights are all coded comes back, and is not the default.
pub proof fn law_scaling_list_comes_back(c: Cursor, w: Seq<i32>, rest: Seq<bool>)
    requires
        forall|i: int| 0 <= i < w.len() ==> 1 <= #[trigger] w[i] <= 255,
        comes(c, differences(8, w, rest)),
    ensures
        scaling_list(c, w.len()).0 == (w, false),
        comes(scaling_list(c, w.len()).1, rest),
{
    lemma_list(c, Seq::empty(), 8, w, 8, rest);
    assert(Seq::<i32>::empty() + w =~= w);
}

proof fn lemma_repeated(c: Cursor, seen: Seq<i32>, last: int, dflt: bool, n: nat)
    requires
        c.err is None,
        1 <= last <= 255,
        seen.len() > 0,
    ensures
        rest_of_list(c, seen, last, 0, dflt, n) == (
            (seen + Seq::new(n, |i: int| last as i32), dflt),
            c,
        ),
    decreases n,
{
    if n == 0 {
        assert(seen + Seq::new(n, |i: int| last as i32) =~= seen);
    } else {
        lemma_repeated(c, seen.push(last as i32), last, dflt, (n - 1) as nat);
        assert(seen.push(last as i32) + Seq::new((n - 1) as nat, |i: int| last as i32) =~= seen
            + Seq::new(n, |i: int| last as i32));
    }
}

/// A list that starts with a difference to zero, that is -8, is the default one, and
/// nothing more is coded.
pub proof fn law_default_scaling_list(c: Cursor, n: nat, rest: Seq<bool>)
    requires
        n > 0,
        comes(c, signed(-8, rest)),
    ensures
        scaling_list(c, n).0.1,
        comes(scaling_list(c, n).1, rest),
{
    lemma_signed(c, -8, rest);
    let s = Seq::<i32>::empty().push(8);
    lemma_repeated(c.se().1, s, 8, true, (n - 1) as nat);
    assert((8 + -8int) % 256 == 0);
}

/// Behind a weight with a difference to zero, that weight goes on to the end.
pub proof fn law_scaling_list_runs_out(c: Cursor, w: int, n: nat, rest: Seq<bool>)
    requires
        1 <= w <= 255,
        n > 1,
        comes(c, signed(w - 8, signed(-w, rest))),
    ensures
        scaling_list(c, n).0 == (Seq::new(n, |i: int| w as i32), false),
        comes(scaling_list(c, n).1, rest),
{
    lemma_signed(c, w - 8, signed(-w, rest));
    let c1 = c.se().1;
    lemma_signed(c1, -w, rest);
    let c2 = c1.se().1;
    let one = Seq::<i32>::empty().push(w as i32);
    let two = one.push(w as i32);
    assert((8 + (w - 8)) % 256 == w);
    assert((w + -w) % 256 == 0);
    lemma_repeated(c2, two, w, false, (n - 2) as nat);
    reveal_with_fuel(rest_of_list, 3);
    assert(two + Seq::new((n - 2) as nat, |i: int| w as i32) =~= Seq::new(n, |i: int| w as i32));
}

/// A matrix that is not coded is the default one for the first of each kind, and
/// otherwise the one before it of its kind.
pub proof fn law_missing_matrices(c: Cursor, i: int, l4: Seq<Seq<i32>>, l8: Seq<Seq<i32>>)
    requires
        0 <= i < 12,
        !c.bit().0,
    ensures
        one_matrix(c, i, l4, l8).1 == c.bit().1,
        (i == 0 || i == 3 || i == 6 || i == 7) ==> one_matrix(c, i, l4, l8).0 == raster(
            i,
            default_list(i),
        ),
        (i == 1 || i == 2 || i == 4 || i == 5) ==> one_matrix(c, i, l4, l8).0 == l4[i - 1],
        i >= 8 ==> one_matrix(c, i, l4, l8).0 == l8[i - 8],
{
}

/// A matrix that is coded has 16 weights below number 6 and 64 from there on, or is
/// the default one of its kind.
pub proof fn law_coded_matrices(c: Cursor, i: int, l4: Seq<Seq<i32>>, l8: Seq<Seq<i32>>)
    requires
        0 <= i < 12,
        c.bit().0,
    ensures
        ({
            let (l, d) = scaling_list(
                c.bit().1,
                if i < 6 {
                    16
                } else {
                    64
                },
            );
            one_matrix(c, i, l4, l8) == (
                raster(
                    i,
                    if l.1 {
                        default_list(i)
                    } else {
                        l.0
                    },
                ),
                d,
            )
        }),
{
}

// ---- NAL unit header ----

/// The first byte of a NAL unit: one bit that is zero, two for the importance, five
/// for the type. Types 14 and 20 have three more bytes.
#[verifier::spinoff_prover]
#[verifier::rlimit(60)]
pub proof fn law_nal_header(zero: bool, idc: int, kind: int, b: Seq<u8>)
    requires
        0 <= idc < 4,
        0 <= kind < 32,
        b.len() > 0,
        b[0] == (if zero {
            128int
        } else {
            0
        }) + 32 * idc + kind,
    ensures
        (kind == 14 || kind == 20) && b.len() < 4 ==> nal_header(b) is Err,
        !((kind == 14 || kind == 20) && b.len() < 4) ==> {
            let r = nal_header(b);
            &&& r is Ok
            &&& r->Ok_0.0.forbidden_zero_bit == zero
            &&& r->Ok_0.0.nal_ref_idc == idc
            &&& r->Ok_0.0.nal_unit_type == kind
            &&& (kind == 14 || kind == 20) ==> r->Ok_0.1 == 4 && r->Ok_0.0.mvc_extension
                == extension(b.subrange(1, 4))
            &&& !(kind == 14 || kind == 20) ==> r->Ok_0.1 == 1 && r->Ok_0.0.mvc_extension is None
        },
{
    lemma_first_byte(zero, idc, kind, b[0]);
}

proof fn lemma_first_byte(zero: bool, idc: int, kind: int, b: u8)
    requires
        0 <= idc < 4,
        0 <= kind < 32,
        b == (if zero {
            128int
        } else {
            0
        }) + 32 * idc + kind,
    ensures
        b as int % 32 == kind,
        b / 32 % 4 == idc,
        b >= 128 <==> zero,
{
}

/// The extension of a NAL unit header for several views: behind a zero bit the
/// non-IDR flag, six bits of priority, ten of the view, three of the temporal layer,
/// the anchor flag, the inter-view flag and a last bit. Behind a one it is of
/// another kind.
pub proof fn law_nal_extension_comes_back(b: Seq<u8>, x: MvcNalExtension, rest: Seq<bool>)
    requires
        x.priority_id <= 63,
        x.view_id <= 1023,
        x.temporal_id <= 7,
    ensures
        ({
            let c = Cursor { data: b, pos: 0, err: None };
            &&& comes(
                c,
                flag(
                    false,
                    flag(
                        x.non_idr_flag,
                        number(
                            x.priority_id as int,
                            6,
                            number(
                                x.view_id as int,
                                10,
                                number(
                                    x.temporal_id as int,
                                    3,
                                    flag(
                                        x.anchor_pic_flag,
                                        flag(
                                            x.inter_view_flag,
                                            flag(x.reserved_one_bit, rest),
                                        ),
                                    ),
                                ),
                            ),
                        ),
                    ),
                ),
            ) ==> extension(b) == Some(x)
            &&& comes(c, flag(true, rest)) ==> extension(b) is None
        }),
{
    vstd::arithmetic::power2::lemma2_to64();
    let c = Cursor { data: b, pos: 0, err: None };
    let t6 = flag(x.reserved_one_bit, rest);
    let t5 = flag(x.inter_view_flag, t6);
    let t4 = flag(x.anchor_pic_flag, t5);
    let t3 = number(x.temporal_id as int, 3, t4);
    let t2 = number(x.view_id as int, 10, t3);
    let t1 = number(x.priority_id as int, 6, t2);
    let t0 = flag(x.non_idr_flag, t1);
    if comes(c, flag(false, t0)) {
        lemma_flag(c, false, t0);
        let c1 = c.bit().1;
        lemma_flag(c1, x.non_idr_flag, t1);
        let c2 = c1.bit().1;
        lemma_number(c2, x.priority_id as int, 6, t2);
        let c3 = c2.u(6).1;
        lemma_number(c3, x.view_id as int, 10, t3);
        let c4 = c3.u(10).1;
        lemma_number(c4, x.temporal_id as int, 3, t4);
        let c5 = c4.u(3).1;
        lemma_flag(c5, x.anchor_pic_flag, t5);
        let c6 = c5.bit().1;
        lemma_flag(c6, x.inter_view_flag, t6);
        lemma_flag(c6.bit().1, x.reserved_one_bit, rest);
    }
    if comes(c, flag(true, rest)) {
        lemma_flag(c, true, rest);
    }
}

// ---- frame packing ----

/// The numbers of the arrangements (H.264 table D-8).
pub proof fn law_arrangements()
    ensures
        arrangement_of(0) == Some(ArrangementType::Checkerboard),
        arrangement_of(1) == Some(ArrangementType::ColumnInterleaved),
        arrangement_of(2) == Some(ArrangementType::RowInterleaved),
        arrangement_of(3) == Some(ArrangementType::SideBySide),
        arrangement_of(4) == Some(ArrangementType::TopBottom),
        arrangement_of(5) == Some(ArrangementType::TemporalInterleaving),
        arrangement_of(6) == Some(ArrangementType::TileFormat),
        forall|v: int| v < 0 || v > 6 ==> #[trigger] arrangement_of(v) is None,
{
}

/// What a frame packing message says, element by element; the grids only where the
/// samples are not in a quincunx and the frames do not alternate in time.
pub open spec fn packing_text(p: FramePackingArrangementBody, rest: Seq<bool>) -> Seq<bool> {
    let e = number(p.reserved_byte as int, 8, code(p.repetition_period as int, rest));
    let g = match p.grid_positions {
        Some(q) => number(
            q.frame0_x as int,
            4,
            number(
                q.frame0_y as int,
                4,
                number(q.frame1_x as int, 4, number(q.frame1_y as int, 4, e)),
            ),
        ),
        None => e,
    };
    let f = flag(
        p.spatial_flipping_flag,
        flag(
            p.frame0_flipped_flag,
            flag(
                p.field_views_flag,
                flag(
                    p.current_frame_is_frame0_flag,
                    flag(p.frame0_self_contained_flag, flag(p.frame1_self_contained_flag, g)),
                ),
            ),
        ),
    );
    number(
        p.arrangement_type as int,
        7,
        flag(p.quincunx_sampling_flag, number(p.content_interpretation_type as int, 6, f)),
    )
}

/// What a frame packing message says comes back.
pub proof fn law_packing_comes_back(c: Cursor, p: FramePackingArrangementBody, rest: Seq<bool>)
    requires
        p.arrangement_type <= 127,
        p.content_interpretation_type <= 63,
        fits(p.repetition_period),
        p.grid_positions is Some <==> !p.quincunx_sampling_flag && p.arrangement_type != 5,
        p.grid_positions matches Some(q) ==> q.frame0_x <= 15 && q.frame0_y <= 15 && q.frame1_x
            <= 15 && q.frame1_y <= 15,
        comes(c, packing_text(p, rest)),
    ensures
        packing_body(c).0 == p,
        comes(packing_body(c).1, rest),
{
    reveal(packing_body);
    reveal(crate::mvc::sei::grid);
    vstd::arithmetic::power2::lemma2_to64();
    let e1 = code(p.repetition_period as int, rest);
    let e = number(p.reserved_byte as int, 8, e1);
    let q = p.grid_positions->0;
    let g3 = number(q.frame1_y as int, 4, e);
    let g2 = number(q.frame1_x as int, 4, g3);
    let g1 = number(q.frame0_y as int, 4, g2);
    let g = if p.grid_positions is Some {
        number(q.frame0_x as int, 4, g1)
    } else {
        e
    };
    let f5 = flag(p.frame1_self_contained_flag, g);
    let f4 = flag(p.frame0_self_contained_flag, f5);
    let f3 = flag(p.current_frame_is_frame0_flag, f4);
    let f2 = flag(p.field_views_flag, f3);
    let f1 = flag(p.frame0_flipped_flag, f2);
    let f0 = flag(p.spatial_flipping_flag, f1);
    let a1 = number(p.content_interpretation_type as int, 6, f0);
    let a0 = flag(p.quincunx_sampling_flag, a1);
    assert(packing_text(p, rest) == number(p.arrangement_type as int, 7, a0));
    lemma_number(c, p.arrangement_type as int, 7, a0);
    let c1 = c.u(7).1;
    lemma_flag(c1, p.quincunx_sampling_flag, a1);
    let c2 = c1.bit().1;
    lemma_number(c2, p.content_interpretation_type as int, 6, f0);
    let c3 = c2.u(6).1;
    lemma_flag(c3, p.spatial_flipping_flag, f1);
    let c4 = c3.bit().1;
    lemma_flag(c4, p.frame0_flipped_flag, f2);
    let c5 = c4.bit().1;
    lemma_flag(c5, p.field_views_flag, f3);
    let c6 = c5.bit().1;
    lemma_flag(c6, p.current_frame_is_frame0_flag, f4);
    let c7 = c6.bit().1;
    lemma_flag(c7, p.frame0_self_contained_flag, f5);
    let c8 = c7.bit().1;
    lemma_flag(c8, p.frame1_self_contained_flag, g);
    let c9 = c8.bit().1;
    let c10 = if p.grid_positions is Some {
        lemma_number(c9, q.frame0_x as int, 4, g1);
        let d1 = c9.u(4).1;
        lemma_number(d1, q.frame0_y as int, 4, g2);
        let d2 = d1.u(4).1;
        lemma_number(d2, q.frame1_x as int, 4, g3);
        let d3 = d2.u(4).1;
        lemma_number(d3, q.frame1_y as int, 4, e);
        d3.u(4).1
    } else {
        c9
    };
    lemma_number(c10, p.reserved_byte as int, 8, e1);
    lemma_code(c10.u(8).1, p.repetition_period as int, rest);
}

/// A frame packing message: its number, the cancel flag, what it says unless it
/// cancels, and the extension flag.
pub proof fn law_packing_message(c: Cursor, id: u32, cancel: bool, x: bool, rest: Seq<bool>)
    requires
        fits(id),
    ensures
        comes(c, code(id as int, flag(true, flag(x, rest)))) ==> {
            let (m, d) = frame_packing(c);
            m.id == id && m.cancel_flag && m.body is None && m.extension_flag == x && comes(d, rest)
        },
        comes(c, code(id as int, flag(false, rest))) ==> {
            let (m, d) = frame_packing(c);
            let c2 = c.ue().1.bit().1;
            let b = packing_body(c2);
            comes(c2, rest) && m.id == id && !m.cancel_flag && m.body == Some(b.0)
                && m.extension_flag == b.1.bit().0 && d == b.1.bit().1
        },
{
    if comes(c, code(id as int, flag(true, flag(x, rest)))) {
        lemma_code(c, id as int, flag(true, flag(x, rest)));
        lemma_flag(c.ue().1, true, flag(x, rest));
        lemma_flag(c.ue().1.bit().1, x, rest);
    }
    if comes(c, code(id as int, flag(false, rest))) {
        lemma_code(c, id as int, flag(false, rest));
        lemma_flag(c.ue().1, false, rest);
    }
}

/// The map of slice groups, by its kind: a run for each group, two corners for each but
/// the last, a direction and a rate, or a group number for each unit in as few bits as
/// hold the largest; the other kinds have no more than their number.
pub proof fn law_slice_groups(c: Cursor, last: u32)
    requires
        last < 8,
    ensures
        ({
            let (kind, d) = c.ue();
            let r = group_map(c, last);
            &&& kind == 0 ==> r == d.skip_codes((last + 1) as nat)
            &&& kind == 2 ==> r == d.skip_rows(last as nat, 2, 0)
            &&& kind == 3 || kind == 4 || kind == 5 ==> r == d.bit().1.ue().1
            &&& kind == 6 && last == 1 ==> r == d.ue().1.skip_numbers((d.ue().0 + 1) as nat, 1)
            &&& kind == 6 && (last == 2 || last == 3) ==> r == d.ue().1.skip_numbers(
                (d.ue().0 + 1) as nat,
                2,
            )
            &&& kind == 6 && last >= 4 ==> r == d.ue().1.skip_numbers((d.ue().0 + 1) as nat, 3)
            &&& kind == 1 || kind > 6 ==> r == d
        }),
{
    reveal(group_map);
    vstd::arithmetic::power2::lemma2_to64();
    let n = last + 1;
    if 1 <= last {
        let k = if last == 1 {
            1int
        } else if last <= 3 {
            2
        } else {
            3
        };
        assert(index_bits(n as int, k));
        lemma_index_bits(n as int, k, bits_for(n as int));
    }
}

proof fn lemma_index_bits(n: int, j: int, k: int)
    requires
        index_bits(n, j),
        index_bits(n, k),
    ensures
        j == k,
{
    if j < k {
        if j < k - 1 {
            vstd::arithmetic::power2::lemma_pow2_strictly_increases(j as nat, (k - 1) as nat);
        }
    } else if k < j {
        if k < j - 1 {
            vstd::arithmetic::power2::lemma_pow2_strictly_increases(k as nat, (j - 1) as nat);
        }
    }
}

} // verus!

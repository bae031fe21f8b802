//! Sequence parameter sets: the base set (H.264 section 7.3.2.1.1), with the
//! cropped luma size derived from it, and the MVC extension of a subset set
//! (section G.7.3.2.1.4).

use crate::mvc::bitstream::{reads, reads_view, BitReader, Cursor, ReadError};
use crate::mvc::rbsp::{extract_rbsp, unescaped};
use crate::mvc::scaling::{parse_scaling_matrix, scaling_matrix, ScalingLists, Weights};
use vstd::prelude::*;

verus! {

/// A decoded sequence parameter set. VUI and HRD parameters are read for their
/// length; of their values only the timing is kept.
#[derive(Debug, Clone, Copy, PartialEq, Eq)]
pub struct Sps {
    pub profile_idc: u8,
    pub level_idc: u8,
    pub seq_parameter_set_id: u32,
    pub chroma_format_idc: u32,
    pub separate_colour_plane_flag: bool,
    pub bit_depth_luma_minus8: u32,
    pub bit_depth_chroma_minus8: u32,
    pub log2_max_frame_num_minus4: u32,
    pub pic_order_cnt_type: u32,
    pub log2_max_pic_order_cnt_lsb_minus4: u32,
    pub delta_pic_order_always_zero_flag: bool,
    pub max_num_ref_frames: u32,
    pub gaps_in_frame_num_value_allowed_flag: bool,
    pub pic_width_in_mbs: u32,
    pub pic_height_in_map_units: u32,
    pub frame_mbs_only_flag: bool,
    pub mb_adaptive_frame_field_flag: bool,
    pub direct_8x8_inference_flag: bool,
    /// Crop offsets (left, right, top, bottom) in crop units.
    pub frame_crop: (u32, u32, u32, u32),
    /// Cropped luma width in samples.
    pub width: u32,
    /// Cropped luma height in samples.
    pub height: u32,
    pub vui_timing: Option<VuiTiming>,
    /// The weight matrices where the set carries them; `None` means flat ones.
    pub scaling: Option<ScalingLists>,
}

/// Timing of the VUI parameters.
#[derive(Debug, Clone, Copy, PartialEq, Eq)]
pub struct VuiTiming {
    pub num_units_in_tick: u32,
    pub time_scale: u32,
    pub fixed_frame_rate_flag: bool,
}

/// A sequence parameter set with its weight matrices apart.
pub struct SpsData {
    /// The set, with no matrices.
    pub fields: Sps,
    pub scaling: Option<Weights>,
}

impl View for Sps {
    type V = SpsData;

    open spec fn view(&self) -> SpsData {
        SpsData {
            fields: Sps { scaling: None, ..*self },
            scaling: match self.scaling {
                Some(s) => Some(s@),
                None => None,
            },
        }
    }
}

/// The set with these fields and matrices.
pub open spec fn sps_of(d: SpsData) -> Sps {
    choose|s: Sps| s@ == d
}

/// A set is determined by its fields and matrices.
pub broadcast proof fn lemma_sps_of(s: Sps)
    ensures
        sps_of(#[trigger] s@) == s,
{
    let t = sps_of(s@);
    assert(t@ == s@);
    match (s.scaling, t.scaling) {
        (Some(a), Some(b)) => {
            crate::mvc::scaling::lemma_same_lists(a, b);
        },
        _ => {},
    }
    let (x, y) = (s@.fields, t@.fields);
    assert(s == (Sps { scaling: s.scaling, ..x }));
    assert(t == (Sps { scaling: t.scaling, ..y }));
}

impl Sps {
    /// The chroma array type: 0 where colour planes are coded apart.
    pub open spec fn array_type(self) -> u32 {
        if self.separate_colour_plane_flag {
            0
        } else {
            self.chroma_format_idc
        }
    }

    /// The chroma array type: 0 where colour planes are coded apart, else the
    /// chroma format.
    pub fn chroma_array_type(&self) -> (r: u32)
        ensures
            r == self.array_type(),
    {
        if self.separate_colour_plane_flag {
            0
        } else {
            self.chroma_format_idc
        }
    }

    /// The number of frame numbers, `2^(log2_max_frame_num_minus4 + 4)`.
    pub fn max_frame_num(&self) -> (r: u32)
        requires
            self.log2_max_frame_num_minus4 <= 27,
        ensures
            r == vstd::arithmetic::power2::pow2((self.log2_max_frame_num_minus4 + 4) as nat),
    {
        let n: u32 = self.log2_max_frame_num_minus4 + 4;
        proof {
            vstd::arithmetic::power2::lemma2_to64();
            if n < 31 {
                vstd::arithmetic::power2::lemma_pow2_strictly_increases(n as nat, 31);
            }
            vstd::bits::lemma_u32_shl_is_mul(1, n);
        }
        1u32 << n
    }
}

/// Profiles that carry chroma format, bit depths and scaling matrices.
pub open spec fn high_profile(p: int) -> bool {
    p == 100 || p == 110 || p == 122 || p == 244 || p == 44 || p == 83 || p == 86 || p == 118 || p
        == 128 || p == 138 || p == 139 || p == 134 || p == 135
}

/// Profiles of the multiview family, whose subset sets carry the extension.
pub open spec fn multiview_profile(p: int) -> bool {
    p == 118 || p == 128 || p == 134
}

fn is_high_profile(p: u8) -> (r: bool)
    ensures
        r == high_profile(p as int),
{
    p == 100 || p == 110 || p == 122 || p == 244 || p == 44 || p == 83 || p == 86 || p == 118 || p
        == 128 || p == 138 || p == 139 || p == 134 || p == 135
}

// ---- parts of the set ----

/// Chroma format, bit depths and matrices.
#[derive(Clone, Copy)]
pub struct ChromaPart {
    pub format: u32,
    pub separate: bool,
    pub depth_luma: u32,
    pub depth_chroma: u32,
    pub scaling: Option<ScalingLists>,
}

impl View for ChromaPart {
    type V = (ChromaPart, Option<Weights>);

    open spec fn view(&self) -> (ChromaPart, Option<Weights>) {
        (
            ChromaPart { scaling: None, ..*self },
            match self.scaling {
                Some(s) => Some(s@),
                None => None,
            },
        )
    }
}

/// The part that only high profiles carry; 4:2:0 with 8 bits otherwise.
#[verifier::opaque]
pub open spec fn chroma_part(c: Cursor, profile: int) -> ((ChromaPart, Option<Weights>), Cursor) {
    let plain = ChromaPart {
        format: 1,
        separate: false,
        depth_luma: 0,
        depth_chroma: 0,
        scaling: None,
    };
    if !high_profile(profile) || c.err is Some {
        ((plain, None), c)
    } else {
        let (format, c1) = c.ue();
        let (separate, c2) = if format == 3 {
            c1.bit()
        } else {
            (false, c1)
        };
        let (depth_luma, c3) = c2.ue();
        let (depth_chroma, c4) = c3.ue();
        let (_bypass, c5) = c4.bit();
        let (matrices, c6) = c5.bit();
        let part = ChromaPart { format, separate, depth_luma, depth_chroma, scaling: None };
        if matrices {
            let (w, c7) = scaling_matrix(
                c6,
                if format != 3 {
                    8
                } else {
                    12
                },
            );
            ((part, Some(w)), c7)
        } else {
            ((part, None), c6)
        }
    }
}

/// Frame numbers and picture order count.
#[derive(Clone, Copy)]
pub struct OrderPart {
    pub log2_frame_num: u32,
    pub poc_type: u32,
    pub log2_poc_lsb: u32,
    pub delta_zero: bool,
}

/// Past `n` signed Exp-Golomb codes.
pub open spec fn skip_signed(c: Cursor, n: nat) -> Cursor
    decreases n,
{
    if n == 0 || c.err is Some {
        c
    } else {
        let d = c.se().1;
        if d.err is Some {
            d
        } else {
            skip_signed(d, (n - 1) as nat)
        }
    }
}

/// Frame numbers and picture order count; the offsets of type 1 are skipped.
#[verifier::opaque]
pub open spec fn order_part(c: Cursor) -> (OrderPart, Cursor) {
    let (log2_frame_num, c1) = c.ue();
    let (poc_type, c2) = c1.ue();
    if poc_type == 0 {
        let (log2_poc_lsb, c3) = c2.ue();
        (OrderPart { log2_frame_num, poc_type, log2_poc_lsb, delta_zero: false }, c3)
    } else if poc_type == 1 {
        let (delta_zero, c3) = c2.bit();
        let (_non_ref, c4) = c3.se();
        let (_bottom, c5) = c4.se();
        let (cycle, c6) = c5.ue();
        (
            OrderPart { log2_frame_num, poc_type, log2_poc_lsb: 0, delta_zero },
            skip_signed(c6, cycle as nat),
        )
    } else {
        (OrderPart { log2_frame_num, poc_type, log2_poc_lsb: 0, delta_zero: false }, c2)
    }
}

/// References and picture size.
#[derive(Clone, Copy)]
pub struct SizePart {
    pub max_refs: u32,
    pub gaps: bool,
    pub width_mbs: u32,
    pub height_units: u32,
    pub frames_only: bool,
    pub adaptive: bool,
    pub direct_8x8: bool,
}

/// References and picture size.
#[verifier::opaque]
pub open spec fn size_part(c: Cursor) -> (SizePart, Cursor) {
    let (max_refs, c1) = c.ue();
    let (gaps, c2) = c1.bit();
    let (w, c3) = c2.ue();
    let (h, c4) = c3.ue();
    let (frames_only, c5) = c4.bit();
    let (adaptive, c6) = if frames_only {
        (false, c5)
    } else {
        c5.bit()
    };
    let (direct_8x8, c7) = c6.bit();
    (
        SizePart {
            max_refs,
            gaps,
            width_mbs: w.wrapping_add(1),
            height_units: h.wrapping_add(1),
            frames_only,
            adaptive,
            direct_8x8,
        },
        c7,
    )
}

/// The crop offsets, all 0 where they are absent.
#[verifier::opaque]
pub open spec fn crop_part(c: Cursor) -> ((u32, u32, u32, u32), Cursor) {
    let (cropped, c1) = c.bit();
    if !cropped {
        ((0, 0, 0, 0), c1)
    } else {
        let (l, c2) = c1.ue();
        let (r, c3) = c2.ue();
        let (t, c4) = c3.ue();
        let (b, c5) = c4.ue();
        ((l, r, t, b), c5)
    }
}

/// Past the picture description of the VUI parameters: aspect ratio, overscan,
/// signal type and chroma location.
#[verifier::opaque]
pub open spec fn vui_head(c: Cursor) -> Cursor {
    let (aspect, c1) = c.bit();
    let c2 = if aspect {
        let (idc, d) = c1.u(8);
        if idc == 255 {
            d.u(16).1.u(16).1
        } else {
            d
        }
    } else {
        c1
    };
    let (overscan, c3) = c2.bit();
    let c4 = if overscan {
        c3.bit().1
    } else {
        c3
    };
    let (signal, c5) = c4.bit();
    let c6 = if signal {
        let (colour, d) = c5.u(3).1.bit().1.bit();
        if colour {
            d.u(8).1.u(8).1.u(8).1
        } else {
            d
        }
    } else {
        c5
    };
    let (location, c7) = c6.bit();
    if location {
        c7.ue().1.ue().1
    } else {
        c7
    }
}

/// The timing of the VUI parameters.
#[verifier::opaque]
pub open spec fn vui_timing(c: Cursor) -> (Option<VuiTiming>, Cursor) {
    let (present, c1) = c.bit();
    if !present {
        (None, c1)
    } else {
        let (num_units_in_tick, c2) = c1.u(32);
        let (time_scale, c3) = c2.u(32);
        let (fixed_frame_rate_flag, c4) = c3.bit();
        (Some(VuiTiming { num_units_in_tick, time_scale, fixed_frame_rate_flag }), c4)
    }
}

/// Past HRD parameters.
#[verifier::opaque]
pub open spec fn hrd(c: Cursor) -> Cursor {
    let (cpb, c1) = c.ue();
    let c2 = c1.u(4).1.u(4).1.skip_rows((cpb + 1) as nat, 2, 1);
    c2.u(5).1.u(5).1.u(5).1.u(5).1
}

/// Past the HRD and restriction parameters of the VUI.
#[verifier::opaque]
pub open spec fn vui_tail(c: Cursor) -> Cursor {
    let (nal, c1) = c.bit();
    let c2 = if nal {
        hrd(c1)
    } else {
        c1
    };
    let (vcl, c3) = c2.bit();
    let c4 = if vcl {
        hrd(c3)
    } else {
        c3
    };
    let c5 = if nal || vcl {
        c4.bit().1
    } else {
        c4
    };
    let c6 = c5.bit().1;
    let (restricted, c7) = c6.bit();
    if restricted {
        c7.bit().1.skip_codes(6)
    } else {
        c7
    }
}

/// The VUI parameters where they are present: their timing.
#[verifier::opaque]
pub open spec fn vui_part(c: Cursor) -> (Option<VuiTiming>, Cursor) {
    let (present, c1) = c.bit();
    if !present {
        (None, c1)
    } else {
        let (timing, c2) = vui_timing(vui_head(c1));
        (timing, vui_tail(c2))
    }
}

/// Reading on after an error changes nothing.
pub proof fn lemma_parts_stick(c: Cursor, profile: int)
    requires
        c.err is Some,
    ensures
        chroma_part(c, profile).1 == c,
        order_part(c).1 == c,
        size_part(c).1 == c,
        crop_part(c).1 == c,
        vui_head(c) == c,
        vui_timing(c).1 == c,
        hrd(c) == c,
        vui_tail(c) == c,
        vui_part(c).1 == c,
{
    reveal(chroma_part);
    reveal(order_part);
    reveal(size_part);
    reveal(crop_part);
    reveal(vui_head);
    reveal(vui_timing);
    reveal(hrd);
    reveal(vui_tail);
    reveal(vui_part);
}

/// The first bytes of the set: profile, level and identifier.
#[verifier::opaque]
pub open spec fn head_part(c: Cursor) -> ((u8, u8, u32), Cursor) {
    let (profile, c1) = c.u(8);
    let (_constraints, c2) = c1.u(8);
    let (level, c3) = c2.u(8);
    let (id, c4) = c3.ue();
    ((profile as u8, level as u8, id), c4)
}

/// The crop unit of a set, in luma columns and rows.
pub open spec fn crop_unit(s: Sps) -> (u32, u32) {
    let rows = if s.frame_mbs_only_flag {
        1u32
    } else {
        2u32
    };
    if s.array_type() == 0 {
        (1, rows)
    } else if s.chroma_format_idc == 1 {
        (2, (2 * rows) as u32)
    } else if s.chroma_format_idc == 2 {
        (2, rows)
    } else {
        (1, rows)
    }
}

/// `a - b`, or 0 where that is negative.
pub open spec fn cut(a: u32, b: u32) -> u32 {
    if a < b {
        0
    } else {
        (a - b) as u32
    }
}

/// The cropped luma size of a set, modulo 2^32.
pub open spec fn cropped_size(s: Sps) -> (u32, u32) {
    let rows = if s.frame_mbs_only_flag {
        1u32
    } else {
        2u32
    };
    let (ux, uy) = crop_unit(s);
    let (l, r, t, b) = s.frame_crop;
    (
        cut(s.pic_width_in_mbs.wrapping_mul(16), ux.wrapping_mul(l.wrapping_add(r))),
        cut(
            rows.wrapping_mul(s.pic_height_in_map_units.wrapping_mul(16)),
            uy.wrapping_mul(t.wrapping_add(b)),
        ),
    )
}

/// A set with its cropped size filled in.
pub open spec fn sized(s: Sps) -> Sps {
    let (w, h) = cropped_size(s);
    Sps { width: w, height: h, ..s }
}

/// A sequence parameter set from the current position.
#[verifier::opaque]
pub open spec fn sps_data(c: Cursor) -> (SpsData, Cursor) {
    let (head, c1) = head_part(c);
    let ((chroma, scaling), c2) = chroma_part(c1, head.0 as int);
    let (order, c3) = order_part(c2);
    let (size, c4) = size_part(c3);
    let (crop, c5) = crop_part(c4);
    let (timing, c6) = vui_part(c5);
    (
        SpsData {
            fields: sized(
                Sps {
                    profile_idc: head.0,
                    level_idc: head.1,
                    seq_parameter_set_id: head.2,
                    chroma_format_idc: chroma.format,
                    separate_colour_plane_flag: chroma.separate,
                    bit_depth_luma_minus8: chroma.depth_luma,
                    bit_depth_chroma_minus8: chroma.depth_chroma,
                    log2_max_frame_num_minus4: order.log2_frame_num,
                    pic_order_cnt_type: order.poc_type,
                    log2_max_pic_order_cnt_lsb_minus4: order.log2_poc_lsb,
                    delta_pic_order_always_zero_flag: order.delta_zero,
                    max_num_ref_frames: size.max_refs,
                    gaps_in_frame_num_value_allowed_flag: size.gaps,
                    pic_width_in_mbs: size.width_mbs,
                    pic_height_in_map_units: size.height_units,
                    frame_mbs_only_flag: size.frames_only,
                    mb_adaptive_frame_field_flag: size.adaptive,
                    direct_8x8_inference_flag: size.direct_8x8,
                    frame_crop: crop,
                    width: 0,
                    height: 0,
                    vui_timing: timing,
                    scaling: None,
                },
            ),
            scaling,
        },
        c6,
    )
}

// ---- parsing the parts ----

fn parse_head(reader: &mut BitReader<'_>) -> (r: Result<(u8, u8, u32), ReadError>)
    ensures
        reads(r, final(reader)@, head_part(old(reader)@)),
{
    proof {
        reveal(head_part);
    }
    let profile = reader.read_u(8)? as u8;
    let _constraints: u32 = reader.read_u(8)?;
    let level = reader.read_u(8)? as u8;
    let id = reader.read_ue()?;
    Ok((profile, level, id))
}

fn parse_chroma(reader: &mut BitReader<'_>, profile: u8) -> (r: Result<ChromaPart, ReadError>)
    ensures
        reads_view(r, final(reader)@, chroma_part(old(reader)@, profile as int)),
{
    broadcast use crate::mvc::scaling::lemma_scaling_matrix_sticks;

    proof {
        reveal(chroma_part);
    }
    let _aligned: bool = reader.byte_aligned();
    let mut part = ChromaPart {
        format: 1,
        separate: false,
        depth_luma: 0,
        depth_chroma: 0,
        scaling: None,
    };
    if !is_high_profile(profile) {
        return Ok(part);
    }
    part.format = reader.read_ue()?;
    if part.format == 3 {
        part.separate = reader.read_bit()?;
    }
    part.depth_luma = reader.read_ue()?;
    part.depth_chroma = reader.read_ue()?;
    let _bypass: bool = reader.read_bit()?;
    let matrices: bool = reader.read_bit()?;
    if matrices {
        let count: usize = if part.format != 3 {
            8
        } else {
            12
        };
        part.scaling = Some(parse_scaling_matrix(reader, count)?);
    }
    Ok(part)
}

fn parse_skip_signed(reader: &mut BitReader<'_>, n: u32) -> (r: Result<(), ReadError>)
    ensures
        reads(r, final(reader)@, ((), skip_signed(old(reader)@, n as nat))),
{
    let ghost start = reader@;
    let _aligned: bool = reader.byte_aligned();
    let mut i: u32 = 0;
    while i < n
        invariant
            i <= n,
            start == old(reader)@,
            reader@.err is None,
            skip_signed(reader@, (n - i) as nat) == skip_signed(start, n as nat),
        decreases n - i,
    {
        let _offset: i32 = reader.read_se()?;
        i = i + 1;
    }
    Ok(())
}

fn parse_order(reader: &mut BitReader<'_>) -> (r: Result<OrderPart, ReadError>)
    ensures
        reads(r, final(reader)@, order_part(old(reader)@)),
{
    proof {
        reveal(order_part);
    }
    let log2_frame_num = reader.read_ue()?;
    let poc_type = reader.read_ue()?;
    if poc_type == 0 {
        let log2_poc_lsb = reader.read_ue()?;
        Ok(OrderPart { log2_frame_num, poc_type, log2_poc_lsb, delta_zero: false })
    } else if poc_type == 1 {
        let delta_zero = reader.read_bit()?;
        let _non_ref: i32 = reader.read_se()?;
        let _bottom: i32 = reader.read_se()?;
        let cycle: u32 = reader.read_ue()?;
        parse_skip_signed(reader, cycle)?;
        Ok(OrderPart { log2_frame_num, poc_type, log2_poc_lsb: 0, delta_zero })
    } else {
        Ok(OrderPart { log2_frame_num, poc_type, log2_poc_lsb: 0, delta_zero: false })
    }
}

fn parse_size(reader: &mut BitReader<'_>) -> (r: Result<SizePart, ReadError>)
    ensures
        reads(r, final(reader)@, size_part(old(reader)@)),
{
    proof {
        reveal(size_part);
    }
    let max_refs = reader.read_ue()?;
    let gaps = reader.read_bit()?;
    let w: u32 = reader.read_ue()?;
    let h: u32 = reader.read_ue()?;
    let frames_only = reader.read_bit()?;
    let mut adaptive = false;
    if !frames_only {
        adaptive = reader.read_bit()?;
    }
    let direct_8x8 = reader.read_bit()?;
    Ok(
        SizePart {
            max_refs,
            gaps,
            width_mbs: w.wrapping_add(1),
            height_units: h.wrapping_add(1),
            frames_only,
            adaptive,
            direct_8x8,
        },
    )
}

fn parse_crop(reader: &mut BitReader<'_>) -> (r: Result<(u32, u32, u32, u32), ReadError>)
    ensures
        reads(r, final(reader)@, crop_part(old(reader)@)),
{
    proof {
        reveal(crop_part);
    }
    let cropped: bool = reader.read_bit()?;
    if !cropped {
        return Ok((0, 0, 0, 0));
    }
    let l = reader.read_ue()?;
    let r = reader.read_ue()?;
    let t = reader.read_ue()?;
    let b = reader.read_ue()?;
    Ok((l, r, t, b))
}

fn parse_vui_head(reader: &mut BitReader<'_>) -> (r: Result<(), ReadError>)
    ensures
        reads(r, final(reader)@, ((), vui_head(old(reader)@))),
{
    proof {
        reveal(vui_head);
    }
    if reader.read_bit()? {
        let idc: u32 = reader.read_u(8)?;
        if idc == 255 {
            let _width: u32 = reader.read_u(16)?;
            let _height: u32 = reader.read_u(16)?;
        }
    }
    if reader.read_bit()? {
        let _appropriate: bool = reader.read_bit()?;
    }
    if reader.read_bit()? {
        let _format: u32 = reader.read_u(3)?;
        let _full_range: bool = reader.read_bit()?;
        if reader.read_bit()? {
            let _primaries: u32 = reader.read_u(8)?;
            let _transfer: u32 = reader.read_u(8)?;
            let _matrix: u32 = reader.read_u(8)?;
        }
    }
    if reader.read_bit()? {
        let _top: u32 = reader.read_ue()?;
        let _bottom: u32 = reader.read_ue()?;
    }
    Ok(())
}

fn parse_vui_timing(reader: &mut BitReader<'_>) -> (r: Result<Option<VuiTiming>, ReadError>)
    ensures
        reads(r, final(reader)@, vui_timing(old(reader)@)),
{
    proof {
        reveal(vui_timing);
    }
    if !reader.read_bit()? {
        return Ok(None);
    }
    let num_units_in_tick = reader.read_u(32)?;
    let time_scale = reader.read_u(32)?;
    let fixed_frame_rate_flag = reader.read_bit()?;
    Ok(Some(VuiTiming { num_units_in_tick, time_scale, fixed_frame_rate_flag }))
}

fn parse_hrd(reader: &mut BitReader<'_>) -> (r: Result<(), ReadError>)
    ensures
        reads(r, final(reader)@, ((), hrd(old(reader)@))),
{
    proof {
        reveal(hrd);
    }
    let cpb: u32 = reader.read_ue()?;
    let _rate_scale: u32 = reader.read_u(4)?;
    let _size_scale: u32 = reader.read_u(4)?;
    reader.skip_rows(cpb as u64 + 1, 2, 1)?;
    let _initial: u32 = reader.read_u(5)?;
    let _removal: u32 = reader.read_u(5)?;
    let _output: u32 = reader.read_u(5)?;
    let _offset: u32 = reader.read_u(5)?;
    Ok(())
}

fn parse_vui_tail(reader: &mut BitReader<'_>) -> (r: Result<(), ReadError>)
    ensures
        reads(r, final(reader)@, ((), vui_tail(old(reader)@))),
{
    broadcast use lemma_hrd_sticks;

    proof {
        reveal(vui_tail);
    }
    let nal: bool = reader.read_bit()?;
    if nal {
        parse_hrd(reader)?;
    }
    let vcl: bool = reader.read_bit()?;
    if vcl {
        parse_hrd(reader)?;
    }
    if nal || vcl {
        let _low_delay: bool = reader.read_bit()?;
    }
    let _pic_struct: bool = reader.read_bit()?;
    if reader.read_bit()? {
        let _over_boundaries: bool = reader.read_bit()?;
        reader.skip_codes(6)?;
    }
    Ok(())
}

/// Reading on after an error changes nothing.
pub broadcast proof fn lemma_hrd_sticks(c: Cursor)
    requires
        c.err is Some,
    ensures
        #[trigger] hrd(c) == c,
{
    lemma_parts_stick(c, 0);
}

/// Reading on after an error changes nothing.
pub broadcast proof fn lemma_vui_timing_sticks(c: Cursor)
    requires
        c.err is Some,
    ensures
        (#[trigger] vui_timing(c)).1 == c,
{
    lemma_parts_stick(c, 0);
}

/// Reading on after an error changes nothing.
pub broadcast proof fn lemma_vui_tail_sticks(c: Cursor)
    requires
        c.err is Some,
    ensures
        #[trigger] vui_tail(c) == c,
{
    lemma_parts_stick(c, 0);
}

/// Reading on after an error changes nothing.
pub broadcast proof fn lemma_chroma_sticks(c: Cursor, profile: int)
    requires
        c.err is Some,
    ensures
        (#[trigger] chroma_part(c, profile)).1 == c,
{
    lemma_parts_stick(c, profile);
}

/// Reading on after an error changes nothing.
pub broadcast proof fn lemma_order_sticks(c: Cursor)
    requires
        c.err is Some,
    ensures
        (#[trigger] order_part(c)).1 == c,
{
    lemma_parts_stick(c, 0);
}

/// Reading on after an error changes nothing.
pub broadcast proof fn lemma_size_sticks(c: Cursor)
    requires
        c.err is Some,
    ensures
        (#[trigger] size_part(c)).1 == c,
{
    lemma_parts_stick(c, 0);
}

/// Reading on after an error changes nothing.
pub broadcast proof fn lemma_crop_sticks(c: Cursor)
    requires
        c.err is Some,
    ensures
        (#[trigger] crop_part(c)).1 == c,
{
    lemma_parts_stick(c, 0);
}

/// Reading on after an error changes nothing.
pub broadcast proof fn lemma_vui_sticks(c: Cursor)
    requires
        c.err is Some,
    ensures
        (#[trigger] vui_part(c)).1 == c,
{
    lemma_parts_stick(c, 0);
}

/// Parse `vui_parameters()` where they are present: the timing.
fn parse_vui(reader: &mut BitReader<'_>) -> (r: Result<Option<VuiTiming>, ReadError>)
    ensures
        reads(r, final(reader)@, vui_part(old(reader)@)),
{
    broadcast use lemma_vui_timing_sticks, lemma_vui_tail_sticks;

    proof {
        reveal(vui_part);
    }
    if !reader.read_bit()? {
        return Ok(None);
    }
    parse_vui_head(reader)?;
    let timing = parse_vui_timing(reader)?;
    parse_vui_tail(reader)?;
    Ok(timing)
}

fn derive_dimensions(s: &Sps) -> (r: (u32, u32))
    ensures
        r == cropped_size(*s),
{
    let rows: u32 = if s.frame_mbs_only_flag {
        1
    } else {
        2
    };
    let (ux, uy): (u32, u32) = if s.chroma_array_type() == 0 {
        (1, rows)
    } else if s.chroma_format_idc == 1 {
        (2, 2 * rows)
    } else if s.chroma_format_idc == 2 {
        (2, rows)
    } else {
        (1, rows)
    };
    let (l, r, t, b) = s.frame_crop;
    let full_w: u32 = s.pic_width_in_mbs.wrapping_mul(16);
    let full_h: u32 = rows.wrapping_mul(s.pic_height_in_map_units.wrapping_mul(16));
    let cut_w: u32 = ux.wrapping_mul(l.wrapping_add(r));
    let cut_h: u32 = uy.wrapping_mul(t.wrapping_add(b));
    (
        if full_w < cut_w {
            0
        } else {
            full_w - cut_w
        },
        if full_h < cut_h {
            0
        } else {
            full_h - cut_h
        },
    )
}

/// Parse a sequence parameter set from the current position of an RBSP, at
/// `profile_idc`.
pub fn parse_seq_parameter_set_data(reader: &mut BitReader<'_>) -> (r: Result<Sps, ReadError>)
    ensures
        reads_view(r, final(reader)@, sps_data(old(reader)@)),
{
    broadcast use
        lemma_chroma_sticks,
        lemma_order_sticks,
        lemma_size_sticks,
        lemma_crop_sticks,
        lemma_vui_sticks,
    ;

    proof {
        reveal(sps_data);
    }
    let head = parse_head(reader)?;
    let chroma = parse_chroma(reader, head.0)?;
    let order = parse_order(reader)?;
    let size = parse_size(reader)?;
    let crop = parse_crop(reader)?;
    let timing = parse_vui(reader)?;
    let mut sps = Sps {
        profile_idc: head.0,
        level_idc: head.1,
        seq_parameter_set_id: head.2,
        chroma_format_idc: chroma.format,
        separate_colour_plane_flag: chroma.separate,
        bit_depth_luma_minus8: chroma.depth_luma,
        bit_depth_chroma_minus8: chroma.depth_chroma,
        log2_max_frame_num_minus4: order.log2_frame_num,
        pic_order_cnt_type: order.poc_type,
        log2_max_pic_order_cnt_lsb_minus4: order.log2_poc_lsb,
        delta_pic_order_always_zero_flag: order.delta_zero,
        max_num_ref_frames: size.max_refs,
        gaps_in_frame_num_value_allowed_flag: size.gaps,
        pic_width_in_mbs: size.width_mbs,
        pic_height_in_map_units: size.height_units,
        frame_mbs_only_flag: size.frames_only,
        mb_adaptive_frame_field_flag: size.adaptive,
        direct_8x8_inference_flag: size.direct_8x8,
        frame_crop: crop,
        width: 0,
        height: 0,
        vui_timing: timing,
        scaling: chroma.scaling,
    };
    let (w, h) = derive_dimensions(&sps);
    sps.width = w;
    sps.height = h;
    Ok(sps)
}

/// Parse the RBSP of a base set (type 7), the bytes after the NAL header.
pub fn parse_sps_rbsp(rbsp: &[u8]) -> (r: Result<Sps, ReadError>)
    ensures
        match r {
            Ok(s) => s@ == sps_data(Cursor { data: rbsp@, pos: 0, err: None }).0 && sps_data(
                Cursor { data: rbsp@, pos: 0, err: None },
            ).1.err is None,
            Err(e) => sps_data(Cursor { data: rbsp@, pos: 0, err: None }).1.err == Some(e),
        },
{
    let mut reader = BitReader::new(rbsp);
    parse_seq_parameter_set_data(&mut reader)
}

/// Parse a base set from its NAL unit: header, then escaped payload.
pub fn parse_sps_nal(nal: &[u8]) -> (r: Result<Sps, ReadError>)
    ensures
        nal@.len() == 0 ==> r == Err::<Sps, ReadError>(ReadError::Truncated),
        nal@.len() > 0 ==> ({
            let c = Cursor { data: unescaped(nal@.skip(1), 0), pos: 0, err: None };
            match r {
                Ok(s) => s@ == sps_data(c).0 && sps_data(c).1.err is None,
                Err(e) => sps_data(c).1.err == Some(e),
            }
        }),
{
    if nal.len() == 0 {
        return Err(ReadError::Truncated);
    }
    let n: usize = nal.len();
    let body = vstd::slice::slice_subrange(nal, 1, n);
    assert(body@ =~= nal@.skip(1));
    let rbsp = extract_rbsp(body);
    parse_sps_rbsp(rbsp.as_slice())
}

// ---- the MVC extension ----

/// A subset set: the base set and its MVC extension.
#[derive(Debug, Clone, PartialEq, Eq)]
pub struct SubsetSps {
    pub sps: Sps,
    pub mvc: SpsMvcExtension,
}

/// The MVC extension of a subset set.
#[derive(Debug, Clone, PartialEq, Eq)]
pub struct SpsMvcExtension {
    pub num_views_minus1: u32,
    pub view_id: Vec<u32>,
    pub anchor_refs: Vec<AnchorRefs>,
    pub non_anchor_refs: Vec<NonAnchorRefs>,
    pub level_values: Vec<LevelValue>,
}

/// Inter-view references of a view in anchor pictures.
#[derive(Debug, Clone, PartialEq, Eq)]
pub struct AnchorRefs {
    pub l0: Vec<u32>,
    pub l1: Vec<u32>,
}

impl Default for AnchorRefs {
    fn default() -> (r: Self)
        ensures
            r@ == no_refs(),
    {
        AnchorRefs { l0: Vec::new(), l1: Vec::new() }
    }
}

/// Inter-view references of a view in other pictures.
#[derive(Debug, Clone, PartialEq, Eq)]
pub struct NonAnchorRefs {
    pub l0: Vec<u32>,
    pub l1: Vec<u32>,
}

impl Default for NonAnchorRefs {
    fn default() -> (r: Self)
        ensures
            r@ == no_refs(),
    {
        NonAnchorRefs { l0: Vec::new(), l1: Vec::new() }
    }
}

/// A level and the operating points that it covers.
#[derive(Debug, Clone, PartialEq, Eq)]
pub struct LevelValue {
    pub level_idc: u8,
    pub operating_points: Vec<OperatingPoint>,
}

/// An operating point.
#[derive(Debug, Clone, PartialEq, Eq)]
pub struct OperatingPoint {
    pub temporal_id: u8,
    pub target_view_ids: Vec<u32>,
    pub num_views_minus1: u32,
}

/// The inter-view references of a view, for both lists.
#[verifier::ext_equal]
pub struct ViewRefs {
    pub l0: Seq<u32>,
    pub l1: Seq<u32>,
}

/// A view without inter-view references.
pub open spec fn no_refs() -> ViewRefs {
    ViewRefs { l0: Seq::empty(), l1: Seq::empty() }
}

/// An operating point.
#[verifier::ext_equal]
pub struct Point {
    pub temporal_id: u8,
    pub views: Seq<u32>,
    pub num_views_minus1: u32,
}

/// A level and its operating points.
#[verifier::ext_equal]
pub struct Level {
    pub level_idc: u8,
    pub points: Seq<Point>,
}

/// The MVC extension.
#[verifier::ext_equal]
pub struct Extension {
    pub num_views_minus1: u32,
    pub view_id: Seq<u32>,
    pub anchor: Seq<ViewRefs>,
    pub non_anchor: Seq<ViewRefs>,
    pub levels: Seq<Level>,
}

impl View for AnchorRefs {
    type V = ViewRefs;

    open spec fn view(&self) -> ViewRefs {
        ViewRefs { l0: self.l0@, l1: self.l1@ }
    }
}

impl View for NonAnchorRefs {
    type V = ViewRefs;

    open spec fn view(&self) -> ViewRefs {
        ViewRefs { l0: self.l0@, l1: self.l1@ }
    }
}

impl View for OperatingPoint {
    type V = Point;

    open spec fn view(&self) -> Point {
        Point {
            temporal_id: self.temporal_id,
            views: self.target_view_ids@,
            num_views_minus1: self.num_views_minus1,
        }
    }
}

/// The views of the elements of a sequence.
pub open spec fn views<T: View>(s: Seq<T>) -> Seq<T::V> {
    Seq::new(s.len(), |i: int| s[i]@)
}

/// Appending an element appends its view.
pub proof fn lemma_views_push<T: View>(s: Seq<T>, x: T)
    ensures
        views(s.push(x)) == views(s).push(x@),
{
    assert(views(s.push(x)) =~= views(s).push(x@));
}

impl View for LevelValue {
    type V = Level;

    open spec fn view(&self) -> Level {
        Level { level_idc: self.level_idc, points: views(self.operating_points@) }
    }
}

impl View for SpsMvcExtension {
    type V = Extension;

    open spec fn view(&self) -> Extension {
        Extension {
            num_views_minus1: self.num_views_minus1,
            view_id: self.view_id@,
            anchor: views(self.anchor_refs@),
            non_anchor: views(self.non_anchor_refs@),
            levels: views(self.level_values@),
        }
    }
}

impl View for SubsetSps {
    type V = (SpsData, Extension);

    open spec fn view(&self) -> (SpsData, Extension) {
        (self.sps@, self.mvc@)
    }
}

/// Most views of an extension.
pub const MAX_NUM_VIEWS: u32 = 1024;

/// A counted list of unsigned Exp-Golomb codes.
pub open spec fn counted(c: Cursor) -> (Seq<u32>, Cursor) {
    let (n, c1) = c.ue();
    c1.ue_list(Seq::empty(), n as nat)
}

/// The references of one view.
pub open spec fn view_refs(c: Cursor) -> (ViewRefs, Cursor) {
    let (l0, c1) = counted(c);
    let (l1, c2) = counted(c1);
    (ViewRefs { l0, l1 }, c2)
}

/// The references of `n` more views, after those in `seen`.
pub open spec fn refs_of_views(c: Cursor, seen: Seq<ViewRefs>, n: nat) -> (Seq<ViewRefs>, Cursor)
    decreases n,
{
    if n == 0 || c.err is Some {
        (seen, c)
    } else {
        let (v, c1) = view_refs(c);
        if c1.err is Some {
            (seen, c1)
        } else {
            refs_of_views(c1, seen.push(v), (n - 1) as nat)
        }
    }
}

/// An operating point.
pub open spec fn point(c: Cursor) -> (Point, Cursor) {
    let (temporal_id, c1) = c.u(3);
    let (n, c2) = c1.ue();
    let (views, c3) = c2.ue_list(Seq::empty(), (n + 1) as nat);
    let (num_views_minus1, c4) = c3.ue();
    (Point { temporal_id: temporal_id as u8, views, num_views_minus1 }, c4)
}

/// `n` more operating points, after those in `seen`.
pub open spec fn points(c: Cursor, seen: Seq<Point>, n: nat) -> (Seq<Point>, Cursor)
    decreases n,
{
    if n == 0 || c.err is Some {
        (seen, c)
    } else {
        let (p, c1) = point(c);
        if c1.err is Some {
            (seen, c1)
        } else {
            points(c1, seen.push(p), (n - 1) as nat)
        }
    }
}

/// A level with its operating points.
pub open spec fn level(c: Cursor) -> (Level, Cursor) {
    let (level_idc, c1) = c.u(8);
    let (n, c2) = c1.ue();
    let (ps, c3) = points(c2, Seq::empty(), (n + 1) as nat);
    (Level { level_idc: level_idc as u8, points: ps }, c3)
}

/// `n` more levels, after those in `seen`.
pub open spec fn levels(c: Cursor, seen: Seq<Level>, n: nat) -> (Seq<Level>, Cursor)
    decreases n,
{
    if n == 0 || c.err is Some {
        (seen, c)
    } else {
        let (v, c1) = level(c);
        if c1.err is Some {
            (seen, c1)
        } else {
            levels(c1, seen.push(v), (n - 1) as nat)
        }
    }
}

/// The MVC extension. The first view has no references; more views than the
/// limit are an error.
#[verifier::opaque]
pub open spec fn mvc_extension(c: Cursor) -> (Extension, Cursor) {
    let (n, c1) = c.ue();
    if c1.err is None && n >= MAX_NUM_VIEWS {
        (
            Extension {
                num_views_minus1: n,
                view_id: Seq::empty(),
                anchor: Seq::empty(),
                non_anchor: Seq::empty(),
                levels: Seq::empty(),
            },
            c1.fail(0, ReadError::ExpGolombOverflow),
        )
    } else {
        let (view_id, c2) = c1.ue_list(Seq::empty(), (n + 1) as nat);
        let (anchor, c3) = refs_of_views(c2, seq![no_refs()], n as nat);
        let (non_anchor, c4) = refs_of_views(c3, seq![no_refs()], n as nat);
        let (count, c5) = c4.ue();
        let (ls, c6) = levels(c5, Seq::empty(), (count + 1) as nat);
        (Extension { num_views_minus1: n, view_id, anchor, non_anchor, levels: ls }, c6)
    }
}

fn parse_counted(reader: &mut BitReader<'_>) -> (r: Result<Vec<u32>, ReadError>)
    ensures
        reads_view(r, final(reader)@, counted(old(reader)@)),
{
    let n: u32 = reader.read_ue()?;
    reader.read_ue_list(n as usize)
}

fn parse_anchor_refs(reader: &mut BitReader<'_>, n: u32) -> (r: Result<Vec<AnchorRefs>, ReadError>)
    ensures
        match r {
            Ok(v) => refs_of_views(old(reader)@, seq![no_refs()], n as nat) == (
                views(v@),
                final(reader)@,
            ),
            Err(e) => refs_of_views(old(reader)@, seq![no_refs()], n as nat).1 == (Cursor {
                err: Some(e),
                ..final(reader)@
            }),
        },
        final(reader)@.err is None,
{
    let ghost start = reader@;
    let _aligned: bool = reader.byte_aligned();
    let mut out: Vec<AnchorRefs> = Vec::new();
    out.push(AnchorRefs::default());
    assert(views(out@) =~= seq![no_refs()]);
    let mut i: u32 = 0;
    while i < n
        invariant
            i <= n,
            start == old(reader)@,
            reader@.err is None,
            refs_of_views(reader@, views(out@), (n - i) as nat) == refs_of_views(
                start,
                seq![no_refs()],
                n as nat,
            ),
        decreases n - i,
    {
        let l0 = parse_counted(reader)?;
        let l1 = parse_counted(reader)?;
        let v = AnchorRefs { l0, l1 };
        proof {
            lemma_views_push(out@, v);
        }
        out.push(v);
        i = i + 1;
    }
    Ok(out)
}

fn parse_non_anchor_refs(reader: &mut BitReader<'_>, n: u32) -> (r: Result<
    Vec<NonAnchorRefs>,
    ReadError,
>)
    ensures
        match r {
            Ok(v) => refs_of_views(old(reader)@, seq![no_refs()], n as nat) == (
                views(v@),
                final(reader)@,
            ),
            Err(e) => refs_of_views(old(reader)@, seq![no_refs()], n as nat).1 == (Cursor {
                err: Some(e),
                ..final(reader)@
            }),
        },
        final(reader)@.err is None,
{
    let ghost start = reader@;
    let _aligned: bool = reader.byte_aligned();
    let mut out: Vec<NonAnchorRefs> = Vec::new();
    out.push(NonAnchorRefs::default());
    assert(views(out@) =~= seq![no_refs()]);
    let mut i: u32 = 0;
    while i < n
        invariant
            i <= n,
            start == old(reader)@,
            reader@.err is None,
            refs_of_views(reader@, views(out@), (n - i) as nat) == refs_of_views(
                start,
                seq![no_refs()],
                n as nat,
            ),
        decreases n - i,
    {
        let l0 = parse_counted(reader)?;
        let l1 = parse_counted(reader)?;
        let v = NonAnchorRefs { l0, l1 };
        proof {
            lemma_views_push(out@, v);
        }
        out.push(v);
        i = i + 1;
    }
    Ok(out)
}

fn parse_point(reader: &mut BitReader<'_>) -> (r: Result<OperatingPoint, ReadError>)
    ensures
        reads_view(r, final(reader)@, point(old(reader)@)),
{
    let temporal_id = reader.read_u(3)? as u8;
    let n: u32 = reader.read_ue()?;
    let target_view_ids = read_one_more(reader, n)?;
    let num_views_minus1 = reader.read_ue()?;
    Ok(OperatingPoint { temporal_id, target_view_ids, num_views_minus1 })
}

fn read_one_more(reader: &mut BitReader<'_>, n: u32) -> (r: Result<Vec<u32>, ReadError>)
    ensures
        reads_view(r, final(reader)@, old(reader)@.ue_list(Seq::empty(), (n + 1) as nat)),
{
    let ghost start = reader@;
    let _aligned: bool = reader.byte_aligned();
    let mut out: Vec<u32> = Vec::new();
    let mut i: u64 = 0;
    let count: u64 = n as u64 + 1;
    while i < count
        invariant
            i <= count,
            count == n + 1,
            start == old(reader)@,
            reader@.err is None,
            reader@.ue_list(out@, (count - i) as nat) == start.ue_list(Seq::empty(), count as nat),
        decreases count - i,
    {
        let v: u32 = reader.read_ue()?;
        out.push(v);
        i = i + 1;
    }
    Ok(out)
}

fn parse_level(reader: &mut BitReader<'_>) -> (r: Result<LevelValue, ReadError>)
    ensures
        reads_view(r, final(reader)@, level(old(reader)@)),
{
    let level_idc = reader.read_u(8)? as u8;
    let n: u32 = reader.read_ue()?;
    let ghost start = reader@;
    let mut operating_points: Vec<OperatingPoint> = Vec::new();
    assert(views(operating_points@) =~= Seq::<Point>::empty());
    let mut i: u64 = 0;
    let count: u64 = n as u64 + 1;
    let ghost whole = level(old(reader)@);
    while i < count
        invariant
            i <= count,
            count == n + 1,
            reader@.err is None,
            whole == level(old(reader)@),
            whole == ({
                let (ps, c3) = points(reader@, views(operating_points@), (count - i) as nat);
                (Level { level_idc, points: ps }, c3)
            }),
        decreases count - i,
    {
        let p = parse_point(reader)?;
        proof {
            lemma_views_push(operating_points@, p);
        }
        operating_points.push(p);
        i = i + 1;
    }
    Ok(LevelValue { level_idc, operating_points })
}

fn parse_levels(reader: &mut BitReader<'_>, n: u32) -> (r: Result<Vec<LevelValue>, ReadError>)
    ensures
        match r {
            Ok(v) => levels(old(reader)@, Seq::empty(), (n + 1) as nat) == (views(v@), final(reader)@),
            Err(e) => levels(old(reader)@, Seq::empty(), (n + 1) as nat).1 == (Cursor {
                err: Some(e),
                ..final(reader)@
            }),
        },
        final(reader)@.err is None,
{
    let ghost start = reader@;
    let _aligned: bool = reader.byte_aligned();
    let mut out: Vec<LevelValue> = Vec::new();
    assert(views(out@) =~= Seq::<Level>::empty());
    let mut i: u64 = 0;
    let count: u64 = n as u64 + 1;
    while i < count
        invariant
            i <= count,
            count == n + 1,
            start == old(reader)@,
            reader@.err is None,
            levels(reader@, views(out@), (count - i) as nat) == levels(
                start,
                Seq::empty(),
                count as nat,
            ),
        decreases count - i,
    {
        let v = parse_level(reader)?;
        proof {
            lemma_views_push(out@, v);
        }
        out.push(v);
        i = i + 1;
    }
    Ok(out)
}

/// Parse the MVC extension from the current position.
pub fn parse_sps_mvc_extension(reader: &mut BitReader<'_>) -> (r: Result<
    SpsMvcExtension,
    ReadError,
>)
    ensures
        reads_view(r, final(reader)@, mvc_extension(old(reader)@)),
{
    proof {
        reveal(mvc_extension);
    }
    let num_views_minus1 = reader.read_ue()?;
    if num_views_minus1 >= MAX_NUM_VIEWS {
        return Err(ReadError::ExpGolombOverflow);
    }
    let view_id = read_one_more(reader, num_views_minus1)?;
    let anchor_refs = parse_anchor_refs(reader, num_views_minus1)?;
    let non_anchor_refs = parse_non_anchor_refs(reader, num_views_minus1)?;
    let count: u32 = reader.read_ue()?;
    let level_values = parse_levels(reader, count)?;
    Ok(
        SpsMvcExtension { num_views_minus1, view_id, anchor_refs, non_anchor_refs, level_values },
    )
}

/// The extension of a subset set outside the multiview family: one view.
pub open spec fn single_view() -> Extension {
    Extension {
        num_views_minus1: 0,
        view_id: seq![0u32],
        anchor: seq![no_refs()],
        non_anchor: seq![no_refs()],
        levels: Seq::empty(),
    }
}

/// A subset set: the base set, a marker bit and the extension.
pub open spec fn subset_sps(c: Cursor) -> ((SpsData, Extension), Cursor) {
    let (s, c1) = sps_data(c);
    if multiview_profile(s.fields.profile_idc as int) {
        let (_one, c2) = c1.bit();
        let (x, c3) = mvc_extension(c2);
        ((s, x), c3)
    } else {
        ((s, single_view()), c1)
    }
}

/// Reading on after an error changes nothing.
pub broadcast proof fn lemma_extension_sticks(c: Cursor)
    requires
        c.err is Some,
    ensures
        (#[trigger] mvc_extension(c)).1 == c,
{
    reveal(mvc_extension);
}

/// Parse the RBSP of a subset set (type 15), the bytes after the NAL header.
pub fn parse_subset_sps_rbsp(rbsp: &[u8]) -> (r: Result<SubsetSps, ReadError>)
    ensures
        match r {
            Ok(s) => s@ == subset_sps(Cursor { data: rbsp@, pos: 0, err: None }).0 && subset_sps(
                Cursor { data: rbsp@, pos: 0, err: None },
            ).1.err is None,
            Err(e) => subset_sps(Cursor { data: rbsp@, pos: 0, err: None }).1.err == Some(e),
        },
{
    broadcast use lemma_extension_sticks;

    let mut reader = BitReader::new(rbsp);
    let sps = parse_seq_parameter_set_data(&mut reader)?;
    if sps.profile_idc == 118 || sps.profile_idc == 128 || sps.profile_idc == 134 {
        let _one: bool = reader.read_bit()?;
        let mvc = parse_sps_mvc_extension(&mut reader)?;
        return Ok(SubsetSps { sps, mvc });
    }
    let mut view_id: Vec<u32> = Vec::new();
    view_id.push(0);
    let mut anchor_refs: Vec<AnchorRefs> = Vec::new();
    anchor_refs.push(AnchorRefs::default());
    let mut non_anchor_refs: Vec<NonAnchorRefs> = Vec::new();
    non_anchor_refs.push(NonAnchorRefs::default());
    let mvc = SpsMvcExtension {
        num_views_minus1: 0,
        view_id,
        anchor_refs,
        non_anchor_refs,
        level_values: Vec::new(),
    };
    proof {
        assert(mvc@ =~~= single_view());
    }
    Ok(SubsetSps { sps, mvc })
}

} // verus!

//! Slice headers (H.264 section 7.3.3), for base and dependent views: frame
//! numbering, reference lists and their modification, prediction weights,
//! reference marking, quantiser and deblocking parameters.

use crate::mvc::bitstream::{reads, reads_view, BitReader, Cursor, ReadError};
use crate::mvc::pps::Pps;
use crate::mvc::ref_pic_list_modification::{
    kind_of, parse_ref_pic_list_modification, slice_mods, Mods, RefPicListModifications, SliceKind,
};
use crate::mvc::sps::Sps;
use vstd::prelude::*;

verus! {

/// A decoded slice header.
#[derive(Debug, Clone, PartialEq, Eq)]
pub struct SliceHeader {
    pub first_mb_in_slice: u32,
    pub slice_type: u32,
    pub slice_kind: SliceKind,
    pub pic_parameter_set_id: u32,
    pub colour_plane_id: Option<u8>,
    pub frame_num: u32,
    pub field_pic_flag: bool,
    pub bottom_field_flag: bool,
    pub idr_pic_id: Option<u32>,
    pub pic_order_cnt_lsb: Option<u32>,
    pub delta_pic_order_cnt_bottom: i32,
    pub delta_pic_order_cnt: [i32; 2],
    pub redundant_pic_cnt: u32,
    pub direct_spatial_mv_pred_flag: bool,
    pub num_ref_idx_l0_active_minus1: u32,
    pub num_ref_idx_l1_active_minus1: u32,
    pub ref_pic_list_modifications: RefPicListModifications,
    /// Explicit prediction weights, where the slice carries them.
    pub pred_weights: Option<PredWeights>,
    /// Adaptive reference marking; `None` for the sliding window and for IDR.
    pub marking: Option<Vec<Mmco>>,
    pub cabac_init_idc: Option<u32>,
    pub slice_qp_delta: i32,
    pub disable_deblocking_filter_idc: u32,
    pub slice_alpha_c0_offset_div2: i32,
    pub slice_beta_offset_div2: i32,
}

/// Weight and offset of one reference, for each component.
#[derive(Debug, Clone, Copy, PartialEq, Eq)]
pub struct RefWeight {
    pub luma: (i32, i32),
    pub cb: (i32, i32),
    pub cr: (i32, i32),
}

/// A prediction weight table: the logarithms of the denominators, and the
/// weights of the references of each list.
#[derive(Debug, Clone, PartialEq, Eq)]
pub struct PredWeights {
    pub luma_denom: u32,
    pub chroma_denom: u32,
    pub l0: Vec<RefWeight>,
    pub l1: Vec<RefWeight>,
}

/// A memory management control operation of adaptive reference marking.
#[derive(Debug, Clone, Copy, PartialEq, Eq, Structural)]
pub enum Mmco {
    /// Operation 1: forget a short-term picture.
    ForgetShort { diff_pic_nums_minus1: u32 },
    /// Operation 2: forget a long-term picture.
    ForgetLong { long_term_pic_num: u32 },
    /// Operation 3: make a short-term picture a long-term one.
    ShortToLong { diff_pic_nums_minus1: u32, long_term_frame_idx: u32 },
    /// Operation 4: limit the long-term indices.
    SetMaxLong { max_long_term_frame_idx_plus1: u32 },
    /// Operation 5: forget everything.
    ResetAll,
    /// Operation 6: make the current picture a long-term one.
    CurrentToLong { long_term_frame_idx: u32 },
}

/// A prediction weight table.
#[verifier::ext_equal]
pub struct WeightTable {
    pub luma_denom: u32,
    pub chroma_denom: u32,
    pub l0: Seq<RefWeight>,
    pub l1: Seq<RefWeight>,
}

impl View for PredWeights {
    type V = WeightTable;

    open spec fn view(&self) -> WeightTable {
        WeightTable {
            luma_denom: self.luma_denom,
            chroma_denom: self.chroma_denom,
            l0: self.l0@,
            l1: self.l1@,
        }
    }
}

/// A slice header with its lists apart.
pub struct SliceData {
    /// The header, without lists.
    pub fields: SliceHeader,
    pub mods: (Mods, Mods),
    pub weights: Option<WeightTable>,
    pub marking: Option<Seq<Mmco>>,
}

impl View for SliceHeader {
    type V = SliceData;

    open spec fn view(&self) -> SliceData {
        SliceData {
            fields: bare(*self),
            mods: self.ref_pic_list_modifications@,
            weights: match self.pred_weights {
                Some(w) => Some(w@),
                None => None,
            },
            marking: match self.marking {
                Some(m) => Some(m@),
                None => None,
            },
        }
    }
}

/// A header without its lists.
pub open spec fn bare(h: SliceHeader) -> SliceHeader {
    SliceHeader {
        ref_pic_list_modifications: RefPicListModifications { list0: None, list1: None },
        pred_weights: None,
        marking: None,
        ..h
    }
}

/// The frame number and order count of the set have widths that a read can
/// give.
pub open spec fn widths_ok(s: Sps) -> bool {
    &&& s.log2_max_frame_num_minus4 <= 28
    &&& s.pic_order_cnt_type == 0 ==> s.log2_max_pic_order_cnt_lsb_minus4 <= 28
}

// ---- parts of the header ----

/// What the header starts with.
#[derive(Clone, Copy)]
pub struct StartPart {
    pub first_mb: u32,
    pub slice_type: u32,
    pub pps_id: u32,
    pub plane: Option<u8>,
    pub frame_num: u32,
    pub field: bool,
    pub bottom: bool,
    pub idr_id: Option<u32>,
}

/// What the header starts with.
#[verifier::opaque]
pub open spec fn start_part(c: Cursor, idr: bool, sps: Sps) -> (StartPart, Cursor) {
    let (first_mb, c1) = c.ue();
    let (slice_type, c2) = c1.ue();
    let (pps_id, c3) = c2.ue();
    let (plane, c4): (Option<u8>, Cursor) = if sps.separate_colour_plane_flag {
        let (v, d) = c3.u(2);
        (Some(v as u8), d)
    } else {
        (None, c3)
    };
    let (frame_num, c5) = c4.u(sps.log2_max_frame_num_minus4 + 4);
    let (field, c6) = if sps.frame_mbs_only_flag {
        (false, c5)
    } else {
        c5.bit()
    };
    let (bottom, c7) = if field {
        c6.bit()
    } else {
        (false, c6)
    };
    let (idr_id, c8): (Option<u32>, Cursor) = if idr {
        let (v, d) = c7.ue();
        (Some(v), d)
    } else {
        (None, c7)
    };
    (StartPart { first_mb, slice_type, pps_id, plane, frame_num, field, bottom, idr_id }, c8)
}

/// Picture order count.
#[derive(Clone, Copy)]
pub struct OrderPart {
    pub lsb: Option<u32>,
    pub bottom: i32,
    pub delta0: i32,
    pub delta1: i32,
}

/// Picture order count.
#[verifier::opaque]
pub open spec fn order_part(c: Cursor, field: bool, sps: Sps, pps: Pps) -> (OrderPart, Cursor) {
    let both = pps.bottom_field_pic_order_in_frame_present_flag && !field;
    if sps.pic_order_cnt_type == 0 {
        let (lsb, c1) = c.u(sps.log2_max_pic_order_cnt_lsb_minus4 + 4);
        let (bottom, c2) = if both {
            c1.se()
        } else {
            (0i32, c1)
        };
        (OrderPart { lsb: Some(lsb), bottom, delta0: 0, delta1: 0 }, c2)
    } else if sps.pic_order_cnt_type == 1 && !sps.delta_pic_order_always_zero_flag {
        let (delta0, c1) = c.se();
        let (delta1, c2) = if both {
            c1.se()
        } else {
            (0i32, c1)
        };
        (OrderPart { lsb: None, bottom: 0, delta0, delta1 }, c2)
    } else {
        (OrderPart { lsb: None, bottom: 0, delta0: 0, delta1: 0 }, c)
    }
}

/// Redundancy, direct mode and the sizes of the reference lists.
#[derive(Clone, Copy)]
pub struct ListPart {
    pub redundant: u32,
    pub spatial: bool,
    pub refs0: u32,
    pub refs1: u32,
}

/// Redundancy, direct mode and the sizes of the reference lists.
#[verifier::opaque]
pub open spec fn list_part(c: Cursor, kind: SliceKind, pps: Pps) -> (ListPart, Cursor) {
    let (redundant, c1) = if pps.redundant_pic_cnt_present_flag {
        c.ue()
    } else {
        (0u32, c)
    };
    let (spatial, c2) = if kind is B {
        c1.bit()
    } else {
        (false, c1)
    };
    let (given, c3) = if kind.uses_list0() {
        c2.bit()
    } else {
        (false, c2)
    };
    let (refs0, c4) = if given {
        c3.ue()
    } else {
        (pps.num_ref_idx_l0_default_active_minus1, c3)
    };
    let (refs1, c5) = if given && kind is B {
        c4.ue()
    } else {
        (pps.num_ref_idx_l1_default_active_minus1, c4)
    };
    (ListPart { redundant, spatial, refs0, refs1 }, c5)
}

/// The weights of one reference: those coded, and the neutral ones of the
/// denominators otherwise.
pub open spec fn ref_weight(c: Cursor, chroma: bool, ld: u32, cd: u32) -> (RefWeight, Cursor) {
    let (has_luma, c1) = c.bit();
    let (luma, c2) = if has_luma {
        let (w, d) = c1.se();
        let (o, e) = d.se();
        ((w, o), e)
    } else {
        ((1i32.wrapping_shl(ld), 0i32), c1)
    };
    let (has_chroma, c3) = if chroma {
        c2.bit()
    } else {
        (false, c2)
    };
    let (cb, c4) = if has_chroma {
        let (w, d) = c3.se();
        let (o, e) = d.se();
        ((w, o), e)
    } else {
        ((1i32.wrapping_shl(cd), 0i32), c3)
    };
    let (cr, c5) = if has_chroma {
        let (w, d) = c4.se();
        let (o, e) = d.se();
        ((w, o), e)
    } else {
        ((1i32.wrapping_shl(cd), 0i32), c4)
    };
    (RefWeight { luma, cb, cr }, c5)
}

/// The weights of `n` more references, after those in `seen`.
pub open spec fn ref_weights(
    c: Cursor,
    seen: Seq<RefWeight>,
    n: nat,
    chroma: bool,
    ld: u32,
    cd: u32,
) -> (Seq<RefWeight>, Cursor)
    decreases n,
{
    if n == 0 || c.err is Some {
        (seen, c)
    } else {
        let (w, c1) = ref_weight(c, chroma, ld, cd);
        if c1.err is Some {
            (seen, c1)
        } else {
            ref_weights(c1, seen.push(w), (n - 1) as nat, chroma, ld, cd)
        }
    }
}

/// A prediction weight table.
#[verifier::opaque]
pub open spec fn weight_table(c: Cursor, chroma: bool, refs0: u32, refs1: u32, two: bool) -> (
    WeightTable,
    Cursor,
) {
    let (luma_denom, c1) = c.ue();
    let (chroma_denom, c2) = if chroma {
        c1.ue()
    } else {
        (0u32, c1)
    };
    let (l0, c3) = ref_weights(
        c2,
        Seq::empty(),
        (refs0 + 1) as nat,
        chroma,
        luma_denom,
        chroma_denom,
    );
    let (l1, c4) = if two {
        ref_weights(c3, Seq::empty(), (refs1 + 1) as nat, chroma, luma_denom, chroma_denom)
    } else {
        (Seq::empty(), c3)
    };
    (WeightTable { luma_denom, chroma_denom, l0, l1 }, c4)
}

/// One marking operation; `None` where the operations end.
pub open spec fn operation(c: Cursor) -> (Option<Mmco>, Cursor) {
    let (op, c1) = c.ue();
    if op == 1 {
        let (v, c2) = c1.ue();
        (Some(Mmco::ForgetShort { diff_pic_nums_minus1: v }), c2)
    } else if op == 2 {
        let (v, c2) = c1.ue();
        (Some(Mmco::ForgetLong { long_term_pic_num: v }), c2)
    } else if op == 3 {
        let (v, c2) = c1.ue();
        let (w, c3) = c2.ue();
        (Some(Mmco::ShortToLong { diff_pic_nums_minus1: v, long_term_frame_idx: w }), c3)
    } else if op == 4 {
        let (v, c2) = c1.ue();
        (Some(Mmco::SetMaxLong { max_long_term_frame_idx_plus1: v }), c2)
    } else if op == 5 {
        (Some(Mmco::ResetAll), c1)
    } else if op == 6 {
        let (v, c2) = c1.ue();
        (Some(Mmco::CurrentToLong { long_term_frame_idx: v }), c2)
    } else {
        (None, c1)
    }
}

/// Marking operations after those in `seen`, up to the end or a reserved one.
pub open spec fn operations(c: Cursor, seen: Seq<Mmco>) -> (Seq<Mmco>, Cursor)
    decreases c.left(),
{
    if c.err is Some {
        (seen, c)
    } else {
        let (op, c1) = operation(c);
        if c1.err is Some || op is None || !(0 <= c1.left() < c.left()) {
            (seen, c1)
        } else {
            operations(c1, seen.push(op->0))
        }
    }
}

/// Reference marking: two flags of an IDR picture, or the operations of
/// adaptive marking.
#[verifier::opaque]
pub open spec fn marking_part(c: Cursor, idr: bool) -> (Option<Seq<Mmco>>, Cursor) {
    if idr {
        (None, c.bit().1.bit().1)
    } else {
        let (adaptive, c1) = c.bit();
        if adaptive {
            let (ops, c2) = operations(c1, Seq::empty());
            (Some(ops), c2)
        } else {
            (None, c1)
        }
    }
}

/// Entropy coding, quantiser and deblocking.
#[derive(Clone, Copy)]
pub struct FilterPart {
    pub cabac: Option<u32>,
    pub qp_delta: i32,
    pub disable: u32,
    pub alpha: i32,
    pub beta: i32,
}

/// Entropy coding, quantiser and deblocking.
#[verifier::opaque]
pub open spec fn filter_part(c: Cursor, kind: SliceKind, pps: Pps) -> (FilterPart, Cursor) {
    let (cabac, c1): (Option<u32>, Cursor) = if pps.entropy_coding_mode_flag && kind.uses_list0() {
        let (v, d) = c.ue();
        (Some(v), d)
    } else {
        (None, c)
    };
    let (qp_delta, c2) = c1.se();
    let c3 = if kind is Sp {
        c2.bit().1
    } else {
        c2
    };
    let c4 = if kind is Sp || kind is Si {
        c3.se().1
    } else {
        c3
    };
    if pps.deblocking_filter_control_present_flag {
        let (disable, c5) = c4.ue();
        if disable != 1 {
            let (alpha, c6) = c5.se();
            let (beta, c7) = c6.se();
            (FilterPart { cabac, qp_delta, disable, alpha, beta }, c7)
        } else {
            (FilterPart { cabac, qp_delta, disable, alpha: 0, beta: 0 }, c5)
        }
    } else {
        (FilterPart { cabac, qp_delta, disable: 0, alpha: 0, beta: 0 }, c4)
    }
}

/// Reading on after an error changes nothing.
pub broadcast proof fn lemma_order_sticks(c: Cursor, field: bool, sps: Sps, pps: Pps)
    requires
        c.err is Some,
    ensures
        (#[trigger] order_part(c, field, sps, pps)).1 == c,
{
    reveal(order_part);
}

/// Reading on after an error changes nothing.
pub broadcast proof fn lemma_list_sticks(c: Cursor, kind: SliceKind, pps: Pps)
    requires
        c.err is Some,
    ensures
        (#[trigger] list_part(c, kind, pps)).1 == c,
{
    reveal(list_part);
}

/// Reading on after an error changes nothing.
pub broadcast proof fn lemma_weights_stick(c: Cursor, chroma: bool, refs0: u32, refs1: u32, two: bool)
    requires
        c.err is Some,
    ensures
        (#[trigger] weight_table(c, chroma, refs0, refs1, two)).1 == c,
{
    reveal(weight_table);
}

/// Reading on after an error changes nothing.
pub broadcast proof fn lemma_marking_sticks(c: Cursor, idr: bool)
    requires
        c.err is Some,
    ensures
        (#[trigger] marking_part(c, idr)).1 == c,
{
    reveal(marking_part);
}

/// Reading on after an error changes nothing.
pub broadcast proof fn lemma_filter_sticks(c: Cursor, kind: SliceKind, pps: Pps)
    requires
        c.err is Some,
    ensures
        (#[trigger] filter_part(c, kind, pps)).1 == c,
{
    reveal(filter_part);
}

/// A slice of this kind carries prediction weights.
pub open spec fn weighted(kind: SliceKind, pps: Pps) -> bool {
    (pps.weighted_pred_flag && (kind is P || kind is Sp)) || (pps.weighted_bipred_idc == 1
        && kind is B)
}

/// A slice header from the current position.
#[verifier::opaque]
pub open spec fn slice_data(c: Cursor, idr: bool, nal_ref_idc: u8, sps: Sps, pps: Pps) -> (
    SliceData,
    Cursor,
) {
    let (a, c1) = start_part(c, idr, sps);
    let kind = kind_of(a.slice_type);
    let (o, c2) = order_part(c1, a.field, sps, pps);
    let (l, c3) = list_part(c2, kind, pps);
    let (mods, c4) = slice_mods(c3, kind);
    let (weights, c5): (Option<WeightTable>, Cursor) = if weighted(kind, pps) {
        let (w, d) = weight_table(c4, sps.array_type() != 0, l.refs0, l.refs1, kind is B);
        (Some(w), d)
    } else {
        (None, c4)
    };
    let (marking, c6): (Option<Seq<Mmco>>, Cursor) = if nal_ref_idc != 0 {
        marking_part(c5, idr)
    } else {
        (None, c5)
    };
    let (f, c7) = filter_part(c6, kind, pps);
    (
        SliceData {
            fields: SliceHeader {
                first_mb_in_slice: a.first_mb,
                slice_type: a.slice_type,
                slice_kind: kind,
                pic_parameter_set_id: a.pps_id,
                colour_plane_id: a.plane,
                frame_num: a.frame_num,
                field_pic_flag: a.field,
                bottom_field_flag: a.bottom,
                idr_pic_id: a.idr_id,
                pic_order_cnt_lsb: o.lsb,
                delta_pic_order_cnt_bottom: o.bottom,
                delta_pic_order_cnt: [o.delta0, o.delta1],
                redundant_pic_cnt: l.redundant,
                direct_spatial_mv_pred_flag: l.spatial,
                num_ref_idx_l0_active_minus1: l.refs0,
                num_ref_idx_l1_active_minus1: l.refs1,
                ref_pic_list_modifications: RefPicListModifications { list0: None, list1: None },
                pred_weights: None,
                marking: None,
                cabac_init_idc: f.cabac,
                slice_qp_delta: f.qp_delta,
                disable_deblocking_filter_idc: f.disable,
                slice_alpha_c0_offset_div2: f.alpha,
                slice_beta_offset_div2: f.beta,
            },
            mods,
            weights,
            marking,
        },
        c7,
    )
}

// ---- parsing the parts ----

fn parse_start(reader: &mut BitReader<'_>, idr: bool, sps: &Sps) -> (r: Result<StartPart, ReadError>)
    requires
        widths_ok(*sps),
    ensures
        reads(r, final(reader)@, start_part(old(reader)@, idr, *sps)),
{
    proof {
        reveal(start_part);
    }
    let first_mb = reader.read_ue()?;
    let slice_type = reader.read_ue()?;
    let pps_id = reader.read_ue()?;
    let mut plane: Option<u8> = None;
    if sps.separate_colour_plane_flag {
        plane = Some(reader.read_u(2)? as u8);
    }
    let frame_num = reader.read_u(sps.log2_max_frame_num_minus4 + 4)?;
    let mut field = false;
    let mut bottom = false;
    if !sps.frame_mbs_only_flag {
        field = reader.read_bit()?;
        if field {
            bottom = reader.read_bit()?;
        }
    }
    let mut idr_id: Option<u32> = None;
    if idr {
        idr_id = Some(reader.read_ue()?);
    }
    Ok(StartPart { first_mb, slice_type, pps_id, plane, frame_num, field, bottom, idr_id })
}

fn parse_order(reader: &mut BitReader<'_>, field: bool, sps: &Sps, pps: &Pps) -> (r: Result<
    OrderPart,
    ReadError,
>)
    requires
        widths_ok(*sps),
    ensures
        reads(r, final(reader)@, order_part(old(reader)@, field, *sps, *pps)),
{
    proof {
        reveal(order_part);
    }
    let _aligned: bool = reader.byte_aligned();
    let both: bool = pps.bottom_field_pic_order_in_frame_present_flag && !field;
    let mut o = OrderPart { lsb: None, bottom: 0, delta0: 0, delta1: 0 };
    if sps.pic_order_cnt_type == 0 {
        o.lsb = Some(reader.read_u(sps.log2_max_pic_order_cnt_lsb_minus4 + 4)?);
        if both {
            o.bottom = reader.read_se()?;
        }
    } else if sps.pic_order_cnt_type == 1 && !sps.delta_pic_order_always_zero_flag {
        o.delta0 = reader.read_se()?;
        if both {
            o.delta1 = reader.read_se()?;
        }
    }
    Ok(o)
}

fn parse_lists(reader: &mut BitReader<'_>, kind: SliceKind, pps: &Pps) -> (r: Result<
    ListPart,
    ReadError,
>)
    ensures
        reads(r, final(reader)@, list_part(old(reader)@, kind, *pps)),
{
    proof {
        reveal(list_part);
    }
    let _aligned: bool = reader.byte_aligned();
    let mut l = ListPart {
        redundant: 0,
        spatial: false,
        refs0: pps.num_ref_idx_l0_default_active_minus1,
        refs1: pps.num_ref_idx_l1_default_active_minus1,
    };
    if pps.redundant_pic_cnt_present_flag {
        l.redundant = reader.read_ue()?;
    }
    if kind.has_list1() {
        l.spatial = reader.read_bit()?;
    }
    if kind.has_list0() {
        let given: bool = reader.read_bit()?;
        if given {
            l.refs0 = reader.read_ue()?;
            if kind.has_list1() {
                l.refs1 = reader.read_ue()?;
            }
        }
    }
    Ok(l)
}

fn parse_ref_weight(reader: &mut BitReader<'_>, chroma: bool, ld: u32, cd: u32) -> (r: Result<
    RefWeight,
    ReadError,
>)
    ensures
        reads(r, final(reader)@, ref_weight(old(reader)@, chroma, ld, cd)),
{
    let mut w = RefWeight {
        luma: (1i32.wrapping_shl(ld), 0),
        cb: (1i32.wrapping_shl(cd), 0),
        cr: (1i32.wrapping_shl(cd), 0),
    };
    let has_luma: bool = reader.read_bit()?;
    if has_luma {
        let a: i32 = reader.read_se()?;
        let b: i32 = reader.read_se()?;
        w.luma = (a, b);
    }
    if chroma {
        let has_chroma: bool = reader.read_bit()?;
        if has_chroma {
            let a: i32 = reader.read_se()?;
            let b: i32 = reader.read_se()?;
            w.cb = (a, b);
            let a: i32 = reader.read_se()?;
            let b: i32 = reader.read_se()?;
            w.cr = (a, b);
        }
    }
    Ok(w)
}

fn parse_ref_weights(reader: &mut BitReader<'_>, n: u32, chroma: bool, ld: u32, cd: u32) -> (r: Result<
    Vec<RefWeight>,
    ReadError,
>)
    ensures
        reads_view(
            r,
            final(reader)@,
            ref_weights(old(reader)@, Seq::empty(), (n + 1) as nat, chroma, ld, cd),
        ),
{
    let ghost start = reader@;
    let _aligned: bool = reader.byte_aligned();
    let mut out: Vec<RefWeight> = Vec::new();
    let mut i: u64 = 0;
    let count: u64 = n as u64 + 1;
    while i < count
        invariant
            i <= count,
            count == n + 1,
            start == old(reader)@,
            reader@.err is None,
            ref_weights(reader@, out@, (count - i) as nat, chroma, ld, cd) == ref_weights(
                start,
                Seq::empty(),
                count as nat,
                chroma,
                ld,
                cd,
            ),
        decreases count - i,
    {
        let w = parse_ref_weight(reader, chroma, ld, cd)?;
        out.push(w);
        i = i + 1;
    }
    Ok(out)
}

fn parse_weights(reader: &mut BitReader<'_>, chroma: bool, refs0: u32, refs1: u32, two: bool) -> (r: Result<
    PredWeights,
    ReadError,
>)
    ensures
        reads_view(r, final(reader)@, weight_table(old(reader)@, chroma, refs0, refs1, two)),
{
    proof {
        reveal(weight_table);
    }
    let luma_denom = reader.read_ue()?;
    let mut chroma_denom: u32 = 0;
    if chroma {
        chroma_denom = reader.read_ue()?;
    }
    let l0 = parse_ref_weights(reader, refs0, chroma, luma_denom, chroma_denom)?;
    let mut l1: Vec<RefWeight> = Vec::new();
    assert(l1@ =~= Seq::empty());
    if two {
        l1 = parse_ref_weights(reader, refs1, chroma, luma_denom, chroma_denom)?;
    }
    Ok(PredWeights { luma_denom, chroma_denom, l0, l1 })
}

fn parse_operation(reader: &mut BitReader<'_>) -> (r: Result<Option<Mmco>, ReadError>)
    ensures
        reads(r, final(reader)@, operation(old(reader)@)),
{
    let op: u32 = reader.read_ue()?;
    if op == 1 {
        let v = reader.read_ue()?;
        Ok(Some(Mmco::ForgetShort { diff_pic_nums_minus1: v }))
    } else if op == 2 {
        let v = reader.read_ue()?;
        Ok(Some(Mmco::ForgetLong { long_term_pic_num: v }))
    } else if op == 3 {
        let v = reader.read_ue()?;
        let w = reader.read_ue()?;
        Ok(Some(Mmco::ShortToLong { diff_pic_nums_minus1: v, long_term_frame_idx: w }))
    } else if op == 4 {
        let v = reader.read_ue()?;
        Ok(Some(Mmco::SetMaxLong { max_long_term_frame_idx_plus1: v }))
    } else if op == 5 {
        Ok(Some(Mmco::ResetAll))
    } else if op == 6 {
        let v = reader.read_ue()?;
        Ok(Some(Mmco::CurrentToLong { long_term_frame_idx: v }))
    } else {
        Ok(None)
    }
}

/// A code takes at least one bit, and reads stay inside the data.
proof fn lemma_ue_advances(c: Cursor, k: int)
    requires
        c.err is None,
        c.left() >= 0,
        0 <= k <= 31,
    ensures
        c.ue_after(k).1.err is None ==> c.ue_after(k).1.left() < c.left(),
        c.ue_after(k).1.left() >= 0,
        c.ue_after(k).1.left() <= c.left(),
    decreases 32 - k,
{
    let (b, d) = c.bit();
    if d.err is None && !b && k < 31 {
        lemma_ue_advances(d, k + 1);
    }
}

proof fn lemma_operation_advances(c: Cursor)
    requires
        c.err is None,
        c.left() >= 0,
    ensures
        operation(c).1.err is None ==> operation(c).1.left() < c.left(),
        operation(c).1.left() >= 0,
{
    lemma_ue_advances(c, 0);
    let (op, c1) = c.ue();
    if c1.err is None {
        lemma_ue_advances(c1, 0);
        let c2 = c1.ue().1;
        if c2.err is None {
            lemma_ue_advances(c2, 0);
        }
    }
}

fn parse_operations(reader: &mut BitReader<'_>) -> (r: Result<Vec<Mmco>, ReadError>)
    ensures
        reads_view(r, final(reader)@, operations(old(reader)@, Seq::empty())),
{
    let ghost start = reader@;
    let mut out: Vec<Mmco> = Vec::new();
    let _aligned: bool = reader.byte_aligned();
    let _left: usize = reader.next_byte();
    loop
        invariant
            start == old(reader)@,
            reader@.err is None,
            reader@.left() >= 0,
            operations(reader@, out@) == operations(start, Seq::empty()),
        decreases reader@.left(),
    {
        proof {
            lemma_operation_advances(reader@);
        }
        let op = parse_operation(reader)?;
        match op {
            Some(m) => {
                out.push(m);
            },
            None => {
                return Ok(out);
            },
        }
    }
}

fn parse_marking(reader: &mut BitReader<'_>, idr: bool) -> (r: Result<Option<Vec<Mmco>>, ReadError>)
    ensures
        match r {
            Ok(v) => marking_part(old(reader)@, idr) == (
                match v {
                    Some(m) => Some(m@),
                    None => None,
                },
                final(reader)@,
            ),
            Err(e) => marking_part(old(reader)@, idr).1 == (Cursor {
                err: Some(e),
                ..final(reader)@
            }),
        },
        final(reader)@.err is None,
{
    proof {
        reveal(marking_part);
    }
    if idr {
        let _no_output: bool = reader.read_bit()?;
        let _long_term: bool = reader.read_bit()?;
        return Ok(None);
    }
    let adaptive: bool = reader.read_bit()?;
    if adaptive {
        let ops = parse_operations(reader)?;
        Ok(Some(ops))
    } else {
        Ok(None)
    }
}

fn parse_filter(reader: &mut BitReader<'_>, kind: SliceKind, pps: &Pps) -> (r: Result<
    FilterPart,
    ReadError,
>)
    ensures
        reads(r, final(reader)@, filter_part(old(reader)@, kind, *pps)),
{
    proof {
        reveal(filter_part);
    }
    let mut f = FilterPart { cabac: None, qp_delta: 0, disable: 0, alpha: 0, beta: 0 };
    if pps.entropy_coding_mode_flag && kind.has_list0() {
        f.cabac = Some(reader.read_ue()?);
    }
    f.qp_delta = reader.read_se()?;
    if kind == SliceKind::Sp {
        let _switch: bool = reader.read_bit()?;
    }
    if kind == SliceKind::Sp || kind == SliceKind::Si {
        let _qs_delta: i32 = reader.read_se()?;
    }
    if pps.deblocking_filter_control_present_flag {
        f.disable = reader.read_ue()?;
        if f.disable != 1 {
            f.alpha = reader.read_se()?;
            f.beta = reader.read_se()?;
        }
    }
    Ok(f)
}

/// Parse a slice header from the current position of an RBSP. `idr_pic_flag` is
/// set for NAL type 5 and for dependent views without `non_idr_flag`;
/// `nal_ref_idc` of the NAL header decides whether there is reference marking.
pub fn parse_slice_header(
    reader: &mut BitReader<'_>,
    idr_pic_flag: bool,
    nal_ref_idc: u8,
    sps: &Sps,
    pps: &Pps,
) -> (r: Result<SliceHeader, ReadError>)
    requires
        widths_ok(*sps),
    ensures
        reads_view(
            r,
            final(reader)@,
            slice_data(old(reader)@, idr_pic_flag, nal_ref_idc, *sps, *pps),
        ),
{
    broadcast use
        lemma_order_sticks,
        lemma_list_sticks,
        crate::mvc::ref_pic_list_modification::lemma_mods_stick,
        lemma_weights_stick,
        lemma_marking_sticks,
        lemma_filter_sticks,
    ;

    proof {
        reveal(slice_data);
    }
    let a = parse_start(reader, idr_pic_flag, sps)?;
    let kind = SliceKind::from_slice_type(a.slice_type);
    let o = parse_order(reader, a.field, sps, pps)?;
    let l = parse_lists(reader, kind, pps)?;
    let mods = parse_ref_pic_list_modification(reader, kind)?;
    let mut pred_weights: Option<PredWeights> = None;
    let has_weights: bool = (pps.weighted_pred_flag && kind.has_list0() && !kind.has_list1()) || (
    pps.weighted_bipred_idc == 1 && kind.has_list1());
    if has_weights {
        pred_weights = Some(
            parse_weights(reader, sps.chroma_array_type() != 0, l.refs0, l.refs1, kind.has_list1())?,
        );
    }
    let mut marking: Option<Vec<Mmco>> = None;
    if nal_ref_idc != 0 {
        marking = parse_marking(reader, idr_pic_flag)?;
    }
    let f = parse_filter(reader, kind, pps)?;
    Ok(
        SliceHeader {
            first_mb_in_slice: a.first_mb,
            slice_type: a.slice_type,
            slice_kind: kind,
            pic_parameter_set_id: a.pps_id,
            colour_plane_id: a.plane,
            frame_num: a.frame_num,
            field_pic_flag: a.field,
            bottom_field_flag: a.bottom,
            idr_pic_id: a.idr_id,
            pic_order_cnt_lsb: o.lsb,
            delta_pic_order_cnt_bottom: o.bottom,
            delta_pic_order_cnt: [o.delta0, o.delta1],
            redundant_pic_cnt: l.redundant,
            direct_spatial_mv_pred_flag: l.spatial,
            num_ref_idx_l0_active_minus1: l.refs0,
            num_ref_idx_l1_active_minus1: l.refs1,
            ref_pic_list_modifications: mods,
            pred_weights,
            marking,
            cabac_init_idc: f.cabac,
            slice_qp_delta: f.qp_delta,
            disable_deblocking_filter_idc: f.disable,
            slice_alpha_c0_offset_div2: f.alpha,
            slice_beta_offset_div2: f.beta,
        },
    )
}

} // verus!

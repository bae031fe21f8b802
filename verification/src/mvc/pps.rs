//! Picture parameter sets (H.264 section 7.3.2.2). The trailing extension
//! (8x8 transform, scaling matrices, second chroma offset) is there as long as
//! payload is left before the stop bit.

use crate::mvc::bitstream::{reads, reads_view, BitReader, Cursor, ReadError};
use crate::mvc::scaling::{parse_scaling_matrix, scaling_matrix, ScalingLists, Weights};
use vstd::arithmetic::power2::pow2;
use vstd::prelude::*;

verus! {

/// A decoded picture parameter set.
#[derive(Debug, Clone, Copy, PartialEq, Eq)]
pub struct Pps {
    pub pic_parameter_set_id: u32,
    pub seq_parameter_set_id: u32,
    pub entropy_coding_mode_flag: bool,
    pub bottom_field_pic_order_in_frame_present_flag: bool,
    pub num_slice_groups_minus1: u32,
    pub num_ref_idx_l0_default_active_minus1: u32,
    pub num_ref_idx_l1_default_active_minus1: u32,
    pub weighted_pred_flag: bool,
    pub weighted_bipred_idc: u8,
    pub pic_init_qp_minus26: i32,
    pub pic_init_qs_minus26: i32,
    pub chroma_qp_index_offset: i32,
    pub deblocking_filter_control_present_flag: bool,
    pub constrained_intra_pred_flag: bool,
    pub redundant_pic_cnt_present_flag: bool,
    pub transform_8x8_mode_flag: bool,
    pub second_chroma_qp_index_offset: i32,
    /// The weight matrices where the set carries them.
    pub scaling: Option<ScalingLists>,
}

/// A picture parameter set with its weight matrices apart.
pub struct PpsData {
    /// The set, with no matrices.
    pub fields: Pps,
    pub scaling: Option<Weights>,
}

impl View for Pps {
    type V = PpsData;

    open spec fn view(&self) -> PpsData {
        PpsData {
            fields: Pps { scaling: None, ..*self },
            scaling: match self.scaling {
                Some(s) => Some(s@),
                None => None,
            },
        }
    }
}

/// The set with these fields and matrices.
pub open spec fn pps_of(d: PpsData) -> Pps {
    choose|p: Pps| p@ == d
}

/// A set is determined by its fields and matrices.
pub broadcast proof fn lemma_pps_of(p: Pps)
    ensures
        pps_of(#[trigger] p@) == p,
{
    let t = pps_of(p@);
    assert(t@ == p@);
    match (p.scaling, t.scaling) {
        (Some(a), Some(b)) => {
            crate::mvc::scaling::lemma_same_lists(a, b);
        },
        _ => {},
    }
    let (x, y) = (p@.fields, t@.fields);
    assert(p == (Pps { scaling: p.scaling, ..x }));
    assert(t == (Pps { scaling: t.scaling, ..y }));
}

/// `k` is the least number of bits that can index `n` values.
pub open spec fn index_bits(n: int, k: int) -> bool {
    &&& k >= 0
    &&& n <= pow2(k as nat)
    &&& k > 0 ==> n > pow2((k - 1) as nat)
}

/// The number of bits that can index `n` values.
pub open spec fn bits_for(n: int) -> int {
    choose|k: int| 0 <= k <= 32 && #[trigger] index_bits(n, k)
}

proof fn lemma_bits_unique(n: int, a: int, b: int)
    requires
        index_bits(n, a),
        index_bits(n, b),
    ensures
        a == b,
{
    if a < b - 1 {
        vstd::arithmetic::power2::lemma_pow2_strictly_increases(a as nat, (b - 1) as nat);
    }
    if b < a - 1 {
        vstd::arithmetic::power2::lemma_pow2_strictly_increases(b as nat, (a - 1) as nat);
    }
}

/// The number of bits that can index `n` distinct values.
pub fn ceil_log2(n: u32) -> (k: u32)
    ensures
        k <= 32,
        index_bits(n as int, k as int),
        k == bits_for(n as int),
{
    let mut k: u32 = 0;
    let mut p: u64 = 1;
    proof {
        vstd::arithmetic::power2::lemma2_to64();
    }
    while p < n as u64
        invariant
            k <= 32,
            p == pow2(k as nat),
            k > 0 ==> n > pow2((k - 1) as nat),
            p <= 0x1_0000_0000,
            k == 32 ==> p == 0x1_0000_0000,
        decreases 32 - k,
    {
        proof {
            vstd::arithmetic::power2::lemma_pow2_unfold((k + 1) as nat);
            vstd::arithmetic::power2::lemma2_to64();
            if k + 1 < 32 {
                vstd::arithmetic::power2::lemma_pow2_strictly_increases((k + 1) as nat, 32);
            }
        }
        k = k + 1;
        p = p * 2;
    }
    proof {
        lemma_bits_unique(n as int, k as int, bits_for(n as int));
    }
    k
}

/// Past the map of slice groups.
#[verifier::opaque]
pub open spec fn group_map(c: Cursor, groups_minus1: u32) -> Cursor {
    let (kind, c1) = c.ue();
    if kind == 0 {
        c1.skip_codes((groups_minus1 + 1) as nat)
    } else if kind == 2 {
        c1.skip_rows(groups_minus1 as nat, 2, 0)
    } else if 3 <= kind <= 5 {
        c1.bit().1.ue().1
    } else if kind == 6 {
        let (size, c2) = c1.ue();
        c2.skip_numbers((size + 1) as nat, bits_for(groups_minus1.wrapping_add(1) as int))
    } else {
        c1
    }
}

fn consume_slice_group_map(reader: &mut BitReader<'_>, groups_minus1: u32) -> (r: Result<
    (),
    ReadError,
>)
    ensures
        reads(r, final(reader)@, ((), group_map(old(reader)@, groups_minus1))),
{
    proof {
        reveal(group_map);
    }
    let kind: u32 = reader.read_ue()?;
    if kind == 0 {
        reader.skip_codes(groups_minus1 as u64 + 1)
    } else if kind == 2 {
        reader.skip_rows(groups_minus1 as u64, 2, 0)
    } else if 3 <= kind && kind <= 5 {
        let _direction: bool = reader.read_bit()?;
        let _rate: u32 = reader.read_ue()?;
        Ok(())
    } else if kind == 6 {
        let size: u32 = reader.read_ue()?;
        let bits: u32 = ceil_log2(groups_minus1.wrapping_add(1));
        reader.skip_numbers(size as u64 + 1, bits)
    } else {
        Ok(())
    }
}

/// A set as it stands before its extension: no 8x8 transform, no matrices, and
/// the second chroma offset like the first.
pub open spec fn plain_pps(a: PpsHead, b: PpsBody) -> Pps {
    Pps {
        pic_parameter_set_id: a.id,
        seq_parameter_set_id: a.sps_id,
        entropy_coding_mode_flag: a.cabac,
        bottom_field_pic_order_in_frame_present_flag: a.bottom,
        num_slice_groups_minus1: a.groups,
        num_ref_idx_l0_default_active_minus1: b.refs0,
        num_ref_idx_l1_default_active_minus1: b.refs1,
        weighted_pred_flag: b.weighted,
        weighted_bipred_idc: b.bipred,
        pic_init_qp_minus26: b.qp,
        pic_init_qs_minus26: b.qs,
        chroma_qp_index_offset: b.chroma,
        deblocking_filter_control_present_flag: b.deblock,
        constrained_intra_pred_flag: b.constrained,
        redundant_pic_cnt_present_flag: b.redundant,
        transform_8x8_mode_flag: false,
        second_chroma_qp_index_offset: b.chroma,
        scaling: None,
    }
}

/// The first elements of a set.
#[derive(Clone, Copy)]
pub struct PpsHead {
    pub id: u32,
    pub sps_id: u32,
    pub cabac: bool,
    pub bottom: bool,
    pub groups: u32,
}

/// The elements after the slice groups.
#[derive(Clone, Copy)]
pub struct PpsBody {
    pub refs0: u32,
    pub refs1: u32,
    pub weighted: bool,
    pub bipred: u8,
    pub qp: i32,
    pub qs: i32,
    pub chroma: i32,
    pub deblock: bool,
    pub constrained: bool,
    pub redundant: bool,
}

/// The first elements of a set, past the map of slice groups.
#[verifier::opaque]
pub open spec fn pps_head(c: Cursor) -> (PpsHead, Cursor) {
    let (id, c1) = c.ue();
    let (sps_id, c2) = c1.ue();
    let (cabac, c3) = c2.bit();
    let (bottom, c4) = c3.bit();
    let (groups, c5) = c4.ue();
    (
        PpsHead { id, sps_id, cabac, bottom, groups },
        if groups > 0 {
            group_map(c5, groups)
        } else {
            c5
        },
    )
}

/// The elements after the slice groups.
#[verifier::opaque]
pub open spec fn pps_body(c: Cursor) -> (PpsBody, Cursor) {
    let (refs0, c1) = c.ue();
    let (refs1, c2) = c1.ue();
    let (weighted, c3) = c2.bit();
    let (bipred, c4) = c3.u(2);
    let (qp, c5) = c4.se();
    let (qs, c6) = c5.se();
    let (chroma, c7) = c6.se();
    let (deblock, c8) = c7.bit();
    let (constrained, c9) = c8.bit();
    let (redundant, c10) = c9.bit();
    (
        PpsBody {
            refs0,
            refs1,
            weighted,
            bipred: bipred as u8,
            qp,
            qs,
            chroma,
            deblock,
            constrained,
            redundant,
        },
        c10,
    )
}

/// The number of lists in a set's scaling matrix.
pub open spec fn list_count(chroma_format_idc: u32, t8: bool) -> int {
    if !t8 {
        6
    } else if chroma_format_idc != 3 {
        8
    } else {
        12
    }
}

/// The extension of a set: 8x8 transform, matrices and second chroma offset.
#[verifier::opaque]
pub open spec fn pps_tail(c: Cursor, chroma_format_idc: u32, p: Pps) -> (PpsData, Cursor) {
    if c.err is Some || !c.more_rbsp_data() {
        (PpsData { fields: p, scaling: None }, c)
    } else {
        let (t8, c1) = c.bit();
        let (matrices, c2) = c1.bit();
        let (scaling, c3): (Option<Weights>, Cursor) = if matrices {
            let (w, d) = scaling_matrix(c2, list_count(chroma_format_idc, t8));
            (Some(w), d)
        } else {
            (None, c2)
        };
        let (second, c4) = c3.se();
        (
            PpsData {
                fields: Pps {
                    transform_8x8_mode_flag: t8,
                    second_chroma_qp_index_offset: second,
                    ..p
                },
                scaling,
            },
            c4,
        )
    }
}

/// A picture parameter set from the current position.
#[verifier::opaque]
pub open spec fn pps_data(c: Cursor, chroma_format_idc: u32) -> (PpsData, Cursor) {
    let (a, c1) = pps_head(c);
    let (b, c2) = pps_body(c1);
    pps_tail(c2, chroma_format_idc, plain_pps(a, b))
}

/// Reading on after an error changes nothing.
pub broadcast proof fn lemma_group_map_sticks(c: Cursor, n: u32)
    requires
        c.err is Some,
    ensures
        #[trigger] group_map(c, n) == c,
{
    reveal(group_map);
}

/// Reading on after an error changes nothing.
pub broadcast proof fn lemma_body_sticks(c: Cursor)
    requires
        c.err is Some,
    ensures
        (#[trigger] pps_body(c)).1 == c,
{
    reveal(pps_body);
}

/// Reading on after an error changes nothing.
pub broadcast proof fn lemma_tail_sticks(c: Cursor, f: u32, p: Pps)
    requires
        c.err is Some,
    ensures
        (#[trigger] pps_tail(c, f, p)).1 == c,
{
    reveal(pps_tail);
}

fn parse_head(reader: &mut BitReader<'_>) -> (r: Result<PpsHead, ReadError>)
    ensures
        reads(r, final(reader)@, pps_head(old(reader)@)),
{
    broadcast use lemma_group_map_sticks;

    proof {
        reveal(pps_head);
    }
    let id = reader.read_ue()?;
    let sps_id = reader.read_ue()?;
    let cabac = reader.read_bit()?;
    let bottom = reader.read_bit()?;
    let groups = reader.read_ue()?;
    if groups > 0 {
        consume_slice_group_map(reader, groups)?;
    }
    Ok(PpsHead { id, sps_id, cabac, bottom, groups })
}

fn parse_body(reader: &mut BitReader<'_>) -> (r: Result<PpsBody, ReadError>)
    ensures
        reads(r, final(reader)@, pps_body(old(reader)@)),
{
    proof {
        reveal(pps_body);
    }
    let refs0 = reader.read_ue()?;
    let refs1 = reader.read_ue()?;
    let weighted = reader.read_bit()?;
    let bipred = reader.read_u(2)? as u8;
    let qp = reader.read_se()?;
    let qs = reader.read_se()?;
    let chroma = reader.read_se()?;
    let deblock = reader.read_bit()?;
    let constrained = reader.read_bit()?;
    let redundant = reader.read_bit()?;
    Ok(
        PpsBody {
            refs0,
            refs1,
            weighted,
            bipred,
            qp,
            qs,
            chroma,
            deblock,
            constrained,
            redundant,
        },
    )
}

fn parse_tail(reader: &mut BitReader<'_>, chroma_format_idc: u32, p: Pps) -> (r: Result<
    Pps,
    ReadError,
>)
    requires
        p.scaling is None,
    ensures
        reads_view(r, final(reader)@, pps_tail(old(reader)@, chroma_format_idc, p)),
{
    broadcast use crate::mvc::scaling::lemma_scaling_matrix_sticks;

    proof {
        reveal(pps_tail);
    }
    let _aligned: bool = reader.byte_aligned();
    if !reader.more_rbsp_data() {
        return Ok(p);
    }
    let mut p: Pps = p;
    p.transform_8x8_mode_flag = reader.read_bit()?;
    let matrices: bool = reader.read_bit()?;
    if matrices {
        let count: usize = if !p.transform_8x8_mode_flag {
            6
        } else if chroma_format_idc != 3 {
            8
        } else {
            12
        };
        p.scaling = Some(parse_scaling_matrix(reader, count)?);
    }
    p.second_chroma_qp_index_offset = reader.read_se()?;
    Ok(p)
}

/// Parse a picture parameter set from the current position of an RBSP. The
/// chroma format comes from the sequence set and decides the number of scaling
/// lists.
pub fn parse_pic_parameter_set(reader: &mut BitReader<'_>, chroma_format_idc: u32) -> (r: Result<
    Pps,
    ReadError,
>)
    ensures
        reads_view(r, final(reader)@, pps_data(old(reader)@, chroma_format_idc)),
{
    broadcast use lemma_body_sticks, lemma_tail_sticks;

    proof {
        reveal(pps_data);
    }
    let a = parse_head(reader)?;
    let b = parse_body(reader)?;
    let p = Pps {
        pic_parameter_set_id: a.id,
        seq_parameter_set_id: a.sps_id,
        entropy_coding_mode_flag: a.cabac,
        bottom_field_pic_order_in_frame_present_flag: a.bottom,
        num_slice_groups_minus1: a.groups,
        num_ref_idx_l0_default_active_minus1: b.refs0,
        num_ref_idx_l1_default_active_minus1: b.refs1,
        weighted_pred_flag: b.weighted,
        weighted_bipred_idc: b.bipred,
        pic_init_qp_minus26: b.qp,
        pic_init_qs_minus26: b.qs,
        chroma_qp_index_offset: b.chroma,
        deblocking_filter_control_present_flag: b.deblock,
        constrained_intra_pred_flag: b.constrained,
        redundant_pic_cnt_present_flag: b.redundant,
        transform_8x8_mode_flag: false,
        second_chroma_qp_index_offset: b.chroma,
        scaling: None,
    };
    parse_tail(reader, chroma_format_idc, p)
}

/// Parse the RBSP of a set (type 8), the bytes after the NAL header.
pub fn parse_pps_rbsp(rbsp: &[u8], chroma_format_idc: u32) -> (r: Result<Pps, ReadError>)
    ensures
        ({
            let c = Cursor { data: rbsp@, pos: 0, err: None };
            match r {
                Ok(p) => p@ == pps_data(c, chroma_format_idc).0 && pps_data(
                    c,
                    chroma_format_idc,
                ).1.err is None,
                Err(e) => pps_data(c, chroma_format_idc).1.err == Some(e),
            }
        }),
{
    let mut reader = BitReader::new(rbsp);
    parse_pic_parameter_set(&mut reader, chroma_format_idc)
}

} // verus!

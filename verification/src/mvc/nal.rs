//! NAL unit headers, with the MVC extension that types 14 and 20 carry
//! (H.264 sections 7.3.1 and G.7.3.1).

use crate::mvc::bitstream::{BitReader, Cursor, ReadError};
use vstd::prelude::*;

verus! {

pub const NAL_PREFIX: u8 = 14;
pub const NAL_SLICE_LAYER_EXTENSION: u8 = 20;
pub const NAL_VIEW_COMPONENT_SCALABLE: u8 = 21;
pub const NAL_SPS: u8 = 7;
pub const NAL_SUBSET_SPS: u8 = 15;

/// The header of a NAL unit.
#[derive(Debug, Clone, Copy, PartialEq, Eq, Structural)]
pub struct NalUnitHeader {
    pub forbidden_zero_bit: bool,
    pub nal_ref_idc: u8,
    pub nal_unit_type: u8,
    /// Present for types 14 and 20 in their MVC form.
    pub mvc_extension: Option<MvcNalExtension>,
}

/// The MVC extension of a NAL unit header.
#[derive(Debug, Clone, Copy, PartialEq, Eq, Structural)]
pub struct MvcNalExtension {
    pub non_idr_flag: bool,
    pub priority_id: u8,
    pub view_id: u16,
    pub temporal_id: u8,
    pub anchor_pic_flag: bool,
    pub inter_view_flag: bool,
    pub reserved_one_bit: bool,
}

/// The MVC extension in the three bytes after the first one; `None` for the
/// SVC form.
pub open spec fn extension(b: Seq<u8>) -> Option<MvcNalExtension> {
    let c0 = Cursor { data: b, pos: 0, err: None };
    let (svc, c1) = c0.bit();
    if svc {
        None
    } else {
        let (non_idr_flag, c2) = c1.bit();
        let (priority_id, c3) = c2.u(6);
        let (view_id, c4) = c3.u(10);
        let (temporal_id, c5) = c4.u(3);
        let (anchor_pic_flag, c6) = c5.bit();
        let (inter_view_flag, c7) = c6.bit();
        let (reserved_one_bit, c8) = c7.bit();
        Some(
            MvcNalExtension {
                non_idr_flag,
                priority_id: priority_id as u8,
                view_id: view_id as u16,
                temporal_id: temporal_id as u8,
                anchor_pic_flag,
                inter_view_flag,
                reserved_one_bit,
            },
        )
    }
}

/// The type of a NAL unit that carries three extension bytes.
pub open spec fn extended(t: int) -> bool {
    t == NAL_PREFIX || t == NAL_SLICE_LAYER_EXTENSION
}

/// The header of a NAL unit, and its length in bytes.
pub open spec fn nal_header(b: Seq<u8>) -> Result<(NalUnitHeader, int), ReadError> {
    if b.len() == 0 || (extended(b[0] as int % 32) && b.len() < 4) {
        Err(ReadError::Truncated)
    } else {
        let t = b[0] as int % 32;
        Ok(
            (
                NalUnitHeader {
                    forbidden_zero_bit: b[0] >= 128,
                    nal_ref_idc: (b[0] / 32 % 4) as u8,
                    nal_unit_type: t as u8,
                    mvc_extension: if extended(t) {
                        extension(b.subrange(1, 4))
                    } else {
                        None
                    },
                },
                if extended(t) {
                    4int
                } else {
                    1
                },
            ),
        )
    }
}

fn parse_extension(b: &[u8]) -> (r: Result<Option<MvcNalExtension>, ReadError>)
    requires
        b@.len() == 3,
    ensures
        r == Ok::<Option<MvcNalExtension>, ReadError>(extension(b@)),
{
    let mut reader = BitReader::new(b);
    let svc: bool = reader.read_bit()?;
    if svc {
        return Ok(None);
    }
    let non_idr_flag = reader.read_bit()?;
    let priority_id = reader.read_u(6)? as u8;
    let view_id = reader.read_u(10)? as u16;
    let temporal_id = reader.read_u(3)? as u8;
    let anchor_pic_flag = reader.read_bit()?;
    let inter_view_flag = reader.read_bit()?;
    let reserved_one_bit = reader.read_bit()?;
    Ok(
        Some(
            MvcNalExtension {
                non_idr_flag,
                priority_id,
                view_id,
                temporal_id,
                anchor_pic_flag,
                inter_view_flag,
                reserved_one_bit,
            },
        ),
    )
}

/// Parse the header at the start of a NAL unit's bytes: the header and the
/// number of bytes that it takes, 1 or 4.
pub fn parse_nal_unit_header(nal_bytes: &[u8]) -> (r: Result<(NalUnitHeader, usize), ReadError>)
    ensures
        match nal_header(nal_bytes@) {
            Ok((h, n)) => r is Ok && r->Ok_0.0 == h && r->Ok_0.1 == n && n <= nal_bytes@.len(),
            Err(e) => r == Err::<(NalUnitHeader, usize), ReadError>(e),
        },
{
    if nal_bytes.len() == 0 {
        return Err(ReadError::Truncated);
    }
    let first: u8 = nal_bytes[0];
    let forbidden_zero_bit: bool = first >= 128;
    let nal_ref_idc: u8 = first / 32 % 4;
    let nal_unit_type: u8 = first % 32;
    if nal_unit_type != NAL_PREFIX && nal_unit_type != NAL_SLICE_LAYER_EXTENSION {
        return Ok(
            (
                NalUnitHeader {
                    forbidden_zero_bit,
                    nal_ref_idc,
                    nal_unit_type,
                    mvc_extension: None,
                },
                1,
            ),
        );
    }
    if nal_bytes.len() < 4 {
        return Err(ReadError::Truncated);
    }
    let ext = vstd::slice::slice_subrange(nal_bytes, 1, 4);
    let mvc_extension = parse_extension(ext)?;
    Ok((NalUnitHeader { forbidden_zero_bit, nal_ref_idc, nal_unit_type, mvc_extension }, 4))
}

} // verus!

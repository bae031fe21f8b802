//! The frame packing arrangement message (H.264 sections D.1.26 and D.2.26),
//! which tells a player how the two views share a frame.

use crate::mvc::bitstream::{reads, BitReader, Cursor, ReadError};
use vstd::prelude::*;

verus! {

pub const SEI_PAYLOAD_TYPE_FRAME_PACKING_ARRANGEMENT: u32 = 45;

/// A frame packing arrangement message.
#[derive(Debug, Clone, Copy, PartialEq, Eq)]
pub struct FramePackingArrangement {
    pub id: u32,
    pub cancel_flag: bool,
    /// Absent where the message cancels an earlier one.
    pub body: Option<FramePackingArrangementBody>,
    pub extension_flag: bool,
}

/// What a frame packing arrangement message says.
#[derive(Debug, Clone, Copy, PartialEq, Eq)]
pub struct FramePackingArrangementBody {
    pub arrangement_type: u8,
    pub quincunx_sampling_flag: bool,
    pub content_interpretation_type: u8,
    pub spatial_flipping_flag: bool,
    pub frame0_flipped_flag: bool,
    pub field_views_flag: bool,
    pub current_frame_is_frame0_flag: bool,
    pub frame0_self_contained_flag: bool,
    pub frame1_self_contained_flag: bool,
    pub grid_positions: Option<GridPositions>,
    pub reserved_byte: u8,
    pub repetition_period: u32,
}

/// The sampling grids of the two views.
#[derive(Debug, Clone, Copy, PartialEq, Eq)]
pub struct GridPositions {
    pub frame0_x: u8,
    pub frame0_y: u8,
    pub frame1_x: u8,
    pub frame1_y: u8,
}

/// How the two views share a frame.
#[derive(Debug, Clone, Copy, PartialEq, Eq, Structural)]
pub enum ArrangementType {
    Checkerboard,
    ColumnInterleaved,
    RowInterleaved,
    SideBySide,
    TopBottom,
    TemporalInterleaving,
    TileFormat,
}

/// The arrangement of a type number.
pub open spec fn arrangement_of(v: int) -> Option<ArrangementType> {
    if v == 0 {
        Some(ArrangementType::Checkerboard)
    } else if v == 1 {
        Some(ArrangementType::ColumnInterleaved)
    } else if v == 2 {
        Some(ArrangementType::RowInterleaved)
    } else if v == 3 {
        Some(ArrangementType::SideBySide)
    } else if v == 4 {
        Some(ArrangementType::TopBottom)
    } else if v == 5 {
        Some(ArrangementType::TemporalInterleaving)
    } else if v == 6 {
        Some(ArrangementType::TileFormat)
    } else {
        None
    }
}

impl ArrangementType {
    /// The type number.
    pub open spec fn number(self) -> int {
        match self {
            ArrangementType::Checkerboard => 0,
            ArrangementType::ColumnInterleaved => 1,
            ArrangementType::RowInterleaved => 2,
            ArrangementType::SideBySide => 3,
            ArrangementType::TopBottom => 4,
            ArrangementType::TemporalInterleaving => 5,
            ArrangementType::TileFormat => 6,
        }
    }

    /// The arrangement of a type number.
    pub fn from_u8(v: u8) -> (r: Option<Self>)
        ensures
            r == arrangement_of(v as int),
    {
        match v {
            0 => Some(ArrangementType::Checkerboard),
            1 => Some(ArrangementType::ColumnInterleaved),
            2 => Some(ArrangementType::RowInterleaved),
            3 => Some(ArrangementType::SideBySide),
            4 => Some(ArrangementType::TopBottom),
            5 => Some(ArrangementType::TemporalInterleaving),
            6 => Some(ArrangementType::TileFormat),
            _ => None,
        }
    }

    /// The type number.
    pub fn as_u8(self) -> (r: u8)
        ensures
            r == self.number(),
    {
        match self {
            ArrangementType::Checkerboard => 0,
            ArrangementType::ColumnInterleaved => 1,
            ArrangementType::RowInterleaved => 2,
            ArrangementType::SideBySide => 3,
            ArrangementType::TopBottom => 4,
            ArrangementType::TemporalInterleaving => 5,
            ArrangementType::TileFormat => 6,
        }
    }
}

/// Type numbers and arrangements stand for each other.
pub proof fn law_arrangement_numbers(t: ArrangementType, v: int)
    ensures
        arrangement_of(t.number()) == Some(t),
        arrangement_of(v) is Some ==> arrangement_of(v)->0.number() == v,
        arrangement_of(v) is Some <==> 0 <= v <= 6,
{
}

/// The sampling grids.
#[verifier::opaque]
pub open spec fn grid(c: Cursor) -> (GridPositions, Cursor) {
    let (a, c1) = c.u(4);
    let (b, c2) = c1.u(4);
    let (d, c3) = c2.u(4);
    let (e, c4) = c3.u(4);
    (GridPositions { frame0_x: a as u8, frame0_y: b as u8, frame1_x: d as u8, frame1_y: e as u8 }, c4)
}

/// The body of a message. The grids are there unless sampling is quincunx or
/// the views alternate in time.
#[verifier::opaque]
pub open spec fn packing_body(c: Cursor) -> (FramePackingArrangementBody, Cursor) {
    let (kind, c1) = c.u(7);
    let (quincunx, c2) = c1.bit();
    let (content, c3) = c2.u(6);
    let (spatial, c4) = c3.bit();
    let (flipped, c5) = c4.bit();
    let (fields, c6) = c5.bit();
    let (current, c7) = c6.bit();
    let (self0, c8) = c7.bit();
    let (self1, c9) = c8.bit();
    let with_grid = !quincunx && kind as u8 != 5;
    let (positions, c10) = if with_grid {
        let (g, d) = grid(c9);
        (Some(g), d)
    } else {
        (None, c9)
    };
    let (reserved, c11) = c10.u(8);
    let (period, c12) = c11.ue();
    (
        FramePackingArrangementBody {
            arrangement_type: kind as u8,
            quincunx_sampling_flag: quincunx,
            content_interpretation_type: content as u8,
            spatial_flipping_flag: spatial,
            frame0_flipped_flag: flipped,
            field_views_flag: fields,
            current_frame_is_frame0_flag: current,
            frame0_self_contained_flag: self0,
            frame1_self_contained_flag: self1,
            grid_positions: positions,
            reserved_byte: reserved as u8,
            repetition_period: period,
        },
        c12,
    )
}

/// A frame packing arrangement message.
pub open spec fn frame_packing(c: Cursor) -> (FramePackingArrangement, Cursor) {
    let (id, c1) = c.ue();
    let (cancel_flag, c2) = c1.bit();
    let (body, c3) = if cancel_flag || c2.err is Some {
        (None, c2)
    } else {
        let (b, d) = packing_body(c2);
        (Some(b), d)
    };
    let (extension_flag, c4) = c3.bit();
    (FramePackingArrangement { id, cancel_flag, body, extension_flag }, c4)
}

fn parse_grid(reader: &mut BitReader<'_>) -> (r: Result<GridPositions, ReadError>)
    ensures
        reads(r, final(reader)@, grid(old(reader)@)),
{
    proof {
        reveal(grid);
    }
    let frame0_x = reader.read_u(4)? as u8;
    let frame0_y = reader.read_u(4)? as u8;
    let frame1_x = reader.read_u(4)? as u8;
    let frame1_y = reader.read_u(4)? as u8;
    Ok(GridPositions { frame0_x, frame0_y, frame1_x, frame1_y })
}

broadcast proof fn lemma_grid_sticks(c: Cursor)
    requires
        c.err is Some,
    ensures
        (#[trigger] grid(c)).1 == c,
{
    reveal(grid);
}

broadcast proof fn lemma_body_sticks(c: Cursor)
    requires
        c.err is Some,
    ensures
        (#[trigger] packing_body(c)).1 == c,
{
    reveal(packing_body);
    reveal(grid);
}

fn parse_body(reader: &mut BitReader<'_>) -> (r: Result<FramePackingArrangementBody, ReadError>)
    ensures
        reads(r, final(reader)@, packing_body(old(reader)@)),
{
    broadcast use lemma_grid_sticks;

    proof {
        reveal(packing_body);
    }
    let arrangement_type = reader.read_u(7)? as u8;
    let quincunx_sampling_flag = reader.read_bit()?;
    let content_interpretation_type = reader.read_u(6)? as u8;
    let spatial_flipping_flag = reader.read_bit()?;
    let frame0_flipped_flag = reader.read_bit()?;
    let field_views_flag = reader.read_bit()?;
    let current_frame_is_frame0_flag = reader.read_bit()?;
    let frame0_self_contained_flag = reader.read_bit()?;
    let frame1_self_contained_flag = reader.read_bit()?;
    let mut grid_positions: Option<GridPositions> = None;
    if !quincunx_sampling_flag && arrangement_type != 5 {
        grid_positions = Some(parse_grid(reader)?);
    }
    let reserved_byte = reader.read_u(8)? as u8;
    let repetition_period = reader.read_ue()?;
    Ok(
        FramePackingArrangementBody {
            arrangement_type,
            quincunx_sampling_flag,
            content_interpretation_type,
            spatial_flipping_flag,
            frame0_flipped_flag,
            field_views_flag,
            current_frame_is_frame0_flag,
            frame0_self_contained_flag,
            frame1_self_contained_flag,
            grid_positions,
            reserved_byte,
            repetition_period,
        },
    )
}

/// Parse a frame packing arrangement message.
pub fn parse_frame_packing_arrangement(reader: &mut BitReader<'_>) -> (r: Result<
    FramePackingArrangement,
    ReadError,
>)
    ensures
        reads(r, final(reader)@, frame_packing(old(reader)@)),
{
    broadcast use lemma_body_sticks;

    let id = reader.read_ue()?;
    let cancel_flag = reader.read_bit()?;
    let mut body: Option<FramePackingArrangementBody> = None;
    if !cancel_flag {
        body = Some(parse_body(reader)?);
    }
    let extension_flag = reader.read_bit()?;
    Ok(FramePackingArrangement { id, cancel_flag, body, extension_flag })
}

} // verus!

//! Decoded stereo frames, as decoders of the dependent view hand them out.

use vstd::prelude::*;

verus! {

/// The frames of both views at a time.
#[derive(Debug, Clone)]
pub struct StereoFrame {
    pub pts: i64,
    pub width: u32,
    pub height: u32,
    pub left: YuvFrame,
    pub right: YuvFrame,
}

/// A frame in three planes.
#[derive(Debug, Clone)]
pub struct YuvFrame {
    pub y: Vec<u8>,
    pub u: Vec<u8>,
    pub v: Vec<u8>,
    pub stride_y: u32,
    pub stride_uv: u32,
}

} // verus!

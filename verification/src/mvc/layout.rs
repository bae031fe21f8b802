//! The shape of composed stereo frames.

use vstd::prelude::*;

verus! {

/// Size, rate and sample format of composed frames.
#[derive(Debug, Clone)]
pub struct OutputFrameDescriptor {
    pub width: u32,
    pub height: u32,
    pub fps_num: u32,
    pub fps_den: u32,
    pub pix_fmt: PixelFormat,
}

/// The sample format of a composed frame.
#[derive(Debug, Clone, Copy, PartialEq, Eq, Structural)]
pub enum PixelFormat {
    Yuv420P,
    Yuv420P10Le,
}

} // verus!

//! The 3D MVC pipeline, from an Annex B byte stream to reconstructed frames.

use vstd::prelude::*;

pub mod annexb;
pub mod arith;
pub mod bitstream;
pub mod bytes;
pub mod cabac;
pub mod cabac_code;
pub mod clip;
pub mod deblock;
pub mod decoder;
pub mod ebml;
pub mod inter_plan;
pub mod inter_pred;
pub mod inter_slice;
pub mod intra;
pub mod laws;
pub mod layout;
pub mod loop_filter;
pub mod mb_header;
pub mod mb_inter;
pub mod mb_residual;
pub mod mc;
pub mod mkv_extract;
pub mod mv;
pub mod mvcc;
pub mod nal;
pub mod pps;
pub mod rbsp;
pub mod recon;
pub mod recon_inter;
pub mod ref_pic_list_modification;
pub mod reflist;
pub mod residual;
pub mod residual_code;
pub mod residual_ctx;
pub mod scaling;
pub mod sei;
pub mod slice_header;
pub mod sps;
pub mod trace;
pub mod transform;

verus! {

/// How the two views of a stereo frame lie in a composed one.
#[derive(Debug, Clone, Copy, PartialEq, Eq, Structural)]
pub enum StereoLayout {
    FullSbs,
    HalfSbs,
    FullTab,
    HalfTab,
    FrameSequential,
    Interleaved,
}

/// The program that decodes the dependent view.
#[derive(Debug, Clone, Copy, PartialEq, Eq, Structural)]
pub enum DecoderBackend {
    BritzFfmpeg,
    JmReference,
    WineFrim,
}

/// What a conversion writes, and how.
#[derive(Debug, Clone)]
pub struct MvcOutputPlan {
    pub layout: StereoLayout,
    pub decoder: DecoderBackend,
    pub subtitle_depth: SubtitleDepth,
}

/// What becomes of subtitles with depth.
#[derive(Debug, Clone, Copy, PartialEq, Eq, Structural)]
pub enum SubtitleDepth {
    Passthrough,
    HardcodedWithDepth,
    Skip,
}

} // verus!

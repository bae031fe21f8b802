//! What both ways of decoding a stream share: its parameter sets, the
//! surroundings of each view's slices, and pairs of frames.

use crate::mvc::bytes::copied;
use crate::mvc::clip::au::AuData;
use crate::mvc::clip::view::sized_for;
use crate::mvc::mb_header::MbInfo;
use crate::mvc::pps::Pps;
use crate::mvc::recon::{Frame, Picture, SliceEnv};
use crate::mvc::sps::Sps;
use vstd::prelude::*;

verus! {

/// The parameter sets of a stream.
#[derive(Clone, Copy)]
pub struct Sets {
    pub bsps: Sps,
    pub bpps: Pps,
    pub dsps: Sps,
    pub dpps: Pps,
}

/// A decoded frame of each view, left and right, and the size that is shown of
/// them.
pub struct FramePair {
    pub base: Frame,
    pub dep: Frame,
    pub width: u32,
    pub height: u32,
}

/// A decoded picture of each view, and the size that is shown of them.
pub struct Pair {
    pub base: Picture,
    pub dep: Picture,
    pub width: u32,
    pub height: u32,
}

impl View for FramePair {
    type V = Pair;

    open spec fn view(&self) -> Pair {
        Pair { base: self.base@, dep: self.dep@, width: self.width, height: self.height }
    }
}

/// Two pictures of a stream.
pub open spec fn paired(base: Picture, dep: Picture, sets: Sets) -> Pair {
    Pair { base, dep, width: sets.bsps.width, height: sets.bsps.height }
}

impl FramePair {
    /// Both frames have the sizes of their sequences.
    pub open spec fn sized(self, sets: Sets) -> bool {
        sized_for(self.base, sets.bsps) && sized_for(self.dep, sets.dsps)
    }
}

/// Pairs of pictures.
pub open spec fn pairs(v: Seq<FramePair>) -> Seq<Pair> {
    Seq::new(v.len(), |k: int| v[k]@)
}

/// All frames are whole.
pub open spec fn all_whole(v: Seq<FramePair>) -> bool {
    forall|k: int| 0 <= k < v.len() ==> (#[trigger] v[k]).base.ok() && v[k].dep.ok()
}

/// The set in force: the access unit's own, or else the stream's.
pub open spec fn in_force(own: Option<Pps>, set: Pps) -> Pps {
    match own {
        Some(p) => p,
        None => set,
    }
}

/// What the base slices of an access unit depend on.
pub open spec fn base_env(au: AuData, sets: Sets) -> SliceEnv {
    SliceEnv {
        idr: au.base_idr,
        nal_ref_idc: au.base_idc,
        sps: sets.bsps,
        pps: in_force(au.bpps, sets.bpps),
    }
}

/// What the dependent slices of an access unit depend on.
pub open spec fn dep_env(au: AuData, sets: Sets) -> SliceEnv {
    SliceEnv {
        idr: au.dep_idr,
        nal_ref_idc: au.dep_idc,
        sps: sets.dsps,
        pps: in_force(au.dpps, sets.dpps),
    }
}

/// The set in force.
pub fn pps_in_force(own: &Option<Pps>, set: &Pps) -> (p: Pps)
    ensures
        p == in_force(*own, *set),
{
    match own {
        Some(p) => *p,
        None => *set,
    }
}

/// One more, as far as the counter goes.
pub open spec fn counted(n: usize) -> usize {
    if n < usize::MAX {
        (n + 1) as usize
    } else {
        n
    }
}

/// Count one more.
pub fn count(n: usize) -> (r: usize)
    ensures
        r == counted(n),
{
    if n < usize::MAX {
        n + 1
    } else {
        n
    }
}

fn copy_info(v: &Vec<MbInfo>) -> (r: Vec<MbInfo>)
    ensures
        r@ == v@,
{
    let mut r: Vec<MbInfo> = Vec::new();
    let n: usize = v.len();
    for i in 0..n
        invariant
            n == v@.len(),
            r@ == v@.take(i as int),
    {
        r.push(v[i]);
        assert(v@.take(i as int).push(v@[i as int]) =~= v@.take(i + 1));
    }
    assert(v@.take(n as int) =~= v@);
    r
}

fn copy_numbers(v: &Vec<i32>) -> (r: Vec<i32>)
    ensures
        r@ == v@,
{
    let mut r: Vec<i32> = Vec::new();
    let n: usize = v.len();
    for i in 0..n
        invariant
            n == v@.len(),
            r@ == v@.take(i as int),
    {
        r.push(v[i]);
        assert(v@.take(i as int).push(v@[i as int]) =~= v@.take(i + 1));
    }
    assert(v@.take(n as int) =~= v@);
    r
}

/// A copy of a frame.
pub fn clone_frame(f: &Frame) -> (r: Frame)
    ensures
        r@ == f@,
        f.ok() ==> r.ok(),
{
    Frame {
        y: copied(f.y.as_slice()),
        cb: copied(f.cb.as_slice()),
        cr: copied(f.cr.as_slice()),
        fw: f.fw,
        fh: f.fh,
        cw: f.cw,
        ch: f.ch,
        width_mbs: f.width_mbs,
        mb_info: copy_info(&f.mb_info),
        qp: copy_numbers(&f.qp),
        disable_deblock_idc: f.disable_deblock_idc,
        slice_alpha_c0_offset_div2: f.slice_alpha_c0_offset_div2,
        slice_beta_offset_div2: f.slice_beta_offset_div2,
    }
}

} // verus!

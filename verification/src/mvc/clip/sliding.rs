//! Streams of I and P frames, whose decoding order is their display order:
//! each view predicts from its last frames, and the dependent view also from
//! the base frame of the same access unit.

use crate::mvc::clip::au::{slices_of, strings, Au, AuData};
use crate::mvc::clip::dep_list::{at_most, build_dep_l0, dep_l0, DRef};
use crate::mvc::clip::stream::{
    all_whole, base_env, clone_frame, count, counted, dep_env, paired, pairs, pps_in_force, FramePair,
    Pair, Sets,
};
use crate::mvc::clip::view::{
    decode_intra_view, decode_p_view, header_of, intra_view, p_view, read_header,
    sized_for,
};
use crate::mvc::clip::ClipError;
use crate::mvc::inter_pred::pictures;
use crate::mvc::recon::{Frame, Picture, SliceEnv};
use crate::mvc::sps::Sps;
use vstd::prelude::*;

verus! {

/// The last frames of each view, most recent first, and the count of pairs.
pub struct Sliding {
    pub base: Vec<Frame>,
    pub dep: Vec<Frame>,
    pub frames: usize,
}

/// The last pictures of each view, and the count of pairs.
#[verifier::ext_equal]
pub struct SlidingData {
    pub base: Seq<Picture>,
    pub dep: Seq<Picture>,
    pub frames: usize,
}

/// The pictures of some frames.
pub open spec fn shown(v: Seq<Frame>) -> Seq<Picture> {
    Seq::new(v.len(), |k: int| v[k]@)
}

/// All frames have the size of the sequence.
pub open spec fn frames_sized(v: Seq<Frame>, sps: Sps) -> bool {
    forall|k: int| 0 <= k < v.len() ==> sized_for(#[trigger] v[k], sps)
}

impl View for Sliding {
    type V = SlidingData;

    open spec fn view(&self) -> SlidingData {
        SlidingData { base: shown(self.base@), dep: shown(self.dep@), frames: self.frames }
    }
}

/// No frames yet.
pub open spec fn no_frames() -> SlidingData {
    SlidingData { base: Seq::empty(), dep: Seq::empty(), frames: 0 }
}

/// The base frame of an access unit, by the type of its first slice.
#[verifier::opaque]
pub open spec fn sliding_base(au: AuData, sets: Sets, last: Seq<Picture>) -> Result<
    Picture,
    ClipError,
> {
    let env = base_env(au, sets);
    match header_of(au.base[0], env) {
        Err(e) => Err(e),
        Ok(h) => {
            let t = h.fields.slice_type % 5;
            if t == 1 {
                Err(ClipError::BaseBSlice)
            } else if t == 2 {
                intra_view(au.base, env)
            } else {
                match p_view(au.base, SliceEnv { idr: false, ..env }, last) {
                    Err(e) => Err(e),
                    Ok((p, m)) => Ok(p),
                }
            }
        },
    }
}

/// An entry of the dependent view's list 0 is held.
pub open spec fn held(r: DRef, n: int) -> bool {
    match r {
        DRef::InterView => true,
        DRef::Temporal(k) => k < n,
    }
}

/// The picture of an entry of the dependent view's list 0.
pub open spec fn named(r: DRef, last: Seq<Picture>, base: Picture) -> Picture {
    match r {
        DRef::InterView => base,
        DRef::Temporal(k) => last[k as int],
    }
}

/// The dependent frame of an access unit.
#[verifier::opaque]
pub open spec fn sliding_dep(au: AuData, sets: Sets, last: Seq<Picture>, base: Picture) -> Result<
    Picture,
    ClipError,
> {
    let env = dep_env(au, sets);
    if au.dep.len() == 0 {
        Err(ClipError::NoDependentView)
    } else {
        match header_of(au.dep[0], env) {
            Err(e) => Err(e),
            Ok(h) => {
                let n = h.fields.num_ref_idx_l0_active_minus1 + 1;
                let list = dep_l0(h.mods.0, n, last.len() as int, au.dep_anchor);
                if h.fields.slice_type % 5 == 1 {
                    Err(ClipError::DependentBSlice)
                } else if !all_held(list, last.len() as int) {
                    Err(ClipError::MissingReference)
                } else {
                    match p_view(au.dep, env, named_all(list, last, base)) {
                        Err(e) => Err(e),
                        Ok((p, m)) => Ok(p),
                    }
                }
            },
        }
    }
}

/// All entries of a list are held.
pub open spec fn all_held(list: Seq<DRef>, n: int) -> bool {
    forall|k: int| 0 <= k < list.len() ==> held(#[trigger] list[k], n)
}

/// The pictures of a list.
pub open spec fn named_all(list: Seq<DRef>, last: Seq<Picture>, base: Picture) -> Seq<Picture> {
    Seq::new(list.len(), |k: int| named(list[k], last, base))
}

/// How many frames a view keeps.
pub open spec fn kept(sps: Sps) -> int {
    if sps.max_num_ref_frames < 1 {
        1
    } else {
        sps.max_num_ref_frames as int
    }
}

/// The next access unit: its pair of frames, and the frames kept after it.
#[verifier::opaque]
pub open spec fn sliding_step(s: SlidingData, au: AuData, sets: Sets) -> Result<
    (SlidingData, Pair),
    ClipError,
> {
    match sliding_base(au, sets, s.base) {
        Err(e) => Err(e),
        Ok(b) => match sliding_dep(au, sets, s.dep, b) {
            Err(e) => Err(e),
            Ok(d) => Ok(
                (
                    SlidingData {
                        base: at_most(seq![b] + s.base, kept(sets.bsps)),
                        dep: at_most(seq![d] + s.dep, kept(sets.bsps)),
                        frames: counted(s.frames),
                    },
                    paired(b, d, sets),
                ),
            ),
        },
    }
}

fn frame_refs(v: &Vec<Frame>) -> (r: Vec<&Frame>)
    ensures
        pictures(r@) == shown(v@),
        r@.len() == v@.len(),
        forall|k: int| 0 <= k < v@.len() ==> *(#[trigger] r@[k]) == v@[k],
{
    let mut r: Vec<&Frame> = Vec::new();
    let n: usize = v.len();
    for i in 0..n
        invariant
            n == v@.len(),
            r@.len() == i,
            forall|k: int| 0 <= k < i ==> *(#[trigger] r@[k]) == v@[k],
    {
        r.push(&v[i]);
    }
    assert(pictures(r@) =~= shown(v@));
    r
}

fn keep_frame(v: &mut Vec<Frame>, f: Frame, sps: &Sps, Ghost(own): Ghost<Sps>)
    requires
        frames_sized(old(v)@, own),
        sized_for(f, own),
    ensures
        shown(final(v)@) == at_most(seq![f@] + shown(old(v)@), kept(*sps)),
        frames_sized(final(v)@, own),
{
    let ghost was = v@;
    v.insert(0, f);
    assert(shown(v@) =~= seq![f@] + shown(was));
    assert(frames_sized(v@, own)) by {
        assert forall|k: int| 0 <= k < v@.len() implies sized_for(#[trigger] v@[k], own) by {
            assert(v@[k] == (if k == 0 {
                f
            } else {
                was[k - 1]
            }));
        }
    }
    let cap: u32 = if sps.max_num_ref_frames < 1 {
        1
    } else {
        sps.max_num_ref_frames
    };
    if v.len() as u64 > cap as u64 {
        let ghost all = v@;
        v.truncate(cap as usize);
        assert(shown(v@) =~= shown(all).take(cap as int));
        assert(frames_sized(v@, own)) by {
            assert forall|k: int| 0 <= k < v@.len() implies sized_for(#[trigger] v@[k], own) by {
                assert(v@[k] == all[k]);
            }
        }
    }
}

fn decode_base(au: &Au, sets: &Sets, last: &Vec<Frame>) -> (r: Result<Frame, ClipError>)
    requires
        au@.base.len() > 0,
        frames_sized(last@, sets.bsps),
    ensures
        match r {
            Ok(f) => sliding_base(au@, *sets, shown(last@)) == Ok::<Picture, ClipError>(f@)
                && sized_for(f, sets.bsps),
            Err(e) => sliding_base(au@, *sets, shown(last@)) == Err::<Picture, ClipError>(e),
        },
{
    proof {
        reveal(sliding_base);
    }
    let pps = pps_in_force(&au.bpps, &sets.bpps);
    let slices = slices_of(&au.base);
    assert(slices@[0]@ == strings(au.base@)[0]);
    let h = read_header(slices[0], au.base_idr, au.base_idc, &sets.bsps, &pps)?;
    let t: u32 = h.slice_type % 5;
    if t == 1 {
        return Err(ClipError::BaseBSlice);
    }
    if t == 2 {
        return decode_intra_view(slices.as_slice(), au.base_idc, au.base_idr, &sets.bsps, &pps);
    }
    let refs = frame_refs(last);
    let (f, _m) = decode_p_view(
        slices.as_slice(),
        au.base_idc,
        false,
        &sets.bsps,
        &pps,
        refs.as_slice(),
    )?;
    Ok(f)
}

fn resolve_list<'a>(list: &Vec<DRef>, last: &'a Vec<Frame>, base: &'a Frame) -> (r: Option<Vec<&'a Frame>>)
    ensures
        match r {
            Some(v) => all_held(list@, last@.len() as int) && pictures(v@) == named_all(
                list@,
                shown(last@),
                base@,
            ) && v@.len() == list@.len() && forall|k: int|
                0 <= k < v@.len() ==> match list@[k] {
                    DRef::InterView => *(#[trigger] v@[k]) == *base,
                    DRef::Temporal(i) => *v@[k] == last@[i as int] && i < last@.len(),
                },
            None => !all_held(list@, last@.len() as int),
        },
{
    let mut r: Vec<&'a Frame> = Vec::new();
    let n: usize = list.len();
    for i in 0..n
        invariant
            n == list@.len(),
            r@.len() == i,
            forall|k: int|
                0 <= k < i ==> match list@[k] {
                    DRef::InterView => *(#[trigger] r@[k]) == *base,
                    DRef::Temporal(j) => *r@[k] == last@[j as int] && j < last@.len(),
                },
            forall|k: int| 0 <= k < i ==> held(#[trigger] list@[k], last@.len() as int),
    {
        match list[i] {
            DRef::InterView => {
                r.push(base);
            },
            DRef::Temporal(k) => {
                if k >= last.len() as u64 {
                    assert(!held(list@[i as int], last@.len() as int));
                    return None;
                }
                r.push(&last[k as usize]);
            },
        }
    }
    assert(pictures(r@) =~= named_all(list@, shown(last@), base@)) by {
        assert forall|k: int| 0 <= k < r@.len() implies pictures(r@)[k] == named_all(
            list@,
            shown(last@),
            base@,
        )[k] by {
            assert(r@[k]@ == pictures(r@)[k]);
        }
    }
    Some(r)
}

fn decode_dep(au: &Au, sets: &Sets, last: &Vec<Frame>, base: &Frame) -> (r: Result<Frame, ClipError>)
    requires
        frames_sized(last@, sets.dsps),
    ensures
        match r {
            Ok(f) => sliding_dep(au@, *sets, shown(last@), base@) == Ok::<Picture, ClipError>(f@)
                && sized_for(f, sets.dsps),
            Err(e) => sliding_dep(au@, *sets, shown(last@), base@) == Err::<Picture, ClipError>(e),
        },
{
    proof {
        reveal(sliding_dep);
    }
    if au.dep.len() == 0 {
        return Err(ClipError::NoDependentView);
    }
    let pps = pps_in_force(&au.dpps, &sets.dpps);
    let slices = slices_of(&au.dep);
    assert(slices@[0]@ == strings(au.dep@)[0]);
    let h = read_header(slices[0], au.dep_idr, au.dep_idc, &sets.dsps, &pps)?;
    if h.slice_type % 5 == 1 {
        return Err(ClipError::DependentBSlice);
    }
    let n: u64 = h.num_ref_idx_l0_active_minus1 as u64 + 1;
    let list = build_dep_l0(
        &h.ref_pic_list_modifications.list0,
        n,
        last.len(),
        au.dep_anchor,
    );
    let refs = match resolve_list(&list, last, base) {
        Some(v) => v,
        None => {
            return Err(ClipError::MissingReference);
        },
    };
    let (f, _m) = decode_p_view(
        slices.as_slice(),
        au.dep_idc,
        au.dep_idr,
        &sets.dsps,
        &pps,
        refs.as_slice(),
    )?;
    Ok(f)
}

impl Sliding {
    /// The frames have the sizes of their sequences.
    pub open spec fn wf(self, sets: Sets) -> bool {
        frames_sized(self.base@, sets.bsps) && frames_sized(self.dep@, sets.dsps)
    }

    pub fn new() -> (s: Sliding)
        ensures
            s@ == no_frames(),
            forall|sets: Sets| s.wf(sets),
    {
        let s = Sliding { base: Vec::new(), dep: Vec::new(), frames: 0 };
        assert(s@ =~= no_frames());
        s
    }

    /// Decode an access unit and append its pair.
    pub fn step(&mut self, au: &Au, sets: &Sets, out: &mut Vec<FramePair>) -> (r: Result<
        (),
        ClipError,
    >)
        requires
            old(self).wf(*sets),
            au@.base.len() > 0,
        ensures
            match r {
                Ok(_) => ({
                    let want = sliding_step(old(self)@, au@, *sets);
                    want is Ok && final(self)@ == want->Ok_0.0 && pairs(final(out)@) == pairs(
                        old(out)@,
                    ).push(want->Ok_0.1) && final(self).wf(*sets)
                }),
                Err(e) => sliding_step(old(self)@, au@, *sets) == Err::<
                    (SlidingData, Pair),
                    ClipError,
                >(e) && final(out)@ == old(out)@,
            },
            all_whole(old(out)@) ==> all_whole(final(out)@),
    {
        proof {
            reveal(sliding_step);
        }
        let b = decode_base(au, sets, &self.base)?;
        let d = decode_dep(au, sets, &self.dep, &b)?;
        let pair = FramePair {
            base: clone_frame(&b),
            dep: clone_frame(&d),
            width: sets.bsps.width,
            height: sets.bsps.height,
        };
        let ghost was = out@;
        out.push(pair);
        assert(pairs(out@) =~= pairs(was).push(paired(b@, d@, *sets)));
        keep_frame(&mut self.base, b, &sets.bsps, Ghost(sets.bsps));
        keep_frame(&mut self.dep, d, &sets.bsps, Ghost(sets.dsps));
        self.frames = count(self.frames);
        Ok(())
    }
}

} // verus!

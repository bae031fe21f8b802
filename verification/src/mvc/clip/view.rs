//! One frame of one view: its header, its reference lists, the decoded and
//! deblocked frame, and the motion that it leaves behind.

use crate::mvc::bitstream::BitReader;
use crate::mvc::clip::au::start_of;
use crate::mvc::clip::dep_list::at_most;
use crate::mvc::clip::ClipError;
use crate::mvc::inter_pred::pictures;
use crate::mvc::loop_filter::{deblocked, MotionKind};
use crate::mvc::pps::Pps;
use crate::mvc::recon::{bytes_of, decode_intra_frame, intra_frame, Frame, Picture, SliceEnv};
use crate::mvc::recon_inter::{
    b_env, b_motion, colocated_motion, deblock_b, deblock_inter, decode_b_frame, decode_p_frame,
    empty_motion, inter_frame, listed, p_env, p_motion, resolved, MotionData,
    MotionField,
};
use crate::mvc::ref_pic_list_modification::{mods_of, Mods, RefPicListModification};
use crate::mvc::reflist::{by_keys, law_ranked, rank};
use crate::mvc::slice_header::{parse_slice_header, slice_data, widths_ok, SliceData, SliceHeader};
use crate::mvc::sps::Sps;
use vstd::prelude::*;

verus! {

// ---- headers ----

/// The header of a slice.
pub open spec fn header_of(slice: Seq<u8>, env: SliceEnv) -> Result<SliceData, ClipError> {
    if !widths_ok(env.sps) {
        Err(ClipError::ParameterRange)
    } else {
        let (d, c) = slice_data(start_of(slice), env.idr, env.nal_ref_idc, env.sps, env.pps);
        match c.err {
            Some(e) => Err(ClipError::Read(e)),
            None => Ok(d),
        }
    }
}

/// Parse the header of a slice.
pub fn read_header(slice: &[u8], idr: bool, nal_ref_idc: u8, sps: &Sps, pps: &Pps) -> (r: Result<
    SliceHeader,
    ClipError,
>)
    ensures
        ({
            let want = header_of(slice@, SliceEnv { idr, nal_ref_idc, sps: *sps, pps: *pps });
            match r {
                Ok(h) => want == Ok::<SliceData, ClipError>(h@) && widths_ok(*sps),
                Err(e) => want == Err::<SliceData, ClipError>(e),
            }
        }),
{
    if sps.log2_max_frame_num_minus4 > 28 || (sps.pic_order_cnt_type == 0
        && sps.log2_max_pic_order_cnt_lsb_minus4 > 28) {
        return Err(ClipError::ParameterRange);
    }
    let mut reader = BitReader::new(slice);
    match parse_slice_header(&mut reader, idr, nal_ref_idc, sps, pps) {
        Ok(h) => Ok(h),
        Err(e) => Err(ClipError::Read(e)),
    }
}

// ---- frames ----

/// The frame has the size of the sequence.
pub open spec fn sized_for(f: Frame, sps: Sps) -> bool {
    &&& f.ok()
    &&& f@.width == sps.pic_width_in_mbs
    &&& f@.height == sps.pic_height_in_map_units
}

/// A deblocked intra frame.
#[verifier::opaque]
pub open spec fn intra_view(slices: Seq<Seq<u8>>, env: SliceEnv) -> Result<Picture, ClipError> {
    match intra_frame(slices, env) {
        Err(e) => Err(ClipError::Recon(e)),
        Ok(p) => Ok(deblocked(p, MotionKind::Intra, env.pps.chroma_qp_index_offset as int)),
    }
}

/// A deblocked P frame against a list 0, and its motion.
#[verifier::opaque]
pub open spec fn p_view(slices: Seq<Seq<u8>>, env: SliceEnv, refs: Seq<Picture>) -> Result<
    (Picture, MotionData),
    ClipError,
> {
    match inter_frame(slices, p_env(env, refs)) {
        Err(e) => Err(ClipError::Recon(e)),
        Ok((p, j)) => {
            let m = p_motion(j, env);
            Ok(
                (
                    deblocked(p, MotionKind::Single(m), env.pps.chroma_qp_index_offset as int),
                    m,
                ),
            )
        },
    }
}

/// A deblocked B frame against two lists, and its motion as a co-located frame.
/// Bi-prediction has equal weights.
#[verifier::opaque]
pub open spec fn b_view(
    slices: Seq<Seq<u8>>,
    env: SliceEnv,
    l0: Seq<(Picture, i32)>,
    l1: Seq<(Picture, i32)>,
    poc: i32,
    col: MotionData,
) -> Result<(Picture, MotionData), ClipError> {
    let ie = b_env(env, l0, l1, poc, col, (32, 32));
    match inter_frame(slices, ie) {
        Err(e) => Err(ClipError::Recon(e)),
        Ok((p, j)) => {
            let m = b_motion(j, ie);
            Ok(
                (
                    deblocked(p, MotionKind::Double(m), env.pps.chroma_qp_index_offset as int),
                    colocated_motion(m),
                ),
            )
        },
    }
}

/// Decode and deblock an intra frame.
pub fn decode_intra_view(slices: &[&[u8]], nal_ref_idc: u8, idr: bool, sps: &Sps, pps: &Pps) -> (r:
    Result<Frame, ClipError>)
    requires
        widths_ok(*sps),
    ensures
        ({
            let env = SliceEnv { idr, nal_ref_idc, sps: *sps, pps: *pps };
            let want = intra_view(bytes_of(slices@), env);
            match r {
                Ok(f) => want == Ok::<Picture, ClipError>(f@) && sized_for(f, *sps),
                Err(e) => want == Err::<Picture, ClipError>(e),
            }
        }),
{
    proof {
        reveal(intra_view);
    }
    match decode_intra_frame(slices, nal_ref_idc, idr, sps, pps) {
        Err(e) => Err(ClipError::Recon(e)),
        Ok(f) => {
            let mut f = f;
            let ghost p = f@;
            f.deblock_intra(pps.chroma_qp_index_offset);
            proof {
                lemma_deblocked_size(p, MotionKind::Intra, pps.chroma_qp_index_offset as int);
            }
            Ok(f)
        },
    }
}

proof fn lemma_deblocked_size(p: Picture, m: MotionKind, off: int)
    ensures
        deblocked(p, m, off).width == p.width,
        deblocked(p, m, off).height == p.height,
{
}

/// Decode and deblock a P frame.
pub fn decode_p_view(
    slices: &[&[u8]],
    nal_ref_idc: u8,
    idr: bool,
    sps: &Sps,
    pps: &Pps,
    refs: &[&Frame],
) -> (r: Result<(Frame, MotionField), ClipError>)
    requires
        widths_ok(*sps),
    ensures
        ({
            let env = SliceEnv { idr, nal_ref_idc, sps: *sps, pps: *pps };
            let want = p_view(bytes_of(slices@), env, pictures(refs@));
            match r {
                Ok((f, m)) => want == Ok::<(Picture, MotionData), ClipError>((f@, m@)) && sized_for(
                    f,
                    *sps,
                ),
                Err(e) => want == Err::<(Picture, MotionData), ClipError>(e),
            }
        }),
{
    proof {
        reveal(p_view);
    }
    match decode_p_frame(slices, nal_ref_idc, idr, sps, pps, refs) {
        Err(e) => Err(ClipError::Recon(e)),
        Ok((f, m)) => {
            let mut f = f;
            let ghost p = f@;
            deblock_inter(&mut f, &m, pps.chroma_qp_index_offset);
            proof {
                lemma_deblocked_size(p, MotionKind::Single(m@), pps.chroma_qp_index_offset as int);
            }
            Ok((f, m))
        },
    }
}

/// Decode and deblock a B frame.
pub fn decode_b_view(
    slices: &[&[u8]],
    nal_ref_idc: u8,
    idr: bool,
    sps: &Sps,
    pps: &Pps,
    l0: &[(&Frame, i32)],
    l1: &[(&Frame, i32)],
    poc: i32,
    col: &MotionField,
) -> (r: Result<(Frame, MotionField), ClipError>)
    requires
        widths_ok(*sps),
    ensures
        ({
            let env = SliceEnv { idr, nal_ref_idc, sps: *sps, pps: *pps };
            let want = b_view(bytes_of(slices@), env, listed(l0@), listed(l1@), poc, col@);
            match r {
                Ok((f, m)) => want == Ok::<(Picture, MotionData), ClipError>((f@, m@)) && sized_for(
                    f,
                    *sps,
                ),
                Err(e) => want == Err::<(Picture, MotionData), ClipError>(e),
            }
        }),
{
    proof {
        reveal(b_view);
    }
    match decode_b_frame(slices, nal_ref_idc, idr, sps, pps, l0, l1, poc, col, (32, 32)) {
        Err(e) => Err(ClipError::Recon(e)),
        Ok((f, m)) => {
            let mut f = f;
            let ghost p = f@;
            deblock_b(&mut f, &m, pps.chroma_qp_index_offset);
            proof {
                lemma_deblocked_size(p, MotionKind::Double(m@), pps.chroma_qp_index_offset as int);
            }
            let c = m.colocated();
            Ok((f, c))
        },
    }
}

// ---- frames by order count ----

/// A reference frame of a view: order count, frame and motion.
pub struct ViewRef {
    pub poc: i32,
    pub frame: Frame,
    pub motion: MotionField,
}

/// A reference frame of a view.
#[verifier::ext_equal]
pub struct RefData {
    pub poc: i32,
    pub pic: Picture,
    pub motion: MotionData,
}

impl View for ViewRef {
    type V = RefData;

    open spec fn view(&self) -> RefData {
        RefData { poc: self.poc, pic: self.frame@, motion: self.motion@ }
    }
}

/// Reference frames.
pub open spec fn ref_data(v: Seq<ViewRef>) -> Seq<RefData> {
    Seq::new(v.len(), |k: int| v[k]@)
}

/// All frames have the size of the sequence.
pub open spec fn all_sized(v: Seq<ViewRef>, sps: Sps) -> bool {
    forall|k: int| 0 <= k < v.len() ==> sized_for((#[trigger] v[k]).frame, sps)
}

/// The modifications ask for the other view.
pub open spec fn wants_other_view(mods: Mods) -> bool {
    match mods {
        Some(m) => exists|k: int|
            0 <= k < m.len() && ((#[trigger] m[k]) is InterViewAdd || m[k] is InterViewSub),
        None => false,
    }
}

/// Whether the modifications ask for the other view.
pub fn asks_other_view(mods: &Option<Vec<RefPicListModification>>) -> (b: bool)
    ensures
        b == wants_other_view(mods_of(*mods)),
{
    match mods {
        None => false,
        Some(m) => {
            let n: usize = m.len();
            for i in 0..n
                invariant
                    n == m@.len(),
                    mods_of(*mods) == Some(m@),
                    forall|k: int|
                        0 <= k < i ==> !((#[trigger] m@[k]) is InterViewAdd || m@[k] is InterViewSub),
            {
                match m[i] {
                    RefPicListModification::InterViewAdd { .. } => {
                        assert(m@[i as int] is InterViewAdd);
                        return true;
                    },
                    RefPicListModification::InterViewSub { .. } => {
                        assert(m@[i as int] is InterViewSub);
                        return true;
                    },
                    _ => {},
                }
            }
            false
        },
    }
}

/// Sort keys of the frames before (or after) an order count: nearest first.
pub open spec fn distance_keys(refs: Seq<RefData>, poc: i32, after: bool) -> Seq<Option<i64>> {
    Seq::new(
        refs.len(),
        |k: int|
            if after && refs[k].poc > poc {
                Some(refs[k].poc as i64)
            } else if !after && refs[k].poc < poc {
                Some((-refs[k].poc) as i64)
            } else {
                None
            },
    )
}

/// The frames around an order count: the earlier ones, nearest first, then the
/// later ones, nearest first; the other way round for list 1.
pub open spec fn temporal(refs: Seq<RefData>, poc: i32, list1: bool) -> Seq<usize> {
    by_keys(distance_keys(refs, poc, list1)) + by_keys(distance_keys(refs, poc, !list1))
}

/// The first of these frames, leaving a place for the other view's where the
/// list has it.
pub open spec fn chosen(refs: Seq<RefData>, poc: i32, list1: bool, num: int, other: bool) -> Seq<usize> {
    at_most(
        temporal(refs, poc, list1),
        if other {
            num - 1
        } else {
            num
        },
    )
}

/// A reference list: the chosen frames, then the other view's frame of the same
/// time where the list has it.
pub open spec fn view_list(refs: Seq<RefData>, order: Seq<usize>, other: Option<Picture>, poc: i32) -> Seq<
    (Picture, i32),
> {
    let own = Seq::new(
        order.len(),
        |k: int| (refs[order[k] as int].pic, refs[order[k] as int].poc),
    );
    match other {
        Some(p) => own.push((p, poc)),
        None => own,
    }
}

/// The motion of the first frame of a list; none for the other view's frame.
pub open spec fn first_motion(refs: Seq<RefData>, order: Seq<usize>) -> MotionData {
    if order.len() > 0 {
        refs[order[0] as int].motion
    } else {
        empty_motion()
    }
}

/// The value, if it applies.
pub open spec fn only_if<A>(c: bool, v: Option<A>) -> Option<A> {
    if c {
        v
    } else {
        None
    }
}

/// The order counts of a list.
pub open spec fn pocs_of(l: Seq<(Picture, i32)>) -> Seq<i32> {
    Seq::new(l.len(), |k: int| l[k].1)
}

/// The pictures of a list.
pub open spec fn pics_of(l: Seq<(Picture, i32)>) -> Seq<Picture> {
    Seq::new(l.len(), |k: int| l[k].0)
}

/// A P frame of order count `poc` among reference frames, with the other view's
/// frame where there is one.
#[verifier::opaque]
pub open spec fn hier_p(
    slices: Seq<Seq<u8>>,
    env: SliceEnv,
    h: SliceData,
    poc: i32,
    refs: Seq<RefData>,
    other: Option<Picture>,
) -> Result<(Picture, MotionData), ClipError> {
    let n = h.fields.num_ref_idx_l0_active_minus1 + 1;
    let l0 = view_list(refs, chosen(refs, poc, false, n, other is Some), other, poc);
    if l0.len() == 0 {
        Err(ClipError::NoList0)
    } else {
        match p_view(slices, env, pics_of(l0)) {
            Err(e) => Err(e),
            Ok((p, m)) => Ok(
                (p, MotionData { refpoc: resolved(m.refidx, pocs_of(l0)), ..m }),
            ),
        }
    }
}

/// A B frame of order count `poc` among reference frames. The other view's frame
/// joins a list whose modifications ask for it.
#[verifier::opaque]
pub open spec fn hier_b(
    slices: Seq<Seq<u8>>,
    env: SliceEnv,
    h: SliceData,
    poc: i32,
    refs: Seq<RefData>,
    other: Option<Picture>,
) -> Result<(Picture, MotionData), ClipError> {
    let (n0, n1) = (
        h.fields.num_ref_idx_l0_active_minus1 + 1,
        h.fields.num_ref_idx_l1_active_minus1 + 1,
    );
    let (o0, o1) = (
        only_if(wants_other_view(h.mods.0), other),
        only_if(wants_other_view(h.mods.1), other),
    );
    let (c0, c1) = (
        chosen(refs, poc, false, n0, o0 is Some),
        chosen(refs, poc, true, n1, o1 is Some),
    );
    let (l0, l1) = (view_list(refs, c0, o0, poc), view_list(refs, c1, o1, poc));
    if l0.len() == 0 || l1.len() == 0 {
        Err(ClipError::NoReferences)
    } else {
        b_view(slices, env, l0, l1, poc, first_motion(refs, c1))
    }
}

/// A frame of order count `poc` among reference frames, by the type of its
/// first slice; intra frames leave no motion.
#[verifier::opaque]
pub open spec fn hier_view(
    slices: Seq<Seq<u8>>,
    env: SliceEnv,
    h: SliceData,
    poc: i32,
    refs: Seq<RefData>,
    other: Option<Picture>,
) -> Result<(Picture, MotionData), ClipError> {
    let t = h.fields.slice_type % 5;
    if t == 2 {
        match intra_view(slices, env) {
            Err(e) => Err(e),
            Ok(p) => Ok((p, empty_motion())),
        }
    } else if t == 0 {
        hier_p(slices, env, h, poc, refs, other)
    } else {
        hier_b(slices, env, h, poc, refs, other)
    }
}

fn keys_for(refs: &Vec<ViewRef>, poc: i32, after: bool) -> (r: Vec<Option<i64>>)
    ensures
        r@ == distance_keys(ref_data(refs@), poc, after),
{
    let mut r: Vec<Option<i64>> = Vec::new();
    let n: usize = refs.len();
    let ghost want = distance_keys(ref_data(refs@), poc, after);
    for i in 0..n
        invariant
            n == refs@.len(),
            want == distance_keys(ref_data(refs@), poc, after),
            r@.len() == i,
            forall|k: int| 0 <= k < i ==> #[trigger] r@[k] == want[k],
    {
        let p: i32 = refs[i].poc;
        r.push(
            if after && p > poc {
                Some(p as i64)
            } else if !after && p < poc {
                Some(-(p as i64))
            } else {
                None
            },
        );
    }
    assert(r@ =~= want);
    r
}

fn choose_refs(refs: &Vec<ViewRef>, poc: i32, list1: bool, num: u64, other: bool) -> (r: Vec<usize>)
    requires
        num >= 1,
    ensures
        r@ == chosen(ref_data(refs@), poc, list1, num as int, other),
        forall|k: int| 0 <= k < r@.len() ==> (#[trigger] r@[k]) < refs@.len(),
{
    let a = keys_for(refs, poc, list1);
    let b = keys_for(refs, poc, !list1);
    let mut r = rank(&a);
    let mut s = rank(&b);
    proof {
        let n = refs.len();
        law_ranked(a@, n as int);
        law_ranked(b@, n as int);
    }
    r.append(&mut s);
    assert(r@ =~= temporal(ref_data(refs@), poc, list1));
    let cap: u64 = if other {
        num - 1
    } else {
        num
    };
    if r.len() as u64 > cap {
        let ghost was = r@;
        r.truncate(cap as usize);
        assert(r@ =~= was.take(cap as int));
    }
    r
}

fn list_of<'a>(refs: &'a Vec<ViewRef>, order: &Vec<usize>, other: Option<&'a Frame>, poc: i32) -> (r: Vec<(&'a Frame, i32)>)
    requires
        forall|k: int| 0 <= k < order@.len() ==> (#[trigger] order@[k]) < refs@.len(),
    ensures
        listed(r@) == view_list(ref_data(refs@), order@, opt_picture(other), poc),
{
    let mut r: Vec<(&'a Frame, i32)> = Vec::new();
    let n: usize = order.len();
    for i in 0..n
        invariant
            n == order@.len(),
            forall|k: int| 0 <= k < order@.len() ==> (#[trigger] order@[k]) < refs@.len(),
            r@.len() == i,
            forall|k: int|
                0 <= k < i ==> (#[trigger] r@[k]).0@ == refs@[order@[k] as int].frame@ && r@[k].1
                    == refs@[order@[k] as int].poc,
    {
        let k: usize = order[i];
        r.push((&refs[k].frame, refs[k].poc));
    }
    match other {
        Some(f) => {
            r.push((f, poc));
        },
        None => {},
    }
    assert(listed(r@) =~= view_list(ref_data(refs@), order@, opt_picture(other), poc));
    r
}

/// An optional frame.
pub open spec fn opt_picture(f: Option<&Frame>) -> Option<Picture> {
    match f {
        Some(x) => Some(x@),
        None => None,
    }
}

fn only_frames<'a>(l: &Vec<(&'a Frame, i32)>) -> (r: (Vec<&'a Frame>, Vec<i32>))
    ensures
        pictures(r.0@) == pics_of(listed(l@)),
        r.0@.len() == l@.len(),
        forall|k: int| 0 <= k < l@.len() ==> #[trigger] r.0@[k] == l@[k].0,
        r.1@ == pocs_of(listed(l@)),
{
    let mut f: Vec<&'a Frame> = Vec::new();
    let mut p: Vec<i32> = Vec::new();
    let n: usize = l.len();
    for i in 0..n
        invariant
            n == l@.len(),
            f@.len() == i,
            p@.len() == i,
            forall|k: int| 0 <= k < i ==> #[trigger] f@[k] == l@[k].0,
            forall|k: int| 0 <= k < i ==> #[trigger] p@[k] == l@[k].1,
    {
        f.push(l[i].0);
        p.push(l[i].1);
    }
    assert(pictures(f@) =~= pics_of(listed(l@)));
    assert(p@ =~= pocs_of(listed(l@)));
    (f, p)
}

fn decode_hier_p(
    slices: &[&[u8]],
    nal_ref_idc: u8,
    idr: bool,
    h: &SliceHeader,
    poc: i32,
    sps: &Sps,
    pps: &Pps,
    refs: &Vec<ViewRef>,
    other: Option<&Frame>,
) -> (r: Result<(Frame, MotionField), ClipError>)
    requires
        widths_ok(*sps),
    ensures
        ({
            let env = SliceEnv { idr, nal_ref_idc, sps: *sps, pps: *pps };
            let want = hier_p(
                bytes_of(slices@),
                env,
                h@,
                poc,
                ref_data(refs@),
                opt_picture(other),
            );
            match r {
                Ok((f, m)) => want == Ok::<(Picture, MotionData), ClipError>((f@, m@)) && sized_for(
                    f,
                    *sps,
                ),
                Err(e) => want == Err::<(Picture, MotionData), ClipError>(e),
            }
        }),
{
    proof {
        reveal(hier_p);
    }
    let n: u64 = h.num_ref_idx_l0_active_minus1 as u64 + 1;
    let order = choose_refs(refs, poc, false, n, other.is_some());
    if order.len() == 0 && other.is_none() {
        return Err(ClipError::NoList0);
    }
    let l0 = list_of(refs, &order, other, poc);
    let (frames, pocs) = only_frames(&l0);
    let (f, m) = decode_p_view(slices, nal_ref_idc, idr, sps, pps, frames.as_slice())?;
    let mut m = m;
    m.resolve_refpoc(pocs.as_slice());
    Ok((f, m))
}

fn decode_hier_b(
    slices: &[&[u8]],
    nal_ref_idc: u8,
    idr: bool,
    h: &SliceHeader,
    poc: i32,
    sps: &Sps,
    pps: &Pps,
    refs: &Vec<ViewRef>,
    other: Option<&Frame>,
) -> (r: Result<(Frame, MotionField), ClipError>)
    requires
        widths_ok(*sps),
    ensures
        ({
            let env = SliceEnv { idr, nal_ref_idc, sps: *sps, pps: *pps };
            let want = hier_b(
                bytes_of(slices@),
                env,
                h@,
                poc,
                ref_data(refs@),
                opt_picture(other),
            );
            match r {
                Ok((f, m)) => want == Ok::<(Picture, MotionData), ClipError>((f@, m@)) && sized_for(
                    f,
                    *sps,
                ),
                Err(e) => want == Err::<(Picture, MotionData), ClipError>(e),
            }
        }),
{
    proof {
        reveal(hier_b);
    }
    let n0: u64 = h.num_ref_idx_l0_active_minus1 as u64 + 1;
    let n1: u64 = h.num_ref_idx_l1_active_minus1 as u64 + 1;
    let o0: Option<&Frame> = if asks_other_view(&h.ref_pic_list_modifications.list0) {
        other
    } else {
        None
    };
    let o1: Option<&Frame> = if asks_other_view(&h.ref_pic_list_modifications.list1) {
        other
    } else {
        None
    };
    let c0 = choose_refs(refs, poc, false, n0, o0.is_some());
    let c1 = choose_refs(refs, poc, true, n1, o1.is_some());
    if (c0.len() == 0 && o0.is_none()) || (c1.len() == 0 && o1.is_none()) {
        return Err(ClipError::NoReferences);
    }
    let l0 = list_of(refs, &c0, o0, poc);
    let l1 = list_of(refs, &c1, o1, poc);
    let none = MotionField::empty();
    let col: &MotionField = if c1.len() > 0 {
        &refs[c1[0]].motion
    } else {
        &none
    };
    assert(col@ == first_motion(ref_data(refs@), c1@));
    decode_b_view(
        slices,
        nal_ref_idc,
        idr,
        sps,
        pps,
        l0.as_slice(),
        l1.as_slice(),
        poc,
        col,
    )
}

/// Decode and deblock a frame of order count `poc` among reference frames:
/// `other` is the other view's frame where the frame may refer to it.
pub fn decode_hier_view(
    slices: &[&[u8]],
    nal_ref_idc: u8,
    idr: bool,
    h: &SliceHeader,
    poc: i32,
    sps: &Sps,
    pps: &Pps,
    refs: &Vec<ViewRef>,
    other: Option<&Frame>,
) -> (r: Result<(Frame, MotionField), ClipError>)
    requires
        widths_ok(*sps),
    ensures
        ({
            let env = SliceEnv { idr, nal_ref_idc, sps: *sps, pps: *pps };
            let want = hier_view(
                bytes_of(slices@),
                env,
                h@,
                poc,
                ref_data(refs@),
                opt_picture(other),
            );
            match r {
                Ok((f, m)) => want == Ok::<(Picture, MotionData), ClipError>((f@, m@)) && sized_for(
                    f,
                    *sps,
                ),
                Err(e) => want == Err::<(Picture, MotionData), ClipError>(e),
            }
        }),
{
    proof {
        reveal(hier_view);
    }
    let t: u32 = h.slice_type % 5;
    if t == 2 {
        let f = decode_intra_view(slices, nal_ref_idc, idr, sps, pps)?;
        Ok((f, MotionField::empty()))
    } else if t == 0 {
        decode_hier_p(slices, nal_ref_idc, idr, h, poc, sps, pps, refs, other)
    } else {
        decode_hier_b(slices, nal_ref_idc, idr, h, poc, sps, pps, refs, other)
    }
}

} // verus!

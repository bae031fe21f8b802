//! Streams of access units: what each NAL unit does, which frames a frame refers to,
//! which pairs come out, and how pairs are packed.

use crate::mvc::clip::au::{coded, empty_au, fed, start_of, AuData, Gathered};
use crate::mvc::clip::hier::{
    advanced, base_view, bumped, completed, dep_view, flushed, hier_end, hier_step, lowest, lsb_count,
    msb_after, restarted, window, with_base, with_ref, HierData,
};
use crate::mvc::clip::pack::{
    crop_fits, cropped_yuv420, fsbs, fsbs_cb, fsbs_cr, fsbs_luma, fsbs_nv12, fsbs_yuv420, rows,
    rows_beside, FsbsPixFmt,
};
use crate::mvc::clip::sliding::{named, sliding_base, sliding_dep, sliding_step, SlidingData};
use crate::mvc::clip::stream::{base_env, dep_env, paired, Pair, Sets};
use crate::mvc::clip::view::{
    b_view, chosen, distance_keys, first_motion, header_of, hier_b, hier_p, hier_view, intra_view,
    p_view, temporal, view_list, wants_other_view, RefData,
};
use crate::mvc::clip::{
    begun, enough, has_b, idr_count, info_of, phase_end, phase_step, route_of, route_step, sets_of,
    ClipError, ClipInfo, PhaseData, RouteData,
};
use crate::mvc::clip::dep_list::DRef;
use crate::mvc::loop_filter::{deblocked, MotionKind};
use crate::mvc::nal::nal_header;
use crate::mvc::pps::{pps_data, pps_of};
use crate::mvc::rbsp::unescaped;
use crate::mvc::recon::{intra_frame, Frame, Picture, SliceEnv};
use crate::mvc::recon_inter::{
    b_env, b_motion, colocated_motion, empty_motion, inter_frame, p_env, p_motion, MotionData,
};
use crate::mvc::ref_pic_list_modification::Mods;
use crate::mvc::reflist::{by_keys, law_ranked, precedes};
use crate::mvc::slice_header::SliceData;
use crate::mvc::sps::{sps_data, sps_of, subset_sps};
use crate::mvc::clip::dep_list::dep_l0;
use crate::mvc::clip::sliding::{all_held, named_all};
use crate::mvc::clip::{clip_step, last_step, route_run, ClipData};
use crate::mvc::clip::view::{pics_of, pocs_of};
use crate::mvc::recon_inter::resolved;
use crate::mvc::slice_header::slice_data;
use vstd::prelude::*;

verus! {

// ---- packing ----

proof fn lemma_rows_at(p: Seq<u8>, stride: int, w: int, n: int, k: int, x: int)
    requires
        0 <= x < w <= stride,
        0 <= k < n,
        (n - 1) * stride + w <= p.len(),
    ensures
        rows(p, stride, w, n).len() == n * w,
        0 <= k * w + x < n * w,
        rows(p, stride, w, n)[k * w + x] == p[k * stride + x],
    decreases n,
{
    let m = n - 1;
    assert(m * stride >= 0 && (m > 0 ==> (m - 1) * stride + stride == m * stride)) by (nonlinear_arith)
        requires
            m >= 0,
            stride >= 0,
    ;
    assert(n * w == m * w + w) by (nonlinear_arith)
        requires
            n == m + 1,
    ;
    assert(m * w >= 0) by (nonlinear_arith)
        requires
            m >= 0,
            w >= 0,
    ;
    if k < m {
        lemma_rows_at(p, stride, w, m, k, x);
    } else {
        if m > 0 {
            lemma_rows_at(p, stride, w, m, 0, x);
        } else {
            assert(m * w == 0) by (nonlinear_arith)
                requires
                    m == 0,
            ;
            assert(rows(p, stride, w, m) =~= Seq::empty());
        }
    }
}

/// A cropped plane holds the upper left part of each row, row by row.
pub proof fn law_cropped_rows(p: Seq<u8>, stride: int, w: int, n: int, k: int, x: int)
    requires
        0 <= x < w <= stride,
        0 <= k < n,
        (n - 1) * stride + w <= p.len(),
    ensures
        rows(p, stride, w, n).len() == n * w,
        rows(p, stride, w, n)[k * w + x] == p[k * stride + x],
{
    lemma_rows_at(p, stride, w, n, k, x);
}

/// A cropped frame: luma, then Cb and Cr of half the size.
pub proof fn law_cropped_frame(f: Frame, w: int, h: int)
    ensures
        cropped_yuv420(f, w, h) == rows(f.y@, f.fw as int, w, h) + rows(
            f.cb@,
            f.cw as int,
            w / 2,
            h / 2,
        ) + rows(f.cr@, f.cw as int, w / 2, h / 2),
{
}

/// Rows of two planes beside each other: the left one's samples, then the right
/// one's, in every row.
pub proof fn law_rows_beside(
    l: Seq<u8>,
    sl: int,
    r: Seq<u8>,
    sr: int,
    w: int,
    n: int,
    k: int,
    x: int,
)
    requires
        0 <= x < w <= sl,
        w <= sr,
        0 <= k < n,
        (n - 1) * sl + w <= l.len(),
        (n - 1) * sr + w <= r.len(),
    ensures
        rows_beside(l, sl, r, sr, w, n).len() == n * (2 * w),
        0 <= k * (2 * w) && k * (2 * w) + 2 * w <= n * (2 * w),
        rows_beside(l, sl, r, sr, w, n)[k * (2 * w) + x] == l[k * sl + x],
        rows_beside(l, sl, r, sr, w, n)[k * (2 * w) + w + x] == r[k * sr + x],
    decreases n,
{
    let m = n - 1;
    assert(m * sl >= 0 && m * sr >= 0 && (m > 0 ==> (m - 1) * sl + sl == m * sl && (m - 1) * sr + sr
        == m * sr)) by (nonlinear_arith)
        requires
            m >= 0,
            sl >= 0,
            sr >= 0,
    ;
    assert(n * (2 * w) == m * (2 * w) + 2 * w) by (nonlinear_arith)
        requires
            n == m + 1,
    ;
    assert(m * (2 * w) >= 0 && k * (2 * w) >= 0) by (nonlinear_arith)
        requires
            m >= 0,
            k >= 0,
            w >= 0,
    ;
    if k < m {
        law_rows_beside(l, sl, r, sr, w, m, k, x);
    } else if m > 0 {
        law_rows_beside(l, sl, r, sr, w, m, 0, x);
    } else {
        assert(m * (2 * w) == 0) by (nonlinear_arith)
            requires
                m == 0,
        ;
        assert(rows_beside(l, sl, r, sr, w, m) =~= Seq::empty());
    }
}

/// A packed pair has the first frame on the left and the second on the right, luma
/// first, then Cb before Cr; each plane is twice as wide as the picture.
pub proof fn law_packed_planes(l: Frame, r: Frame, w: int, h: int, k: int, x: int)
    requires
        0 <= x < w,
        0 <= k < h,
        w <= l.fw,
        w <= r.fw,
        crop_fits(l, w, h),
        crop_fits(r, w, h),
    ensures
        fsbs_luma(l, r, w, h)[k * (2 * w) + x] == l.y@[k * l.fw + x],
        fsbs_luma(l, r, w, h)[k * (2 * w) + w + x] == r.y@[k * r.fw + x],
        fsbs_luma(l, r, w, h).len() == h * (2 * w),
        fsbs_yuv420(l, r, w, h) == fsbs_luma(l, r, w, h) + fsbs_cb(l, r, w, h) + fsbs_cr(l, r, w, h),
        fsbs(l, r, w, h, FsbsPixFmt::Yuv420p) == fsbs_yuv420(l, r, w, h),
        fsbs(l, r, w, h, FsbsPixFmt::Nv12) == fsbs_nv12(l, r, w, h),
{
    law_rows_beside(l.y@, l.fw as int, r.y@, r.fw as int, w, h, k, x);
}

/// The chroma planes of a packed pair, of half the size: Cb from both Cb planes, Cr
/// from both Cr planes.
pub proof fn law_packed_chroma(l: Frame, r: Frame, w: int, h: int, k: int, x: int)
    requires
        0 <= x < w / 2,
        0 <= k < h / 2,
        w / 2 <= l.cw,
        w / 2 <= r.cw,
        crop_fits(l, w, h),
        crop_fits(r, w, h),
    ensures
        ({
            let c = w / 2;
            &&& fsbs_cb(l, r, w, h)[k * (2 * c) + x] == l.cb@[k * l.cw + x]
            &&& fsbs_cb(l, r, w, h)[k * (2 * c) + c + x] == r.cb@[k * r.cw + x]
            &&& fsbs_cr(l, r, w, h)[k * (2 * c) + x] == l.cr@[k * l.cw + x]
            &&& fsbs_cr(l, r, w, h)[k * (2 * c) + c + x] == r.cr@[k * r.cw + x]
        }),
{
    law_rows_beside(l.cb@, l.cw as int, r.cb@, r.cw as int, w / 2, h / 2, k, x);
    law_rows_beside(l.cr@, l.cw as int, r.cr@, r.cw as int, w / 2, h / 2, k, x);
}

// ---- NAL units ----

/// What a NAL unit does, by its type: 9 ends the access unit, 7 and 15 bring the
/// sequence parameter sets of the two views, 8 a picture parameter set for the view
/// whose sequence it names, 1 and 5 slices of the base view, 20 slices of the
/// dependent view; all others are passed over, and so is one without a header.
pub proof fn law_nal_types(a: Gathered, nal: Seq<u8>)
    ensures
        nal_header(nal) is Err ==> fed(a, nal) == Ok::<
            (Gathered, Option<AuData>),
            crate::mvc::bitstream::ReadError,
        >((a, None)),
        nal_header(nal) matches Ok((h, n)) ==> {
            let t = h.nal_unit_type;
            let r = fed(a, nal);
            let x = r->Ok_0.0;
            let done = r->Ok_0.1;
            let rbsp = unescaped(nal.skip(n as int), 0);
            let s = sps_data(start_of(rbsp));
            let d = subset_sps(start_of(rbsp));
            &&& t == 9 ==> r is Ok && x.cur == Some(empty_au()) && done == coded(a.cur)
            &&& t == 7 && s.1.err is None ==> r is Ok && done is None && x.bsps == Some(sps_of(s.0))
                && x.dsps == a.dsps && x.cur == a.cur && x.bpps == a.bpps && x.dpps == a.dpps
            &&& t == 15 && d.1.err is None ==> r is Ok && done is None && x.dsps == Some(
                sps_of(d.0.0),
            ) && x.bsps == a.bsps && x.cur == a.cur && x.dep_sps_id == Some(
                sps_of(d.0.0).seq_parameter_set_id,
            )
            &&& t == 1 || t == 5 ==> r is Ok && x.cur is Some && x.bsps == a.bsps && x.dsps == a.dsps
            &&& t == 20 ==> r is Ok && done is None && x.cur is Some
            &&& !(t == 1 || t == 5 || t == 7 || t == 8 || t == 9 || t == 15 || t == 20) ==> r == Ok::<
                (Gathered, Option<AuData>),
                crate::mvc::bitstream::ReadError,
            >((a, None))
        },
{
    reveal(fed);
}

/// A picture parameter set belongs to the dependent view where it names that view's
/// sequence parameter set, and to the base view otherwise.
pub proof fn law_picture_sets_by_view(a: Gathered, nal: Seq<u8>)
    requires
        nal_header(nal) is Ok,
        nal_header(nal)->Ok_0.0.nal_unit_type == 8,
    ensures
        ({
            let rbsp = unescaped(nal.skip(nal_header(nal)->Ok_0.1), 0);
            let chroma = match a.bsps {
                Some(s) => s.chroma_format_idc,
                None => 1u32,
            };
            let (d, c) = pps_data(start_of(rbsp), chroma);
            let p = pps_of(d);
            let r = fed(a, nal);
            &&& c.err is Some ==> r is Err
            &&& c.err is None ==> r is Ok && r->Ok_0.1 is None && r->Ok_0.0.cur == a.cur
            &&& c.err is None && a.dep_sps_id == Some(p.seq_parameter_set_id) ==> r->Ok_0.0.dpps
                == Some(p) && r->Ok_0.0.bpps == a.bpps
            &&& c.err is None && a.dep_sps_id != Some(p.seq_parameter_set_id) ==> r->Ok_0.0.bpps
                == Some(p) && r->Ok_0.0.dpps == a.dpps
        }),
{
    reveal(fed);
}

/// A slice of the base view starts an access unit where the last one has both views,
/// and joins it otherwise; type 5 marks an IDR picture. The picture parameter set in
/// force stays with the unit.
pub proof fn law_base_slices(a: Gathered, nal: Seq<u8>)
    requires
        nal_header(nal) is Ok,
        nal_header(nal)->Ok_0.0.nal_unit_type == 1 || nal_header(nal)->Ok_0.0.nal_unit_type == 5,
    ensures
        ({
            let (h, n) = nal_header(nal)->Ok_0;
            let rbsp = unescaped(nal.skip(n), 0);
            let r = fed(a, nal)->Ok_0;
            let u = r.0.cur->0;
            let full = a.cur matches Some(x) && x.base.len() > 0 && x.dep.len() > 0;
            &&& fed(a, nal) is Ok && r.0.cur is Some
            &&& u.base_idr == (h.nal_unit_type == 5) && u.base_idc == h.nal_ref_idc
            &&& a.cur is None || full ==> u.base == seq![rbsp] && u.dep.len() == 0 && u.bpps
                == a.bpps && u.dpps is None
            &&& full ==> r.1 == a.cur
            &&& a.cur is Some && !full ==> r.1 is None && u.base == (a.cur->0).base.push(rbsp)
                && u.dep == (a.cur->0).dep
        }),
{
    reveal(fed);
    let rbsp = unescaped(nal.skip(nal_header(nal)->Ok_0.1), 0);
    assert(Seq::<Seq<u8>>::empty().push(rbsp) =~= seq![rbsp]);
}

/// A slice of the dependent view joins the access unit, with the flags of its NAL unit
/// header.
pub proof fn law_dependent_slices(a: Gathered, nal: Seq<u8>)
    requires
        nal_header(nal) is Ok,
        nal_header(nal)->Ok_0.0.nal_unit_type == 20,
        a.cur is Some,
    ensures
        ({
            let (h, n) = nal_header(nal)->Ok_0;
            let rbsp = unescaped(nal.skip(n), 0);
            let r = fed(a, nal)->Ok_0;
            let (u, w) = (r.0.cur->0, a.cur->0);
            &&& fed(a, nal) is Ok && r.1 is None && r.0.cur is Some
            &&& u.dep == w.dep.push(rbsp) && u.base == w.base && u.base_idr == w.base_idr
            &&& u.dep_idc == h.nal_ref_idc
            &&& h.mvc_extension matches Some(x) ==> u.dep_idr == !x.non_idr_flag && u.dep_anchor
                == x.anchor_pic_flag
            &&& w.dpps is Some ==> u.dpps == w.dpps
            &&& w.dpps is None ==> u.dpps == a.dpps
        }),
{
    reveal(fed);
}

/// An access unit without a base slice does not count.
pub proof fn law_empty_units(u: AuData)
    ensures
        u.base.len() == 0 ==> coded(Some(u)) is None,
        u.base.len() > 0 ==> coded(Some(u)) == Some(u),
        coded(None) is None,
{
}

// ---- references ----

proof fn lemma_entry(keys: Seq<Option<i64>>, a: int)
    requires
        keys.len() <= usize::MAX,
    ensures
        0 <= a < by_keys(keys).len() ==> by_keys(keys)[a] < keys.len() && keys[by_keys(keys)[a] as int]
            is Some,
{
    law_ranked(keys, keys.len() as int);
}

/// The frames around an order count: for list 0 the earlier ones, the nearest first,
/// then the later ones, the nearest first; for list 1 the later ones come first.
pub proof fn law_frames_by_distance(refs: Seq<RefData>, poc: i32, list1: bool, a: int, b: int)
    requires
        refs.len() <= usize::MAX,
        0 <= a < b < temporal(refs, poc, list1).len(),
    ensures
        ({
            let l = temporal(refs, poc, list1);
            let (p, q) = (refs[l[a] as int].poc, refs[l[b] as int].poc);
            &&& l[a] < refs.len() && l[b] < refs.len()
            &&& p != poc && q != poc
            &&& !list1 && p > poc ==> q > poc
            &&& list1 && p < poc ==> q < poc
            &&& p < poc && q < poc ==> p >= q
            &&& p > poc && q > poc ==> p <= q
        }),
{
    let (s, t) = (distance_keys(refs, poc, list1), distance_keys(refs, poc, !list1));
    law_ranked(s, s.len() as int);
    law_ranked(t, t.len() as int);
    let (x, y) = (by_keys(s), by_keys(t));
    lemma_entry(s, a);
    lemma_entry(s, b);
    lemma_entry(t, a - x.len());
    lemma_entry(t, b - x.len());
    if b < x.len() {
        assert(precedes(s, x[a] as int, x[b] as int));
    } else if a >= x.len() {
        assert(precedes(t, y[a - x.len()] as int, y[b - x.len()] as int));
    }
}

/// A list has as many frames as the slice says; the other view's frame takes the last
/// place, with the order count of the frame itself.
pub proof fn law_list_with_other_view(
    refs: Seq<RefData>,
    poc: i32,
    list1: bool,
    num: int,
    other: Picture,
)
    requires
        num >= 1,
    ensures
        ({
            let all = temporal(refs, poc, list1);
            let own = chosen(refs, poc, list1, num, false);
            let less = chosen(refs, poc, list1, num, true);
            let l = view_list(refs, less, Some(other), poc);
            &&& own.len() <= num && less.len() <= num - 1
            &&& own.len() == (if all.len() < num {
                all.len() as int
            } else {
                num
            })
            &&& forall|k: int| 0 <= k < own.len() ==> #[trigger] own[k] == all[k]
            &&& forall|k: int| 0 <= k < less.len() ==> #[trigger] less[k] == all[k]
            &&& l.len() == less.len() + 1
            &&& l.last() == (other, poc)
            &&& forall|k: int|
                0 <= k < less.len() ==> (#[trigger] l[k]) == (
                    refs[less[k] as int].pic,
                    refs[less[k] as int].poc,
                )
            &&& view_list(refs, own, None, poc).len() == own.len()
        }),
{
}

/// A list takes the other view's frame where one of its modifications is one of
/// views.
pub proof fn law_other_view_is_asked_for(m: Mods)
    ensures
        m is None ==> !wants_other_view(m),
        m matches Some(l) ==> (wants_other_view(m) <==> exists|k: int|
            0 <= k < l.len() && ((#[trigger] l[k]) is InterViewAdd || l[k] is InterViewSub)),
{
}

/// A frame is decoded by the type of its first slice: intra without motion, P with
/// list 0, or B with both lists.
pub proof fn law_frame_types(
    slices: Seq<Seq<u8>>,
    env: SliceEnv,
    h: SliceData,
    poc: i32,
    refs: Seq<RefData>,
    other: Option<Picture>,
)
    ensures
        ({
            let t = h.fields.slice_type;
            let r = hier_view(slices, env, h, poc, refs, other);
            &&& (t == 2 || t == 7) && intra_view(slices, env) is Ok ==> r == Ok::<
                (Picture, MotionData),
                ClipError,
            >((intra_view(slices, env)->Ok_0, empty_motion()))
            &&& (t == 0 || t == 5) ==> r == hier_p(slices, env, h, poc, refs, other)
            &&& (t == 1 || t == 6) ==> r == hier_b(slices, env, h, poc, refs, other)
        }),
{
    reveal(hier_view);
}

/// A P frame without any reference and a B frame without one in a list are errors; a
/// B frame has the motion of the first frame of list 1 beside it.
pub proof fn law_frames_need_references(
    slices: Seq<Seq<u8>>,
    env: SliceEnv,
    h: SliceData,
    poc: i32,
    refs: Seq<RefData>,
)
    ensures
        refs.len() == 0 ==> hier_p(slices, env, h, poc, refs, None) == Err::<
            (Picture, MotionData),
            ClipError,
        >(ClipError::NoList0),
        refs.len() == 0 ==> hier_b(slices, env, h, poc, refs, None) == Err::<
            (Picture, MotionData),
            ClipError,
        >(ClipError::NoReferences),
        first_motion(refs, Seq::empty()) == empty_motion(),
        forall|o: Seq<usize>|
            o.len() > 0 ==> #[trigger] first_motion(refs, o) == refs[o[0] as int].motion,
{
    reveal(hier_p);
    reveal(hier_b);
    if refs.len() == 0 {
        assert(distance_keys(refs, poc, false) =~= Seq::empty());
        assert(distance_keys(refs, poc, true) =~= Seq::empty());
        assert(by_keys(Seq::empty()) =~= Seq::empty());
        assert(temporal(refs, poc, false) =~= Seq::empty());
        assert(temporal(refs, poc, true) =~= Seq::empty());
    }
}

/// Decoded frames are deblocked by their own motion: intra frames as such, P frames
/// by one list, B frames by two; a B frame leaves its co-located motion behind.
pub proof fn law_frames_are_deblocked(
    slices: Seq<Seq<u8>>,
    env: SliceEnv,
    refs: Seq<Picture>,
    l0: Seq<(Picture, i32)>,
    l1: Seq<(Picture, i32)>,
    poc: i32,
    col: MotionData,
)
    ensures
        ({
            let off = env.pps.chroma_qp_index_offset as int;
            let ie = b_env(env, l0, l1, poc, col, (32, 32));
            &&& intra_frame(slices, env) matches Ok(p) ==> intra_view(slices, env) == Ok::<
                Picture,
                ClipError,
            >(deblocked(p, MotionKind::Intra, off))
            &&& inter_frame(slices, p_env(env, refs)) matches Ok((p, j)) ==> p_view(slices, env, refs)
                == Ok::<(Picture, MotionData), ClipError>(
                (deblocked(p, MotionKind::Single(p_motion(j, env)), off), p_motion(j, env)),
            )
            &&& inter_frame(slices, ie) matches Ok((p, j)) ==> b_view(slices, env, l0, l1, poc, col)
                == Ok::<(Picture, MotionData), ClipError>(
                (
                    deblocked(p, MotionKind::Double(b_motion(j, ie)), off),
                    colocated_motion(b_motion(j, ie)),
                ),
            )
        }),
{
    reveal(intra_view);
    reveal(p_view);
    reveal(b_view);
}

/// A view's slices are read with its own parameter sets: the access unit's picture
/// parameter set, else the last one of the stream.
pub proof fn law_sets_by_view(au: AuData, sets: Sets)
    ensures
        base_env(au, sets).sps == sets.bsps && dep_env(au, sets).sps == sets.dsps,
        base_env(au, sets).idr == au.base_idr && dep_env(au, sets).idr == au.dep_idr,
        base_env(au, sets).nal_ref_idc == au.base_idc && dep_env(au, sets).nal_ref_idc == au.dep_idc,
        au.bpps matches Some(p) ==> base_env(au, sets).pps == p,
        au.bpps is None ==> base_env(au, sets).pps == sets.bpps,
        au.dpps matches Some(p) ==> dep_env(au, sets).pps == p,
        au.dpps is None ==> dep_env(au, sets).pps == sets.dpps,
{
}

// ---- sliding windows ----

/// In a stream without B frames each access unit gives one pair; the windows take the
/// new frames in front and keep as many as the sequence allows, at least one.
pub proof fn law_sliding_step(s: SlidingData, au: AuData, sets: Sets)
    requires
        sliding_step(s, au, sets) is Ok,
    ensures
        ({
            let (t, p) = sliding_step(s, au, sets)->Ok_0;
            let n = if sets.bsps.max_num_ref_frames == 0 {
                1
            } else {
                sets.bsps.max_num_ref_frames as int
            };
            &&& sliding_base(au, sets, s.base) == Ok::<Picture, ClipError>(p.base)
            &&& sliding_dep(au, sets, s.dep, p.base) == Ok::<Picture, ClipError>(p.dep)
            &&& p.width == sets.bsps.width && p.height == sets.bsps.height
            &&& t.base.len() == (if s.base.len() + 1 < n {
                s.base.len() as int + 1
            } else {
                n
            })
            &&& t.base[0] == p.base && t.dep[0] == p.dep
            &&& forall|k: int| 0 < k < t.base.len() ==> #[trigger] t.base[k] == s.base[k - 1]
            &&& forall|k: int| 0 < k < t.dep.len() ==> #[trigger] t.dep[k] == s.dep[k - 1]
        }),
{
    reveal(sliding_step);
}

/// What the entries of the dependent view's list name: the base frame, or its own
/// frame so many back.
pub proof fn law_named_references(last: Seq<Picture>, base: Picture, k: u64)
    ensures
        named(DRef::InterView, last, base) == base,
        named(DRef::Temporal(k), last, base) == last[k as int],
{
}

// ---- display order ----

/// References are kept in decoding order, the oldest leaving first; a stream with B
/// frames keeps at least two.
pub proof fn law_reference_window(refs: Seq<RefData>, r: RefData, cap: int, sets: Sets)
    requires
        cap >= 1,
        refs.len() <= cap,
    ensures
        with_ref(refs, r, cap).last() == r,
        refs.len() < cap ==> with_ref(refs, r, cap) == refs.push(r),
        refs.len() == cap ==> with_ref(refs, r, cap) == refs.push(r).skip(1),
        sets.bsps.max_num_ref_frames >= 2 ==> window(sets) == sets.bsps.max_num_ref_frames,
        sets.bsps.max_num_ref_frames < 2 ==> window(sets) == 2,
{
}

/// A base frame takes its order count from its slice: the low part as coded, the high
/// part carried on from the last reference, both from zero in an IDR picture. Only
/// reference frames are kept and carry the count on.
pub proof fn law_base_frame(
    s: HierData,
    au: AuData,
    h: SliceData,
    sets: Sets,
    p: Picture,
    m: MotionData,
)
    ensures
        ({
            let t = with_base(s, au, h, sets, p, m);
            let lsb = match h.fields.pic_order_cnt_lsb {
                Some(v) => v as i32,
                None => 0i32,
            };
            let msb = if au.base_idr {
                0i32
            } else {
                msb_after(s.msb, s.lsb, lsb, lsb_count(sets.bsps))
            };
            let poc = msb.wrapping_add(lsb);
            let x = t.held->0;
            &&& t.held is Some && x.poc == poc && x.base == p && x.au == au
            &&& au.base_idc == 0 ==> t.brefs == s.brefs && t.msb == s.msb && t.lsb == s.lsb
            &&& au.base_idc != 0 ==> t.msb == msb && t.lsb == lsb && t.brefs == with_ref(
                s.brefs,
                RefData { poc, pic: p, motion: m },
                window(sets),
            )
            &&& s.first is None ==> t.first == Some(poc) && !x.leading
            &&& s.first matches Some(f) ==> t.first == s.first && (x.leading <==> !s.seen_idr && poc
                < f)
            &&& t.waiting == s.waiting && t.drefs == s.drefs
        }),
{
}

/// The high part of an order count goes up where the low part wraps around forwards,
/// and down where it does so backwards.
pub proof fn law_high_part(msb: i32, last: i32, lsb: i32, max: i32)
    requires
        max > 0,
        max % 2 == 0,
        max <= 0x1_0000,
        0 <= last < max,
        0 <= lsb < max,
        -0x4000_0000 <= msb <= 0x4000_0000,
    ensures
        2 * (last - lsb) >= max ==> msb_after(msb, last, lsb, max) == msb + max,
        2 * (lsb - last) > max ==> msb_after(msb, last, lsb, max) == msb - max,
        2 * (last - lsb) < max && 2 * (lsb - last) <= max ==> msb_after(msb, last, lsb, max) == msb,
{
}

/// A waiting base frame is joined by its dependent frame. The pair waits for its turn
/// unless it leads the stream's first frame; reference frames are kept.
pub proof fn law_completed_pair(s: HierData, sets: Sets)
    requires
        completed(s, sets) is Ok,
    ensures
        s.held is None ==> completed(s, sets) == Ok::<(HierData, Seq<Pair>), ClipError>(
            (s, Seq::empty()),
        ),
        s.held matches Some(h) ==> {
            let (t, out) = completed(s, sets)->Ok_0;
            let v = dep_view(h.au, sets, h.poc, s.drefs, h.base);
            let (d, m) = v->Ok_0;
            let more = if h.leading {
                s.waiting
            } else {
                s.waiting.push((h.poc, paired(h.base, d, sets)))
            };
            &&& v is Ok
            &&& t.held is None
            &&& (t.waiting, out) == bumped(more, window(sets), Seq::empty())
            &&& h.au.dep_idc == 0 ==> t.drefs == s.drefs
            &&& h.au.dep_idc != 0 ==> t.drefs == with_ref(
                s.drefs,
                RefData { poc: h.poc, pic: d, motion: m },
                window(sets),
            )
            &&& h.leading ==> t.frames == s.frames
            &&& !h.leading && s.frames < usize::MAX ==> t.frames == s.frames + 1
            &&& t.brefs == s.brefs && t.msb == s.msb && t.lsb == s.lsb && t.first == s.first
        },
{
    reveal(completed);
}

/// An IDR picture starts anew: no references, no waiting pairs, order counts from
/// zero.
pub proof fn law_restart(s: HierData)
    ensures
        ({
            let t = restarted(s);
            &&& t.brefs.len() == 0 && t.drefs.len() == 0 && t.waiting.len() == 0
            &&& t.msb == 0 && t.lsb == 0
            &&& t.first is None && t.seen_idr
            &&& t.frames == s.frames && t.held == s.held
        }),
{
}

proof fn lemma_first_lowest(w: Seq<(i32, Pair)>, n: int)
    requires
        1 <= n <= w.len(),
    ensures
        0 <= lowest(w, n) < n,
        forall|k: int| 0 <= k < lowest(w, n) ==> w[lowest(w, n)].0 < (#[trigger] w[k]).0,
        forall|k: int| 0 <= k < n ==> w[lowest(w, n)].0 <= (#[trigger] w[k]).0,
    decreases n,
{
    if n > 1 {
        lemma_first_lowest(w, n - 1);
    }
}

/// As long as too many pairs wait, the one with the smallest order count goes.
pub proof fn law_bumping(w: Seq<(i32, Pair)>, cap: int, out: Seq<Pair>, j: int)
    requires
        0 <= j < w.len(),
    ensures
        w.len() <= cap ==> bumped(w, cap, out) == (w, out),
        w.len() > cap ==> {
            let k = lowest(w, w.len() as int);
            &&& 0 <= k < w.len()
            &&& w[k].0 <= w[j].0
            &&& (w[k].0 == w[j].0 ==> k <= j)
            &&& bumped(w, cap, out) == bumped(w.remove(k), cap, out.push(w[k].1))
        },
{
    lemma_first_lowest(w, w.len() as int);
}

// ---- clips ----

/// Whether a stream has B frames is decided when 96 access units are there or a second
/// IDR picture comes.
pub proof fn law_detection(aus: Seq<AuData>, au: AuData, a: Gathered)
    ensures
        aus.len() + 1 >= 96 ==> enough(aus.push(au)),
        aus.len() + 1 < 96 ==> (enough(aus.push(au)) <==> au.base_idr && idr_count(aus) >= 1),
        !enough(aus.push(au)) ==> phase_step(a, PhaseData::Detecting(aus), au) == (
            Seq::<Pair>::empty(),
            Ok::<PhaseData, ClipError>(PhaseData::Detecting(aus.push(au))),
        ),
        enough(aus.push(au)) ==> phase_step(a, PhaseData::Detecting(aus), au) == begun(
            a,
            aus.push(au),
        ),
{
    reveal(phase_step);
    assert(aus.push(au).drop_last() =~= aus);
}

/// A clip needs the sets of both views, and says which is missing.
pub proof fn law_needed_sets(a: Gathered)
    ensures
        a.bsps is None ==> sets_of(a) == Err::<Sets, ClipError>(ClipError::NoBaseSps),
        a.bsps is Some && a.bpps is None ==> sets_of(a) == Err::<Sets, ClipError>(
            ClipError::NoBasePps,
        ),
        a.bsps is Some && a.bpps is Some && a.dsps is None ==> sets_of(a) == Err::<Sets, ClipError>(
            ClipError::NoSubsetSps,
        ),
        a.bsps is Some && a.bpps is Some && a.dsps is Some && a.dpps is None ==> sets_of(a) == Err::<
            Sets,
            ClipError,
        >(ClipError::NoDependentPps),
        sets_of(a) matches Ok(s) ==> a.bsps == Some(s.bsps) && a.bpps == Some(s.bpps) && a.dsps
            == Some(s.dsps) && a.dpps == Some(s.dpps),
{
}

/// Streams whose units begin with B slices go by display order, the others frame by
/// frame.
pub proof fn law_routes(aus: Seq<AuData>, sets: Sets)
    ensures
        !has_b(aus, sets) ==> route_of(aus, sets) matches Ok(RouteData::Sliding(_)),
        has_b(aus, sets) && sets.bsps.log2_max_pic_order_cnt_lsb_minus4 <= 27 ==> route_of(
            aus,
            sets,
        ) matches Ok(RouteData::Hier(_)),
        forall|k: int|
            0 <= k < aus.len() && (header_of(
                (#[trigger] aus[k]).base[0],
                base_env(aus[k], sets),
            ) matches Ok(h) && (h.fields.slice_type == 1 || h.fields.slice_type == 6)) ==> has_b(
                aus,
                sets,
            ),
{
    assert forall|k: int|
        0 <= k < aus.len() && (header_of(
            (#[trigger] aus[k]).base[0],
            base_env(aus[k], sets),
        ) matches Ok(h) && (h.fields.slice_type == 1 || h.fields.slice_type == 6)) implies has_b(
        aus,
        sets,
    ) by {
        assert(crate::mvc::clip::starts_with_b(aus[k], sets));
    }
}

/// A stream with B frames ends with the last pair, and with those that wait, in their
/// order; one without has nothing left to give. Nothing decoded is an error.
pub proof fn law_ends_of_clips(sets: Sets, s: SlidingData, h: HierData, aus: Seq<AuData>)
    ensures
        phase_end(PhaseData::Running(sets, RouteData::Sliding(s))) == (
            Seq::<Pair>::empty(),
            Ok::<ClipInfo, ClipError>(info_of(sets, s.frames)),
        ),
        completed(h, sets) matches Ok((t, out)) ==> phase_end(
            PhaseData::Running(sets, RouteData::Hier(h)),
        ) == (out + flushed(t.waiting), Ok::<ClipInfo, ClipError>(info_of(sets, t.frames))),
        completed(h, sets) matches Err(e) ==> phase_end(PhaseData::Running(sets, RouteData::Hier(h)))
            == (Seq::<Pair>::empty(), Err::<ClipInfo, ClipError>(e)),
        phase_end(PhaseData::Detecting(aus)).1 is Err,
{
    reveal(phase_end);
    reveal(hier_end);
}

/// A step of a stream without B frames gives its pair at once. In a stream with B frames
/// the next base frame is decoded before the last pair is completed; an IDR picture
/// completes it first and lets all waiting pairs go.
pub proof fn law_steps_of_clips(r: HierData, s: SlidingData, au: AuData, sets: Sets, h: SliceData)
    requires
        header_of(au.base[0], base_env(au, sets)) == Ok::<SliceData, ClipError>(h),
    ensures
        sliding_step(s, au, sets) matches Ok((t, p)) ==> route_step(RouteData::Sliding(s), au, sets)
            == (seq![p], Ok::<RouteData, ClipError>(RouteData::Sliding(t))),
        sliding_step(s, au, sets) matches Err(e) ==> route_step(RouteData::Sliding(s), au, sets) == (
            Seq::<Pair>::empty(),
            Err::<RouteData, ClipError>(e),
        ),
        !au.base_idr ==> {
            let b = base_view(r, au, h, sets);
            let c = completed(r, sets);
            let x = route_step(RouteData::Hier(r), au, sets);
            &&& b is Err ==> x == (Seq::<Pair>::empty(), Err::<RouteData, ClipError>(b->Err_0))
            &&& b is Ok && c is Err ==> x == (
                Seq::<Pair>::empty(),
                Err::<RouteData, ClipError>(c->Err_0),
            )
            &&& b is Ok && c is Ok ==> x == (
                c->Ok_0.1,
                Ok::<RouteData, ClipError>(
                    RouteData::Hier(with_base(c->Ok_0.0, au, h, sets, b->Ok_0.0, b->Ok_0.1)),
                ),
            )
        },
        au.base_idr && completed(r, sets) is Ok ==> {
            let (t, out) = completed(r, sets)->Ok_0;
            let b = base_view(restarted(t), au, h, sets);
            let x = route_step(RouteData::Hier(r), au, sets);
            &&& x.0 == out + flushed(t.waiting)
            &&& b is Ok ==> x.1 == Ok::<RouteData, ClipError>(
                RouteData::Hier(with_base(restarted(t), au, h, sets, b->Ok_0.0, b->Ok_0.1)),
            )
            &&& b is Err ==> x.1 is Err
        },
{
    reveal(route_step);
    reveal(hier_step);
    reveal(advanced);
    reveal(completed);
}

/// A dependent frame may refer to the base frame where it is an anchor or a list asks
/// for the other view; a base frame never refers to the other view.
pub proof fn law_views_of_frames(s: HierData, au: AuData, sets: Sets, poc: i32, base: Picture, h: SliceData)
    ensures
        au.dep.len() == 0 ==> dep_view(au, sets, poc, s.drefs, base) == Err::<
            (Picture, MotionData),
            ClipError,
        >(ClipError::NoDependentView),
        au.dep.len() > 0 && header_of(au.dep[0], dep_env(au, sets)) == Ok::<SliceData, ClipError>(h)
            ==> dep_view(au, sets, poc, s.drefs, base) == hier_view(
            au.dep,
            dep_env(au, sets),
            h,
            poc,
            s.drefs,
            if au.dep_anchor || wants_other_view(h.mods.0) || wants_other_view(h.mods.1) {
                Some(base)
            } else {
                None
            },
        ),
        ({
            let lsb = match h.fields.pic_order_cnt_lsb {
                Some(v) => v as i32,
                None => 0i32,
            };
            let msb = if au.base_idr {
                0i32
            } else {
                msb_after(s.msb, s.lsb, lsb, lsb_count(sets.bsps))
            };
            base_view(s, au, h, sets) == hier_view(
                au.base,
                base_env(au, sets),
                h,
                msb.wrapping_add(lsb),
                s.brefs,
                None,
            )
        }),
{
    reveal(dep_view);
    reveal(base_view);
}

/// In a stream without B frames intra slices stand alone and P slices refer to the last
/// frames; a B slice is an error.
pub proof fn law_sliding_frames(au: AuData, sets: Sets, last: Seq<Picture>, h: SliceData)
    requires
        header_of(au.base[0], base_env(au, sets)) == Ok::<SliceData, ClipError>(h),
    ensures
        ({
            let t = h.fields.slice_type;
            let env = base_env(au, sets);
            let r = sliding_base(au, sets, last);
            &&& t == 1 || t == 6 ==> r == Err::<Picture, ClipError>(ClipError::BaseBSlice)
            &&& t == 2 || t == 7 ==> r == intra_view(au.base, env)
            &&& t == 0 || t == 5 ==> match p_view(au.base, (SliceEnv { idr: false, ..env }), last) {
                Ok((p, _)) => r == Ok::<Picture, ClipError>(p),
                Err(e) => r == Err::<Picture, ClipError>(e),
            }
        }),
{
    reveal(sliding_base);
}

/// The size of a clip is the cropped size of the base view.
pub proof fn law_clip_size(sets: Sets, n: usize)
    ensures
        info_of(sets, n).width == sets.bsps.width,
        info_of(sets, n).height == sets.bsps.height,
        info_of(sets, n).frames == n,
        forall|b: Picture, d: Picture| (#[trigger] paired(b, d, sets)).base == b && paired(
            b,
            d,
            sets,
        ).dep == d,
{
}

/// The dependent frame of a stream without B frames is predicted from its list, whose
/// entries are its own last frames or the base frame; a list with an entry that is not
/// there, and a B slice, are errors.
pub proof fn law_dependent_sliding_frames(
    au: AuData,
    sets: Sets,
    last: Seq<Picture>,
    base: Picture,
    h: SliceData,
)
    requires
        au.dep.len() > 0,
        header_of(au.dep[0], dep_env(au, sets)) == Ok::<SliceData, ClipError>(h),
    ensures
        ({
            let list = dep_l0(
                h.mods.0,
                h.fields.num_ref_idx_l0_active_minus1 + 1,
                last.len() as int,
                au.dep_anchor,
            );
            let t = h.fields.slice_type;
            let missing = exists|k: int|
                0 <= k < list.len() && (#[trigger] list[k]) is Temporal && list[k]->0 >= last.len();
            let refs = Seq::new(
                list.len(),
                |k: int|
                    match list[k] {
                        DRef::InterView => base,
                        DRef::Temporal(i) => last[i as int],
                    },
            );
            let r = sliding_dep(au, sets, last, base);
            &&& t == 1 || t == 6 ==> r == Err::<Picture, ClipError>(ClipError::DependentBSlice)
            &&& (t == 0 || t == 2 || t == 5 || t == 7) && missing ==> r == Err::<Picture, ClipError>(
                ClipError::MissingReference,
            )
            &&& (t == 0 || t == 2 || t == 5 || t == 7) && !missing ==> match p_view(
                au.dep,
                dep_env(au, sets),
                refs,
            ) {
                Ok((p, _)) => r == Ok::<Picture, ClipError>(p),
                Err(e) => r == Err::<Picture, ClipError>(e),
            }
        }),
{
    reveal(sliding_dep);
    let list = dep_l0(
        h.mods.0,
        h.fields.num_ref_idx_l0_active_minus1 + 1,
        last.len() as int,
        au.dep_anchor,
    );
    let refs = Seq::new(
        list.len(),
        |k: int|
            match list[k] {
                DRef::InterView => base,
                DRef::Temporal(i) => last[i as int],
            },
    );
    assert(named_all(list, last, base) =~= refs);
    if all_held(list, last.len() as int) {
        assert forall|k: int| 0 <= k < list.len() && (#[trigger] list[k]) is Temporal implies list[k]->0
            < last.len() by {
            assert(crate::mvc::clip::sliding::held(list[k], last.len() as int));
        }
    }
}

/// A NAL unit that completes an access unit steps the stream on; an empty one does
/// nothing. At the end the access unit that is still open counts too.
pub proof fn law_units_in_turn(c: ClipData, nal: Seq<u8>)
    ensures
        nal.len() == 0 ==> clip_step(c, nal) == (Seq::<Pair>::empty(), Ok::<ClipData, ClipError>(c)),
        nal.len() > 0 ==> match fed(c.units, nal) {
            Err(e) => clip_step(c, nal) == (
                Seq::<Pair>::empty(),
                Err::<ClipData, ClipError>(ClipError::Read(e)),
            ),
            Ok((a, None)) => clip_step(c, nal) == (
                Seq::<Pair>::empty(),
                Ok::<ClipData, ClipError>((ClipData { units: a, phase: c.phase })),
            ),
            Ok((a, Some(au))) => match phase_step(a, c.phase, au) {
                (out, Ok(p)) => clip_step(c, nal) == (
                    out,
                    Ok::<ClipData, ClipError>((ClipData { units: a, phase: p })),
                ),
                (out, Err(e)) => clip_step(c, nal) == (out, Err::<ClipData, ClipError>(e)),
            },
        },
        coded(c.units.cur) matches Some(au) ==> (c.phase matches PhaseData::Detecting(aus)
            ==> last_step(c) == begun(c.units, aus.push(au))),
        coded(c.units.cur) matches Some(au) ==> (c.phase is Running ==> last_step(c) == phase_step(
            c.units,
            c.phase,
            au,
        )),
        coded(c.units.cur) is None ==> (c.phase matches PhaseData::Detecting(aus) ==> last_step(c)
            == begun(c.units, aus)),
        coded(c.units.cur) is None && c.phase is Running ==> last_step(c) == (
            Seq::<Pair>::empty(),
            Ok::<PhaseData, ClipError>(c.phase),
        ),
{
    reveal(clip_step);
    reveal(last_step);
}

/// Access units go through the route in their order, and what each gives comes out in
/// that order.
pub proof fn law_route_in_turn(r: RouteData, aus: Seq<AuData>, i: int, sets: Sets, out: Seq<Pair>)
    ensures
        i >= aus.len() ==> route_run(r, aus, i, sets, out) == (out, Ok::<RouteData, ClipError>(r)),
        0 <= i < aus.len() ==> match route_step(r, aus[i], sets) {
            (more, Ok(t)) => route_run(r, aus, i, sets, out) == route_run(
                t,
                aus,
                i + 1,
                sets,
                out + more,
            ),
            (more, Err(e)) => route_run(r, aus, i, sets, out) == (
                out + more,
                Err::<RouteData, ClipError>(e),
            ),
        },
{
}

/// A P frame takes as many references as its slice says, the other view's among them
/// where there is one, and names the order counts of its references in its motion.
pub proof fn law_references_of_a_p_frame(
    slices: Seq<Seq<u8>>,
    env: SliceEnv,
    h: SliceData,
    poc: i32,
    refs: Seq<RefData>,
    other: Option<Picture>,
)
    ensures
        ({
            let n = h.fields.num_ref_idx_l0_active_minus1 + 1;
            let l = view_list(refs, chosen(refs, poc, false, n, other is Some), other, poc);
            let pics = Seq::new(l.len(), |k: int| l[k].0);
            let pocs = Seq::new(l.len(), |k: int| l[k].1);
            let v = p_view(slices, env, pics);
            let r = hier_p(slices, env, h, poc, refs, other);
            &&& l.len() == 0 ==> r is Err && r->Err_0 == ClipError::NoList0
            &&& l.len() > 0 && v is Err ==> r is Err && r->Err_0 == v->Err_0
            &&& l.len() > 0 && v is Ok ==> {
                let m = v->Ok_0.1;
                &&& r is Ok && r->Ok_0.0 == v->Ok_0.0
                &&& r->Ok_0.1.mv == m.mv && r->Ok_0.1.refidx == m.refidx && r->Ok_0.1.nz == m.nz
                &&& r->Ok_0.1.refpoc == resolved(m.refidx, pocs)
            }
        }),
{
    reveal(hier_p);
    let n = h.fields.num_ref_idx_l0_active_minus1 + 1;
    let l = view_list(refs, chosen(refs, poc, false, n, other is Some), other, poc);
    assert(pics_of(l) =~= Seq::new(l.len(), |k: int| l[k].0));
    assert(pocs_of(l) =~= Seq::new(l.len(), |k: int| l[k].1));
}

/// A B frame takes for each list as many references as its slice says, and the other
/// view's only in the lists that ask for it; what lies beside it is the motion of the
/// first own reference of list 1.
pub proof fn law_references_of_a_b_frame(
    slices: Seq<Seq<u8>>,
    env: SliceEnv,
    h: SliceData,
    poc: i32,
    refs: Seq<RefData>,
    other: Option<Picture>,
)
    ensures
        ({
            let a = if wants_other_view(h.mods.0) {
                other
            } else {
                None
            };
            let b = if wants_other_view(h.mods.1) {
                other
            } else {
                None
            };
            let c = chosen(
                refs,
                poc,
                false,
                h.fields.num_ref_idx_l0_active_minus1 + 1,
                a is Some,
            );
            let d = chosen(
                refs,
                poc,
                true,
                h.fields.num_ref_idx_l1_active_minus1 + 1,
                b is Some,
            );
            let (l, m) = (view_list(refs, c, a, poc), view_list(refs, d, b, poc));
            let r = hier_b(slices, env, h, poc, refs, other);
            &&& l.len() == 0 || m.len() == 0 ==> r is Err && r->Err_0 == ClipError::NoReferences
            &&& l.len() > 0 && m.len() > 0 ==> r == b_view(
                slices,
                env,
                l,
                m,
                poc,
                if d.len() > 0 {
                    refs[d[0] as int].motion
                } else {
                    empty_motion()
                },
            )
        }),
{
    reveal(hier_b);
}

/// A header is read with the sets of its view; sets whose counts are too wide, and a
/// read error, are errors.
pub proof fn law_headers(slice: Seq<u8>, env: SliceEnv)
    ensures
        ({
            let wide = env.sps.log2_max_frame_num_minus4 > 28 || (env.sps.pic_order_cnt_type == 0
                && env.sps.log2_max_pic_order_cnt_lsb_minus4 > 28);
            let (d, c) = slice_data(start_of(slice), env.idr, env.nal_ref_idc, env.sps, env.pps);
            let r = header_of(slice, env);
            &&& wide ==> r is Err && r->Err_0 == ClipError::ParameterRange
            &&& !wide && c.err is Some ==> r is Err && r->Err_0 == ClipError::Read(c.err->0)
            &&& !wide && c.err is None ==> r is Ok && r->Ok_0 == d
        }),
{
    reveal(header_of);
}

} // verus!

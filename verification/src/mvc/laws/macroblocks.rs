//! Macroblocks of a slice: which elements each one has, on which contexts, and what it
//! leaves behind for the ones after it.

use crate::mvc::cabac::Bins;
use crate::mvc::inter_plan::{direct_plan, list_mvs, list_refs, paint, read_plan, skip_part, spatial_direct, Cell, ListState, Part};
use crate::mvc::inter_slice::{
    all_big, coded_inter, flagged, head_cbp, head_delta, inter_head, inter_mb, inter_run,
    inter_slice, inter_slices, inter_start, intra_head, intra_in_inter, mb_kind, nonzero_blocks,
    nothing_read, place_direct, read_motion, read_residual, skipped_mb, slice_mode, start_error,
    transform_flag, with_parts, DirectEnv, Head, InterEnv, InterJoined, InterState, SliceMode,
};
use crate::mvc::mb_header::{
    chroma_mode, coded_block_pattern, i16_info, mb_header, nxn_part, pred_modes, qp_delta,
    slice_mb_type, HeaderBank, HeaderState, MbInfo, Neighbors,
};
use crate::mvc::mb_inter::{b_mb_type, bins, p_mb_type, InterBank};
use crate::mvc::mb_residual::{luma_nonzero, mb_residual, zero_residual, CbpBits, ResState, ResidualBank};
use crate::mvc::recon::{
    blank_grids, blank_pic, changed_qp, intra_mb, intra_run, intra_slice, intra_slices, intra_step,
    mb_pos, residual_params, rows_before, IntraOut, IntraState, Joined, MbGrids, MbPos, ReconError,
    SliceEnv,
};
use crate::mvc::inter_pred::{block_held, with_block, RefEnv};
use crate::mvc::inter_slice::block_of;
use crate::mvc::mb_residual::Residual;
use crate::mvc::recon::Pic;
use crate::mvc::recon::{intra_frame, nothing_joined, slice_plan};
use crate::mvc::recon_inter::inter_frame;
use vstd::prelude::*;

verus! {

/// How many of two neighbours have a property.
pub open spec fn both(a: bool, b: bool) -> int {
    if a && b {
        2
    } else if a || b {
        1
    } else {
        0
    }
}

/// The neighbours of a macroblock are the one on its left and the one above it, where
/// they belong to the slice.
pub proof fn law_macroblocks_around(g: MbGrids, pos: MbPos)
    ensures
        pos.x == 0 ==> g.left(pos) is None && g.flags(pos).left is None,
        pos.x > 0 ==> g.left(pos) == Some(g.info.at(pos.x - 1, pos.y as int)) && g.flags(pos).left
            == Some(g.cbp.at(pos.x - 1, pos.y as int)),
        !pos.top ==> g.up(pos) is None && g.flags(pos).up is None,
        pos.top ==> g.up(pos) == Some(g.info.at(pos.x as int, pos.y - 1)) && g.flags(pos).up == Some(
            g.cbp.at(pos.x as int, pos.y - 1),
        ),
{
}

/// What a macroblock leaves behind is found at its own place.
pub proof fn law_macroblocks_are_kept(g: MbGrids, pos: MbPos, info: MbInfo, cbp: CbpBits, qp: i32)
    ensures
        g.store(pos, info, cbp, qp) == (MbGrids {
            info: g.info.set(pos.x as int, pos.y as int, info),
            cbp: g.cbp.set(pos.x as int, pos.y as int, cbp),
            qp: g.qp.set(pos.x as int, pos.y as int, qp),
        }),
{
}

/// A skip flag of 1 stands for a skipped macroblock. Its context counts the neighbours
/// that are not skipped; P slices have theirs in front of the types of P macroblocks,
/// B slices behind seven of those of B macroblocks.
pub proof fn law_skip_flags(st: InterState, pos: MbPos)
    ensures
        ({
            let n = both(
                pos.x > 0 && !st.skip.at(pos.x - 1, pos.y as int),
                pos.top && !st.skip.at(pos.x as int, pos.y - 1),
            );
            let p = bins(st.e, st.c.mb_type).bin(n);
            let b = bins(st.e, st.c.mb_type_b).bin(7 + n);
            &&& mb_kind(st, false, pos).1 is None <==> p.b == 1
            &&& mb_kind(st, true, pos).1 is None <==> b.b == 1
            &&& p.b != 1 ==> mb_kind(st, false, pos).1 == Some(p_mb_type(bins(p.e, p.c)).1)
            &&& p.b == 1 ==> mb_kind(st, false, pos).0.e == p.e
            &&& b.b == 1 ==> mb_kind(st, true, pos).0.e == b.e
        }),
{
    reveal(mb_kind);
}

/// The type of a B macroblock is read on a context that counts the neighbours which
/// are neither skipped nor direct.
pub proof fn law_b_type_context(st: InterState, pos: MbPos, n: int)
    requires
        n == both(
            pos.x > 0 && !st.skip.at(pos.x - 1, pos.y as int),
            pos.top && !st.skip.at(pos.x as int, pos.y - 1),
        ),
        bins(st.e, st.c.mb_type_b).bin(7 + n).b != 1,
    ensures
        ({
            let d = bins(st.e, st.c.mb_type_b).bin(7 + n);
            let t = b_mb_type(
                d.e,
                (InterBank { mb_type_b: d.c, ..st.c }),
                both(
                    pos.x > 0 && st.coded.at(pos.x - 1, pos.y as int),
                    pos.top && st.coded.at(pos.x as int, pos.y - 1),
                ),
            ).2;
            mb_kind(st, true, pos).1 == Some(t)
        }),
        forall|kind: Option<i64>| #[trigger]
            flagged(st, kind, pos).coded == st.coded.set(
                pos.x as int,
                pos.y as int,
                kind is Some && kind != Some(0i64),
            ),
        forall|kind: Option<i64>| #[trigger]
            flagged(st, kind, pos).skip == st.skip.set(pos.x as int, pos.y as int, kind is None),
{
    reveal(mb_kind);
}

/// What a macroblock is, by the number of its type: from 6 on intra in P slices and
/// from 23 on in B slices, predicted block by block first, then as a whole by 24 kinds,
/// and then raw samples, which are not supported.
pub proof fn law_macroblock_kinds(st: InterState, ie: InterEnv, m: SliceMode, pos: MbPos)
    ensures
        ({
            let (s, kind) = mb_kind(st, ie.two, pos);
            let f = flagged(s, kind, pos);
            let r = inter_mb(st, ie, m, pos);
            let t = kind->0;
            &&& kind is None ==> r == skipped_mb(f, ie, m, pos)
            &&& kind is Some && ((ie.two && t == 48) || (!ie.two && t == 31)) ==> r == Err::<
                InterState,
                ReconError,
            >(ReconError::Pcm)
            &&& kind is Some && ie.two && t < 23 ==> r == coded_inter(f, t as int, ie, m, pos)
            &&& kind is Some && !ie.two && t < 6 ==> r == coded_inter(f, t as int, ie, m, pos)
            &&& kind is Some && ie.two && 23 <= t < 48 ==> r == Ok::<InterState, ReconError>(
                intra_in_inter(f, t - 23, pos, ie.env),
            )
            &&& kind is Some && !ie.two && 6 <= t < 31 ==> r == Ok::<InterState, ReconError>(
                intra_in_inter(f, t - 6, pos, ie.env),
            )
        }),
{
    reveal(inter_mb);
}

/// The flag of the 8x8 transform is read on a context that counts the neighbours which
/// have it.
pub proof fn law_transform_flag(h: Head, n: Neighbors)
    ensures
        transform_flag(h, n, false) == (h, false),
        ({
            let d = bins(h.e, h.c.transform).bin(
                both(
                    n.left is Some && (n.left->0).transform8x8,
                    n.up is Some && (n.up->0).transform8x8,
                ),
            );
            let (r, t) = transform_flag(h, n, true);
            &&& t == (d.b == 1)
            &&& r.e == d.e && r.c.transform == d.c && r.last == h.last
        }),
{
    reveal(transform_flag);
}

/// A quantiser difference is read on contexts that depend on the last one; where there
/// is none the next one starts afresh.
pub proof fn law_quantiser_difference(h: Head)
    ensures
        head_delta(h, false).1 == 0 && head_delta(h, false).0 == (Head { e: h.e, c: h.c, last: 0 }),
        ({
            let (d, v) = qp_delta(bins(h.e, h.c.delta_qp), h.last);
            let (r, x) = head_delta(h, true);
            x == v && r.e == d.e && r.c.delta_qp == d.c && r.last == v
        }),
{
    reveal(head_delta);
}

/// The pattern of coded blocks is read beside the patterns of the macroblock above and
/// of the one on the left.
pub proof fn law_pattern_neighbours(h: Head, n: Neighbors)
    ensures
        ({
            let up = if n.up is Some {
                Some((n.up->0).cbp)
            } else {
                None
            };
            let left = if n.left is Some {
                Some((n.left->0).cbp)
            } else {
                None
            };
            let (e, rows, v) = coded_block_pattern(h.e, h.c.cbp, up, left);
            let (r, x) = head_cbp(h, n);
            x == v && r.e == e && r.c.cbp == rows && r.last == h.last
        }),
{
    reveal(head_cbp);
}

/// An inter macroblock has the pattern of its coded blocks, the transform flag where
/// luma is coded, the picture allows the 8x8 transform and no partition is smaller, and
/// a quantiser difference where anything is coded.
pub proof fn law_inter_header(h: Head, n: Neighbors, t8_mode: bool, big: bool)
    ensures
        ({
            let (h1, cbp) = head_cbp(h, n);
            let o = inter_head(h, n, t8_mode, big);
            let (h2, t8) = transform_flag(h1, n, true);
            let asked = cbp % 16 != 0 && t8_mode && big;
            let last = if asked {
                h2
            } else {
                h1
            };
            &&& o.info.cbp == cbp as u8
            &&& !o.info.i_nxn && o.info.c_ipred == 0 && o.info.i16_pred == 0
            &&& o.modes.len() == 0
            &&& o.info.transform8x8 == (asked && t8)
            &&& o.delta == head_delta(last, cbp != 0).1
            &&& o.h == head_delta(last, cbp != 0).0
        }),
{
    reveal(inter_head);
    reveal(transform_flag);
}

/// The partitions of an inter macroblock leave room for the 8x8 transform where each is
/// at least two blocks wide and high.
pub proof fn law_big_partitions(plan: Seq<Part>, k: int)
    requires
        0 <= k < plan.len(),
    ensures
        plan[k].w < 2 || plan[k].h < 2 ==> !all_big(plan),
        (forall|i: int| 0 <= i < plan.len() ==> (#[trigger] plan[i]).w >= 2 && plan[i].h >= 2)
            ==> all_big(plan),
{
}

/// An intra macroblock of an inter slice that is predicted block by block has the
/// transform flag where the picture allows it, four modes with the 8x8 transform and
/// sixteen without, a chroma mode, its pattern and a quantiser difference where
/// anything is coded.
pub proof fn law_intra_blocks_header(h: Head, n: Neighbors, t8_mode: bool)
    ensures
        ({
            let o = intra_head(h, n, t8_mode, 0);
            let (h1, t8) = transform_flag(h, n, t8_mode);
            let (p, ms) = pred_modes(
                bins(h1.e, h1.c.ipr),
                Seq::empty(),
                if t8 {
                    4
                } else {
                    16
                },
            );
            let (d, c) = chroma_mode(
                bins(p.e, h1.c.cipr),
                both(
                    n.left is Some && (n.left->0).c_ipred != 0,
                    n.up is Some && (n.up->0).c_ipred != 0,
                ),
            );
            let h3 = Head {
                e: d.e,
                c: InterBank { ipr: p.c, cipr: d.c, ..h1.c },
                last: h1.last,
            };
            let (h4, cbp) = head_cbp(h3, n);
            &&& o.info == (MbInfo {
                i_nxn: true,
                transform8x8: t8,
                c_ipred: c,
                cbp: cbp as u8,
                i16_pred: 0,
            })
            &&& o.modes == ms
            &&& o.delta == head_delta(h4, cbp as u8 != 0).1 && o.h == head_delta(h4, cbp as u8 != 0).0
        }),
{
    reveal(intra_head);
}

/// An intra macroblock of an inter slice that is predicted as a whole has its mode and
/// its pattern from its type; it has a chroma mode and always a quantiser difference.
pub proof fn law_whole_intra_header(h: Head, n: Neighbors, t8_mode: bool, x: int)
    requires
        1 <= x <= 24,
    ensures
        ({
            let o = intra_head(h, n, t8_mode, x);
            let (d, c) = chroma_mode(
                bins(h.e, h.c.cipr),
                both(
                    n.left is Some && (n.left->0).c_ipred != 0,
                    n.up is Some && (n.up->0).c_ipred != 0,
                ),
            );
            let h3 = Head { e: d.e, c: InterBank { cipr: d.c, ..h.c }, last: h.last };
            &&& !o.info.i_nxn && !o.info.transform8x8
            &&& o.info.c_ipred == c
            &&& o.info.cbp == i16_info(x - 1).cbp && o.info.i16_pred == (x - 1) % 4
            &&& o.modes.len() == 0
            &&& o.delta == head_delta(h3, true).1 && o.h == head_delta(h3, true).0
        }),
{
    reveal(intra_head);
    reveal(transform_flag);
}

/// The elements of a macroblock of an I slice stand on the contexts of its neighbours:
/// the transform flag, behind the type, counts those with the 8x8 transform, the chroma
/// mode those whose mode is not 0.
pub proof fn law_intra_contexts(s: HeaderState, n: Neighbors)
    ensures
        ({
            let (d, t) = slice_mb_type(Bins { e: s.e, c: s.c.mb_type, b: 0 }, n);
            let f = (Bins { e: d.e, c: s.c.transform, b: 0 }).bin(
                both(
                    n.left is Some && (n.left->0).transform8x8,
                    n.up is Some && (n.up->0).transform8x8,
                ),
            );
            let c = chroma_mode(
                Bins { e: d.e, c: s.c.cipr, b: 0 },
                both(
                    n.left is Some && (n.left->0).c_ipred != 0,
                    n.up is Some && (n.up->0).c_ipred != 0,
                ),
            ).1;
            let (_, x) = mb_header(s, n, true);
            &&& x.mb_type == t
            &&& t == 0 ==> x.transform_flag == Some(f.b == 1)
            &&& t == 0 ==> x.modes == pred_modes(
                Bins { e: f.e, c: s.c.ipr, b: 0 },
                Seq::empty(),
                if f.b == 1 {
                    4
                } else {
                    16
                },
            ).1
            &&& t != 0 ==> x.c_ipred == c
        }),
{
    reveal(mb_header);
    reveal(nxn_part);
}

/// The motion of a macroblock: direct partitions first, where the slice has two lists,
/// then the reference indices of list 0 and of list 1, then the vectors of list 0 and of
/// list 1.
pub proof fn law_motion_order(st: InterState, plan: Seq<Part>, ie: InterEnv, m: SliceMode, pos: MbPos)
    ensures
        ({
            let d = DirectEnv {
                spatial: m.spatial,
                sp: spatial_direct(st.l0, st.l1, pos),
                col: ie.col,
                poc0: ie.poc0,
                poc1: ie.poc1,
                cur: ie.cur,
                w4: 4 * ie.env.width(),
            };
            let (g0, g1, p) = if ie.two {
                place_direct(st.l0, st.l1, plan, d, pos, 0)
            } else {
                (st.l0, st.l1, plan)
            };
            let a = list_refs(ListState { e: st.e, c: st.c, g: g0, plan: p }, 0, m.num0, pos);
            let b = list_refs(ListState { e: a.e, c: a.c, g: g1, plan: a.plan }, 1, m.num1, pos);
            let u = list_mvs(ListState { e: b.e, c: b.c, g: a.g, plan: b.plan }, 0, 0, pos);
            let v = list_mvs(ListState { e: u.e, c: u.c, g: b.g, plan: u.plan }, 1, 0, pos);
            let (t, q) = read_motion(st, plan, ie, m, pos);
            &&& q == v.plan
            &&& t.l0 == u.g && t.l1 == v.g
            &&& t.e == v.e && t.c == v.c
            &&& t.pic == st.pic && t.mb == st.mb && t.qp == st.qp && t.last_dquant
                == st.last_dquant
        }),
{
    reveal(read_motion);
}

/// A coded inter macroblock has its partitions, its motion, its header and its
/// residual, in this order, and is predicted partition by partition.
pub proof fn law_coded_macroblock(st: InterState, t: int, ie: InterEnv, m: SliceMode, pos: MbPos)
    ensures
        ({
            let (e, c, plan0) = read_plan(st.e, st.c, ie.two, t);
            let (s1, plan) = read_motion(InterState { e, c, ..st }, plan0, ie, m, pos);
            let o = inter_head(
                Head { e: s1.e, c: s1.c, last: s1.last_dquant },
                Neighbors { left: s1.mb.left(pos), up: s1.mb.up(pos) },
                ie.env.pps.transform_8x8_mode_flag,
                all_big(plan),
            );
            let (s2, res) = read_residual(s1, o, true, pos, ie.env);
            let pic = with_parts(st.pic, plan, ie.refs(m.weights), res, pos, 0);
            let r = coded_inter(st, t, ie, m, pos);
            &&& pic is Err ==> r == Err::<InterState, ReconError>(pic->Err_0)
            &&& pic is Ok ==> r == Ok::<InterState, ReconError>(
                (InterState { pic: pic->Ok_0, ..s2 }),
            )
        }),
{
    reveal(coded_inter);
    reveal(read_motion);
    reveal(read_residual);
}

/// A residual is read with the quantiser that the difference gives, and the
/// macroblock's pattern, coded block flags and quantiser are kept.
pub proof fn law_residual_of_a_macroblock(
    st: InterState,
    o: crate::mvc::inter_slice::HeadOut,
    inter: bool,
    pos: MbPos,
    env: SliceEnv,
)
    ensures
        ({
            let qp = changed_qp(st.qp, o.delta);
            let (rs, res) = mb_residual(
                ResState { e: o.h.e, c: st.r, cur: 0, trace: Seq::empty() },
                residual_params(o.info, st.mb.flags(pos), qp, inter, env),
            );
            let (t, x) = read_residual(st, o, inter, pos, env);
            &&& x == res
            &&& t.e == rs.e && t.r == rs.c && t.c == o.h.c
            &&& t.qp == qp && t.last_dquant == o.h.last
            &&& t.mb == st.mb.store(pos, o.info, CbpBits(rs.cur), qp)
            &&& t.nz == st.nz.put(4 * pos.x, 4 * pos.y, 4, 4, nonzero_blocks(rs.cur))
            &&& t.pic == st.pic && t.l0 == st.l0 && t.l1 == st.l1 && t.intra == st.intra && t.skip
                == st.skip && t.coded == st.coded
        }),
        forall|cur: u64, x: int, y: int|
            0 <= x < 4 && 0 <= y < 4 ==> nonzero_blocks(cur)[4 * y + x] == #[trigger] luma_nonzero(
                cur,
                x,
                y,
            ),
{
    reveal(read_residual);
}

/// An intra macroblock of an inter slice has no motion, and its blocks count as intra.
pub proof fn law_intra_macroblock_of_an_inter_slice(st: InterState, x: int, pos: MbPos, env: SliceEnv)
    ensures
        ({
            let o = intra_head(
                Head { e: st.e, c: st.c, last: st.last_dquant },
                Neighbors { left: st.mb.left(pos), up: st.mb.up(pos) },
                env.pps.transform_8x8_mode_flag,
                x,
            );
            let (s, res) = read_residual(st, o, false, pos, env);
            let t = intra_in_inter(st, x, pos, env);
            &&& t.pic == intra_mb(st.pic, o.info, o.modes, res, pos)
            &&& t.intra == st.intra.fill(4 * pos.x, 4 * pos.y, 4, 4, true)
            &&& t.l0 == st.l0 && t.l1 == st.l1
            &&& t.e == s.e && t.mb == s.mb && t.nz == s.nz && t.qp == s.qp
        }),
{
    reveal(intra_in_inter);
    reveal(read_residual);
}

/// A skipped macroblock of a P slice takes one predicted vector of reference 0 for the
/// whole of it, and one of a B slice is direct as a whole. Nothing is coded; the
/// quantiser stays, and the next difference starts afresh.
pub proof fn law_skipped_macroblocks(st: InterState, ie: InterEnv, m: SliceMode, pos: MbPos)
    ensures
        ({
            let p = skip_part(st.l0, pos);
            let cell = Cell { mv: p.mv0, mvd: (0, 0), refi: 0, direct: false };
            let (s, plan) = if ie.two {
                read_motion(st, direct_plan(), ie, m, pos)
            } else {
                ((InterState { l0: paint(st.l0, p, pos, cell), ..st }), seq![p])
            };
            let pic = with_parts(st.pic, plan, ie.refs(m.weights), zero_residual(), pos, 0);
            let r = skipped_mb(st, ie, m, pos);
            let t = r->Ok_0;
            &&& pic is Err ==> r == Err::<InterState, ReconError>(pic->Err_0)
            &&& pic is Ok ==> {
                &&& r is Ok
                &&& t.pic == pic->Ok_0
                &&& t.l0 == s.l0 && t.l1 == s.l1 && t.e == s.e && t.c == s.c
                &&& t.qp == st.qp && t.last_dquant == 0
                &&& t.nz == s.nz && t.intra == s.intra
                &&& t.mb == s.mb.store(
                    pos,
                    (MbInfo {
                        i_nxn: false,
                        transform8x8: false,
                        c_ipred: 0,
                        cbp: 0,
                        i16_pred: 0,
                    }),
                    CbpBits(0),
                    st.qp,
                )
            }
        }),
{
    reveal(skipped_mb);
    reveal(read_motion);
}

/// A macroblock of an I slice: header, residual, reconstruction, and the bin that ends
/// the slice. A coded residual needs a quantiser from 0 to 51.
pub proof fn law_macroblock_of_an_intra_slice(st: IntraState, pos: MbPos, env: SliceEnv)
    ensures
        ({
            let (hs, x) = mb_header(
                HeaderState { e: st.e, c: st.h, last_dquant: st.last_dquant },
                Neighbors { left: st.mb.left(pos), up: st.mb.up(pos) },
                env.pps.transform_8x8_mode_flag,
            );
            let qp = if x.qp_delta is Some {
                changed_qp(st.qp, x.qp_delta->0)
            } else {
                st.qp
            };
            let (rs, res) = mb_residual(
                ResState { e: hs.e, c: st.r, cur: 0, trace: Seq::empty() },
                residual_params(x.info, st.mb.flags(pos), qp, false, env),
            );
            let r = intra_step(st, pos, env);
            let t = r->Ok_0.0;
            &&& 0 <= qp <= 51 ==> r is Ok
            &&& r is Err ==> r == Err::<(IntraState, u32), ReconError>(ReconError::Quantiser)
            &&& r is Ok ==> {
                &&& r->Ok_0.1 == rs.e.terminate().1 && t.e == rs.e.terminate().0
                &&& t.h == hs.c && t.r == rs.c && t.last_dquant == hs.last_dquant
                &&& t.qp == qp
                &&& t.pic == intra_mb(st.pic, x.info, x.modes, res, pos)
                &&& t.mb == st.mb.store(pos, x.info, CbpBits(rs.cur), qp)
            }
        }),
{
    reveal(intra_step);
}

/// A slice goes from macroblock to macroblock until its last bin is 1; one that does
/// not end within its rows is an error.
pub proof fn law_macroblocks_in_turn(
    st: InterState,
    a: int,
    n: int,
    r0: int,
    ie: InterEnv,
    m: SliceMode,
    s: IntraState,
)
    ensures
        ({
            let w = ie.env.width();
            let x = inter_mb(st, ie, m, mb_pos(a, w, r0));
            let (e, eos) = (x->Ok_0).e.terminate();
            let next = InterState { e, ..x->Ok_0 };
            let r = inter_run(st, a, n, r0, ie, m);
            &&& a >= w * n ==> r == Err::<(InterState, int), ReconError>(ReconError::Desync)
            &&& a < w * n && r0 * w + a < w * ie.env.height() ==> {
                &&& x is Err ==> r == Err::<(InterState, int), ReconError>(x->Err_0)
                &&& x is Ok && eos == 1 ==> r == Ok::<(InterState, int), ReconError>((next, a + 1))
                &&& x is Ok && eos != 1 ==> r == inter_run(next, a + 1, n, r0, ie, m)
            }
        }),
        ({
            let w = ie.env.width();
            let x = intra_step(s, mb_pos(a, w, r0), ie.env);
            let r = intra_run(s, a, w, n, r0, ie.env);
            &&& a >= w * n ==> r == Err::<(IntraState, int), ReconError>(ReconError::Desync)
            &&& a < w * n ==> {
                &&& x is Err ==> r == Err::<(IntraState, int), ReconError>(x->Err_0)
                &&& x is Ok && x->Ok_0.1 == 1 ==> r == Ok::<(IntraState, int), ReconError>(
                    (x->Ok_0.0, a + 1),
                )
                &&& x is Ok && x->Ok_0.1 != 1 ==> r == intra_run(x->Ok_0.0, a + 1, w, n, r0, ie.env)
            }
        }),
{
}

/// An inter slice starts without motion and with the quantiser of its header. The modes
/// of its blocks count as DC prediction.
pub proof fn law_start_of_an_inter_slice(rbsp: Seq<u8>, n: int, r0: int, env: SliceEnv)
    ensures
        ({
            let s = inter_start(rbsp, n, r0, env);
            &&& s.qp == env.slice_qp(rbsp) && s.last_dquant == 0
            &&& s.e == env.engine(rbsp)
            &&& s.l0 == s.l1
            &&& forall|k: int|
                0 <= k < s.l0.d.len() ==> (#[trigger] s.l0.d[k]) == (Cell {
                    mv: (0, 0),
                    mvd: (0, 0),
                    refi: -1i32,
                    direct: false,
                })
            &&& forall|k: int| 0 <= k < s.pic.modes.d.len() ==> #[trigger] s.pic.modes.d[k] == Some(2u8)
            &&& forall|k: int| 0 <= k < s.intra.d.len() ==> !#[trigger] s.intra.d[k]
            &&& forall|k: int| 0 <= k < s.nz.d.len() ==> !#[trigger] s.nz.d[k]
            &&& s.l0.y0 == 4 * r0 && s.pic.y.y0 == 16 * r0 && s.pic.cb.y0 == 8 * r0 && s.mb.info.y0
                == r0
            &&& s.l0.w == 4 * env.width() && s.pic.y.w == 16 * env.width() && s.mb.info.w
                == env.width()
        }),
{
    reveal(inter_start);
}

/// A slice starts with the contexts of its quantiser: an intra slice with those of its
/// own, an inter slice with those of the model that its header names.
pub proof fn law_start_of_contexts(rbsp: Seq<u8>, n: int, r0: int, env: SliceEnv)
    ensures
        ({
            let s = inter_start(rbsp, n, r0, env);
            let idc = env.header(rbsp).0.fields.cabac_init_idc;
            let m = if idc is Some {
                (idc->0 % 3) as int
            } else {
                0
            };
            &&& s.c == InterBank::initial(m, env.slice_qp(rbsp) as int)
            &&& s.r == ResidualBank::initial(env.slice_qp(rbsp) as int, true, m)
        }),
        ({
            let err = env.header(rbsp).1.err;
            let qp = env.slice_qp(rbsp);
            let st = IntraState {
                e: env.engine(rbsp),
                h: HeaderBank::initial(qp as int),
                r: ResidualBank::initial(qp as int, false, 0),
                last_dquant: 0,
                qp,
                pic: blank_pic(None, env.width(), n, r0),
                mb: blank_grids(env.width(), n, r0),
            };
            let run = intra_run(st, 0, env.width(), n, r0, env);
            let r = intra_slice(rbsp, n, r0, env);
            &&& err is Some ==> r == Err::<IntraOut, ReconError>(ReconError::Header(err->0))
            &&& err is None && run is Err ==> r == Err::<IntraOut, ReconError>(run->Err_0)
            &&& err is None && run is Ok ==> r is Ok && (r->Ok_0).pic == run->Ok_0.0.pic && (
            r->Ok_0).mb == run->Ok_0.0.mb && (r->Ok_0).count == run->Ok_0.1
        }),
{
    reveal(inter_start);
    reveal(intra_slice);
}

/// The slices of an intra frame are joined in their order, each below the rows of those
/// before it.
pub proof fn law_intra_slices_in_turn(
    slices: Seq<Seq<u8>>,
    plan: Seq<(int, int)>,
    k: int,
    acc: Joined,
    env: SliceEnv,
)
    ensures
        k >= slices.len() ==> intra_slices(slices, plan, k, acc, env) == Ok::<Joined, ReconError>(acc),
        k < slices.len() ==> {
            let o = intra_slice(slices[k], plan[k].1, rows_before(plan, k), env);
            let r = intra_slices(slices, plan, k, acc, env);
            &&& o is Err ==> r == Err::<Joined, ReconError>(o->Err_0)
            &&& o is Ok ==> r == intra_slices(
                slices,
                plan,
                k + 1,
                acc.join((o->Ok_0).pic, (o->Ok_0).mb, (o->Ok_0).count, (o->Ok_0).deblocking),
                env,
            )
        },
{
}

/// An inter slice needs a reference for each of its lists, a header without error, and
/// in a B slice lists as long as the header says.
pub proof fn law_slice_errors(rbsp: Seq<u8>, ie: InterEnv)
    ensures
        ({
            let h = ie.env.header(rbsp);
            let none = ie.refs0.len() == 0 || (ie.two && ie.refs1.len() == 0);
            let short = ie.two && (h.0.fields.num_ref_idx_l0_active_minus1 + 1 > ie.refs0.len()
                || h.0.fields.num_ref_idx_l1_active_minus1 + 1 > ie.refs1.len());
            &&& none ==> start_error(rbsp, ie) == Some(ReconError::NoReference)
            &&& !none && h.1.err is Some ==> start_error(rbsp, ie) == Some(
                ReconError::Header(h.1.err->0),
            )
            &&& !none && h.1.err is None && short ==> start_error(rbsp, ie) == Some(
                ReconError::ShortList,
            )
            &&& !none && h.1.err is None && !short ==> start_error(rbsp, ie) is None
            &&& slice_mode(rbsp, ie.env).spatial == h.0.fields.direct_spatial_mv_pred_flag
            &&& slice_mode(rbsp, ie.env).weights == h.0.weights
            &&& slice_mode(rbsp, ie.env).num0 == h.0.fields.num_ref_idx_l0_active_minus1 + 1
            &&& slice_mode(rbsp, ie.env).num1 == h.0.fields.num_ref_idx_l1_active_minus1 + 1
        }),
{
}

/// The slices of a frame are joined in their order.
pub proof fn law_inter_slices_in_turn(
    slices: Seq<Seq<u8>>,
    plan: Seq<(int, int)>,
    k: int,
    acc: InterJoined,
    ie: InterEnv,
)
    ensures
        k >= slices.len() ==> inter_slices(slices, plan, k, acc, ie) == Ok::<InterJoined, ReconError>(
            acc,
        ),
        k < slices.len() ==> {
            let o = inter_slice(slices[k], plan[k].1, plan[k].0, ie);
            let r = inter_slices(slices, plan, k, acc, ie);
            let j = acc.join(o->Ok_0);
            &&& o is Err ==> r == Err::<InterJoined, ReconError>(o->Err_0)
            &&& o is Ok ==> r == inter_slices(slices, plan, k + 1, j, ie)
            &&& j.l0 == acc.l0 + (o->Ok_0).l0.d && j.l1 == acc.l1 + (o->Ok_0).l1.d
            &&& j.intra == acc.intra + (o->Ok_0).intra.d && j.nz == acc.nz + (o->Ok_0).nz.d
        },
        nothing_read().l0.len() == 0 && nothing_read().l1.len() == 0,
{
}

/// A partition needs the references that it names: one beyond its list, and a missing
/// one of a list that it codes, is an error.
pub proof fn law_reference_errors(p: Pic, plan: Seq<Part>, e: RefEnv, res: Residual, pos: MbPos, i: int)
    requires
        0 <= i < plan.len(),
    ensures
        ({
            let q = plan[i];
            let in0 = !q.direct && (q.pdir == 0 || q.pdir == 2);
            let in1 = !q.direct && (q.pdir == 1 || q.pdir == 2);
            let bad = q.ref0 >= e.refs0.len() || q.ref1 >= e.refs1.len() || (in0 && q.ref0 < 0) || (in1
                && q.ref1 < 0);
            &&& bad ==> with_parts(p, plan, e, res, pos, i) == Err::<Pic, ReconError>(
                ReconError::RefRange,
            )
            &&& !bad && !block_held(e, block_of(q, pos)) ==> with_parts(p, plan, e, res, pos, i) == Err::<
                Pic,
                ReconError,
            >(ReconError::ShortReference)
            &&& !bad && block_held(e, block_of(q, pos)) ==> with_parts(p, plan, e, res, pos, i)
                == with_parts(with_block(p, e, block_of(q, pos), res), plan, e, res, pos, i + 1)
        }),
{
}

/// A frame is made of all of its slices, from the first on: errors of the plan, of the
/// size and of the slices end it, in this order.
pub proof fn law_slices_of_a_frame(slices: Seq<Seq<u8>>, ie: InterEnv)
    ensures
        ({
            let plan = slice_plan(slices, ie.env);
            let r = inter_frame(slices, ie);
            let s = inter_slices(slices, plan->Ok_0, 0, nothing_read(), ie);
            let wide = 16 * ie.env.width() > i32::MAX || 16 * ie.env.height() > i32::MAX;
            let f = (s->Ok_0).base.frame(ie.env);
            &&& plan is Err ==> r is Err && r->Err_0 == plan->Err_0
            &&& plan is Ok && wide ==> r is Err && r->Err_0 == ReconError::Size
            &&& plan is Ok && !wide && s is Err ==> r is Err && r->Err_0 == s->Err_0
            &&& plan is Ok && !wide && s is Ok && f is Err ==> r is Err && r->Err_0 == f->Err_0
            &&& plan is Ok && !wide && s is Ok && f is Ok ==> r is Ok && r->Ok_0 == (f->Ok_0, s->Ok_0)
        }),
        ({
            let plan = slice_plan(slices, ie.env);
            let r = intra_frame(slices, ie.env);
            let s = intra_slices(slices, plan->Ok_0, 0, nothing_joined(), ie.env);
            &&& plan is Err ==> r is Err && r->Err_0 == plan->Err_0
            &&& plan is Ok && s is Err ==> r is Err && r->Err_0 == s->Err_0
            &&& plan is Ok && s is Ok ==> r == (s->Ok_0).frame(ie.env)
        }),
{
    reveal(inter_frame);
    reveal(intra_frame);
}

} // verus!

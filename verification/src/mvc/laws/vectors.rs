//! Where the motion of a partition comes from: neighbours by position, the grid of
//! blocks, direct motion, weights, and the samples of a block.

use crate::mvc::arith::clip;
use crate::mvc::inter_plan::{
    far_ref, group_ref, in_group, mb_neighbours, min_positive, near_c, near_mvd, paint, part_mv,
    set_refs, skip_part, spatial_direct, Cell, ListState, Part, Spatial,
};
use crate::mvc::inter_pred::{
    blend_of, blended, chroma_block, luma_block, weighted_one, weighted_two, with_block, Blend,
    InterBlock, RefEnv,
};
use crate::mvc::inter_slice::{
    block_of, col_block, col_zero, direct_motion, place_direct, with_parts, DirectEnv,
};
use crate::mvc::laws::grid::{law_fill_block, law_put_block};
use crate::mvc::mb_inter::{bins, mvd_component, ref_idx};
use crate::mvc::mb_residual::Residual;
use crate::mvc::mc::{bordered, chroma_pred, luma_pred};
use crate::mvc::mv::{predicted_mv, skip_mv, Neighbour};
use crate::mvc::recon::{sample_of, Grid, MbPos, Pic, ReconError};
use crate::mvc::recon_inter::{
    colocated_motion, distance_scale, first_poc, resolved, temporal_motion, BMotionData, MotionData,
};
use crate::mvc::slice_header::WeightTable;
use vstd::arithmetic::power2::pow2;
use vstd::prelude::*;

verus! {

// ---- neighbours ----

/// The motion of the 4x4 block in this column and row, where it is in the slice.
pub open spec fn motion_at(g: Grid<Cell>, x: int, y: int) -> Neighbour {
    if 0 <= x < g.w && g.y0 <= y < g.y0 + g.rows {
        Some((g.at(x, y).mv.0, g.at(x, y).mv.1, g.at(x, y).refi))
    } else {
        None
    }
}

/// The neighbours of a macroblock: the block left of its first one, the one above
/// that, and the one above right of it, or else above left.
pub proof fn law_macroblock_neighbours(g: Grid<Cell>, pos: MbPos)
    ensures
        ({
            let (x, y) = (4 * pos.x as int, 4 * pos.y as int);
            let (a, b, c) = mb_neighbours(g, pos);
            &&& a == motion_at(g, x - 1, y)
            &&& b == motion_at(g, x, y - 1)
            &&& motion_at(g, x + 4, y - 1) is Some ==> c == motion_at(g, x + 4, y - 1)
            &&& motion_at(g, x + 4, y - 1) is None ==> c == motion_at(g, x - 1, y - 1)
        }),
{
}

/// Neighbour C of a partition: the block above right of it. Inside the macroblock
/// that must belong to an earlier partition, and right of the macroblock below its
/// first row there is none; then it is the block above left.
pub proof fn law_neighbour_c(g: Grid<Cell>, plan: Seq<Part>, i: int, pos: MbPos)
    requires
        0 <= i < plan.len(),
    ensures
        ({
            let p = plan[i];
            let (x, y) = (4 * pos.x + p.x, 4 * pos.y + p.y);
            let right = motion_at(g, x + p.w, y - 1);
            let left = motion_at(g, x - 1, y - 1);
            let c = near_c(g, plan, i, pos);
            &&& p.y == 0 && right is Some ==> c == right
            &&& p.y == 0 && right is None ==> c == left
            &&& p.y > 0 && p.x + p.w >= 4 ==> c == left
            &&& p.y > 0 && p.x + p.w < 4 && (exists|k: int|
                0 <= k < i && (#[trigger] plan[k]).x <= p.x + p.w < plan[k].x + plan[k].w
                    && plan[k].y <= p.y - 1 < plan[k].y + plan[k].h) && right is Some ==> c == right
            &&& p.y > 0 && p.x + p.w < 4 && (forall|k: int|
                0 <= k < i ==> !((#[trigger] plan[k]).x <= p.x + p.w < plan[k].x + plan[k].w
                    && plan[k].y <= p.y - 1 < plan[k].y + plan[k].h)) ==> c == left
        }),
{
    let p = plan[i];
    if exists|k: int|
        0 <= k < i && (#[trigger] plan[k]).x <= p.x + p.w < plan[k].x + plan[k].w && plan[k].y <= p.y
            - 1 < plan[k].y + plan[k].h {
        let k = choose|k: int|
            0 <= k < i && (#[trigger] plan[k]).x <= p.x + p.w < plan[k].x + plan[k].w && plan[k].y
                <= p.y - 1 < plan[k].y + plan[k].h;
        assert(plan[k].covers(p.x + p.w, p.y - 1));
    }
}

/// What counts for the contexts: the difference of a neighbour that uses the list,
/// and whether its reference is coded and not the first.
pub proof fn law_context_neighbours(g: Grid<Cell>, x: int, y: int)
    ensures
        motion_at(g, x, y) is None ==> near_mvd(g, x, y) == (0i32, 0i32) && !far_ref(g, x, y),
        motion_at(g, x, y) is Some && g.at(x, y).refi < 0 ==> near_mvd(g, x, y) == (0i32, 0i32)
            && !far_ref(g, x, y),
        motion_at(g, x, y) is Some && g.at(x, y).refi >= 0 ==> near_mvd(g, x, y) == g.at(x, y).mvd,
        motion_at(g, x, y) is Some && g.at(x, y).refi > 0 ==> far_ref(g, x, y) == !g.at(
            x,
            y,
        ).direct,
        motion_at(g, x, y) is Some && g.at(x, y).refi == 0 ==> !far_ref(g, x, y),
{
}

/// A partition's motion is that of each of its 4x4 blocks, and of no other.
pub proof fn law_partition_blocks(g: Grid<Cell>, p: Part, pos: MbPos, v: Cell, i: int, j: int)
    requires
        g.ok(),
        0 <= i < g.w,
        g.y0 <= j < g.y0 + g.rows,
    ensures
        ({
            let inside = p.x <= i - 4 * pos.x < p.x + p.w && p.y <= j - 4 * pos.y < p.y + p.h;
            paint(g, p, pos, v).at(i, j) == (if inside {
                v
            } else {
                g.at(i, j)
            })
        }),
        paint(g, p, pos, v).ok() && paint(g, p, pos, v).shape() == g.shape(),
{
    law_fill_block(g, 4 * pos.x + p.x, 4 * pos.y + p.y, p.w as int, p.h as int, v, i, j);
}

/// The vector of a coded partition is its prediction from the blocks left of it,
/// above it and above right of it, plus a coded difference, which is read
/// horizontally first, each component on the context of its neighbours' sum. The
/// partition's blocks keep vector, difference and reference; other partitions stay.
pub proof fn law_coded_vector(s: ListState, l: int, i: int, pos: MbPos)
    requires
        0 <= i < s.plan.len(),
        l == 0 || l == 1,
    ensures
        ({
            let p = s.plan[i];
            let t = part_mv(s, l, i, pos);
            let (x, y) = (4 * pos.x + p.x, 4 * pos.y + p.y);
            let abs = |v: i32|
                if v < 0 {
                    -(v as int)
                } else {
                    v as int
                };
            let inc = |n: int|
                if n < 3 {
                    0int
                } else if n > 32 {
                    3
                } else {
                    2
                };
            let (a, b) = (near_mvd(s.g, x - 1, y as int), near_mvd(s.g, x as int, y - 1));
            let (e1, c1, dx) = mvd_component(s.e, s.c, 0, inc(abs(a.0) + abs(b.0)));
            let (e2, c2, dy) = mvd_component(e1, c1, 1, inc(abs(a.1) + abs(b.1)));
            let r = if l == 0 {
                p.ref0
            } else {
                p.ref1
            };
            let m = predicted_mv(
                motion_at(s.g, x - 1, y as int),
                motion_at(s.g, x as int, y - 1),
                near_c(s.g, s.plan, i, pos),
                r as int,
                p.dir,
            );
            let mv = ((m.0 as i32).wrapping_add(dx as i32), (m.1 as i32).wrapping_add(dy as i32));
            &&& !p.codes(l) ==> t == s
            &&& p.codes(l) && r >= 0 ==> {
                &&& t.e == e2 && t.c == c2
                &&& t.plan.len() == s.plan.len()
                &&& l == 0 ==> t.plan[i].mv0 == mv && t.plan[i].mv1 == p.mv1
                &&& l == 1 ==> t.plan[i].mv1 == mv && t.plan[i].mv0 == p.mv0
                &&& t.plan[i].ref0 == p.ref0 && t.plan[i].ref1 == p.ref1
                &&& forall|k: int| 0 <= k < s.plan.len() && k != i ==> #[trigger] t.plan[k]
                    == s.plan[k]
                &&& t.g == paint(
                    s.g,
                    p,
                    pos,
                    Cell { mv, mvd: (dx as i32, dy as i32), refi: r, direct: false },
                )
            }
        }),
{
    reveal(part_mv);
}

proof fn lemma_set_refs(
    g: Grid<Cell>,
    plan: Seq<Part>,
    l: int,
    grp: int,
    r: i32,
    pos: MbPos,
    i: int,
    k: int,
)
    requires
        0 <= i,
        0 <= k < plan.len(),
    ensures
        set_refs(g, plan, l, grp, r, pos, i).1.len() == plan.len(),
        set_refs(g, plan, l, grp, r, pos, i).1[k] == (if k >= i && in_group(plan[k], l, grp) {
            plan[k].with_ref(l, r)
        } else {
            plan[k]
        }),
    decreases plan.len() - i,
{
    if i < plan.len() {
        if in_group(plan[i], l, grp) {
            lemma_set_refs(
                paint(g, plan[i], pos, crate::mvc::inter_plan::ref_cell(r)),
                plan.update(i, plan[i].with_ref(l, r)),
                l,
                grp,
                r,
                pos,
                i + 1,
                k,
            );
        } else {
            lemma_set_refs(g, plan, l, grp, r, pos, i + 1, k);
        }
    }
}

/// All partitions of a group that code a list get one reference index in it: the
/// first where there is no choice, without a bin, and otherwise one that is read
/// once, on the context of the blocks left of and above the group's first
/// partition. Other partitions keep theirs.
pub proof fn law_group_reference(
    s: ListState,
    l: int,
    num: int,
    grp: int,
    pos: MbPos,
    f: int,
    k: int,
)
    requires
        l == 0 || l == 1,
        0 <= f < s.plan.len(),
        0 <= k < s.plan.len(),
        in_group(s.plan[f], l, grp),
        forall|j: int| 0 <= j < f ==> !in_group(#[trigger] s.plan[j], l, grp),
    ensures
        ({
            let t = group_ref(s, l, num, grp, pos);
            let (x, y) = (4 * pos.x + s.plan[f].x, 4 * pos.y + s.plan[f].y);
            let inc = (if far_ref(s.g, x - 1, y as int) {
                1int
            } else {
                0
            }) + (if far_ref(s.g, x as int, y - 1) {
                2int
            } else {
                0
            });
            let (d, v) = ref_idx(bins(s.e, s.c.ref_no), inc);
            let r = if num > 1 {
                v as i32
            } else {
                0i32
            };
            &&& num <= 1 ==> t.e == s.e && t.c == s.c
            &&& num > 1 ==> t.e == d.e && t.c.ref_no == d.c
            &&& t.plan.len() == s.plan.len()
            &&& (s.plan[k].codes(l) && s.plan[k].group == grp) ==> (if l == 0 {
                t.plan[k].ref0 == r && t.plan[k].ref1 == s.plan[k].ref1
            } else {
                t.plan[k].ref1 == r && t.plan[k].ref0 == s.plan[k].ref0
            })
            &&& !(s.plan[k].codes(l) && s.plan[k].group == grp) ==> t.plan[k] == s.plan[k]
        }),
{
    reveal(group_ref);
    lemma_first(s.plan, l, grp, 0, f);
    let inc = (if far_ref(s.g, 4 * pos.x + s.plan[f].x - 1, 4 * pos.y + s.plan[f].y) {
        1int
    } else {
        0
    }) + (if far_ref(s.g, 4 * pos.x + s.plan[f].x, 4 * pos.y + s.plan[f].y - 1) {
        2int
    } else {
        0
    });
    let v = ref_idx(bins(s.e, s.c.ref_no), inc).1;
    lemma_set_refs(s.g, s.plan, l, grp, v as i32, pos, 0, k);
    lemma_set_refs(s.g, s.plan, l, grp, 0i32, pos, 0, k);
}

proof fn lemma_first(plan: Seq<Part>, l: int, grp: int, i: int, f: int)
    requires
        0 <= i <= f < plan.len(),
        in_group(plan[f], l, grp),
        forall|j: int| 0 <= j < f ==> !in_group(#[trigger] plan[j], l, grp),
    ensures
        crate::mvc::inter_plan::first_in_group(plan, l, grp, i) == f,
    decreases f - i,
{
    if i < f {
        lemma_first(plan, l, grp, i + 1, f);
    }
}

/// A skipped P macroblock is one partition on reference 0 of list 0 with the skipped
/// vector of the macroblock's neighbours.
pub proof fn law_skipped_macroblock(g: Grid<Cell>, pos: MbPos)
    ensures
        ({
            let p = skip_part(g, pos);
            let (a, b, c) = mb_neighbours(g, pos);
            let v = skip_mv(a, b, c);
            &&& p.x == 0 && p.y == 0 && p.w == 4 && p.h == 4
            &&& p.ref0 == 0 && p.ref1 == -1
            &&& p.mv0 == (v.0 as i32, v.1 as i32)
        }),
{
}

// ---- direct motion ----

/// The smaller one of two references, where one that is missing does not count.
pub proof fn law_smaller_reference(a: int, b: int)
    requires
        a >= -1,
        b >= -1,
    ensures
        a >= 0 && b >= 0 ==> min_positive(a, b) <= a && min_positive(a, b) <= b && (min_positive(
            a,
            b,
        ) == a || min_positive(a, b) == b),
        a < 0 ==> min_positive(a, b) == b,
        b < 0 ==> min_positive(a, b) == a,
{
}

/// Spatial direct motion of a list: the smallest reference among the neighbours, and
/// the vector predicted for it. Where neither list has one, both stand still on
/// their first reference.
pub proof fn law_spatial_direct(g0: Grid<Cell>, g1: Grid<Cell>, pos: MbPos)
    ensures
        ({
            let s = spatial_direct(g0, g1, pos);
            let refi = |g: Grid<Cell>|
                {
                    let (a, b, c) = mb_neighbours(g, pos);
                    let r = |n: Neighbour|
                        if n is Some {
                            (n->0).2 as int
                        } else {
                            -1
                        };
                    min_positive(r(a), min_positive(r(b), r(c)))
                };
            &&& refi(g0) < 0 && refi(g1) < 0 ==> s.zero && s.ref0 == 0 && s.ref1 == 0
            &&& refi(g0) >= 0 || refi(g1) >= 0 ==> !s.zero && s.ref0 == refi(g0) && s.ref1 == refi(
                g1,
            )
            &&& refi(g0) >= 0 ==> {
                let (a, b, c) = mb_neighbours(g0, pos);
                let v = predicted_mv(a, b, c, refi(g0), None);
                s.mvp0 == (v.0 as i32, v.1 as i32)
            }
            &&& refi(g1) >= 0 ==> {
                let (a, b, c) = mb_neighbours(g1, pos);
                let v = predicted_mv(a, b, c, refi(g1), None);
                s.mvp1 == (v.0 as i32, v.1 as i32)
            }
        }),
{
}

/// A spatial direct block moves by the predicted vectors; a list without a reference
/// does not predict, and one on its first reference stands still where the
/// co-located block does.
pub proof fn law_spatial_motion(s: Spatial, still: bool)
    ensures
        ({
            let m = s.motion(still);
            &&& s.ref0 < 0 ==> m.ref0 == -1 && m.mv0 == (0i32, 0i32)
            &&& s.ref1 < 0 ==> m.ref1 == -1 && m.mv1 == (0i32, 0i32)
            &&& s.ref0 >= 0 ==> m.ref0 == s.ref0
            &&& s.ref1 >= 0 ==> m.ref1 == s.ref1
            &&& s.zero ==> m.mv0 == (0i32, 0i32) && m.mv1 == (0i32, 0i32)
            &&& !s.zero && s.ref0 > 0 ==> m.mv0 == s.mvp0
            &&& !s.zero && s.ref1 > 0 ==> m.mv1 == s.mvp1
            &&& !s.zero && s.ref0 == 0 ==> m.mv0 == (if still {
                (0i32, 0i32)
            } else {
                s.mvp0
            })
            &&& !s.zero && s.ref1 == 0 ==> m.mv1 == (if still {
                (0i32, 0i32)
            } else {
                s.mvp1
            })
        }),
{
}

/// The co-located block stands still: it refers to the first picture of its list and
/// moves by no more than a quarter sample each way.
pub proof fn law_still_blocks(col: MotionData, k: int)
    requires
        0 <= k < col.mv.len(),
        k < col.refidx.len(),
    ensures
        col_zero(col, k) <==> col.refidx[k] == 0 && (col.mv[k].0 == 0 || col.mv[k].0 == 1
            || col.mv[k].0 == -1) && (col.mv[k].1 == 0 || col.mv[k].1 == 1 || col.mv[k].1 == -1),
{
}

/// A direct quarter looks at the block in the outer corner of the macroblock at the
/// same place: the corner that the quarter itself has.
pub proof fn law_corner_blocks(pos: MbPos, w4: int)
    ensures
        col_block(0, pos, w4) == (4 * pos.y) * w4 + 4 * pos.x,
        col_block(1, pos, w4) == (4 * pos.y) * w4 + 4 * pos.x + 3,
        col_block(2, pos, w4) == (4 * pos.y + 3) * w4 + 4 * pos.x,
        col_block(3, pos, w4) == (4 * pos.y + 3) * w4 + 4 * pos.x + 3,
{
}

/// The slice says by which of the two rules its direct blocks move.
pub proof fn law_direct_rule(d: DirectEnv, b8: int, pos: MbPos)
    ensures
        ({
            let k = col_block(b8, pos, d.w4);
            &&& d.spatial ==> direct_motion(d, b8, pos) == d.sp.motion(col_zero(d.col, k))
            &&& !d.spatial ==> direct_motion(d, b8, pos) == temporal_motion(
                d.col,
                k,
                d.poc0,
                d.poc1,
                d.cur,
            )
        }),
{
    reveal(direct_motion);
}

proof fn lemma_first_poc(l: Seq<i32>, v: i32, i: int)
    requires
        0 <= i,
        exists|k: int| i <= k < l.len() && l[k] == v,
    ensures
        i <= first_poc(l, v, i) < l.len(),
        l[first_poc(l, v, i)] == v,
        forall|k: int| i <= k < first_poc(l, v, i) ==> l[k] != v,
    decreases l.len() - i,
{
    if l[i] != v {
        let k = choose|k: int| i <= k < l.len() && l[k] == v;
        assert(k != i);
        lemma_first_poc(l, v, i + 1);
    }
}

/// Temporal direct motion: a block without motion gives rest on the first references.
/// Otherwise list 0 refers to the picture that the co-located block refers to, list 1
/// to its own first picture, and the two vectors differ by the co-located one.
pub proof fn law_temporal_direct(
    col: MotionData,
    k: int,
    poc0: Seq<i32>,
    poc1: Seq<i32>,
    cur: i32,
)
    requires
        0 <= k < col.mv.len(),
        k < col.refidx.len(),
        k < col.refpoc.len(),
        poc0.len() > 0,
        poc0.len() <= i32::MAX,
        poc1.len() > 0,
    ensures
        ({
            let m = temporal_motion(col, k, poc0, poc1, cur);
            let v = col.mv[k];
            &&& col.refidx[k] < 0 ==> m.mv0 == (0i32, 0i32) && m.mv1 == (0i32, 0i32) && m.ref0 == 0
                && m.ref1 == 0
            &&& col.refidx[k] >= 0 ==> m.ref1 == 0 && (m.mv1 == (
                m.mv0.0.wrapping_sub(v.0),
                m.mv0.1.wrapping_sub(v.1),
            ) || poc1[0] == poc0[m.ref0 as int])
            &&& col.refidx[k] >= 0 && (exists|i: int|
                0 <= i < poc0.len() && poc0[i] == col.refpoc[k]) ==> 0 <= m.ref0 < poc0.len()
                && poc0[m.ref0 as int] == col.refpoc[k] && forall|i: int|
                0 <= i < m.ref0 ==> poc0[i] != col.refpoc[k]
        }),
        col.refidx[k] >= 0 && poc0[0] == col.refpoc[k] && poc1[0] == poc0[0] ==> temporal_motion(
            col,
            k,
            poc0,
            poc1,
            cur,
        ).mv0 == col.mv[k] && temporal_motion(col, k, poc0, poc1, cur).mv1 == (0i32, 0i32),
        col.refidx[k] >= 0 && poc0[0] == col.refpoc[k] && cur == poc0[0] && poc1[0] > poc0[0]
            && poc1[0] - poc0[0] <= 127 ==> temporal_motion(col, k, poc0, poc1, cur).mv0 == (
            0i32,
            0i32,
        ),
{
    if exists|i: int| 0 <= i < poc0.len() && poc0[i] == col.refpoc[k] {
        lemma_first_poc(poc0, col.refpoc[k], 0);
    } else {
        lemma_absent(poc0, col.refpoc[k], 0);
    }
    let d = poc1[0] - poc0[0];
    if 0 < d <= 127 {
        assert(0 * ((16384 + d / 2) / d) == 0) by (nonlinear_arith);
        assert(distance_scale(0, d) == 0);
        assert(0i32.wrapping_mul(col.mv[k].0) == 0 && 0i32.wrapping_mul(col.mv[k].1) == 0);
    }
}

proof fn lemma_absent(l: Seq<i32>, v: i32, i: int)
    requires
        0 <= i,
        forall|k: int| i <= k < l.len() ==> l[k] != v,
    ensures
        first_poc(l, v, i) == 0,
    decreases l.len() - i,
{
    if i < l.len() {
        lemma_absent(l, v, i + 1);
    }
}

/// The scale of a vector over distances in order count: the factor is 256 times their
/// ratio, by way of a reciprocal of 14 bits, and keeps its sign.
pub proof fn law_distance_scale(tb: int, td: int)
    requires
        -128 <= tb <= 127,
        -128 <= td <= 127,
        td != 0,
    ensures
        ({
            let f = distance_scale(tb, td);
            let n = if td > 0 {
                td
            } else {
                -td
            };
            let q = (16384 + n / 2) / n;
            let raw = (tb * (if td > 0 {
                q
            } else {
                -q
            }) + 32) / 64;
            &&& -1024 <= f <= 1023
            &&& -1024 <= raw <= 1023 ==> f == raw
        }),
        distance_scale(0, td) == 0,
{
    let n = if td > 0 {
        td
    } else {
        -td
    };
    let q = (16384 + n / 2) / n;
    assert(0 * q == 0 && 0 * (-q) == 0);
}

/// The motion that a B frame leaves behind: of list 0 where the block has a picture
/// there, else of list 1, else none.
pub proof fn law_colocated_lists(m: BMotionData, i: int)
    requires
        0 <= i < m.mv.0.len(),
    ensures
        ({
            let c = colocated_motion(m);
            &&& c.mv.len() == m.mv.0.len() && c.refidx.len() == m.mv.0.len() && c.refpoc.len()
                == m.mv.0.len()
            &&& m.refpoc.0[i] >= 0 ==> c.mv[i] == m.mv.0[i] && c.refpoc[i] == m.refpoc.0[i] && (
            m.refidx.0[i] >= 0 ==> c.refidx[i] == m.refidx.0[i])
            &&& m.refpoc.0[i] < 0 && m.refpoc.1[i] >= 0 ==> c.mv[i] == m.mv.1[i] && c.refpoc[i]
                == m.refpoc.1[i] && (m.refidx.1[i] >= 0 ==> c.refidx[i] == m.refidx.1[i])
            &&& m.refpoc.0[i] < 0 && m.refpoc.1[i] < 0 ==> c.mv[i] == (0i32, 0i32) && c.refidx[i]
                == -1 && c.refpoc[i] == -1
            &&& c.nz == m.nz
        }),
{
}

/// The order count of each block's reference: that of the picture in the list, and
/// -1 where there is none.
pub proof fn law_resolved(refidx: Seq<i32>, pocs: Seq<i32>, i: int)
    requires
        0 <= i < refidx.len(),
    ensures
        resolved(refidx, pocs).len() == refidx.len(),
        0 <= refidx[i] < pocs.len() ==> resolved(refidx, pocs)[i] == pocs[refidx[i] as int],
        refidx[i] < 0 || refidx[i] >= pocs.len() ==> resolved(refidx, pocs)[i] == -1,
{
}

/// Direct partitions in turn: both lists take the motion of the quarter, in the plan
/// and in every block, marked as inferred; coded partitions wait.
pub proof fn law_direct_partitions(
    g0: Grid<Cell>,
    g1: Grid<Cell>,
    plan: Seq<Part>,
    d: DirectEnv,
    pos: MbPos,
    i: int,
)
    requires
        0 <= i < plan.len(),
    ensures
        !plan[i].direct ==> place_direct(g0, g1, plan, d, pos, i) == place_direct(
            g0,
            g1,
            plan,
            d,
            pos,
            i + 1,
        ),
        plan[i].direct ==> {
            let m = direct_motion(d, plan[i].group as int, pos);
            place_direct(g0, g1, plan, d, pos, i) == place_direct(
                paint(
                    g0,
                    plan[i],
                    pos,
                    Cell { mv: m.mv0, mvd: (0, 0), refi: m.ref0, direct: true },
                ),
                paint(
                    g1,
                    plan[i],
                    pos,
                    Cell { mv: m.mv1, mvd: (0, 0), refi: m.ref1, direct: true },
                ),
                plan.update(
                    i,
                    Part { ref0: m.ref0, ref1: m.ref1, mv0: m.mv0, mv1: m.mv1, ..plan[i] },
                ),
                d,
                pos,
                i + 1,
            )
        },
        place_direct(g0, g1, plan, d, pos, plan.len() as int) == (g0, g1, plan),
{
}

// ---- samples ----

/// `r` is `v` over two to the `d`, rounded half up.
pub open spec fn rounded(r: int, v: int, d: nat) -> bool {
    let p = pow2(d) as int;
    2 * p * r <= 2 * v + p < 2 * p * r + 2 * p
}

/// An explicit weight: the sample times the weight over the denominator, rounded,
/// plus the offset, in eight bits; with a denominator of one nothing is rounded.
pub proof fn law_single_weight(s: int, w: i32, o: i32, d: u32, r: int)
    requires
        d <= 7,
        0 <= s <= 255,
    ensures
        d == 0 ==> weighted_one(s, (w, o), d) == clip(0, 255, s * w + o),
        d > 0 && rounded(r, s * w, d as nat) ==> weighted_one(s, (w, o), d) == clip(0, 255, r + o),
{
    if d > 0 {
        let (p, h) = (pow2(d as nat) as int, pow2((d - 1) as nat) as int);
        vstd::arithmetic::power2::lemma_pow2_unfold(d as nat);
        vstd::arithmetic::power2::lemma_pow2_pos((d - 1) as nat);
        assert(p == 2 * h);
        if rounded(r, s * w, d as nat) {
            let v = s * w + h;
            assert(2 * p * r == 2 * (p * r)) by (nonlinear_arith);
            assert(p * r <= v < p * r + p);
            assert(v == r * p + (v - p * r)) by (nonlinear_arith);
            vstd::arithmetic::div_mod::lemma_fundamental_div_mod_converse(v, p, r, v - p * r);
        }
    }
}

/// Two explicit weights: the weighted sum over twice the denominator, rounded, plus
/// the rounded mean of the offsets.
pub proof fn law_double_weight(a: int, b: int, w0: (i32, i32), w1: (i32, i32), d: u32, r: int)
    requires
        d <= 7,
        rounded(r, a * w0.0 + b * w1.0, (d + 1) as nat),
    ensures
        weighted_two(a, b, w0, w1, d) == clip(0, 255, r + (w0.1 + w1.1 + 1) / 2),
{
    let (p, h) = (pow2((d + 1) as nat) as int, pow2(d as nat) as int);
    vstd::arithmetic::power2::lemma_pow2_unfold((d + 1) as nat);
    vstd::arithmetic::power2::lemma_pow2_pos(d as nat);
    assert(p == 2 * h);
    let v = a * w0.0 + b * w1.0 + h;
    assert(2 * p * r == 2 * (p * r)) by (nonlinear_arith);
    assert(p * r <= v < p * r + p);
    assert(v == r * p + (v - p * r)) by (nonlinear_arith);
    vstd::arithmetic::div_mod::lemma_fundamental_div_mod_converse(v, p, r, v - p * r);
}

/// How predictions join: each list with its own weight where the slice has weights,
/// both by the weights of the frame where it has none, and a single one unchanged.
pub proof fn law_joined_prediction(b: Blend, x: int, y: int)
    ensures
        b.weights matches Some((w0, w1, d)) ==> {
            &&& b.use0 && b.use1 ==> blended(b, x, y) == weighted_two(x, y, w0, w1, d)
            &&& b.use0 && !b.use1 ==> blended(b, x, y) == weighted_one(x, w0, d)
            &&& !b.use0 && b.use1 ==> blended(b, x, y) == weighted_one(y, w1, d)
        },
        b.weights is None ==> {
            &&& b.use0 && !b.use1 ==> blended(b, x, y) == x
            &&& !b.use0 && b.use1 ==> blended(b, x, y) == y
            &&& b.use0 && b.use1 ==> blended(b, x, y) == clip(
                0,
                255,
                (b.mix.0 * x + b.mix.1 * y + 32) / 64,
            )
        },
{
    reveal(blended);
    assert(x * b.mix.0 == b.mix.0 * x && y * b.mix.1 == b.mix.1 * y) by (nonlinear_arith);
}

/// The weights of a block: those of its references, of luma or of the chroma
/// component, with the denominator of luma or chroma.
pub proof fn law_weights_of_a_block(e: RefEnv, b: InterBlock, t: WeightTable, c: int)
    requires
        e.weights == Some(t),
        0 <= c <= 2,
        0 <= b.ref0 < t.l0.len(),
        0 <= b.ref1 < t.l1.len(),
    ensures
        ({
            let (p, q) = (t.l0[b.ref0 as int], t.l1[b.ref1 as int]);
            let r = blend_of(e, b, c);
            &&& r.use0 && r.use1
            &&& c == 0 ==> r.weights == Some((p.luma, q.luma, t.luma_denom))
            &&& c == 1 ==> r.weights == Some((p.cb, q.cb, t.chroma_denom))
            &&& c == 2 ==> r.weights == Some((p.cr, q.cr, t.chroma_denom))
            &&& r.mix == e.mix
        }),
{
}

/// A block uses the lists in which it has a reference, and without a weight table it
/// has no weights.
pub proof fn law_lists_of_a_block(e: RefEnv, b: InterBlock, c: int)
    ensures
        blend_of(e, b, c).use0 == (b.ref0 >= 0),
        blend_of(e, b, c).use1 == (b.ref1 >= 0),
        blend_of(e, b, c).mix == e.mix,
        e.weights is None ==> blend_of(e, b, c).weights is None,
        e.weights is Some ==> blend_of(e, b, c).weights is Some,
{
}

/// A decoded sample is prediction plus residual, in eight bits.
pub proof fn law_sample(p: i32, r: i32)
    requires
        -0x4000_0000 <= p <= 0x3fff_ffff,
        -0x4000_0000 <= r <= 0x3fff_ffff,
    ensures
        p + r <= 0 ==> sample_of(p, r) == 0,
        0 <= p + r <= 255 ==> sample_of(p, r) == p + r,
        p + r >= 255 ==> sample_of(p, r) == 255,
{
}

/// The luma samples of an inter block: the joined predictions from the planes of its
/// references, at the block's place moved by each list's vector, plus the residual of
/// the macroblock at that place. Samples outside the block stay.
pub proof fn law_luma_of_a_block(p: Pic, e: RefEnv, b: InterBlock, res: Residual, i: int, j: int)
    requires
        p.y.ok(),
        b.w > 0,
        b.h > 0,
        0 <= i < p.y.w,
        p.y.y0 <= j < p.y.y0 + p.y.rows,
    ensures
        ({
            let (dx, dy) = (i - b.px, j - b.py);
            let k = dy * b.w + dx;
            let p0 = luma_pred(
                bordered(e.refs0[b.ref0 as int].y, e.fw, e.fh),
                b.px as int,
                b.py as int,
                b.mv0.0 as int,
                b.mv0.1 as int,
                b.w as int,
                b.h as int,
            );
            let p1 = luma_pred(
                bordered(e.refs1[b.ref1 as int].y, e.fw, e.fh),
                b.px as int,
                b.py as int,
                b.mv1.0 as int,
                b.mv1.1 as int,
                b.w as int,
                b.h as int,
            );
            with_block(p, e, b, res).y.at(i, j) == (if 0 <= dx < b.w && 0 <= dy < b.h {
                sample_of(
                    blended(blend_of(e, b, 0), p0[k] as int, p1[k] as int) as i32,
                    (res.luma)(b.py as int % 16 + dy, b.px as int % 16 + dx),
                )
            } else {
                p.y.at(i, j)
            })
        }),
{
    reveal(with_block);
    reveal(luma_block);
    let (dx, dy) = (i - b.px, j - b.py);
    law_put_block(
        p.y,
        b.px as int,
        b.py as int,
        b.w as int,
        b.h as int,
        luma_block(e, b, res.luma),
        i,
        j,
    );
    if 0 <= dx < b.w && 0 <= dy < b.h {
        crate::mvc::arith::lemma_row_major(b.w as int, dy, dx);
        crate::mvc::arith::lemma_row_bounds(b.w as int, b.h as int, dy, dx);
    }
}

/// The chroma samples of an inter block: at half its coordinates and of half its
/// size, by the same vectors in eighths, Cb from Cb and Cr from Cr.
pub proof fn law_chroma_of_a_block(
    p: Pic,
    e: RefEnv,
    b: InterBlock,
    res: Residual,
    c: int,
    i: int,
    j: int,
)
    requires
        c == 1 || c == 2,
        p.cb.ok(),
        p.cr.ok(),
        p.cr.shape() == p.cb.shape(),
        b.w >= 2,
        b.h >= 2,
        0 <= i < p.cb.w,
        p.cb.y0 <= j < p.cb.y0 + p.cb.rows,
    ensures
        ({
            let (cx, cy, cw, ch) = (
                b.px as int / 2,
                b.py as int / 2,
                b.w as int / 2,
                b.h as int / 2,
            );
            let (dx, dy) = (i - cx, j - cy);
            let k = dy * cw + dx;
            let (r0, r1) = (e.refs0[b.ref0 as int], e.refs1[b.ref1 as int]);
            let p0 = chroma_pred(
                bordered(
                    if c == 1 {
                        r0.cb
                    } else {
                        r0.cr
                    },
                    e.fw / 2,
                    e.fh / 2,
                ),
                cx,
                cy,
                b.mv0.0 as int,
                b.mv0.1 as int,
                cw,
                ch,
            );
            let p1 = chroma_pred(
                bordered(
                    if c == 1 {
                        r1.cb
                    } else {
                        r1.cr
                    },
                    e.fw / 2,
                    e.fh / 2,
                ),
                cx,
                cy,
                b.mv1.0 as int,
                b.mv1.1 as int,
                cw,
                ch,
            );
            let q = with_block(p, e, b, res);
            let (new, old_plane, r) = if c == 1 {
                (q.cb, p.cb, res.cb)
            } else {
                (q.cr, p.cr, res.cr)
            };
            new.at(i, j) == (if 0 <= dx < cw && 0 <= dy < ch {
                sample_of(
                    blended(blend_of(e, b, c), p0[k] as int, p1[k] as int) as i32,
                    r(cy % 8 + dy, cx % 8 + dx),
                )
            } else {
                old_plane.at(i, j)
            })
        }),
{
    reveal(with_block);
    reveal(chroma_block);
    let (cx, cy, cw, ch) = (b.px as int / 2, b.py as int / 2, b.w as int / 2, b.h as int / 2);
    let (dx, dy) = (i - cx, j - cy);
    law_put_block(p.cb, cx, cy, cw, ch, chroma_block(e, b, 1, res.cb), i, j);
    law_put_block(p.cr, cx, cy, cw, ch, chroma_block(e, b, 2, res.cr), i, j);
    if 0 <= dx < cw && 0 <= dy < ch {
        crate::mvc::arith::lemma_row_major(cw, dy, dx);
        crate::mvc::arith::lemma_row_bounds(cw, ch, dy, dx);
    }
}

/// A partition of a macroblock as a block of the frame: 16 samples per macroblock
/// and 4 per block, with the partition's references and vectors.
pub proof fn law_block_of_a_partition(p: Part, pos: MbPos)
    requires
        p.ok(),
        pos.x <= 0x7ff_ffff,
        pos.y <= 0x7ff_ffff,
    ensures
        ({
            let b = block_of(p, pos);
            &&& b.px == 16 * pos.x + 4 * p.x
            &&& b.py == 16 * pos.y + 4 * p.y
            &&& b.w == 4 * p.w && b.h == 4 * p.h
            &&& b.ref0 == p.ref0 && b.ref1 == p.ref1 && b.mv0 == p.mv0 && b.mv1 == p.mv1
        }),
{
}

/// Partitions are drawn in turn, each over the picture that the last one left; a
/// reference past the end of its list is an error.
pub proof fn law_partitions_in_turn(
    p: Pic,
    plan: Seq<Part>,
    e: RefEnv,
    res: Residual,
    pos: MbPos,
    i: int,
)
    requires
        0 <= i < plan.len(),
    ensures
        (plan[i].ref0 >= e.refs0.len() || plan[i].ref1 >= e.refs1.len()) ==> with_parts(
            p,
            plan,
            e,
            res,
            pos,
            i,
        ) == Err::<Pic, ReconError>(ReconError::RefRange),
        with_parts(p, plan, e, res, pos, i) is Ok ==> with_parts(p, plan, e, res, pos, i)
            == with_parts(
            with_block(p, e, block_of(plan[i], pos), res),
            plan,
            e,
            res,
            pos,
            i + 1,
        ),
        with_parts(p, plan, e, res, pos, plan.len() as int) == Ok::<Pic, ReconError>(p),
{
}

} // verus!

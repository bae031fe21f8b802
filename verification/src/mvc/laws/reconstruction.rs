//! Intra macroblocks in their frame: the order of blocks, the samples around a
//! block, what a decoded block changes, and how slices fill a frame.

use crate::mvc::intra::{intra_mode, predicted, predicted16, predicted_chroma, smoothed};
use crate::mvc::laws::grid::law_put_block;
use crate::mvc::mb_header::MbInfo;
use crate::mvc::mb_residual::{block_x, block_y, Residual};
use crate::mvc::recon::{
    above_right_4x4, above_right_8x8, bands_of, block_col, block_row, changed_qp, chroma_mode_of,
    edges_block, edges_nxn, intra_16x16, intra_4x4, intra_4x4_from, intra_8x8, intra_8x8_from,
    intra_chroma, intra_mb, left_mode, mb_pos, mode_of, plan_error, plane_mode_of, row_count,
    rows_before, sample_of, upper_mode, Grid, Joined, MbPos, Pic, Picture, ReconError, SliceEnv,
};
use crate::mvc::transform::Block;
use crate::mvc::recon::{first_mbs, slice_plan};
use vstd::prelude::*;

verus! {

// ---- order ----

/// The 16 blocks of a macroblock come quarter by quarter, and inside a quarter row
/// by row: column and row of each.
pub proof fn law_block_order()
    ensures
        block_col(0) == 0 && block_row(0) == 0,
        block_col(1) == 1 && block_row(1) == 0,
        block_col(2) == 0 && block_row(2) == 1,
        block_col(3) == 1 && block_row(3) == 1,
        block_col(4) == 2 && block_row(4) == 0,
        block_col(5) == 3 && block_row(5) == 0,
        block_col(6) == 2 && block_row(6) == 1,
        block_col(7) == 3 && block_row(7) == 1,
        block_col(8) == 0 && block_row(8) == 2,
        block_col(9) == 1 && block_row(9) == 2,
        block_col(10) == 0 && block_row(10) == 3,
        block_col(11) == 1 && block_row(11) == 3,
        block_col(12) == 2 && block_row(12) == 2,
        block_col(13) == 3 && block_row(13) == 2,
        block_col(14) == 2 && block_row(14) == 3,
        block_col(15) == 3 && block_row(15) == 3,
        forall|k: int|
            0 <= k < 16 ==> #[trigger] block_x(k) == block_col(k) && block_y(k) == block_row(k),
{
}

/// The samples above right of a 4x4 block are there where the block that holds them
/// comes earlier: inside the macroblock by the order of blocks, above it where there
/// is a macroblock above and a column further right, and never beside it.
pub proof fn law_above_right_blocks(mx: int, my: int, k: int, j: int, w4: int, top: bool)
    requires
        0 <= mx,
        0 <= my,
        0 <= k < 16,
        0 <= j < 16,
        4 * mx + 4 <= w4,
    ensures
        ({
            let (bx, by) = (block_col(k), block_row(k));
            let a = above_right_4x4(4 * mx + bx, 4 * my + by, w4, top || by > 0);
            &&& by > 0 && bx == 3 ==> !a
            &&& by > 0 && block_col(j) == bx + 1 && block_row(j) == by - 1 ==> (a <==> j < k)
            &&& by == 0 && !top ==> !a
            &&& by == 0 && top && bx < 3 ==> a
            &&& by == 0 && top && bx == 3 ==> (a <==> 4 * mx + 4 < w4)
        }),
{
    law_block_order();
}

/// The same for the four 8x8 blocks: the last one has none, the third has the second,
/// the first two have the macroblocks above.
pub proof fn law_above_right_quarters(mx: int, my: int, w8: int, top: bool)
    requires
        0 <= mx,
        0 <= my,
        2 * mx + 2 <= w8,
    ensures
        above_right_8x8(2 * mx, 2 * my, w8, top) == top,
        above_right_8x8(2 * mx + 1, 2 * my, w8, top) == (top && 2 * mx + 2 < w8),
        above_right_8x8(2 * mx, 2 * my + 1, w8, true),
        !above_right_8x8(2 * mx + 1, 2 * my + 1, w8, true),
{
}

// ---- samples around a block ----

/// The samples around a block: the row above and above right, the column to the left
/// and the corner. Where the block above right is not there, the last sample above
/// goes on.
pub proof fn law_samples_around_a_block(g: Grid<u8>, px: int, py: int, n: int, top: bool, ar: bool, i: int)
    requires
        n == 4 || n == 8,
        px >= 0,
    ensures
        ({
            let e = edges_block(g, px, py, n, top, ar);
            &&& e.top.len() == 2 * n && e.left.len() == n
            &&& e.top_avail == top && e.left_avail == (px > 0)
            &&& top && 0 <= i < n ==> e.top[i] == g.at(px + i, py - 1)
            &&& top && ar && n <= i < 2 * n ==> e.top[i] == g.at(px + i, py - 1)
            &&& top && !ar && n <= i < 2 * n ==> e.top[i] == g.at(px + n - 1, py - 1)
            &&& px > 0 && 0 <= i < n ==> e.left[i] == g.at(px - 1, py + i)
            &&& px > 0 && top ==> e.corner == g.at(px - 1, py - 1)
        }),
{
}

/// The samples around a whole macroblock.
pub proof fn law_samples_around_a_macroblock(g: Grid<u8>, px: int, py: int, n: int, top: bool, i: int)
    requires
        n == 8 || n == 16,
        px >= 0,
        0 <= i < n,
    ensures
        ({
            let e = edges_nxn(g, px, py, n, top);
            &&& e.top_avail == top && e.left_avail == (px > 0)
            &&& top ==> e.top[i] == g.at(px + i, py - 1)
            &&& px > 0 ==> e.left[i] == g.at(px - 1, py + i)
            &&& px > 0 && top ==> e.corner == g.at(px - 1, py - 1)
        }),
{
}

/// The modes of the neighbouring blocks: left of the block in the frame, above it in
/// the slice.
pub proof fn law_neighbouring_modes(m: Grid<Option<u8>>, cx: int, cy: int, top: bool)
    requires
        cx >= 0,
        cy >= 0,
    ensures
        cx == 0 ==> left_mode(m, cx, cy) is None,
        cx > 0 ==> left_mode(m, cx, cy) == m.at(cx - 1, cy),
        cy % 4 == 0 && !top ==> upper_mode(m, cx, cy, top) is None,
        cy % 4 != 0 || top ==> upper_mode(m, cx, cy, top) == m.at(cx, cy - 1),
{
}

// ---- decoded blocks ----

/// The sample (`i`, `j`) of a plane after an `n` by `n` block at (`x`, `y`) was
/// decoded: prediction plus residual inside, as before outside.
pub open spec fn decoded(
    new: Grid<u8>,
    was: Grid<u8>,
    x: int,
    y: int,
    n: int,
    pred: spec_fn(int, int) -> int,
    res: Block,
    ry: int,
    rx: int,
    i: int,
    j: int,
) -> bool {
    new.at(i, j) == (if x <= i < x + n && y <= j < y + n {
        sample_of(pred(j - y, i - x) as i32, res(ry + j - y, rx + i - x))
    } else {
        was.at(i, j)
    })
}

proof fn lemma_decoded(
    g: Grid<u8>,
    x: int,
    y: int,
    n: int,
    pred: spec_fn(int, int) -> int,
    res: Block,
    ry: int,
    rx: int,
    i: int,
    j: int,
)
    requires
        g.ok(),
        n > 0,
        0 <= i < g.w,
        g.y0 <= j < g.y0 + g.rows,
    ensures
        decoded(
            g.put(x, y, n, n, crate::mvc::recon::samples_of(n, pred, res, ry, rx)),
            g,
            x,
            y,
            n,
            pred,
            res,
            ry,
            rx,
            i,
            j,
        ),
{
    let b = crate::mvc::recon::samples_of(n, pred, res, ry, rx);
    law_put_block(g, x, y, n, n, b, i, j);
    if x <= i < x + n && y <= j < y + n {
        crate::mvc::arith::lemma_row_major(n, j - y, i - x);
        crate::mvc::arith::lemma_row_bounds(n, n, j - y, i - x);
    }
}

/// A 4x4 block of a macroblock: it lies at its place in the order of blocks, its mode
/// comes from the modes left and above and the coded number, its prediction from the
/// samples around it, its residual from its own place. Its mode is kept.
pub proof fn law_intra_4x4_block(p: Pic, k: int, raw: Seq<i64>, res: Block, pos: MbPos, i: int, j: int)
    requires
        p.y.ok(),
        0 <= k < 16,
        0 <= i < p.y.w,
        p.y.y0 <= j < p.y.y0 + p.y.rows,
    ensures
        ({
            let (bx, by) = (block_col(k), block_row(k));
            let (cx, cy) = (4 * pos.x + bx, 4 * pos.y + by);
            let m = intra_mode(
                left_mode(p.modes, cx, cy),
                upper_mode(p.modes, cx, cy, pos.top),
                raw[k] as int,
            );
            let above = by > 0 || pos.top;
            let e = edges_block(
                p.y,
                4 * cx,
                4 * cy,
                4,
                above,
                above_right_4x4(cx, cy, p.modes.w, above),
            );
            let q = intra_4x4(p, k, raw, res, pos);
            &&& decoded(
                q.y,
                p.y,
                16 * pos.x + 4 * bx,
                16 * pos.y + 4 * by,
                4,
                |y: int, x: int| predicted(mode_of(m), e, 4, y, x),
                res,
                4 * by,
                4 * bx,
                i,
                j,
            )
            &&& q.modes == p.modes.set(cx, cy, Some(m as u8))
            &&& q.cb == p.cb && q.cr == p.cr
        }),
{
    reveal(intra_4x4);
    let (bx, by) = (block_col(k), block_row(k));
    let (cx, cy) = (4 * pos.x + bx, 4 * pos.y + by);
    let m = intra_mode(
        left_mode(p.modes, cx, cy),
        upper_mode(p.modes, cx, cy, pos.top),
        raw[k] as int,
    );
    let above = by > 0 || pos.top;
    let e = edges_block(p.y, 4 * cx, 4 * cy, 4, above, above_right_4x4(cx, cy, p.modes.w, above));
    lemma_decoded(
        p.y,
        4 * cx,
        4 * cy,
        4,
        |y: int, x: int| predicted(mode_of(m), e, 4, y, x),
        res,
        4 * by,
        4 * bx,
        i,
        j,
    );
}

/// An 8x8 block of a macroblock: the same in quarters, with the samples around it
/// filtered and its mode kept in all of its four 4x4 blocks.
pub proof fn law_intra_8x8_block(p: Pic, k: int, raw: Seq<i64>, res: Block, pos: MbPos, i: int, j: int)
    requires
        p.y.ok(),
        0 <= k < 4,
        0 <= i < p.y.w,
        p.y.y0 <= j < p.y.y0 + p.y.rows,
    ensures
        ({
            let (qx, qy) = (
                if k == 1 || k == 3 {
                    1int
                } else {
                    0
                },
                if k >= 2 {
                    1int
                } else {
                    0
                },
            );
            let (bx, by) = (2 * pos.x + qx, 2 * pos.y + qy);
            let m = intra_mode(
                left_mode(p.modes, 2 * bx, 2 * by),
                upper_mode(p.modes, 2 * bx, 2 * by, pos.top),
                raw[k] as int,
            );
            let above = qy > 0 || pos.top;
            let e = smoothed(
                edges_block(
                    p.y,
                    8 * bx,
                    8 * by,
                    8,
                    above,
                    above_right_8x8(bx, by, p.modes.w / 2, above),
                ),
                above && bx > 0,
            );
            let q = intra_8x8(p, k, raw, res, pos);
            &&& decoded(
                q.y,
                p.y,
                16 * pos.x + 8 * qx,
                16 * pos.y + 8 * qy,
                8,
                |y: int, x: int| predicted(mode_of(m), e, 8, y, x),
                res,
                8 * qy,
                8 * qx,
                i,
                j,
            )
            &&& q.modes == p.modes.fill(2 * bx, 2 * by, 2, 2, Some(m as u8))
            &&& q.cb == p.cb && q.cr == p.cr
        }),
{
    reveal(intra_8x8);
    let (bx, by) = (2 * pos.x + k % 2, 2 * pos.y + k / 2);
    let m = intra_mode(
        left_mode(p.modes, 2 * bx, 2 * by),
        upper_mode(p.modes, 2 * bx, 2 * by, pos.top),
        raw[k] as int,
    );
    let above = k >= 2 || pos.top;
    let e = smoothed(
        edges_block(p.y, 8 * bx, 8 * by, 8, above, above_right_8x8(bx, by, p.modes.w / 2, above)),
        above && bx > 0,
    );
    lemma_decoded(
        p.y,
        8 * bx,
        8 * by,
        8,
        |y: int, x: int| predicted(mode_of(m), e, 8, y, x),
        res,
        8 * (k / 2),
        8 * (k % 2),
        i,
        j,
    );
}

/// A macroblock that is predicted as a whole counts as DC for the modes of its
/// neighbours.
pub proof fn law_intra_16x16_block(p: Pic, mode: int, res: Block, pos: MbPos, i: int, j: int)
    requires
        p.y.ok(),
        0 <= i < p.y.w,
        p.y.y0 <= j < p.y.y0 + p.y.rows,
    ensures
        ({
            let e = edges_nxn(p.y, 16 * pos.x as int, 16 * pos.y as int, 16, pos.top);
            let q = intra_16x16(p, mode, res, pos);
            &&& decoded(
                q.y,
                p.y,
                16 * pos.x as int,
                16 * pos.y as int,
                16,
                |y: int, x: int| predicted16(plane_mode_of(mode), e, y, x),
                res,
                0,
                0,
                i,
                j,
            )
            &&& q.modes == p.modes.fill(4 * pos.x as int, 4 * pos.y as int, 4, 4, Some(2u8))
            &&& q.cb == p.cb && q.cr == p.cr
        }),
{
    reveal(intra_16x16);
    let e = edges_nxn(p.y, 16 * pos.x as int, 16 * pos.y as int, 16, pos.top);
    lemma_decoded(
        p.y,
        16 * pos.x as int,
        16 * pos.y as int,
        16,
        |y: int, x: int| predicted16(plane_mode_of(mode), e, y, x),
        res,
        0,
        0,
        i,
        j,
    );
}

/// The chroma block of a macroblock.
pub proof fn law_intra_chroma_block(g: Grid<u8>, mode: int, res: Block, pos: MbPos, i: int, j: int)
    requires
        g.ok(),
        0 <= i < g.w,
        g.y0 <= j < g.y0 + g.rows,
    ensures
        ({
            let e = edges_nxn(g, 8 * pos.x as int, 8 * pos.y as int, 8, pos.top);
            decoded(
                intra_chroma(g, mode, res, pos),
                g,
                8 * pos.x as int,
                8 * pos.y as int,
                8,
                |y: int, x: int| predicted_chroma(chroma_mode_of(mode), e, y, x),
                res,
                0,
                0,
                i,
                j,
            )
        }),
{
    reveal(intra_chroma);
    let e = edges_nxn(g, 8 * pos.x as int, 8 * pos.y as int, 8, pos.top);
    lemma_decoded(
        g,
        8 * pos.x as int,
        8 * pos.y as int,
        8,
        |y: int, x: int| predicted_chroma(chroma_mode_of(mode), e, y, x),
        res,
        0,
        0,
        i,
        j,
    );
}

/// An intra macroblock by its header: as a whole, by 8x8 blocks with the 8x8
/// transform, else by 4x4 blocks; both chroma planes by one mode, each with its own
/// residual.
pub proof fn law_intra_macroblock(p: Pic, info: MbInfo, raw: Seq<i64>, res: Residual, pos: MbPos)
    ensures
        ({
            let q = intra_mb(p, info, raw, res, pos);
            let l = if !info.i_nxn {
                intra_16x16(p, info.i16_pred as int, res.luma, pos)
            } else if info.transform8x8 {
                intra_8x8_from(p, 0, raw, res.luma, pos)
            } else {
                intra_4x4_from(p, 0, raw, res.luma, pos)
            };
            &&& q.y == l.y && q.modes == l.modes
            &&& q.cb == intra_chroma(l.cb, info.c_ipred as int, res.cb, pos)
            &&& q.cr == intra_chroma(l.cr, info.c_ipred as int, res.cr, pos)
        }),
        forall|k: int|
            0 <= k < 16 ==> #[trigger] intra_4x4_from(p, k, raw, res.luma, pos) == intra_4x4_from(
                intra_4x4(p, k, raw, res.luma, pos),
                k + 1,
                raw,
                res.luma,
                pos,
            ),
        forall|k: int|
            0 <= k < 4 ==> #[trigger] intra_8x8_from(p, k, raw, res.luma, pos) == intra_8x8_from(
                intra_8x8(p, k, raw, res.luma, pos),
                k + 1,
                raw,
                res.luma,
                pos,
            ),
        intra_4x4_from(p, 16, raw, res.luma, pos) == p,
        intra_8x8_from(p, 4, raw, res.luma, pos) == p,
{
    reveal(intra_mb);
}

// ---- slices ----

/// Macroblocks go row by row from the slice's first row; the one above belongs to the
/// slice from its second row on.
pub proof fn law_macroblock_positions(a: int, x: int, row: int, width: int, r0: int)
    requires
        0 <= x < width <= 0x1000_0000,
        0 <= row <= 0x1000_0000,
        0 <= r0 <= 0x1000_0000,
        a == row * width + x,
    ensures
        mb_pos(a, width, r0).x == x,
        mb_pos(a, width, r0).y == r0 + row,
        mb_pos(a, width, r0).top == (row > 0),
{
    crate::mvc::arith::lemma_row_major(width, row, x);
    if row > 0 {
        assert(row * width >= width) by (nonlinear_arith)
            requires
                row >= 1,
                width >= 0,
        ;
    } else {
        assert(row * width == 0) by (nonlinear_arith)
            requires
                row == 0,
        ;
    }
}

/// A quantiser stays in its range: a change that leaves it comes in again on the
/// other side.
pub proof fn law_quantiser_wraps(qp: i32, delta: i32)
    requires
        0 <= qp <= 51,
        -26 <= delta <= 25,
    ensures
        0 <= qp + delta <= 51 ==> changed_qp(qp, delta) == qp + delta,
        qp + delta > 51 ==> changed_qp(qp, delta) == qp + delta - 52,
        qp + delta < 0 ==> changed_qp(qp, delta) == qp + delta + 52,
{
}

/// What a slice starts from: the quantiser is 26 and both coded differences, the
/// matrices are the picture's, else the sequence's, and the deblocking parameters are
/// the header's.
pub proof fn law_slice_parameters(env: SliceEnv, rbsp: Seq<u8>)
    ensures
        ({
            let h = env.header(rbsp).0.fields;
            &&& (-1000 <= env.pps.pic_init_qp_minus26 <= 1000 && -1000 <= h.slice_qp_delta <= 1000)
                ==> env.slice_qp(rbsp) == 26 + env.pps.pic_init_qp_minus26 + h.slice_qp_delta
            &&& env.deblocking(rbsp) == (
                h.disable_deblocking_filter_idc,
                h.slice_alpha_c0_offset_div2,
                h.slice_beta_offset_div2,
            )
            &&& env.pps.scaling is Some ==> env.scaling() == env.pps.scaling->0
            &&& env.pps.scaling is None && env.sps.scaling is Some ==> env.scaling()
                == env.sps.scaling->0
            &&& env.width() == env.sps.pic_width_in_mbs
            &&& env.height() == env.sps.pic_height_in_map_units
        }),
{
}

/// Slices that start at whole rows, each below the last, fill the frame: each has the
/// rows up to the start of the next, the last those up to the bottom, and together
/// they have all of them.
pub proof fn law_slices_fill_the_frame(firsts: Seq<u32>, width: int, height: int, k: int)
    requires
        firsts.len() > 0,
        plan_error(firsts, width, height) is None,
        0 <= k < firsts.len(),
    ensures
        ({
            let b = bands_of(firsts, width, height);
            &&& b.len() == firsts.len()
            &&& b[k].0 * width == firsts[k]
            &&& b[k].1 >= 0
            &&& k + 1 < firsts.len() ==> (rows_before(b, k + 1)) * width == firsts[k + 1]
            &&& rows_before(b, firsts.len() as int) == height
            &&& k > 0 && k + 1 < firsts.len() ==> b[k].1 * width == firsts[k + 1] - firsts[k]
        }),
{
    let b = bands_of(firsts, width, height);
    assert(firsts[k] as int % width == 0);
    vstd::arithmetic::div_mod::lemma_fundamental_div_mod(firsts[k] as int, width);
    assert((firsts[k] as int / width) * width == width * (firsts[k] as int / width))
        by (nonlinear_arith);
    assert(row_count(firsts, k, width, height) >= 0);
    lemma_rows(firsts, width, height, k + 1);
    lemma_rows(firsts, width, height, firsts.len() as int);
    if k + 1 < firsts.len() {
        assert(firsts[k + 1] as int % width == 0);
        vstd::arithmetic::div_mod::lemma_fundamental_div_mod(firsts[k + 1] as int, width);
        assert((firsts[k + 1] as int / width) * width == width * (firsts[k + 1] as int / width))
            by (nonlinear_arith);
        if k > 0 {
            let (p, q) = (firsts[k + 1] as int / width, firsts[k] as int / width);
            assert((p - q) * width == p * width - q * width) by (nonlinear_arith);
        }
    }
}

proof fn lemma_rows(firsts: Seq<u32>, width: int, height: int, k: int)
    requires
        0 < k <= firsts.len(),
    ensures
        rows_before(bands_of(firsts, width, height), k) == (if k < firsts.len() {
            firsts[k] as int / width
        } else {
            height
        }),
    decreases k,
{
    if k > 1 {
        lemma_rows(firsts, width, height, k - 1);
    } else {
        reveal_with_fuel(rows_before, 2);
    }
}

/// Why slices do not fit a frame: one starts inside a row, or one starts above the
/// last.
pub proof fn law_misplaced_slices(firsts: Seq<u32>, width: int, height: int, k: int)
    requires
        width >= 1,
        height >= 1,
        0 <= k < firsts.len(),
    ensures
        firsts[k] as int % width != 0 ==> plan_error(firsts, width, height) == Some(
            ReconError::Unaligned,
        ),
        plan_error(firsts, width, height) is None && k > 0 && k + 1 < firsts.len() ==> firsts[k]
            <= firsts[k + 1],
        plan_error(firsts, width, height) is None && k > 0 && k + 1 == firsts.len() ==> firsts[k]
            <= width * height,
{
    if plan_error(firsts, width, height) is None && k > 0 {
        law_slices_fill_the_frame(firsts, width, height, k);
        assert(row_count(firsts, k, width, height) >= 0);
        assert(firsts[k] as int % width == 0);
        vstd::arithmetic::div_mod::lemma_fundamental_div_mod(firsts[k] as int, width);
        let q = firsts[k] as int / width;
        if k + 1 == firsts.len() {
            assert(width * q <= width * height) by (nonlinear_arith)
                requires
                    q <= height,
                    width >= 1,
            ;
        } else {
            assert(firsts[k + 1] as int % width == 0);
            vstd::arithmetic::div_mod::lemma_fundamental_div_mod(firsts[k + 1] as int, width);
            let r = firsts[k + 1] as int / width;
            assert(width * q <= width * r) by (nonlinear_arith)
                requires
                    q <= r,
                    width >= 1,
            ;
        }
    }
}

/// A frame is whole where its slices hold all of its macroblocks, and then it has
/// their samples, headers and quantisers as they are.
pub proof fn law_whole_frames(j: Joined, env: SliceEnv)
    ensures
        j.count != env.width() * env.height() ==> j.frame(env) == Err::<Picture, ReconError>(
            ReconError::Coverage,
        ),
        j.count == env.width() * env.height() ==> {
            let f = j.frame(env);
            &&& f is Ok
            &&& f->Ok_0.y == j.y && f->Ok_0.cb == j.cb && f->Ok_0.cr == j.cr
            &&& f->Ok_0.info == j.info && f->Ok_0.qp == j.qp && f->Ok_0.deblocking == j.deblocking
            &&& f->Ok_0.width == env.width() && f->Ok_0.height == env.height()
        },
{
}

/// The slices of a frame are placed by the first macroblocks that their headers name; a
/// frame that is too large, one without slices and a header in error are errors.
pub proof fn law_first_macroblocks(slices: Seq<Seq<u8>>, n: nat, env: SliceEnv, k: int)
    requires
        n <= slices.len(),
    ensures
        first_mbs(slices, n, env) is Ok && 0 <= k < n ==> (first_mbs(slices, n, env)->Ok_0).len() == n
            && (first_mbs(slices, n, env)->Ok_0)[k] == env.header(
            slices[k],
        ).0.fields.first_mb_in_slice && env.header(slices[k]).1.err is None,
        256 * (env.width() * env.height()) > isize::MAX ==> slice_plan(slices, env) == Err::<
            Seq<(int, int)>,
            ReconError,
        >(ReconError::Size),
        256 * (env.width() * env.height()) <= isize::MAX && slices.len() == 0 ==> slice_plan(
            slices,
            env,
        ) == Err::<Seq<(int, int)>, ReconError>(ReconError::NoSlice),
        256 * (env.width() * env.height()) <= isize::MAX && slices.len() > 0 && first_mbs(
            slices,
            slices.len(),
            env,
        ) is Err ==> slice_plan(slices, env) == Err::<Seq<(int, int)>, ReconError>(
            ReconError::Header(first_mbs(slices, slices.len(), env)->Err_0),
        ),
    decreases n,
{
    reveal(slice_plan);
    if n > 0 {
        law_first_macroblocks(slices, (n - 1) as nat, env, k);
        if n > 1 {
            law_first_macroblocks(slices, (n - 1) as nat, env, 0);
        }
    }
}

} // verus!

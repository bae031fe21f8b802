//! In-loop deblocking of a whole frame (H.264 section 8.7): the edges of every
//! macroblock in raster order, luma then chroma, vertical ones before
//! horizontal ones, with a boundary strength per 4x4 block.

use crate::mvc::arith::{clip, clip1, lemma_row_bounds, magnitude};
use crate::mvc::deblock::{
    alpha_of, beta_of, chroma_line, filter_chroma, filter_luma_normal, filter_luma_strong,
    luma_normal, luma_strong, tc0_of, thresholds,
};
use crate::mvc::mb_header::MbInfo;
use crate::mvc::mb_residual::{chroma_qp, chroma_qp_of};
use crate::mvc::recon::{Band, Frame, Grid, Picture, Plane};
use crate::mvc::recon_inter::{BMotionData, BMotionField, MotionData, MotionField};
use vstd::prelude::*;

verus! {

/// Two vectors differ by a whole sample or more in a component.
pub open spec fn far_apart(a: (i32, i32), b: (i32, i32)) -> bool {
    magnitude(a.0.wrapping_sub(b.0) as int) >= 4 || magnitude(a.1.wrapping_sub(b.1) as int) >= 4
}

fn apart(a: (i32, i32), b: (i32, i32)) -> (r: bool)
    ensures
        r == far_apart(a, b),
{
    let dx: i32 = a.0.wrapping_sub(b.0);
    let dy: i32 = a.1.wrapping_sub(b.1);
    dx >= 4 || dx <= -4 || dy >= 4 || dy <= -4
}

/// Where boundary strengths come from: a frame of intra macroblocks, or the
/// motion of one or two lists.
pub enum Motion<'a> {
    Intra,
    Single(&'a MotionField),
    Double(&'a BMotionField),
}

/// Where boundary strengths come from.
pub enum MotionKind {
    Intra,
    Single(MotionData),
    Double(BMotionData),
}

impl<'a> View for Motion<'a> {
    type V = MotionKind;

    open spec fn view(&self) -> MotionKind {
        match *self {
            Motion::Intra => MotionKind::Intra,
            Motion::Single(m) => MotionKind::Single(m@),
            Motion::Double(m) => MotionKind::Double(m@),
        }
    }
}

/// The strength of an edge with an intra block on a side.
pub open spec fn intra_strength(mb_edge: bool) -> int {
    if mb_edge {
        4
    } else {
        3
    }
}

/// The strength between blocks `p` and `q` of a list-0 field: 4 or 3 beside
/// intra blocks, 2 beside coefficients, 1 between different references or
/// vectors.
pub open spec fn single_strength(m: MotionData, p: int, q: int, mb_edge: bool) -> int {
    if m.refidx[p] < 0 || m.refidx[q] < 0 {
        intra_strength(mb_edge)
    } else if m.nz[p] || m.nz[q] {
        2
    } else if m.refidx[p] != m.refidx[q] || far_apart(m.mv[p], m.mv[q]) {
        1
    } else {
        0
    }
}

/// The strength between blocks `p` and `q` of a two-list field: as for one
/// list, with references compared as sets and vectors by reference.
pub open spec fn double_strength(m: BMotionData, p: int, q: int, mb_edge: bool) -> int {
    let (p0, p1) = (m.refpoc.0[p], m.refpoc.1[p]);
    let (q0, q1) = (m.refpoc.0[q], m.refpoc.1[q]);
    let straight = far_apart(m.mv.0[p], m.mv.0[q]) || far_apart(m.mv.1[p], m.mv.1[q]);
    let crossed = far_apart(m.mv.0[p], m.mv.1[q]) || far_apart(m.mv.1[p], m.mv.0[q]);
    if m.intra[p] || m.intra[q] {
        intra_strength(mb_edge)
    } else if m.nz[p] || m.nz[q] {
        2
    } else if !((p0 == q0 && p1 == q1) || (p0 == q1 && p1 == q0)) {
        1
    } else {
        let moved = if p0 == p1 {
            straight && crossed
        } else if p0 == q0 {
            straight
        } else {
            crossed
        };
        if moved {
            1
        } else {
            0
        }
    }
}

impl MotionKind {
    /// The strength of the edge between 4x4 blocks `p` and `q`.
    pub open spec fn strength(self, p: int, q: int, mb_edge: bool) -> int {
        match self {
            MotionKind::Intra => intra_strength(mb_edge),
            MotionKind::Single(m) => single_strength(m, p, q, mb_edge),
            MotionKind::Double(m) => double_strength(m, p, q, mb_edge),
        }
    }
}

impl<'a> Motion<'a> {
    /// There is an entry for each block of the frame.
    pub open spec fn covers(self, width: int, height: int) -> bool {
        match self {
            Motion::Intra => true,
            Motion::Single(m) => m.covers(width, height),
            Motion::Double(m) => m.covers(width, height),
        }
    }

    fn strength_of(&self, p: usize, q: usize, mb_edge: bool, Ghost(s): Ghost<(int, int)>) -> (bs: usize)
        requires
            self.covers(s.0, s.1),
            p < 16 * (s.0 * s.1),
            q < 16 * (s.0 * s.1),
        ensures
            bs == self@.strength(p as int, q as int, mb_edge),
            bs <= 4,
    {
        match self {
            Motion::Intra => if mb_edge {
                4
            } else {
                3
            },
            Motion::Single(m) => {
                if m.refidx[p] < 0 || m.refidx[q] < 0 {
                    if mb_edge {
                        4
                    } else {
                        3
                    }
                } else if m.nz[p] || m.nz[q] {
                    2
                } else if m.refidx[p] != m.refidx[q] || apart(m.mv[p], m.mv[q]) {
                    1
                } else {
                    0
                }
            },
            Motion::Double(m) => {
                if m.intra[p] || m.intra[q] {
                    return if mb_edge {
                        4
                    } else {
                        3
                    };
                }
                if m.nz[p] || m.nz[q] {
                    return 2;
                }
                let (p0, p1): (i32, i32) = (m.refpoc[0][p], m.refpoc[1][p]);
                let (q0, q1): (i32, i32) = (m.refpoc[0][q], m.refpoc[1][q]);
                if !((p0 == q0 && p1 == q1) || (p0 == q1 && p1 == q0)) {
                    return 1;
                }
                let straight: bool = apart(m.mv[0][p], m.mv[0][q]) || apart(m.mv[1][p], m.mv[1][q]);
                let crossed: bool = apart(m.mv[0][p], m.mv[1][q]) || apart(m.mv[1][p], m.mv[0][q]);
                let moved: bool = if p0 == p1 {
                    straight && crossed
                } else if p0 == q0 {
                    straight
                } else {
                    crossed
                };
                if moved {
                    1
                } else {
                    0
                }
            },
        }
    }
}

/// What the deblocking of a frame depends on besides its samples.
pub struct Walk {
    pub width: int,
    pub height: int,
    pub info: Seq<MbInfo>,
    pub qp: Seq<i32>,
    pub chroma_off: int,
    pub off_a: int,
    pub off_b: int,
    /// The strength between two 4x4 blocks, in raster order; the flag is set on
    /// a macroblock edge.
    pub strength: spec_fn(int, int, bool) -> int,
    /// Only I_NxN macroblocks can use the 8x8 transform.
    pub nxn: bool,
}

/// The eight samples across an edge: from four columns left of (`x`, `y`), or
/// from four rows above it where the edge is horizontal.
pub open spec fn line_at(g: Grid<u8>, x: int, y: int, horiz: bool) -> Seq<i32> {
    Seq::new(
        8,
        |k: int|
            (if horiz {
                g.at(x, y - 4 + k)
            } else {
                g.at(x - 4 + k, y)
            }) as i32,
    )
}

/// The plane with other samples across an edge.
pub open spec fn with_line(g: Grid<u8>, x: int, y: int, horiz: bool, s: Seq<i32>) -> Grid<u8> {
    let b = Seq::new(8, |k: int| clip(0, 255, s[k] as int) as u8);
    if horiz {
        g.put(x, y - 4, 1, 8, b)
    } else {
        g.put(x - 4, y, 8, 1, b)
    }
}

/// A filtered luma line: the strong filter for strength 4.
pub open spec fn luma_line(s: Seq<i32>, ia: int, ib: int, bs: int) -> Seq<i32> {
    if bs == 4 {
        luma_strong(s, alpha_of(ia), beta_of(ib))
    } else {
        luma_normal(s, alpha_of(ia), beta_of(ib), tc0_of(ia, bs))
    }
}

/// A filtered chroma line.
pub open spec fn chroma_line_of(s: Seq<i32>, ia: int, ib: int, bs: int) -> Seq<i32> {
    chroma_line(
        s,
        alpha_of(ia),
        beta_of(ib),
        if bs == 4 {
            0
        } else {
            tc0_of(ia, bs)
        },
        bs == 4,
    )
}

/// The plane with one filtered line.
#[verifier::opaque]
pub open spec fn filtered_line(
    g: Grid<u8>,
    x: int,
    y: int,
    horiz: bool,
    ia: int,
    ib: int,
    bs: int,
    chroma: bool,
) -> Grid<u8> {
    let s = line_at(g, x, y, horiz);
    with_line(
        g,
        x,
        y,
        horiz,
        if chroma {
            chroma_line_of(s, ia, ib, bs)
        } else {
            luma_line(s, ia, ib, bs)
        },
    )
}

/// The eight samples across the edge lie in the plane.
pub open spec fn line_inside(g: Grid<u8>, x: int, y: int, horiz: bool) -> bool {
    if horiz {
        g.has(x, y) && g.has(x, y - 4) && g.has(x, y + 3)
    } else {
        g.has(x, y) && g.has(x - 4, y) && g.has(x + 3, y)
    }
}

fn filter_line(
    p: &mut Plane,
    x: usize,
    y: usize,
    horiz: bool,
    ia: usize,
    ib: usize,
    bs: usize,
    chroma: bool,
)
    requires
        old(p)@.ok(),
        line_inside(old(p)@, x as int, y as int, horiz),
        ia <= 51,
        ib <= 51,
        1 <= bs <= 4,
    ensures
        final(p)@ == filtered_line(
            old(p)@,
            x as int,
            y as int,
            horiz,
            ia as int,
            ib as int,
            bs as int,
            chroma,
        ),
        final(p)@.ok(),
        final(p)@.shape() == old(p)@.shape(),
{
    proof {
        reveal(filtered_line);
    }
    let (alpha, beta, tc0) = thresholds(ia, ib, bs);
    let ghost want = line_at(p@, x as int, y as int, horiz);
    let mut s: [i32; 8] = [0i32; 8];
    for k in 0..8usize
        invariant
            p@ == old(p)@,
            p@.ok(),
            line_inside(p@, x as int, y as int, horiz),
            want == line_at(p@, x as int, y as int, horiz),
            forall|j: int| 0 <= j < k ==> #[trigger] s[j] == want[j],
    {
        s[k] = if horiz {
            p.at(x, y - 4 + k) as i32
        } else {
            p.at(x - 4 + k, y) as i32
        };
    }
    assert(s@ =~= want);
    if chroma {
        filter_chroma(&mut s, alpha, beta, tc0, bs == 4);
    } else if bs == 4 {
        filter_luma_strong(&mut s, alpha, beta);
    } else {
        filter_luma_normal(&mut s, alpha, beta, tc0);
    }
    let mut b: [u8; 8] = [0u8; 8];
    for k in 0..8usize
        invariant
            forall|j: int| 0 <= j < k ==> #[trigger] b[j] == clip(0, 255, s[j] as int) as u8,
    {
        b[k] = clip1(s[k]) as u8;
    }
    assert(b@ =~= Seq::new(8, |k: int| clip(0, 255, s@[k] as int) as u8));
    if horiz {
        p.put(x, y - 4, 1, 8, &b);
    } else {
        p.put(x - 4, y, 8, 1, &b);
    }
}

/// Indices into the threshold tables for a mean quantiser.
pub open spec fn table_index(qp: int, offset: int) -> int {
    clip(0, 51, qp + offset)
}

fn index_of(qp: i64, offset: i64) -> (r: usize)
    requires
        -0x4_0000_0000 <= qp <= 0x4_0000_0000,
        -0x4_0000_0000 <= offset <= 0x4_0000_0000,
    ensures
        r == table_index(qp as int, offset as int),
        r <= 51,
{
    let v: i64 = qp + offset;
    if v < 0 {
        0
    } else if v > 51 {
        51
    } else {
        v as usize
    }
}

/// The rounded mean of two quantisers.
pub open spec fn mean_qp(a: int, b: int) -> int {
    (a + b + 1) / 2
}

fn mean_of(a: i32, b: i32) -> (r: i64)
    ensures
        r == mean_qp(a as int, b as int),
{
    let v: i64 = a as i64 + b as i64 + 1;
    proof {
        crate::mvc::arith::lemma_i64_shr(v);
    }
    v >> 1
}

// ---- luma ----

/// Four lines of a luma edge, from line `t` to line `end`.
pub open spec fn luma_lines(
    g: Grid<u8>,
    x: int,
    y: int,
    horiz: bool,
    t: int,
    end: int,
    ia: int,
    ib: int,
    bs: int,
) -> Grid<u8>
    decreases end - t,
{
    if t >= end {
        g
    } else {
        let (lx, ly) = if horiz {
            (x + t, y)
        } else {
            (x, y + t)
        };
        luma_lines(
            filtered_line(g, lx, ly, horiz, ia, ib, bs, false),
            x,
            y,
            horiz,
            t + 1,
            end,
            ia,
            ib,
            bs,
        )
    }
}

/// The 4x4 blocks on both sides of segment `seg` of edge `ei` of a macroblock,
/// in raster order of a frame with `w4` blocks in a row.
pub open spec fn edge_blocks(mbx: int, mby: int, ei: int, seg: int, horiz: bool, w4: int) -> (int, int) {
    if horiz {
        ((4 * mby + ei - 1) * w4 + 4 * mbx + seg, (4 * mby + ei) * w4 + 4 * mbx + seg)
    } else {
        ((4 * mby + seg) * w4 + 4 * mbx + ei - 1, (4 * mby + seg) * w4 + 4 * mbx + ei)
    }
}

/// The four segments of luma edge `ei`, from segment `seg` on.
pub open spec fn luma_segments(
    g: Grid<u8>,
    w: Walk,
    mbx: int,
    mby: int,
    ei: int,
    horiz: bool,
    seg: int,
    ia: int,
    ib: int,
) -> Grid<u8>
    decreases 4 - seg,
{
    if seg >= 4 {
        g
    } else {
        let (p, q) = edge_blocks(mbx, mby, ei, seg, horiz, 4 * w.width);
        let bs = (w.strength)(p, q, ei == 0);
        let (x, y) = if horiz {
            (16 * mbx, 16 * mby + 4 * ei)
        } else {
            (16 * mbx + 4 * ei, 16 * mby)
        };
        let h = if bs == 0 {
            g
        } else {
            luma_lines(g, x, y, horiz, 4 * seg, 4 * seg + 4, ia, ib, bs)
        };
        luma_segments(h, w, mbx, mby, ei, horiz, seg + 1, ia, ib)
    }
}

/// The quantiser on the far side of an edge.
pub open spec fn far_qp(w: Walk, mbx: int, mby: int, inner: bool, horiz: bool) -> int {
    let addr = mby * w.width + mbx;
    if inner {
        w.qp[addr] as int
    } else if horiz {
        w.qp[addr - w.width] as int
    } else {
        w.qp[addr - 1] as int
    }
}

/// The edge lies on the border of the frame.
pub open spec fn on_border(mbx: int, mby: int, horiz: bool) -> bool {
    if horiz {
        mby == 0
    } else {
        mbx == 0
    }
}

/// Luma edge `ei` of a macroblock. Edges inside 8x8 transform blocks and on the
/// frame's border are left alone.
#[verifier::opaque]
pub open spec fn luma_edge(g: Grid<u8>, w: Walk, mbx: int, mby: int, ei: int, horiz: bool) -> Grid<u8> {
    let info = w.info[mby * w.width + mbx];
    let t8 = info.transform8x8 && (info.i_nxn || !w.nxn);
    let mean = mean_qp(
        far_qp(w, mbx, mby, ei != 0, horiz),
        w.qp[mby * w.width + mbx] as int,
    );
    let ia = table_index(mean, w.off_a);
    let ib = table_index(mean, w.off_b);
    if (ei == 0 && on_border(mbx, mby, horiz)) || (ei % 2 == 1 && t8) || alpha_of(ia) == 0 {
        g
    } else {
        luma_segments(g, w, mbx, mby, ei, horiz, 0, ia, ib)
    }
}

/// The luma edges of a macroblock from edge `e` on: four vertical ones, then
/// four horizontal ones.
pub open spec fn luma_edges(g: Grid<u8>, w: Walk, mbx: int, mby: int, e: int) -> Grid<u8>
    decreases 8 - e,
{
    if e >= 8 {
        g
    } else {
        luma_edges(luma_edge(g, w, mbx, mby, e % 4, e >= 4), w, mbx, mby, e + 1)
    }
}

// ---- chroma ----

/// The lines of chroma edge `ce` of a macroblock, from line `t` on.
pub open spec fn chroma_lines(
    g: Grid<u8>,
    w: Walk,
    mbx: int,
    mby: int,
    ce: int,
    horiz: bool,
    t: int,
    ia: int,
    ib: int,
) -> Grid<u8>
    decreases 8 - t,
{
    if t >= 8 {
        g
    } else {
        let (p, q) = edge_blocks(mbx, mby, 2 * ce, t / 2, horiz, 4 * w.width);
        let bs = (w.strength)(p, q, ce == 0);
        let (x, y) = if horiz {
            (8 * mbx + t, 8 * mby + 4 * ce)
        } else {
            (8 * mbx + 4 * ce, 8 * mby + t)
        };
        let h = if bs == 0 {
            g
        } else {
            filtered_line(g, x, y, horiz, ia, ib, bs, true)
        };
        chroma_lines(h, w, mbx, mby, ce, horiz, t + 1, ia, ib)
    }
}

/// Chroma edge `ce` of a macroblock.
#[verifier::opaque]
pub open spec fn chroma_edge(g: Grid<u8>, w: Walk, mbx: int, mby: int, ce: int, horiz: bool) -> Grid<u8> {
    let mean = mean_qp(
        chroma_qp_of(far_qp(w, mbx, mby, ce != 0, horiz), w.chroma_off),
        chroma_qp_of(w.qp[mby * w.width + mbx] as int, w.chroma_off),
    );
    let ia = table_index(mean, w.off_a);
    let ib = table_index(mean, w.off_b);
    if (ce == 0 && on_border(mbx, mby, horiz)) || alpha_of(ia) == 0 {
        g
    } else {
        chroma_lines(g, w, mbx, mby, ce, horiz, 0, ia, ib)
    }
}

/// The chroma edges of a macroblock: two vertical ones, then two horizontal
/// ones.
pub open spec fn chroma_edges(g: Grid<u8>, w: Walk, mbx: int, mby: int) -> Grid<u8> {
    let g1 = chroma_edge(g, w, mbx, mby, 0, false);
    let g2 = chroma_edge(g1, w, mbx, mby, 1, false);
    let g3 = chroma_edge(g2, w, mbx, mby, 0, true);
    chroma_edge(g3, w, mbx, mby, 1, true)
}

// ---- the frame ----

/// The three planes of a frame.
pub struct Planes {
    pub y: Grid<u8>,
    pub cb: Grid<u8>,
    pub cr: Grid<u8>,
}

/// The macroblocks of a frame from address `a` on.
pub open spec fn filtered_from(p: Planes, w: Walk, a: int) -> Planes
    decreases w.width * w.height - a,
{
    if a >= w.width * w.height {
        p
    } else {
        let (mbx, mby) = (a % w.width, a / w.width);
        filtered_from(
            Planes {
                y: luma_edges(p.y, w, mbx, mby, 0),
                cb: chroma_edges(p.cb, w, mbx, mby),
                cr: chroma_edges(p.cr, w, mbx, mby),
            },
            w,
            a + 1,
        )
    }
}

/// The planes of a frame as grids.
pub open spec fn planes_of(f: Picture) -> Planes {
    Planes {
        y: Grid { d: f.y, w: 16 * f.width, rows: 16 * f.height, y0: 0 },
        cb: Grid { d: f.cb, w: 8 * f.width, rows: 8 * f.height, y0: 0 },
        cr: Grid { d: f.cr, w: 8 * f.width, rows: 8 * f.height, y0: 0 },
    }
}

/// What the deblocking of a frame with this motion depends on.
pub open spec fn walk_of(f: Picture, m: MotionKind, chroma_off: int) -> Walk {
    Walk {
        width: f.width,
        height: f.height,
        info: f.info,
        qp: f.qp,
        chroma_off,
        off_a: 2 * f.deblocking.1,
        off_b: 2 * f.deblocking.2,
        strength: |p: int, q: int, edge: bool| m.strength(p, q, edge),
        nxn: m is Intra,
    }
}

/// A frame after deblocking; unchanged where the slice switches it off.
pub open spec fn deblocked(f: Picture, m: MotionKind, chroma_off: int) -> Picture {
    if f.deblocking.0 == 1 {
        f
    } else {
        let p = filtered_from(planes_of(f), walk_of(f, m, chroma_off), 0);
        Picture { y: p.y.d, cb: p.cb.d, cr: p.cr.d, ..f }
    }
}

struct Job<'a> {
    width: usize,
    height: usize,
    info: &'a Vec<MbInfo>,
    qp: &'a Vec<i32>,
    chroma_off: i32,
    off_a: i64,
    off_b: i64,
    motion: Motion<'a>,
}

impl<'a> Job<'a> {
    spec fn walk(self) -> Walk {
        Walk {
            width: self.width as int,
            height: self.height as int,
            info: self.info@,
            qp: self.qp@,
            chroma_off: self.chroma_off as int,
            off_a: self.off_a as int,
            off_b: self.off_b as int,
            strength: |p: int, q: int, edge: bool| self.motion@.strength(p, q, edge),
            nxn: self.motion@ is Intra,
        }
    }

    spec fn ok(self) -> bool {
        &&& self.width >= 1
        &&& self.height >= 1
        &&& 256 * (self.width * self.height) <= isize::MAX
        &&& 256 * self.width <= isize::MAX
        &&& 256 * self.height <= isize::MAX
        &&& self.info@.len() == self.width * self.height
        &&& self.qp@.len() == self.width * self.height
        &&& self.motion.covers(self.width as int, self.height as int)
        &&& -0x2_0000_0000 <= self.off_a <= 0x2_0000_0000
        &&& -0x2_0000_0000 <= self.off_b <= 0x2_0000_0000
    }

    fn blocks(&self, mbx: usize, mby: usize, ei: usize, seg: usize, horiz: bool) -> (r: (usize, usize))
        requires
            self.ok(),
            mbx < self.width,
            mby < self.height,
            ei < 4,
            seg < 4,
            ei == 0 ==> (if horiz {
                mby > 0
            } else {
                mbx > 0
            }),
        ensures
            (r.0 as int, r.1 as int) == edge_blocks(
                mbx as int,
                mby as int,
                ei as int,
                seg as int,
                horiz,
                4 * self.width as int,
            ),
            r.0 < 16 * (self.width * self.height),
            r.1 < 16 * (self.width * self.height),
    {
        let w4: usize = 4 * self.width;
        proof {
            let (w, h) = (self.width as int, self.height as int);
            assert((4 * w) * (4 * h) == 16 * (w * h)) by (nonlinear_arith);
            if horiz {
                lemma_row_bounds(4 * w, 4 * h, 4 * mby + ei - 1, 4 * mbx + seg);
                lemma_row_bounds(4 * w, 4 * h, 4 * mby + ei, 4 * mbx + seg);
            } else {
                lemma_row_bounds(4 * w, 4 * h, 4 * mby + seg, 4 * mbx + ei - 1);
                lemma_row_bounds(4 * w, 4 * h, 4 * mby + seg, 4 * mbx + ei);
            }
        }
        if horiz {
            (
                (4 * mby + ei - 1) * w4 + 4 * mbx + seg,
                (4 * mby + ei) * w4 + 4 * mbx + seg,
            )
        } else {
            (
                (4 * mby + seg) * w4 + 4 * mbx + ei - 1,
                (4 * mby + seg) * w4 + 4 * mbx + ei,
            )
        }
    }

    fn far(&self, mbx: usize, mby: usize, inner: bool, horiz: bool) -> (r: i32)
        requires
            self.ok(),
            mbx < self.width,
            mby < self.height,
            !inner ==> (if horiz {
                mby > 0
            } else {
                mbx > 0
            }),
        ensures
            r == far_qp(self.walk(), mbx as int, mby as int, inner, horiz),
    {
        proof {
            lemma_row_bounds(self.width as int, self.height as int, mby as int, mbx as int);
            if mby > 0 {
                assert(mby * self.width >= self.width) by (nonlinear_arith)
                    requires
                        mby >= 1,
                        self.width >= 0,
                ;
            }
        }
        let addr: usize = mby * self.width + mbx;
        if inner {
            self.qp[addr]
        } else if horiz {
            self.qp[addr - self.width]
        } else {
            self.qp[addr - 1]
        }
    }

    fn luma_seg(&self, y: &mut Plane, mbx: usize, mby: usize, ei: usize, seg: usize, horiz: bool, ia: usize, ib: usize, bs: usize)
        requires
            self.ok(),
            old(y)@.ok(),
            old(y)@.shape() == (16 * self.width as int, 16 * self.height as int, 0int),
            mbx < self.width,
            mby < self.height,
            ei < 4,
            seg < 4,
            ei == 0 ==> (if horiz {
                mby > 0
            } else {
                mbx > 0
            }),
            ia <= 51,
            ib <= 51,
            1 <= bs <= 4,
        ensures
            ({
                let (px, py) = if horiz {
                    (16 * mbx, 16 * mby + 4 * ei)
                } else {
                    (16 * mbx + 4 * ei, 16 * mby as int)
                };
                final(y)@ == luma_lines(
                    old(y)@,
                    px,
                    py,
                    horiz,
                    4 * seg as int,
                    4 * seg + 4,
                    ia as int,
                    ib as int,
                    bs as int,
                )
            }),
            final(y)@.ok(),
            final(y)@.shape() == old(y)@.shape(),
    {
        let (px, py): (usize, usize) = if horiz {
            (16 * mbx, 16 * mby + 4 * ei)
        } else {
            (16 * mbx + 4 * ei, 16 * mby)
        };
        let ghost start = y@;
        let end: usize = 4 * seg + 4;
        for t in 4 * seg..end
            invariant
                self.ok(),
                start == old(y)@,
                y@.ok(),
                y@.shape() == (16 * self.width as int, 16 * self.height as int, 0int),
                mbx < self.width,
                mby < self.height,
                ei < 4,
                seg < 4,
                end == 4 * seg + 4,
                ei == 0 ==> (if horiz {
                    mby > 0
                } else {
                    mbx > 0
                }),
                px == (if horiz {
                    16 * mbx
                } else {
                    16 * mbx + 4 * ei
                }),
                py == (if horiz {
                    16 * mby + 4 * ei
                } else {
                    16 * mby as int
                }),
                ia <= 51,
                ib <= 51,
                1 <= bs <= 4,
                luma_lines(
                    y@,
                    px as int,
                    py as int,
                    horiz,
                    t as int,
                    end as int,
                    ia as int,
                    ib as int,
                    bs as int,
                ) == luma_lines(
                    start,
                    px as int,
                    py as int,
                    horiz,
                    4 * seg as int,
                    end as int,
                    ia as int,
                    ib as int,
                    bs as int,
                ),
        {
            if horiz {
                filter_line(y, px + t, py, true, ia, ib, bs, false);
            } else {
                filter_line(y, px, py + t, false, ia, ib, bs, false);
            }
        }
    }

    fn luma_edge(&self, y: &mut Plane, mbx: usize, mby: usize, ei: usize, horiz: bool)
        requires
            self.ok(),
            old(y)@.ok(),
            old(y)@.shape() == (16 * self.width as int, 16 * self.height as int, 0int),
            mbx < self.width,
            mby < self.height,
            ei < 4,
        ensures
            final(y)@ == luma_edge(
                old(y)@,
                self.walk(),
                mbx as int,
                mby as int,
                ei as int,
                horiz,
            ),
            final(y)@.ok(),
            final(y)@.shape() == old(y)@.shape(),
    {
        proof {
            reveal(luma_edge);
            lemma_row_bounds(self.width as int, self.height as int, mby as int, mbx as int);
        }
        let ghost w = self.walk();
        let addr: usize = mby * self.width + mbx;
        let border: bool = if horiz {
            mby == 0
        } else {
            mbx == 0
        };
        if ei == 0 && border {
            return;
        }
        let info = self.info[addr];
        let any: bool = match self.motion {
            Motion::Intra => false,
            _ => true,
        };
        if ei % 2 == 1 && info.transform8x8 && (info.i_nxn || any) {
            return;
        }
        let mean: i64 = mean_of(self.far(mbx, mby, ei != 0, horiz), self.qp[addr]);
        let ia: usize = index_of(mean, self.off_a);
        let ib: usize = index_of(mean, self.off_b);
        let (alpha, _b, _t) = thresholds(ia, ib, 4);
        if alpha == 0 {
            return;
        }
        let ghost start = y@;
        for seg in 0..4usize
            invariant
                self.ok(),
                w == self.walk(),
                start == old(y)@,
                y@.ok(),
                y@.shape() == (16 * self.width as int, 16 * self.height as int, 0int),
                mbx < self.width,
                mby < self.height,
                ei < 4,
                ei == 0 ==> (if horiz {
                    mby > 0
                } else {
                    mbx > 0
                }),
                ia <= 51,
                ib <= 51,
                luma_segments(
                    y@,
                    w,
                    mbx as int,
                    mby as int,
                    ei as int,
                    horiz,
                    seg as int,
                    ia as int,
                    ib as int,
                ) == luma_segments(
                    start,
                    w,
                    mbx as int,
                    mby as int,
                    ei as int,
                    horiz,
                    0,
                    ia as int,
                    ib as int,
                ),
        {
            let (p, q) = self.blocks(mbx, mby, ei, seg, horiz);
            let bs: usize = self.motion.strength_of(
                p,
                q,
                ei == 0,
                Ghost((self.width as int, self.height as int)),
            );
            if bs != 0 {
                self.luma_seg(y, mbx, mby, ei, seg, horiz, ia, ib, bs);
            }
        }
    }

    fn luma_mb(&self, y: &mut Plane, mbx: usize, mby: usize)
        requires
            self.ok(),
            old(y)@.ok(),
            old(y)@.shape() == (16 * self.width as int, 16 * self.height as int, 0int),
            mbx < self.width,
            mby < self.height,
        ensures
            final(y)@ == luma_edges(old(y)@, self.walk(), mbx as int, mby as int, 0),
            final(y)@.ok(),
            final(y)@.shape() == old(y)@.shape(),
    {
        let ghost w = self.walk();
        let ghost start = y@;
        for e in 0..8usize
            invariant
                self.ok(),
                w == self.walk(),
                start == old(y)@,
                y@.ok(),
                y@.shape() == (16 * self.width as int, 16 * self.height as int, 0int),
                mbx < self.width,
                mby < self.height,
                luma_edges(y@, w, mbx as int, mby as int, e as int) == luma_edges(
                    start,
                    w,
                    mbx as int,
                    mby as int,
                    0,
                ),
        {
            self.luma_edge(y, mbx, mby, e % 4, e >= 4);
        }
    }

    fn chroma_edge(&self, c: &mut Plane, mbx: usize, mby: usize, ce: usize, horiz: bool)
        requires
            self.ok(),
            old(c)@.ok(),
            old(c)@.shape() == (8 * self.width as int, 8 * self.height as int, 0int),
            mbx < self.width,
            mby < self.height,
            ce < 2,
        ensures
            final(c)@ == chroma_edge(
                old(c)@,
                self.walk(),
                mbx as int,
                mby as int,
                ce as int,
                horiz,
            ),
            final(c)@.ok(),
            final(c)@.shape() == old(c)@.shape(),
    {
        proof {
            reveal(chroma_edge);
            lemma_row_bounds(self.width as int, self.height as int, mby as int, mbx as int);
        }
        let ghost w = self.walk();
        let addr: usize = mby * self.width + mbx;
        let border: bool = if horiz {
            mby == 0
        } else {
            mbx == 0
        };
        if ce == 0 && border {
            return;
        }
        let far: i32 = chroma_qp(self.far(mbx, mby, ce != 0, horiz), self.chroma_off);
        let near: i32 = chroma_qp(self.qp[addr], self.chroma_off);
        let mean: i64 = mean_of(far, near);
        let ia: usize = index_of(mean, self.off_a);
        let ib: usize = index_of(mean, self.off_b);
        let (alpha, _b, _t) = thresholds(ia, ib, 4);
        if alpha == 0 {
            return;
        }
        let ghost start = c@;
        for t in 0..8usize
            invariant
                self.ok(),
                w == self.walk(),
                start == old(c)@,
                c@.ok(),
                c@.shape() == (8 * self.width as int, 8 * self.height as int, 0int),
                mbx < self.width,
                mby < self.height,
                ce < 2,
                ce == 0 ==> (if horiz {
                    mby > 0
                } else {
                    mbx > 0
                }),
                ia <= 51,
                ib <= 51,
                chroma_lines(
                    c@,
                    w,
                    mbx as int,
                    mby as int,
                    ce as int,
                    horiz,
                    t as int,
                    ia as int,
                    ib as int,
                ) == chroma_lines(
                    start,
                    w,
                    mbx as int,
                    mby as int,
                    ce as int,
                    horiz,
                    0,
                    ia as int,
                    ib as int,
                ),
        {
            let (p, q) = self.blocks(mbx, mby, 2 * ce, t / 2, horiz);
            let bs: usize = self.motion.strength_of(
                p,
                q,
                ce == 0,
                Ghost((self.width as int, self.height as int)),
            );
            if bs != 0 {
                if horiz {
                    filter_line(c, 8 * mbx + t, 8 * mby + 4 * ce, true, ia, ib, bs, true);
                } else {
                    filter_line(c, 8 * mbx + 4 * ce, 8 * mby + t, false, ia, ib, bs, true);
                }
            }
        }
    }

    fn chroma_mb(&self, c: &mut Plane, mbx: usize, mby: usize)
        requires
            self.ok(),
            old(c)@.ok(),
            old(c)@.shape() == (8 * self.width as int, 8 * self.height as int, 0int),
            mbx < self.width,
            mby < self.height,
        ensures
            final(c)@ == chroma_edges(old(c)@, self.walk(), mbx as int, mby as int),
            final(c)@.ok(),
            final(c)@.shape() == old(c)@.shape(),
    {
        self.chroma_edge(c, mbx, mby, 0, false);
        self.chroma_edge(c, mbx, mby, 1, false);
        self.chroma_edge(c, mbx, mby, 0, true);
        self.chroma_edge(c, mbx, mby, 1, true);
    }
}

/// Deblock a frame in place with the strengths of its motion.
pub fn deblock(frame: &mut Frame, motion: Motion, chroma_off: i32)
    requires
        old(frame).ok(),
        motion.covers(old(frame)@.width, old(frame)@.height),
    ensures
        final(frame)@ == deblocked(old(frame)@, motion@, chroma_off as int),
        final(frame).ok(),
{
    if frame.disable_deblock_idc == 1 {
        return;
    }
    let ghost f0 = frame@;
    let ghost (w, h) = (f0.width, f0.height);
    proof {
        assert(w <= w * h && h <= w * h) by (nonlinear_arith)
            requires
                w >= 1,
                h >= 1,
        ;
        crate::mvc::recon::lemma_band_areas(w, h);
    }
    let width: usize = frame.width_mbs;
    let height: usize = frame.fh / 16;
    let (fw, fh, cw, ch): (usize, usize, usize, usize) = (frame.fw, frame.fh, frame.cw, frame.ch);
    let mut yv: Vec<u8> = Vec::new();
    let mut cbv: Vec<u8> = Vec::new();
    let mut crv: Vec<u8> = Vec::new();
    std::mem::swap(&mut yv, &mut frame.y);
    std::mem::swap(&mut cbv, &mut frame.cb);
    std::mem::swap(&mut crv, &mut frame.cr);
    let mut y = Band::new(yv, fw, fh, 0);
    let mut cb = Band::new(cbv, cw, ch, 0);
    let mut cr = Band::new(crv, cw, ch, 0);
    let job = Job {
        width,
        height,
        info: &frame.mb_info,
        qp: &frame.qp,
        chroma_off,
        off_a: 2 * (frame.slice_alpha_c0_offset_div2 as i64),
        off_b: 2 * (frame.slice_beta_offset_div2 as i64),
        motion,
    };
    let ghost walk = walk_of(f0, motion@, chroma_off as int);
    assert(job.walk().strength =~= walk.strength);
    assert(job.walk() == walk);
    let ghost p0 = planes_of(f0);
    let total: usize = width * height;
    for a in 0..total
        invariant
            job.ok(),
            job.width == width,
            job.height == height,
            total == width * height,
            job.walk() == walk,
            walk.width == width,
            walk.height == height,
            y@.ok(),
            y@.shape() == (16 * width as int, 16 * height as int, 0int),
            cb@.ok(),
            cb@.shape() == (8 * width as int, 8 * height as int, 0int),
            cr@.ok(),
            cr@.shape() == (8 * width as int, 8 * height as int, 0int),
            filtered_from(Planes { y: y@, cb: cb@, cr: cr@ }, walk, a as int) == filtered_from(
                p0,
                walk,
                0,
            ),
    {
        proof {
            crate::mvc::arith::lemma_row_of(width as int, height as int, a as int);
        }
        let (mbx, mby): (usize, usize) = (a % width, a / width);
        job.luma_mb(&mut y, mbx, mby);
        job.chroma_mb(&mut cb, mbx, mby);
        job.chroma_mb(&mut cr, mbx, mby);
    }
    frame.y = y.d;
    frame.cb = cb.d;
    frame.cr = cr.d;
}

impl Frame {
    /// Deblock an intra frame in place: strength 4 on macroblock edges and 3
    /// inside. Nothing happens where the slice switches deblocking off.
    pub fn deblock_intra(&mut self, chroma_off: i32)
        requires
            old(self).ok(),
        ensures
            final(self)@ == deblocked(old(self)@, MotionKind::Intra, chroma_off as int),
            final(self).ok(),
    {
        deblock(self, Motion::Intra, chroma_off);
    }
}

/// A frame whose slices switch deblocking off is left as it is.
pub proof fn law_disabled_deblocking(f: Picture, m: MotionKind, chroma_off: int)
    requires
        f.deblocking.0 == 1,
    ensures
        deblocked(f, m, chroma_off) == f,
{
}

/// References are compared as sets of pictures, not by list: exchanging the two
/// lists does not change how a frame is deblocked.
pub proof fn law_lists_are_exchangeable(
    f: Picture,
    m: BMotionData,
    n: BMotionData,
    chroma_off: int,
)
    requires
        n.mv == (m.mv.1, m.mv.0),
        n.refpoc == (m.refpoc.1, m.refpoc.0),
        n.intra == m.intra,
        n.nz == m.nz,
    ensures
        deblocked(f, MotionKind::Double(n), chroma_off) == deblocked(
            f,
            MotionKind::Double(m),
            chroma_off,
        ),
{
    let (a, b) = (
        walk_of(f, MotionKind::Double(n), chroma_off),
        walk_of(f, MotionKind::Double(m), chroma_off),
    );
    assert(a.strength =~= b.strength);
    assert(a == b);
}

} // verus!

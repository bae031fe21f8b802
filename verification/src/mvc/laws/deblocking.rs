//! Deblocking: the strength of an edge, what the filters do to a line of samples
//! across it, and which edges of a frame are filtered.

use crate::mvc::arith::{clip, magnitude};
use crate::mvc::deblock::{
    alpha_of, beta_of, chroma_line, luma_normal, luma_strong, tc0_of, ALPHA, BETA, TC0,
};
use crate::mvc::laws::grid::law_put_block;
use crate::mvc::loop_filter::{
    chroma_edge, chroma_edges, chroma_line_of, chroma_lines, deblocked, far_apart, filtered_from,
    filtered_line, line_at, luma_edge, luma_edges, luma_line, luma_lines, luma_segments,
    walk_of, MotionKind, Planes, Walk,
};
use crate::mvc::mb_residual::chroma_qp_of;
use crate::mvc::recon::{Grid, Picture};
use crate::mvc::recon_inter::{BMotionData, MotionData};
use vstd::prelude::*;

verus! {

// ---- strength ----

/// An edge with an intra block on either side has strength 4 between macroblocks
/// and 3 inside one: in an intra frame always, with one list where a block has no
/// reference, with two where it is marked.
pub proof fn law_intra_edges_are_strong(m: MotionData, b: BMotionData, p: int, q: int)
    ensures
        MotionKind::Intra.strength(p, q, true) == 4,
        MotionKind::Intra.strength(p, q, false) == 3,
        m.refidx[p] < 0 || m.refidx[q] < 0 ==> MotionKind::Single(m).strength(p, q, true) == 4
            && MotionKind::Single(m).strength(p, q, false) == 3,
        b.intra[p] || b.intra[q] ==> MotionKind::Double(b).strength(p, q, true) == 4
            && MotionKind::Double(b).strength(p, q, false) == 3,
{
}

/// Between inter blocks the strength is at most 2 and the same inside a macroblock
/// and between two: 2 exactly where a block has coefficients. So an edge beside an
/// intra block is always the stronger one.
pub proof fn law_coefficients_give_two(
    m: MotionData,
    b: BMotionData,
    p: int,
    q: int,
    edge: bool,
)
    ensures
        m.refidx[p] >= 0 && m.refidx[q] >= 0 ==> {
            let s = MotionKind::Single(m).strength(p, q, edge);
            0 <= s <= 2 && (s == 2 <==> m.nz[p] || m.nz[q])
        },
        !b.intra[p] && !b.intra[q] ==> {
            let s = MotionKind::Double(b).strength(p, q, edge);
            0 <= s <= 2 && (s == 2 <==> b.nz[p] || b.nz[q])
        },
{
}

/// Two vectors lie four quarter samples or more apart in a component.
pub open spec fn apart(a: (i32, i32), b: (i32, i32)) -> bool {
    a.0 - b.0 >= 4 || b.0 - a.0 >= 4 || a.1 - b.1 >= 4 || b.1 - a.1 >= 4
}

/// The vector is short enough that differences do not overflow.
pub open spec fn modest(v: (i32, i32)) -> bool {
    -0x4000_0000 <= v.0 < 0x4000_0000 && -0x4000_0000 <= v.1 < 0x4000_0000
}

proof fn lemma_apart(a: (i32, i32), b: (i32, i32))
    requires
        modest(a),
        modest(b),
    ensures
        far_apart(a, b) == apart(a, b),
{
}

/// With one list and no coefficients, the strength is 1 where the references differ
/// or the vectors lie a whole sample apart, and 0 otherwise.
pub proof fn law_single_motion(m: MotionData, p: int, q: int, edge: bool)
    requires
        m.refidx[p] >= 0,
        m.refidx[q] >= 0,
        !m.nz[p],
        !m.nz[q],
        modest(m.mv[p]),
        modest(m.mv[q]),
    ensures
        MotionKind::Single(m).strength(p, q, edge) == (if m.refidx[p] != m.refidx[q] || apart(
            m.mv[p],
            m.mv[q],
        ) {
            1int
        } else {
            0
        }),
{
    lemma_apart(m.mv[p], m.mv[q]);
}

/// With two lists and no coefficients, the strength is 0 exactly where both blocks
/// use the same pictures and, for some pairing of their vectors picture by picture,
/// the vectors of each pair lie less than a whole sample apart.
pub proof fn law_double_motion(b: BMotionData, p: int, q: int, edge: bool)
    requires
        !b.intra[p],
        !b.intra[q],
        !b.nz[p],
        !b.nz[q],
        modest(b.mv.0[p]),
        modest(b.mv.0[q]),
        modest(b.mv.1[p]),
        modest(b.mv.1[q]),
    ensures
        ({
            let s = MotionKind::Double(b).strength(p, q, edge);
            let straight = b.refpoc.0[p] == b.refpoc.0[q] && b.refpoc.1[p] == b.refpoc.1[q]
                && !apart(b.mv.0[p], b.mv.0[q]) && !apart(b.mv.1[p], b.mv.1[q]);
            let crossed = b.refpoc.0[p] == b.refpoc.1[q] && b.refpoc.1[p] == b.refpoc.0[q]
                && !apart(b.mv.0[p], b.mv.1[q]) && !apart(b.mv.1[p], b.mv.0[q]);
            &&& straight || crossed ==> s == 0
            &&& !straight && !crossed ==> s == 1
        }),
{
    lemma_apart(b.mv.0[p], b.mv.0[q]);
    lemma_apart(b.mv.1[p], b.mv.1[q]);
    lemma_apart(b.mv.0[p], b.mv.1[q]);
    lemma_apart(b.mv.1[p], b.mv.0[q]);
}

/// The strength does not depend on which side of the edge is named first.
pub proof fn law_strength_is_symmetric(m: MotionKind, p: int, q: int, edge: bool)
    requires
        m matches MotionKind::Single(x) ==> modest(x.mv[p]) && modest(x.mv[q]),
        m matches MotionKind::Double(x) ==> modest(x.mv.0[p]) && modest(x.mv.0[q]) && modest(
            x.mv.1[p],
        ) && modest(x.mv.1[q]),
    ensures
        m.strength(p, q, edge) == m.strength(q, p, edge),
{
}

// ---- lines ----

/// Eight samples of eight bits: p3, p2, p1, p0 before the edge and q0, q1, q2, q3
/// behind it.
pub open spec fn line(s: Seq<i32>) -> bool {
    s.len() == 8 && forall|i: int| 0 <= i < 8 ==> 0 <= #[trigger] s[i] <= 255
}

/// The samples beside the edge differ by less than `alpha`, and on both sides from
/// their neighbours by less than `beta`.
pub open spec fn smooth(s: Seq<i32>, alpha: int, beta: int) -> bool {
    &&& -alpha < s[3] - s[4] < alpha
    &&& -beta < s[2] - s[3] < beta
    &&& -beta < s[5] - s[4] < beta
}

/// A line with a step that is too high on the edge or beside it is left alone.
pub proof fn law_rough_lines_stay(s: Seq<i32>, alpha: int, beta: int, tc0: int, strong: bool)
    requires
        !smooth(s, alpha, beta),
    ensures
        luma_normal(s, alpha, beta, tc0) == s,
        luma_strong(s, alpha, beta) == s,
        chroma_line(s, alpha, beta, tc0, strong) == s,
{
}

/// The normal luma filter moves p0 and q0 towards each other by the same amount: an
/// eighth of four times the step and the outer slope, rounded, but no more than the
/// clipping value and one for each side that is flat. It moves p1 and q1 only on a
/// flat side, by no more than the clipping value, and no other sample.
pub proof fn law_normal_filter(s: Seq<i32>, alpha: int, beta: int, tc0: int)
    requires
        line(s),
        smooth(s, alpha, beta),
        0 <= tc0 <= 25,
    ensures
        ({
            let t = luma_normal(s, alpha, beta, tc0);
            let flat_p = -beta < s[1] - s[3] < beta;
            let flat_q = -beta < s[6] - s[4] < beta;
            let tc = tc0 + (if flat_p {
                1int
            } else {
                0
            }) + (if flat_q {
                1int
            } else {
                0
            });
            let raw = (4 * (s[4] - s[3]) + (s[2] - s[5]) + 4) / 8;
            let d = if raw > tc {
                tc
            } else if raw < -tc {
                -tc
            } else {
                raw
            };
            &&& t.len() == 8
            &&& t[0] == s[0] && t[1] == s[1] && t[6] == s[6] && t[7] == s[7]
            &&& 0 <= s[3] + d <= 255 ==> t[3] == s[3] + d
            &&& 0 <= s[4] - d <= 255 ==> t[4] == s[4] - d
            &&& 0 <= t[3] <= 255 && 0 <= t[4] <= 255
            &&& !flat_p ==> t[2] == s[2]
            &&& !flat_q ==> t[5] == s[5]
            &&& flat_p ==> t[2] - s[2] == clip(
                -tc0,
                tc0,
                (s[1] + (s[3] + s[4] + 1) / 2 - 2 * s[2]) / 2,
            )
            &&& flat_q ==> t[5] - s[5] == clip(
                -tc0,
                tc0,
                (s[6] + (s[3] + s[4] + 1) / 2 - 2 * s[5]) / 2,
            )
        }),
{
    assert(0 <= s[1] <= 255 && 0 <= s[2] <= 255 && 0 <= s[3] <= 255 && 0 <= s[4] <= 255 && 0 <= s[5]
        <= 255 && 0 <= s[6] <= 255);
}

/// The strong luma filter on one side: three samples are averaged anew where the
/// side is flat and the step small, and only the one beside the edge otherwise.
pub open spec fn strong_result(
    flat: bool,
    x3: int,
    x2: int,
    x1: int,
    x0: int,
    y0: int,
    y1: int,
    n2: int,
    n1: int,
    n0: int,
) -> bool {
    &&& flat ==> {
        &&& 8 * n0 <= x2 + 2 * x1 + 2 * x0 + 2 * y0 + y1 + 4 < 8 * n0 + 8
        &&& 4 * n1 <= x2 + x1 + x0 + y0 + 2 < 4 * n1 + 4
        &&& 8 * n2 <= 2 * x3 + 3 * x2 + x1 + x0 + y0 + 4 < 8 * n2 + 8
    }
    &&& !flat ==> {
        &&& 4 * n0 <= 2 * x1 + x0 + y1 + 2 < 4 * n0 + 4
        &&& n1 == x1
        &&& n2 == x2
    }
}

/// The strong luma filter, for edges of strength 4.
pub proof fn law_strong_filter(s: Seq<i32>, alpha: int, beta: int)
    requires
        line(s),
        smooth(s, alpha, beta),
    ensures
        ({
            let t = luma_strong(s, alpha, beta);
            let small = 4 * magnitude(s[3] - s[4]) < 4 * (alpha / 4) + 8;
            &&& t.len() == 8
            &&& t[0] == s[0] && t[7] == s[7]
            &&& strong_result(
                small && -beta < s[1] - s[3] < beta,
                s[0] as int,
                s[1] as int,
                s[2] as int,
                s[3] as int,
                s[4] as int,
                s[5] as int,
                t[1] as int,
                t[2] as int,
                t[3] as int,
            )
            &&& strong_result(
                small && -beta < s[6] - s[4] < beta,
                s[7] as int,
                s[6] as int,
                s[5] as int,
                s[4] as int,
                s[3] as int,
                s[2] as int,
                t[6] as int,
                t[5] as int,
                t[4] as int,
            )
        }),
{
    assert(0 <= s[0] <= 255 && 0 <= s[1] <= 255 && 0 <= s[2] <= 255 && 0 <= s[3] <= 255 && 0 <= s[4]
        <= 255 && 0 <= s[5] <= 255 && 0 <= s[6] <= 255 && 0 <= s[7] <= 255);
}

/// A line read backwards.
pub open spec fn backwards(s: Seq<i32>) -> Seq<i32> {
    Seq::new(8, |i: int| s[7 - i])
}

/// The strong luma filter treats both sides alike: a mirrored line is filtered to
/// the mirror image.
pub proof fn law_strong_filter_is_symmetric(s: Seq<i32>, alpha: int, beta: int)
    requires
        line(s),
    ensures
        luma_strong(backwards(s), alpha, beta) == backwards(luma_strong(s, alpha, beta)),
{
    let b = backwards(s);
    assert(b[0] == s[7] && b[1] == s[6] && b[2] == s[5] && b[3] == s[4] && b[4] == s[3] && b[5]
        == s[2] && b[6] == s[1] && b[7] == s[0]);
    let (x, y) = (luma_strong(b, alpha, beta), backwards(luma_strong(s, alpha, beta)));
    if smooth(s, alpha, beta) {
        assert(x[0] == y[0] && x[1] == y[1] && x[2] == y[2] && x[3] == y[3]);
        assert(x[4] == y[4] && x[5] == y[5] && x[6] == y[6] && x[7] == y[7]);
        assert(x =~= y);
    } else {
        assert(x =~= y);
    }
}

/// The chroma filters change the two samples beside the edge only: the strong one
/// to a mean that leans on their own side, the normal one by equal amounts towards
/// each other, at most one more than the clipping value.
pub proof fn law_chroma_filter(s: Seq<i32>, alpha: int, beta: int, tc0: int)
    requires
        line(s),
        smooth(s, alpha, beta),
        0 <= tc0 <= 25,
    ensures
        ({
            let t = chroma_line(s, alpha, beta, tc0, true);
            &&& t.len() == 8
            &&& forall|i: int| 0 <= i < 8 && i != 3 && i != 4 ==> #[trigger] t[i] == s[i]
            &&& 4 * t[3] <= 2 * s[2] + s[3] + s[5] + 2 < 4 * t[3] + 4
            &&& 4 * t[4] <= 2 * s[5] + s[4] + s[2] + 2 < 4 * t[4] + 4
        }),
        ({
            let t = chroma_line(s, alpha, beta, tc0, false);
            let d = clip(-tc0 - 1, tc0 + 1, (4 * (s[4] - s[3]) + (s[2] - s[5]) + 4) / 8);
            &&& t.len() == 8
            &&& forall|i: int| 0 <= i < 8 && i != 3 && i != 4 ==> #[trigger] t[i] == s[i]
            &&& t[3] == clip(0, 255, s[3] + d)
            &&& t[4] == clip(0, 255, s[4] - d)
        }),
{
    assert(0 <= s[2] <= 255 && 0 <= s[3] <= 255 && 0 <= s[4] <= 255 && 0 <= s[5] <= 255);
}

/// Edges of strength 4 take the strong filters, the others the normal ones with the
/// clipping value of their strength.
pub proof fn law_filter_by_strength(s: Seq<i32>, ia: int, ib: int, bs: int)
    requires
        1 <= bs <= 4,
    ensures
        bs == 4 ==> luma_line(s, ia, ib, bs) == luma_strong(s, alpha_of(ia), beta_of(ib)),
        bs < 4 ==> luma_line(s, ia, ib, bs) == luma_normal(
            s,
            alpha_of(ia),
            beta_of(ib),
            tc0_of(ia, bs),
        ),
        bs == 4 ==> chroma_line_of(s, ia, ib, bs) == chroma_line(
            s,
            alpha_of(ia),
            beta_of(ib),
            0,
            true,
        ),
        bs < 4 ==> chroma_line_of(s, ia, ib, bs) == chroma_line(
            s,
            alpha_of(ia),
            beta_of(ib),
            tc0_of(ia, bs),
            false,
        ),
{
}

// ---- the edges of a frame ----

/// The line of eight samples across an edge at position `r` along it.
pub open spec fn line_on(g: Grid<u8>, x: int, y: int, horiz: bool, r: int) -> Seq<i32> {
    Seq::new(
        8,
        |k: int|
            if horiz {
                g.at(x + r, y - 4 + k) as i32
            } else {
                g.at(x - 4 + k, y + r) as i32
            },
    )
}

/// Where a sample lies relative to an edge: how far along it, and which one of the
/// eight across it.
pub open spec fn along(x: int, y: int, horiz: bool, i: int, j: int) -> (int, int) {
    if horiz {
        (i - x, j - y + 4)
    } else {
        (j - y, i - x + 4)
    }
}

/// An edge of `n` samples and four on either side lie inside the plane.
pub open spec fn edge_inside(g: Grid<u8>, x: int, y: int, horiz: bool, n: int) -> bool {
    &&& g.ok()
    &&& if horiz {
        0 <= x && x + n <= g.w && g.y0 + 4 <= y && y + 4 <= g.y0 + g.rows
    } else {
        4 <= x && x + 4 <= g.w && g.y0 <= y && y + n <= g.y0 + g.rows
    }
}

/// How a line at a position along an edge changes; `None` where it stays.
pub type LineFilter = spec_fn(int, Seq<i32>) -> Option<Seq<i32>>;

/// The sample after the lines from `lo` to `hi` along an edge are filtered.
pub open spec fn relined_at(
    g: Grid<u8>,
    x: int,
    y: int,
    horiz: bool,
    lo: int,
    hi: int,
    f: LineFilter,
    i: int,
    j: int,
) -> u8 {
    let (a, k) = along(x, y, horiz, i, j);
    let t = f(a, line_on(g, x, y, horiz, a));
    if lo <= a < hi && 0 <= k < 8 && t is Some {
        clip(0, 255, (t->0)[k] as int) as u8
    } else {
        g.at(i, j)
    }
}

/// One plane is another with the lines from `lo` to `hi` along an edge filtered.
pub open spec fn relined(
    h: Grid<u8>,
    g: Grid<u8>,
    x: int,
    y: int,
    horiz: bool,
    lo: int,
    hi: int,
    f: LineFilter,
) -> bool {
    &&& h.ok() && h.shape() == g.shape()
    &&& forall|i: int, j: int|
        0 <= i < g.w && g.y0 <= j < g.y0 + g.rows ==> #[trigger] h.at(i, j) == relined_at(
            g,
            x,
            y,
            horiz,
            lo,
            hi,
            f,
            i,
            j,
        )
}

proof fn lemma_same_line(
    h: Grid<u8>,
    g: Grid<u8>,
    x: int,
    y: int,
    horiz: bool,
    n: int,
    lo: int,
    hi: int,
    f: LineFilter,
    a: int,
)
    requires
        edge_inside(g, x, y, horiz, n),
        relined(h, g, x, y, horiz, lo, hi, f),
        0 <= a < n,
        !(lo <= a < hi),
    ensures
        line_on(h, x, y, horiz, a) == line_on(g, x, y, horiz, a),
{
    let (p, q) = (line_on(h, x, y, horiz, a), line_on(g, x, y, horiz, a));
    assert forall|k: int| 0 <= k < 8 implies p[k] == q[k] by {
        let (i, j) = if horiz {
            (x + a, y - 4 + k)
        } else {
            (x - 4 + k, y + a)
        };
        assert(h.at(i, j) == relined_at(g, x, y, horiz, lo, hi, f, i, j));
    }
    assert(p =~= q);
}

proof fn lemma_relined_twice(
    h2: Grid<u8>,
    h1: Grid<u8>,
    g: Grid<u8>,
    x: int,
    y: int,
    horiz: bool,
    n: int,
    lo: int,
    mid: int,
    hi: int,
    f: LineFilter,
)
    requires
        edge_inside(g, x, y, horiz, n),
        0 <= lo <= mid <= hi <= n,
        relined(h1, g, x, y, horiz, lo, mid, f),
        relined(h2, h1, x, y, horiz, mid, hi, f),
    ensures
        relined(h2, g, x, y, horiz, lo, hi, f),
{
    assert forall|i: int, j: int| 0 <= i < g.w && g.y0 <= j < g.y0 + g.rows implies #[trigger] h2.at(
        i,
        j,
    ) == relined_at(g, x, y, horiz, lo, hi, f, i, j) by {
        let (a, k) = along(x, y, horiz, i, j);
        assert(h2.at(i, j) == relined_at(h1, x, y, horiz, mid, hi, f, i, j));
        assert(h1.at(i, j) == relined_at(g, x, y, horiz, lo, mid, f, i, j));
        if mid <= a < hi {
            lemma_same_line(h1, g, x, y, horiz, n, lo, mid, f, a);
        }
    }
}

proof fn lemma_not_relined(g: Grid<u8>, x: int, y: int, horiz: bool, lo: int, hi: int, f: LineFilter)
    requires
        g.ok(),
        forall|a: int, s: Seq<i32>| lo <= a < hi ==> #[trigger] f(a, s) is None,
    ensures
        relined(g, g, x, y, horiz, lo, hi, f),
{
}

proof fn lemma_one_line(
    g: Grid<u8>,
    x: int,
    y: int,
    horiz: bool,
    n: int,
    r: int,
    ia: int,
    ib: int,
    bs: int,
    chroma: bool,
    f: LineFilter,
)
    requires
        edge_inside(g, x, y, horiz, n),
        0 <= r < n,
        forall|s: Seq<i32>| #[trigger]
            f(r, s) == Some(
                if chroma {
                    chroma_line_of(s, ia, ib, bs)
                } else {
                    luma_line(s, ia, ib, bs)
                },
            ),
    ensures
        horiz ==> relined(
            filtered_line(g, x + r, y, horiz, ia, ib, bs, chroma),
            g,
            x,
            y,
            horiz,
            r,
            r + 1,
            f,
        ),
        !horiz ==> relined(
            filtered_line(g, x, y + r, horiz, ia, ib, bs, chroma),
            g,
            x,
            y,
            horiz,
            r,
            r + 1,
            f,
        ),
{
    reveal(filtered_line);
    let (lx, ly) = if horiz {
        (x + r, y)
    } else {
        (x, y + r)
    };
    let h = filtered_line(g, lx, ly, horiz, ia, ib, bs, chroma);
    let s = line_on(g, x, y, horiz, r);
    assert(line_at(g, lx, ly, horiz) =~= s);
    let t = (f(r, s))->0;
    let b = Seq::new(8, |k: int| clip(0, 255, t[k] as int) as u8);
    assert forall|i: int, j: int| 0 <= i < g.w && g.y0 <= j < g.y0 + g.rows implies #[trigger] h.at(
        i,
        j,
    ) == relined_at(g, x, y, horiz, r, r + 1, f, i, j) by {
        if horiz {
            law_put_block(g, lx, ly - 4, 1, 8, b, i, j);
        } else {
            law_put_block(g, lx - 4, ly, 8, 1, b, i, j);
        }
    }
    if horiz {
        law_put_block(g, lx, ly - 4, 1, 8, b, lx, ly);
    } else {
        law_put_block(g, lx - 4, ly, 8, 1, b, lx, ly);
    }
}

proof fn lemma_luma_lines(
    g: Grid<u8>,
    x: int,
    y: int,
    horiz: bool,
    t: int,
    end: int,
    n: int,
    ia: int,
    ib: int,
    bs: int,
    f: LineFilter,
)
    requires
        edge_inside(g, x, y, horiz, n),
        0 <= t <= end <= n,
        forall|a: int, s: Seq<i32>|
            t <= a < end ==> #[trigger] f(a, s) == Some(luma_line(s, ia, ib, bs)),
    ensures
        relined(luma_lines(g, x, y, horiz, t, end, ia, ib, bs), g, x, y, horiz, t, end, f),
    decreases end - t,
{
    if t < end {
        lemma_one_line(g, x, y, horiz, n, t, ia, ib, bs, false, f);
        let (lx, ly) = if horiz {
            (x + t, y)
        } else {
            (x, y + t)
        };
        let h = filtered_line(g, lx, ly, horiz, ia, ib, bs, false);
        lemma_luma_lines(h, x, y, horiz, t + 1, end, n, ia, ib, bs, f);
        lemma_relined_twice(
            luma_lines(h, x, y, horiz, t + 1, end, ia, ib, bs),
            h,
            g,
            x,
            y,
            horiz,
            n,
            t,
            t + 1,
            end,
            f,
        );
    }
}

/// The strength of a luma edge at position `r` along it: that of the 4x4 blocks on
/// its two sides, in a grid of four blocks per macroblock.
pub open spec fn strength_on(w: Walk, mbx: int, mby: int, ei: int, horiz: bool, r: int) -> int {
    let (c, d) = (4 * mbx, 4 * mby);
    let w4 = 4 * w.width;
    if horiz {
        (w.strength)((d + ei - 1) * w4 + c + r / 4, (d + ei) * w4 + c + r / 4, ei == 0)
    } else {
        (w.strength)((d + r / 4) * w4 + c + ei - 1, (d + r / 4) * w4 + c + ei, ei == 0)
    }
}

/// The luma lines of an edge, each by the strength of the blocks beside it.
pub open spec fn luma_filter(w: Walk, mbx: int, mby: int, ei: int, horiz: bool, ia: int, ib: int) -> LineFilter {
    |a: int, s: Seq<i32>|
        {
            let bs = strength_on(w, mbx, mby, ei, horiz, a);
            if bs == 0 {
                None
            } else {
                Some(luma_line(s, ia, ib, bs))
            }
        }
}

/// The chroma lines of an edge, each by the strength of the luma edge twice as far
/// along the macroblock.
pub open spec fn chroma_filter(
    w: Walk,
    mbx: int,
    mby: int,
    ce: int,
    horiz: bool,
    ia: int,
    ib: int,
) -> LineFilter {
    |a: int, s: Seq<i32>|
        {
            let bs = strength_on(w, mbx, mby, 2 * ce, horiz, 2 * a);
            if bs == 0 {
                None
            } else {
                Some(chroma_line_of(s, ia, ib, bs))
            }
        }
}

proof fn lemma_luma_segments(
    g: Grid<u8>,
    w: Walk,
    mbx: int,
    mby: int,
    ei: int,
    horiz: bool,
    seg: int,
    ia: int,
    ib: int,
    x: int,
    y: int,
)
    requires
        0 <= seg <= 4,
        x == (if horiz {
            16 * mbx
        } else {
            16 * mbx + 4 * ei
        }),
        y == (if horiz {
            16 * mby + 4 * ei
        } else {
            16 * mby
        }),
        edge_inside(g, x, y, horiz, 16),
    ensures
        relined(
            luma_segments(g, w, mbx, mby, ei, horiz, seg, ia, ib),
            g,
            x,
            y,
            horiz,
            4 * seg,
            16,
            luma_filter(w, mbx, mby, ei, horiz, ia, ib),
        ),
    decreases 4 - seg,
{
    let f = luma_filter(w, mbx, mby, ei, horiz, ia, ib);
    if seg < 4 {
        let bs = strength_on(w, mbx, mby, ei, horiz, 4 * seg);
        assert forall|a: int, s: Seq<i32>| 4 * seg <= a < 4 * seg + 4 implies #[trigger] f(a, s)
            == (if bs == 0 {
            None
        } else {
            Some(luma_line(s, ia, ib, bs))
        }) by {
            assert(a / 4 == seg && 4 * seg / 4 == seg);
        }
        let h = if bs == 0 {
            lemma_not_relined(g, x, y, horiz, 4 * seg, 4 * seg + 4, f);
            g
        } else {
            lemma_luma_lines(g, x, y, horiz, 4 * seg, 4 * seg + 4, 16, ia, ib, bs, f);
            luma_lines(g, x, y, horiz, 4 * seg, 4 * seg + 4, ia, ib, bs)
        };
        lemma_luma_segments(h, w, mbx, mby, ei, horiz, seg + 1, ia, ib, x, y);
        lemma_relined_twice(
            luma_segments(h, w, mbx, mby, ei, horiz, seg + 1, ia, ib),
            h,
            g,
            x,
            y,
            horiz,
            16,
            4 * seg,
            4 * seg + 4,
            16,
            f,
        );
    } else {
        lemma_not_relined(g, x, y, horiz, 16, 16, f);
    }
}

/// The quantiser index of an edge: the rounded mean of the two quantisers moved by
/// an offset, within the tables.
pub open spec fn index_of(a: int, b: int, offset: int) -> int {
    clip(0, 51, (a + b + 1) / 2 + offset)
}

/// A luma edge of a macroblock, four samples apart: `ei` 0 lies between macroblocks
/// and is filtered with the mean quantiser of both, the others with the
/// macroblock's own. Each of its 16 lines is filtered by the strength of the blocks
/// beside it, and no other sample changes. Edges on the border of the frame stay,
/// and so do those inside an 8x8 transform block.
pub proof fn law_luma_edge(g: Grid<u8>, w: Walk, mbx: int, mby: int, ei: int, horiz: bool)
    requires
        0 <= ei < 4,
        0 <= mbx < w.width,
        0 <= mby,
        g.ok(),
        16 * mbx + 16 <= g.w,
        g.y0 == 0,
        16 * mby + 16 <= g.rows,
    ensures
        ({
            let h = luma_edge(g, w, mbx, mby, ei, horiz);
            let own = mby * w.width + mbx;
            let other = if ei != 0 {
                own
            } else if horiz {
                own - w.width
            } else {
                own - 1
            };
            let (x, y) = if horiz {
                (16 * mbx, 16 * mby + 4 * ei)
            } else {
                (16 * mbx + 4 * ei, 16 * mby)
            };
            let ia = index_of(w.qp[other] as int, w.qp[own] as int, w.off_a);
            let ib = index_of(w.qp[other] as int, w.qp[own] as int, w.off_b);
            let whole = w.info[own].transform8x8 && (w.info[own].i_nxn || !w.nxn);
            &&& (ei == 0 && !horiz && mbx == 0) ==> h == g
            &&& (ei == 0 && horiz && mby == 0) ==> h == g
            &&& (whole && (ei == 1 || ei == 3)) ==> h == g
            &&& alpha_of(ia) == 0 ==> h == g
            &&& (!(whole && (ei == 1 || ei == 3)) && (ei != 0 || (horiz && mby > 0) || (!horiz && mbx
                > 0)) && alpha_of(ia) != 0) ==> relined(
                h,
                g,
                x,
                y,
                horiz,
                0,
                16,
                luma_filter(w, mbx, mby, ei, horiz, ia, ib),
            )
        }),
{
    reveal(luma_edge);
    let (x, y) = if horiz {
        (16 * mbx, 16 * mby + 4 * ei)
    } else {
        (16 * mbx + 4 * ei, 16 * mby)
    };
    let own = mby * w.width + mbx;
    let other = if ei != 0 {
        own
    } else if horiz {
        own - w.width
    } else {
        own - 1
    };
    let ia = index_of(w.qp[other] as int, w.qp[own] as int, w.off_a);
    let ib = index_of(w.qp[other] as int, w.qp[own] as int, w.off_b);
    if ei != 0 || (horiz && mby > 0) || (!horiz && mbx > 0) {
        lemma_luma_segments(g, w, mbx, mby, ei, horiz, 0, ia, ib, x, y);
    }
}

/// The edges of a macroblock are filtered in turn: the four vertical ones from left
/// to right, then the four horizontal ones from top to bottom; in chroma two and
/// two.
pub proof fn law_edges_in_turn(g: Grid<u8>, w: Walk, mbx: int, mby: int)
    ensures
        ({
            let v0 = luma_edge(g, w, mbx, mby, 0, false);
            let v1 = luma_edge(v0, w, mbx, mby, 1, false);
            let v2 = luma_edge(v1, w, mbx, mby, 2, false);
            let v3 = luma_edge(v2, w, mbx, mby, 3, false);
            let h0 = luma_edge(v3, w, mbx, mby, 0, true);
            let h1 = luma_edge(h0, w, mbx, mby, 1, true);
            let h2 = luma_edge(h1, w, mbx, mby, 2, true);
            luma_edges(g, w, mbx, mby, 0) == luma_edge(h2, w, mbx, mby, 3, true)
        }),
        ({
            let v0 = chroma_edge(g, w, mbx, mby, 0, false);
            let v1 = chroma_edge(v0, w, mbx, mby, 1, false);
            let h0 = chroma_edge(v1, w, mbx, mby, 0, true);
            chroma_edges(g, w, mbx, mby) == chroma_edge(h0, w, mbx, mby, 1, true)
        }),
{
    reveal_with_fuel(luma_edges, 9);
}

proof fn lemma_chroma_lines(
    g: Grid<u8>,
    w: Walk,
    mbx: int,
    mby: int,
    ce: int,
    horiz: bool,
    t: int,
    ia: int,
    ib: int,
    x: int,
    y: int,
)
    requires
        0 <= t <= 8,
        x == (if horiz {
            8 * mbx
        } else {
            8 * mbx + 4 * ce
        }),
        y == (if horiz {
            8 * mby + 4 * ce
        } else {
            8 * mby
        }),
        0 <= ce <= 1,
        edge_inside(g, x, y, horiz, 8),
    ensures
        relined(
            chroma_lines(g, w, mbx, mby, ce, horiz, t, ia, ib),
            g,
            x,
            y,
            horiz,
            t,
            8,
            chroma_filter(w, mbx, mby, ce, horiz, ia, ib),
        ),
    decreases 8 - t,
{
    let f = chroma_filter(w, mbx, mby, ce, horiz, ia, ib);
    if t < 8 {
        let bs = strength_on(w, mbx, mby, 2 * ce, horiz, 2 * t);
        assert(2 * t / 4 == t / 2);
        let (lx, ly) = if horiz {
            (x + t, y)
        } else {
            (x, y + t)
        };
        let h = if bs == 0 {
            lemma_not_relined(g, x, y, horiz, t, t + 1, f);
            g
        } else {
            lemma_one_line(g, x, y, horiz, 8, t, ia, ib, bs, true, f);
            filtered_line(g, lx, ly, horiz, ia, ib, bs, true)
        };
        lemma_chroma_lines(h, w, mbx, mby, ce, horiz, t + 1, ia, ib, x, y);
        lemma_relined_twice(
            chroma_lines(h, w, mbx, mby, ce, horiz, t + 1, ia, ib),
            h,
            g,
            x,
            y,
            horiz,
            8,
            t,
            t + 1,
            8,
            f,
        );
    } else {
        lemma_not_relined(g, x, y, horiz, 8, 8, f);
    }
}

/// A chroma edge of a macroblock, four samples apart: each of its 8 lines takes the
/// strength of the luma edge twice as far along the macroblock, and the quantiser
/// is the mean of the chroma quantisers of both sides.
pub proof fn law_chroma_edge(g: Grid<u8>, w: Walk, mbx: int, mby: int, ce: int, horiz: bool)
    requires
        0 <= ce < 2,
        0 <= mbx < w.width,
        0 <= mby,
        g.ok(),
        8 * mbx + 8 <= g.w,
        g.y0 == 0,
        8 * mby + 8 <= g.rows,
    ensures
        ({
            let h = chroma_edge(g, w, mbx, mby, ce, horiz);
            let own = mby * w.width + mbx;
            let other = if ce != 0 {
                own
            } else if horiz {
                own - w.width
            } else {
                own - 1
            };
            let (x, y) = if horiz {
                (8 * mbx, 8 * mby + 4 * ce)
            } else {
                (8 * mbx + 4 * ce, 8 * mby)
            };
            let (p, q) = (
                chroma_qp_of(w.qp[other] as int, w.chroma_off),
                chroma_qp_of(w.qp[own] as int, w.chroma_off),
            );
            let (ia, ib) = (index_of(p, q, w.off_a), index_of(p, q, w.off_b));
            &&& (ce == 0 && !horiz && mbx == 0) ==> h == g
            &&& (ce == 0 && horiz && mby == 0) ==> h == g
            &&& alpha_of(ia) == 0 ==> h == g
            &&& ((ce != 0 || (horiz && mby > 0) || (!horiz && mbx > 0)) && alpha_of(ia) != 0) ==> relined(
                h,
                g,
                x,
                y,
                horiz,
                0,
                8,
                chroma_filter(w, mbx, mby, ce, horiz, ia, ib),
            )
        }),
{
    reveal(chroma_edge);
    let (x, y) = if horiz {
        (8 * mbx, 8 * mby + 4 * ce)
    } else {
        (8 * mbx + 4 * ce, 8 * mby)
    };
    let own = mby * w.width + mbx;
    let other = if ce != 0 {
        own
    } else if horiz {
        own - w.width
    } else {
        own - 1
    };
    let (p, q) = (
        chroma_qp_of(w.qp[other] as int, w.chroma_off),
        chroma_qp_of(w.qp[own] as int, w.chroma_off),
    );
    if ce != 0 || (horiz && mby > 0) || (!horiz && mbx > 0) {
        lemma_chroma_lines(
            g,
            w,
            mbx,
            mby,
            ce,
            horiz,
            0,
            index_of(p, q, w.off_a),
            index_of(p, q, w.off_b),
            x,
            y,
        );
    }
}

/// Macroblocks are filtered in raster order, each in all three planes.
pub proof fn law_raster_order(p: Planes, w: Walk, mbx: int, mby: int)
    requires
        0 <= mbx < w.width,
        0 <= mby < w.height,
    ensures
        filtered_from(p, w, mby * w.width + mbx) == filtered_from(
            Planes {
                y: luma_edges(p.y, w, mbx, mby, 0),
                cb: chroma_edges(p.cb, w, mbx, mby),
                cr: chroma_edges(p.cr, w, mbx, mby),
            },
            w,
            mby * w.width + mbx + 1,
        ),
        filtered_from(p, w, w.width * w.height) == p,
{
    crate::mvc::arith::lemma_row_major(w.width, mby, mbx);
    crate::mvc::arith::lemma_row_bounds(w.width, w.height, mby, mbx);
}

/// Deblocking starts with the first macroblock of the frame, with twice the coded
/// offsets and the strengths of the frame's motion, and changes the samples only.
/// It is left out exactly where the slice says so by the number 1.
pub proof fn law_deblocking_of_a_frame(f: Picture, m: MotionKind, chroma_off: int, w: Walk)
    requires
        w.width == f.width,
        w.height == f.height,
        w.info == f.info,
        w.qp == f.qp,
        w.chroma_off == chroma_off,
        w.off_a == f.deblocking.1 + f.deblocking.1,
        w.off_b == f.deblocking.2 + f.deblocking.2,
        forall|p: int, q: int, edge: bool| #[trigger] (w.strength)(p, q, edge) == m.strength(
            p,
            q,
            edge,
        ),
        w.nxn <==> m is Intra,
    ensures
        ({
            let d = deblocked(f, m, chroma_off);
            let s = filtered_from(
                Planes {
                    y: Grid { d: f.y, w: 16 * f.width, rows: 16 * f.height, y0: 0 },
                    cb: Grid { d: f.cb, w: 8 * f.width, rows: 8 * f.height, y0: 0 },
                    cr: Grid { d: f.cr, w: 8 * f.width, rows: 8 * f.height, y0: 0 },
                },
                w,
                0,
            );
            &&& f.deblocking.0 == 1 ==> d == f
            &&& f.deblocking.0 != 1 ==> d.y == s.y.d && d.cb == s.cb.d && d.cr == s.cr.d
            &&& d.width == f.width && d.height == f.height && d.info == f.info && d.qp == f.qp
                && d.deblocking == f.deblocking
        }),
{
    let v = walk_of(f, m, chroma_off);
    assert(v.strength =~= w.strength);
    assert(v == w);
}

/// The thresholds grow with the quantiser: nothing is filtered below index 16, and
/// a stronger edge is never clipped harder.
pub proof fn law_thresholds_grow(i: int, j: int)
    requires
        0 <= i <= j <= 51,
    ensures
        0 <= alpha_of(i) <= alpha_of(j) <= 255,
        0 <= beta_of(i) <= beta_of(j) <= 18,
        i < 16 ==> alpha_of(i) == 0 && beta_of(i) == 0,
        i >= 16 ==> alpha_of(i) >= 4 && beta_of(i) >= 2,
        forall|bs: int|
            1 <= bs <= 3 ==> 0 <= #[trigger] tc0_of(i, bs) && tc0_of(i, bs) <= tc0_of(j, bs),
        tc0_of(i, 1) <= tc0_of(i, 2) <= tc0_of(i, 3),
        alpha_of(51) == 255,
        beta_of(51) == 18,
        tc0_of(51, 1) == 13 && tc0_of(51, 2) == 17 && tc0_of(51, 3) == 25,
{
    crate::mvc::deblock::law_thresholds();
    assert(forall|k: int| 0 <= k < 51 ==> #[trigger] ALPHA[k] <= ALPHA[k + 1]);
    assert(forall|k: int| 0 <= k < 51 ==> #[trigger] BETA[k] <= BETA[k + 1]);
    assert(forall|k: int, b: int| 0 <= k < 51 && 0 <= b < 3 ==> #[trigger] TC0[k][b] <= TC0[k + 1][b]);
    lemma_climb(ALPHA@, i, j);
    lemma_climb(ALPHA@, 0, i);
    lemma_climb(ALPHA@, j, 51);
    lemma_climb(BETA@, i, j);
    lemma_climb(BETA@, 0, i);
    lemma_climb(BETA@, j, 51);
    if i >= 16 {
        lemma_climb(ALPHA@, 16, i);
        lemma_climb(BETA@, 16, i);
    } else {
        lemma_climb(ALPHA@, i, 15);
        lemma_climb(BETA@, i, 15);
    }
    assert forall|bs: int| 1 <= bs <= 3 implies 0 <= #[trigger] tc0_of(i, bs) && tc0_of(i, bs)
        <= tc0_of(j, bs) by {
        let c = Seq::new(52, |k: int| TC0[k][bs - 1]);
        assert forall|k: int| 0 <= k < 51 implies #[trigger] c[k] <= c[k + 1] by {
            assert(TC0[k][bs - 1] <= TC0[k + 1][bs - 1]);
        }
        lemma_climb(c, i, j);
        lemma_climb(c, 0, i);
    }
    assert(TC0[i][0] <= TC0[i][1] <= TC0[i][2]);
}

proof fn lemma_climb(s: Seq<i32>, i: int, j: int)
    requires
        s.len() == 52,
        0 <= i <= j <= 51,
        forall|k: int| 0 <= k < 51 ==> #[trigger] s[k] <= s[k + 1],
    ensures
        s[i] <= s[j],
    decreases j - i,
{
    if i < j {
        lemma_climb(s, i, j - 1);
        assert(s[j - 1] <= s[j - 1 + 1]);
    }
}

} // verus!

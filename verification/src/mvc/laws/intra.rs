//! Intra prediction: which samples each mode reads, how it weighs them, and how
//! it continues a linear ramp.

use crate::mvc::arith::clip;
use crate::mvc::intra::{
    edge_mean, intra_mode, mean2, mean3, mode_index, plane_index, plane_sample,
    predicted, predicted16, predicted_chroma, slope, smoothed, sum_of, Edges,
    Intra4x4Mode, PlaneMode,
};
use crate::mvc::recon::{chroma_mode_of, mode_of, plane_mode_of};
use vstd::prelude::*;

verus! {

/// The rows above agree in their first `n` samples.
pub open spec fn same_top(e: Edges, f: Edges, n: int) -> bool {
    forall|i: int| 0 <= i < n ==> #[trigger] e.top[i] == f.top[i]
}

/// The columns to the left agree in their first `n` samples.
pub open spec fn same_left(e: Edges, f: Edges, n: int) -> bool {
    forall|i: int| 0 <= i < n ==> #[trigger] e.left[i] == f.left[i]
}

/// Vertical prediction and the two modes that lean left read the row above alone,
/// horizontal and horizontal-up prediction the left column alone; the modes that
/// lean right read both with the corner, and no sample further than the block's
/// side.
pub proof fn law_edges_read(e: Edges, f: Edges, n: nat, y: int, x: int)
    requires
        n == 4 || n == 8,
        0 <= y < n,
        0 <= x < n,
    ensures
        same_top(e, f, n as int) ==> predicted(Intra4x4Mode::Vertical, e, n, y, x) == predicted(
            Intra4x4Mode::Vertical,
            f,
            n,
            y,
            x,
        ),
        same_left(e, f, n as int) ==> predicted(Intra4x4Mode::Horizontal, e, n, y, x) == predicted(
            Intra4x4Mode::Horizontal,
            f,
            n,
            y,
            x,
        ),
        same_left(e, f, n as int) ==> predicted(Intra4x4Mode::HorizontalUp, e, n, y, x)
            == predicted(Intra4x4Mode::HorizontalUp, f, n, y, x),
        same_top(e, f, (2 * n) as int) ==> predicted(Intra4x4Mode::DiagDownLeft, e, n, y, x) == predicted(
            Intra4x4Mode::DiagDownLeft,
            f,
            n,
            y,
            x,
        ),
        same_top(e, f, (2 * n) as int) ==> predicted(Intra4x4Mode::VerticalLeft, e, n, y, x) == predicted(
            Intra4x4Mode::VerticalLeft,
            f,
            n,
            y,
            x,
        ),
        same_top(e, f, n as int) && same_left(e, f, n as int) && e.corner == f.corner ==> predicted(
            Intra4x4Mode::DiagDownRight,
            e,
            n,
            y,
            x,
        ) == predicted(Intra4x4Mode::DiagDownRight, f, n, y, x) && predicted(
            Intra4x4Mode::VerticalRight,
            e,
            n,
            y,
            x,
        ) == predicted(Intra4x4Mode::VerticalRight, f, n, y, x) && predicted(
            Intra4x4Mode::HorizontalDown,
            e,
            n,
            y,
            x,
        ) == predicted(Intra4x4Mode::HorizontalDown, f, n, y, x),
{
}

/// Vertical prediction copies the row above down, horizontal prediction the left
/// column to the right, in every block size.
pub proof fn law_straight_modes(e: Edges, n: nat, y: int, x: int)
    requires
        0 <= y < n,
        0 <= x < n,
    ensures
        predicted(Intra4x4Mode::Vertical, e, n, y, x) == e.top[x],
        predicted(Intra4x4Mode::Horizontal, e, n, y, x) == e.left[y],
        predicted16(PlaneMode::Vertical, e, y, x) == e.top[x],
        predicted16(PlaneMode::Horizontal, e, y, x) == e.left[y],
        predicted_chroma(PlaneMode::Vertical, e, y, x) == e.top[x],
        predicted_chroma(PlaneMode::Horizontal, e, y, x) == e.left[y],
{
}

/// The edges continue one straight line from the corner each: by `a` from column
/// to column and by `b` from row to row.
pub open spec fn ramps(e: Edges, n: int, c: int, a: int, b: int) -> bool {
    &&& e.corner == c
    &&& forall|i: int| 0 <= i < 2 * n ==> #[trigger] e.top[i] == c + (i + 1) * a
    &&& forall|i: int| 0 <= i < n ==> #[trigger] e.left[i] == c + (i + 1) * b
}

proof fn lemma_two(c: int, a: int, i: int)
    ensures
        mean2(c + i * a, c + (i + 1) * a) == (2 * c + (2 * i + 1) * a + 1) / 2,
{
    assert(i * a + (i + 1) * a == (2 * i + 1) * a) by (nonlinear_arith);
}

proof fn lemma_three(c: int, a: int, i: int)
    ensures
        mean3(c + (i - 1) * a, c + i * a, c + (i + 1) * a) == c + i * a,
        c + i * a == (2 * c + (2 * i) * a + 1) / 2,
{
    assert((i - 1) * a + (i + 1) * a == 2 * (i * a)) by (nonlinear_arith);
    assert((2 * i) * a == 2 * (i * a)) by (nonlinear_arith);
}

proof fn lemma_last(c: int, a: int, i: int)
    ensures
        mean3(c + i * a, c + (i + 1) * a, c + (i + 1) * a) == c + i * a + (3 * a + 2) / 4,
{
    assert((i + 1) * a == i * a + a) by (nonlinear_arith);
}

/// On a left column that rises by a constant step, horizontal-up prediction goes on
/// rising by half a step per column and a whole one per row, until the last sample
/// of the column is reached.
pub proof fn law_horizontal_up_ramp(e: Edges, n: nat, c: int, a: int, b: int, y: int, x: int)
    requires
        n == 4 || n == 8,
        ramps(e, n as int, c, a, b),
        0 <= y < n,
        0 <= x < n,
    ensures
        ({
            let p = predicted(Intra4x4Mode::HorizontalUp, e, n, y, x);
            let z = x + 2 * y;
            &&& z < 2 * n - 3 ==> p == (2 * c + (z + 3) * b + 1) / 2
            &&& z == 2 * n - 3 ==> p == c + (n - 1) * b + (3 * b + 2) / 4
            &&& z > 2 * n - 3 ==> p == c + n * b
        }),
{
    let i = y + x / 2;
    lemma_two(c, b, i + 1);
    lemma_three(c, b, i + 2);
    lemma_last(c, b, n - 1);
    if x + 2 * y < 2 * n - 3 {
        assert(e.left[i] == c + (i + 1) * b && e.left[i + 1] == c + (i + 2) * b);
        if x % 2 == 1 {
            assert(e.left[i + 2] == c + (i + 3) * b);
        }
    }
    assert(e.left[n - 2] == c + (n - 1) * b && e.left[n - 1] == c + n * b);
}

/// On a row above that rises by a constant step, the modes that lean left go on
/// rising: diagonal prediction by a whole step per column and row, vertical-left
/// prediction by a whole step per column and half a one per row.
pub proof fn law_leaning_left_ramp(e: Edges, n: nat, c: int, a: int, b: int, y: int, x: int)
    requires
        n == 4 || n == 8,
        ramps(e, n as int, c, a, b),
        0 <= y < n,
        0 <= x < n,
    ensures
        predicted(Intra4x4Mode::VerticalLeft, e, n, y, x) == (2 * c + (2 * x + y + 3) * a + 1) / 2,
        x + y < 2 * n - 2 ==> predicted(Intra4x4Mode::DiagDownLeft, e, n, y, x) == c + (x + y + 2)
            * a,
        x + y == 2 * n - 2 ==> predicted(Intra4x4Mode::DiagDownLeft, e, n, y, x) == c + (2 * n - 1)
            * a + (3 * a + 2) / 4,
{
    let i = x + y / 2;
    lemma_two(c, a, i + 1);
    lemma_three(c, a, i + 2);
    lemma_three(c, a, x + y + 2);
    lemma_last(c, a, 2 * n - 1);
    assert(e.top[i] == c + (i + 1) * a && e.top[i + 1] == c + (i + 2) * a);
    if y % 2 == 1 {
        assert(e.top[i + 2] == c + (i + 3) * a);
    }
    if x + y < 2 * n - 2 {
        assert(e.top[x + y] == c + (x + y + 1) * a && e.top[x + y + 1] == c + (x + y + 2) * a
            && e.top[x + y + 2] == c + (x + y + 3) * a);
    }
    assert(e.top[2 * n - 2] == c + (2 * n - 1) * a && e.top[2 * n - 1] == c + (2 * n) * a);
}

proof fn lemma_top_ramp(e: Edges, n: nat, c: int, a: int, b: int, i: int)
    requires
        ramps(e, n as int, c, a, b),
        -1 <= i < n,
    ensures
        e.t(i) == c + (i + 1) * a,
{
    if i >= 0 {
        assert(e.top[i] == c + (i + 1) * a);
    } else {
        assert((i + 1) * a == 0) by (nonlinear_arith)
            requires
                i == -1,
        ;
    }
}

proof fn lemma_left_ramp(e: Edges, n: nat, c: int, a: int, b: int, i: int)
    requires
        ramps(e, n as int, c, a, b),
        -1 <= i < n,
    ensures
        e.l(i) == c + (i + 1) * b,
{
    if i >= 0 {
        assert(e.left[i] == c + (i + 1) * b);
    } else {
        assert((i + 1) * b == 0) by (nonlinear_arith)
            requires
                i == -1,
        ;
    }
}

/// On ramps from the corner, the diagonal to the right carries each edge on along
/// itself: the row above right of the diagonal, the left column below it.
pub proof fn law_diagonal_right_ramp(e: Edges, n: nat, c: int, a: int, b: int, y: int, x: int)
    requires
        n == 4 || n == 8,
        ramps(e, n as int, c, a, b),
        0 <= y < n,
        0 <= x < n,
    ensures
        ({
            let p = predicted(Intra4x4Mode::DiagDownRight, e, n, y, x);
            &&& x > y ==> p == c + (x - y) * a
            &&& x < y ==> p == c + (y - x) * b
            &&& x == y ==> p == c + (a + b + 2) / 4
        }),
{
    lemma_top_ramp(e, n, c, a, b, 0);
    lemma_left_ramp(e, n, c, a, b, 0);
    if x > y {
        lemma_top_ramp(e, n, c, a, b, x - y - 2);
        lemma_top_ramp(e, n, c, a, b, x - y - 1);
        lemma_top_ramp(e, n, c, a, b, x - y);
        lemma_three(c, a, x - y);
    } else if x < y {
        lemma_left_ramp(e, n, c, a, b, y - x - 2);
        lemma_left_ramp(e, n, c, a, b, y - x - 1);
        lemma_left_ramp(e, n, c, a, b, y - x);
        lemma_three(c, b, y - x);
    }
}

/// On ramps from the corner, vertical-right prediction moves half a step along the
/// row above per row, and down the left column below the line that reaches it.
pub proof fn law_vertical_right_ramp(e: Edges, n: nat, c: int, a: int, b: int, y: int, x: int)
    requires
        n == 4 || n == 8,
        ramps(e, n as int, c, a, b),
        0 <= y < n,
        0 <= x < n,
    ensures
        ({
            let p = predicted(Intra4x4Mode::VerticalRight, e, n, y, x);
            &&& 2 * x >= y ==> p == (2 * c + (2 * x - y + 1) * a + 1) / 2
            &&& 2 * x == y - 1 ==> p == c + (a + b + 2) / 4
            &&& 2 * x < y - 1 ==> p == c + (y - 2 * x - 1) * b
        }),
{
    let i = x - y / 2;
    lemma_top_ramp(e, n, c, a, b, 0);
    lemma_left_ramp(e, n, c, a, b, 0);
    if 2 * x >= y {
        lemma_top_ramp(e, n, c, a, b, i - 1);
        lemma_top_ramp(e, n, c, a, b, i);
        if y % 2 == 1 {
            lemma_top_ramp(e, n, c, a, b, i - 2);
        }
        lemma_two(c, a, i);
        lemma_three(c, a, i);
    } else if 2 * x < y - 1 {
        let k = y - 2 * x - 1;
        lemma_left_ramp(e, n, c, a, b, k);
        lemma_left_ramp(e, n, c, a, b, k - 1);
        lemma_left_ramp(e, n, c, a, b, k - 2);
        lemma_three(c, b, k);
    }
}

/// On ramps from the corner, horizontal-down prediction moves half a step along the
/// left column per column, and along the row above beyond the line that reaches it.
pub proof fn law_horizontal_down_ramp(e: Edges, n: nat, c: int, a: int, b: int, y: int, x: int)
    requires
        n == 4 || n == 8,
        ramps(e, n as int, c, a, b),
        0 <= y < n,
        0 <= x < n,
    ensures
        ({
            let p = predicted(Intra4x4Mode::HorizontalDown, e, n, y, x);
            &&& 2 * y >= x ==> p == (2 * c + (2 * y - x + 1) * b + 1) / 2
            &&& 2 * y == x - 1 ==> p == c + (a + b + 2) / 4
            &&& 2 * y < x - 1 ==> p == c + (x - 2 * y - 1) * a
        }),
{
    let i = y - x / 2;
    lemma_top_ramp(e, n, c, a, b, 0);
    lemma_left_ramp(e, n, c, a, b, 0);
    if 2 * y >= x {
        lemma_left_ramp(e, n, c, a, b, i - 1);
        lemma_left_ramp(e, n, c, a, b, i);
        if x % 2 == 1 {
            lemma_left_ramp(e, n, c, a, b, i - 2);
        }
        lemma_two(c, b, i);
        lemma_three(c, b, i);
    } else if 2 * y < x - 1 {
        let k = x - 2 * y - 1;
        lemma_top_ramp(e, n, c, a, b, k);
        lemma_top_ramp(e, n, c, a, b, k - 1);
        lemma_top_ramp(e, n, c, a, b, k - 2);
        lemma_three(c, a, k);
    }
}

/// `p` is `v` over four, rounded half up.
pub open spec fn quarter_of(p: int, v: int) -> bool {
    4 * p <= v + 2 < 4 * p + 4
}

/// `p` is `v` over two, rounded half up.
pub open spec fn half_of(p: int, v: int) -> bool {
    2 * p <= v + 1 < 2 * p + 2
}

/// How the slanted modes weigh three neighbouring samples: one, two and one
/// quarter, or the half of two, by the row and column of the sample.
pub proof fn law_taps(e: Edges, n: nat, y: int, x: int)
    requires
        n == 4 || n == 8,
        0 <= y < n,
        0 <= x < n,
    ensures
        x + y < 2 * n - 2 ==> quarter_of(
            predicted(Intra4x4Mode::DiagDownLeft, e, n, y, x),
            e.top[x + y] + 2 * e.top[x + y + 1] + e.top[x + y + 2],
        ),
        x >= y + 2 ==> quarter_of(
            predicted(Intra4x4Mode::DiagDownRight, e, n, y, x),
            e.top[x - y - 2] + 2 * e.top[x - y - 1] + e.top[x - y],
        ),
        y >= x + 2 ==> quarter_of(
            predicted(Intra4x4Mode::DiagDownRight, e, n, y, x),
            e.left[y - x - 2] + 2 * e.left[y - x - 1] + e.left[y - x],
        ),
        x == y ==> quarter_of(
            predicted(Intra4x4Mode::DiagDownRight, e, n, y, x),
            e.top[0] + 2 * e.corner + e.left[0],
        ),
        y % 2 == 0 ==> half_of(
            predicted(Intra4x4Mode::VerticalLeft, e, n, y, x),
            e.top[x + y / 2] + e.top[x + y / 2 + 1],
        ),
        y % 2 == 1 ==> quarter_of(
            predicted(Intra4x4Mode::VerticalLeft, e, n, y, x),
            e.top[x + y / 2] + 2 * e.top[x + y / 2 + 1] + e.top[x + y / 2 + 2],
        ),
        x % 2 == 0 && x + 2 * y < 2 * n - 3 ==> half_of(
            predicted(Intra4x4Mode::HorizontalUp, e, n, y, x),
            e.left[y + x / 2] + e.left[y + x / 2 + 1],
        ),
        x % 2 == 1 && x + 2 * y < 2 * n - 3 ==> quarter_of(
            predicted(Intra4x4Mode::HorizontalUp, e, n, y, x),
            e.left[y + x / 2] + 2 * e.left[y + x / 2 + 1] + e.left[y + x / 2 + 2],
        ),
        y % 2 == 0 && 2 * x >= y + 2 ==> half_of(
            predicted(Intra4x4Mode::VerticalRight, e, n, y, x),
            e.top[x - y / 2 - 1] + e.top[x - y / 2],
        ),
        y % 2 == 1 && 2 * x >= y + 3 ==> quarter_of(
            predicted(Intra4x4Mode::VerticalRight, e, n, y, x),
            e.top[x - y / 2 - 2] + 2 * e.top[x - y / 2 - 1] + e.top[x - y / 2],
        ),
        y - 2 * x == 1 ==> quarter_of(
            predicted(Intra4x4Mode::VerticalRight, e, n, y, x),
            e.left[0] + 2 * e.corner + e.top[0],
        ),
        x % 2 == 0 && 2 * y >= x + 2 ==> half_of(
            predicted(Intra4x4Mode::HorizontalDown, e, n, y, x),
            e.left[y - x / 2 - 1] + e.left[y - x / 2],
        ),
        x % 2 == 1 && 2 * y >= x + 3 ==> quarter_of(
            predicted(Intra4x4Mode::HorizontalDown, e, n, y, x),
            e.left[y - x / 2 - 2] + 2 * e.left[y - x / 2 - 1] + e.left[y - x / 2],
        ),
        x - 2 * y == 1 ==> quarter_of(
            predicted(Intra4x4Mode::HorizontalDown, e, n, y, x),
            e.left[0] + 2 * e.corner + e.top[0],
        ),
{
}

/// Exchanging the row above and the left column transposes the block: the modes
/// that lean right are each other's mirror images, or their own.
pub proof fn law_transposed(e: Edges, f: Edges, n: nat, y: int, x: int)
    requires
        n == 4 || n == 8,
        0 <= y < n,
        0 <= x < n,
        f.corner == e.corner,
        forall|i: int| 0 <= i < n ==> #[trigger] f.top[i] == e.left[i],
        forall|i: int| 0 <= i < n ==> #[trigger] f.left[i] == e.top[i],
    ensures
        predicted(Intra4x4Mode::VerticalRight, e, n, y, x) == predicted(
            Intra4x4Mode::HorizontalDown,
            f,
            n,
            x,
            y,
        ),
        predicted(Intra4x4Mode::DiagDownRight, e, n, y, x) == predicted(
            Intra4x4Mode::DiagDownRight,
            f,
            n,
            x,
            y,
        ),
{
    assert forall|i: int| 0 <= i < n implies e.top[i] == f.left[i] && e.left[i] == f.top[i] by {}
}

proof fn lemma_sums(s: Seq<i32>, from: int)
    ensures
        sum_of(s, from, 4) == s[from] + s[from + 1] + s[from + 2] + s[from + 3],
        sum_of(s, from, 8) == sum_of(s, from, 4) + sum_of(s, from + 4, 4),
        sum_of(s, from, 16) == sum_of(s, from, 8) + sum_of(s, from + 8, 8),
{
    reveal_with_fuel(sum_of, 17);
}

/// The sum of four samples in a row.
pub open spec fn four(s: Seq<i32>, k: int) -> int {
    s[k] + s[k + 1] + s[k + 2] + s[k + 3]
}

proof fn lemma_means(e: Edges)
    ensures
        ({
            let (t4, l4) = (sum_of(e.top, 0, 4), sum_of(e.left, 0, 4));
            let (t8, l8) = (sum_of(e.top, 0, 8), sum_of(e.left, 0, 8));
            let (t16, l16) = (sum_of(e.top, 0, 16), sum_of(e.left, 0, 16));
            let both = e.top_avail && e.left_avail;
            &&& edge_mean(e, 4) == (if both {
                (t4 + l4 + 4) / 8
            } else if e.top_avail {
                (t4 + 2) / 4
            } else if e.left_avail {
                (l4 + 2) / 4
            } else {
                128
            })
            &&& edge_mean(e, 8) == (if both {
                (t8 + l8 + 8) / 16
            } else if e.top_avail {
                (t8 + 4) / 8
            } else if e.left_avail {
                (l8 + 4) / 8
            } else {
                128
            })
            &&& edge_mean(e, 16) == (if both {
                (t16 + l16 + 16) / 32
            } else if e.top_avail {
                (t16 + 8) / 16
            } else if e.left_avail {
                (l16 + 8) / 16
            } else {
                128
            })
        }),
{
    assert(4nat / 2 == 2 && 8nat / 2 == 4 && 16nat / 2 == 8);
}

/// DC prediction of a 4x4, 8x8 and 16x16 block is the rounded mean of both edges,
/// of the one that is available, or mid-grey.
pub proof fn law_dc_is_the_mean(e: Edges)
    ensures
        ({
            let t4 = four(e.top, 0);
            let l4 = four(e.left, 0);
            let t8 = t4 + four(e.top, 4);
            let l8 = l4 + four(e.left, 4);
            let t16 = t8 + four(e.top, 8) + four(e.top, 12);
            let l16 = l8 + four(e.left, 8) + four(e.left, 12);
            let (p4, p8, p16) = (
                predicted(Intra4x4Mode::Dc, e, 4, 0, 0),
                predicted(Intra4x4Mode::Dc, e, 8, 0, 0),
                predicted16(PlaneMode::Dc, e, 0, 0),
            );
            &&& e.top_avail && e.left_avail ==> 8 * p4 <= t4 + l4 + 4 < 8 * p4 + 8 && 16 * p8 <= t8
                + l8 + 8 < 16 * p8 + 16 && 32 * p16 <= t16 + l16 + 16 < 32 * p16 + 32
            &&& e.top_avail && !e.left_avail ==> 4 * p4 <= t4 + 2 < 4 * p4 + 4 && 8 * p8 <= t8 + 4
                < 8 * p8 + 8 && 16 * p16 <= t16 + 8 < 16 * p16 + 16
            &&& !e.top_avail && e.left_avail ==> 4 * p4 <= l4 + 2 < 4 * p4 + 4 && 8 * p8 <= l8 + 4
                < 8 * p8 + 8 && 16 * p16 <= l16 + 8 < 16 * p16 + 16
            &&& !e.top_avail && !e.left_avail ==> p4 == 128 && p8 == 128 && p16 == 128
        }),
        forall|y: int, x: int, n: nat| #[trigger]
            predicted(Intra4x4Mode::Dc, e, n, y, x) == predicted(Intra4x4Mode::Dc, e, n, 0, 0),
        forall|y: int, x: int| #[trigger]
            predicted16(PlaneMode::Dc, e, y, x) == predicted16(PlaneMode::Dc, e, 0, 0),
{
    lemma_sums(e.top, 0);
    lemma_sums(e.top, 4);
    lemma_sums(e.top, 8);
    lemma_sums(e.top, 12);
    lemma_sums(e.left, 0);
    lemma_sums(e.left, 4);
    lemma_sums(e.left, 8);
    lemma_sums(e.left, 12);
    lemma_means(e);
}

/// DC prediction of chroma goes by 4x4 blocks: the upper left and lower right one
/// average both edges beside them, the upper right one prefers the row above and
/// the lower left one the left column; a block takes the other edge where its own
/// is missing, and is mid-grey where both are.
pub proof fn law_chroma_dc(e: Edges, y: int, x: int)
    requires
        0 <= y < 8,
        0 <= x < 8,
    ensures
        ({
            let p = predicted_chroma(PlaneMode::Dc, e, y, x);
            let t = if x < 4 {
                four(e.top, 0)
            } else {
                four(e.top, 4)
            };
            let l = if y < 4 {
                four(e.left, 0)
            } else {
                four(e.left, 4)
            };
            let both = e.top_avail && e.left_avail;
            &&& both && ((x < 4 && y < 4) || (x >= 4 && y >= 4)) ==> 8 * p <= t + l + 4 < 8 * p + 8
            &&& both && x >= 4 && y < 4 ==> quarter_of(p, t)
            &&& both && x < 4 && y >= 4 ==> quarter_of(p, l)
            &&& e.top_avail && !e.left_avail ==> quarter_of(p, t)
            &&& !e.top_avail && e.left_avail ==> quarter_of(p, l)
            &&& !e.top_avail && !e.left_avail ==> p == 128
        }),
{
    lemma_sums(e.top, 0);
    lemma_sums(e.top, 4);
    lemma_sums(e.left, 0);
    lemma_sums(e.left, 4);
}

proof fn lemma_slopes(s: Seq<i32>, corner: i32)
    ensures
        slope(s, corner, 4, 4) == (s[4] - s[2]) + 2 * (s[5] - s[1]) + 3 * (s[6] - s[0]) + 4 * (s[7]
            - corner),
        slope(s, corner, 8, 8) == (s[8] - s[6]) + 2 * (s[9] - s[5]) + 3 * (s[10] - s[4]) + 4 * (s[11]
            - s[3]) + 5 * (s[12] - s[2]) + 6 * (s[13] - s[1]) + 7 * (s[14] - s[0]) + 8 * (s[15]
            - corner),
{
    reveal_with_fuel(slope, 9);
}

/// Plane prediction continues a gentle ramp exactly: an image that rises by `a`
/// from column to column and by `b` from row to row.
pub proof fn law_plane_continues_a_ramp(e: Edges, n: int, c: int, a: int, b: int, y: int, x: int)
    requires
        n == 8 || n == 16,
        e.corner == c,
        forall|i: int| 0 <= i < n ==> #[trigger] e.top[i] == c + (i + 1) * a,
        forall|i: int| 0 <= i < n ==> #[trigger] e.left[i] == c + (i + 1) * b,
        -3 <= a <= 4,
        -3 <= b <= 4,
    ensures
        n == 16 ==> predicted16(PlaneMode::Plane, e, y, x) == clip(
            0,
            255,
            c + (x + 1) * a + (y + 1) * b,
        ),
        n == 8 ==> predicted_chroma(PlaneMode::Plane, e, y, x) == clip(
            0,
            255,
            c + (x + 1) * a + (y + 1) * b,
        ),
{
    lemma_slopes(e.top, e.corner);
    lemma_slopes(e.left, e.corner);
    lemma_ramp_sum(e.top, n, c, a);
    lemma_ramp_sum(e.left, n, c, b);
    assert((32 * a) * (x - 7) == 32 * ((x + 1) * a) - 32 * (8 * a)) by (nonlinear_arith);
    assert((32 * b) * (y - 7) == 32 * ((y + 1) * b) - 32 * (8 * b)) by (nonlinear_arith);
    assert((32 * a) * (x - 3) == 32 * ((x + 1) * a) - 32 * (4 * a)) by (nonlinear_arith);
    assert((32 * b) * (y - 3) == 32 * ((y + 1) * b) - 32 * (4 * b)) by (nonlinear_arith);
    if n == 16 {
        let (h, v) = (slope(e.top, e.corner, 8, 8), slope(e.left, e.corner, 8, 8));
        assert((5 * h + 32) / 64 == 32 * a);
        assert((5 * v + 32) / 64 == 32 * b);
    } else {
        let (h, v) = (slope(e.top, e.corner, 4, 4), slope(e.left, e.corner, 4, 4));
        assert((17 * h + 16) / 32 == 32 * a);
        assert((17 * v + 16) / 32 == 32 * b);
    }
}

proof fn lemma_ramp_sum(s: Seq<i32>, n: int, c: int, a: int)
    requires
        n == 8 || n == 16,
        forall|i: int| 0 <= i < n ==> #[trigger] s[i] == c + (i + 1) * a,
    ensures
        (s[4] - s[2]) + 2 * (s[5] - s[1]) + 3 * (s[6] - s[0]) + 4 * (s[7] - c) == 60 * a,
        n == 16 ==> (s[8] - s[6]) + 2 * (s[9] - s[5]) + 3 * (s[10] - s[4]) + 4 * (s[11] - s[3]) + 5
            * (s[12] - s[2]) + 6 * (s[13] - s[1]) + 7 * (s[14] - s[0]) + 8 * (s[15] - c) == 408 * a,
        s[7] == c + 8 * a,
        n == 16 ==> s[15] == c + 16 * a,
{
    assert(s[0] == c + 1 * a && s[1] == c + 2 * a && s[2] == c + 3 * a && s[3] == c + 4 * a && s[4]
        == c + 5 * a && s[5] == c + 6 * a && s[6] == c + 7 * a && s[7] == c + 8 * a);
    if n == 16 {
        assert(s[8] == c + 9 * a && s[9] == c + 10 * a && s[10] == c + 11 * a && s[11] == c + 12 * a
            && s[12] == c + 13 * a && s[13] == c + 14 * a && s[14] == c + 15 * a && s[15] == c + 16
            * a);
    }
}

/// The gradients of plane prediction: sample pairs around the middle of each edge,
/// weighted by their distance, then five 64ths in 16x16 and 17 32nds in chroma.
pub proof fn law_plane_gradients(e: Edges, y: int, x: int)
    ensures
        ({
            let g16 = |s: Seq<i32>|
                (s[8] - s[6]) + 2 * (s[9] - s[5]) + 3 * (s[10] - s[4]) + 4 * (s[11] - s[3]) + 5 * (
                s[12] - s[2]) + 6 * (s[13] - s[1]) + 7 * (s[14] - s[0]) + 8 * (s[15] - e.corner);
            let g8 = |s: Seq<i32>|
                (s[4] - s[2]) + 2 * (s[5] - s[1]) + 3 * (s[6] - s[0]) + 4 * (s[7] - e.corner);
            &&& plane_sample(e, 16, y, x) == clip(
                0,
                255,
                (16 * (e.left[15] + e.top[15]) + (5 * g16(e.top) + 32) / 64 * (x - 7) + (5 * g16(
                    e.left,
                ) + 32) / 64 * (y - 7) + 16) / 32,
            )
            &&& plane_sample(e, 8, y, x) == clip(
                0,
                255,
                (16 * (e.left[7] + e.top[7]) + (17 * g8(e.top) + 16) / 32 * (x - 3) + (17 * g8(
                    e.left,
                ) + 16) / 32 * (y - 3) + 16) / 32,
            )
        }),
{
    lemma_slopes(e.top, e.corner);
    lemma_slopes(e.left, e.corner);
}

/// The filter of 8x8 neighbours weighs each sample with those beside it by one, two
/// and one quarter. The first sample of an edge has the corner beside it where that
/// is there, else itself; the last has itself.
pub proof fn law_smoothing(e: Edges, corner: bool)
    requires
        e.top.len() == 16,
        e.left.len() == 8,
        e.top_avail,
        e.left_avail,
        forall|i: int| 0 <= i < 16 ==> 0 <= #[trigger] e.top[i] <= 255,
        forall|i: int| 0 <= i < 8 ==> 0 <= #[trigger] e.left[i] <= 255,
        0 <= e.corner <= 255,
    ensures
        ({
            let s = smoothed(e, corner);
            &&& forall|i: int|
                0 < i < 15 ==> quarter_of(
                    #[trigger] s.top[i] as int,
                    e.top[i - 1] + 2 * e.top[i] + e.top[i + 1],
                )
            &&& forall|i: int|
                0 < i < 7 ==> quarter_of(
                    #[trigger] s.left[i] as int,
                    e.left[i - 1] + 2 * e.left[i] + e.left[i + 1],
                )
            &&& quarter_of(s.top[15] as int, e.top[14] + 3 * e.top[15])
            &&& quarter_of(s.left[7] as int, e.left[6] + 3 * e.left[7])
            &&& corner ==> quarter_of(s.top[0] as int, e.corner + 2 * e.top[0] + e.top[1])
                && quarter_of(s.left[0] as int, e.corner + 2 * e.left[0] + e.left[1]) && quarter_of(
                s.corner as int,
                e.top[0] + 2 * e.corner + e.left[0],
            )
            &&& !corner ==> quarter_of(s.top[0] as int, 3 * e.top[0] + e.top[1]) && quarter_of(
                s.left[0] as int,
                3 * e.left[0] + e.left[1],
            ) && s.corner == e.corner
            &&& s.top_avail && s.left_avail
        }),
{
    let s = smoothed(e, corner);
    assert forall|i: int| 0 < i < 15 implies quarter_of(
        #[trigger] s.top[i] as int,
        e.top[i - 1] + 2 * e.top[i] + e.top[i + 1],
    ) by {
        assert(0 <= e.top[i - 1] <= 255 && 0 <= e.top[i] <= 255 && 0 <= e.top[i + 1] <= 255);
    }
    assert forall|i: int| 0 < i < 7 implies quarter_of(
        #[trigger] s.left[i] as int,
        e.left[i - 1] + 2 * e.left[i] + e.left[i + 1],
    ) by {
        assert(0 <= e.left[i - 1] <= 255 && 0 <= e.left[i] <= 255 && 0 <= e.left[i + 1] <= 255);
    }
    assert(0 <= e.top[0] <= 255 && 0 <= e.top[1] <= 255 && 0 <= e.top[14] <= 255 && 0 <= e.top[15]
        <= 255);
    assert(0 <= e.left[0] <= 255 && 0 <= e.left[1] <= 255 && 0 <= e.left[6] <= 255 && 0 <= e.left[7]
        <= 255);
}

/// An edge that is not available is not filtered, and where only one is, the
/// corner leans on that one and itself.
pub proof fn law_smoothing_of_missing_edges(e: Edges, corner: bool)
    requires
        0 <= e.corner <= 255,
        0 <= e.top[0] <= 255,
        0 <= e.left[0] <= 255,
    ensures
        !e.top_avail ==> smoothed(e, corner).top == e.top,
        !e.left_avail ==> smoothed(e, corner).left == e.left,
        corner && e.top_avail && !e.left_avail ==> quarter_of(
            smoothed(e, corner).corner as int,
            3 * e.corner + e.top[0],
        ),
        corner && !e.top_avail && e.left_avail ==> quarter_of(
            smoothed(e, corner).corner as int,
            3 * e.corner + e.left[0],
        ),
        smoothed(e, corner).top_avail == e.top_avail,
        smoothed(e, corner).left_avail == e.left_avail,
{
}

/// The predicted mode is the smaller one of the neighbours' modes, and DC where one
/// is missing. A coded number names one of the eight other modes: those below the
/// predicted one keep their number, those above are one less.
pub proof fn law_mode_derivation(a: u8, b: u8, raw: int)
    requires
        a <= 8,
        b <= 8,
        0 <= raw <= 7,
    ensures
        intra_mode(Some(a), Some(b), -1) == (if a <= b {
            a
        } else {
            b
        }),
        intra_mode(None, Some(b), -1) == 2,
        intra_mode(Some(a), None, -1) == 2,
        intra_mode(None, None, -1) == 2,
        raw < a && raw < b ==> intra_mode(Some(a), Some(b), raw) == raw,
        (raw >= a || raw >= b) ==> intra_mode(Some(a), Some(b), raw) == raw + 1,
        raw < 2 ==> intra_mode(None, Some(b), raw) == raw && intra_mode(Some(a), None, raw) == raw,
        raw >= 2 ==> intra_mode(None, Some(b), raw) == raw + 1 && intra_mode(Some(a), None, raw)
            == raw + 1,
{
}

/// The numbers of the modes (H.264 tables 8-2, 8-4 and 8-5).
pub proof fn law_mode_numbers()
    ensures
        mode_of(0) == Intra4x4Mode::Vertical,
        mode_of(1) == Intra4x4Mode::Horizontal,
        mode_of(2) == Intra4x4Mode::Dc,
        mode_of(3) == Intra4x4Mode::DiagDownLeft,
        mode_of(4) == Intra4x4Mode::DiagDownRight,
        mode_of(5) == Intra4x4Mode::VerticalRight,
        mode_of(6) == Intra4x4Mode::HorizontalDown,
        mode_of(7) == Intra4x4Mode::VerticalLeft,
        mode_of(8) == Intra4x4Mode::HorizontalUp,
        forall|i: int| 0 <= i <= 8 ==> mode_index(#[trigger] mode_of(i)) == i,
        plane_mode_of(0) == PlaneMode::Vertical,
        plane_mode_of(1) == PlaneMode::Horizontal,
        plane_mode_of(2) == PlaneMode::Dc,
        plane_mode_of(3) == PlaneMode::Plane,
        forall|i: int| 0 <= i <= 3 ==> plane_index(#[trigger] plane_mode_of(i)) == i,
        chroma_mode_of(0) == PlaneMode::Dc,
        chroma_mode_of(1) == PlaneMode::Horizontal,
        chroma_mode_of(2) == PlaneMode::Vertical,
        chroma_mode_of(3) == PlaneMode::Plane,
{
}

} // verus!

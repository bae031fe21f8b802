//! The in-loop deblocking filter's sample filters (H.264 section 8.7.2): pure
//! functions on a line of eight samples across an edge, `p3 p2 p1 p0 | q0 q1 q2
//! q3`, and the threshold tables. Sums are formed wide, so that every sample
//! value is accepted.

use crate::mvc::arith::{clip, lemma_i64_shr, magnitude};
use vstd::prelude::*;

verus! {

/// The edge is a coding artefact: small steps on and beside it.
pub open spec fn filtered_edge(s: Seq<i32>, alpha: int, beta: int) -> bool {
    &&& magnitude(s[3] - s[4]) < alpha
    &&& magnitude(s[2] - s[3]) < beta
    &&& magnitude(s[5] - s[4]) < beta
}

/// The change of the two samples at the edge, limited by `tc`.
pub open spec fn edge_delta(s: Seq<i32>, tc: int) -> int {
    clip(-tc, tc, (4 * (s[4] - s[3]) + (s[2] - s[5]) + 4) / 8)
}

/// A second sample from the edge, moved toward its neighbours by at most `tc0`.
pub open spec fn second_sample(outer: int, own: int, p0: int, q0: int, tc0: int) -> int {
    own + clip(-tc0, tc0, (outer + (p0 + q0 + 1) / 2 - 2 * own) / 2)
}

/// A luma line after the normal filter.
pub open spec fn luma_normal(s: Seq<i32>, alpha: int, beta: int, tc0: int) -> Seq<i32> {
    if !filtered_edge(s, alpha, beta) {
        s
    } else {
        let flat_p = magnitude(s[1] - s[3]) < beta;
        let flat_q = magnitude(s[6] - s[4]) < beta;
        let tc = tc0 + (if flat_p {
            1int
        } else {
            0
        }) + (if flat_q {
            1int
        } else {
            0
        });
        let d = edge_delta(s, tc);
        seq![
            s[0],
            s[1],
            if flat_p {
                second_sample(s[1] as int, s[2] as int, s[3] as int, s[4] as int, tc0) as i32
            } else {
                s[2]
            },
            clip(0, 255, s[3] + d) as i32,
            clip(0, 255, s[4] - d) as i32,
            if flat_q {
                second_sample(s[6] as int, s[5] as int, s[3] as int, s[4] as int, tc0) as i32
            } else {
                s[5]
            },
            s[6],
            s[7],
        ]
    }
}

/// The three samples of one side, from the edge outward, after the strong
/// filter: `a0` to `a3` on this side, `b0` and `b1` on the other.
pub open spec fn strong_side(smooth: bool, a3: int, a2: int, a1: int, a0: int, b0: int, b1: int) -> (
    int,
    int,
    int,
) {
    if smooth {
        (
            (a2 + 2 * a1 + 2 * a0 + 2 * b0 + b1 + 4) / 8,
            (a2 + a1 + a0 + b0 + 2) / 4,
            (2 * a3 + 3 * a2 + a1 + a0 + b0 + 4) / 8,
        )
    } else {
        ((2 * a1 + a0 + b1 + 2) / 4, a1, a2)
    }
}

/// A luma line after the strong filter.
pub open spec fn luma_strong(s: Seq<i32>, alpha: int, beta: int) -> Seq<i32> {
    if !filtered_edge(s, alpha, beta) {
        s
    } else {
        let small = magnitude(s[3] - s[4]) < alpha / 4 + 2;
        let (p0, p1, p2) = strong_side(
            small && magnitude(s[1] - s[3]) < beta,
            s[0] as int,
            s[1] as int,
            s[2] as int,
            s[3] as int,
            s[4] as int,
            s[5] as int,
        );
        let (q0, q1, q2) = strong_side(
            small && magnitude(s[6] - s[4]) < beta,
            s[7] as int,
            s[6] as int,
            s[5] as int,
            s[4] as int,
            s[3] as int,
            s[2] as int,
        );
        seq![s[0], p2 as i32, p1 as i32, p0 as i32, q0 as i32, q1 as i32, q2 as i32, s[7]]
    }
}

/// A chroma line after either filter: only the two samples at the edge change.
pub open spec fn chroma_line(s: Seq<i32>, alpha: int, beta: int, tc0: int, strong: bool) -> Seq<i32> {
    if !filtered_edge(s, alpha, beta) {
        s
    } else if strong {
        s.update(3, ((2 * s[2] + s[3] + s[5] + 2) / 4) as i32).update(
            4,
            ((2 * s[5] + s[4] + s[2] + 2) / 4) as i32,
        )
    } else {
        let d = edge_delta(s, tc0 + 1);
        s.update(3, clip(0, 255, s[3] + d) as i32).update(4, clip(0, 255, s[4] - d) as i32)
    }
}

fn near(a: i32, b: i32, limit: i64) -> (r: bool)
    ensures
        r == (magnitude(a - b) < limit),
{
    let d: i64 = a as i64 - b as i64;
    if d < 0 {
        -d < limit
    } else {
        d < limit
    }
}

fn filterable(s: &[i32; 8], alpha: i32, beta: i32) -> (r: bool)
    ensures
        r == filtered_edge(s@, alpha as int, beta as int),
{
    near(s[3], s[4], alpha as i64) && near(s[2], s[3], beta as i64) && near(s[5], s[4], beta as i64)
}

fn limit(lo: i64, hi: i64, v: i64) -> (r: i64)
    requires
        lo <= hi,
    ensures
        r == clip(lo as int, hi as int, v as int),
        lo <= r <= hi,
{
    if v < lo {
        lo
    } else if v > hi {
        hi
    } else {
        v
    }
}

fn delta_of(s: &[i32; 8], tc: i64) -> (r: i64)
    requires
        0 <= tc <= 0x1_0000_0000,
    ensures
        r == edge_delta(s@, tc as int),
        -tc <= r <= tc,
{
    let v: i64 = 4 * (s[4] as i64 - s[3] as i64) + (s[2] as i64 - s[5] as i64) + 4;
    proof {
        lemma_i64_shr(v);
    }
    limit(-tc, tc, v >> 3)
}

fn second_of(outer: i32, own: i32, p0: i32, q0: i32, tc0: i32) -> (r: i32)
    requires
        tc0 >= 0,
    ensures
        r == second_sample(outer as int, own as int, p0 as int, q0 as int, tc0 as int),
{
    let m: i64 = p0 as i64 + q0 as i64 + 1;
    proof {
        lemma_i64_shr(m);
    }
    let v: i64 = outer as i64 + (m >> 1) - 2 * (own as i64);
    proof {
        lemma_i64_shr(v);
    }
    (own as i64 + limit(-(tc0 as i64), tc0 as i64, v >> 1)) as i32
}

/// Filter one luma line of an edge of strength 1 to 3; `tc0` is the clipping
/// value of its strength and quantiser.
pub fn filter_luma_normal(s: &mut [i32; 8], alpha: i32, beta: i32, tc0: i32)
    requires
        filtered_edge(old(s)@, alpha as int, beta as int) ==> tc0 >= 0,
    ensures
        final(s)@ == luma_normal(old(s)@, alpha as int, beta as int, tc0 as int),
{
    let ghost want = luma_normal(s@, alpha as int, beta as int, tc0 as int);
    if !filterable(s, alpha, beta) {
        return;
    }
    let (p2, p1, p0, q0, q1, q2): (i32, i32, i32, i32, i32, i32) = (
        s[1],
        s[2],
        s[3],
        s[4],
        s[5],
        s[6],
    );
    let flat_p: bool = near(p2, p0, beta as i64);
    let flat_q: bool = near(q2, q0, beta as i64);
    let mut tc: i64 = tc0 as i64;
    if flat_p {
        tc = tc + 1;
    }
    if flat_q {
        tc = tc + 1;
    }
    let d: i64 = delta_of(s, tc);
    s[3] = limit(0, 255, p0 as i64 + d) as i32;
    s[4] = limit(0, 255, q0 as i64 - d) as i32;
    if flat_p {
        s[2] = second_of(p2, p1, p0, q0, tc0);
    }
    if flat_q {
        s[5] = second_of(q2, q1, p0, q0, tc0);
    }
    assert(s@ =~= want);
}

fn side_of(smooth: bool, a3: i32, a2: i32, a1: i32, a0: i32, b0: i32, b1: i32) -> (r: (i32, i32, i32))
    ensures
        (r.0 as int, r.1 as int, r.2 as int) == strong_side(
            smooth,
            a3 as int,
            a2 as int,
            a1 as int,
            a0 as int,
            b0 as int,
            b1 as int,
        ),
{
    let (w3, w2, w1, w0, v0, v1): (i64, i64, i64, i64, i64, i64) = (
        a3 as i64,
        a2 as i64,
        a1 as i64,
        a0 as i64,
        b0 as i64,
        b1 as i64,
    );
    if smooth {
        let x: i64 = w2 + 2 * w1 + 2 * w0 + 2 * v0 + v1 + 4;
        let y: i64 = w2 + w1 + w0 + v0 + 2;
        let z: i64 = 2 * w3 + 3 * w2 + w1 + w0 + v0 + 4;
        proof {
            lemma_i64_shr(x);
            lemma_i64_shr(y);
            lemma_i64_shr(z);
        }
        ((x >> 3) as i32, (y >> 2) as i32, (z >> 3) as i32)
    } else {
        let x: i64 = 2 * w1 + w0 + v1 + 2;
        proof {
            lemma_i64_shr(x);
        }
        ((x >> 2) as i32, a1, a2)
    }
}

/// Filter one luma line of an edge of strength 4.
pub fn filter_luma_strong(s: &mut [i32; 8], alpha: i32, beta: i32)
    ensures
        final(s)@ == luma_strong(old(s)@, alpha as int, beta as int),
{
    let ghost want = luma_strong(s@, alpha as int, beta as int);
    if !filterable(s, alpha, beta) {
        return;
    }
    let a: i64 = alpha as i64;
    proof {
        lemma_i64_shr(a);
    }
    let small: bool = near(s[3], s[4], (a >> 2) + 2);
    let p = side_of(small && near(s[1], s[3], beta as i64), s[0], s[1], s[2], s[3], s[4], s[5]);
    let q = side_of(small && near(s[6], s[4], beta as i64), s[7], s[6], s[5], s[4], s[3], s[2]);
    s[1] = p.2;
    s[2] = p.1;
    s[3] = p.0;
    s[4] = q.0;
    s[5] = q.1;
    s[6] = q.2;
    assert(s@ =~= want);
}

/// Filter one chroma line: strength 4 where `strong` is set.
pub fn filter_chroma(s: &mut [i32; 8], alpha: i32, beta: i32, tc0: i32, strong: bool)
    requires
        !strong && filtered_edge(old(s)@, alpha as int, beta as int) ==> tc0 >= -1,
    ensures
        final(s)@ == chroma_line(old(s)@, alpha as int, beta as int, tc0 as int, strong),
{
    let ghost want = chroma_line(s@, alpha as int, beta as int, tc0 as int, strong);
    if !filterable(s, alpha, beta) {
        return;
    }
    if strong {
        let p = side_of(false, s[0], s[1], s[2], s[3], s[4], s[5]);
        let q = side_of(false, s[7], s[6], s[5], s[4], s[3], s[2]);
        s[3] = p.0;
        s[4] = q.0;
    } else {
        let d: i64 = delta_of(s, tc0 as i64 + 1);
        let (p0, q0): (i32, i32) = (s[3], s[4]);
        s[3] = limit(0, 255, p0 as i64 + d) as i32;
        s[4] = limit(0, 255, q0 as i64 - d) as i32;
    }
    assert(s@ =~= want);
}

/// Alpha thresholds by index 0 to 51 (Table 8-16).
pub const ALPHA: [i32; 52] = [
    0, 0, 0, 0, 0, 0, 0, 0, 0, 0, 0, 0, 0, 0, 0, 0,
    4, 4, 5, 6, 7, 8, 9, 10, 12, 13, 15, 17, 20, 22, 25, 28,
    32, 36, 40, 45, 50, 56, 63, 71, 80, 90, 101, 113, 127, 144, 162, 182,
    203, 226, 255, 255,
];

/// Beta thresholds by index 0 to 51 (Table 8-16).
pub const BETA: [i32; 52] = [
    0, 0, 0, 0, 0, 0, 0, 0, 0, 0, 0, 0, 0, 0, 0, 0,
    2, 2, 2, 3, 3, 3, 3, 4, 4, 4, 6, 6, 7, 7, 8, 8,
    9, 9, 10, 10, 11, 11, 12, 12, 13, 13, 14, 14, 15, 15, 16, 16,
    17, 17, 18, 18,
];

/// Clipping values by index 0 to 51 and strength 1 to 3 (Table 8-17).
pub const TC0: [[i32; 3]; 52] = [
    [0, 0, 0], [0, 0, 0], [0, 0, 0], [0, 0, 0], [0, 0, 0], [0, 0, 0], [0, 0, 0], [0, 0, 0],
    [0, 0, 0], [0, 0, 0], [0, 0, 0], [0, 0, 0], [0, 0, 0], [0, 0, 0], [0, 0, 0], [0, 0, 0],
    [0, 0, 0], [0, 0, 1], [0, 0, 1], [0, 0, 1], [0, 0, 1], [0, 1, 1], [0, 1, 1], [1, 1, 1],
    [1, 1, 1], [1, 1, 1], [1, 1, 1], [1, 1, 2], [1, 1, 2], [1, 1, 2], [1, 1, 2], [1, 2, 3],
    [1, 2, 3], [2, 2, 3], [2, 2, 4], [2, 3, 4], [2, 3, 4], [3, 3, 5], [3, 4, 6], [3, 4, 6],
    [4, 5, 7], [4, 5, 8], [4, 6, 9], [5, 7, 10], [6, 8, 11], [6, 8, 13], [7, 10, 14], [8, 11, 16],
    [9, 12, 18], [10, 13, 20], [11, 15, 23], [13, 17, 25],
];

/// The alpha threshold of an index.
pub closed spec fn alpha_of(i: int) -> int {
    ALPHA[i] as int
}

/// The beta threshold of an index.
pub closed spec fn beta_of(i: int) -> int {
    BETA[i] as int
}

/// The clipping value of an index and a strength from 1 to 3.
pub closed spec fn tc0_of(i: int, bs: int) -> int {
    TC0[i][bs - 1] as int
}

/// What the thresholds are: the entries of the tables.
pub proof fn law_thresholds()
    ensures
        forall|i: int| #[trigger] alpha_of(i) == ALPHA[i],
        forall|i: int| #[trigger] beta_of(i) == BETA[i],
        forall|i: int, bs: int| #[trigger] tc0_of(i, bs) == TC0[i][bs - 1],
{
}

/// Thresholds and clipping value of an index pair and strength.
pub fn thresholds(ia: usize, ib: usize, bs: usize) -> (r: (i32, i32, i32))
    requires
        ia <= 51,
        ib <= 51,
        1 <= bs <= 4,
    ensures
        r.0 == alpha_of(ia as int),
        r.1 == beta_of(ib as int),
        r.2 == (if bs == 4 {
            0
        } else {
            tc0_of(ia as int, bs as int)
        }),
        r.2 >= 0,
{
    let tc0: i32 = if bs == 4 {
        0
    } else {
        TC0[ia][bs - 1]
    };
    assert(forall|i: int, j: int| 0 <= i < 52 && 0 <= j < 3 ==> #[trigger] TC0[i][j] >= 0);
    (ALPHA[ia], BETA[ib], tc0)
}

/// A flat line of 8-bit samples is left as it is by every filter.
pub proof fn law_flat_line(s: Seq<i32>, v: i32, alpha: int, beta: int, tc0: int, strong: bool)
    requires
        s.len() == 8,
        forall|i: int| 0 <= i < 8 ==> #[trigger] s[i] == v,
        0 <= v <= 255,
        tc0 >= 0,
    ensures
        luma_normal(s, alpha, beta, tc0) == s,
        luma_strong(s, alpha, beta) == s,
        chroma_line(s, alpha, beta, tc0, strong) == s,
{
    assert(luma_normal(s, alpha, beta, tc0) =~= s);
    assert(luma_strong(s, alpha, beta) =~= s);
    assert(chroma_line(s, alpha, beta, tc0, strong) =~= s);
}

/// A step of at least `alpha` is a real edge: no filter touches it.
pub proof fn law_real_edges_stay(s: Seq<i32>, alpha: int, beta: int, tc0: int, strong: bool)
    requires
        magnitude(s[3] - s[4]) >= alpha,
    ensures
        luma_normal(s, alpha, beta, tc0) == s,
        luma_strong(s, alpha, beta) == s,
        chroma_line(s, alpha, beta, tc0, strong) == s,
{
}

} // verus!

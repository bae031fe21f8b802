//! Intra prediction (H.264 section 8.3): the spatial prediction that a
//! macroblock's residual is added to. Luma 4x4 and 8x8 blocks, whole 16x16
//! macroblocks, and 4:2:0 chroma.
//!
//! Sums are formed wide, so that every sample value is accepted. The 4x4 and
//! 8x8 predictors leave their result unclipped; whole-block ones clip the plane.

use vstd::prelude::*;

use crate::mvc::arith::{clip, lemma_i64_shr};

verus! {

/// The rounded mean of two samples.
pub open spec fn mean2(a: int, b: int) -> int {
    (a + b + 1) / 2
}

/// The rounded `[1 2 1] / 4` mean of three samples.
pub open spec fn mean3(a: int, b: int, c: int) -> int {
    (a + 2 * b + c + 2) / 4
}

/// The rounded mean of two samples.
pub fn avg2(a: i32, b: i32) -> (r: i32)
    ensures
        r == mean2(a as int, b as int),
{
    let s: i64 = a as i64 + b as i64 + 1;
    proof {
        lemma_i64_shr(s);
    }
    (s >> 1) as i32
}

/// The rounded `[1 2 1] / 4` mean of three samples.
pub fn avg3(a: i32, b: i32, c: i32) -> (r: i32)
    ensures
        r == mean3(a as int, b as int, c as int),
{
    let s: i64 = a as i64 + 2 * (b as i64) + c as i64 + 2;
    proof {
        lemma_i64_shr(s);
    }
    (s >> 2) as i32
}

/// The samples around a block: the row above, the column to the left, and the
/// corner between them.
pub struct Edges {
    pub top: Seq<i32>,
    pub left: Seq<i32>,
    pub corner: i32,
    pub top_avail: bool,
    pub left_avail: bool,
}

impl Edges {
    /// The sample above column `i`; the corner before the first one.
    pub open spec fn t(self, i: int) -> int {
        if i < 0 {
            self.corner as int
        } else {
            self.top[i] as int
        }
    }

    /// The sample left of row `j`; the corner before the first one.
    pub open spec fn l(self, j: int) -> int {
        if j < 0 {
            self.corner as int
        } else {
            self.left[j] as int
        }
    }
}

/// The sum of `n` samples from `from` on.
pub open spec fn sum_of(s: Seq<i32>, from: int, n: nat) -> int
    decreases n,
{
    if n == 0 {
        0
    } else {
        sum_of(s, from, (n - 1) as nat) + s[from + n - 1]
    }
}

/// The rounded mean of the available edges, each of `n` samples; mid-grey
/// where neither is.
pub open spec fn edge_mean(e: Edges, n: nat) -> int {
    let (st, sl) = (sum_of(e.top, 0, n), sum_of(e.left, 0, n));
    if e.top_avail && e.left_avail {
        (st + sl + n) / (2 * n as int)
    } else if e.top_avail {
        (st + n / 2) / n as int
    } else if e.left_avail {
        (sl + n / 2) / n as int
    } else {
        128
    }
}

/// The reconstructed samples around a 4x4 luma block.
#[derive(Debug, Clone, Copy)]
pub struct Neighbors4x4 {
    /// The row above and above right.
    pub top: [i32; 8],
    /// The column to the left.
    pub left: [i32; 4],
    /// The corner above left.
    pub corner: i32,
    pub top_avail: bool,
    pub left_avail: bool,
}

impl View for Neighbors4x4 {
    type V = Edges;

    open spec fn view(&self) -> Edges {
        Edges {
            top: self.top@,
            left: self.left@,
            corner: self.corner,
            top_avail: self.top_avail,
            left_avail: self.left_avail,
        }
    }
}

/// The nine Intra_4x4 and Intra_8x8 prediction modes, in their numeric order.
#[derive(Debug, Clone, Copy, PartialEq, Eq, Structural)]
pub enum Intra4x4Mode {
    Vertical,
    Horizontal,
    Dc,
    DiagDownLeft,
    DiagDownRight,
    VerticalRight,
    HorizontalDown,
    VerticalLeft,
    HorizontalUp,
}

/// The number of a mode.
pub open spec fn mode_index(m: Intra4x4Mode) -> int {
    match m {
        Intra4x4Mode::Vertical => 0,
        Intra4x4Mode::Horizontal => 1,
        Intra4x4Mode::Dc => 2,
        Intra4x4Mode::DiagDownLeft => 3,
        Intra4x4Mode::DiagDownRight => 4,
        Intra4x4Mode::VerticalRight => 5,
        Intra4x4Mode::HorizontalDown => 6,
        Intra4x4Mode::VerticalLeft => 7,
        Intra4x4Mode::HorizontalUp => 8,
    }
}

impl Intra4x4Mode {
    /// The mode of a number, for 0 to 8.
    pub fn from_index(i: u32) -> (r: Option<Self>)
        ensures
            r is Some <==> i <= 8,
            r is Some ==> mode_index(r->0) == i,
    {
        match i {
            0 => Some(Intra4x4Mode::Vertical),
            1 => Some(Intra4x4Mode::Horizontal),
            2 => Some(Intra4x4Mode::Dc),
            3 => Some(Intra4x4Mode::DiagDownLeft),
            4 => Some(Intra4x4Mode::DiagDownRight),
            5 => Some(Intra4x4Mode::VerticalRight),
            6 => Some(Intra4x4Mode::HorizontalDown),
            7 => Some(Intra4x4Mode::VerticalLeft),
            8 => Some(Intra4x4Mode::HorizontalUp),
            _ => None,
        }
    }
}

/// The predicted sample at row `y` and column `x` of an `n` by `n` block.
pub open spec fn predicted(mode: Intra4x4Mode, e: Edges, n: nat, y: int, x: int) -> int {
    match mode {
        Intra4x4Mode::Vertical => e.t(x),
        Intra4x4Mode::Horizontal => e.l(y),
        Intra4x4Mode::Dc => edge_mean(e, n),
        Intra4x4Mode::DiagDownLeft => if x == n - 1 && y == n - 1 {
            mean3(e.t(2 * n - 2), e.t(2 * n - 1), e.t(2 * n - 1))
        } else {
            mean3(e.t(x + y), e.t(x + y + 1), e.t(x + y + 2))
        },
        Intra4x4Mode::DiagDownRight => if x > y {
            mean3(e.t(x - y - 2), e.t(x - y - 1), e.t(x - y))
        } else if x < y {
            mean3(e.l(y - x - 2), e.l(y - x - 1), e.l(y - x))
        } else {
            mean3(e.t(0), e.t(-1), e.l(0))
        },
        Intra4x4Mode::VerticalRight => {
            let z = 2 * x - y;
            let i = x - y / 2;
            if z >= 0 && z % 2 == 0 {
                mean2(e.t(i - 1), e.t(i))
            } else if z >= 0 {
                mean3(e.t(i - 2), e.t(i - 1), e.t(i))
            } else if z == -1 {
                mean3(e.l(0), e.t(-1), e.t(0))
            } else {
                mean3(e.l(-z - 1), e.l(-z - 2), e.l(-z - 3))
            }
        },
        Intra4x4Mode::HorizontalDown => {
            let z = 2 * y - x;
            let i = y - x / 2;
            if z >= 0 && z % 2 == 0 {
                mean2(e.l(i - 1), e.l(i))
            } else if z >= 0 {
                mean3(e.l(i - 2), e.l(i - 1), e.l(i))
            } else if z == -1 {
                mean3(e.l(0), e.t(-1), e.t(0))
            } else {
                mean3(e.t(-z - 1), e.t(-z - 2), e.t(-z - 3))
            }
        },
        Intra4x4Mode::VerticalLeft => {
            let i = x + y / 2;
            if y % 2 == 0 {
                mean2(e.t(i), e.t(i + 1))
            } else {
                mean3(e.t(i), e.t(i + 1), e.t(i + 2))
            }
        },
        Intra4x4Mode::HorizontalUp => {
            let z = x + 2 * y;
            let i = y + x / 2;
            if z < 2 * n - 3 && z % 2 == 0 {
                mean2(e.l(i), e.l(i + 1))
            } else if z < 2 * n - 3 {
                mean3(e.l(i), e.l(i + 1), e.l(i + 2))
            } else if z == 2 * n - 3 {
                mean3(e.l(n - 2), e.l(n - 1), e.l(n - 1))
            } else {
                e.l(n - 1)
            }
        },
    }
}

fn edge_at(s: &[i32], corner: i32, i: i32) -> (r: i32)
    requires
        i < s@.len(),
    ensures
        r == (if i < 0 {
            corner
        } else {
            s@[i as int]
        }),
{
    if i < 0 {
        corner
    } else {
        s[i as usize]
    }
}

fn sum_samples(s: &[i32], from: usize, n: usize) -> (r: i64)
    requires
        from + n <= s@.len(),
        n <= 16,
    ensures
        r == sum_of(s@, from as int, n as nat),
        -16 * 0x8000_0000 <= r <= 16 * 0x8000_0000,
{
    let len: usize = s.len();
    let mut r: i64 = 0;
    for i in 0..n
        invariant
            from + n <= s@.len(),
            s@.len() == len,
            n <= 16,
            r == sum_of(s@, from as int, i as nat),
            -i * 0x8000_0000 <= r <= i * 0x8000_0000,
    {
        r = r + s[from + i] as i64;
    }
    r
}

fn edge_average(
    top: &[i32],
    left: &[i32],
    n: usize,
    top_avail: bool,
    left_avail: bool,
    Ghost(e): Ghost<Edges>,
) -> (r: i32)
    requires
        n == 4 || n == 8 || n == 16,
        top@.len() >= n,
        left@.len() >= n,
        e.top == top@,
        e.left == left@,
        e.top_avail == top_avail,
        e.left_avail == left_avail,
    ensures
        r == edge_mean(e, n as nat),
{
    let st: i64 = sum_samples(top, 0, n);
    let sl: i64 = sum_samples(left, 0, n);
    proof {
        lemma_sum_bounds(top@, 0, n as nat);
        lemma_sum_bounds(left@, 0, n as nat);
    }
    let log2: u32 = if n == 4 {
        2
    } else if n == 8 {
        3
    } else {
        4
    };
    if top_avail && left_avail {
        let v: i64 = st + sl + n as i64;
        proof {
            lemma_i64_shr(v);
        }
        (v >> (log2 + 1)) as i32
    } else if top_avail {
        let v: i64 = st + (n / 2) as i64;
        proof {
            lemma_i64_shr(v);
        }
        (v >> log2) as i32
    } else if left_avail {
        let v: i64 = sl + (n / 2) as i64;
        proof {
            lemma_i64_shr(v);
        }
        (v >> log2) as i32
    } else {
        128
    }
}

proof fn lemma_sum_bounds(s: Seq<i32>, from: int, n: nat)
    ensures
        n * i32::MIN <= sum_of(s, from, n) <= n * i32::MAX,
    decreases n,
{
    if n > 0 {
        lemma_sum_bounds(s, from, (n - 1) as nat);
    }
}

fn slanted_down(
    mode: Intra4x4Mode,
    top: &[i32],
    left: &[i32],
    corner: i32,
    n: i32,
    y: i32,
    x: i32,
    Ghost(e): Ghost<Edges>,
) -> (r: i32)
    requires
        n == 4 || n == 8,
        top@.len() == 2 * n,
        left@.len() == n,
        e.top == top@,
        e.left == left@,
        e.corner == corner,
        0 <= y < n,
        0 <= x < n,
        mode is DiagDownRight || mode is VerticalRight || mode is HorizontalDown,
    ensures
        r == predicted(mode, e, n as nat, y as int, x as int),
{
    if mode == Intra4x4Mode::DiagDownRight {
        if x > y {
            avg3(
                edge_at(top, corner, x - y - 2),
                edge_at(top, corner, x - y - 1),
                edge_at(top, corner, x - y),
            )
        } else if x < y {
            avg3(
                edge_at(left, corner, y - x - 2),
                edge_at(left, corner, y - x - 1),
                edge_at(left, corner, y - x),
            )
        } else {
            avg3(top[0], corner, left[0])
        }
    } else if mode == Intra4x4Mode::VerticalRight {
        let z: i32 = 2 * x - y;
        let i: i32 = x - y / 2;
        if z >= 0 && z % 2 == 0 {
            avg2(edge_at(top, corner, i - 1), edge_at(top, corner, i))
        } else if z >= 0 {
            avg3(
                edge_at(top, corner, i - 2),
                edge_at(top, corner, i - 1),
                edge_at(top, corner, i),
            )
        } else if z == -1 {
            avg3(left[0], corner, top[0])
        } else {
            avg3(
                edge_at(left, corner, -z - 1),
                edge_at(left, corner, -z - 2),
                edge_at(left, corner, -z - 3),
            )
        }
    } else {
        let z: i32 = 2 * y - x;
        let i: i32 = y - x / 2;
        if z >= 0 && z % 2 == 0 {
            avg2(edge_at(left, corner, i - 1), edge_at(left, corner, i))
        } else if z >= 0 {
            avg3(
                edge_at(left, corner, i - 2),
                edge_at(left, corner, i - 1),
                edge_at(left, corner, i),
            )
        } else if z == -1 {
            avg3(left[0], corner, top[0])
        } else {
            avg3(
                edge_at(top, corner, -z - 1),
                edge_at(top, corner, -z - 2),
                edge_at(top, corner, -z - 3),
            )
        }
    }
}

fn slanted_up(
    mode: Intra4x4Mode,
    top: &[i32],
    left: &[i32],
    n: usize,
    y: usize,
    x: usize,
    Ghost(e): Ghost<Edges>,
) -> (r: i32)
    requires
        n == 4 || n == 8,
        top@.len() == 2 * n,
        left@.len() == n,
        e.top == top@,
        e.left == left@,
        0 <= y < n,
        0 <= x < n,
        mode is DiagDownLeft || mode is VerticalLeft || mode is HorizontalUp,
    ensures
        r == predicted(mode, e, n as nat, y as int, x as int),
{
    if mode == Intra4x4Mode::DiagDownLeft {
        if x == n - 1 && y == n - 1 {
            avg3(top[2 * n - 2], top[2 * n - 1], top[2 * n - 1])
        } else {
            avg3(top[x + y], top[x + y + 1], top[x + y + 2])
        }
    } else if mode == Intra4x4Mode::VerticalLeft {
        let i: usize = x + y / 2;
        if y % 2 == 0 {
            avg2(top[i], top[i + 1])
        } else {
            avg3(top[i], top[i + 1], top[i + 2])
        }
    } else {
        let z: usize = x + 2 * y;
        let i: usize = y + x / 2;
        if z < 2 * n - 3 && z % 2 == 0 {
            avg2(left[i], left[i + 1])
        } else if z < 2 * n - 3 {
            avg3(left[i], left[i + 1], left[i + 2])
        } else if z == 2 * n - 3 {
            avg3(left[n - 2], left[n - 1], left[n - 1])
        } else {
            left[n - 1]
        }
    }
}

fn directional_sample(
    mode: Intra4x4Mode,
    top: &[i32],
    left: &[i32],
    corner: i32,
    n: usize,
    y: usize,
    x: usize,
    Ghost(e): Ghost<Edges>,
) -> (r: i32)
    requires
        n == 4 || n == 8,
        top@.len() == 2 * n,
        left@.len() == n,
        e.top == top@,
        e.left == left@,
        e.corner == corner,
        0 <= y < n,
        0 <= x < n,
        mode !is Dc,
    ensures
        r == predicted(mode, e, n as nat, y as int, x as int),
{
    match mode {
        Intra4x4Mode::Vertical => top[x],
        Intra4x4Mode::Horizontal => left[y],
        Intra4x4Mode::DiagDownRight
        | Intra4x4Mode::VerticalRight
        | Intra4x4Mode::HorizontalDown => slanted_down(
            mode,
            top,
            left,
            corner,
            n as i32,
            y as i32,
            x as i32,
            Ghost(e),
        ),
        _ => slanted_up(mode, top, left, n, y, x, Ghost(e)),
    }
}

/// Predict a 4x4 luma block, by row and column, unclipped.
pub fn predict_4x4(mode: Intra4x4Mode, n: &Neighbors4x4) -> (p: [[i32; 4]; 4])
    ensures
        forall|y: int, x: int|
            0 <= y < 4 && 0 <= x < 4 ==> #[trigger] p[y][x] == predicted(mode, n@, 4, y, x),
{
    let ghost e = n@;
    let top: &[i32] = &n.top;
    let left: &[i32] = &n.left;
    if mode == Intra4x4Mode::Dc {
        let dc = edge_average(top, left, 4, n.top_avail, n.left_avail, Ghost(e));
        return [[dc, dc, dc, dc], [dc, dc, dc, dc], [dc, dc, dc, dc], [dc, dc, dc, dc]];
    }
    let mut p: [[i32; 4]; 4] = [[0i32; 4]; 4];
    for y in 0..4usize
        invariant
            mode !is Dc,
            e == n@,
            top@ == n.top@,
            left@ == n.left@,
            forall|a: int, b: int|
                0 <= a < y && 0 <= b < 4 ==> #[trigger] p[a][b] == predicted(mode, e, 4, a, b),
    {
        for x in 0..4usize
            invariant
                y < 4,
                mode !is Dc,
                e == n@,
                top@ == n.top@,
                left@ == n.left@,
                forall|a: int, b: int|
                    0 <= a < 4 && 0 <= b < 4 && (a < y || a == y && b < x) ==> #[trigger] p[a][b]
                        == predicted(mode, e, 4, a, b),
        {
            p[y][x] = directional_sample(mode, top, left, n.corner, 4, y, x, Ghost(e));
        }
    }
    p
}

/// A block's prediction mode from the modes of its left and upper neighbours:
/// the smaller one, or DC where either is missing; `raw` is -1 to take it, or
/// the number of another one with it left out.
pub open spec fn intra_mode(mode_a: Option<u8>, mode_b: Option<u8>, raw: int) -> int {
    let pred = if mode_a is None || mode_b is None {
        2int
    } else if mode_a->0 < mode_b->0 {
        mode_a->0 as int
    } else {
        mode_b->0 as int
    };
    let rem = raw % 256;
    if raw < 0 {
        pred
    } else if rem < pred {
        rem
    } else {
        rem + 1
    }
}

/// Derive a block's Intra_4x4 or Intra_8x8 prediction mode from its neighbours
/// and the decoded element.
pub fn derive_intra_mode(mode_a: Option<u8>, mode_b: Option<u8>, raw: i64) -> (r: u8)
    requires
        raw >= 0 ==> raw % 256 != 255,
    ensures
        r == intra_mode(mode_a, mode_b, raw as int),
{
    let pred: u8 = match (mode_a, mode_b) {
        (Some(a), Some(b)) => if a < b {
            a
        } else {
            b
        },
        _ => 2,
    };
    if raw < 0 {
        pred
    } else {
        let rem: u8 = (raw % 256) as u8;
        if rem < pred {
            rem
        } else {
            rem + 1
        }
    }
}

/// Modes stay within the nine where the neighbours' are and the element is one
/// of the eight others; the predicted mode itself is never coded again.
pub proof fn law_derived_mode_range(mode_a: Option<u8>, mode_b: Option<u8>, raw: int)
    requires
        mode_a is Some ==> mode_a->0 <= 8,
        mode_b is Some ==> mode_b->0 <= 8,
        -1 <= raw <= 7,
    ensures
        0 <= intra_mode(mode_a, mode_b, raw) <= 8,
        raw >= 0 ==> intra_mode(mode_a, mode_b, raw) != intra_mode(mode_a, mode_b, -1),
{
}

/// The reference samples of an 8x8 luma block: the row above with the eight
/// samples above right, the column to the left and the corner.
#[derive(Debug, Clone, Copy)]
pub struct Neighbors8x8 {
    pub top: [i32; 16],
    pub left: [i32; 8],
    pub corner: i32,
    pub top_avail: bool,
    pub left_avail: bool,
    pub corner_avail: bool,
}

impl View for Neighbors8x8 {
    type V = Edges;

    open spec fn view(&self) -> Edges {
        Edges {
            top: self.top@,
            left: self.left@,
            corner: self.corner,
            top_avail: self.top_avail,
            left_avail: self.left_avail,
        }
    }
}

/// A low-pass filtered edge sample: its neighbours toward the corner and away
/// from it, each replaced by the sample itself where there is none.
pub open spec fn smooth_edge(s: Seq<i32>, corner: i32, corner_avail: bool, i: int) -> int {
    let before = if i > 0 {
        s[i - 1]
    } else if corner_avail {
        corner
    } else {
        s[0]
    };
    let after = if i + 1 < s.len() {
        s[i + 1]
    } else {
        s[i]
    };
    mean3(before as int, s[i] as int, after as int)
}

/// The low-pass filtered corner.
pub open spec fn smooth_corner(e: Edges) -> int {
    mean3(
        (if e.left_avail {
            e.left[0]
        } else {
            e.corner
        }) as int,
        e.corner as int,
        (if e.top_avail {
            e.top[0]
        } else {
            e.corner
        }) as int,
    )
}

/// The reference samples after the Intra_8x8 low-pass filter, which covers the
/// available ones.
pub open spec fn smoothed(e: Edges, corner_avail: bool) -> Edges {
    Edges {
        top: if e.top_avail {
            Seq::new(16, |i: int| smooth_edge(e.top, e.corner, corner_avail, i) as i32)
        } else {
            e.top
        },
        left: if e.left_avail {
            Seq::new(8, |i: int| smooth_edge(e.left, e.corner, corner_avail, i) as i32)
        } else {
            e.left
        },
        corner: if corner_avail {
            smooth_corner(e) as i32
        } else {
            e.corner
        },
        ..e
    }
}

fn smooth_sample(s: &[i32], corner: i32, corner_avail: bool, i: usize) -> (r: i32)
    requires
        i < s@.len(),
    ensures
        r == smooth_edge(s@, corner, corner_avail, i as int),
{
    let n: usize = s.len();
    let before: i32 = if i > 0 {
        s[i - 1]
    } else if corner_avail {
        corner
    } else {
        s[0]
    };
    let after: i32 = if i < n - 1 {
        s[i + 1]
    } else {
        s[i]
    };
    avg3(before, s[i], after)
}

impl Neighbors8x8 {
    /// The reference samples after the Intra_8x8 low-pass filter.
    pub fn filtered(&self) -> (r: Neighbors8x8)
        ensures
            r@ == smoothed(self@, self.corner_avail),
            r.corner_avail == self.corner_avail,
    {
        let mut top: [i32; 16] = self.top;
        let mut left: [i32; 8] = self.left;
        let src_top: &[i32] = &self.top;
        let src_left: &[i32] = &self.left;
        let ghost want = smoothed(self@, self.corner_avail);
        let corner: i32 = if self.corner_avail {
            avg3(
                if self.left_avail {
                    self.left[0]
                } else {
                    self.corner
                },
                self.corner,
                if self.top_avail {
                    self.top[0]
                } else {
                    self.corner
                },
            )
        } else {
            self.corner
        };
        if self.top_avail {
            for i in 0..16usize
                invariant
                    src_top@ == self.top@,
                    forall|j: int|
                        0 <= j < i ==> #[trigger] top@[j] == smooth_edge(
                            src_top@,
                            self.corner,
                            self.corner_avail,
                            j,
                        ),
            {
                top[i] = smooth_sample(src_top, self.corner, self.corner_avail, i);
            }
        }
        if self.left_avail {
            for i in 0..8usize
                invariant
                    src_left@ == self.left@,
                    forall|j: int|
                        0 <= j < i ==> #[trigger] left@[j] == smooth_edge(
                            src_left@,
                            self.corner,
                            self.corner_avail,
                            j,
                        ),
            {
                left[i] = smooth_sample(src_left, self.corner, self.corner_avail, i);
            }
        }
        assert(top@ =~= want.top);
        assert(left@ =~= want.left);
        Neighbors8x8 {
            top,
            left,
            corner,
            top_avail: self.top_avail,
            left_avail: self.left_avail,
            corner_avail: self.corner_avail,
        }
    }
}

/// Predict an 8x8 luma block, by row and column, unclipped. The reference
/// samples are low-pass filtered first.
pub fn predict_8x8(mode: Intra4x4Mode, raw: &Neighbors8x8) -> (p: [[i32; 8]; 8])
    ensures
        forall|y: int, x: int|
            0 <= y < 8 && 0 <= x < 8 ==> #[trigger] p[y][x] == predicted(
                mode,
                smoothed(raw@, raw.corner_avail),
                8,
                y,
                x,
            ),
{
    let n = raw.filtered();
    let ghost e = n@;
    let top: &[i32] = &n.top;
    let left: &[i32] = &n.left;
    if mode == Intra4x4Mode::Dc {
        let dc = edge_average(top, left, 8, n.top_avail, n.left_avail, Ghost(e));
        let row: [i32; 8] = [dc, dc, dc, dc, dc, dc, dc, dc];
        return [row, row, row, row, row, row, row, row];
    }
    let mut p: [[i32; 8]; 8] = [[0i32; 8]; 8];
    for y in 0..8usize
        invariant
            mode !is Dc,
            e == n@,
            top@ == n.top@,
            left@ == n.left@,
            forall|a: int, b: int|
                0 <= a < y && 0 <= b < 8 ==> #[trigger] p[a][b] == predicted(mode, e, 8, a, b),
    {
        for x in 0..8usize
            invariant
                y < 8,
                mode !is Dc,
                e == n@,
                top@ == n.top@,
                left@ == n.left@,
                forall|a: int, b: int|
                    0 <= a < 8 && 0 <= b < 8 && (a < y || a == y && b < x) ==> #[trigger] p[a][b]
                        == predicted(mode, e, 8, a, b),
        {
            p[y][x] = directional_sample(mode, top, left, n.corner, 8, y, x, Ghost(e));
        }
    }
    p
}

/// The four whole-block prediction modes of Intra_16x16 luma and of chroma.
#[derive(Debug, Clone, Copy, PartialEq, Eq, Structural)]
pub enum PlaneMode {
    Vertical,
    Horizontal,
    Dc,
    Plane,
}

/// The number of a mode.
pub open spec fn plane_index(m: PlaneMode) -> int {
    match m {
        PlaneMode::Vertical => 0,
        PlaneMode::Horizontal => 1,
        PlaneMode::Dc => 2,
        PlaneMode::Plane => 3,
    }
}

impl PlaneMode {
    /// The mode of a number, for 0 to 3.
    pub fn from_index(i: u32) -> (r: Option<Self>)
        ensures
            r is Some <==> i <= 3,
            r is Some ==> plane_index(r->0) == i,
    {
        match i {
            0 => Some(PlaneMode::Vertical),
            1 => Some(PlaneMode::Horizontal),
            2 => Some(PlaneMode::Dc),
            3 => Some(PlaneMode::Plane),
            _ => None,
        }
    }
}

/// The samples around a whole block of 16 or 8 rows and columns; the tail of
/// the arrays is unused for 8.
#[derive(Debug, Clone, Copy)]
pub struct NeighborsNxN {
    pub top: [i32; 16],
    pub left: [i32; 16],
    pub corner: i32,
    pub top_avail: bool,
    pub left_avail: bool,
}

impl View for NeighborsNxN {
    type V = Edges;

    open spec fn view(&self) -> Edges {
        Edges {
            top: self.top@,
            left: self.left@,
            corner: self.corner,
            top_avail: self.top_avail,
            left_avail: self.left_avail,
        }
    }
}

/// The weighted slope along an edge of `2 * half` samples, over the first `k`
/// pairs from its middle outward; the corner lies before the first sample.
pub open spec fn slope(s: Seq<i32>, corner: i32, half: int, k: nat) -> int
    decreases k,
{
    if k == 0 {
        0
    } else {
        let far = half - 1 - k;
        slope(s, corner, half, (k - 1) as nat) + k * (s[half + k - 1] - (if far < 0 {
            corner
        } else {
            s[far]
        }))
    }
}

/// A sample of the plane through the edges of an `n` by `n` block.
pub open spec fn plane_sample(e: Edges, n: int, y: int, x: int) -> int {
    let half = n / 2;
    let h = slope(e.top, e.corner, half, half as nat);
    let v = slope(e.left, e.corner, half, half as nat);
    let (b, c) = if n == 16 {
        ((5 * h + 32) / 64, (5 * v + 32) / 64)
    } else {
        ((17 * h + 16) / 32, (17 * v + 16) / 32)
    };
    let a = 16 * (e.left[n - 1] + e.top[n - 1]);
    clip(0, 255, (a + b * (x - (half - 1)) + c * (y - (half - 1)) + 16) / 32)
}

/// The chroma DC value of the 4x4 block at block row `by` and column `bx`: the
/// diagonal ones take both edges, the upper right one prefers the top and the
/// lower left one the left.
pub open spec fn chroma_mean(e: Edges, by: int, bx: int) -> int {
    let (st, sl) = (sum_of(e.top, 4 * bx, 4), sum_of(e.left, 4 * by, 4));
    if by == bx && e.top_avail && e.left_avail {
        (st + sl + 4) / 8
    } else if e.top_avail && (bx >= by || !e.left_avail) {
        (st + 2) / 4
    } else if e.left_avail {
        (sl + 2) / 4
    } else {
        128
    }
}

/// The predicted sample at row `y` and column `x` of a 16x16 luma block.
pub open spec fn predicted16(mode: PlaneMode, e: Edges, y: int, x: int) -> int {
    match mode {
        PlaneMode::Vertical => e.top[x] as int,
        PlaneMode::Horizontal => e.left[y] as int,
        PlaneMode::Dc => edge_mean(e, 16),
        PlaneMode::Plane => plane_sample(e, 16, y, x),
    }
}

/// The predicted sample at row `y` and column `x` of an 8x8 chroma block.
pub open spec fn predicted_chroma(mode: PlaneMode, e: Edges, y: int, x: int) -> int {
    match mode {
        PlaneMode::Vertical => e.top[x] as int,
        PlaneMode::Horizontal => e.left[y] as int,
        PlaneMode::Dc => chroma_mean(e, y / 4, x / 4),
        PlaneMode::Plane => plane_sample(e, 8, y, x),
    }
}

fn edge_slope(s: &[i32], corner: i32, half: usize) -> (r: i64)
    requires
        half == 4 || half == 8,
        s@.len() >= 2 * half,
    ensures
        r == slope(s@, corner, half as int, half as nat),
        -64 * 0x1_0000_0000 <= r <= 64 * 0x1_0000_0000,
{
    let mut r: i64 = 0;
    for k in 0..half
        invariant
            half == 4 || half == 8,
            s@.len() >= 2 * half,
            r == slope(s@, corner, half as int, k as nat),
            -k * 8 * 0x1_0000_0000 <= r <= k * 8 * 0x1_0000_0000,
    {
        let near: i64 = s[half + k] as i64;
        let far: i64 = if k == half - 1 {
            corner as i64
        } else {
            s[half - 2 - k] as i64
        };
        let d: i64 = near - far;
        let w: i64 = k as i64 + 1;
        assert(-8 * 0x1_0000_0000 <= w * d <= 8 * 0x1_0000_0000) by (nonlinear_arith)
            requires
                1 <= w <= 8,
                -0x1_0000_0000 <= d <= 0x1_0000_0000,
        ;
        r = r + w * d;
    }
    r
}

fn plane_point(a: i64, b: i64, c: i64, dy: i64, dx: i64) -> (r: i32)
    requires
        -0x100_0000_0000 <= a <= 0x100_0000_0000,
        -0x100_0000_0000 <= b <= 0x100_0000_0000,
        -0x100_0000_0000 <= c <= 0x100_0000_0000,
        -16 <= dy <= 16,
        -16 <= dx <= 16,
    ensures
        r == clip(0, 255, (a + b * dx + c * dy + 16) / 32),
{
    assert(-0x1000_0000_0000 <= b * dx <= 0x1000_0000_0000) by (nonlinear_arith)
        requires
            -0x100_0000_0000 <= b <= 0x100_0000_0000,
            -16 <= dx <= 16,
    ;
    assert(-0x1000_0000_0000 <= c * dy <= 0x1000_0000_0000) by (nonlinear_arith)
        requires
            -0x100_0000_0000 <= c <= 0x100_0000_0000,
            -16 <= dy <= 16,
    ;
    let v: i64 = a + b * dx + c * dy + 16;
    proof {
        lemma_i64_shr(v);
    }
    let q: i64 = v >> 5;
    if q < 0 {
        0
    } else if q > 255 {
        255
    } else {
        q as i32
    }
}

/// Predict an Intra_16x16 luma macroblock, by row and column; the plane is
/// clipped.
pub fn predict_16x16(mode: PlaneMode, n: &NeighborsNxN) -> (p: [[i32; 16]; 16])
    ensures
        forall|y: int, x: int|
            0 <= y < 16 && 0 <= x < 16 ==> #[trigger] p[y][x] == predicted16(mode, n@, y, x),
{
    let ghost e = n@;
    let top: &[i32] = &n.top;
    let left: &[i32] = &n.left;
    let dc: i32 = edge_average(top, left, 16, n.top_avail, n.left_avail, Ghost(e));
    let h: i64 = edge_slope(top, n.corner, 8);
    let v: i64 = edge_slope(left, n.corner, 8);
    proof {
        lemma_i64_shr((5 * h + 32) as i64);
        lemma_i64_shr((5 * v + 32) as i64);
    }
    let b: i64 = (5 * h + 32) >> 6;
    let c: i64 = (5 * v + 32) >> 6;
    let a: i64 = 16 * (n.left[15] as i64 + n.top[15] as i64);
    let mut p: [[i32; 16]; 16] = [[0i32; 16]; 16];
    for y in 0..16usize
        invariant
            e == n@,
            dc == edge_mean(e, 16),
            b == (5 * slope(e.top, e.corner, 8, 8) + 32) / 64,
            c == (5 * slope(e.left, e.corner, 8, 8) + 32) / 64,
            a == 16 * (e.left[15] + e.top[15]),
            -0x100_0000_0000 <= b <= 0x100_0000_0000,
            -0x100_0000_0000 <= c <= 0x100_0000_0000,
            forall|i: int, j: int|
                0 <= i < y && 0 <= j < 16 ==> #[trigger] p[i][j] == predicted16(mode, e, i, j),
    {
        for x in 0..16usize
            invariant
                y < 16,
                e == n@,
                dc == edge_mean(e, 16),
                b == (5 * slope(e.top, e.corner, 8, 8) + 32) / 64,
                c == (5 * slope(e.left, e.corner, 8, 8) + 32) / 64,
                a == 16 * (e.left[15] + e.top[15]),
                -0x100_0000_0000 <= b <= 0x100_0000_0000,
                -0x100_0000_0000 <= c <= 0x100_0000_0000,
                forall|i: int, j: int|
                    0 <= i < 16 && 0 <= j < 16 && (i < y || i == y && j < x) ==> #[trigger] p[i][j]
                        == predicted16(mode, e, i, j),
        {
            let s: i32 = match mode {
                PlaneMode::Vertical => n.top[x],
                PlaneMode::Horizontal => n.left[y],
                PlaneMode::Dc => dc,
                PlaneMode::Plane => plane_point(a, b, c, y as i64 - 7, x as i64 - 7),
            };
            p[y][x] = s;
        }
    }
    p
}

fn chroma_average(n: &NeighborsNxN, by: usize, bx: usize) -> (r: i32)
    requires
        by < 2,
        bx < 2,
    ensures
        r == chroma_mean(n@, by as int, bx as int),
{
    let top: &[i32] = &n.top;
    let left: &[i32] = &n.left;
    let st: i64 = sum_samples(top, 4 * bx, 4);
    let sl: i64 = sum_samples(left, 4 * by, 4);
    proof {
        lemma_sum_bounds(top@, 4 * bx as int, 4);
        lemma_sum_bounds(left@, 4 * by as int, 4);
    }
    if by == bx && n.top_avail && n.left_avail {
        let v: i64 = st + sl + 4;
        proof {
            lemma_i64_shr(v);
        }
        (v >> 3) as i32
    } else if n.top_avail && (bx >= by || !n.left_avail) {
        let v: i64 = st + 2;
        proof {
            lemma_i64_shr(v);
        }
        (v >> 2) as i32
    } else if n.left_avail {
        let v: i64 = sl + 2;
        proof {
            lemma_i64_shr(v);
        }
        (v >> 2) as i32
    } else {
        128
    }
}

/// Predict an 8x8 block of 4:2:0 chroma, by row and column; the plane is
/// clipped.
pub fn predict_chroma_8x8(mode: PlaneMode, n: &NeighborsNxN) -> (p: [[i32; 8]; 8])
    ensures
        forall|y: int, x: int|
            0 <= y < 8 && 0 <= x < 8 ==> #[trigger] p[y][x] == predicted_chroma(mode, n@, y, x),
{
    let ghost e = n@;
    let top: &[i32] = &n.top;
    let left: &[i32] = &n.left;
    let dc: [[i32; 2]; 2] = [
        [chroma_average(n, 0, 0), chroma_average(n, 0, 1)],
        [chroma_average(n, 1, 0), chroma_average(n, 1, 1)],
    ];
    let h: i64 = edge_slope(top, n.corner, 4);
    let v: i64 = edge_slope(left, n.corner, 4);
    proof {
        lemma_i64_shr((17 * h + 16) as i64);
        lemma_i64_shr((17 * v + 16) as i64);
    }
    let b: i64 = (17 * h + 16) >> 5;
    let c: i64 = (17 * v + 16) >> 5;
    let a: i64 = 16 * (n.left[7] as i64 + n.top[7] as i64);
    let mut p: [[i32; 8]; 8] = [[0i32; 8]; 8];
    for y in 0..8usize
        invariant
            e == n@,
            forall|i: int, j: int|
                0 <= i < 2 && 0 <= j < 2 ==> #[trigger] dc[i][j] == chroma_mean(e, i, j),
            b == (17 * slope(e.top, e.corner, 4, 4) + 16) / 32,
            c == (17 * slope(e.left, e.corner, 4, 4) + 16) / 32,
            a == 16 * (e.left[7] + e.top[7]),
            -0x100_0000_0000 <= b <= 0x100_0000_0000,
            -0x100_0000_0000 <= c <= 0x100_0000_0000,
            forall|i: int, j: int|
                0 <= i < y && 0 <= j < 8 ==> #[trigger] p[i][j] == predicted_chroma(mode, e, i, j),
    {
        for x in 0..8usize
            invariant
                y < 8,
                e == n@,
                forall|i: int, j: int|
                    0 <= i < 2 && 0 <= j < 2 ==> #[trigger] dc[i][j] == chroma_mean(e, i, j),
                b == (17 * slope(e.top, e.corner, 4, 4) + 16) / 32,
                c == (17 * slope(e.left, e.corner, 4, 4) + 16) / 32,
                a == 16 * (e.left[7] + e.top[7]),
                -0x100_0000_0000 <= b <= 0x100_0000_0000,
                -0x100_0000_0000 <= c <= 0x100_0000_0000,
                forall|i: int, j: int|
                    0 <= i < 8 && 0 <= j < 8 && (i < y || i == y && j < x) ==> #[trigger] p[i][j]
                        == predicted_chroma(mode, e, i, j),
        {
            let s: i32 = match mode {
                PlaneMode::Vertical => n.top[x],
                PlaneMode::Horizontal => n.left[y],
                PlaneMode::Dc => dc[y / 4][x / 4],
                PlaneMode::Plane => plane_point(a, b, c, y as i64 - 3, x as i64 - 3),
            };
            p[y][x] = s;
        }
    }
    p
}

// ---- constant fields ----

/// Every sample around the block, of `t` above and `l` to the left, is `v`.
pub open spec fn constant_edges(e: Edges, t: int, l: int, v: int) -> bool {
    &&& forall|i: int| 0 <= i < t ==> #[trigger] e.top[i] == v
    &&& forall|i: int| 0 <= i < l ==> #[trigger] e.left[i] == v
    &&& e.corner == v
}

proof fn lemma_constant_sum(s: Seq<i32>, from: int, n: nat, v: int)
    requires
        forall|i: int| from <= i < from + n ==> #[trigger] s[i] == v,
    ensures
        sum_of(s, from, n) == n * v,
    decreases n,
{
    if n > 0 {
        lemma_constant_sum(s, from, (n - 1) as nat, v);
        assert(n * v == (n - 1) * v + v) by (nonlinear_arith);
    } else {
        assert(n * v == 0) by (nonlinear_arith)
            requires
                n == 0,
        ;
    }
}

proof fn lemma_constant_slope(s: Seq<i32>, corner: i32, half: int, k: nat, v: int)
    requires
        0 <= k <= half,
        forall|i: int| 0 <= i < 2 * half ==> #[trigger] s[i] == v,
        corner == v,
    ensures
        slope(s, corner, half, k) == 0,
    decreases k,
{
    if k > 0 {
        lemma_constant_slope(s, corner, half, (k - 1) as nat, v);
        let far = half - 1 - k;
        assert(s[half + k - 1] == v);
        if far >= 0 {
            assert(s[far] == v);
        }
        assert(k * 0 == 0);
    }
}

proof fn lemma_constant_mean(e: Edges, n: nat, v: int)
    requires
        n == 4 || n == 8 || n == 16,
        constant_edges(e, n as int, n as int, v),
        e.top_avail || e.left_avail,
    ensures
        edge_mean(e, n) == v,
{
    lemma_constant_sum(e.top, 0, n, v);
    lemma_constant_sum(e.left, 0, n, v);
}

/// A uniform neighbourhood is reproduced by every 4x4 mode, as far as DC has an
/// edge to average.
pub proof fn law_constant_field_4x4(mode: Intra4x4Mode, e: Edges, v: int, y: int, x: int)
    requires
        constant_edges(e, 8, 4, v),
        mode is Dc ==> e.top_avail || e.left_avail,
        0 <= y < 4,
        0 <= x < 4,
    ensures
        predicted(mode, e, 4, y, x) == v,
{
    if mode is Dc {
        lemma_constant_mean(e, 4, v);
    }
}

/// The low-pass filter leaves a uniform neighbourhood as it is.
pub proof fn law_filter_keeps_a_constant_field(e: Edges, corner_avail: bool, v: int)
    requires
        constant_edges(e, 16, 8, v),
        e.top.len() == 16,
        e.left.len() == 8,
    ensures
        smoothed(e, corner_avail) == e,
{
    let s = smoothed(e, corner_avail);
    assert forall|i: int| 0 <= i < 16 implies s.top[i] == e.top[i] by {
        if e.top_avail {
            assert(smooth_edge(e.top, e.corner, corner_avail, i) == v);
        }
    }
    assert forall|i: int| 0 <= i < 8 implies s.left[i] == e.left[i] by {
        if e.left_avail {
            assert(smooth_edge(e.left, e.corner, corner_avail, i) == v);
        }
    }
    assert(e.top[0] == v && e.left[0] == v);
    assert(smooth_corner(e) == v);
    assert(s.top =~= e.top);
    assert(s.left =~= e.left);
}

/// A uniform neighbourhood is reproduced by every 8x8 mode, as far as DC has an
/// edge to average.
pub proof fn law_constant_field_8x8(
    mode: Intra4x4Mode,
    e: Edges,
    corner_avail: bool,
    v: int,
    y: int,
    x: int,
)
    requires
        constant_edges(e, 16, 8, v),
        e.top.len() == 16,
        e.left.len() == 8,
        mode is Dc ==> e.top_avail || e.left_avail,
        0 <= y < 8,
        0 <= x < 8,
    ensures
        predicted(mode, smoothed(e, corner_avail), 8, y, x) == v,
{
    law_filter_keeps_a_constant_field(e, corner_avail, v);
    if mode is Dc {
        lemma_constant_mean(e, 8, v);
    }
}

/// A uniform neighbourhood of 8-bit samples is reproduced by every 16x16 and
/// chroma mode, as far as DC has an edge to average.
pub proof fn law_constant_field_plane(mode: PlaneMode, e: Edges, v: int, y: int, x: int)
    requires
        constant_edges(e, 16, 16, v),
        0 <= v <= 255,
        mode is Dc ==> e.top_avail || e.left_avail,
    ensures
        0 <= y < 16 && 0 <= x < 16 ==> predicted16(mode, e, y, x) == v,
        0 <= y < 8 && 0 <= x < 8 ==> predicted_chroma(mode, e, y, x) == v,
{
    lemma_constant_mean_if(e, v);
    if mode is Dc && 0 <= y < 8 && 0 <= x < 8 {
        lemma_constant_sum(e.top, 4 * (x / 4), 4, v);
        lemma_constant_sum(e.left, 4 * (y / 4), 4, v);
    }
    lemma_constant_slope(e.top, e.corner, 8, 8, v);
    lemma_constant_slope(e.left, e.corner, 8, 8, v);
    lemma_constant_slope(e.top, e.corner, 4, 4, v);
    lemma_constant_slope(e.left, e.corner, 4, 4, v);
    assert(e.left[15] == v && e.top[15] == v && e.left[7] == v && e.top[7] == v);
    assert(0 * (x - 7) == 0 && 0 * (y - 7) == 0 && 0 * (x - 3) == 0 && 0 * (y - 3) == 0);
}

proof fn lemma_constant_mean_if(e: Edges, v: int)
    requires
        constant_edges(e, 16, 16, v),
    ensures
        e.top_avail || e.left_avail ==> edge_mean(e, 16) == v,
{
    if e.top_avail || e.left_avail {
        lemma_constant_mean(e, 16, v);
    }
}

} // verus!

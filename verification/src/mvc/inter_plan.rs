//! The partitions of an inter macroblock and their motion (H.264 section
//! 8.4.1): the partition shapes of a type, reference indices, vectors from
//! neighbours and differences, and the motion of direct partitions.

use crate::mvc::arith::magnitude;
use crate::mvc::cabac::{CabacEngine, Engine};
use crate::mvc::mb_inter::{
    b_shape, b_sub_mb_type, bins, decode_b_sub_mb_type, decode_mvd_component, decode_ref_idx,
    decode_sub_mb_type, interpret_b_mb_type, mvd_component, mvd_ctx_inc, mvd_inc, ref_idx,
    sub_mb_type, InterBank, InterContexts,
};
use crate::mvc::mv::{
    predict_mv, predict_skip_mv, predicted_mv, skip_mv, Directional, Neighbour,
};
use crate::mvc::recon::{Band, Grid, MbPos};
use vstd::prelude::*;

verus! {

/// The motion of a 4x4 block in one list.
#[derive(Clone, Copy)]
pub struct Cell {
    pub mv: (i32, i32),
    /// The coded difference from the prediction.
    pub mvd: (i32, i32),
    /// The reference index, -1 where the list is not used.
    pub refi: i32,
    /// The motion is inferred.
    pub direct: bool,
}

/// The motion of a block that does not use a list.
pub open spec fn no_motion() -> Cell {
    Cell { mv: (0, 0), mvd: (0, 0), refi: -1i32, direct: false }
}

/// A band of `s.1` macroblock rows of `s.0` macroblocks from row `s.2` on has
/// coordinates that fit machine words.
pub open spec fn small(s: (int, int, int)) -> bool {
    &&& 1 <= s.0 <= 0x7ff_ffff
    &&& s.1 >= 0
    &&& s.2 >= 0
    &&& s.2 + s.1 <= 0xfff_ffff
}

/// The grid has a cell for each 4x4 block of the band.
pub open spec fn cells_ok<T>(g: Grid<T>, s: (int, int, int)) -> bool {
    g.ok() && g.shape() == (4 * s.0, 4 * s.1, 4 * s.2)
}

// ---- neighbours ----

/// The motion of the block in column `x` and row `y` as a neighbour: `None`
/// outside the slice.
pub open spec fn near(g: Grid<Cell>, x: int, y: int) -> Neighbour {
    if g.has(x, y) {
        Some((g.at(x, y).mv.0, g.at(x, y).mv.1, g.at(x, y).refi))
    } else {
        None
    }
}

fn neighbour(g: &Band<Cell>, x: i64, y: i64, Ghost(s): Ghost<(int, int, int)>) -> (n: Neighbour)
    requires
        small(s),
        cells_ok(g@, s),
    ensures
        n == near(g@, x as int, y as int),
{
    if x < 0 || y < 0 || x >= g.w as i64 || y < g.y0 as i64 || y >= (g.y0 + g.rows) as i64 {
        return None;
    }
    let c = g.at(x as usize, y as usize);
    Some((c.mv.0, c.mv.1, c.refi))
}

/// The first of two neighbours, or the second where it is unavailable.
pub open spec fn or_else(a: Neighbour, b: Neighbour) -> Neighbour {
    if a is Some {
        a
    } else {
        b
    }
}

/// The neighbour uses a reference other than the first, and not by inference.
pub open spec fn far_ref(g: Grid<Cell>, x: int, y: int) -> bool {
    g.has(x, y) && g.at(x, y).refi > 0 && !g.at(x, y).direct
}

fn is_far(g: &Band<Cell>, x: i64, y: i64, Ghost(s): Ghost<(int, int, int)>) -> (b: bool)
    requires
        small(s),
        cells_ok(g@, s),
    ensures
        b == far_ref(g@, x as int, y as int),
{
    if x < 0 || y < 0 || x >= g.w as i64 || y < g.y0 as i64 || y >= (g.y0 + g.rows) as i64 {
        return false;
    }
    let c = g.at(x as usize, y as usize);
    c.refi > 0 && !c.direct
}

/// The vector difference of a neighbour, zero where it does not use the list.
pub open spec fn near_mvd(g: Grid<Cell>, x: int, y: int) -> (i32, i32) {
    if g.has(x, y) && g.at(x, y).refi >= 0 {
        g.at(x, y).mvd
    } else {
        (0, 0)
    }
}

fn neighbour_mvd(g: &Band<Cell>, x: i64, y: i64, Ghost(s): Ghost<(int, int, int)>) -> (d: (i32, i32))
    requires
        small(s),
        cells_ok(g@, s),
    ensures
        d == near_mvd(g@, x as int, y as int),
{
    if x < 0 || y < 0 || x >= g.w as i64 || y < g.y0 as i64 || y >= (g.y0 + g.rows) as i64 {
        return (0, 0);
    }
    let c = g.at(x as usize, y as usize);
    if c.refi >= 0 {
        c.mvd
    } else {
        (0, 0)
    }
}

// ---- partitions ----

/// A partition of an inter macroblock: where it lies, in 4x4 blocks from the
/// macroblock's corner, and its motion.
#[derive(Clone, Copy)]
pub struct Part {
    pub x: usize,
    pub y: usize,
    pub w: usize,
    pub h: usize,
    /// The motion is inferred; otherwise it is coded.
    pub direct: bool,
    /// The lists of a coded partition: 0 = the first, 1 = the second, 2 = both.
    pub pdir: u8,
    /// The neighbour that predicts a 16x8 or 8x16 partition.
    pub dir: Option<Directional>,
    /// Coded partitions of one group share their reference indices. Of a direct
    /// partition, the quarter of the macroblock.
    pub group: usize,
    /// Reference indices, -1 where a list is not used.
    pub ref0: i32,
    pub ref1: i32,
    pub mv0: (i32, i32),
    pub mv1: (i32, i32),
}

impl Part {
    /// The partition lies inside the macroblock.
    pub open spec fn ok(self) -> bool {
        &&& 1 <= self.w
        &&& 1 <= self.h
        &&& self.x + self.w <= 4
        &&& self.y + self.h <= 4
        &&& self.group < 4
        &&& self.pdir <= 2
    }

    /// The partition covers the block in this column and row of the macroblock.
    pub open spec fn covers(self, dx: int, dy: int) -> bool {
        self.x <= dx < self.x + self.w && self.y <= dy < self.y + self.h
    }

    /// The partition has a coded reference and vector in list `l`.
    pub open spec fn codes(self, l: int) -> bool {
        !self.direct && (self.pdir == l || self.pdir == 2)
    }

    /// The partition with another reference in list `l`.
    pub open spec fn with_ref(self, l: int, r: i32) -> Part {
        if l == 0 {
            Part { ref0: r, ..self }
        } else {
            Part { ref1: r, ..self }
        }
    }

    /// The partition with another vector in list `l`.
    pub open spec fn with_mv(self, l: int, v: (i32, i32)) -> Part {
        if l == 0 {
            Part { mv0: v, ..self }
        } else {
            Part { mv1: v, ..self }
        }
    }

    /// The reference index in list `l`.
    pub open spec fn ref_in(self, l: int) -> i32 {
        if l == 0 {
            self.ref0
        } else {
            self.ref1
        }
    }

    fn coded_in(&self, l: usize) -> (b: bool)
        ensures
            b == self.codes(l as int),
    {
        !self.direct && (self.pdir as usize == l || self.pdir == 2)
    }
}

/// Every partition lies inside the macroblock.
pub open spec fn plan_ok(p: Seq<Part>) -> bool {
    &&& p.len() <= 16
    &&& forall|i: int| 0 <= i < p.len() ==> (#[trigger] p[i]).ok()
}

/// A coded partition before its motion is read.
pub open spec fn coded_part(
    x: int,
    y: int,
    w: int,
    h: int,
    pdir: u8,
    dir: Option<Directional>,
    group: int,
) -> Part {
    Part {
        x: x as usize,
        y: y as usize,
        w: w as usize,
        h: h as usize,
        direct: false,
        pdir,
        dir,
        group: group as usize,
        ref0: -1i32,
        ref1: -1i32,
        mv0: (0, 0),
        mv1: (0, 0),
    }
}

fn new_part(x: usize, y: usize, w: usize, h: usize, pdir: u8, dir: Option<Directional>, group: usize) -> (p: Part)
    ensures
        p == coded_part(x as int, y as int, w as int, h as int, pdir, dir, group as int),
{
    Part {
        x,
        y,
        w,
        h,
        direct: false,
        pdir,
        dir,
        group,
        ref0: -1,
        ref1: -1,
        mv0: (0, 0),
        mv1: (0, 0),
    }
}

/// A direct quarter of a macroblock.
pub open spec fn direct_part(b8: int) -> Part {
    Part {
        direct: true,
        ..coded_part(2 * (b8 % 2), 2 * (b8 / 2), 2, 2, 2, None, b8)
    }
}

fn new_direct(b8: usize) -> (p: Part)
    requires
        b8 < 4,
    ensures
        p == direct_part(b8 as int),
        p.ok(),
{
    let mut p = new_part(2 * (b8 % 2), 2 * (b8 / 2), 2, 2, 2, None, b8);
    p.direct = true;
    p
}

/// The partitions of a quarter of a macroblock: one of 8x8, two of 8x4, two of
/// 4x8 or four of 4x4.
#[verifier::opaque]
pub open spec fn quarter(b8: int, pdir: u8, shape: int) -> Seq<Part> {
    let (x, y) = (2 * (b8 % 2), 2 * (b8 / 2));
    if shape == 0 {
        seq![coded_part(x, y, 2, 2, pdir, None, b8)]
    } else if shape == 1 {
        seq![
            coded_part(x, y, 2, 1, pdir, None, b8),
            coded_part(x, y + 1, 2, 1, pdir, None, b8),
        ]
    } else if shape == 2 {
        seq![
            coded_part(x, y, 1, 2, pdir, None, b8),
            coded_part(x + 1, y, 1, 2, pdir, None, b8),
        ]
    } else {
        seq![
            coded_part(x, y, 1, 1, pdir, None, b8),
            coded_part(x + 1, y, 1, 1, pdir, None, b8),
            coded_part(x, y + 1, 1, 1, pdir, None, b8),
            coded_part(x + 1, y + 1, 1, 1, pdir, None, b8),
        ]
    }
}

fn push_quarter(plan: &mut Vec<Part>, b8: usize, pdir: u8, shape: i64)
    requires
        b8 < 4,
        pdir <= 2,
        old(plan)@.len() <= 4 * b8,
        plan_ok(old(plan)@),
    ensures
        final(plan)@ == old(plan)@ + quarter(b8 as int, pdir, shape as int),
        final(plan)@.len() <= 4 * b8 + 4,
        plan_ok(final(plan)@),
{
    proof {
        reveal(quarter);
    }
    let (x, y): (usize, usize) = (2 * (b8 % 2), 2 * (b8 / 2));
    let ghost was = plan@;
    if shape == 0 {
        plan.push(new_part(x, y, 2, 2, pdir, None, b8));
    } else if shape == 1 {
        plan.push(new_part(x, y, 2, 1, pdir, None, b8));
        plan.push(new_part(x, y + 1, 2, 1, pdir, None, b8));
    } else if shape == 2 {
        plan.push(new_part(x, y, 1, 2, pdir, None, b8));
        plan.push(new_part(x + 1, y, 1, 2, pdir, None, b8));
    } else {
        plan.push(new_part(x, y, 1, 1, pdir, None, b8));
        plan.push(new_part(x + 1, y, 1, 1, pdir, None, b8));
        plan.push(new_part(x, y + 1, 1, 1, pdir, None, b8));
        plan.push(new_part(x + 1, y + 1, 1, 1, pdir, None, b8));
    }
    assert(plan@ =~= was + quarter(b8 as int, pdir, shape as int));
}

/// The lists of a sub_mb_type of a B slice; 3 for a direct one.
pub open spec fn b_sub_dir(s: int) -> u8 {
    if s == 0 {
        3
    } else if s == 1 || s == 4 || s == 5 || s == 10 {
        0
    } else if s == 2 || s == 6 || s == 7 || s == 11 {
        1
    } else {
        2
    }
}

/// The partition shape of a sub_mb_type of a B slice, as in [`quarter`].
pub open spec fn b_sub_shape(s: int) -> int {
    if s <= 3 {
        0
    } else if s == 4 || s == 6 || s == 8 {
        1
    } else if s == 5 || s == 7 || s == 9 {
        2
    } else {
        3
    }
}

fn b_sub_geom(s: i64) -> (r: (u8, i64))
    ensures
        r.0 == b_sub_dir(s as int),
        r.1 == b_sub_shape(s as int),
{
    let pdir: u8 = if s == 0 {
        3
    } else if s == 1 || s == 4 || s == 5 || s == 10 {
        0
    } else if s == 2 || s == 6 || s == 7 || s == 11 {
        1
    } else {
        2
    };
    let shape: i64 = if s <= 3 {
        0
    } else if s == 4 || s == 6 || s == 8 {
        1
    } else if s == 5 || s == 7 || s == 9 {
        2
    } else {
        3
    };
    (pdir, shape)
}

/// The quarters of a P_8x8 macroblock from `b8` on: all sub_mb_types come first.
pub open spec fn p_subs(e: Engine, c: InterBank, b8: int, plan: Seq<Part>) -> (
    Engine,
    InterBank,
    Seq<Part>,
)
    decreases 4 - b8,
{
    if b8 >= 4 {
        (e, c, plan)
    } else {
        let (d, s) = sub_mb_type(bins(e, c.b8_type));
        p_subs(
            d.e,
            InterBank { b8_type: d.c, ..c },
            b8 + 1,
            plan + quarter(b8, 0, s as int),
        )
    }
}

/// The quarters of a B_8x8 macroblock from `b8` on.
pub open spec fn b_subs(e: Engine, c: InterBank, b8: int, plan: Seq<Part>) -> (
    Engine,
    InterBank,
    Seq<Part>,
)
    decreases 4 - b8,
{
    if b8 >= 4 {
        (e, c, plan)
    } else {
        let (d, s) = b_sub_mb_type(bins(e, c.b8_type_b));
        let q = if s == 0 {
            seq![direct_part(b8)]
        } else {
            quarter(b8, b_sub_dir(s as int), b_sub_shape(s as int))
        };
        b_subs(d.e, InterBank { b8_type_b: d.c, ..c }, b8 + 1, plan + q)
    }
}

/// The partitions of a 16x16, 16x8 or 8x16 macroblock with these lists.
pub open spec fn halves(w: int, h: int, d0: u8, d1: u8) -> Seq<Part> {
    if w == 4 && h == 2 {
        seq![
            coded_part(0, 0, 4, 2, d0, Some(Directional::Above), 0),
            coded_part(0, 2, 4, 2, d1, Some(Directional::Left), 1),
        ]
    } else if w == 2 && h == 4 {
        seq![
            coded_part(0, 0, 2, 4, d0, Some(Directional::Left), 0),
            coded_part(2, 0, 2, 4, d1, Some(Directional::AboveRight), 1),
        ]
    } else {
        seq![coded_part(0, 0, 4, 4, d0, None, 0)]
    }
}

/// The four direct quarters of a macroblock.
pub open spec fn direct_plan() -> Seq<Part> {
    seq![direct_part(0), direct_part(1), direct_part(2), direct_part(3)]
}

/// The partitions of an inter macroblock of this type, read as far as they are
/// coded: of a P slice 1 to 4, of a B slice (`two`) 0 to 22.
#[verifier::opaque]
pub open spec fn read_plan(e: Engine, c: InterBank, two: bool, t: int) -> (
    Engine,
    InterBank,
    Seq<Part>,
) {
    if !two {
        if t == 4 {
            p_subs(e, c, 0, Seq::empty())
        } else if t == 2 {
            (e, c, halves(4, 2, 0, 0))
        } else if t == 3 {
            (e, c, halves(2, 4, 0, 0))
        } else {
            (e, c, halves(4, 4, 0, 0))
        }
    } else if t == 0 {
        (e, c, direct_plan())
    } else if t == 22 {
        b_subs(e, c, 0, Seq::empty())
    } else {
        let (n, w, h, d) = b_shape(t);
        (e, c, halves(w, h, d[0], d[1]))
    }
}

fn halves_of(w: usize, h: usize, d0: u8, d1: u8) -> (plan: Vec<Part>)
    requires
        d0 <= 2,
        d1 <= 2,
    ensures
        plan@ == halves(w as int, h as int, d0, d1),
        plan_ok(plan@),
{
    let mut plan: Vec<Part> = Vec::new();
    if w == 4 && h == 2 {
        plan.push(new_part(0, 0, 4, 2, d0, Some(Directional::Above), 0));
        plan.push(new_part(0, 2, 4, 2, d1, Some(Directional::Left), 1));
    } else if w == 2 && h == 4 {
        plan.push(new_part(0, 0, 2, 4, d0, Some(Directional::Left), 0));
        plan.push(new_part(2, 0, 2, 4, d1, Some(Directional::AboveRight), 1));
    } else {
        plan.push(new_part(0, 0, 4, 4, d0, None, 0));
    }
    assert(plan@ =~= halves(w as int, h as int, d0, d1));
    plan
}

/// The four direct quarters of a macroblock.
pub fn all_direct() -> (plan: Vec<Part>)
    ensures
        plan@ == direct_plan(),
        plan_ok(plan@),
{
    let mut plan: Vec<Part> = Vec::new();
    plan.push(new_direct(0));
    plan.push(new_direct(1));
    plan.push(new_direct(2));
    plan.push(new_direct(3));
    assert(plan@ =~= direct_plan());
    plan
}

fn read_p_subs(e: &mut CabacEngine, ctx: &mut InterContexts) -> (plan: Vec<Part>)
    requires
        old(e)@.live(),
        old(ctx)@.ok(),
    ensures
        (final(e)@, final(ctx)@, plan@) == p_subs(old(e)@, old(ctx)@, 0, Seq::empty()),
        plan_ok(plan@),
        final(e)@.live(),
        final(ctx)@.ok(),
{
    let mut plan: Vec<Part> = Vec::new();
    let ghost whole = p_subs(e@, ctx@, 0, Seq::empty());
    assert(plan@ =~= Seq::empty());
    for b8 in 0..4usize
        invariant
            whole == p_subs(old(e)@, old(ctx)@, 0, Seq::empty()),
            whole == p_subs(e@, ctx@, b8 as int, plan@),
            plan@.len() <= 4 * b8,
            plan_ok(plan@),
            e@.live(),
            ctx@.ok(),
    {
        let s: i64 = decode_sub_mb_type(e, ctx);
        push_quarter(&mut plan, b8, 0, s);
    }
    plan
}

fn read_b_subs(e: &mut CabacEngine, ctx: &mut InterContexts) -> (plan: Vec<Part>)
    requires
        old(e)@.live(),
        old(ctx)@.ok(),
    ensures
        (final(e)@, final(ctx)@, plan@) == b_subs(old(e)@, old(ctx)@, 0, Seq::empty()),
        plan_ok(plan@),
        final(e)@.live(),
        final(ctx)@.ok(),
{
    let mut plan: Vec<Part> = Vec::new();
    let ghost whole = b_subs(e@, ctx@, 0, Seq::empty());
    assert(plan@ =~= Seq::empty());
    for b8 in 0..4usize
        invariant
            whole == b_subs(old(e)@, old(ctx)@, 0, Seq::empty()),
            whole == b_subs(e@, ctx@, b8 as int, plan@),
            plan@.len() <= 4 * b8,
            plan_ok(plan@),
            e@.live(),
            ctx@.ok(),
    {
        let s: i64 = decode_b_sub_mb_type(e, ctx);
        let (pdir, shape) = b_sub_geom(s);
        if s == 0 {
            let ghost was = plan@;
            plan.push(new_direct(b8));
            assert(plan@ =~= was + seq![direct_part(b8 as int)]);
        } else {
            push_quarter(&mut plan, b8, pdir, shape);
        }
    }
    plan
}

/// Read the partitions of an inter macroblock.
pub fn plan_of(e: &mut CabacEngine, ctx: &mut InterContexts, two: bool, t: i64) -> (plan: Vec<Part>)
    requires
        old(e)@.live(),
        old(ctx)@.ok(),
        0 <= t <= 22,
    ensures
        (final(e)@, final(ctx)@, plan@) == read_plan(old(e)@, old(ctx)@, two, t as int),
        plan_ok(plan@),
        final(e)@.live(),
        final(ctx)@.ok(),
{
    proof {
        reveal(read_plan);
    }
    if !two {
        if t == 4 {
            read_p_subs(e, ctx)
        } else if t == 2 {
            halves_of(4, 2, 0, 0)
        } else if t == 3 {
            halves_of(2, 4, 0, 0)
        } else {
            halves_of(4, 4, 0, 0)
        }
    } else if t == 0 {
        all_direct()
    } else if t == 22 {
        read_b_subs(e, ctx)
    } else {
        let (_n, w, h, d) = interpret_b_mb_type(t);
        halves_of(w, h, d[0], d[1])
    }
}

// ---- reference indices ----

/// The partition codes its reference in list `l` with group `grp`.
pub open spec fn in_group(p: Part, l: int, grp: int) -> bool {
    p.codes(l) && p.group == grp
}

/// The first partition from `i` on that codes list `l` with group `grp`, or
/// the number of partitions.
pub open spec fn first_in_group(plan: Seq<Part>, l: int, grp: int, i: int) -> int
    decreases plan.len() - i,
{
    if i >= plan.len() {
        plan.len() as int
    } else if in_group(plan[i], l, grp) {
        i
    } else {
        first_in_group(plan, l, grp, i + 1)
    }
}

/// The motion of a block whose reference is known, but not its vector.
pub open spec fn ref_cell(r: i32) -> Cell {
    Cell { mv: (0, 0), mvd: (0, 0), refi: r, direct: false }
}

/// The grid with a value in every block of a partition.
pub open spec fn paint(g: Grid<Cell>, p: Part, pos: MbPos, v: Cell) -> Grid<Cell> {
    g.fill(4 * pos.x + p.x, 4 * pos.y + p.y, p.w as int, p.h as int, v)
}

/// The partitions and blocks of a group with their reference, from partition
/// `i` on.
pub open spec fn set_refs(g: Grid<Cell>, plan: Seq<Part>, l: int, grp: int, r: i32, pos: MbPos, i: int) -> (
    Grid<Cell>,
    Seq<Part>,
)
    decreases plan.len() - i,
{
    if i < 0 || i >= plan.len() {
        (g, plan)
    } else if in_group(plan[i], l, grp) {
        set_refs(
            paint(g, plan[i], pos, ref_cell(r)),
            plan.update(i, plan[i].with_ref(l, r)),
            l,
            grp,
            r,
            pos,
            i + 1,
        )
    } else {
        set_refs(g, plan, l, grp, r, pos, i + 1)
    }
}

/// What reading a macroblock's motion in one list carries along.
pub struct ListState {
    pub e: Engine,
    pub c: InterBank,
    pub g: Grid<Cell>,
    pub plan: Seq<Part>,
}

/// The reference index of group `grp` in list `l` of `num` references, where a
/// partition codes one. It is read only where there is a choice.
#[verifier::opaque]
pub open spec fn group_ref(s: ListState, l: int, num: int, grp: int, pos: MbPos) -> ListState {
    let k = first_in_group(s.plan, l, grp, 0);
    if k >= s.plan.len() {
        s
    } else {
        let (gx, gy) = (4 * pos.x + s.plan[k].x, 4 * pos.y + s.plan[k].y);
        let inc = (if far_ref(s.g, gx - 1, gy) {
            1int
        } else {
            0
        }) + (if far_ref(s.g, gx, gy - 1) {
            2int
        } else {
            0
        });
        let (d, v) = ref_idx(bins(s.e, s.c.ref_no), inc);
        if num > 1 {
            let (g, plan) = set_refs(s.g, s.plan, l, grp, v as i32, pos, 0);
            ListState { e: d.e, c: InterBank { ref_no: d.c, ..s.c }, g, plan }
        } else {
            let (g, plan) = set_refs(s.g, s.plan, l, grp, 0i32, pos, 0);
            ListState { g, plan, ..s }
        }
    }
}

/// The reference indices of list `l`, group by group.
pub open spec fn list_refs(s: ListState, l: int, num: int, pos: MbPos) -> ListState {
    let s1 = group_ref(s, l, num, 0, pos);
    let s2 = group_ref(s1, l, num, 1, pos);
    let s3 = group_ref(s2, l, num, 2, pos);
    group_ref(s3, l, num, 3, pos)
}

fn find_group(plan: &Vec<Part>, l: usize, grp: usize) -> (k: usize)
    ensures
        k == first_in_group(plan@, l as int, grp as int, 0),
        k <= plan@.len(),
        k < plan@.len() ==> in_group(plan@[k as int], l as int, grp as int),
{
    let n: usize = plan.len();
    let mut i: usize = 0;
    while i < n
        invariant
            i <= n,
            n == plan@.len(),
            first_in_group(plan@, l as int, grp as int, 0) == first_in_group(
                plan@,
                l as int,
                grp as int,
                i as int,
            ),
        decreases n - i,
    {
        if plan[i].coded_in(l) && plan[i].group == grp {
            return i;
        }
        i = i + 1;
    }
    n
}

fn paint_part(g: &mut Band<Cell>, p: &Part, pos: MbPos, v: Cell, Ghost(s): Ghost<(int, int, int)>)
    requires
        small(s),
        cells_ok(old(g)@, s),
        p.ok(),
        pos.inside(s.0, s.1, s.2),
    ensures
        final(g)@ == paint(old(g)@, *p, pos, v),
        cells_ok(final(g)@, s),
{
    g.fill(4 * pos.x + p.x, 4 * pos.y + p.y, p.w, p.h, v);
}

fn apply_refs(g: &mut Band<Cell>, plan: &mut Vec<Part>, l: usize, grp: usize, r: i32, pos: MbPos, Ghost(s): Ghost<(int, int, int)>)
    requires
        small(s),
        cells_ok(old(g)@, s),
        plan_ok(old(plan)@),
        pos.inside(s.0, s.1, s.2),
    ensures
        (final(g)@, final(plan)@) == set_refs(
            old(g)@,
            old(plan)@,
            l as int,
            grp as int,
            r,
            pos,
            0,
        ),
        cells_ok(final(g)@, s),
        plan_ok(final(plan)@),
        final(plan)@.len() == old(plan)@.len(),
{
    let n: usize = plan.len();
    let v = Cell { mv: (0, 0), mvd: (0, 0), refi: r, direct: false };
    let mut i: usize = 0;
    while i < n
        invariant
            i <= n,
            n == plan@.len(),
            n == old(plan)@.len(),
            small(s),
            cells_ok(g@, s),
            plan_ok(plan@),
            pos.inside(s.0, s.1, s.2),
            v == ref_cell(r),
            set_refs(g@, plan@, l as int, grp as int, r, pos, i as int) == set_refs(
                old(g)@,
                old(plan)@,
                l as int,
                grp as int,
                r,
                pos,
                0,
            ),
        decreases n - i,
    {
        let mut p = plan[i];
        assert(plan@[i as int].ok());
        if p.coded_in(l) && p.group == grp {
            paint_part(g, &p, pos, v, Ghost(s));
            if l == 0 {
                p.ref0 = r;
            } else {
                p.ref1 = r;
            }
            plan.set(i, p);
        }
        i = i + 1;
    }
}

fn read_group_ref(
    e: &mut CabacEngine,
    ctx: &mut InterContexts,
    g: &mut Band<Cell>,
    plan: &mut Vec<Part>,
    l: usize,
    num: u64,
    grp: usize,
    pos: MbPos,
    Ghost(s): Ghost<(int, int, int)>,
)
    requires
        old(e)@.live(),
        old(ctx)@.ok(),
        small(s),
        cells_ok(old(g)@, s),
        plan_ok(old(plan)@),
        pos.inside(s.0, s.1, s.2),
        l < 2,
    ensures
        (ListState { e: final(e)@, c: final(ctx)@, g: final(g)@, plan: final(plan)@ }) == group_ref(
            ListState { e: old(e)@, c: old(ctx)@, g: old(g)@, plan: old(plan)@ },
            l as int,
            num as int,
            grp as int,
            pos,
        ),
        final(e)@.live(),
        final(ctx)@.ok(),
        cells_ok(final(g)@, s),
        plan_ok(final(plan)@),
{
    proof {
        reveal(group_ref);
    }
    let k: usize = find_group(plan, l, grp);
    if k >= plan.len() {
        return;
    }
    let r: i32 = if num > 1 {
        let (gx, gy): (i64, i64) = (
            (4 * pos.x + plan[k].x) as i64,
            (4 * pos.y + plan[k].y) as i64,
        );
        let a: u32 = if is_far(g, gx - 1, gy, Ghost(s)) {
            1
        } else {
            0
        };
        let b: u32 = if is_far(g, gx, gy - 1, Ghost(s)) {
            2
        } else {
            0
        };
        decode_ref_idx(e, ctx, a, b) as i32
    } else {
        0
    };
    apply_refs(g, plan, l, grp, r, pos, Ghost(s));
}

/// Read the reference indices of list `l`.
pub fn read_list_refs(
    e: &mut CabacEngine,
    ctx: &mut InterContexts,
    g: &mut Band<Cell>,
    plan: &mut Vec<Part>,
    l: usize,
    num: u64,
    pos: MbPos,
    Ghost(s): Ghost<(int, int, int)>,
)
    requires
        old(e)@.live(),
        old(ctx)@.ok(),
        small(s),
        cells_ok(old(g)@, s),
        plan_ok(old(plan)@),
        pos.inside(s.0, s.1, s.2),
        l < 2,
    ensures
        (ListState { e: final(e)@, c: final(ctx)@, g: final(g)@, plan: final(plan)@ }) == list_refs(
            ListState { e: old(e)@, c: old(ctx)@, g: old(g)@, plan: old(plan)@ },
            l as int,
            num as int,
            pos,
        ),
        final(e)@.live(),
        final(ctx)@.ok(),
        cells_ok(final(g)@, s),
        plan_ok(final(plan)@),
{
    read_group_ref(e, ctx, g, plan, l, num, 0, pos, Ghost(s));
    read_group_ref(e, ctx, g, plan, l, num, 1, pos, Ghost(s));
    read_group_ref(e, ctx, g, plan, l, num, 2, pos, Ghost(s));
    read_group_ref(e, ctx, g, plan, l, num, 3, pos, Ghost(s));
}

// ---- vectors ----

/// One of the first `n` partitions covers this block of the macroblock.
pub open spec fn covered(plan: Seq<Part>, n: int, dx: int, dy: int) -> bool {
    exists|j: int| 0 <= j < n && (#[trigger] plan[j]).covers(dx, dy)
}

/// Neighbour C of partition `i`: above right, where that is decoded already,
/// and otherwise above left. Inside the macroblock only earlier partitions are
/// decoded, and nothing right of it in its own row is.
pub open spec fn near_c(g: Grid<Cell>, plan: Seq<Part>, i: int, pos: MbPos) -> Neighbour {
    let p = plan[i];
    let (dx, dy) = (p.x + p.w, p.y - 1);
    let (gx, gy) = (4 * pos.x + p.x, 4 * pos.y + p.y);
    let known = dy < 0 || (dx < 4 && covered(plan, i, dx, dy));
    or_else(
        if known {
            near(g, gx + p.w, gy - 1)
        } else {
            None
        },
        near(g, gx - 1, gy - 1),
    )
}

fn is_covered(plan: &Vec<Part>, n: usize, dx: usize, dy: usize) -> (b: bool)
    requires
        n <= plan@.len(),
        plan_ok(plan@),
    ensures
        b == covered(plan@, n as int, dx as int, dy as int),
{
    for j in 0..n
        invariant
            n <= plan@.len(),
            plan_ok(plan@),
            !covered(plan@, j as int, dx as int, dy as int),
    {
        let p = plan[j];
        assert(plan@[j as int].ok());
        if p.x <= dx && dx < p.x + p.w && p.y <= dy && dy < p.y + p.h {
            assert(plan@[j as int].covers(dx as int, dy as int));
            return true;
        }
    }
    false
}

fn neighbour_c(g: &Band<Cell>, plan: &Vec<Part>, i: usize, pos: MbPos, Ghost(s): Ghost<(int, int, int)>) -> (n: Neighbour)
    requires
        small(s),
        cells_ok(g@, s),
        plan_ok(plan@),
        i < plan@.len(),
        pos.inside(s.0, s.1, s.2),
    ensures
        n == near_c(g@, plan@, i as int, pos),
{
    let p = plan[i];
    assert(plan@[i as int].ok());
    let (gx, gy): (i64, i64) = ((4 * pos.x + p.x) as i64, (4 * pos.y + p.y) as i64);
    let dx: usize = p.x + p.w;
    let known: bool = p.y == 0 || (dx < 4 && is_covered(plan, i, dx, p.y - 1));
    if known {
        let c = neighbour(g, gx + p.w as i64, gy - 1, Ghost(s));
        if c.is_some() {
            return c;
        }
    }
    neighbour(g, gx - 1, gy - 1, Ghost(s))
}

/// A vector from its prediction and a difference, modulo 2^32.
pub open spec fn moved(p: (int, int), d: (i32, i32)) -> (i32, i32) {
    ((p.0 as i32).wrapping_add(d.0), (p.1 as i32).wrapping_add(d.1))
}

/// The context increment of a difference from those of its neighbours.
pub open spec fn mvd_increment(a: i32, b: i32) -> int {
    mvd_inc(magnitude(a as int) + magnitude(b as int))
}

fn increment(a: i32, b: i32) -> (r: usize)
    ensures
        r == mvd_increment(a, b),
        r <= 3,
{
    let x: i64 = if a < 0 {
        -(a as i64)
    } else {
        a as i64
    };
    let y: i64 = if b < 0 {
        -(b as i64)
    } else {
        b as i64
    };
    let t: i64 = x + y;
    mvd_ctx_inc(
        if t > 33 {
            33
        } else {
            t as i32
        },
    )
}

/// The vector of partition `i` in list `l`, where it is coded.
#[verifier::opaque]
pub open spec fn part_mv(s: ListState, l: int, i: int, pos: MbPos) -> ListState {
    let p = s.plan[i];
    if !p.codes(l) {
        s
    } else {
        let (gx, gy) = (4 * pos.x + p.x, 4 * pos.y + p.y);
        let (a, b) = (near_mvd(s.g, gx - 1, gy), near_mvd(s.g, gx, gy - 1));
        let (e1, c1, vx) = mvd_component(s.e, s.c, 0, mvd_increment(a.0, b.0));
        let (e2, c2, vy) = mvd_component(e1, c1, 1, mvd_increment(a.1, b.1));
        let mvd = (vx as i32, vy as i32);
        let r = p.ref_in(l);
        let mv = moved(
            predicted_mv(
                near(s.g, gx - 1, gy),
                near(s.g, gx, gy - 1),
                near_c(s.g, s.plan, i, pos),
                if r < 0 {
                    0
                } else {
                    r as int
                },
                p.dir,
            ),
            mvd,
        );
        ListState {
            e: e2,
            c: c2,
            g: paint(s.g, p, pos, Cell { mv, mvd, refi: r, direct: false }),
            plan: s.plan.update(i, p.with_mv(l, mv)),
        }
    }
}

/// The vectors of list `l` from partition `i` on.
pub open spec fn list_mvs(s: ListState, l: int, i: int, pos: MbPos) -> ListState
    decreases s.plan.len() - i,
    via list_mvs_ends
{
    if i < 0 || i >= s.plan.len() {
        s
    } else {
        list_mvs(part_mv(s, l, i, pos), l, i + 1, pos)
    }
}

#[via_fn]
proof fn list_mvs_ends(s: ListState, l: int, i: int, pos: MbPos) {
    reveal(part_mv);
}

fn read_part_mv(
    e: &mut CabacEngine,
    ctx: &mut InterContexts,
    g: &mut Band<Cell>,
    plan: &mut Vec<Part>,
    l: usize,
    i: usize,
    pos: MbPos,
    Ghost(s): Ghost<(int, int, int)>,
)
    requires
        old(e)@.live(),
        old(ctx)@.ok(),
        small(s),
        cells_ok(old(g)@, s),
        plan_ok(old(plan)@),
        i < old(plan)@.len(),
        pos.inside(s.0, s.1, s.2),
        l < 2,
    ensures
        (ListState { e: final(e)@, c: final(ctx)@, g: final(g)@, plan: final(plan)@ }) == part_mv(
            ListState { e: old(e)@, c: old(ctx)@, g: old(g)@, plan: old(plan)@ },
            l as int,
            i as int,
            pos,
        ),
        final(e)@.live(),
        final(ctx)@.ok(),
        cells_ok(final(g)@, s),
        plan_ok(final(plan)@),
        final(plan)@.len() == old(plan)@.len(),
{
    proof {
        reveal(part_mv);
    }
    let mut p = plan[i];
    assert(plan@[i as int].ok());
    if !p.coded_in(l) {
        return;
    }
    let (gx, gy): (i64, i64) = ((4 * pos.x + p.x) as i64, (4 * pos.y + p.y) as i64);
    let a = neighbour_mvd(g, gx - 1, gy, Ghost(s));
    let b = neighbour_mvd(g, gx, gy - 1, Ghost(s));
    let vx: i64 = decode_mvd_component(e, ctx, 0, increment(a.0, b.0));
    let vy: i64 = decode_mvd_component(e, ctx, 1, increment(a.1, b.1));
    let mvd: (i32, i32) = (vx as i32, vy as i32);
    let r: i32 = if l == 0 {
        p.ref0
    } else {
        p.ref1
    };
    let na = neighbour(g, gx - 1, gy, Ghost(s));
    let nb = neighbour(g, gx, gy - 1, Ghost(s));
    let nc = neighbour_c(g, plan, i, pos, Ghost(s));
    let at: i32 = if r < 0 {
        0
    } else {
        r
    };
    let mvp = predict_mv(na, nb, nc, at, p.dir);
    let mv: (i32, i32) = (mvp.0.wrapping_add(mvd.0), mvp.1.wrapping_add(mvd.1));
    paint_part(g, &p, pos, Cell { mv, mvd, refi: r, direct: false }, Ghost(s));
    if l == 0 {
        p.mv0 = mv;
    } else {
        p.mv1 = mv;
    }
    plan.set(i, p);
}

/// Read the vectors of list `l`.
pub fn read_list_mvs(
    e: &mut CabacEngine,
    ctx: &mut InterContexts,
    g: &mut Band<Cell>,
    plan: &mut Vec<Part>,
    l: usize,
    pos: MbPos,
    Ghost(s): Ghost<(int, int, int)>,
)
    requires
        old(e)@.live(),
        old(ctx)@.ok(),
        small(s),
        cells_ok(old(g)@, s),
        plan_ok(old(plan)@),
        pos.inside(s.0, s.1, s.2),
        l < 2,
    ensures
        (ListState { e: final(e)@, c: final(ctx)@, g: final(g)@, plan: final(plan)@ }) == list_mvs(
            ListState { e: old(e)@, c: old(ctx)@, g: old(g)@, plan: old(plan)@ },
            l as int,
            0,
            pos,
        ),
        final(e)@.live(),
        final(ctx)@.ok(),
        cells_ok(final(g)@, s),
        plan_ok(final(plan)@),
{
    let n: usize = plan.len();
    let ghost whole = list_mvs(
        ListState { e: e@, c: ctx@, g: g@, plan: plan@ },
        l as int,
        0,
        pos,
    );
    for i in 0..n
        invariant
            n == plan@.len(),
            whole == list_mvs(
                ListState { e: e@, c: ctx@, g: g@, plan: plan@ },
                l as int,
                i as int,
                pos,
            ),
            e@.live(),
            ctx@.ok(),
            small(s),
            cells_ok(g@, s),
            plan_ok(plan@),
            pos.inside(s.0, s.1, s.2),
            l < 2,
    {
        read_part_mv(e, ctx, g, plan, l, i, pos, Ghost(s));
    }
}

// ---- a skipped P macroblock ----

/// The neighbours A, B and C of a whole macroblock.
pub open spec fn mb_neighbours(g: Grid<Cell>, pos: MbPos) -> (Neighbour, Neighbour, Neighbour) {
    let (x, y) = (4 * pos.x, 4 * pos.y);
    (
        near(g, x - 1, y as int),
        near(g, x as int, y - 1),
        or_else(near(g, x + 4, y - 1), near(g, x - 1, y - 1)),
    )
}

fn neighbours_of(g: &Band<Cell>, pos: MbPos, Ghost(s): Ghost<(int, int, int)>) -> (n: (
    Neighbour,
    Neighbour,
    Neighbour,
))
    requires
        small(s),
        cells_ok(g@, s),
        pos.inside(s.0, s.1, s.2),
    ensures
        n == mb_neighbours(g@, pos),
{
    let (x, y): (i64, i64) = ((4 * pos.x) as i64, (4 * pos.y) as i64);
    let a = neighbour(g, x - 1, y, Ghost(s));
    let b = neighbour(g, x, y - 1, Ghost(s));
    let mut c = neighbour(g, x + 4, y - 1, Ghost(s));
    if c.is_none() {
        c = neighbour(g, x - 1, y - 1, Ghost(s));
    }
    (a, b, c)
}

/// The partition of a skipped P macroblock, with its inferred vector.
pub open spec fn skip_part(g: Grid<Cell>, pos: MbPos) -> Part {
    let (a, b, c) = mb_neighbours(g, pos);
    let v = skip_mv(a, b, c);
    Part {
        ref0: 0,
        mv0: (v.0 as i32, v.1 as i32),
        ..coded_part(0, 0, 4, 4, 0, None, 0)
    }
}

/// Infer the motion of a skipped P macroblock.
pub fn skip_motion(g: &mut Band<Cell>, pos: MbPos, Ghost(s): Ghost<(int, int, int)>) -> (p: Part)
    requires
        small(s),
        cells_ok(old(g)@, s),
        pos.inside(s.0, s.1, s.2),
    ensures
        p == skip_part(old(g)@, pos),
        final(g)@ == paint(
            old(g)@,
            p,
            pos,
            Cell { mv: p.mv0, mvd: (0, 0), refi: 0, direct: false },
        ),
        cells_ok(final(g)@, s),
        p.ok(),
{
    let (a, b, c) = neighbours_of(g, pos, Ghost(s));
    let mv = predict_skip_mv(a, b, c);
    let mut p = new_part(0, 0, 4, 4, 0, None, 0);
    p.ref0 = 0;
    p.mv0 = mv;
    paint_part(g, &p, pos, Cell { mv, mvd: (0, 0), refi: 0, direct: false }, Ghost(s));
    p
}

// ---- direct motion ----

/// The smaller of two references, or the one that there is.
pub open spec fn min_positive(a: int, b: int) -> int {
    if a >= 0 && b >= 0 {
        if a < b {
            a
        } else {
            b
        }
    } else if a > b {
        a
    } else {
        b
    }
}

fn smaller_ref(a: i32, b: i32) -> (r: i32)
    ensures
        r == min_positive(a as int, b as int),
{
    if a >= 0 && b >= 0 {
        if a < b {
            a
        } else {
            b
        }
    } else if a > b {
        a
    } else {
        b
    }
}

/// Spatial direct prediction of a macroblock: reference and vector per list.
#[derive(Clone, Copy)]
pub struct Spatial {
    pub ref0: i32,
    pub ref1: i32,
    pub mvp0: (i32, i32),
    pub mvp1: (i32, i32),
    /// Neither list has a reference among the neighbours: both take the first,
    /// at rest.
    pub zero: bool,
}

/// The reference and predicted vector of one list from the neighbours.
pub open spec fn spatial_list(g: Grid<Cell>, pos: MbPos) -> (i32, (i32, i32)) {
    let (a, b, c) = mb_neighbours(g, pos);
    let r = |n: Neighbour|
        if n is Some {
            (n->0).2 as int
        } else {
            -1
        };
    let refi = min_positive(min_positive(r(a), r(b)), r(c));
    let v = predicted_mv(
        a,
        b,
        c,
        if refi < 0 {
            0
        } else {
            refi
        },
        None,
    );
    (refi as i32, (v.0 as i32, v.1 as i32))
}

/// Spatial direct prediction of a macroblock.
pub open spec fn spatial_direct(g0: Grid<Cell>, g1: Grid<Cell>, pos: MbPos) -> Spatial {
    let (r0, v0) = spatial_list(g0, pos);
    let (r1, v1) = spatial_list(g1, pos);
    if r0 < 0 && r1 < 0 {
        Spatial { ref0: 0, ref1: 0, mvp0: v0, mvp1: v1, zero: true }
    } else {
        Spatial { ref0: r0, ref1: r1, mvp0: v0, mvp1: v1, zero: false }
    }
}

fn ref_of(n: Neighbour) -> (r: i32)
    ensures
        r == (if n is Some {
            (n->0).2
        } else {
            -1i32
        }),
{
    match n {
        Some(v) => v.2,
        None => -1,
    }
}

fn spatial_of(g: &Band<Cell>, pos: MbPos, Ghost(s): Ghost<(int, int, int)>) -> (r: (i32, (i32, i32)))
    requires
        small(s),
        cells_ok(g@, s),
        pos.inside(s.0, s.1, s.2),
    ensures
        r == spatial_list(g@, pos),
{
    let (a, b, c) = neighbours_of(g, pos, Ghost(s));
    let refi: i32 = smaller_ref(smaller_ref(ref_of(a), ref_of(b)), ref_of(c));
    let at: i32 = if refi < 0 {
        0
    } else {
        refi
    };
    (refi, predict_mv(a, b, c, at, None))
}

/// Derive the spatial direct prediction of a macroblock.
pub fn derive_spatial(g0: &Band<Cell>, g1: &Band<Cell>, pos: MbPos, Ghost(s): Ghost<(int, int, int)>) -> (r: Spatial)
    requires
        small(s),
        cells_ok(g0@, s),
        cells_ok(g1@, s),
        pos.inside(s.0, s.1, s.2),
    ensures
        r == spatial_direct(g0@, g1@, pos),
{
    let (r0, v0) = spatial_of(g0, pos, Ghost(s));
    let (r1, v1) = spatial_of(g1, pos, Ghost(s));
    if r0 < 0 && r1 < 0 {
        Spatial { ref0: 0, ref1: 0, mvp0: v0, mvp1: v1, zero: true }
    } else {
        Spatial { ref0: r0, ref1: r1, mvp0: v0, mvp1: v1, zero: false }
    }
}

/// The motion of a direct quarter: vectors and references of both lists, a
/// reference of -1 where the list is not used.
pub struct DirectMotion {
    pub mv0: (i32, i32),
    pub mv1: (i32, i32),
    pub ref0: i32,
    pub ref1: i32,
}

impl Spatial {
    /// The vector in one list: zero where the list has no reference, and on the
    /// first reference where the co-located block is at rest.
    pub open spec fn vector(self, r: i32, v: (i32, i32), col_zero: bool) -> (i32, i32) {
        if self.zero || r < 0 || (col_zero && r == 0) {
            (0, 0)
        } else {
            v
        }
    }

    /// The motion of a quarter.
    pub open spec fn motion(self, col_zero: bool) -> DirectMotion {
        DirectMotion {
            mv0: self.vector(self.ref0, self.mvp0, col_zero),
            mv1: self.vector(self.ref1, self.mvp1, col_zero),
            ref0: if self.ref0 >= 0 {
                self.ref0
            } else {
                -1i32
            },
            ref1: if self.ref1 >= 0 {
                self.ref1
            } else {
                -1i32
            },
        }
    }

    /// The motion of a quarter.
    pub fn resolve(&self, col_zero: bool) -> (m: DirectMotion)
        ensures
            m == self.motion(col_zero),
    {
        let mv0: (i32, i32) = if self.zero || self.ref0 < 0 || (col_zero && self.ref0 == 0) {
            (0, 0)
        } else {
            self.mvp0
        };
        let mv1: (i32, i32) = if self.zero || self.ref1 < 0 || (col_zero && self.ref1 == 0) {
            (0, 0)
        } else {
            self.mvp1
        };
        DirectMotion {
            mv0,
            mv1,
            ref0: if self.ref0 >= 0 {
                self.ref0
            } else {
                -1
            },
            ref1: if self.ref1 >= 0 {
                self.ref1
            } else {
                -1
            },
        }
    }
}

} // verus!

//! The partitions of inter macroblocks, by the numbers of the syntax tables
//! (H.264 tables 7-13, 7-14, 7-17 and 7-18), in samples.

use crate::mvc::cabac::Engine;
use crate::mvc::inter_plan::{
    b_subs, p_subs, quarter, read_plan, Part,
};
use crate::mvc::mb_inter::{b_sub_mb_type, bins, sub_mb_type, InterBank};
use crate::mvc::mv::Directional;
use vstd::prelude::*;

verus! {

/// The partition is the rectangle of `w` columns and `h` rows of samples whose
/// upper left sample is column `x` and row `y` of the macroblock.
pub open spec fn is_box(p: Part, x: int, y: int, w: int, h: int) -> bool {
    4 * p.x == x && 4 * p.y == y && 4 * p.w == w && 4 * p.h == h
}

/// The partition predicts from list 0, from list 1, or from both, by coded
/// motion.
pub open spec fn predicts_from(p: Part, l0: bool, l1: bool) -> bool {
    !p.direct && p.codes(0) == l0 && p.codes(1) == l1
}

/// The partitions of the quarter with upper left sample (`x`, `y`) by the type
/// number of a B slice: one of 8x8, two of 8 columns and 4 rows, two of 4 columns
/// and 8 rows, or four of 4x4.
pub open spec fn b_quarter_boxes(s: int, q: Seq<Part>, x: int, y: int) -> bool {
    &&& (s == 0 || s == 1 || s == 2 || s == 3) ==> q.len() == 1 && is_box(q[0], x, y, 8, 8)
    &&& (s == 4 || s == 6 || s == 8) ==> q.len() == 2 && is_box(q[0], x, y, 8, 4) && is_box(
        q[1],
        x,
        y + 4,
        8,
        4,
    )
    &&& (s == 5 || s == 7 || s == 9) ==> q.len() == 2 && is_box(q[0], x, y, 4, 8) && is_box(
        q[1],
        x + 4,
        y,
        4,
        8,
    )
    &&& (s == 10 || s == 11 || s == 12) ==> q.len() == 4 && is_box(q[0], x, y, 4, 4) && is_box(
        q[1],
        x + 4,
        y,
        4,
        4,
    ) && is_box(q[2], x, y + 4, 4, 4) && is_box(q[3], x + 4, y + 4, 4, 4)
}

/// The lists of a quarter by the type number of a B slice; number 0 is direct.
pub open spec fn b_quarter_lists(s: int, q: Seq<Part>) -> bool {
    forall|i: int|
        0 <= i < q.len() ==> {
            let p = #[trigger] q[i];
            &&& s == 0 ==> p.direct
            &&& (s == 1 || s == 4 || s == 5 || s == 10) ==> predicts_from(p, true, false)
            &&& (s == 2 || s == 6 || s == 7 || s == 11) ==> predicts_from(p, false, true)
            &&& (s == 3 || s == 8 || s == 9 || s == 12) ==> predicts_from(p, true, true)
        }
}

/// Partitions of a quarter take the median of their neighbours and share the
/// reference of the quarter.
pub open spec fn of_quarter(q: Seq<Part>, b8: int) -> bool {
    forall|i: int| 0 <= i < q.len() ==> (#[trigger] q[i]).dir is None && q[i].group == b8
}

proof fn lemma_b_subs_extend(e: Engine, c: InterBank, b8: int, plan: Seq<Part>)
    requires
        0 <= b8,
    ensures
        b_subs(e, c, b8, plan).2.len() >= plan.len(),
        b_subs(e, c, b8, plan).2.take(plan.len() as int) == plan,
    decreases 4 - b8,
{
    reveal(quarter);
    if b8 < 4 {
        let (d, s) = b_sub_mb_type(bins(e, c.b8_type_b));
        let q = if s == 0 {
            seq![crate::mvc::inter_plan::direct_part(b8)]
        } else {
            quarter(
                b8,
                crate::mvc::inter_plan::b_sub_dir(s as int),
                crate::mvc::inter_plan::b_sub_shape(s as int),
            )
        };
        let c1 = InterBank { b8_type_b: d.c, ..c };
        lemma_b_subs_extend(d.e, c1, b8 + 1, plan + q);
        let r = b_subs(d.e, c1, b8 + 1, plan + q).2;
        assert(r.take(plan.len() as int) =~= r.take((plan + q).len() as int).take(plan.len() as int));
        assert((plan + q).take(plan.len() as int) =~= plan);
    } else {
        assert(plan.take(plan.len() as int) =~= plan);
    }
}

/// The quarter `b8` of a B_8x8 macroblock is cut by its sub_mb_type as the number
/// says: its partitions have the sizes of that number, lie at the quarter's place
/// and use the lists of that number; the next quarter follows.
pub proof fn law_b_quarters(e: Engine, c: InterBank, b8: int, plan: Seq<Part>) -> (q: Seq<Part>)
    requires
        0 <= b8 < 4,
    ensures
        ({
            let (d, s) = b_sub_mb_type(bins(e, c.b8_type_b));
            let x = if b8 == 1 || b8 == 3 {
                8int
            } else {
                0
            };
            let y = if b8 == 2 || b8 == 3 {
                8int
            } else {
                0
            };
            &&& b_quarter_boxes(s as int, q, x, y)
            &&& b_quarter_lists(s as int, q)
            &&& of_quarter(q, b8)
            &&& b_subs(e, c, b8, plan) == b_subs(
                d.e,
                InterBank { b8_type_b: d.c, ..c },
                b8 + 1,
                plan + q,
            )
            &&& b_subs(e, c, b8, plan).2.len() >= plan.len() + q.len()
            &&& b_subs(e, c, b8, plan).2.take((plan + q).len() as int) == plan + q
        }),
{
    reveal(quarter);
    let (d, s) = b_sub_mb_type(bins(e, c.b8_type_b));
    let q = if s == 0 {
        seq![crate::mvc::inter_plan::direct_part(b8)]
    } else {
        quarter(
            b8,
            crate::mvc::inter_plan::b_sub_dir(s as int),
            crate::mvc::inter_plan::b_sub_shape(s as int),
        )
    };
    lemma_b_subs_extend(d.e, InterBank { b8_type_b: d.c, ..c }, b8 + 1, plan + q);
    q
}

proof fn lemma_p_subs_extend(e: Engine, c: InterBank, b8: int, plan: Seq<Part>)
    requires
        0 <= b8,
    ensures
        p_subs(e, c, b8, plan).2.len() >= plan.len(),
        p_subs(e, c, b8, plan).2.take(plan.len() as int) == plan,
    decreases 4 - b8,
{
    reveal(quarter);
    if b8 < 4 {
        let (d, s) = sub_mb_type(bins(e, c.b8_type));
        let q = quarter(b8, 0, s as int);
        let c1 = InterBank { b8_type: d.c, ..c };
        lemma_p_subs_extend(d.e, c1, b8 + 1, plan + q);
        let r = p_subs(d.e, c1, b8 + 1, plan + q).2;
        assert(r.take(plan.len() as int) =~= r.take((plan + q).len() as int).take(plan.len() as int));
        assert((plan + q).take(plan.len() as int) =~= plan);
    } else {
        assert(plan.take(plan.len() as int) =~= plan);
    }
}

/// The quarter `b8` of a P_8x8 macroblock is cut by its sub_mb_type: 0 is one
/// partition of 8x8, 1 two of 8 columns and 4 rows, 2 two of 4 columns and 8 rows,
/// 3 four of 4x4, all from list 0.
pub proof fn law_p_quarters(e: Engine, c: InterBank, b8: int, plan: Seq<Part>) -> (q: Seq<Part>)
    requires
        0 <= b8 < 4,
    ensures
        ({
            let (d, s) = sub_mb_type(bins(e, c.b8_type));
            let x = if b8 == 1 || b8 == 3 {
                8int
            } else {
                0
            };
            let y = if b8 == 2 || b8 == 3 {
                8int
            } else {
                0
            };
            &&& s == 0 ==> q.len() == 1 && is_box(q[0], x, y, 8, 8)
            &&& s == 1 ==> q.len() == 2 && is_box(q[0], x, y, 8, 4) && is_box(q[1], x, y + 4, 8, 4)
            &&& s == 2 ==> q.len() == 2 && is_box(q[0], x, y, 4, 8) && is_box(q[1], x + 4, y, 4, 8)
            &&& s == 3 ==> q.len() == 4 && is_box(q[0], x, y, 4, 4) && is_box(q[1], x + 4, y, 4, 4)
                && is_box(q[2], x, y + 4, 4, 4) && is_box(q[3], x + 4, y + 4, 4, 4)
            &&& forall|i: int| 0 <= i < q.len() ==> predicts_from(#[trigger] q[i], true, false)
            &&& of_quarter(q, b8)
            &&& p_subs(e, c, b8, plan) == p_subs(
                d.e,
                InterBank { b8_type: d.c, ..c },
                b8 + 1,
                plan + q,
            )
            &&& p_subs(e, c, b8, plan).2.len() >= plan.len() + q.len()
            &&& p_subs(e, c, b8, plan).2.take((plan + q).len() as int) == plan + q
        }),
{
    reveal(quarter);
    let (d, s) = sub_mb_type(bins(e, c.b8_type));
    let q = quarter(b8, 0, s as int);
    lemma_p_subs_extend(d.e, InterBank { b8_type: d.c, ..c }, b8 + 1, plan + q);
    q
}

/// The partitions of a P macroblock by its type: 1 is 16x16, 2 two of 16 columns
/// and 8 rows, the upper predicted from above and the lower from the left, 3 two of
/// 8 columns and 16 rows, the left one predicted from the left and the right one
/// from above right, 4 four quarters. All use list 0, and nothing is read but the
/// types of the quarters.
pub proof fn law_p_types(e: Engine, c: InterBank, t: int)
    requires
        1 <= t <= 4,
    ensures
        ({
            let (e1, c1, q) = read_plan(e, c, false, t);
            &&& t == 1 ==> q.len() == 1 && is_box(q[0], 0, 0, 16, 16) && q[0].dir is None
            &&& t == 2 ==> q.len() == 2 && is_box(q[0], 0, 0, 16, 8) && is_box(q[1], 0, 8, 16, 8)
                && q[0].dir == Some(Directional::Above) && q[1].dir == Some(Directional::Left)
            &&& t == 3 ==> q.len() == 2 && is_box(q[0], 0, 0, 8, 16) && is_box(q[1], 8, 0, 8, 16)
                && q[0].dir == Some(Directional::Left) && q[1].dir == Some(Directional::AboveRight)
            &&& t == 4 ==> (e1, c1, q) == p_subs(e, c, 0, Seq::empty())
            &&& t <= 3 ==> e1 == e && c1 == c && forall|i: int|
                0 <= i < q.len() ==> predicts_from(#[trigger] q[i], true, false) && q[i].group == i
                    && q[i].ref0 == -1 && q[i].ref1 == -1
        }),
{
    reveal(read_plan);
}

/// The lists of both halves of a B macroblock of type 4 to 21.
pub open spec fn b_half_lists(t: int, p: Part, q: Part) -> bool {
    &&& (t == 4 || t == 5) ==> predicts_from(p, true, false) && predicts_from(q, true, false)
    &&& (t == 6 || t == 7) ==> predicts_from(p, false, true) && predicts_from(q, false, true)
    &&& (t == 8 || t == 9) ==> predicts_from(p, true, false) && predicts_from(q, false, true)
    &&& (t == 10 || t == 11) ==> predicts_from(p, false, true) && predicts_from(q, true, false)
    &&& (t == 12 || t == 13) ==> predicts_from(p, true, false) && predicts_from(q, true, true)
    &&& (t == 14 || t == 15) ==> predicts_from(p, false, true) && predicts_from(q, true, true)
    &&& (t == 16 || t == 17) ==> predicts_from(p, true, true) && predicts_from(q, true, false)
    &&& (t == 18 || t == 19) ==> predicts_from(p, true, true) && predicts_from(q, false, true)
    &&& (t == 20 || t == 21) ==> predicts_from(p, true, true) && predicts_from(q, true, true)
}

/// The partitions of a B macroblock by its type: 0 is direct by quarters, 1 to 3
/// are 16x16 from list 0, list 1 and both, the even numbers from 4 to 20 two of 16
/// columns and 8 rows, the odd ones from 5 to 21 two of 8 columns and 16 rows, and
/// 22 four quarters with types of their own.
pub proof fn law_b_types(e: Engine, c: InterBank, t: int)
    requires
        0 <= t <= 22,
    ensures
        ({
            let (e1, c1, q) = read_plan(e, c, true, t);
            &&& t == 0 ==> q.len() == 4 && is_box(q[0], 0, 0, 8, 8) && is_box(q[1], 8, 0, 8, 8)
                && is_box(q[2], 0, 8, 8, 8) && is_box(q[3], 8, 8, 8, 8) && forall|i: int|
                0 <= i < 4 ==> (#[trigger] q[i]).direct && q[i].group == i
            &&& 1 <= t <= 3 ==> q.len() == 1 && is_box(q[0], 0, 0, 16, 16) && q[0].dir is None
                && predicts_from(q[0], t != 2, t != 1)
            &&& (4 <= t <= 21 && t % 2 == 0) ==> q.len() == 2 && is_box(q[0], 0, 0, 16, 8) && is_box(
                q[1],
                0,
                8,
                16,
                8,
            ) && q[0].dir == Some(Directional::Above) && q[1].dir == Some(Directional::Left)
            &&& (4 <= t <= 21 && t % 2 == 1) ==> q.len() == 2 && is_box(q[0], 0, 0, 8, 16) && is_box(
                q[1],
                8,
                0,
                8,
                16,
            ) && q[0].dir == Some(Directional::Left) && q[1].dir == Some(Directional::AboveRight)
            &&& 4 <= t <= 21 ==> b_half_lists(t, q[0], q[1]) && q[0].group == 0 && q[1].group == 1
            &&& t == 22 ==> (e1, c1, q) == b_subs(e, c, 0, Seq::empty())
            &&& t <= 21 ==> e1 == e && c1 == c
        }),
{
    reveal(read_plan);
}

} // verus!

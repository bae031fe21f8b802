//! Motion vectors: prediction from neighbours, direct motion and its scaling.

use crate::mvc::mv::{median, predicted_mv, skip_mv, Directional, Neighbour};
use vstd::prelude::*;

verus! {

/// A directional partition whose neighbour has its reference takes the vector of
/// that neighbour, whatever the other two hold: the one above, the left one, or
/// the one above right.
pub proof fn law_directional_neighbour(
    left: (i32, i32, i32),
    above: (i32, i32, i32),
    above_right: (i32, i32, i32),
    a: Neighbour,
    b: Neighbour,
    c: Neighbour,
)
    ensures
        predicted_mv(a, Some(above), c, above.2 as int, Some(Directional::Above)) == (
            above.0 as int,
            above.1 as int,
        ),
        predicted_mv(Some(left), b, c, left.2 as int, Some(Directional::Left)) == (
            left.0 as int,
            left.1 as int,
        ),
        predicted_mv(a, b, Some(above_right), above_right.2 as int, Some(Directional::AboveRight))
            == (above_right.0 as int, above_right.1 as int),
{
}

/// A directional partition whose neighbour is unavailable or has another reference
/// is predicted like one without a direction.
pub proof fn law_other_reference_ignores_the_direction(
    a: Neighbour,
    b: Neighbour,
    c: Neighbour,
    r: int,
)
    requires
        r >= 0,
    ensures
        !(b is Some && (b->0).2 == r) ==> predicted_mv(a, b, c, r, Some(Directional::Above))
            == predicted_mv(a, b, c, r, None),
        !(a is Some && (a->0).2 == r) ==> predicted_mv(a, b, c, r, Some(Directional::Left))
            == predicted_mv(a, b, c, r, None),
        !(c is Some && (c->0).2 == r) ==> predicted_mv(a, b, c, r, Some(Directional::AboveRight))
            == predicted_mv(a, b, c, r, None),
{
}

/// Where exactly one of three neighbours has the reference, the prediction is its
/// vector; it does not depend on the vectors of the others.
pub proof fn law_only_match_wins(
    a: (i32, i32, i32),
    b: (i32, i32, i32),
    c: (i32, i32, i32),
    r: int,
)
    ensures
        a.2 == r && b.2 != r && c.2 != r ==> predicted_mv(Some(a), Some(b), Some(c), r, None) == (
            a.0 as int,
            a.1 as int,
        ),
        a.2 != r && b.2 == r && c.2 != r ==> predicted_mv(Some(a), Some(b), Some(c), r, None) == (
            b.0 as int,
            b.1 as int,
        ),
        a.2 != r && b.2 != r && c.2 == r ==> predicted_mv(Some(a), Some(b), Some(c), r, None) == (
            c.0 as int,
            c.1 as int,
        ),
{
}

/// Two values are at or below the third-placed one and two at or above.
pub open spec fn in_the_middle(m: int, a: int, b: int, c: int) -> bool {
    &&& m == a || m == b || m == c
    &&& (a <= m && b <= m) || (a <= m && c <= m) || (b <= m && c <= m)
    &&& (a >= m && b >= m) || (a >= m && c >= m) || (b >= m && c >= m)
}

/// Where two or three neighbours have the reference, or none, each component of
/// the prediction is the middle one of the three; a neighbour that is unavailable
/// counts as a zero vector.
pub proof fn law_median_prediction(a: Neighbour, b: Neighbour, c: Neighbour, r: int)
    requires
        r >= 0,
        b is Some || c is Some || a is None,
        ({
            let (x, y, z) = (
                a is Some && (a->0).2 == r,
                b is Some && (b->0).2 == r,
                c is Some && (c->0).2 == r,
            );
            (x && y) || (x && z) || (y && z) || (!x && !y && !z)
        }),
    ensures
        ({
            let p = predicted_mv(a, b, c, r, None);
            let v = |n: Neighbour|
                if n is Some {
                    ((n->0).0 as int, (n->0).1 as int)
                } else {
                    (0int, 0int)
                };
            in_the_middle(p.0, v(a).0, v(b).0, v(c).0) && in_the_middle(
                p.1,
                v(a).1,
                v(b).1,
                v(c).1,
            )
        }),
{
}

/// At the top of a slice, where neither B nor C is there, the prediction is the
/// left neighbour's vector, whatever its reference.
pub proof fn law_left_alone(a: (i32, i32, i32), r: int)
    ensures
        predicted_mv(Some(a), None, None, r, None) == (a.0 as int, a.1 as int),
{
}

/// The middle one of three values.
pub proof fn law_median(a: int, b: int, c: int)
    ensures
        in_the_middle(median(a, b, c), a, b, c),
        median(a, b, c) == median(b, a, c),
        median(a, b, c) == median(a, c, b),
{
}

/// A skipped P macroblock stands still at the left or upper border of its slice
/// and beside a neighbour that stands still on reference 0; otherwise it moves as
/// predicted for reference 0. The neighbour above right alone never stops it.
pub proof fn law_skipped_vector(a: Neighbour, b: Neighbour, c: Neighbour)
    ensures
        a is None ==> skip_mv(a, b, c) == (0int, 0int),
        b is None ==> skip_mv(a, b, c) == (0int, 0int),
        a == Some((0i32, 0i32, 0i32)) ==> skip_mv(a, b, c) == (0int, 0int),
        b == Some((0i32, 0i32, 0i32)) ==> skip_mv(a, b, c) == (0int, 0int),
        (a is Some && b is Some && ((a->0).0 != 0 || (a->0).1 != 0 || (a->0).2 != 0) && ((b->0).0
            != 0 || (b->0).1 != 0 || (b->0).2 != 0)) ==> skip_mv(a, b, c) == predicted_mv(
            a,
            b,
            c,
            0,
            None,
        ),
{
}

} // verus!

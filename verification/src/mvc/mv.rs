//! Motion-vector prediction (H.264 section 8.4.1.3): the median of the
//! neighbouring partitions' vectors or, for 16x8 and 8x16 partitions, one
//! neighbour's. Neighbours are A (left), B (above) and C (above right, or above
//! left where that is unavailable), each with its vector and reference index.

use vstd::prelude::*;

verus! {

/// The neighbour that predicts a 16x8 or 8x16 partition on its own.
#[derive(Clone, Copy, PartialEq, Eq, Structural)]
pub enum Directional {
    /// The neighbour above (B).
    Above,
    /// The left neighbour (A).
    Left,
    /// The neighbour above right (C).
    AboveRight,
}

/// Vector and reference index of a neighbour; `None` where it is unavailable.
pub type Neighbour = Option<(i32, i32, i32)>;

/// A neighbour's vector and reference: a zero vector and reference -1 where it
/// is unavailable.
pub open spec fn value_of(n: Neighbour) -> (i32, i32, i32) {
    match n {
        Some(v) => v,
        None => (0, 0, -1i32),
    }
}

/// The middle one of three values.
pub open spec fn median(a: int, b: int, c: int) -> int {
    if (a <= b <= c) || (c <= b <= a) {
        b
    } else if (b <= a <= c) || (c <= a <= b) {
        a
    } else {
        c
    }
}

fn nv(n: Neighbour) -> (r: (i32, i32, i32))
    ensures
        r == value_of(n),
{
    match n {
        Some(v) => v,
        None => (0, 0, -1),
    }
}

/// The middle one of three values.
pub fn median3(a: i32, b: i32, c: i32) -> (r: i32)
    ensures
        r == median(a as int, b as int, c as int),
{
    let lo = if a < b {
        a
    } else {
        b
    };
    let hi = if a < b {
        b
    } else {
        a
    };
    if c < lo {
        lo
    } else if c > hi {
        hi
    } else {
        c
    }
}

/// The prediction from three neighbours: the vector of the only one with this
/// reference, or the median of all three by component.
pub open spec fn median_mv(
    a: (i32, i32, i32),
    b: (i32, i32, i32),
    c: (i32, i32, i32),
    ref_idx: int,
) -> (int, int) {
    let (ma, mb, mc) = (a.2 == ref_idx, b.2 == ref_idx, c.2 == ref_idx);
    if ma && !mb && !mc {
        (a.0 as int, a.1 as int)
    } else if !ma && mb && !mc {
        (b.0 as int, b.1 as int)
    } else if !ma && !mb && mc {
        (c.0 as int, c.1 as int)
    } else {
        (
            median(a.0 as int, b.0 as int, c.0 as int),
            median(a.1 as int, b.1 as int, c.1 as int),
        )
    }
}

/// The neighbour that a directional partition looks at.
pub open spec fn directed(a: Neighbour, b: Neighbour, c: Neighbour, d: Directional) -> (i32, i32, i32) {
    match d {
        Directional::Above => value_of(b),
        Directional::Left => value_of(a),
        Directional::AboveRight => value_of(c),
    }
}

/// The predicted vector of a partition with this reference. Where only A is
/// available, it stands for B and C too.
pub open spec fn predicted_mv(
    a: Neighbour,
    b: Neighbour,
    c: Neighbour,
    ref_idx: int,
    dir: Option<Directional>,
) -> (int, int) {
    if dir is Some && directed(a, b, c, dir->0).2 == ref_idx {
        let d = directed(a, b, c, dir->0);
        (d.0 as int, d.1 as int)
    } else if b is None && c is None && a is Some {
        median_mv(value_of(a), value_of(a), value_of(a), ref_idx)
    } else {
        median_mv(value_of(a), value_of(b), value_of(c), ref_idx)
    }
}

/// Predict the vector of a partition with reference `ref_idx` from its
/// neighbours; `dir` selects the 16x8 and 8x16 rule.
pub fn predict_mv(
    a: Neighbour,
    b: Neighbour,
    c: Neighbour,
    ref_idx: i32,
    dir: Option<Directional>,
) -> (r: (i32, i32))
    ensures
        (r.0 as int, r.1 as int) == predicted_mv(a, b, c, ref_idx as int, dir),
{
    let va = nv(a);
    let mut vb = nv(b);
    let mut vc = nv(c);
    if let Some(d) = dir {
        let v = match d {
            Directional::Above => vb,
            Directional::Left => va,
            Directional::AboveRight => vc,
        };
        if v.2 == ref_idx {
            return (v.0, v.1);
        }
    }
    if b.is_none() && c.is_none() && a.is_some() {
        vb = va;
        vc = va;
    }
    let (ma, mb, mc) = (va.2 == ref_idx, vb.2 == ref_idx, vc.2 == ref_idx);
    if ma && !mb && !mc {
        (va.0, va.1)
    } else if !ma && mb && !mc {
        (vb.0, vb.1)
    } else if !ma && !mb && mc {
        (vc.0, vc.1)
    } else {
        (median3(va.0, vb.0, vc.0), median3(va.1, vb.1, vc.1))
    }
}

/// The vector of a skipped P macroblock: zero where A or B is unavailable or at
/// rest on reference 0.
pub open spec fn skip_mv(a: Neighbour, b: Neighbour, c: Neighbour) -> (int, int) {
    let rest = (0i32, 0i32, 0i32);
    if a is None || b is None || a->0 == rest || b->0 == rest {
        (0, 0)
    } else {
        predicted_mv(a, b, c, 0, None)
    }
}

/// The vector of a skipped P macroblock.
pub fn predict_skip_mv(a: Neighbour, b: Neighbour, c: Neighbour) -> (r: (i32, i32))
    ensures
        (r.0 as int, r.1 as int) == skip_mv(a, b, c),
{
    let still_a: bool = match a {
        None => true,
        Some((x, y, r)) => r == 0 && x == 0 && y == 0,
    };
    let still_b: bool = match b {
        None => true,
        Some((x, y, r)) => r == 0 && x == 0 && y == 0,
    };
    if still_a || still_b {
        return (0, 0);
    }
    predict_mv(a, b, c, 0, None)
}

/// Neighbours that all carry one vector and one reference predict that vector,
/// whichever partition asks and whatever its reference.
pub proof fn law_uniform_motion(v: (i32, i32, i32), ref_idx: int, dir: Option<Directional>)
    ensures
        predicted_mv(Some(v), Some(v), Some(v), ref_idx, dir) == (v.0 as int, v.1 as int),
        predicted_mv(Some(v), None, None, v.2 as int, None) == (v.0 as int, v.1 as int),
{
}

/// Each component of a predicted vector is a component of one of the
/// neighbours, or zero.
pub proof fn law_prediction_is_a_neighbour(
    a: Neighbour,
    b: Neighbour,
    c: Neighbour,
    ref_idx: int,
    dir: Option<Directional>,
)
    ensures
        ({
            let p = predicted_mv(a, b, c, ref_idx, dir);
            let (x, y, z) = (value_of(a), value_of(b), value_of(c));
            &&& p.0 == x.0 || p.0 == y.0 || p.0 == z.0
            &&& p.1 == x.1 || p.1 == y.1 || p.1 == z.1
        }),
{
}

} // verus!

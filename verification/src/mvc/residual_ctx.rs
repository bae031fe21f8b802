//! Residual CABAC context banks and the per-category parameters that drive
//! [`decode_residual_block`](crate::mvc::residual::decode_residual_block).

use crate::mvc::cabac::{bank_ok, CtxState};
use crate::mvc::residual::{CoeffBank, CoeffContexts};
use vstd::prelude::*;

verus! {

/// significant_coeff_flag context per scan position, 8x8 block (15 contexts).
pub const POS2CTX_MAP8X8: [u8; 64] = [
    0, 1, 2, 3, 4, 5, 5, 4, 4, 3, 3, 4, 4, 4, 5, 5, 4, 4, 4, 4, 3, 3, 6, 7, 7, 7, 8, 9, 10, 9, 8, 7,
    7, 6, 11, 12, 13, 11, 6, 7, 8, 9, 14, 10, 9, 8, 6, 11, 12, 13, 11, 6, 9, 14, 10, 9, 11, 12, 13,
    11, 14, 10, 12, 14,
];

/// last_significant_coeff_flag context per scan position, 8x8 block (9
/// contexts).
pub const POS2CTX_LAST8X8: [u8; 64] = [
    0, 1, 1, 1, 1, 1, 1, 1, 1, 1, 1, 1, 1, 1, 1, 1, 2, 2, 2, 2, 2, 2, 2, 2, 2, 2, 2, 2, 2, 2, 2, 2,
    3, 3, 3, 3, 3, 3, 3, 3, 4, 4, 4, 4, 4, 4, 4, 4, 5, 5, 5, 5, 6, 6, 6, 6, 7, 7, 7, 7, 8, 8, 8, 8,
];

/// significant_coeff_flag context per scan position, 4x4 block.
pub const POS2CTX_MAP4X4: [u8; 16] = [0, 1, 2, 3, 4, 5, 6, 7, 8, 9, 10, 11, 12, 13, 14, 14];

/// last_significant_coeff_flag context per scan position, 4x4 block.
pub const POS2CTX_LAST4X4: [u8; 16] = [0, 1, 2, 3, 4, 5, 6, 7, 8, 9, 10, 11, 12, 13, 14, 15];

/// A context that no category uses.
pub const U: (i32, i32) = (0, 0);

/// coded_block_flag in an I slice, 4 contexts a row.
pub const BCBP_I: [[(i32, i32); 4]; 8] = [
    [(-17, 123), (-12, 115), (-16, 122), (-11, 115)],
    [(-12, 63), (-2, 68), (-15, 84), (-13, 104)],
    [(-3, 70), (-8, 93), (-10, 90), (-30, 127)],
    [U, U, U, U],
    [(-3, 70), (-8, 93), (-10, 90), (-30, 127)],
    [(-1, 74), (-6, 97), (-7, 91), (-20, 127)],
    [(-4, 56), (-5, 82), (-7, 76), (-22, 125)],
    [U, U, U, U],
];

/// significant_coeff_flag in an I slice, 15 contexts a row.
pub const MAP_I: [[(i32, i32); 15]; 8] = [
    [(-7,93),(-11,87),(-3,77),(-5,71),(-4,63),(-4,68),(-12,84),(-7,62),(-7,65),(8,61),(5,56),(-2,66),(1,64),(0,61),(-2,78)],
    [U,(1,50),(7,52),(10,35),(0,44),(11,38),(1,45),(0,46),(5,44),(31,17),(1,51),(7,50),(28,19),(16,33),(14,62)],
    [(-17,120),(-20,112),(-18,114),(-11,85),(-15,92),(-14,89),(-26,71),(-15,81),(-14,80),(0,68),(-14,70),(-24,56),(-23,68),(-24,50),(-11,74)],
    [U,U,U,U,U,U,U,U,U,U,U,U,U,U,U],
    [U,U,U,U,U,U,U,U,U,U,U,U,U,U,U],
    [(-13,108),(-15,100),(-13,101),(-13,91),(-12,94),(-10,88),(-16,84),(-10,86),(-7,83),(-13,87),(-19,94),(1,70),(0,72),(-5,74),(18,59)],
    [(-8,102),(-15,100),(0,95),U,U,U,U,U,U,U,U,U,U,U,U],
    [U,(-4,75),(2,72),(-11,75),(-3,71),(15,46),(-13,69),(0,62),(0,65),(21,37),(-15,72),(9,57),(16,54),(0,62),(12,72)],
];

/// last_significant_coeff_flag in an I slice, 15 contexts a row.
pub const LAST_I: [[(i32, i32); 15]; 8] = [
    [(24,0),(15,9),(8,25),(13,18),(15,9),(13,19),(10,37),(12,18),(6,29),(20,33),(15,30),(4,45),(1,58),(0,62),(7,61)],
    [U,(12,38),(11,45),(15,39),(11,42),(13,44),(16,45),(12,41),(10,49),(30,34),(18,42),(10,55),(17,51),(17,46),(0,89)],
    [(23,-13),(26,-13),(40,-15),(49,-14),(44,3),(45,6),(44,34),(33,54),(19,82),U,U,U,U,U,U],
    [U,U,U,U,U,U,U,U,U,U,U,U,U,U,U],
    [U,U,U,U,U,U,U,U,U,U,U,U,U,U,U],
    [(26,-19),(22,-17),(26,-17),(30,-25),(28,-20),(33,-23),(37,-27),(33,-23),(40,-28),(38,-17),(33,-11),(40,-15),(41,-6),(38,1),(41,17)],
    [(30,-6),(27,3),(26,22),U,U,U,U,U,U,U,U,U,U,U,U],
    [U,(37,-16),(35,-4),(38,-8),(38,-3),(37,3),(38,5),(42,0),(35,16),(39,22),(14,48),(27,37),(21,60),(12,68),(2,97)],
];

/// First bin of coeff_abs_level_minus1 in an I slice, 5 contexts a row.
pub const ONE_I: [[(i32, i32); 5]; 8] = [
    [(-3, 71), (-6, 42), (-5, 50), (-3, 54), (-2, 62)],
    [(-5, 67), (-5, 27), (-3, 39), (-2, 44), (0, 46)],
    [(-3, 75), (-1, 23), (1, 34), (1, 43), (0, 54)],
    [U, U, U, U, U],
    [(-12, 92), (-15, 55), (-10, 60), (-6, 62), (-4, 65)],
    [(-11, 97), (-20, 84), (-11, 79), (-6, 73), (-4, 74)],
    [(-8, 78), (-5, 33), (-4, 48), (-2, 53), (-3, 62)],
    [U, U, U, U, U],
];

/// Later bins of coeff_abs_level_minus1 in an I slice, 5 contexts a row.
pub const ABS_I: [[(i32, i32); 5]; 8] = [
    [(0, 58), (1, 63), (-2, 72), (-1, 74), (-9, 91)],
    [(-16, 64), (-8, 68), (-10, 78), (-6, 77), (-10, 86)],
    [(-2, 55), (0, 61), (1, 64), (0, 68), (-9, 92)],
    [U, U, U, U, U],
    [(-12, 73), (-8, 76), (-7, 80), (-9, 88), (-17, 110)],
    [(-13, 86), (-13, 96), (-11, 97), (-19, 117), U],
    [(-13, 71), (-10, 79), (-12, 86), (-13, 90), (-14, 97)],
    [U, U, U, U, U],
];

/// coded_block_flag in a P or B slice, one table for each cabac_init_idc, 4 contexts a row.
pub const BCBP_P: [[[(i32, i32); 4]; 8]; 3] = [
    [
        [(-7,92),(-5,89),(-7,96),(-13,108)],
        [(-3,46),(-1,65),(-1,57),(-9,93)],
        [(-3,74),(-9,92),(-8,87),(-23,126)],
        [U,U,U,U],
        [(-3,74),(-9,92),(-8,87),(-23,126)],
        [(5,54),(6,60),(6,59),(6,69)],
        [(-1,48),(0,68),(-4,69),(-8,88)],
        [U,U,U,U],
    ],
    [
        [(0,80),(-5,89),(-7,94),(-4,92)],
        [(0,39),(0,65),(-15,84),(-35,127)],
        [(-2,73),(-12,104),(-9,91),(-31,127)],
        [U,U,U,U],
        [(-2,73),(-12,104),(-9,91),(-31,127)],
        [(3,55),(7,56),(7,55),(8,61)],
        [(-3,53),(0,68),(-7,74),(-9,88)],
        [U,U,U,U],
    ],
    [
        [(11,80),(5,76),(2,84),(5,78)],
        [(-6,55),(4,61),(-14,83),(-37,127)],
        [(-5,79),(-11,104),(-11,91),(-30,127)],
        [U,U,U,U],
        [(-5,79),(-11,104),(-11,91),(-30,127)],
        [(0,65),(-2,79),(0,72),(-4,92)],
        [(-6,56),(3,68),(-8,71),(-13,98)],
        [U,U,U,U],
    ],
];

/// significant_coeff_flag in a P or B slice, one table for each cabac_init_idc, 15 contexts a row.
pub const MAP_P: [[[(i32, i32); 15]; 8]; 3] = [
    [
        [(-2,85),(-6,78),(-1,75),(-7,77),(2,54),(5,50),(-3,68),(1,50),(6,42),(-4,81),(1,63),(-4,70),(0,67),(2,57),(-2,76)],
        [U,(11,35),(4,64),(1,61),(11,35),(18,25),(12,24),(13,29),(13,36),(-10,93),(-7,73),(-2,73),(13,46),(9,49),(-7,100)],
        [(-4,79),(-7,71),(-5,69),(-9,70),(-8,66),(-10,68),(-19,73),(-12,69),(-16,70),(-15,67),(-20,62),(-19,70),(-16,66),(-22,65),(-20,63)],
        [U,U,U,U,U,U,U,U,U,U,U,U,U,U,U],
        [U,U,U,U,U,U,U,U,U,U,U,U,U,U,U],
        [(9,53),(2,53),(5,53),(-2,61),(0,56),(0,56),(-13,63),(-5,60),(-1,62),(4,57),(-6,69),(4,57),(14,39),(4,51),(13,68)],
        [(3,64),(1,61),(9,63),U,U,U,U,U,U,U,U,U,U,U,U],
        [U,(7,50),(16,39),(5,44),(4,52),(11,48),(-5,60),(-1,59),(0,59),(22,33),(5,44),(14,43),(-1,78),(0,60),(9,69)],
    ],
    [
        [(-13,103),(-13,91),(-9,89),(-14,92),(-8,76),(-12,87),(-23,110),(-24,105),(-10,78),(-20,112),(-17,99),(-78,127),(-70,127),(-50,127),(-46,127)],
        [U,(-4,66),(-5,78),(-4,71),(-8,72),(2,59),(-1,55),(-7,70),(-6,75),(-8,89),(-34,119),(-3,75),(32,20),(30,22),(-44,127)],
        [(-5,85),(-6,81),(-10,77),(-7,81),(-17,80),(-18,73),(-4,74),(-10,83),(-9,71),(-9,67),(-1,61),(-8,66),(-14,66),(0,59),(2,59)],
        [U,U,U,U,U,U,U,U,U,U,U,U,U,U,U],
        [U,U,U,U,U,U,U,U,U,U,U,U,U,U,U],
        [(0,54),(-5,61),(0,58),(-1,60),(-3,61),(-8,67),(-25,84),(-14,74),(-5,65),(5,52),(2,57),(0,61),(-9,69),(-11,70),(18,55)],
        [(-4,71),(0,58),(7,61),U,U,U,U,U,U,U,U,U,U,U,U],
        [U,(9,41),(18,25),(9,32),(5,43),(9,47),(0,44),(0,51),(2,46),(19,38),(-4,66),(15,38),(12,42),(9,34),(0,89)],
    ],
    [
        [(-4,86),(-12,88),(-5,82),(-3,72),(-4,67),(-8,72),(-16,89),(-9,69),(-1,59),(5,66),(4,57),(-4,71),(-2,71),(2,58),(-1,74)],
        [U,(-4,44),(-1,69),(0,62),(-7,51),(-4,47),(-6,42),(-3,41),(-6,53),(8,76),(-9,78),(-11,83),(9,52),(0,67),(-5,90)],
        [(-3,78),(-8,74),(-9,72),(-10,72),(-18,75),(-12,71),(-11,63),(-5,70),(-17,75),(-14,72),(-16,67),(-8,53),(-14,59),(-9,52),(-11,68)],
        [U,U,U,U,U,U,U,U,U,U,U,U,U,U,U],
        [U,U,U,U,U,U,U,U,U,U,U,U,U,U,U],
        [(1,67),(-15,72),(-5,75),(-8,80),(-21,83),(-21,64),(-13,31),(-25,64),(-29,94),(9,75),(17,63),(-8,74),(-5,35),(-2,27),(13,91)],
        [(3,65),(-7,69),(8,77),U,U,U,U,U,U,U,U,U,U,U,U],
        [U,(-10,66),(3,62),(-3,68),(-20,81),(0,30),(1,7),(-3,23),(-21,74),(16,66),(-23,124),(17,37),(44,-18),(50,-34),(-22,127)],
    ],
];

/// last_significant_coeff_flag in a P or B slice, one table for each cabac_init_idc, 15 contexts a row.
pub const LAST_P: [[[(i32, i32); 15]; 8]; 3] = [
    [
        [(11,28),(2,40),(3,44),(0,49),(0,46),(2,44),(2,51),(0,47),(4,39),(2,62),(6,46),(0,54),(3,54),(2,58),(4,63)],
        [U,(6,51),(6,57),(7,53),(6,52),(6,55),(11,45),(14,36),(8,53),(-1,82),(7,55),(-3,78),(15,46),(22,31),(-1,84)],
        [(9,-2),(26,-9),(33,-9),(39,-7),(41,-2),(45,3),(49,9),(45,27),(36,59),U,U,U,U,U,U],
        [U,U,U,U,U,U,U,U,U,U,U,U,U,U,U],
        [U,U,U,U,U,U,U,U,U,U,U,U,U,U,U],
        [(25,7),(30,-7),(28,3),(28,4),(32,0),(34,-1),(30,6),(30,6),(32,9),(31,19),(26,27),(26,30),(37,20),(28,34),(17,70)],
        [(1,67),(5,59),(9,67),U,U,U,U,U,U,U,U,U,U,U,U],
        [U,(16,30),(18,32),(18,35),(22,29),(24,31),(23,38),(18,43),(20,41),(11,63),(9,59),(9,64),(-1,94),(-2,89),(-9,108)],
    ],
    [
        [(4,45),(10,28),(10,31),(33,-11),(52,-43),(18,15),(28,0),(35,-22),(38,-25),(34,0),(39,-18),(32,-12),(102,-94),U,(56,-15)],
        [U,(33,-4),(29,10),(37,-5),(51,-29),(39,-9),(52,-34),(69,-58),(67,-63),(44,-5),(32,7),(55,-29),(32,1),U,(27,36)],
        [(17,-10),(32,-13),(42,-9),(49,-5),(53,0),(64,3),(68,10),(66,27),(47,57),U,U,U,U,U,U],
        [U,U,U,U,U,U,U,U,U,U,U,U,U,U,U],
        [U,U,U,U,U,U,U,U,U,U,U,U,U,U,U],
        [(33,-25),(34,-30),(36,-28),(38,-28),(38,-27),(34,-18),(35,-16),(34,-14),(32,-8),(37,-6),(35,0),(30,10),(28,18),(26,25),(29,41)],
        [(0,75),(2,72),(8,77),U,U,U,U,U,U,U,U,U,U,U,U],
        [U,(14,35),(18,31),(17,35),(21,30),(17,45),(20,42),(18,45),(27,26),(16,54),(7,66),(16,56),(11,73),(10,67),(-10,116)],
    ],
    [
        [(4,39),(0,42),(7,34),(11,29),(8,31),(6,37),(7,42),(3,40),(8,33),(13,43),(13,36),(4,47),(3,55),(2,58),(6,60)],
        [U,(8,44),(11,44),(14,42),(7,48),(4,56),(4,52),(13,37),(9,49),(19,58),(10,48),(12,45),(0,69),(20,33),(8,63)],
        [(9,-2),(30,-10),(31,-4),(33,-1),(33,7),(31,12),(37,23),(31,38),(20,64),U,U,U,U,U,U],
        [U,U,U,U,U,U,U,U,U,U,U,U,U,U,U],
        [U,U,U,U,U,U,U,U,U,U,U,U,U,U,U],
        [(35,-18),(33,-25),(28,-3),(24,10),(27,0),(34,-14),(52,-44),(39,-24),(19,17),(31,25),(36,29),(24,33),(34,15),(30,20),(22,73)],
        [(20,34),(19,31),(27,44),U,U,U,U,U,U,U,U,U,U,U,U],
        [U,(19,16),(15,36),(15,36),(21,28),(25,21),(30,20),(31,12),(27,16),(24,42),(0,93),(14,56),(15,57),(26,38),(-24,127)],
    ],
];

/// First bin of coeff_abs_level_minus1 in a P or B slice, one table for each cabac_init_idc, 5 contexts a row.
pub const ONE_P: [[[(i32, i32); 5]; 8]; 3] = [
    [
        [(-6,76),(-2,44),(0,45),(0,52),(-3,64)],
        [(-9,77),(3,24),(0,42),(0,48),(0,55)],
        [(-6,66),(-7,35),(-7,42),(-8,45),(-5,48)],
        [U,U,U,U,U],
        [(1,58),(-3,29),(-1,36),(1,38),(2,43)],
        [(0,70),(-4,29),(5,31),(7,42),(1,59)],
        [(0,58),(8,5),(10,14),(14,18),(13,27)],
        [U,U,U,U,U],
    ],
    [
        [(-23,112),(-15,71),(-7,61),(0,53),(-5,66)],
        [(-21,101),(-3,39),(-5,53),(-7,61),(-11,75)],
        [(-5,71),(0,24),(-1,36),(-2,42),(-2,52)],
        [U,U,U,U,U],
        [(-11,76),(-10,44),(-10,52),(-10,57),(-9,58)],
        [(2,66),(-9,34),(1,32),(11,31),(5,52)],
        [(3,52),(7,4),(10,8),(17,8),(16,19)],
        [U,U,U,U,U],
    ],
    [
        [(-24,115),(-22,82),(-9,62),(0,53),(0,59)],
        [(-21,100),(-14,57),(-12,67),(-11,71),(-10,77)],
        [(-9,71),(-7,37),(-8,44),(-11,49),(-10,56)],
        [U,U,U,U,U],
        [(-10,82),(-8,48),(-8,61),(-8,66),(-7,70)],
        [(-4,79),(-22,69),(-16,75),(-2,58),(1,58)],
        [(-13,81),(-6,38),(-13,62),(-6,58),(-2,59)],
        [U,U,U,U,U],
    ],
];

/// Later bins of coeff_abs_level_minus1 in a P or B slice, one table for each cabac_init_idc, 5 contexts a row.
pub const ABS_P: [[[(i32, i32); 5]; 8]; 3] = [
    [
        [(-2,59),(-4,70),(-4,75),(-8,82),(-17,102)],
        [(-6,59),(-7,71),(-12,83),(-11,87),(-30,119)],
        [(-12,56),(-6,60),(-5,62),(-8,66),(-8,76)],
        [U,U,U,U,U],
        [(-6,55),(0,58),(0,64),(-3,74),(-10,90)],
        [(-2,58),(-3,72),(-3,81),(-11,97),U],
        [(2,40),(0,58),(-3,70),(-6,79),(-8,85)],
        [U,U,U,U,U],
    ],
    [
        [(-11,77),(-9,80),(-9,84),(-10,87),(-34,127)],
        [(-15,77),(-17,91),(-25,107),(-25,111),(-28,122)],
        [(-9,57),(-6,63),(-4,65),(-4,67),(-7,82)],
        [U,U,U,U,U],
        [(-16,72),(-7,69),(-4,69),(-5,74),(-9,86)],
        [(-2,55),(-2,67),(0,73),(-8,89),U],
        [(3,37),(-1,61),(-5,73),(-1,70),(-4,78)],
        [U,U,U,U,U],
    ],
    [
        [(-14,85),(-13,89),(-13,94),(-11,92),(-29,127)],
        [(-21,85),(-16,88),(-23,104),(-15,98),(-37,127)],
        [(-12,59),(-8,63),(-9,67),(-6,68),(-10,79)],
        [U,U,U,U,U],
        [(-14,75),(-10,79),(-9,83),(-12,92),(-18,108)],
        [(-13,78),(-9,83),(-4,81),(-13,99),U],
        [(-16,73),(-10,76),(-13,86),(-9,83),(-10,87)],
        [U,U,U,U,U],
    ],
];

/// A residual block category.
#[derive(Debug, Clone, Copy, PartialEq, Eq, Structural)]
pub enum ResidualCat {
    /// Intra_16x16 luma DC, the 4x4 Hadamard coefficients.
    Luma16Dc,
    /// Intra_16x16 luma AC, 15 coefficients at scan positions 1..16.
    Luma16Ac,
    /// Luma 4x4 transform block.
    Luma4x4,
    /// Luma 8x8 transform block. It has no coded_block_flag.
    Luma8x8,
    /// Chroma DC, 4:2:0.
    ChromaDc,
    /// Chroma AC, 15 coefficients at scan positions 1..16.
    ChromaAc,
}

/// The parameters of a category.
pub struct CatDesc {
    /// Number of coefficients in a block.
    pub max_num_coeff: usize,
    /// Scan position to significance context.
    pub pos2ctx_map: &'static [u8],
    /// Scan position to last-flag context.
    pub pos2ctx_last: &'static [u8],
    /// Limit of the count of levels above 1 in the level context.
    pub gt1_cap: u32,
}

/// The contexts that a row of `(m, n)` pairs gives at a slice QP.
pub open spec fn init_row(row: Seq<(i32, i32)>, qp: int) -> Seq<CtxState> {
    Seq::new(row.len(), |i: int| CtxState::initial(row[i].0 as int, row[i].1 as int, qp))
}

/// Initialise one row of contexts.
pub fn init_vec(row: &[(i32, i32)], slice_qp: i32) -> (v: Vec<CtxState>)
    ensures
        v@ == init_row(row@, slice_qp as int),
        bank_ok(v@),
{
    let mut v: Vec<CtxState> = Vec::new();
    for i in 0..row.len()
        invariant
            v@ == init_row(row@.subrange(0, i as int), slice_qp as int),
            bank_ok(v@),
    {
        let (m, n) = row[i];
        v.push(CtxState::init(m, n, slice_qp));
        assert(v@ =~= init_row(row@.subrange(0, i + 1), slice_qp as int));
    }
    assert(row@.subrange(0, row@.len() as int) =~= row@);
    v
}

/// Initialise one bank of contexts.
pub fn init_bank<const N: usize>(row: &[(i32, i32); N], slice_qp: i32) -> (a: [CtxState; N])
    ensures
        a@ == init_row(row@, slice_qp as int),
        bank_ok(a@),
{
    let mut a: [CtxState; N] = vstd::array::array_fill_for_copy_types(
        CtxState { pstate: 0, mps: 0 },
    );
    for i in 0..N
        invariant
            forall|j: int|
                0 <= j < i ==> #[trigger] a@[j] == CtxState::initial(
                    row@[j].0 as int,
                    row@[j].1 as int,
                    slice_qp as int,
                ) && a@[j].ok(),
    {
        let (m, n) = row[i];
        a[i] = CtxState::init(m, n, slice_qp);
    }
    assert(a@ =~= init_row(row@, slice_qp as int));
    a
}

impl ResidualCat {
    /// The rows of the context tables for this category: coded_block_flag,
    /// the two maps, and the two level tables.
    pub open spec fn row_indices(self) -> (int, int, int) {
        match self {
            ResidualCat::Luma16Dc => (0, 0, 0),
            ResidualCat::Luma16Ac => (1, 1, 1),
            ResidualCat::Luma4x4 => (4, 5, 4),
            ResidualCat::Luma8x8 => (2, 2, 2),
            ResidualCat::ChromaDc => (5, 6, 5),
            ResidualCat::ChromaAc => (6, 7, 6),
        }
    }

    fn rows(self) -> (r: (usize, usize, usize))
        ensures
            (r.0 as int, r.1 as int, r.2 as int) == self.row_indices(),
            r.0 < 8 && r.1 < 8 && r.2 < 8,
    {
        match self {
            ResidualCat::Luma16Dc => (0, 0, 0),
            ResidualCat::Luma16Ac => (1, 1, 1),
            ResidualCat::Luma4x4 => (4, 5, 4),
            ResidualCat::Luma8x8 => (2, 2, 2),
            ResidualCat::ChromaDc => (5, 6, 5),
            ResidualCat::ChromaAc => (6, 7, 6),
        }
    }

    /// Number of coefficients in a block of this category.
    pub open spec fn size(self) -> int {
        match self {
            ResidualCat::Luma16Dc | ResidualCat::Luma4x4 => 16,
            ResidualCat::Luma16Ac | ResidualCat::ChromaAc => 15,
            ResidualCat::Luma8x8 => 64,
            ResidualCat::ChromaDc => 4,
        }
    }

    /// Scan position to significance context: AC blocks start at position 1.
    pub closed spec fn map(self) -> Seq<u8> {
        match self {
            ResidualCat::Luma16Dc | ResidualCat::Luma4x4 => POS2CTX_MAP4X4@,
            ResidualCat::Luma16Ac | ResidualCat::ChromaAc => POS2CTX_MAP4X4@.subrange(1, 16),
            ResidualCat::Luma8x8 => POS2CTX_MAP8X8@,
            ResidualCat::ChromaDc => POS2CTX_MAP4X4@.subrange(0, 4),
        }
    }

    /// Scan position to last-flag context: AC blocks start at position 1.
    pub closed spec fn last_map(self) -> Seq<u8> {
        match self {
            ResidualCat::Luma16Dc | ResidualCat::Luma4x4 => POS2CTX_LAST4X4@,
            ResidualCat::Luma16Ac | ResidualCat::ChromaAc => POS2CTX_LAST4X4@.subrange(1, 16),
            ResidualCat::Luma8x8 => POS2CTX_LAST8X8@,
            ResidualCat::ChromaDc => POS2CTX_LAST4X4@.subrange(0, 4),
        }
    }

    /// Limit of the count of levels above 1: 3 for chroma DC, else 4.
    pub open spec fn cap(self) -> int {
        match self {
            ResidualCat::ChromaDc => 3,
            _ => 4,
        }
    }

    /// The parameters of this category.
    pub fn desc(self) -> (d: CatDesc)
        ensures
            d.max_num_coeff == self.size(),
            d.pos2ctx_map@ == self.map(),
            d.pos2ctx_last@ == self.last_map(),
            d.gt1_cap == self.cap(),
            d.pos2ctx_map@.len() == self.size(),
            d.pos2ctx_last@.len() == self.size(),
            forall|i: int|
                0 <= i < self.size() - 1 ==> (#[trigger] d.pos2ctx_map@[i]) < 15,
            forall|i: int|
                0 <= i < self.size() - 1 ==> (#[trigger] d.pos2ctx_last@[i]) < 15,
    {
        match self {
            ResidualCat::Luma16Dc | ResidualCat::Luma4x4 => CatDesc {
                max_num_coeff: 16,
                pos2ctx_map: &POS2CTX_MAP4X4,
                pos2ctx_last: &POS2CTX_LAST4X4,
                gt1_cap: 4,
            },
            ResidualCat::Luma16Ac | ResidualCat::ChromaAc => CatDesc {
                max_num_coeff: 15,
                pos2ctx_map: &POS2CTX_MAP4X4[1..16],
                pos2ctx_last: &POS2CTX_LAST4X4[1..16],
                gt1_cap: 4,
            },
            ResidualCat::Luma8x8 => CatDesc {
                max_num_coeff: 64,
                pos2ctx_map: &POS2CTX_MAP8X8,
                pos2ctx_last: &POS2CTX_LAST8X8,
                gt1_cap: 4,
            },
            ResidualCat::ChromaDc => CatDesc {
                max_num_coeff: 4,
                pos2ctx_map: &POS2CTX_MAP4X4[0..4],
                pos2ctx_last: &POS2CTX_LAST4X4[0..4],
                gt1_cap: 3,
            },
        }
    }

    /// The significance, last-flag and level contexts at the start of a slice.
    pub closed spec fn coeff_bank(self, qp: int, inter: bool, model: int) -> CoeffBank {
        let (_, ml, oa) = self.row_indices();
        let one = if inter {
            ONE_P[model][oa]@
        } else {
            ONE_I[oa]@
        };
        let abs = if inter {
            ABS_P[model][oa]@
        } else {
            ABS_I[oa]@
        };
        CoeffBank {
            sig: init_row(
                if inter {
                    MAP_P[model][ml]@
                } else {
                    MAP_I[ml]@
                },
                qp,
            ),
            last: init_row(
                if inter {
                    LAST_P[model][ml]@
                } else {
                    LAST_I[ml]@
                },
                qp,
            ),
            level: init_row(one, qp) + init_row(abs, qp),
        }
    }

    /// The coded_block_flag contexts at the start of a slice.
    pub closed spec fn cbf_bank(self, qp: int, inter: bool, model: int) -> Seq<CtxState> {
        let (row, _, _) = self.row_indices();
        init_row(
            if inter {
                BCBP_P[model][row]@
            } else {
                BCBP_I[row]@
            },
            qp,
        )
    }

    /// Build the significance, last-flag and level contexts of this category.
    /// `inter` selects the P tables of the slice's cabac_init_idc `model`.
    pub fn coeff_contexts(self, slice_qp: i32, inter: bool, model: usize) -> (c: CoeffContexts)
        requires
            inter ==> model < 3,
        ensures
            c@ == self.coeff_bank(slice_qp as int, inter, model as int),
            c@.ok(),
            c.sig@.len() == 15,
            c.last@.len() == 15,
    {
        let (_, ml, oa) = self.rows();
        let sig = if inter {
            init_vec(&MAP_P[model][ml], slice_qp)
        } else {
            init_vec(&MAP_I[ml], slice_qp)
        };
        let last = if inter {
            init_vec(&LAST_P[model][ml], slice_qp)
        } else {
            init_vec(&LAST_I[ml], slice_qp)
        };
        let one = if inter {
            init_bank(&ONE_P[model][oa], slice_qp)
        } else {
            init_bank(&ONE_I[oa], slice_qp)
        };
        let abs = if inter {
            init_bank(&ABS_P[model][oa], slice_qp)
        } else {
            init_bank(&ABS_I[oa], slice_qp)
        };
        let level = [
            one[0],
            one[1],
            one[2],
            one[3],
            one[4],
            abs[0],
            abs[1],
            abs[2],
            abs[3],
            abs[4],
        ];
        assert(level@ =~= one@ + abs@);
        CoeffContexts { sig, last, level }
    }

    /// The four coded_block_flag contexts of this category, indexed by twice
    /// the upper neighbour's bit plus the left one's.
    pub fn bcbp_contexts(self, slice_qp: i32, inter: bool, model: usize) -> (c: [CtxState; 4])
        requires
            inter ==> model < 3,
        ensures
            c@ == self.cbf_bank(slice_qp as int, inter, model as int),
            bank_ok(c@),
    {
        let (row, _, _) = self.rows();
        if inter {
            init_bank(&BCBP_P[model][row], slice_qp)
        } else {
            init_bank(&BCBP_I[row], slice_qp)
        }
    }
}

/// The context banks and the maps of a category, from the tables.
pub proof fn law_category_tables(cat: ResidualCat, qp: int, model: int)
    ensures
        ({
            let (cbf, ml, oa) = cat.row_indices();
            &&& cat.coeff_bank(qp, false, model) == (CoeffBank {
                sig: init_row(MAP_I[ml]@, qp),
                last: init_row(LAST_I[ml]@, qp),
                level: init_row(ONE_I[oa]@, qp) + init_row(ABS_I[oa]@, qp),
            })
            &&& cat.coeff_bank(qp, true, model) == (CoeffBank {
                sig: init_row(MAP_P[model][ml]@, qp),
                last: init_row(LAST_P[model][ml]@, qp),
                level: init_row(ONE_P[model][oa]@, qp) + init_row(ABS_P[model][oa]@, qp),
            })
            &&& cat.cbf_bank(qp, false, model) == init_row(BCBP_I[cbf]@, qp)
            &&& cat.cbf_bank(qp, true, model) == init_row(BCBP_P[model][cbf]@, qp)
        }),
        cat.map() == (match cat {
            ResidualCat::Luma16Dc | ResidualCat::Luma4x4 => POS2CTX_MAP4X4@,
            ResidualCat::Luma16Ac | ResidualCat::ChromaAc => POS2CTX_MAP4X4@.subrange(1, 16),
            ResidualCat::Luma8x8 => POS2CTX_MAP8X8@,
            ResidualCat::ChromaDc => POS2CTX_MAP4X4@.subrange(0, 4),
        }),
        cat.last_map() == (match cat {
            ResidualCat::Luma16Dc | ResidualCat::Luma4x4 => POS2CTX_LAST4X4@,
            ResidualCat::Luma16Ac | ResidualCat::ChromaAc => POS2CTX_LAST4X4@.subrange(1, 16),
            ResidualCat::Luma8x8 => POS2CTX_LAST8X8@,
            ResidualCat::ChromaDc => POS2CTX_LAST4X4@.subrange(0, 4),
        }),
{
}

} // verus!

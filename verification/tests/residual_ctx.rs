//! Contexts of residual blocks.

use ripsaw::mvc::cabac::CtxState;
use ripsaw::mvc::residual_ctx::{ResidualCat, ABS_P, BCBP_P, ONE_P};

#[test]
fn residual_p_tables_have_three_models_matching_jm() {
    assert_eq!(BCBP_P[1][0], [(0, 80), (-5, 89), (-7, 94), (-4, 92)]);
    assert_eq!(BCBP_P[2][0], [(11, 80), (5, 76), (2, 84), (5, 78)]);
    assert_eq!(ONE_P[1][0], [(-23, 112), (-15, 71), (-7, 61), (0, 53), (-5, 66)]);
    assert_eq!(ABS_P[0][0], [(-2, 59), (-4, 70), (-4, 75), (-8, 82), (-17, 102)]);
}

#[test]
fn descriptors_match_jm_per_type_arrays() {
    assert_eq!(ResidualCat::Luma8x8.desc().max_num_coeff, 64);
    assert_eq!(ResidualCat::ChromaDc.desc().max_num_coeff, 4);
    assert_eq!(ResidualCat::ChromaAc.desc().max_num_coeff, 15);
    assert_eq!(ResidualCat::ChromaDc.desc().gt1_cap, 3);
    assert_eq!(ResidualCat::Luma8x8.desc().gt1_cap, 4);
    assert_eq!(ResidualCat::ChromaAc.desc().pos2ctx_map[0], 1);
    assert_eq!(ResidualCat::ChromaAc.desc().pos2ctx_last[0], 1);
}

#[test]
fn coeff_contexts_built_from_correct_rows() {
    let c = ResidualCat::Luma8x8.coeff_contexts(26, false, 0);
    assert_eq!(c.sig.len(), 15);
    assert_eq!(c.last.len(), 15);
    assert_eq!(c.sig[0], CtxState::init(-17, 120, 26));
    assert_eq!(c.last[0], CtxState::init(23, -13, 26));
    assert_eq!(c.level[0], CtxState::init(-3, 75, 26));
    assert_eq!(c.level[5], CtxState::init(-2, 55, 26));
}

#[test]
fn intra16x16_and_4x4_categories_use_correct_rows() {
    let dc = ResidualCat::Luma16Dc.coeff_contexts(26, false, 0);
    assert_eq!(dc.sig[0], CtxState::init(-7, 93, 26));
    assert_eq!(dc.level[0], CtxState::init(-3, 71, 26));
    assert_eq!(ResidualCat::Luma16Dc.bcbp_contexts(26, false, 0)[0], CtxState::init(-17, 123, 26));
    let l4 = ResidualCat::Luma4x4.coeff_contexts(26, false, 0);
    assert_eq!(l4.sig[0], CtxState::init(-13, 108, 26));
    assert_eq!(l4.level[0], CtxState::init(-12, 92, 26));
    assert_eq!(ResidualCat::Luma4x4.bcbp_contexts(26, false, 0)[0], CtxState::init(-3, 70, 26));
    assert_eq!(ResidualCat::Luma16Ac.desc().max_num_coeff, 15);
    assert_eq!(ResidualCat::Luma16Ac.desc().pos2ctx_map[0], 1);
}

#[test]
fn chroma_dc_uses_one_abs_row_5_and_bcbp_row_5() {
    let c = ResidualCat::ChromaDc.coeff_contexts(26, false, 0);
    assert_eq!(c.level[0], CtxState::init(-11, 97, 26));
    let b = ResidualCat::ChromaDc.bcbp_contexts(26, false, 0);
    assert_eq!(b[0], CtxState::init(-1, 74, 26));
}

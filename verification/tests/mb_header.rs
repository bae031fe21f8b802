//! Contexts of macroblock headers.

use ripsaw::mvc::cabac::CtxState;
use ripsaw::mvc::mb_header::MbHeaderContexts;

#[test]
fn context_init_uses_verbatim_jm_values() {
    let ctx = MbHeaderContexts::new(0);
    assert_eq!(ctx.mb_type[0], CtxState::init(20, -15, 0));
    assert_eq!(ctx.transform[2], CtxState::init(25, 50, 0));
    assert_eq!(ctx.cbp[0][0], CtxState::init(-17, 127, 0));
    assert_eq!(ctx.delta_qp[1], CtxState::init(0, 63, 0));
}

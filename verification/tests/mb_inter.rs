//! Contexts of inter macroblocks.

use ripsaw::mvc::cabac::CtxState;
use ripsaw::mvc::mb_inter::InterContexts;

#[test]
fn skip_contexts_from_model0() {
    let c = InterContexts::new(0, 26);
    assert_eq!(c.mb_type[0], CtxState::init(23, 33, 26));
    assert_eq!(c.mb_type[4], CtxState::init(1, 9, 26));
}

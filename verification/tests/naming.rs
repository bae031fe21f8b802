//! Clean names.

use ripsaw::naming::sanitise;

#[test]
fn sanitise_strips_path_separators_and_collapses_ws() {
    assert_eq!(sanitise("Avatar:  The Way of Water"), "Avatar The Way of Water");
    assert_eq!(sanitise("M.A.S.H. "), "M.A.S.H");
    assert_eq!(sanitise("a/b"), "a b");
}

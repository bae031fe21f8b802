//! Emulation prevention.

use ripsaw::mvc::rbsp::extract_rbsp;

#[test]
fn passes_through_payload_with_no_escape_sequences() {
    let input = vec![0x42, 0x00, 0x01, 0x80];
    assert_eq!(extract_rbsp(&input), input);
}

#[test]
fn strips_emulation_prevention_byte_after_two_zeros() {
    let input = vec![0x00, 0x00, 0x03, 0x04];
    assert_eq!(extract_rbsp(&input), vec![0x00, 0x00, 0x04]);
}

#[test]
fn preserves_03_when_not_preceded_by_two_zeros() {
    let input = vec![0x01, 0x03, 0x04];
    assert_eq!(extract_rbsp(&input), input);
}

#[test]
fn handles_multiple_escape_sequences_in_one_payload() {
    let input = vec![0x00, 0x00, 0x03, 0x00, 0x00, 0x03];
    assert_eq!(extract_rbsp(&input), vec![0x00, 0x00, 0x00, 0x00]);
}

#[test]
fn handles_run_of_three_zeros_followed_by_escape() {
    let input = vec![0x00, 0x00, 0x00, 0x03];
    assert_eq!(extract_rbsp(&input), vec![0x00, 0x00, 0x00]);
}

#[test]
fn handles_lone_03_after_a_single_zero() {
    let input = vec![0x00, 0x03, 0x04];
    assert_eq!(extract_rbsp(&input), input);
}

#[test]
fn empty_input_yields_empty_rbsp() {
    assert!(extract_rbsp(&[]).is_empty());
}

use rad::esc_abort::contains_esc;

#[test]
fn test_contains_esc_detects_the_byte_anywhere_in_the_slice() {
    assert!(contains_esc(&[0x1b]));
    assert!(contains_esc(&[b'a', 0x1b, b'b']));
    assert!(!contains_esc(b"abc"));
    assert!(!contains_esc(&[]));
}

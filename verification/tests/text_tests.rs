use layered_config::{contains_nul, nul_terminated};

#[test]
fn nul_terminated_appends_one_zero_byte() {
    assert_eq!(nul_terminated("abc"), Some(vec![97, 98, 99, 0]));
    assert_eq!(nul_terminated(""), Some(vec![0]));
    // multi-byte UTF-8 stays intact, with the terminator after it
    assert_eq!(nul_terminated("é"), Some(vec![0xc3, 0xa9, 0]));
}

#[test]
fn embedded_nul_is_rejected() {
    assert_eq!(nul_terminated("a\0b"), None);
    assert_eq!(nul_terminated("\0"), None);
    assert!(contains_nul("a\0b"));
    assert!(!contains_nul("ab"));
    assert!(!contains_nul(""));
}

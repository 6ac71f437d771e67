use caesar_cipher::options::conflicting_options;

#[test]
fn alphabet_code_with_detection_conflicts() {
    // A run given both an explicit code and a detection request must be
    // refused before any file is read or any transform attempted.
    assert!(conflicting_options(true, true, false));
}

#[test]
fn detection_with_decryption_conflicts() {
    assert!(conflicting_options(false, true, true));
}

#[test]
fn compatible_combinations_pass() {
    assert!(!conflicting_options(false, false, false));
    assert!(!conflicting_options(true, false, false));
    assert!(!conflicting_options(true, false, true));
    assert!(!conflicting_options(false, true, false));
    assert!(!conflicting_options(false, false, true));
}

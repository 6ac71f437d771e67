use caesar_cipher::alphabet::default_alphabet_string;
use caesar_cipher::cipher::caesar_cipher;

#[test]
fn shift_one_encrypt() {
    assert_eq!(caesar_cipher("ABC", 1, false, "ABC"), "BCA");
}

#[test]
fn shift_one_decrypt() {
    assert_eq!(caesar_cipher("BCA", 1, true, "ABC"), "ABC");
}

#[test]
fn default_alphabet_hello_world() {
    let alphabet = default_alphabet_string();
    assert_eq!(
        caesar_cipher("Hello, World!", 3, false, alphabet.as_str()),
        "Khoor, Zruog!"
    );
}

#[test]
fn wraps_past_both_runs() {
    let alphabet = default_alphabet_string();
    // 'x' runs into the lower-case Norwegian letters, 'å' wraps to the top.
    assert_eq!(caesar_cipher("xå", 3, false, alphabet.as_str()), "æC");
}

#[test]
fn negative_shift_encrypt() {
    assert_eq!(caesar_cipher("ABC", -1, false, "ABC"), "CAB");
}

#[test]
fn negative_shift_decrypt() {
    assert_eq!(caesar_cipher("ABC", -1, true, "ABC"), "BCA");
}

#[test]
fn round_trip_is_identity() {
    let alphabet = default_alphabet_string();
    let text = "Pack my box with five dozen liquor jugs — blåbærsyltetøy!";
    let encrypted = caesar_cipher(text, 17, false, alphabet.as_str());
    let decrypted = caesar_cipher(&encrypted, 17, true, alphabet.as_str());
    assert_eq!(decrypted, text);
}

#[test]
fn length_is_preserved() {
    let alphabet = default_alphabet_string();
    let text = "Hello, World! 123 æøå";
    let out = caesar_cipher(text, 7, false, alphabet.as_str());
    assert_eq!(out.chars().count(), text.chars().count());
}

#[test]
fn characters_outside_alphabet_unchanged() {
    let alphabet = default_alphabet_string();
    let out = caesar_cipher("0123 .,;:!? \t\n", 13, false, alphabet.as_str());
    assert_eq!(out, "0123 .,;:!? \t\n");
}

#[test]
fn shift_by_alphabet_length_is_identity() {
    let alphabet = default_alphabet_string();
    assert_eq!(alphabet.chars().count(), 58);
    let text = "Hello, World! æøå";
    assert_eq!(caesar_cipher(text, 58, false, alphabet.as_str()), text);
    assert_eq!(caesar_cipher(text, 58, true, alphabet.as_str()), text);
    assert_eq!(caesar_cipher("ABC", 3, false, "ABC"), "ABC");
}

#[test]
fn empty_text() {
    assert_eq!(caesar_cipher("", 5, false, "ABC"), "");
}

#[test]
fn empty_alphabet_is_identity() {
    assert_eq!(caesar_cipher("abc", 5, false, ""), "abc");
}

#[test]
fn extreme_shift_encrypt() {
    // i32::MIN is 1 modulo 3 under Euclidean reduction.
    assert_eq!(caesar_cipher("A", i32::MIN, false, "ABC"), "B");
}

#[test]
fn extreme_shift_decrypt() {
    // Decryption negates i32::MIN, which only a wider type can hold.
    assert_eq!(caesar_cipher("A", i32::MIN, true, "ABC"), "C");
}

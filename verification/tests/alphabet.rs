use caesar_cipher::alphabet::{default_alphabet_string, get_alphabet, resolve_alphabet};

const LATIN: &str = "ABCDEFGHIJKLMNOPQRSTUVWXYZabcdefghijklmnopqrstuvwxyz";
const CYRILLIC: &str = "АБВГДЕЁЖЗИЙКЛМНОПРСТУФХЦЧШЩЪЫЬЭЮЯабвгдеёжзийклмнопрстуфхцчшщъыьэюя";
const GERMAN: &str = "ABCDEFGHIJKLMNOPQRSTUVWXYZÄÖÜabcdefghijklmnopqrstuvwxyzäöüß";
const DEFAULT: &str = "ABCDEFGHIJKLMNOPQRSTUVWXYZÆØÅabcdefghijklmnopqrstuvwxyzæøå";

#[test]
fn default_alphabet_value() {
    assert_eq!(default_alphabet_string(), DEFAULT);
}

#[test]
fn english_code() {
    assert_eq!(get_alphabet(&String::from("eng")), LATIN);
}

#[test]
fn russian_code() {
    assert_eq!(get_alphabet(&String::from("rus")), CYRILLIC);
}

#[test]
fn german_code() {
    assert_eq!(get_alphabet(&String::from("deu")), GERMAN);
}

#[test]
fn unknown_code_falls_back_to_default() {
    assert_eq!(get_alphabet(&String::from("spa")), DEFAULT);
    assert_eq!(get_alphabet(&String::from("")), DEFAULT);
}

#[test]
fn resolve_explicit_code() {
    let code = String::from("rus");
    assert_eq!(resolve_alphabet(Some(&code), false, "какой-то текст"), CYRILLIC);
}

#[test]
fn resolve_without_code_or_detection() {
    assert_eq!(resolve_alphabet(None, false, "some text"), DEFAULT);
}

#[test]
fn resolve_by_detection_of_english() {
    let text = "The quick brown fox jumps over the lazy dog. \
                There is no reason not to read a whole paragraph of plain \
                English prose before deciding which language it is written in.";
    assert_eq!(resolve_alphabet(None, true, text), LATIN);
}

#[test]
fn resolve_by_detection_of_russian() {
    let text = "Съешь же ещё этих мягких французских булок, да выпей чаю. \
                Широкая электрификация южных губерний даст мощный толчок \
                подъёму сельского хозяйства.";
    assert_eq!(resolve_alphabet(None, true, text), CYRILLIC);
}

#[test]
fn detection_of_nothing_falls_back_to_default() {
    assert_eq!(resolve_alphabet(None, true, ""), DEFAULT);
}

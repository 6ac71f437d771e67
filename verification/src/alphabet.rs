//! Alphabets and their resolution from a language code or from detection.
//!
//! An alphabet is an ordered sequence of distinct characters; a character's
//! position in it is its index in the cipher's cyclic space.  Three built-in
//! alphabets are keyed by ISO 639-3 codes, and a Norwegian/Danish superset of
//! the Latin letters serves as the default for every other code.

use vstd::prelude::*;
use crate::text::str_eq;

verus! {

/// The default alphabet: the basic Latin letters followed by the
/// Norwegian/Danish letters, upper-case run first, then lower-case.
pub open spec fn default_alphabet() -> Seq<char> {
    "ABCDEFGHIJKLMNOPQRSTUVWXYZÆØÅabcdefghijklmnopqrstuvwxyzæøå"@
}

/// The built-in alphabet for a language code: English, Russian and German
/// have alphabets of their own; every other code falls back to the default.
pub open spec fn alphabet_for(code: Seq<char>) -> Seq<char> {
    if code == "eng"@ {
        "ABCDEFGHIJKLMNOPQRSTUVWXYZabcdefghijklmnopqrstuvwxyz"@
    } else if code == "rus"@ {
        "АБВГДЕЁЖЗИЙКЛМНОПРСТУФХЦЧШЩЪЫЬЭЮЯабвгдеёжзийклмнопрстуфхцчшщъыьэюя"@
    } else if code == "deu"@ {
        "ABCDEFGHIJKLMNOPQRSTUVWXYZÄÖÜabcdefghijklmnopqrstuvwxyzäöüß"@
    } else {
        default_alphabet()
    }
}

/// What language detection returns for a given text: the detected language's
/// ISO 639-3 code and whether the classifier trusts the result, or nothing
/// when no language can be told at all.
pub uninterp spec fn detection_of(text: Seq<char>) -> Option<(Seq<char>, bool)>;

/// The alphabet a run uses.  When detection is requested, a reliably
/// detected language picks its alphabet and anything else falls back to the
/// default; otherwise an explicit code, if present, picks the alphabet, and
/// the default serves when there is none.
pub open spec fn resolved_alphabet(
    code: Option<Seq<char>>,
    detect_requested: bool,
    text: Seq<char>,
) -> Seq<char> {
    if detect_requested {
        match detection_of(text) {
            Some(found) => if found.1 {
                alphabet_for(found.0)
            } else {
                default_alphabet()
            },
            None => default_alphabet(),
        }
    } else {
        match code {
            Some(c) => alphabet_for(c),
            None => default_alphabet(),
        }
    }
}

/// The sequence of characters an `Option<&String>` argument stands for.
pub open spec fn code_view(code: Option<&String>) -> Option<Seq<char>> {
    match code {
        Some(c) => Some(c@),
        None => None,
    }
}

/// The default alphabet as an owned string.
pub fn default_alphabet_string() -> (r: String)
    ensures
        r@ == default_alphabet(),
{
    String::from_str("ABCDEFGHIJKLMNOPQRSTUVWXYZÆØÅabcdefghijklmnopqrstuvwxyzæøå")
}

/// Look a language code up in the built-in table; an unrecognized code
/// falls back to the default alphabet.
pub fn get_alphabet(input: &String) -> (r: String)
    ensures
        r@ == alphabet_for(input@),
{
    if str_eq(input.as_str(), "eng") {
        String::from_str("ABCDEFGHIJKLMNOPQRSTUVWXYZabcdefghijklmnopqrstuvwxyz")
    } else if str_eq(input.as_str(), "rus") {
        String::from_str("АБВГДЕЁЖЗИЙКЛМНОПРСТУФХЦЧШЩЪЫЬЭЮЯабвгдеёжзийклмнопрстуфхцчшщъыьэюя")
    } else if str_eq(input.as_str(), "deu") {
        String::from_str("ABCDEFGHIJKLMNOPQRSTUVWXYZÄÖÜabcdefghijklmnopqrstuvwxyzäöüß")
    } else {
        default_alphabet_string()
    }
}

/// Relies on `whatlang::detect`: a statistical trigram classifier bundled
/// with that crate, whose result is a function of the text alone; on
/// `whatlang::Info::is_reliable`, the classifier's own confidence verdict;
/// and on `whatlang::Lang::code`, the detected language's ISO 639-3 code.
#[verifier::external_body]
fn detect_language(text: &str) -> (r: Option<(String, bool)>)
    ensures
        (match r {
            Some(found) => detection_of(text@) == Some((found.0@, found.1)),
            None => detection_of(text@) is None,
        }),
{
    whatlang::detect(text).map(|info| (String::from(info.lang().code()), info.is_reliable()))
}

/// Resolve the alphabet for a run: from detection over the text when
/// requested, else from the explicit code when one is given, else the
/// default.
pub fn resolve_alphabet(code: Option<&String>, detect_requested: bool, text: &str) -> (r: String)
    ensures
        r@ == resolved_alphabet(code_view(code), detect_requested, text@),
{
    if detect_requested {
        match detect_language(text) {
            Some(found) => {
                if found.1 {
                    get_alphabet(&found.0)
                } else {
                    default_alphabet_string()
                }
            },
            None => default_alphabet_string(),
        }
    } else {
        match code {
            Some(c) => get_alphabet(c),
            None => default_alphabet_string(),
        }
    }
}

} // verus!

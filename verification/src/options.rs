//! Validity of a run's option combination.
//!
//! An explicit alphabet code and language detection are mutually exclusive.
//! Detection is also, by deliberate choice, only offered for enciphering:
//! guessing a ciphertext's language is pointless, so the detection flag
//! excludes the decrypt flag as well.

use vstd::prelude::*;

verus! {

/// Whether a combination of the three option flags is contradictory:
/// an explicit alphabet code together with detection, or detection
/// together with decryption.
pub open spec fn conflicting_options_spec(
    has_alphabet_code: bool,
    detect_requested: bool,
    decrypt: bool,
) -> bool {
    (has_alphabet_code && detect_requested) || (detect_requested && decrypt)
}

/// Decide whether the option flags conflict; a run must refuse such a
/// combination before reading any input.
pub fn conflicting_options(has_alphabet_code: bool, detect_requested: bool, decrypt: bool) -> (r:
    bool)
    ensures
        r == conflicting_options_spec(has_alphabet_code, detect_requested, decrypt),
{
    (has_alphabet_code && detect_requested) || (detect_requested && decrypt)
}

} // verus!

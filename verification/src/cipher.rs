//! The shift transform: rotate each character's position within an alphabet.

use vstd::prelude::*;
use crate::text::{chars_of, chars_to_string};
use vstd::arithmetic::div_mod::{
    lemma_add_mod_noop_right,
    lemma_fundamental_div_mod,
    lemma_fundamental_div_mod_converse,
    lemma_mod_bound,
    lemma_small_mod,
};

verus! {

/// Index of the first occurrence of `c` in `a`, or -1 when `c` does not occur.
pub open spec fn char_index(a: Seq<char>, c: char) -> int
    decreases a.len(),
{
    if a.len() == 0 {
        -1
    } else if a[0] == c {
        0
    } else if char_index(a.drop_first(), c) == -1 {
        -1
    } else {
        1 + char_index(a.drop_first(), c)
    }
}

/// The effective shift: decryption shifts in the opposite direction.
pub open spec fn effective_shift(shift: int, decrypt: bool) -> int {
    if decrypt {
        -shift
    } else {
        shift
    }
}

/// One character of the transform: a character found in the alphabet moves
/// `sh` positions along it, wrapping cyclically (Euclidean modulo); any other
/// character is left unchanged.
pub open spec fn shift_char(a: Seq<char>, sh: int, c: char) -> char {
    let p = char_index(a, c);
    if p >= 0 {
        a[(p + sh) % (a.len() as int)]
    } else {
        c
    }
}

/// The whole transform: apply `shift_char` to every character of `text`,
/// preserving order and length.
pub open spec fn transform(text: Seq<char>, shift: int, decrypt: bool, a: Seq<char>) -> Seq<char> {
    text.map_values(|c: char| shift_char(a, effective_shift(shift, decrypt), c))
}

/// `char_index` is -1 exactly when the character is absent; otherwise it is
/// the position of the first occurrence.
pub proof fn lemma_char_index(a: Seq<char>, c: char)
    ensures
        char_index(a, c) >= -1,
        char_index(a, c) == -1 <==> !a.contains(c),
        char_index(a, c) >= 0 ==> {
            &&& char_index(a, c) < a.len()
            &&& a[char_index(a, c)] == c
            &&& forall|j: int| 0 <= j < char_index(a, c) ==> a[j] != c
        },
    decreases a.len(),
{
    if a.len() == 0 {
    } else if a[0] == c {
        assert(a.contains(c));
    } else {
        lemma_char_index(a.drop_first(), c);
        let t = a.drop_first();
        if char_index(t, c) == -1 {
            assert(!t.contains(c));
            assert forall|i: int| 0 <= i < a.len() implies a[i] != c by {
                if i > 0 && a[i] == c {
                    assert(t[i - 1] == c);
                    assert(t.contains(c));
                }
            }
            assert(!a.contains(c));
        } else {
            let p = char_index(t, c);
            assert(a[1 + p] == t[p]);
            assert(a.contains(c)) by {
                assert(a[1 + p] == c);
            }
            assert forall|j: int| 0 <= j < 1 + p implies a[j] != c by {
                if j > 0 {
                    assert(a[j] == t[j - 1]);
                }
            }
        }
    }
}

/// A character that occurs at `i`, and nowhere before `i`, has `char_index` `i`.
pub proof fn lemma_char_index_at(a: Seq<char>, c: char, i: int)
    requires
        0 <= i < a.len(),
        a[i] == c,
        forall|j: int| 0 <= j < i ==> a[j] != c,
    ensures
        char_index(a, c) == i,
    decreases a.len(),
{
    if i == 0 {
    } else {
        let t = a.drop_first();
        assert forall|j: int| 0 <= j < i - 1 implies t[j] != c by {
            assert(t[j] == a[j + 1]);
        }
        assert(t[i - 1] == a[i]);
        lemma_char_index_at(t, c, i - 1);
    }
}

/// In an alphabet without duplicate characters, the character at position `i`
/// has `char_index` exactly `i`.
pub proof fn lemma_char_index_of_own(a: Seq<char>, i: int)
    requires
        a.no_duplicates(),
        0 <= i < a.len(),
    ensures
        char_index(a, a[i]) == i,
{
    lemma_char_index_at(a, a[i], i);
}

/// A character that does not occur in the alphabet is left unchanged by the
/// transform, whatever the shift and direction.
pub proof fn lemma_absent_char_unchanged(
    text: Seq<char>,
    shift: int,
    decrypt: bool,
    a: Seq<char>,
    i: int,
)
    requires
        0 <= i < text.len(),
        !a.contains(text[i]),
    ensures
        transform(text, shift, decrypt, a)[i] == text[i],
{
    lemma_char_index(a, text[i]);
}

/// Shifting by the alphabet's own length, in either direction, is the
/// identity transform.
pub proof fn lemma_shift_by_length_is_identity(text: Seq<char>, decrypt: bool, a: Seq<char>)
    ensures
        transform(text, a.len() as int, decrypt, a) == text,
{
    let n = a.len() as int;
    let es = effective_shift(n, decrypt);
    let res = transform(text, n, decrypt, a);
    assert forall|i: int| 0 <= i < text.len() implies res[i] == text[i] by {
        let c = text[i];
        lemma_char_index(a, c);
        let p = char_index(a, c);
        if p >= 0 {
            if decrypt {
                lemma_fundamental_div_mod_converse(p - n, n, -1, p);
            } else {
                lemma_fundamental_div_mod_converse(p + n, n, 1, p);
            }
            assert((p + es) % n == p);
        }
    }
    assert(res =~= text);
}

/// Enciphering and then deciphering with the same shift and the same
/// alphabet gives the original text back, provided the alphabet has no
/// duplicate characters.
pub proof fn lemma_encrypt_then_decrypt(text: Seq<char>, shift: int, a: Seq<char>)
    requires
        a.no_duplicates(),
    ensures
        transform(transform(text, shift, false, a), shift, true, a) == text,
{
    let n = a.len() as int;
    let enc = transform(text, shift, false, a);
    let dec = transform(enc, shift, true, a);
    assert forall|i: int| 0 <= i < text.len() implies dec[i] == text[i] by {
        let c = text[i];
        lemma_char_index(a, c);
        let p = char_index(a, c);
        if p >= 0 {
            lemma_mod_bound(p + shift, n);
            let q = (p + shift) % n;
            assert(enc[i] == a[q]);
            lemma_char_index_of_own(a, q);
            assert(dec[i] == a[(q + (-shift)) % n]);
            lemma_add_mod_noop_right(-shift, p + shift, n);
            assert((q + (-shift)) % n == p % n);
            lemma_small_mod(p as nat, n as nat);
            assert(dec[i] == a[p]);
        } else {
            assert(enc[i] == c);
        }
    }
    assert(dec =~= text);
}

/// Position of the first occurrence of `c` in `a`, if any.
fn find_char(a: &Vec<char>, c: char) -> (r: Option<usize>)
    ensures
        (match r {
            Some(p) => p < a@.len() && char_index(a@, c) == p,
            None => char_index(a@, c) == -1,
        }),
{
    let mut i: usize = 0;
    while i < a.len()
        invariant
            i <= a@.len(),
            forall|j: int| 0 <= j < i ==> a@[j] != c,
        decreases a@.len() - i,
    {
        if a[i] == c {
            proof {
                lemma_char_index_at(a@, c, i as int);
            }
            return Some(i);
        }
        i = i + 1;
    }
    proof {
        lemma_char_index(a@, c);
        assert(!a@.contains(c));
    }
    None
}

/// Reduce the effective shift to the equivalent offset in `[0, n)`,
/// where `n` is the alphabet's length.
fn normalize_shift(shift: i32, decrypt: bool, n: usize) -> (r: usize)
    requires
        n >= 1,
    ensures
        r < n,
        r as int == effective_shift(shift as int, decrypt) % (n as int),
{
    let s: i64 = if decrypt {
        -(shift as i64)
    } else {
        shift as i64
    };
    let n64: u64 = n as u64;
    if s >= 0 {
        let m: u64 = (s as u64) % n64;
        proof {
            lemma_mod_bound(s as int, n as int);
        }
        m as usize
    } else {
        let mag: u64 = (-s) as u64;
        let m: u64 = mag % n64;
        proof {
            lemma_mod_bound(mag as int, n as int);
            lemma_fundamental_div_mod(mag as int, n as int);
            let q = (mag as int) / (n as int);
            if m == 0 {
                assert(s as int == (-q) * (n as int) + 0) by (nonlinear_arith)
                    requires
                        mag as int == q * (n as int) + m,
                        m == 0,
                        s as int == -(mag as int),
                ;
                lemma_fundamental_div_mod_converse(s as int, n as int, -q, 0);
            } else {
                assert(s as int == (-q - 1) * (n as int) + ((n as int) - m)) by (nonlinear_arith)
                    requires
                        mag as int == q * (n as int) + m,
                        s as int == -(mag as int),
                ;
                lemma_fundamental_div_mod_converse(s as int, n as int, -q - 1, (n as int) - m);
            }
        }
        if m == 0 {
            0
        } else {
            (n64 - m) as usize
        }
    }
}

/// The shift transform on whole strings: each character found in `alphabet`
/// moves `shift` positions along it (backwards when `decrypt` is set),
/// wrapping cyclically; every other character is copied unchanged.  The
/// output has exactly one character per character of `text`.
pub fn caesar_cipher(text: &str, shift: i32, decrypt: bool, alphabet: &str) -> (r: String)
    ensures
        r@ == transform(text@, shift as int, decrypt, alphabet@),
        r@.len() == text@.len(),
{
    let ghost es: int = effective_shift(shift as int, decrypt);
    let a: Vec<char> = chars_of(alphabet);
    let t: Vec<char> = chars_of(text);
    let n: usize = a.len();
    let eff: usize = if n == 0 {
        0
    } else {
        normalize_shift(shift, decrypt, n)
    };
    let mut out: Vec<char> = Vec::new();
    let mut i: usize = 0;
    while i < t.len()
        invariant
            a@ == alphabet@,
            t@ == text@,
            n == a@.len(),
            n >= 1 ==> eff < n && eff as int == es % (n as int),
            i <= t@.len(),
            out@.len() == i,
            forall|j: int| 0 <= j < i ==> out@[j] == shift_char(alphabet@, es, text@[j]),
        decreases t@.len() - i,
    {
        let c: char = t[i];
        match find_char(&a, c) {
            Some(p) => {
                let d: usize = n - eff;
                let newp: usize = if p >= d {
                    p - d
                } else {
                    p + eff
                };
                proof {
                    if p >= d {
                        lemma_fundamental_div_mod_converse(
                            p + eff,
                            n as int,
                            1,
                            p + eff - n,
                        );
                    } else {
                        lemma_small_mod((p + eff) as nat, n as nat);
                    }
                    lemma_add_mod_noop_right(p as int, es, n as int);
                    assert(newp as int == (p + es) % (n as int));
                }
                out.push(a[newp]);
            },
            None => {
                out.push(c);
            },
        }
        i = i + 1;
    }
    proof {
        assert(out@ =~= transform(text@, shift as int, decrypt, alphabet@));
    }
    chars_to_string(&out)
}

} // verus!

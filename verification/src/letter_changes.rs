//! Per-character letter shifting: every ASCII letter moves to the next letter
//! of the alphabet (`z` and `Z` wrap around to `a` and `A`), and lowercase
//! vowels of the shifted text are capitalized. Every other character passes
//! through unchanged.

use vstd::prelude::*;

use crate::text::push_char;

verus! {

/// The successor of an ASCII letter, with `z`/`Z` wrapping to `a`/`A`;
/// any character that is not an ASCII letter is left as it is.
pub open spec fn spec_increment_letter(c: char) -> char {
    if c == 'z' {
        'a'
    } else if c == 'Z' {
        'A'
    } else if ('a' <= c && c <= 'y') || ('A' <= c && c <= 'Y') {
        ((c as u8) + 1) as char
    } else {
        c
    }
}

/// A lowercase English vowel becomes its uppercase form; anything else is kept.
pub open spec fn spec_vowel_to_uppercase(c: char) -> char {
    if c == 'a' {
        'A'
    } else if c == 'e' {
        'E'
    } else if c == 'i' {
        'I'
    } else if c == 'o' {
        'O'
    } else if c == 'u' {
        'U'
    } else {
        c
    }
}

/// What `letter_changes` does to a single character.
pub open spec fn spec_letter_change(c: char) -> char {
    spec_vowel_to_uppercase(spec_increment_letter(c))
}

/// Increment an ASCII letter to the next letter, e.g. 'a' to 'b'.
/// Wraps around 'z'/'Z' to 'a'/'A'; other characters are returned unchanged.
pub fn increment_ascii_alphabetic(c: char) -> (r: char)
    ensures
        r == spec_increment_letter(c),
{
    if c == 'z' {
        'a'
    } else if c == 'Z' {
        'A'
    } else if (c >= 'a' && c <= 'y') || (c >= 'A' && c <= 'Y') {
        ((c as u8) + 1) as char
    } else {
        c
    }
}

/// Turns lowercase English vowels to uppercase; other characters are kept.
pub fn ascii_vowel_to_uppercase(c: char) -> (r: char)
    ensures
        r == spec_vowel_to_uppercase(c),
{
    if c == 'a' {
        'A'
    } else if c == 'e' {
        'E'
    } else if c == 'i' {
        'I'
    } else if c == 'o' {
        'O'
    } else if c == 'u' {
        'U'
    } else {
        c
    }
}

/// Shifts every letter of the input to the next letter of the alphabet
/// (wrapping 'z'/'Z') and capitalizes the vowels of the shifted text.
pub fn letter_changes(s: &str) -> (r: String)
    ensures
        r@.len() == s@.len(),
        forall|i: int| 0 <= i < s@.len() ==> r@[i] == spec_letter_change(s@[i]),
{
    let n = s.unicode_len();
    let mut out = String::new();
    let mut i: usize = 0;
    while i < n
        invariant
            n == s@.len(),
            i <= n,
            out@.len() == i,
            forall|k: int| 0 <= k < i ==> out@[k] == spec_letter_change(s@[k]),
        decreases n - i,
    {
        let c = s.get_char(i);
        push_char(&mut out, ascii_vowel_to_uppercase(increment_ascii_alphabetic(c)));
        i = i + 1;
    }
    out
}

} // verus!

//! Shared lexical helpers: byte classes and run lengths used by the
//! recognizers.

use vstd::prelude::*;

verus! {

/// An ASCII letter, the only characters allowed in command and
/// environment names.
pub open spec fn is_letter(b: u8) -> bool {
    ||| ('a' as u8 <= b && b <= 'z' as u8)
    ||| ('A' as u8 <= b && b <= 'Z' as u8)
}

/// The number of consecutive letters in `s` starting at `i`, looking no
/// further than `end`.
pub open spec fn letter_run_len(s: Seq<u8>, i: int, end: int) -> nat
    decreases end - i,
{
    if i < end && is_letter(s[i]) {
        1 + letter_run_len(s, i + 1, end)
    } else {
        0
    }
}

/// Exec mirror of [`is_letter`].
pub fn letter_byte(b: u8) -> (r: bool)
    ensures
        r == is_letter(b),
{
    (('a' as u8) <= b && b <= ('z' as u8)) || (('A' as u8) <= b && b <= ('Z' as u8))
}

} // verus!

//! Contracts for the two functions of `String` that the encoder builds its
//! output with and that come without one. Verus takes them on trust.

use vstd::prelude::*;

verus! {

/// `String::with_capacity`: the new string is empty, whatever room was asked
/// for. More room than `isize::MAX` bytes cannot be had.
pub assume_specification[ String::with_capacity ](capacity: usize) -> (s: String)
    requires
        capacity <= isize::MAX,
    ensures
        s@ == Seq::<char>::empty(),
;

/// `String::push`: the character is appended and the rest of the string is
/// left as it was. A character takes at most four bytes, and the string
/// must stay within `isize::MAX` bytes.
pub assume_specification[ String::push ](s: &mut String, ch: char)
    requires
        4 * old(s)@.len() + 4 <= isize::MAX,
    ensures
        final(s)@ == old(s)@.push(ch),
;

} // verus!

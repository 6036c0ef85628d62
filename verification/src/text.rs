//! The operations of `str` and `String` that the library adds to those that vstd specifies.

use vstd::prelude::*;

verus! {

/// `==` on string slices (`str::eq`): true exactly when both hold the same characters.
pub assume_specification[ <str as PartialEq<str>>::eq ](a: &str, b: &str) -> (r: bool)
    ensures
        r == (a@ == b@),
;

/// `String::push`: appends one character.
pub assume_specification[ String::push ](s: &mut String, c: char)
    ensures
        final(s)@ == old(s)@.push(c),
;

} // verus!

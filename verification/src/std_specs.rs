//! What this library assumes of the standard library where vstd says
//! nothing. Nothing here is proved: each item states what the
//! documentation of the function promises, and the proofs elsewhere rest on
//! it.

use vstd::prelude::*;

verus! {

/// Whether `c` is alphabetic or numeric in the sense of Unicode: the answer
/// of `char::is_alphanumeric`. It depends on the character alone. Which
/// characters these are is left to the standard library's tables.
pub uninterp spec fn alphanumeric(c: char) -> bool;

/// Whether `c` has the Unicode property `White_Space`: the answer of
/// `char::is_whitespace`. It depends on the character alone. Which
/// characters these are is left to the standard library's tables.
pub uninterp spec fn whitespace(c: char) -> bool;

/// `char::is_alphanumeric` answers [`alphanumeric`]. Nothing is claimed of
/// any given character.
pub assume_specification[ char::is_alphanumeric ](c: char) -> (answer: bool)
    ensures
        answer == alphanumeric(c),
;

/// `char::is_whitespace` answers [`whitespace`]. Nothing is claimed of any
/// given character.
pub assume_specification[ char::is_whitespace ](c: char) -> (answer: bool)
    ensures
        answer == whitespace(c),
;

/// `String::push` appends the character to the end of the string and
/// leaves the rest as it was.
pub assume_specification[ String::push ](s: &mut String, c: char)
    ensures
        final(s)@ == old(s)@.push(c),
;

} // verus!

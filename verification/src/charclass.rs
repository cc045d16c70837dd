//! The classes of characters that the tokenizer tells apart.

use vstd::prelude::*;
use crate::std_specs::{alphanumeric, whitespace};

verus! {

/// What the tokenizer does with a character.
#[derive(Clone, Copy, Debug, PartialEq, Eq, Structural)]
pub enum CharClass {
    /// Part of a word: alphanumeric and not whitespace.
    Word,
    /// A separator between words: whitespace.
    Space,
    /// Dropped without separating anything: all the rest, punctuation
    /// among it.
    Other,
}

/// The class of a character. Whitespace separates, even if it should be
/// alphanumeric too.
pub open spec fn class_of(c: char) -> CharClass {
    if whitespace(c) {
        CharClass::Space
    } else if alphanumeric(c) {
        CharClass::Word
    } else {
        CharClass::Other
    }
}

/// Classifies one character.
pub fn classify(c: char) -> (class: CharClass)
    ensures
        class == class_of(c),
{
    if c.is_whitespace() {
        CharClass::Space
    } else if c.is_alphanumeric() {
        CharClass::Word
    } else {
        CharClass::Other
    }
}

} // verus!

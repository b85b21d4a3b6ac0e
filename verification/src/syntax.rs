//! The word-constituent classifier.
//!
//! The host editing environment supplies, per buffer, a predicate that says
//! which characters belong to words.  The word-motion caser treats it as
//! opaque: everything it promises is stated over the classifier's spec
//! predicate, whatever that predicate is.  `AlnumSyntax` is the default
//! classifier, the same alphanumeric test the object caser uses on bare
//! strings.

use vstd::prelude::*;

use crate::chars::alphanumeric;
use crate::chars::is_word_char;

verus! {

/// A syntax classifier: decides, character by character, what counts as a
/// word constituent.
pub trait Syntax {
    /// What the classifier holds word-constituent.
    spec fn word_spec(c: char) -> bool;

    /// The executable test, faithful to the spec predicate.
    fn is_word(c: char) -> (r: bool)
        ensures
            r == Self::word_spec(c),
    ;
}

/// The default classifier: a character is word-constituent exactly when it
/// is alphanumeric.
pub struct AlnumSyntax;

impl Syntax for AlnumSyntax {
    open spec fn word_spec(c: char) -> bool {
        alphanumeric(c)
    }

    fn is_word(c: char) -> (r: bool) {
        is_word_char(c)
    }
}

} // verus!

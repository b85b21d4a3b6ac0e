//! Case transformation for characters, strings, and words in a text buffer.
//!
//! The library has two layers.  The object caser turns a single character or
//! a whole string into its upcased, downcased, capitalized, or
//! initials-only-capitalized form, with a policy that keeps every
//! transformation one character to one character: a character whose Unicode
//! case mapping would expand into several code points is left unchanged.
//! The word-motion caser applies the same per-character policy to a run of
//! words inside a mutable text buffer, scanning forward or backward from the
//! buffer's point by a signed repeat count and updating the point as the
//! motion demands.

pub mod action;
pub mod buffer;
pub mod chars;
pub mod object;
pub mod syntax;

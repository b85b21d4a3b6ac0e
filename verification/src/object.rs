//! The object caser: case a standalone character or string.
//!
//! `apply` is pure and total: it never mutates its argument, always returns a
//! value of the same variant, and never changes how many characters the value
//! has.  A bare string carries no syntax table, so the default alphanumeric
//! test decides where its words begin.

use vstd::prelude::*;
use vstd::string::StrSliceExecFns;

use crate::action::CaseAction;
use crate::action::case_char;
use crate::action::cased_char;
use crate::action::cased_char_fixed;
use crate::action::cased_in_word;
use crate::chars::alphanumeric;
use crate::chars::is_word_char;

verus! {

/// A value the object caser works on: a single character or a string.
#[derive(Debug, PartialEq, Eq)]
pub enum Casable {
    Ch(char),
    Str(String),
}

/// Whether string position `i` is in word-start state: at the very beginning,
/// or just after a character that is not word-constituent.
pub open spec fn word_start_state(s: Seq<char>, i: int) -> bool {
    i <= 0 || !alphanumeric(s[i - 1])
}

/// Whether the character at string position `i` is cased as a word initial:
/// it is word-constituent and stands in word-start state.
pub open spec fn initial_at(s: Seq<char>, i: int) -> bool {
    word_start_state(s, i) && alphanumeric(s[i])
}

/// A whole string cased under an action: the same length, each character
/// transformed according to whether it is the initial of its word.
pub open spec fn cased_seq(action: CaseAction, s: Seq<char>) -> Seq<char> {
    Seq::new(s.len(), |i: int| cased_in_word(action, s[i], initial_at(s, i)))
}

/// Casing never changes the length of a string.
pub proof fn lemma_cased_seq_length(action: CaseAction, s: Seq<char>)
    ensures
        cased_seq(action, s).len() == s.len(),
{
}

/// How the result of `apply` relates to its argument: a character becomes
/// its cased form, a string becomes the string of its cased characters, and
/// the variant is kept.
pub open spec fn applies_to(action: CaseAction, object: Casable, r: Casable) -> bool {
    match object {
        Casable::Ch(c) => r == Casable::Ch(cased_char(action, c)),
        Casable::Str(s) => match r {
            Casable::Str(t) => t@ == cased_seq(action, s@),
            _ => false,
        },
    }
}

/// Case a sequence of characters, element by element.  For the plain upcase
/// and downcase actions the result is a fixed point: casing it again under
/// the same action changes nothing.
pub fn case_chars(action: CaseAction, v: &Vec<char>) -> (r: Vec<char>)
    ensures
        r@ == cased_seq(action, v@),
        r@.len() == v@.len(),
        action == CaseAction::Upcase || action == CaseAction::Downcase ==> cased_seq(
            action,
            r@,
        ) == r@,
{
    let mut r: Vec<char> = Vec::new();
    let mut i: usize = 0;
    while i < v.len()
        invariant
            i <= v.len(),
            r@.len() == i,
            forall|j: int| 0 <= j < i ==> r@[j] == cased_in_word(action, v@[j], initial_at(v@, j)),
            forall|j: int| 0 <= j < i ==> cased_char_fixed(action, #[trigger] r@[j]),
        decreases v.len() - i,
    {
        let at_start: bool = if i == 0 {
            true
        } else {
            !is_word_char(v[i - 1])
        };
        let initial = at_start && is_word_char(v[i]);
        let c = case_char(action, v[i], initial);
        r.push(c);
        i += 1;
    }
    proof {
        assert(r@ =~= cased_seq(action, v@));
        if action == CaseAction::Upcase || action == CaseAction::Downcase {
            assert forall|j: int| 0 <= j < r@.len() implies cased_seq(action, r@)[j] == r@[j] by {
                assert(cased_char_fixed(action, r@[j]));
            }
            assert(cased_seq(action, r@) =~= r@);
        }
    }
    r
}

/// Read a string out into its characters.
fn string_to_chars(s: &str) -> (r: Vec<char>)
    ensures
        r@ == s@,
{
    let n = s.unicode_len();
    let mut r: Vec<char> = Vec::new();
    let mut i: usize = 0;
    while i < n
        invariant
            i <= n,
            n == s@.len(),
            r@ == s@.subrange(0, i as int),
        decreases n - i,
    {
        r.push(s.get_char(i));
        i += 1;
        proof {
            assert(r@ =~= s@.subrange(0, i as int));
        }
    }
    proof {
        assert(r@ =~= s@);
    }
    r
}

/// Relies on String's `FromIterator` (`collect`): collecting characters
/// builds the string of exactly those characters in order.
#[verifier::external_body]
fn chars_to_string(v: &Vec<char>) -> (r: String)
    ensures
        r@ == v@,
{
    v.iter().collect()
}

/// The object caser: case a character or string under an action.  The
/// argument is untouched, the result a fresh value of the same variant.  For
/// the plain upcase and downcase actions the result is a fixed point:
/// applying the same action to it once more gives it back unchanged.
pub fn apply(action: CaseAction, object: &Casable) -> (r: Casable)
    ensures
        applies_to(action, *object, r),
        action == CaseAction::Upcase || action == CaseAction::Downcase ==> applies_to(
            action,
            r,
            r,
        ),
{
    match object {
        Casable::Ch(c) => Casable::Ch(case_char(action, *c, true)),
        Casable::Str(s) => {
            let v = string_to_chars(s.as_str());
            let w = case_chars(action, &v);
            Casable::Str(chars_to_string(&w))
        },
    }
}

/// Convert the argument to upper case.  The result is stable: upcasing it
/// again changes nothing.
pub fn upcase(object: &Casable) -> (r: Casable)
    ensures
        applies_to(CaseAction::Upcase, *object, r),
        applies_to(CaseAction::Upcase, r, r),
{
    apply(CaseAction::Upcase, object)
}

/// Convert the argument to lower case.  The result is stable: downcasing it
/// again changes nothing.
pub fn downcase(object: &Casable) -> (r: Casable)
    ensures
        applies_to(CaseAction::Downcase, *object, r),
        applies_to(CaseAction::Downcase, r, r),
{
    apply(CaseAction::Downcase, object)
}

/// Convert the argument to capitalized form: each word's first character
/// upcased, the rest of the word downcased.
pub fn capitalize(object: &Casable) -> (r: Casable)
    ensures
        applies_to(CaseAction::Capitalize, *object, r),
{
    apply(CaseAction::Capitalize, object)
}

/// Convert only the initial of each word to upper case, leaving every other
/// character as it stands.
pub fn upcase_initials(object: &Casable) -> (r: Casable)
    ensures
        applies_to(CaseAction::CapitalizeInitialsOnly, *object, r),
{
    apply(CaseAction::CapitalizeInitialsOnly, object)
}

} // verus!

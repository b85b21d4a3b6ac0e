//! The four case actions and the per-character transform each one selects.

use vstd::prelude::*;

use crate::chars::capitalized;
use crate::chars::downcase_char;
use crate::chars::downcased;
use crate::chars::lower_map;
use crate::chars::upcase_char;
use crate::chars::upcased;
use crate::chars::upper_map;

verus! {

/// The closed set of case transformations.
#[derive(Clone, Copy, Debug, PartialEq, Eq, Structural)]
pub enum CaseAction {
    Upcase,
    Downcase,
    Capitalize,
    CapitalizeInitialsOnly,
}

/// The transform an action applies to one character, given whether that
/// character stands as the initial of its word.
pub open spec fn cased_in_word(action: CaseAction, c: char, initial: bool) -> char {
    match action {
        CaseAction::Upcase => upcased(c),
        CaseAction::Downcase => downcased(c),
        CaseAction::Capitalize => if initial {
            capitalized(c)
        } else {
            downcased(c)
        },
        CaseAction::CapitalizeInitialsOnly => if initial {
            capitalized(c)
        } else {
            c
        },
    }
}

/// A single character cased as a standalone object: it counts as an initial,
/// so capitalization touches it.
pub open spec fn cased_char(action: CaseAction, c: char) -> char {
    cased_in_word(action, c, true)
}

/// The case mapping an action consults for a standalone character.
pub open spec fn mapping_of(action: CaseAction, c: char) -> Seq<char> {
    match action {
        CaseAction::Downcase => lower_map(c),
        _ => upper_map(c),
    }
}

/// Whether casing a character once more under the action would change
/// nothing.  It holds of everything the plain upcase and downcase transforms
/// return, which is what makes them idempotent.
pub open spec fn cased_char_fixed(action: CaseAction, r: char) -> bool {
    match action {
        CaseAction::Upcase => upcased(r) == r,
        CaseAction::Downcase => downcased(r) == r,
        _ => true,
    }
}

/// A character whose case mapping under the action expands to more than one
/// code point is returned unchanged by the object caser.
pub proof fn lemma_expanding_mapping_identity(action: CaseAction, c: char)
    requires
        mapping_of(action, c).len() > 1,
    ensures
        cased_char(action, c) == c,
{
}

/// Apply the per-character transform of an action.  For the plain upcase and
/// downcase actions the result is a fixed point of that same transform.
pub fn case_char(action: CaseAction, c: char, initial: bool) -> (r: char)
    ensures
        r == cased_in_word(action, c, initial),
        cased_char_fixed(action, r),
{
    match action {
        CaseAction::Upcase => upcase_char(c),
        CaseAction::Downcase => downcase_char(c),
        CaseAction::Capitalize => if initial {
            upcase_char(c)
        } else {
            downcase_char(c)
        },
        CaseAction::CapitalizeInitialsOnly => if initial {
            upcase_char(c)
        } else {
            c
        },
    }
}

} // verus!

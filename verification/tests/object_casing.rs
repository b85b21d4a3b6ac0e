use casefiddle::action::CaseAction;
use casefiddle::object::apply;
use casefiddle::object::capitalize;
use casefiddle::object::downcase;
use casefiddle::object::upcase;
use casefiddle::object::upcase_initials;
use casefiddle::object::Casable;

fn str_obj(s: &str) -> Casable {
    Casable::Str(String::from(s))
}

fn unwrap_str(c: Casable) -> String {
    match c {
        Casable::Str(s) => s,
        Casable::Ch(_) => panic!("expected a string"),
    }
}

fn unwrap_ch(c: Casable) -> char {
    match c {
        Casable::Ch(ch) => ch,
        Casable::Str(_) => panic!("expected a character"),
    }
}

#[test]
fn upcase_string() {
    assert_eq!(unwrap_str(upcase(&str_obj("hello WORLD"))), "HELLO WORLD");
}

#[test]
fn downcase_string() {
    assert_eq!(unwrap_str(downcase(&str_obj("Hello World"))), "hello world");
}

#[test]
fn capitalize_words() {
    assert_eq!(unwrap_str(capitalize(&str_obj("hello WORLD"))), "Hello World");
}

#[test]
fn upcase_initials_only_touches_initials() {
    assert_eq!(unwrap_str(upcase_initials(&str_obj("hello WORLD"))), "Hello WORLD");
}

#[test]
fn upcase_single_char() {
    assert_eq!(unwrap_ch(upcase(&Casable::Ch('a'))), 'A');
    assert_eq!(unwrap_ch(upcase(&Casable::Ch('é'))), 'É');
}

#[test]
fn downcase_single_char() {
    assert_eq!(unwrap_ch(downcase(&Casable::Ch('A'))), 'a');
}

#[test]
fn expanding_mapping_leaves_char_unchanged() {
    // The sharp s and the fi ligature upcase to two code points, so the
    // no-expansion policy returns them unchanged.
    assert_eq!(unwrap_ch(upcase(&Casable::Ch('ß'))), 'ß');
    assert_eq!(unwrap_ch(upcase(&Casable::Ch('ﬁ'))), 'ﬁ');
    assert_eq!(unwrap_ch(capitalize(&Casable::Ch('ﬁ'))), 'ﬁ');
    // The capital I with dot above downcases to two code points.
    assert_eq!(unwrap_ch(downcase(&Casable::Ch('İ'))), 'İ');
}

#[test]
fn expanding_mapping_inside_string() {
    // In a string the policy is applied per character: the sharp s stays.
    assert_eq!(unwrap_str(upcase(&str_obj("straße"))), "STRAßE");
}

#[test]
fn length_preserved_for_every_action() {
    let input = "héllo ß WORLD 123 ﬁt";
    let n = input.chars().count();
    for action in [
        CaseAction::Upcase,
        CaseAction::Downcase,
        CaseAction::Capitalize,
        CaseAction::CapitalizeInitialsOnly,
    ] {
        let out = unwrap_str(apply(action, &str_obj(input)));
        assert_eq!(out.chars().count(), n);
    }
}

#[test]
fn upcase_is_idempotent() {
    let once = upcase(&str_obj("mIxEd ß text ﬁn"));
    let twice = upcase(&once);
    assert_eq!(once, twice);
}

#[test]
fn downcase_is_idempotent() {
    let once = downcase(&str_obj("mIxEd ß TEXT ﬁn"));
    let twice = downcase(&once);
    assert_eq!(once, twice);
}

#[test]
fn upcase_after_downcase_can_differ_from_input() {
    // The Kelvin sign downcases to an ordinary k, which upcases to an
    // ordinary K: a round trip need not restore the original.
    let original = str_obj("\u{212A}");
    let down = downcase(&original);
    let up = upcase(&down);
    assert_ne!(up, original);
    assert_eq!(unwrap_str(down), "k");
    assert_eq!(unwrap_str(up), "K");
}

#[test]
fn capitalize_with_digit_initial() {
    // A digit can stand as a word's initial; capitalizing it changes nothing,
    // and the rest of the word is downcased.
    assert_eq!(unwrap_str(capitalize(&str_obj("3RD day"))), "3rd Day");
}

#[test]
fn upcase_initials_mixed_word() {
    assert_eq!(unwrap_str(upcase_initials(&str_obj("fooBar baz"))), "FooBar Baz");
}

#[test]
fn punctuation_separates_words() {
    assert_eq!(unwrap_str(capitalize(&str_obj("one-two,three"))), "One-Two,Three");
}

#[test]
fn empty_string_stays_empty() {
    for action in [
        CaseAction::Upcase,
        CaseAction::Downcase,
        CaseAction::Capitalize,
        CaseAction::CapitalizeInitialsOnly,
    ] {
        assert_eq!(unwrap_str(apply(action, &str_obj(""))), "");
    }
}

#[test]
fn apply_matches_named_entry_points() {
    let input = str_obj("miXed CASE words");
    assert_eq!(apply(CaseAction::Upcase, &input), upcase(&input));
    assert_eq!(apply(CaseAction::Downcase, &input), downcase(&input));
    assert_eq!(apply(CaseAction::Capitalize, &input), capitalize(&input));
    assert_eq!(apply(CaseAction::CapitalizeInitialsOnly, &input), upcase_initials(&input));
}

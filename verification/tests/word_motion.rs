use casefiddle::action::CaseAction;
use casefiddle::buffer::apply_at_point;
use casefiddle::buffer::capitalize_word;
use casefiddle::buffer::downcase_word;
use casefiddle::buffer::upcase_word;
use casefiddle::buffer::TextBuffer;
use casefiddle::syntax::AlnumSyntax;

fn buffer(s: &str, point: usize) -> TextBuffer {
    TextBuffer::new(s.chars().collect(), point)
}

fn text_of(b: &TextBuffer) -> String {
    b.contents().into_iter().collect()
}

#[test]
fn forward_two_words() {
    let mut b = buffer("foo bar baz", 0);
    upcase_word::<AlnumSyntax>(2, &mut b);
    assert_eq!(text_of(&b), "FOO BAR baz");
    assert_eq!(b.get_point(), 7);
}

#[test]
fn forward_from_mid_word_excludes_prefix() {
    let mut b = buffer("foobar", 3);
    upcase_word::<AlnumSyntax>(1, &mut b);
    assert_eq!(text_of(&b), "fooBAR");
    assert_eq!(b.get_point(), 6);
}

#[test]
fn negative_count_cases_previous_words_without_moving() {
    let mut b = buffer("foo bar baz", 11);
    upcase_word::<AlnumSyntax>(-2, &mut b);
    assert_eq!(text_of(&b), "foo BAR BAZ");
    assert_eq!(b.get_point(), 11);
}

#[test]
fn forward_count_beyond_last_word_stops_at_end() {
    let mut b = buffer("foo bar", 0);
    upcase_word::<AlnumSyntax>(5, &mut b);
    assert_eq!(text_of(&b), "FOO BAR");
    assert_eq!(b.get_point(), 7);
}

#[test]
fn forward_over_trailing_gap_lands_at_buffer_end() {
    let mut b = buffer("foo bar  ", 0);
    upcase_word::<AlnumSyntax>(3, &mut b);
    assert_eq!(text_of(&b), "FOO BAR  ");
    assert_eq!(b.get_point(), 9);
}

#[test]
fn backward_count_beyond_first_word_stops_quietly() {
    let mut b = buffer("foo bar baz", 11);
    upcase_word::<AlnumSyntax>(-10, &mut b);
    assert_eq!(text_of(&b), "FOO BAR BAZ");
    assert_eq!(b.get_point(), 11);
}

#[test]
fn zero_count_does_one_unit_of_work() {
    let mut b = buffer("foo bar", 0);
    upcase_word::<AlnumSyntax>(0, &mut b);
    assert_eq!(text_of(&b), "FOO bar");
    assert_eq!(b.get_point(), 3);
}

#[test]
fn capitalize_two_words() {
    let mut b = buffer("hello WORLD", 0);
    capitalize_word::<AlnumSyntax>(2, &mut b);
    assert_eq!(text_of(&b), "Hello World");
    assert_eq!(b.get_point(), 11);
}

#[test]
fn capitalize_from_mid_word_downcases_the_rest() {
    // The word's initial lies before the point, so nothing is upcased; the
    // characters from the point to the word's end are downcased.
    let mut b = buffer("fooBAR", 3);
    capitalize_word::<AlnumSyntax>(1, &mut b);
    assert_eq!(text_of(&b), "foobar");
    assert_eq!(b.get_point(), 6);
}

#[test]
fn downcase_one_word() {
    let mut b = buffer("FOO BAR", 0);
    downcase_word::<AlnumSyntax>(1, &mut b);
    assert_eq!(text_of(&b), "foo BAR");
    assert_eq!(b.get_point(), 3);
}

#[test]
fn backward_from_mid_word_cases_only_the_prefix() {
    let mut b = buffer("foobar", 3);
    upcase_word::<AlnumSyntax>(-1, &mut b);
    assert_eq!(text_of(&b), "FOObar");
    assert_eq!(b.get_point(), 3);
}

#[test]
fn initials_only_at_point_keeps_non_initials() {
    let mut b = buffer("fooBar baz", 0);
    apply_at_point::<AlnumSyntax>(CaseAction::CapitalizeInitialsOnly, 1, &mut b);
    assert_eq!(text_of(&b), "FooBar baz");
    assert_eq!(b.get_point(), 6);
}

#[test]
fn punctuation_bounds_words() {
    let mut b = buffer("a-b c", 0);
    upcase_word::<AlnumSyntax>(2, &mut b);
    assert_eq!(text_of(&b), "A-B c");
    assert_eq!(b.get_point(), 3);
}

#[test]
fn point_in_gap_skips_to_next_word() {
    let mut b = buffer("foo bar", 3);
    upcase_word::<AlnumSyntax>(1, &mut b);
    assert_eq!(text_of(&b), "foo BAR");
    assert_eq!(b.get_point(), 7);
}

#[test]
fn expanding_mapping_in_buffer_word() {
    let mut b = buffer("straße fein", 0);
    upcase_word::<AlnumSyntax>(1, &mut b);
    assert_eq!(text_of(&b), "STRAßE fein");
    assert_eq!(b.get_point(), 6);
}

#[test]
fn empty_buffer_is_a_soft_boundary() {
    let mut b = buffer("", 0);
    upcase_word::<AlnumSyntax>(3, &mut b);
    assert_eq!(text_of(&b), "");
    assert_eq!(b.get_point(), 0);
    upcase_word::<AlnumSyntax>(-3, &mut b);
    assert_eq!(text_of(&b), "");
    assert_eq!(b.get_point(), 0);
}

#[test]
fn buffer_primitives() {
    let mut b = buffer("abc", 0);
    assert_eq!(b.length(), 3);
    assert_eq!(b.read(1), 'b');
    b.write(1, 'Z');
    assert_eq!(text_of(&b), "aZc");
    assert_eq!(b.get_point(), 0);
    b.set_point(2);
    assert_eq!(b.get_point(), 2);
}

//! The word-motion caser: case runs of words inside a mutable text buffer.
//!
//! A buffer is an ordered, mutable sequence of characters with a point, a
//! cursor index between 0 and the length.  `apply_at_point` scans from the
//! point, forward for a positive repeat count and backward for a negative
//! one, locates that many word spans, and cases every character of each span
//! in place, capitalization touching only a span's first character.  A
//! forward call leaves the point at the end of the last span it touched; a
//! backward call leaves the point where it was.  When fewer words remain
//! than the count asks for, the scan stops quietly at the buffer's edge.

use vstd::prelude::*;

use crate::action::CaseAction;
use crate::action::case_char;
use crate::action::cased_in_word;
use crate::syntax::Syntax;

verus! {

/// The first position at or after `i` holding a word-constituent character,
/// or the buffer length when none remains.
pub open spec fn next_word_start<S: Syntax>(s: Seq<char>, i: int) -> int
    decreases s.len() - i,
{
    if i < 0 || i >= s.len() {
        s.len() as int
    } else if S::word_spec(s[i]) {
        i
    } else {
        next_word_start::<S>(s, i + 1)
    }
}

/// The end of the run of word-constituent characters that starts at `i`:
/// the first position at or after `i` that does not hold one, or the buffer
/// length.
pub open spec fn word_end<S: Syntax>(s: Seq<char>, i: int) -> int
    decreases s.len() - i,
{
    if i < 0 || i >= s.len() {
        s.len() as int
    } else if S::word_spec(s[i]) {
        word_end::<S>(s, i + 1)
    } else {
        i
    }
}

/// The start of the run of word-constituent characters that ends at `i`:
/// the last position at or before `i` whose predecessor is missing or not
/// word-constituent.
pub open spec fn word_start<S: Syntax>(s: Seq<char>, i: int) -> int
    decreases i,
{
    if i <= 0 {
        0
    } else if i <= s.len() && S::word_spec(s[i - 1]) {
        word_start::<S>(s, i - 1)
    } else {
        i
    }
}

/// The first position at or before `i` whose predecessor is a
/// word-constituent character, or 0 when none remains: where the previous
/// word ends.
pub open spec fn prev_word_end<S: Syntax>(s: Seq<char>, i: int) -> int
    decreases i,
{
    if i <= 0 {
        0
    } else if i <= s.len() && !S::word_spec(s[i - 1]) {
        prev_word_end::<S>(s, i - 1)
    } else {
        i
    }
}

/// A word's start lies at or before the position it was scanned from.
pub proof fn lemma_word_start_le<S: Syntax>(s: Seq<char>, i: int)
    requires
        i >= 0,
    ensures
        0 <= word_start::<S>(s, i) <= i,
    decreases i,
{
    if i > 0 && i <= s.len() && S::word_spec(s[i - 1]) {
        lemma_word_start_le::<S>(s, i - 1);
    }
}

/// The buffer after the characters of positions `lo` to `hi` (exclusive) are
/// cased, the position equal to `wstart` — the containing word's true start —
/// counting as the initial.
pub open spec fn case_region(
    action: CaseAction,
    s: Seq<char>,
    wstart: int,
    lo: int,
    hi: int,
) -> Seq<char> {
    Seq::new(
        s.len(),
        |p: int|
            if lo <= p < hi {
                cased_in_word(action, s[p], p == wstart)
            } else {
                s[p]
            },
    )
}

/// One forward unit of work from position `i`: skip the gap, case the word
/// span found there from `i` onward (its true start counts as the initial,
/// and is cased only when it lies at or after `i`), and land at the span's
/// end.
pub open spec fn forward_step<S: Syntax>(action: CaseAction, s: Seq<char>, i: int) -> (
    Seq<char>,
    int,
) {
    let ws = next_word_start::<S>(s, i);
    let en = word_end::<S>(s, ws);
    (case_region(action, s, word_start::<S>(s, ws), ws, en), en)
}

/// `k` forward units of work in sequence.
pub open spec fn forward_steps<S: Syntax>(
    action: CaseAction,
    s: Seq<char>,
    i: int,
    k: nat,
) -> (Seq<char>, int)
    decreases k,
{
    if k == 0 {
        (s, i)
    } else {
        let step = forward_step::<S>(action, s, i);
        forward_steps::<S>(action, step.0, step.1, (k - 1) as nat)
    }
}

/// One backward unit of work from position `i`: skip the gap leftward to the
/// previous word's end, case that word from its true start up to where the
/// scan stood — what lies beyond stays untouched — and land at the word's
/// start.
pub open spec fn backward_step<S: Syntax>(action: CaseAction, s: Seq<char>, i: int) -> (
    Seq<char>,
    int,
) {
    let we = prev_word_end::<S>(s, i);
    let st = word_start::<S>(s, we);
    (case_region(action, s, st, st, we), st)
}

/// `k` backward units of work in sequence.
pub open spec fn backward_steps<S: Syntax>(
    action: CaseAction,
    s: Seq<char>,
    i: int,
    k: nat,
) -> (Seq<char>, int)
    decreases k,
{
    if k == 0 {
        (s, i)
    } else {
        let step = backward_step::<S>(action, s, i);
        backward_steps::<S>(action, step.0, step.1, (k - 1) as nat)
    }
}

/// The scan for a word's start stays within the buffer.
pub proof fn lemma_next_word_start_bounds<S: Syntax>(s: Seq<char>, i: int)
    requires
        0 <= i <= s.len(),
    ensures
        i <= next_word_start::<S>(s, i) <= s.len(),
    decreases s.len() - i,
{
    if i < s.len() && !S::word_spec(s[i]) {
        lemma_next_word_start_bounds::<S>(s, i + 1);
    }
}

/// The scan for a word's end stays within the buffer.
pub proof fn lemma_word_end_bounds<S: Syntax>(s: Seq<char>, i: int)
    requires
        0 <= i <= s.len(),
    ensures
        i <= word_end::<S>(s, i) <= s.len(),
    decreases s.len() - i,
{
    if i < s.len() && S::word_spec(s[i]) {
        lemma_word_end_bounds::<S>(s, i + 1);
    }
}

/// When the scan for a word's start finds one inside the buffer, a
/// word-constituent character stands there.
pub proof fn lemma_next_word_start_found<S: Syntax>(s: Seq<char>, i: int)
    requires
        0 <= i <= s.len(),
    ensures
        next_word_start::<S>(s, i) < s.len() ==> S::word_spec(s[next_word_start::<S>(s, i)]),
    decreases s.len() - i,
{
    if i < s.len() && !S::word_spec(s[i]) {
        lemma_next_word_start_found::<S>(s, i + 1);
    }
}

/// The end of the word span found ahead of `i` lies strictly beyond `i`, yet
/// within the buffer, as long as the scan found a word at all.
pub proof fn lemma_found_word_end_bounds<S: Syntax>(s: Seq<char>, i: int)
    requires
        0 <= i <= s.len(),
        next_word_start::<S>(s, i) < s.len(),
    ensures
        i < word_end::<S>(s, next_word_start::<S>(s, i)) <= s.len(),
{
    lemma_next_word_start_bounds::<S>(s, i);
    lemma_next_word_start_found::<S>(s, i);
    let ws = next_word_start::<S>(s, i);
    lemma_word_end_bounds::<S>(s, ws + 1);
    assert(word_end::<S>(s, ws) == word_end::<S>(s, ws + 1));
}

/// How many word spans lie wholly at or after position `i`.
pub open spec fn words_after<S: Syntax>(s: Seq<char>, i: int) -> nat
    decreases s.len() - i,
    when 0 <= i <= s.len()
    via words_after_decreases::<S>
{
    if next_word_start::<S>(s, i) >= s.len() {
        0
    } else {
        1 + words_after::<S>(s, word_end::<S>(s, next_word_start::<S>(s, i)))
    }
}

#[via_fn]
proof fn words_after_decreases<S: Syntax>(s: Seq<char>, i: int) {
    if next_word_start::<S>(s, i) < s.len() {
        lemma_found_word_end_bounds::<S>(s, i);
    }
}

/// Two buffers that agree from position `i` onward find the same next word
/// start there.
pub proof fn lemma_next_word_start_agree<S: Syntax>(s1: Seq<char>, s2: Seq<char>, i: int)
    requires
        s1.len() == s2.len(),
        0 <= i <= s1.len(),
        forall|q: int| i <= q < s1.len() ==> s1[q] == s2[q],
    ensures
        next_word_start::<S>(s1, i) == next_word_start::<S>(s2, i),
    decreases s1.len() - i,
{
    if i < s1.len() && !S::word_spec(s1[i]) {
        lemma_next_word_start_agree::<S>(s1, s2, i + 1);
    }
}

/// Two buffers that agree from position `i` onward find the same word end
/// there.
pub proof fn lemma_word_end_agree<S: Syntax>(s1: Seq<char>, s2: Seq<char>, i: int)
    requires
        s1.len() == s2.len(),
        0 <= i <= s1.len(),
        forall|q: int| i <= q < s1.len() ==> s1[q] == s2[q],
    ensures
        word_end::<S>(s1, i) == word_end::<S>(s2, i),
    decreases s1.len() - i,
{
    if i < s1.len() && S::word_spec(s1[i]) {
        lemma_word_end_agree::<S>(s1, s2, i + 1);
    }
}

/// Two buffers that agree from position `i` onward hold the same number of
/// words there.
pub proof fn lemma_words_after_agree<S: Syntax>(s1: Seq<char>, s2: Seq<char>, i: int)
    requires
        s1.len() == s2.len(),
        0 <= i <= s1.len(),
        forall|q: int| i <= q < s1.len() ==> s1[q] == s2[q],
    ensures
        words_after::<S>(s1, i) == words_after::<S>(s2, i),
    decreases s1.len() - i,
{
    lemma_next_word_start_bounds::<S>(s1, i);
    lemma_next_word_start_agree::<S>(s1, s2, i);
    let ws = next_word_start::<S>(s1, i);
    if ws < s1.len() {
        lemma_found_word_end_bounds::<S>(s1, i);
        lemma_word_end_agree::<S>(s1, s2, ws);
        lemma_words_after_agree::<S>(s1, s2, word_end::<S>(s1, ws));
    }
}

/// The soft boundary: when the count asks for more words than remain ahead
/// of the scan, forward motion runs out of words and lands at the very end
/// of the buffer.
pub proof fn lemma_forward_exhausts<S: Syntax>(action: CaseAction, s: Seq<char>, i: int, k: nat)
    requires
        0 <= i <= s.len(),
        k > words_after::<S>(s, i),
    ensures
        forward_steps::<S>(action, s, i, k).1 == s.len(),
    decreases k,
{
    lemma_next_word_start_bounds::<S>(s, i);
    let ws = next_word_start::<S>(s, i);
    let en = word_end::<S>(s, ws);
    let step = forward_step::<S>(action, s, i);
    assert(forward_steps::<S>(action, s, i, k) == forward_steps::<S>(
        action,
        step.0,
        step.1,
        (k - 1) as nat,
    ));
    if ws >= s.len() {
        assert(en == s.len());
        if k == 1 {
            assert(forward_steps::<S>(action, step.0, en, 0) == (step.0, en));
        } else {
            assert(next_word_start::<S>(step.0, en) == step.0.len() as int);
            assert(words_after::<S>(step.0, en) == 0);
            lemma_forward_exhausts::<S>(action, step.0, en, (k - 1) as nat);
        }
    } else {
        lemma_found_word_end_bounds::<S>(s, i);
        assert(forall|q: int| en <= q < s.len() ==> step.0[q] == s[q]);
        lemma_words_after_agree::<S>(step.0, s, en);
        assert((k - 1) as nat > words_after::<S>(step.0, en));
        lemma_forward_exhausts::<S>(action, step.0, en, (k - 1) as nat);
    }
}

/// The backward scan for a word's end stays at or before where it started.
pub proof fn lemma_prev_word_end_le<S: Syntax>(s: Seq<char>, i: int)
    requires
        i >= 0,
    ensures
        0 <= prev_word_end::<S>(s, i) <= i,
    decreases i,
{
    if i > 0 && i <= s.len() && !S::word_spec(s[i - 1]) {
        lemma_prev_word_end_le::<S>(s, i - 1);
    }
}

/// When the backward scan finds a word's end above the buffer's start, a
/// word-constituent character stands just before it.
pub proof fn lemma_prev_word_end_found<S: Syntax>(s: Seq<char>, i: int)
    requires
        0 <= i <= s.len(),
    ensures
        prev_word_end::<S>(s, i) > 0 ==> S::word_spec(s[prev_word_end::<S>(s, i) - 1]),
    decreases i,
{
    if i > 0 && !S::word_spec(s[i - 1]) {
        lemma_prev_word_end_found::<S>(s, i - 1);
    }
}

/// The start of the word found behind `i` lies strictly before the word's
/// end, as long as the scan found a word at all.
pub proof fn lemma_found_word_start_bounds<S: Syntax>(s: Seq<char>, i: int)
    requires
        0 <= i <= s.len(),
        prev_word_end::<S>(s, i) > 0,
    ensures
        0 <= word_start::<S>(s, prev_word_end::<S>(s, i)) < prev_word_end::<S>(s, i),
{
    lemma_prev_word_end_le::<S>(s, i);
    lemma_prev_word_end_found::<S>(s, i);
    let we = prev_word_end::<S>(s, i);
    lemma_word_start_le::<S>(s, we - 1);
    assert(word_start::<S>(s, we) == word_start::<S>(s, we - 1));
}

/// How many word spans lie wholly before position `i`.
pub open spec fn words_before<S: Syntax>(s: Seq<char>, i: int) -> nat
    decreases i,
    when 0 <= i <= s.len()
    via words_before_decreases::<S>
{
    if prev_word_end::<S>(s, i) <= 0 {
        0
    } else {
        1 + words_before::<S>(s, word_start::<S>(s, prev_word_end::<S>(s, i)))
    }
}

#[via_fn]
proof fn words_before_decreases<S: Syntax>(s: Seq<char>, i: int) {
    if prev_word_end::<S>(s, i) > 0 {
        lemma_prev_word_end_le::<S>(s, i);
        lemma_found_word_start_bounds::<S>(s, i);
    }
}

/// Two buffers that agree up to position `i` find the same previous word end
/// there.
pub proof fn lemma_prev_word_end_agree<S: Syntax>(s1: Seq<char>, s2: Seq<char>, i: int)
    requires
        s1.len() == s2.len(),
        0 <= i <= s1.len(),
        forall|q: int| 0 <= q < i ==> s1[q] == s2[q],
    ensures
        prev_word_end::<S>(s1, i) == prev_word_end::<S>(s2, i),
    decreases i,
{
    if i > 0 && !S::word_spec(s1[i - 1]) {
        lemma_prev_word_end_agree::<S>(s1, s2, i - 1);
    }
}

/// Two buffers that agree up to position `i` find the same word start there.
pub proof fn lemma_word_start_agree<S: Syntax>(s1: Seq<char>, s2: Seq<char>, i: int)
    requires
        s1.len() == s2.len(),
        0 <= i <= s1.len(),
        forall|q: int| 0 <= q < i ==> s1[q] == s2[q],
    ensures
        word_start::<S>(s1, i) == word_start::<S>(s2, i),
    decreases i,
{
    if i > 0 && S::word_spec(s1[i - 1]) {
        lemma_word_start_agree::<S>(s1, s2, i - 1);
    }
}

/// Two buffers that agree up to position `i` hold the same number of words
/// before it.
pub proof fn lemma_words_before_agree<S: Syntax>(s1: Seq<char>, s2: Seq<char>, i: int)
    requires
        s1.len() == s2.len(),
        0 <= i <= s1.len(),
        forall|q: int| 0 <= q < i ==> s1[q] == s2[q],
    ensures
        words_before::<S>(s1, i) == words_before::<S>(s2, i),
    decreases i,
{
    lemma_prev_word_end_le::<S>(s1, i);
    lemma_prev_word_end_agree::<S>(s1, s2, i);
    let we = prev_word_end::<S>(s1, i);
    if we > 0 {
        lemma_found_word_start_bounds::<S>(s1, i);
        lemma_word_start_agree::<S>(s1, s2, we);
        lemma_words_before_agree::<S>(s1, s2, word_start::<S>(s1, we));
    }
}

/// The soft boundary going backward: when the count asks for more words than
/// stand before the scan, backward motion runs out of words and its scan
/// stops at the very start of the buffer.
pub proof fn lemma_backward_exhausts<S: Syntax>(action: CaseAction, s: Seq<char>, i: int, k: nat)
    requires
        0 <= i <= s.len(),
        k > words_before::<S>(s, i),
    ensures
        backward_steps::<S>(action, s, i, k).1 == 0,
    decreases k,
{
    lemma_prev_word_end_le::<S>(s, i);
    let we = prev_word_end::<S>(s, i);
    let st = word_start::<S>(s, we);
    let step = backward_step::<S>(action, s, i);
    assert(backward_steps::<S>(action, s, i, k) == backward_steps::<S>(
        action,
        step.0,
        step.1,
        (k - 1) as nat,
    ));
    if we <= 0 {
        assert(st == 0);
        if k == 1 {
            assert(backward_steps::<S>(action, step.0, 0, 0) == (step.0, 0int));
        } else {
            assert(prev_word_end::<S>(step.0, 0) == 0);
            assert(words_before::<S>(step.0, 0) == 0);
            lemma_backward_exhausts::<S>(action, step.0, 0, (k - 1) as nat);
        }
    } else {
        lemma_found_word_start_bounds::<S>(s, i);
        assert(forall|q: int| 0 <= q < st ==> step.0[q] == s[q]);
        lemma_words_before_agree::<S>(step.0, s, st);
        assert((k - 1) as nat > words_before::<S>(step.0, st));
        lemma_backward_exhausts::<S>(action, step.0, st, (k - 1) as nat);
    }
}

/// The soft boundary at the entry point: a non-negative count that asks for
/// more words than remain after the point is no error — the scan stops at
/// the buffer's edge and the point lands at the true end.
pub proof fn lemma_apply_at_point_soft_boundary<S: Syntax>(
    action: CaseAction,
    s: Seq<char>,
    point: int,
    count: int,
)
    requires
        0 <= point <= s.len(),
        count >= 0,
        repeat_of(count) > words_after::<S>(s, point),
    ensures
        apply_at_point_spec::<S>(action, s, point, count).1 == s.len(),
{
    lemma_forward_exhausts::<S>(action, s, point, repeat_of(count));
}

/// The number of words a signed repeat count asks for: its magnitude, a
/// count of zero standing for one unit of work.
pub open spec fn repeat_of(count: int) -> nat {
    if count > 0 {
        count as nat
    } else if count == 0 {
        1
    } else {
        (-count) as nat
    }
}

/// What `apply_at_point` does to a buffer's text and point: a non-negative
/// count works forward and lands the point after the last word touched, a
/// negative count works backward and leaves the point alone.
pub open spec fn apply_at_point_spec<S: Syntax>(
    action: CaseAction,
    s: Seq<char>,
    point: int,
    count: int,
) -> (Seq<char>, int) {
    if count >= 0 {
        forward_steps::<S>(action, s, point, repeat_of(count))
    } else {
        (backward_steps::<S>(action, s, point, repeat_of(count)).0, point)
    }
}

/// An editable sequence of characters with a point: the unit of state the
/// word-motion caser works on.
pub struct TextBuffer {
    text: Vec<char>,
    point: usize,
}

impl TextBuffer {
    /// The buffer's characters.
    pub closed spec fn text(&self) -> Seq<char> {
        self.text@
    }

    /// The buffer's point.
    pub closed spec fn point(&self) -> int {
        self.point as int
    }

    /// Well-formedness: the point never passes the end of the text.
    pub open spec fn wf(&self) -> bool {
        0 <= self.point() <= self.text().len()
    }

    /// Make a buffer from its characters and an in-range point.
    pub fn new(text: Vec<char>, point: usize) -> (b: TextBuffer)
        requires
            point <= text.len(),
        ensures
            b.wf(),
            b.text() == text@,
            b.point() == point as int,
    {
        TextBuffer { text, point }
    }

    /// How many characters the buffer holds.
    pub fn length(&self) -> (n: usize)
        ensures
            n == self.text().len(),
    {
        self.text.len()
    }

    /// The character at a position.
    pub fn read(&self, index: usize) -> (c: char)
        requires
            index < self.text().len(),
        ensures
            c == self.text()[index as int],
    {
        self.text[index]
    }

    /// Replace the character at a position; the point stays put.
    pub fn write(&mut self, index: usize, c: char)
        requires
            index < old(self).text().len(),
        ensures
            final(self).text() == old(self).text().update(index as int, c),
            final(self).point() == old(self).point(),
    {
        self.text.set(index, c);
    }

    /// Where the point stands.
    pub fn get_point(&self) -> (p: usize)
        ensures
            p as int == self.point(),
    {
        self.point
    }

    /// Move the point to an in-range position.
    pub fn set_point(&mut self, index: usize)
        requires
            index <= old(self).text().len(),
        ensures
            final(self).text() == old(self).text(),
            final(self).point() == index as int,
            final(self).wf(),
    {
        self.point = index;
    }

    /// A copy of the buffer's characters.
    pub fn contents(&self) -> (v: Vec<char>)
        ensures
            v@ == self.text(),
    {
        let mut v: Vec<char> = Vec::new();
        let mut i: usize = 0;
        while i < self.text.len()
            invariant
                i <= self.text.len(),
                v@ == self.text@.subrange(0, i as int),
            decreases self.text.len() - i,
        {
            v.push(self.text[i]);
            i += 1;
            proof {
                assert(v@ =~= self.text@.subrange(0, i as int));
            }
        }
        proof {
            assert(v@ =~= self.text@);
        }
        v
    }
}

/// Case one word forward of `from`: skip the gap, case the word span in
/// place, return the span's end.
#[verifier::loop_isolation(false)]
fn case_word_forward<S: Syntax>(action: CaseAction, text: &mut Vec<char>, from: usize) -> (end:
    usize)
    requires
        from <= old(text).len(),
    ensures
        final(text)@.len() == old(text)@.len(),
        from <= end <= final(text)@.len(),
        (final(text)@, end as int) == forward_step::<S>(action, old(text)@, from as int),
{
    let ghost s0 = text@;
    let mut p: usize = from;
    while p < text.len() && !S::is_word(text[p])
        invariant
            from <= p <= text.len(),
            text@ == s0,
            next_word_start::<S>(s0, from as int) == next_word_start::<S>(s0, p as int),
        decreases text.len() - p,
    {
        p = p + 1;
    }
    let ws: usize = p;
    proof {
        assert(next_word_start::<S>(s0, from as int) == ws as int);
    }
    let at_start: bool = ws == 0 || !S::is_word(text[ws - 1]);
    let ghost wst = word_start::<S>(s0, ws as int);
    proof {
        if ws > 0 && S::word_spec(s0[ws as int - 1]) {
            lemma_word_start_le::<S>(s0, ws as int - 1);
        }
        assert(at_start <==> wst == ws as int);
        assert(text@ =~= case_region(action, s0, wst, ws as int, ws as int));
    }
    while p < text.len() && S::is_word(text[p])
        invariant
            ws <= p <= text.len(),
            text@.len() == s0.len(),
            forall|q: int| p <= q < s0.len() ==> text@[q] == s0[q],
            text@ == case_region(action, s0, wst, ws as int, p as int),
            word_end::<S>(s0, ws as int) == word_end::<S>(s0, p as int),
        decreases text.len() - p,
    {
        let c: char = text[p];
        let initial: bool = at_start && p == ws;
        proof {
            assert(initial == (p as int == wst));
        }
        let r: char = case_char(action, c, initial);
        text.set(p, r);
        proof {
            assert(text@ =~= case_region(action, s0, wst, ws as int, p as int + 1));
        }
        p = p + 1;
    }
    proof {
        assert(word_end::<S>(s0, ws as int) == p as int);
    }
    p
}

/// Case one word backward of `from`: skip the gap leftward, case the word
/// from its start up to where the gap ended, return the word's start.
#[verifier::loop_isolation(false)]
fn case_word_backward<S: Syntax>(action: CaseAction, text: &mut Vec<char>, from: usize) -> (start:
    usize)
    requires
        from <= old(text).len(),
    ensures
        final(text)@.len() == old(text)@.len(),
        start <= from,
        (final(text)@, start as int) == backward_step::<S>(action, old(text)@, from as int),
{
    let ghost s0 = text@;
    let mut p: usize = from;
    while p > 0 && !S::is_word(text[p - 1])
        invariant
            p <= from,
            text@ == s0,
            prev_word_end::<S>(s0, from as int) == prev_word_end::<S>(s0, p as int),
        decreases p,
    {
        p = p - 1;
    }
    let we: usize = p;
    proof {
        assert(prev_word_end::<S>(s0, from as int) == we as int);
    }
    let mut q: usize = we;
    while q > 0 && S::is_word(text[q - 1])
        invariant
            q <= we,
            text@ == s0,
            word_start::<S>(s0, we as int) == word_start::<S>(s0, q as int),
        decreases q,
    {
        q = q - 1;
    }
    let st: usize = q;
    proof {
        assert(word_start::<S>(s0, we as int) == st as int);
        assert(text@ =~= case_region(action, s0, st as int, st as int, st as int));
    }
    let mut p2: usize = st;
    while p2 < we
        invariant
            st <= p2 <= we <= text@.len(),
            text@.len() == s0.len(),
            forall|r: int| p2 <= r < s0.len() ==> text@[r] == s0[r],
            text@ == case_region(action, s0, st as int, st as int, p2 as int),
        decreases we - p2,
    {
        let c: char = text[p2];
        let r: char = case_char(action, c, p2 == st);
        text.set(p2, r);
        proof {
            assert(text@ =~= case_region(action, s0, st as int, st as int, p2 as int + 1));
        }
        p2 = p2 + 1;
    }
    st
}

/// The word-motion caser.  A non-negative count cases that many words
/// forward of the point — a count of zero still cases one — and moves the
/// point to the end of the last word touched; when the words run out before
/// the count does, the point lands at the end of the buffer.  A negative
/// count cases that many words backward of the point and does not move it.
#[verifier::loop_isolation(false)]
pub fn apply_at_point<S: Syntax>(action: CaseAction, count: i32, buffer: &mut TextBuffer)
    requires
        old(buffer).wf(),
    ensures
        final(buffer).wf(),
        final(buffer).text().len() == old(buffer).text().len(),
        (final(buffer).text(), final(buffer).point()) == apply_at_point_spec::<S>(
            action,
            old(buffer).text(),
            old(buffer).point(),
            count as int,
        ),
        count < 0 ==> final(buffer).point() == old(buffer).point(),
{
    let k: u32 = if count == 0 {
        1
    } else if count > 0 {
        count as u32
    } else {
        (-(count as i64)) as u32
    };
    proof {
        assert(k as nat == repeat_of(count as int));
    }
    if count >= 0 {
        let mut pos: usize = buffer.point;
        let mut j: u32 = 0;
        while j < k
            invariant
                j <= k,
                pos <= buffer.text@.len(),
                buffer.text@.len() == old(buffer).text().len(),
                forward_steps::<S>(action, old(buffer).text(), old(buffer).point(), k as nat)
                    == forward_steps::<S>(action, buffer.text@, pos as int, (k - j) as nat),
            decreases k - j,
        {
            let end: usize = case_word_forward::<S>(action, &mut buffer.text, pos);
            pos = end;
            j = j + 1;
        }
        buffer.point = pos;
    } else {
        let mut pos: usize = buffer.point;
        let mut j: u32 = 0;
        while j < k
            invariant
                j <= k,
                pos <= buffer.text@.len(),
                buffer.text@.len() == old(buffer).text().len(),
                buffer.point == old(buffer).point,
                backward_steps::<S>(action, old(buffer).text(), old(buffer).point(), k as nat)
                    == backward_steps::<S>(action, buffer.text@, pos as int, (k - j) as nat),
            decreases k - j,
        {
            let start: usize = case_word_backward::<S>(action, &mut buffer.text, pos);
            pos = start;
            j = j + 1;
        }
    }
}

/// Convert one or more words after (or, with a negative count, before) the
/// point to upper case, moving over them when going forward.
pub fn upcase_word<S: Syntax>(count: i32, buffer: &mut TextBuffer)
    requires
        old(buffer).wf(),
    ensures
        final(buffer).wf(),
        final(buffer).text().len() == old(buffer).text().len(),
        (final(buffer).text(), final(buffer).point()) == apply_at_point_spec::<S>(
            CaseAction::Upcase,
            old(buffer).text(),
            old(buffer).point(),
            count as int,
        ),
        count < 0 ==> final(buffer).point() == old(buffer).point(),
{
    apply_at_point::<S>(CaseAction::Upcase, count, buffer)
}

/// Convert one or more words after (or before) the point to lower case,
/// moving over them when going forward.
pub fn downcase_word<S: Syntax>(count: i32, buffer: &mut TextBuffer)
    requires
        old(buffer).wf(),
    ensures
        final(buffer).wf(),
        final(buffer).text().len() == old(buffer).text().len(),
        (final(buffer).text(), final(buffer).point()) == apply_at_point_spec::<S>(
            CaseAction::Downcase,
            old(buffer).text(),
            old(buffer).point(),
            count as int,
        ),
        count < 0 ==> final(buffer).point() == old(buffer).point(),
{
    apply_at_point::<S>(CaseAction::Downcase, count, buffer)
}

/// Capitalize one or more words after (or before) the point — first
/// character of each word up, the rest down — moving over them when going
/// forward.
pub fn capitalize_word<S: Syntax>(count: i32, buffer: &mut TextBuffer)
    requires
        old(buffer).wf(),
    ensures
        final(buffer).wf(),
        final(buffer).text().len() == old(buffer).text().len(),
        (final(buffer).text(), final(buffer).point()) == apply_at_point_spec::<S>(
            CaseAction::Capitalize,
            old(buffer).text(),
            old(buffer).point(),
            count as int,
        ),
        count < 0 ==> final(buffer).point() == old(buffer).point(),
{
    apply_at_point::<S>(CaseAction::Capitalize, count, buffer)
}

} // verus!

//! Character-level text search for the paths and type names the editor
//! handles: equality, prefix, substring, and the part after the last
//! separator.

use vstd::prelude::*;
use vstd::string::StrSliceExecFns;

verus! {

/// `pattern` stands in `text` at position `at`.
pub open spec fn occurs_at(text: Seq<char>, pattern: Seq<char>, at: int) -> bool {
    &&& 0 <= at
    &&& at + pattern.len() <= text.len()
    &&& text.subrange(at, at + pattern.len()) == pattern
}

/// `pattern` stands somewhere in `text`.
pub open spec fn contains_text(text: Seq<char>, pattern: Seq<char>) -> bool {
    exists|at: int| occurs_at(text, pattern, at)
}

/// `at` is the last position at which `pattern` stands in `text`.
pub open spec fn is_last_occurrence(text: Seq<char>, pattern: Seq<char>, at: int) -> bool {
    &&& occurs_at(text, pattern, at)
    &&& forall|later: int| at < later ==> !occurs_at(text, pattern, later)
}

/// What follows the last occurrence of `separator` in `text`; all of `text`
/// where the separator does not occur.
pub open spec fn last_segment(text: Seq<char>, separator: Seq<char>) -> Seq<char> {
    if contains_text(text, separator) {
        let at = choose|at: int| is_last_occurrence(text, separator, at);
        text.subrange(at + separator.len(), text.len() as int)
    } else {
        text
    }
}

/// The last occurrence is unique, so `last_segment` is what follows it.
pub proof fn lemma_last_segment_after(text: Seq<char>, separator: Seq<char>, at: int)
    requires
        is_last_occurrence(text, separator, at),
    ensures
        last_segment(text, separator) == text.subrange(at + separator.len(), text.len() as int),
{
    assert(occurs_at(text, separator, at));
    let chosen = choose|at: int| is_last_occurrence(text, separator, at);
    assert(is_last_occurrence(text, separator, chosen));
    assert(chosen == at);
}

/// The characters of `text`, in order.
pub fn chars_of(text: &str) -> (chars: Vec<char>)
    ensures
        chars@ == text@,
{
    let mut chars: Vec<char> = Vec::new();
    for c in iter: text.chars()
        invariant
            chars@ == iter.seq().take(iter.index() as int),
            iter.seq() == text@,
    {
        chars.push(c);
    }
    chars
}

/// Whether `pattern` stands in `text` at `at`.
fn matches_at(text: &Vec<char>, pattern: &Vec<char>, at: usize) -> (found: bool)
    requires
        at + pattern.len() <= text.len(),
    ensures
        found == occurs_at(text@, pattern@, at as int),
{
    let mut i: usize = 0;
    while i < pattern.len()
        invariant
            i <= pattern.len(),
            at + pattern.len() <= text.len(),
            forall|k: int| 0 <= k < i ==> text@[at + k] == pattern@[k],
        decreases pattern.len() - i,
    {
        if text[at + i] != pattern[i] {
            proof {
                let window = text@.subrange(at as int, at + pattern@.len());
                assert(window[i as int] == text@[at + i]);
            }
            return false;
        }
        i += 1;
    }
    proof {
        assert(text@.subrange(at as int, at + pattern@.len()) =~= pattern@);
    }
    true
}

/// Whether two texts hold the same characters.
pub fn same_text(left: &str, right: &str) -> (same: bool)
    ensures
        same == (left@ == right@),
{
    let left_chars = chars_of(left);
    let right_chars = chars_of(right);
    if left_chars.len() != right_chars.len() {
        return false;
    }
    proof {
        assert(left@.subrange(0, right@.len() as int) =~= left@);
    }
    matches_at(&left_chars, &right_chars, 0)
}

/// Whether `text` begins with `prefix`.
pub fn starts_with(text: &str, prefix: &str) -> (found: bool)
    ensures
        found == occurs_at(text@, prefix@, 0),
{
    let chars = chars_of(text);
    let pattern = chars_of(prefix);
    if pattern.len() > chars.len() {
        return false;
    }
    matches_at(&chars, &pattern, 0)
}

/// Whether `pattern` stands somewhere in `text`.
pub fn contains(text: &str, pattern: &str) -> (found: bool)
    ensures
        found == contains_text(text@, pattern@),
{
    let chars = chars_of(text);
    let wanted = chars_of(pattern);
    if wanted.len() > chars.len() {
        return false;
    }
    let last = chars.len() - wanted.len();
    let mut at: usize = 0;
    loop
        invariant
            at <= last,
            last == chars.len() - wanted.len(),
            chars@ == text@,
            wanted@ == pattern@,
            forall|k: int| 0 <= k < at ==> !occurs_at(chars@, wanted@, k),
        decreases last - at,
    {
        if matches_at(&chars, &wanted, at) {
            return true;
        }
        if at == last {
            return false;
        }
        at += 1;
    }
}

/// The part of `text` after the last `separator`, or all of it.
pub fn last_segment_of<'a>(text: &'a str, separator: &str) -> (segment: &'a str)
    ensures
        segment@ == last_segment(text@, separator@),
{
    let chars = chars_of(text);
    let pattern = chars_of(separator);
    if pattern.len() > chars.len() {
        return text;
    }
    let mut at: usize = chars.len() - pattern.len();
    loop
        invariant
            at + pattern.len() <= chars.len(),
            chars@ == text@,
            pattern@ == separator@,
            forall|k: int| at < k ==> !occurs_at(chars@, pattern@, k),
        decreases at,
    {
        if matches_at(&chars, &pattern, at) {
            proof {
                lemma_last_segment_after(text@, separator@, at as int);
            }
            return text.substring_char(at + pattern.len(), chars.len());
        }
        if at == 0 {
            return text;
        }
        at -= 1;
    }
}

} // verus!

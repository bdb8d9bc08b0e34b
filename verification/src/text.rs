//! The mathematical model: what it means for one sequence to occur inside
//! another, and how a text falls apart into lines.

use vstd::prelude::*;

verus! {

/// `needle` stands in `hay` as a contiguous run that starts at index `at`.
pub open spec fn occurs_at<T>(needle: Seq<T>, hay: Seq<T>, at: int) -> bool {
    &&& 0 <= at
    &&& at + needle.len() <= hay.len()
    &&& hay.subrange(at, at + needle.len()) == needle
}

/// `needle` stands somewhere in `hay` as a contiguous run.
pub open spec fn has_substring<T>(hay: Seq<T>, needle: Seq<T>) -> bool {
    exists|at: int| occurs_at(needle, hay, at)
}

/// The index of the first line feed in `text`, or the length of `text` where
/// it holds none.
pub open spec fn first_newline(text: Seq<char>) -> int
    decreases text.len(),
{
    if text.len() == 0 || text[0] == '\n' {
        0
    } else {
        1 + first_newline(text.drop_first())
    }
}

/// `line` without one trailing carriage return, if it ends in one.
pub open spec fn strip_cr(line: Seq<char>) -> Seq<char> {
    if line.len() > 0 && line.last() == '\r' {
        line.drop_last()
    } else {
        line
    }
}

/// The first line of a non-empty `text`: everything before the first line
/// feed, less a carriage return that stands directly before that line feed.
/// A text without a line feed is its own first line, kept whole.
pub open spec fn first_line(text: Seq<char>) -> Seq<char> {
    let k = first_newline(text);
    if k == text.len() {
        text
    } else {
        strip_cr(text.take(k))
    }
}

/// What follows the first line of `text` and its line feed.
pub open spec fn after_first_line(text: Seq<char>) -> Seq<char> {
    let k = first_newline(text);
    if k == text.len() {
        Seq::empty()
    } else {
        text.skip(k + 1)
    }
}

/// The lines of `text`, in order. A line ends at a line feed or at a carriage
/// return followed by a line feed; neither is part of the line. The last line
/// needs no ending, and a text that ends in a line ending has no empty line
/// after it. The empty text has no lines.
pub open spec fn lines_of(text: Seq<char>) -> Seq<Seq<char>>
    decreases text.len(),
    via lines_of_terminates
{
    if text.len() == 0 {
        Seq::empty()
    } else {
        seq![first_line(text)] + lines_of(after_first_line(text))
    }
}

#[via_fn]
proof fn lines_of_terminates(text: Seq<char>) {
    lemma_first_newline(text);
}

/// The first line feed lies within the text or at its end, nothing before it
/// is a line feed, and where it lies within the text a line feed stands there.
pub proof fn lemma_first_newline(text: Seq<char>)
    ensures
        0 <= first_newline(text) <= text.len(),
        forall|i: int| 0 <= i < first_newline(text) ==> text[i] != '\n',
        first_newline(text) < text.len() ==> text[first_newline(text)] == '\n',
    decreases text.len(),
{
    if text.len() == 0 || text[0] == '\n' {
    } else {
        let rest = text.drop_first();
        lemma_first_newline(rest);
        assert forall|i: int| 0 <= i < first_newline(text) implies text[i] != '\n' by {
            if i > 0 {
                assert(text[i] == rest[i - 1]);
            }
        }
        if first_newline(text) < text.len() {
            assert(text[first_newline(text)] == rest[first_newline(rest)]);
        }
    }
}

/// An index with a line feed at it, or the end of the text, and no line feed
/// before it, is where the first line feed lies.
pub proof fn lemma_first_newline_unique(text: Seq<char>, k: int)
    requires
        0 <= k <= text.len(),
        forall|i: int| 0 <= i < k ==> text[i] != '\n',
        k < text.len() ==> text[k] == '\n',
    ensures
        first_newline(text) == k,
{
    lemma_first_newline(text);
}

/// The empty sequence stands in every sequence.
pub proof fn lemma_empty_needle<T>(hay: Seq<T>, needle: Seq<T>)
    requires
        needle.len() == 0,
    ensures
        has_substring(hay, needle),
{
    assert(hay.subrange(0, 0) =~= needle);
    assert(occurs_at(needle, hay, 0));
}

} // verus!

//! Ignoring case against not ignoring it. Lower-casing can depend on what
//! stands around a letter, so a pattern found in a line need not be found
//! once both are in lower case. It is found where pattern and line are
//! lower-cased one character at a time, and where the line is lower-cased
//! piece by piece around the pattern.

use vstd::prelude::*;
use crate::scan::{line_matches, normalized};
use crate::substring::{lemma_middle_occurs, occurs_at};
use crate::text::{lowercase, lowercase_of};

verus! {

/// The lower-case forms of the characters of `text`, each taken by itself,
/// one after the other.
pub open spec fn lowercase_by_character(text: Seq<char>) -> Seq<char>
    decreases text.len(),
{
    if text.len() == 0 {
        Seq::empty()
    } else {
        lowercase_of(seq![text[0]]) + lowercase_by_character(text.drop_first())
    }
}

/// The lower-case form of `text` is that of its characters, each taken by
/// itself: no character of it is lower-cased by what stands around it.
pub open spec fn folds_by_character(text: Seq<char>) -> bool {
    lowercase_of(text) == lowercase_by_character(text)
}

/// Lower-casing character by character goes through a join.
pub proof fn lemma_lowercase_by_character_joined(a: Seq<char>, b: Seq<char>)
    ensures
        lowercase_by_character(a + b) == lowercase_by_character(a) + lowercase_by_character(b),
    decreases a.len(),
{
    if a.len() == 0 {
        assert(a + b =~= b);
        assert(lowercase_by_character(a) + lowercase_by_character(b) =~= lowercase_by_character(
            b,
        ));
    } else {
        let head = lowercase_of(seq![a[0]]);
        assert((a + b).drop_first() =~= a.drop_first() + b);
        lemma_lowercase_by_character_joined(a.drop_first(), b);
        let tail = lowercase_by_character(a.drop_first());
        assert(head + (tail + lowercase_by_character(b)) =~= (head + tail)
            + lowercase_by_character(b));
    }
}

/// Whether `text` is lower-cased one character at a time.
pub fn lowers_by_character(text: &str) -> (r: bool)
    ensures
        r == folds_by_character(text@),
{
    let whole = lowercase(text);
    let count: usize = text.unicode_len();
    let mut pieces = String::new();
    let mut i: usize = 0;
    proof {
        assert(text@.subrange(0, 0) =~= Seq::empty());
    }
    while i < count
        invariant
            i <= count == text@.len(),
            pieces@ == lowercase_by_character(text@.subrange(0, i as int)),
        decreases count - i,
    {
        let one = text.substring_char(i, i + 1);
        let lowered = lowercase(one);
        pieces.append(lowered.as_str());
        proof {
            let before = text@.subrange(0, i as int);
            assert(text@.subrange(0, i + 1) =~= before + one@);
            assert(one@ =~= seq![text@[i as int]]);
            assert(seq![one@[0]] =~= one@);
            assert(lowercase_by_character(one@.drop_first()) =~= Seq::empty());
            assert(lowercase_by_character(one@) =~= lowercase_of(one@));
            lemma_lowercase_by_character_joined(before, one@);
        }
        i += 1;
    }
    proof {
        assert(text@.subrange(0, count as int) =~= text@);
    }
    whole == pieces
}

/// A line that holds the pattern still holds it when case is ignored, where
/// line and pattern are lower-cased one character at a time.
pub proof fn lemma_ignoring_case_keeps_match(pattern: Seq<char>, line: Seq<char>)
    requires
        folds_by_character(pattern),
        folds_by_character(line),
    ensures
        line_matches(normalized(pattern, false), false, line) ==> line_matches(
            normalized(pattern, true),
            true,
            line,
        ),
{
    if line_matches(normalized(pattern, false), false, line) {
        let at = choose|at: int| occurs_at(line, pattern, at);
        let before = line.subrange(0, at);
        let after = line.subrange(at + pattern.len(), line.len() as int);
        assert(line =~= before + pattern + after);
        lemma_lowercase_by_character_joined(before + pattern, after);
        lemma_lowercase_by_character_joined(before, pattern);
        lemma_middle_occurs(
            lowercase_by_character(before),
            lowercase_by_character(pattern),
            lowercase_by_character(after),
        );
    }
}

/// The lower-case form of `line` is made of the lower-case forms of what
/// stands before position `at`, of the `length` characters from there on, and
/// of what follows them.
pub open spec fn folds_around(line: Seq<char>, at: int, length: int) -> bool {
    lowercase_of(line) == lowercase_of(line.subrange(0, at)) + lowercase_of(
        line.subrange(at, at + length),
    ) + lowercase_of(line.subrange(at + length, line.len() as int))
}

/// A line that holds the pattern at `at` still holds it when case is
/// ignored, where the line is lower-cased piece by piece around that place.
pub proof fn lemma_ignoring_case_keeps_match_at(pattern: Seq<char>, line: Seq<char>, at: int)
    requires
        occurs_at(line, pattern, at),
        folds_around(line, at, pattern.len() as int),
    ensures
        line_matches(normalized(pattern, true), true, line),
{
    lemma_middle_occurs(
        lowercase_of(line.subrange(0, at)),
        lowercase_of(pattern),
        lowercase_of(line.subrange(at + pattern.len(), line.len() as int)),
    );
}

} // verus!

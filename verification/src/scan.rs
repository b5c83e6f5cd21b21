//! What a search of a file's bytes reports: the lines that match, each with
//! its position, or the first line that is no text.

use vstd::prelude::*;
use vstd::utf8::*;
use crate::lines::split_lines;
use crate::substring::{lemma_empty_occurs, occurs_in};
use crate::text::lowercase_of;

verus! {

/// A line that is not well-formed UTF-8. Lines are counted from 0.
#[derive(Debug, Clone, Copy, PartialEq, Eq, Structural)]
pub struct DecodeError {
    pub line: usize,
}

/// Whether `line` is reported for `pattern`: the pattern occurs in the line,
/// or, where case is ignored, in the line's lower-case form. A pattern for a
/// search that ignores case is kept in lower case (see `normalized`).
pub open spec fn line_matches(pattern: Seq<char>, ignore_case: bool, line: Seq<char>) -> bool {
    if ignore_case {
        occurs_in(lowercase_of(line), pattern)
    } else {
        occurs_in(line, pattern)
    }
}

/// The pattern as a matcher keeps it: in lower case where case is ignored,
/// else as it was given.
pub open spec fn normalized(pattern: Seq<char>, ignore_case: bool) -> Seq<char> {
    if ignore_case {
        lowercase_of(pattern)
    } else {
        pattern
    }
}

/// Every line is well-formed UTF-8.
pub open spec fn decodable(lines: Seq<Seq<u8>>) -> bool {
    forall|i: int| 0 <= i < lines.len() ==> valid_utf8(#[trigger] lines[i])
}

/// `at` is the position of the first line that is not well-formed UTF-8.
pub open spec fn first_undecodable(lines: Seq<Seq<u8>>, at: int) -> bool {
    &&& 0 <= at < lines.len()
    &&& !valid_utf8(lines[at])
    &&& forall|i: int| 0 <= i < at ==> valid_utf8(#[trigger] lines[i])
}

/// The text of each line.
pub open spec fn texts(lines: Seq<Seq<u8>>) -> Seq<Seq<char>> {
    Seq::new(lines.len(), |i: int| decode_utf8(lines[i]))
}

/// Each line with its position, counted from 0.
pub open spec fn numbered(lines: Seq<Seq<char>>) -> Seq<(int, Seq<char>)> {
    Seq::new(lines.len(), |i: int| (i, lines[i]))
}

/// The lines that are reported for `pattern`, each with its position, in the
/// order of the file.
pub open spec fn hits(pattern: Seq<char>, ignore_case: bool, lines: Seq<Seq<char>>) -> Seq<
    (int, Seq<char>),
> {
    numbered(lines).filter(|entry: (int, Seq<char>)| line_matches(pattern, ignore_case, entry.1))
}

/// `outcome` is what a search of `content` gives: the hits among its lines
/// where every line is text, else the position of the first line that is not.
pub open spec fn scan_outcome(
    pattern: Seq<char>,
    ignore_case: bool,
    content: Seq<u8>,
    outcome: Result<Seq<(int, Seq<char>)>, int>,
) -> bool {
    let lines = split_lines(content);
    match outcome {
        Ok(found) => decodable(lines) && found == hits(pattern, ignore_case, texts(lines)),
        Err(at) => first_undecodable(lines, at),
    }
}

/// What a list of reported lines holds.
pub open spec fn found_view(found: Seq<(usize, String)>) -> Seq<(int, Seq<char>)> {
    Seq::new(found.len(), |k: int| (found[k].0 as int, found[k].1@))
}

/// What the result of a search holds.
pub open spec fn outcome_view(outcome: Result<Vec<(usize, String)>, DecodeError>) -> Result<
    Seq<(int, Seq<char>)>,
    int,
> {
    match outcome {
        Ok(found) => Ok(found_view(found@)),
        Err(error) => Err(error.line as int),
    }
}

/// One more line adds itself to the hits if it matches, and changes nothing
/// before it.
pub proof fn lemma_hits_push(
    pattern: Seq<char>,
    ignore_case: bool,
    lines: Seq<Seq<char>>,
    line: Seq<char>,
)
    ensures
        hits(pattern, ignore_case, lines.push(line)) == if line_matches(
            pattern,
            ignore_case,
            line,
        ) {
            hits(pattern, ignore_case, lines).push((lines.len() as int, line))
        } else {
            hits(pattern, ignore_case, lines)
        },
{
    reveal(Seq::filter);
    let more = numbered(lines.push(line));
    assert(more.drop_last() =~= numbered(lines));
    assert(more.last() == (lines.len() as int, line));
}

/// No line, no hit.
pub proof fn lemma_hits_empty(pattern: Seq<char>, ignore_case: bool)
    ensures
        hits(pattern, ignore_case, Seq::empty()) == Seq::<(int, Seq<char>)>::empty(),
{
    reveal(Seq::filter);
    assert(numbered(Seq::empty()) =~= Seq::empty());
}

/// The hits are the matching lines and no others: each carries its position
/// in the file and the line's own text.
pub proof fn lemma_hits_are_the_matching_lines(
    pattern: Seq<char>,
    ignore_case: bool,
    lines: Seq<Seq<char>>,
)
    ensures
        forall|k: int|
            #![trigger hits(pattern, ignore_case, lines)[k]]
            0 <= k < hits(pattern, ignore_case, lines).len() ==> {
                let (at, text) = hits(pattern, ignore_case, lines)[k];
                &&& 0 <= at < lines.len()
                &&& text == lines[at]
                &&& line_matches(pattern, ignore_case, text)
            },
        forall|at: int|
            #![trigger lines[at]]
            0 <= at < lines.len() && line_matches(pattern, ignore_case, lines[at]) ==> hits(
                pattern,
                ignore_case,
                lines,
            ).contains((at, lines[at])),
        hits(pattern, ignore_case, lines).len() <= lines.len(),
    decreases lines.len(),
{
    if lines.len() == 0 {
        lemma_hits_empty(pattern, ignore_case);
        assert(lines =~= Seq::empty());
    } else {
        let front = lines.drop_last();
        let all = hits(pattern, ignore_case, lines);
        let fewer = hits(pattern, ignore_case, front);
        assert(lines =~= front.push(lines.last()));
        lemma_hits_push(pattern, ignore_case, front, lines.last());
        lemma_hits_are_the_matching_lines(pattern, ignore_case, front);
        assert forall|k: int| 0 <= k < all.len() implies {
            let (at, text) = #[trigger] all[k];
            &&& 0 <= at < lines.len()
            &&& text == lines[at]
            &&& line_matches(pattern, ignore_case, text)
        } by {
            if k < fewer.len() {
                assert(all[k] == fewer[k]);
            }
        }
        assert forall|at: int|
            0 <= at < lines.len() && line_matches(
                pattern,
                ignore_case,
                #[trigger] lines[at],
            ) implies all.contains((at, lines[at])) by {
            if at < front.len() {
                assert(front[at] == lines[at]);
                let k = choose|k: int| 0 <= k < fewer.len() && fewer[k] == (at, lines[at]);
                assert(all[k] == (at, lines[at]));
            } else {
                assert(all[all.len() - 1] == (at, lines[at]));
            }
        }
    }
}

/// The hits stand in the order of the file: their positions grow from each
/// to the next.
pub proof fn lemma_hit_positions_increase(
    pattern: Seq<char>,
    ignore_case: bool,
    lines: Seq<Seq<char>>,
)
    ensures
        forall|j: int, k: int|
            #![trigger hits(pattern, ignore_case, lines)[j], hits(pattern, ignore_case, lines)[k]]
            0 <= j < k < hits(pattern, ignore_case, lines).len() ==> hits(
                pattern,
                ignore_case,
                lines,
            )[j].0 < hits(pattern, ignore_case, lines)[k].0,
    decreases lines.len(),
{
    if lines.len() == 0 {
        lemma_hits_empty(pattern, ignore_case);
        assert(lines =~= Seq::empty());
    } else {
        let front = lines.drop_last();
        let all = hits(pattern, ignore_case, lines);
        let fewer = hits(pattern, ignore_case, front);
        assert(lines =~= front.push(lines.last()));
        lemma_hits_push(pattern, ignore_case, front, lines.last());
        lemma_hit_positions_increase(pattern, ignore_case, front);
        lemma_hits_are_the_matching_lines(pattern, ignore_case, front);
        assert forall|j: int, k: int|
            #![trigger all[j], all[k]]
            0 <= j < k < all.len() implies all[j].0 < all[k].0 by {
            assert(all[j] == fewer[j]);
            if k < fewer.len() {
                assert(all[k] == fewer[k]);
            }
        }
    }
}

/// An empty pattern is found in every line, whether or not case is ignored:
/// every line is a hit.
pub proof fn lemma_empty_pattern_hits_every_line(
    pattern: Seq<char>,
    ignore_case: bool,
    lines: Seq<Seq<char>>,
)
    requires
        pattern.len() == 0,
    ensures
        forall|line: Seq<char>| line_matches(pattern, ignore_case, line),
        hits(pattern, ignore_case, lines) == numbered(lines),
    decreases lines.len(),
{
    assert forall|line: Seq<char>| line_matches(pattern, ignore_case, line) by {
        lemma_empty_occurs(lowercase_of(line), pattern);
        lemma_empty_occurs(line, pattern);
    }
    if lines.len() == 0 {
        lemma_hits_empty(pattern, ignore_case);
        assert(lines =~= Seq::empty());
        assert(numbered(lines) =~= Seq::empty());
    } else {
        let front = lines.drop_last();
        assert(lines =~= front.push(lines.last()));
        lemma_hits_push(pattern, ignore_case, front, lines.last());
        lemma_empty_pattern_hits_every_line(pattern, ignore_case, front);
        assert(numbered(lines) =~= numbered(front).push((front.len() as int, lines.last())));
    }
}

/// A search for an empty pattern reports every line of a file whose lines
/// are all text.
pub proof fn lemma_empty_pattern_reports_every_line(
    pattern: Seq<char>,
    ignore_case: bool,
    content: Seq<u8>,
)
    requires
        pattern.len() == 0,
        decodable(split_lines(content)),
    ensures
        scan_outcome(
            pattern,
            ignore_case,
            content,
            Ok(numbered(texts(split_lines(content)))),
        ),
{
    lemma_empty_pattern_hits_every_line(pattern, ignore_case, texts(split_lines(content)));
}

/// What is reported of a line is the line: it stands at the position given,
/// and its bytes are the bytes the file has there, letter case and all.
pub proof fn lemma_reported_text_is_the_line(
    pattern: Seq<char>,
    ignore_case: bool,
    content: Seq<u8>,
    found: Seq<(int, Seq<char>)>,
)
    requires
        scan_outcome(pattern, ignore_case, content, Ok(found)),
    ensures
        forall|k: int|
            #![trigger found[k]]
            0 <= k < found.len() ==> {
                &&& 0 <= found[k].0 < split_lines(content).len()
                &&& encode_utf8(found[k].1) == split_lines(content)[found[k].0]
            },
{
    let lines = split_lines(content);
    lemma_hits_are_the_matching_lines(pattern, ignore_case, texts(lines));
    assert forall|k: int| 0 <= k < found.len() implies {
        &&& 0 <= (#[trigger] found[k]).0 < lines.len()
        &&& encode_utf8(found[k].1) == lines[found[k].0]
    } by {
        let at = found[k].0;
        assert(valid_utf8(lines[at]));
        decode_utf8_encode_utf8(lines[at]);
    }
}

/// Positions are counted from 0 in the order of the file, so what is
/// reported of one file has growing positions.
pub proof fn lemma_reported_positions_increase(
    pattern: Seq<char>,
    ignore_case: bool,
    content: Seq<u8>,
    found: Seq<(int, Seq<char>)>,
)
    requires
        scan_outcome(pattern, ignore_case, content, Ok(found)),
    ensures
        forall|j: int, k: int|
            #![trigger found[j], found[k]]
            0 <= j < k < found.len() ==> 0 <= found[j].0 < found[k].0 < split_lines(
                content,
            ).len(),
{
    let lines = split_lines(content);
    lemma_hits_are_the_matching_lines(pattern, ignore_case, texts(lines));
    lemma_hit_positions_increase(pattern, ignore_case, texts(lines));
}

/// A search has one outcome: the same pattern, policy and content always
/// give the same result.
pub proof fn lemma_outcome_is_unique(
    pattern: Seq<char>,
    ignore_case: bool,
    content: Seq<u8>,
    first: Result<Seq<(int, Seq<char>)>, int>,
    second: Result<Seq<(int, Seq<char>)>, int>,
)
    requires
        scan_outcome(pattern, ignore_case, content, first),
        scan_outcome(pattern, ignore_case, content, second),
    ensures
        first == second,
{
}

} // verus!

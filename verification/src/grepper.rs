//! The matchers. One looks for the pattern as it stands; the other lower-cases
//! pattern and line first. Both read a file's bytes line by line.

use vstd::prelude::*;
use vstd::slice::slice_subrange;
use vstd::utf8::*;
use crate::encoding::text_contains;
use crate::lines::{next_line, split_lines};
use crate::scan::{
    decodable, found_view, hits, lemma_hits_empty, lemma_hits_push,
    lemma_reported_positions_increase, lemma_reported_text_is_the_line, line_matches,
    outcome_view, scan_outcome, texts, DecodeError,
};
use crate::text::{decode, lowercase, lowercase_of};

verus! {

/// A matcher: a pattern, and one of the two ways to look for it.
pub trait Grepper {
    /// The pattern as the matcher keeps it.
    spec fn pattern(&self) -> Seq<char>;

    /// Whether a line is lower-cased before the pattern is looked for in it.
    spec fn ignores_case(&self) -> bool;

    /// Whether `line` holds the pattern.
    fn is_match(&self, line: &str) -> (r: bool)
        ensures
            r == line_matches(self.pattern(), self.ignores_case(), line@),
    ;

    /// The lines of `content` that hold the pattern, each with its position
    /// counted from 0 and its text unchanged, in the order of the file. Where
    /// a line is not well-formed UTF-8 nothing is reported but the first such
    /// line.
    fn perform(&self, content: &[u8]) -> (r: Result<Vec<(usize, String)>, DecodeError>)
        ensures
            scan_outcome(self.pattern(), self.ignores_case(), content@, outcome_view(r)),
            r matches Ok(found) ==> forall|k: int|
                #![trigger found@[k]]
                0 <= k < found@.len() ==> {
                    &&& found@[k].0 < split_lines(content@).len()
                    &&& encode_utf8(found@[k].1@) == split_lines(content@)[found@[k].0 as int]
                },
            r matches Ok(found) ==> forall|j: int, k: int|
                #![trigger found@[j], found@[k]]
                0 <= j < k < found@.len() ==> found@[j].0 < found@[k].0,
    {
        let mut found: Vec<(usize, String)> = Vec::new();
        let mut start: usize = 0;
        let mut index: usize = 0;
        let ghost len = content@.len() as int;
        let ghost mut done: Seq<Seq<u8>> = Seq::empty();
        proof {
            lemma_hits_empty(self.pattern(), self.ignores_case());
            assert(texts(done) =~= Seq::empty());
            assert(content@.subrange(0, len) =~= content@);
            assert(done + split_lines(content@) =~= split_lines(content@));
            assert(found_view(found@) =~= Seq::empty());
        }
        loop
            invariant
                len == content@.len(),
                index <= start <= len,
                index == done.len(),
                split_lines(content@) == done + split_lines(content@.subrange(start as int, len)),
                decodable(done),
                found_view(found@) == hits(self.pattern(), self.ignores_case(), texts(done)),
            ensures
                start >= len,
            decreases len - start,
        {
            let (text_end, next) = match next_line(content, start) {
                Some(line) => line,
                None => {
                    break;
                },
            };
            let raw = slice_subrange(content, start, text_end);
            let ghost rest = split_lines(content@.subrange(next as int, len));
            proof {
                assert(split_lines(content@) =~= done.push(raw@) + rest);
            }
            match decode(raw) {
                None => {
                    proof {
                        assert(split_lines(content@)[index as int] == raw@);
                        assert forall|i: int| 0 <= i < index implies valid_utf8(
                            #[trigger] split_lines(content@)[i],
                        ) by {
                            assert(split_lines(content@)[i] == done[i]);
                        }
                    }
                    return Err(DecodeError { line: index });
                },
                Some(line) => {
                    proof {
                        encode_utf8_decode_utf8(line@);
                        assert(texts(done.push(raw@)) =~= texts(done).push(line@));
                        lemma_hits_push(
                            self.pattern(),
                            self.ignores_case(),
                            texts(done),
                            line@,
                        );
                    }
                    if self.is_match(line) {
                        let ghost before = found_view(found@);
                        found.push((index, line.to_owned()));
                        assert(found_view(found@) =~= before.push((index as int, line@)));
                    }
                    proof {
                        done = done.push(raw@);
                    }
                },
            }
            index += 1;
            start = next;
        }
        proof {
            assert(split_lines(content@.subrange(start as int, len)) =~= Seq::empty());
            assert(split_lines(content@) =~= done);
            let reported = found_view(found@);
            lemma_reported_text_is_the_line(
                self.pattern(),
                self.ignores_case(),
                content@,
                reported,
            );
            lemma_reported_positions_increase(
                self.pattern(),
                self.ignores_case(),
                content@,
                reported,
            );
            assert forall|k: int| 0 <= k < found@.len() implies {
                &&& (#[trigger] found@[k]).0 < split_lines(content@).len()
                &&& encode_utf8(found@[k].1@) == split_lines(content@)[found@[k].0 as int]
            } by {
                assert(reported[k] == (found@[k].0 as int, found@[k].1@));
            }
            assert forall|j: int, k: int|
                #![trigger found@[j], found@[k]]
                0 <= j < k < found@.len() implies found@[j].0 < found@[k].0 by {
                assert(reported[j] == (found@[j].0 as int, found@[j].1@));
                assert(reported[k] == (found@[k].0 as int, found@[k].1@));
            }
        }
        Ok(found)
    }
}

/// The matcher that looks for the pattern as it was given.
pub struct DefaultGrepper {
    pattern: String,
}

impl DefaultGrepper {
    /// A matcher for `given_pattern`, letter case and all.
    pub fn new(given_pattern: String) -> (grepper: DefaultGrepper)
        ensures
            grepper.pattern() == given_pattern@,
            !grepper.ignores_case(),
    {
        DefaultGrepper { pattern: given_pattern }
    }
}

impl Grepper for DefaultGrepper {
    closed spec fn pattern(&self) -> Seq<char> {
        self.pattern@
    }

    open spec fn ignores_case(&self) -> bool {
        false
    }

    fn is_match(&self, line: &str) -> (r: bool) {
        text_contains(line, self.pattern.as_str())
    }
}

/// The matcher that pays no regard to letter case: it keeps its pattern in
/// lower case and looks for it in the lower-case form of each line.
pub struct CaseSensitiveGrepper {
    pattern: String,
}

impl CaseSensitiveGrepper {
    /// A matcher for the lower-case form of `given_pattern`.
    pub fn new(given_pattern: String) -> (grepper: CaseSensitiveGrepper)
        ensures
            grepper.pattern() == lowercase_of(given_pattern@),
            grepper.ignores_case(),
            given_pattern@.len() == 0 ==> grepper.pattern().len() == 0,
    {
        CaseSensitiveGrepper { pattern: lowercase(given_pattern.as_str()) }
    }
}

impl Grepper for CaseSensitiveGrepper {
    closed spec fn pattern(&self) -> Seq<char> {
        self.pattern@
    }

    open spec fn ignores_case(&self) -> bool {
        true
    }

    fn is_match(&self, line: &str) -> (r: bool) {
        let folded = lowercase(line);
        text_contains(folded.as_str(), self.pattern.as_str())
    }
}

} // verus!

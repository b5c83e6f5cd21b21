//! A run: from its configuration to its matcher, and from each file's bytes
//! to the output for that file.

use vstd::prelude::*;
use crate::grepper::{CaseSensitiveGrepper, DefaultGrepper, Grepper};
use crate::lines::split_lines;
use crate::report::{output_of, report, strings_view};
use crate::scan::{decodable, first_undecodable, hits, normalized, texts, DecodeError};

verus! {

/// What a run is asked to do: the pattern to look for, whether letter case
/// is ignored, and the files to look in, in their order.
pub struct Config {
    pub pattern: String,
    pub ignore_case: bool,
    pub files: Vec<String>,
}

/// The matcher of a run: one of the two there are.
pub enum Matcher {
    /// Looks for the pattern as it was given.
    Exact(DefaultGrepper),
    /// Looks for the pattern without regard to letter case.
    Folding(CaseSensitiveGrepper),
}

impl Grepper for Matcher {
    open spec fn pattern(&self) -> Seq<char> {
        match self {
            Matcher::Exact(grepper) => grepper.pattern(),
            Matcher::Folding(grepper) => grepper.pattern(),
        }
    }

    open spec fn ignores_case(&self) -> bool {
        self is Folding
    }

    fn is_match(&self, line: &str) -> (r: bool) {
        match self {
            Matcher::Exact(grepper) => grepper.is_match(line),
            Matcher::Folding(grepper) => grepper.is_match(line),
        }
    }
}

/// The matcher that `config` asks for: the one that ignores case where the
/// flag is set, else the exact one.
pub fn build(config: &Config) -> (matcher: Matcher)
    ensures
        matcher is Folding <==> config.ignore_case,
        matcher.ignores_case() == config.ignore_case,
        matcher.pattern() == normalized(config.pattern@, config.ignore_case),
        config.pattern@.len() == 0 ==> matcher.pattern().len() == 0,
{
    if config.ignore_case {
        Matcher::Folding(CaseSensitiveGrepper::new(config.pattern.clone()))
    } else {
        Matcher::Exact(DefaultGrepper::new(config.pattern.clone()))
    }
}

/// `outcome` is what a run gives for one file: an output line for each hit
/// among the lines of `content`, in their order, where every line is text;
/// else the position of the first line that is not.
pub open spec fn search_outcome(
    pattern: Seq<char>,
    ignore_case: bool,
    file_name: Seq<char>,
    content: Seq<u8>,
    outcome: Result<Seq<Seq<char>>, int>,
) -> bool {
    let lines = split_lines(content);
    match outcome {
        Ok(output) => decodable(lines) && output == output_of(
            file_name,
            hits(pattern, ignore_case, texts(lines)),
        ),
        Err(at) => first_undecodable(lines, at),
    }
}

/// What the result of `search` holds.
pub open spec fn output_view(outcome: Result<Vec<String>, DecodeError>) -> Result<
    Seq<Seq<char>>,
    int,
> {
    match outcome {
        Ok(output) => Ok(strings_view(output@)),
        Err(error) => Err(error.line as int),
    }
}

/// The output for the file `file_name` with the bytes `content`: a line for
/// each line that `grepper` reports. A file with a line that is not
/// well-formed UTF-8 gives no output.
pub fn search<G: Grepper>(grepper: &G, file_name: &str, content: &[u8]) -> (r: Result<
    Vec<String>,
    DecodeError,
>)
    ensures
        search_outcome(
            grepper.pattern(),
            grepper.ignores_case(),
            file_name@,
            content@,
            output_view(r),
        ),
{
    match grepper.perform(content) {
        Ok(found) => Ok(report(file_name, &found)),
        Err(error) => Err(error),
    }
}

} // verus!

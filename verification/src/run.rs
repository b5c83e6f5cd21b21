//! A run over the files of a configuration. The run reads no file itself: it
//! says which file it wants next and takes what reading that file gave. It
//! stops at the first file that cannot be read or holds a line that is no
//! text.

use vstd::prelude::*;
use crate::driver::{build, search, search_outcome, Config, Matcher};
use crate::grepper::Grepper;
use crate::report::{format_match, report_line, strings_view};
use crate::scan::normalized;

verus! {

/// Why a run stopped.
#[derive(Debug, PartialEq, Eq)]
pub enum Failure {
    /// The file could not be opened or read; `cause` says why.
    Unreadable { file_name: String, cause: String },
    /// The line at `line` of the file, counted from 0, is not well-formed
    /// UTF-8.
    NotText { file_name: String, line: usize },
}

/// What a `Failure` holds.
pub enum FailureModel {
    Unreadable { file_name: Seq<char>, cause: Seq<char> },
    NotText { file_name: Seq<char>, line: int },
}

impl View for Failure {
    type V = FailureModel;

    open spec fn view(&self) -> FailureModel {
        match self {
            Failure::Unreadable { file_name, cause } => FailureModel::Unreadable {
                file_name: file_name@,
                cause: cause@,
            },
            Failure::NotText { file_name, line } => FailureModel::NotText {
                file_name: file_name@,
                line: *line as int,
            },
        }
    }
}

/// What is said of a line that is no text.
pub open spec fn not_text() -> Seq<char> {
    "stream did not contain valid UTF-8"@
}

/// The diagnostic for a failure. For a file that cannot be read: its name, a
/// colon and the cause. For a line that is no text: what is said of it, laid
/// out as an output line.
pub open spec fn failure_message(failure: FailureModel) -> Seq<char> {
    match failure {
        FailureModel::Unreadable { file_name, cause } => file_name + seq![':', ' '] + cause,
        FailureModel::NotText { file_name, line } => report_line(
            file_name,
            line as nat,
            not_text(),
        ),
    }
}

impl Failure {
    /// The diagnostic for this failure.
    pub fn message(&self) -> (r: String)
        ensures
            r@ == failure_message(self@),
    {
        match self {
            Failure::Unreadable { file_name, cause } => {
                let mut r = file_name.clone();
                r.append(": ");
                r.append(cause.as_str());
                proof {
                    reveal_strlit(": ");
                    assert(": "@ =~= seq![':', ' ']);
                }
                r
            },
            Failure::NotText { file_name, line } => format_match(
                file_name.as_str(),
                *line,
                "stream did not contain valid UTF-8",
            ),
        }
    }
}

/// What reading a file gave, as a run sees it: the file's bytes, or the cause
/// for which there are none.
pub open spec fn reading_view(reading: Result<Vec<u8>, String>) -> Result<Seq<u8>, Seq<char>> {
    match reading {
        Ok(content) => Ok(content@),
        Err(cause) => Err(cause@),
    }
}

/// What a run gives for a file.
pub open spec fn step_view(step: Result<Vec<String>, Failure>) -> Result<
    Seq<Seq<char>>,
    FailureModel,
> {
    match step {
        Ok(output) => Ok(strings_view(output@)),
        Err(failure) => Err(failure@),
    }
}

/// `step` is what a run gives for the file `file_name` when reading it gave
/// `reading`: the output for its hits; or the failure that the file cannot be
/// read, with the cause that reading gave; or the failure that a line is no
/// text, with the position of the first such line.
pub open spec fn step_outcome(
    pattern: Seq<char>,
    ignore_case: bool,
    file_name: Seq<char>,
    reading: Result<Seq<u8>, Seq<char>>,
    step: Result<Seq<Seq<char>>, FailureModel>,
) -> bool {
    match reading {
        Err(cause) => step == Err::<Seq<Seq<char>>, FailureModel>(
            FailureModel::Unreadable { file_name, cause },
        ),
        Ok(content) => match step {
            Ok(output) => search_outcome(pattern, ignore_case, file_name, content, Ok(output)),
            Err(FailureModel::NotText { file_name: named, line }) => {
                &&& named == file_name
                &&& search_outcome(pattern, ignore_case, file_name, content, Err(line))
            },
            Err(FailureModel::Unreadable { .. }) => false,
        },
    }
}

/// A run: its matcher, its files, how far it has come, and whether it has
/// stopped on a failure.
pub struct Run {
    matcher: Matcher,
    files: Vec<String>,
    next: usize,
    stopped: bool,
}

impl Run {
    #[verifier::type_invariant]
    spec fn within_files(self) -> bool {
        self.next <= self.files@.len()
    }

    /// The pattern as the run's matcher keeps it.
    pub closed spec fn pattern(&self) -> Seq<char> {
        self.matcher.pattern()
    }

    /// Whether the run ignores letter case.
    pub closed spec fn ignores_case(&self) -> bool {
        self.matcher.ignores_case()
    }

    /// The names of the run's files, in their order.
    pub closed spec fn files(&self) -> Seq<Seq<char>> {
        strings_view(self.files@)
    }

    /// The number of files that the run has searched.
    pub closed spec fn searched(&self) -> nat {
        self.next as nat
    }

    /// Whether the run has stopped on a failure.
    pub closed spec fn stopped(&self) -> bool {
        self.stopped
    }

    /// The file that the run wants read next: the first that it has not
    /// searched, unless it has stopped or searched them all.
    pub open spec fn wants(&self) -> Option<Seq<char>> {
        if !self.stopped() && self.searched() < self.files().len() {
            Some(self.files()[self.searched() as int])
        } else {
            None
        }
    }

    /// A run for `config`, about to begin.
    pub fn new(config: Config) -> (run: Run)
        ensures
            run.pattern() == normalized(config.pattern@, config.ignore_case),
            config.pattern@.len() == 0 ==> run.pattern().len() == 0,
            run.ignores_case() == config.ignore_case,
            run.files() == strings_view(config.files@),
            run.searched() == 0,
            !run.stopped(),
    {
        let matcher = build(&config);
        Run { matcher, files: config.files, next: 0, stopped: false }
    }

    /// The name of the file to read next, if the run goes on.
    pub fn wanted(&self) -> (r: Option<&str>)
        ensures
            match r {
                Some(file_name) => self.wants() == Some(file_name@),
                None => self.wants() is None,
            },
    {
        proof {
            use_type_invariant(self);
        }
        if !self.stopped && self.next < self.files.len() {
            Some(self.files[self.next].as_str())
        } else {
            None
        }
    }

    /// Takes what reading the wanted file gave, and gives the output for that
    /// file or the failure on which the run stops. A run that wants no file
    /// gives no output and stays as it is.
    pub fn feed(&mut self, reading: Result<Vec<u8>, String>) -> (r: Result<Vec<String>, Failure>)
        ensures
            final(self).pattern() == old(self).pattern(),
            final(self).ignores_case() == old(self).ignores_case(),
            final(self).files() == old(self).files(),
            match old(self).wants() {
                Some(file_name) => {
                    &&& step_outcome(
                        old(self).pattern(),
                        old(self).ignores_case(),
                        file_name,
                        reading_view(reading),
                        step_view(r),
                    )
                    &&& final(self).stopped() == (r is Err)
                    &&& final(self).searched() == old(self).searched() + if r is Ok {
                        1nat
                    } else {
                        0nat
                    }
                },
                None => {
                    &&& r matches Ok(output)
                    &&& output@.len() == 0
                    &&& final(self).stopped() == old(self).stopped()
                    &&& final(self).searched() == old(self).searched()
                },
            },
    {
        proof {
            use_type_invariant(&*self);
        }
        if self.stopped || self.next >= self.files.len() {
            return Ok(Vec::new());
        }
        let file_name = self.files[self.next].clone();
        match reading {
            Err(cause) => {
                self.stopped = true;
                Err(Failure::Unreadable { file_name, cause })
            },
            Ok(content) => match search(&self.matcher, file_name.as_str(), content.as_slice()) {
                Ok(output) => {
                    self.next = self.next + 1;
                    Ok(output)
                },
                Err(error) => {
                    self.stopped = true;
                    Err(Failure::NotText { file_name, line: error.line })
                },
            },
        }
    }
}

/// A run has one outcome for a file: the same pattern, policy, file name and
/// reading always give the same output, or the same failure.
pub proof fn lemma_step_is_unique(
    pattern: Seq<char>,
    ignore_case: bool,
    file_name: Seq<char>,
    reading: Result<Seq<u8>, Seq<char>>,
    first: Result<Seq<Seq<char>>, FailureModel>,
    second: Result<Seq<Seq<char>>, FailureModel>,
)
    requires
        step_outcome(pattern, ignore_case, file_name, reading, first),
        step_outcome(pattern, ignore_case, file_name, reading, second),
    ensures
        first == second,
{
}

} // verus!

//! Decisions of a checking run: where each input's configuration comes
//! from, how it is walked, which check runs, and how the run ends.

use crate::config::strs_view;
use vstd::prelude::*;

verus! {

/// What an input path argument denotes.
#[derive(Clone, Copy, Debug, PartialEq, Eq, Structural)]
pub enum InputKind {
    Stdin,
    File,
    Dir,
}

/// The directory whose configuration governs an input: the process's
/// directory for standard input, a file's parent, a directory itself.
pub fn working_dir(kind: InputKind, path: &Vec<String>, process_dir: &Vec<String>) -> (r: Vec<String>)
    requires
        kind == InputKind::File ==> path@.len() > 0,
    ensures
        strs_view(r@) == match kind {
            InputKind::Stdin => strs_view(process_dir@),
            InputKind::File => strs_view(path@).drop_last(),
            InputKind::Dir => strs_view(path@),
        },
{
    match kind {
        InputKind::Stdin => crate::config::copy_strs(process_dir),
        InputKind::Dir => crate::config::copy_strs(path),
        InputKind::File => {
            let mut r: Vec<String> = Vec::new();
            let mut i: usize = 0;
            let n: usize = path.len() - 1;
            while i < n
                invariant
                    n == path@.len() - 1,
                    i <= n,
                    r@.len() == i,
                    forall|j: int| 0 <= j < i ==> r@[j]@ == path@[j]@,
                decreases n - i,
            {
                r.push(path[i].clone());
                i = i + 1;
            }
            assert(strs_view(r@) =~= strs_view(path@).drop_last());
            r
        },
    }
}

/// The number of walker threads for an input: a single file is walked by one.
pub fn thread_count(kind: InputKind, threads: usize) -> (r: usize)
    ensures
        r == if kind == InputKind::File {
            1
        } else {
            threads
        },
{
    if kind == InputKind::File {
        1
    } else {
        threads
    }
}

/// Whether an input is walked serially rather than by a worker pool.
pub fn single_threaded(kind: InputKind, threads: usize) -> (r: bool)
    ensures
        r == (kind == InputKind::File || threads == 1),
{
    thread_count(kind, threads) == 1
}

/// The checking strategy of a run.
#[derive(Clone, Copy, Debug, PartialEq, Eq, Structural)]
pub enum Checks {
    FoundFiles,
    Identifiers,
    Words,
    FixTypos,
    DiffTypos,
    Typos,
}

/// The strategy that the mode switches select; the first switch set, in
/// this order, wins, and reporting typos is the default.
pub fn select_checks(files: bool, identifiers: bool, words: bool, write_changes: bool, diff: bool) -> (r: Checks)
    ensures
        r == if files {
            Checks::FoundFiles
        } else if identifiers {
            Checks::Identifiers
        } else if words {
            Checks::Words
        } else if write_changes {
            Checks::FixTypos
        } else if diff {
            Checks::DiffTypos
        } else {
            Checks::Typos
        },
{
    if files {
        Checks::FoundFiles
    } else if identifiers {
        Checks::Identifiers
    } else if words {
        Checks::Words
    } else if write_changes {
        Checks::FixTypos
    } else if diff {
        Checks::DiffTypos
    } else {
        Checks::Typos
    }
}

/// How a run ends.
#[derive(Clone, Copy, Debug, PartialEq, Eq, Structural)]
pub enum Outcome {
    Success,
    TyposFound,
    Failure,
}

/// Exit code of a completed run that found typos; kept apart from the
/// generic failure code and from codes derived from I/O errors.
pub const TYPOS_FOUND_CODE: i32 = 2;

pub const FAILURE_CODE: i32 = 1;

pub const SUCCESS_CODE: i32 = 0;

impl Outcome {
    pub fn code(&self) -> (r: i32)
        ensures
            r == match *self {
                Outcome::Success => SUCCESS_CODE,
                Outcome::TyposFound => TYPOS_FOUND_CODE,
                Outcome::Failure => FAILURE_CODE,
            },
    {
        match self {
            Outcome::Success => SUCCESS_CODE,
            Outcome::TyposFound => TYPOS_FOUND_CODE,
            Outcome::Failure => FAILURE_CODE,
        }
    }
}

/// What the inputs checked so far have found.
#[derive(Clone, Copy, Debug, PartialEq, Eq, Structural)]
pub struct RunStatus {
    pub typos_found: bool,
    pub errors_found: bool,
}

impl RunStatus {
    pub fn new() -> (r: Self)
        ensures
            !r.typos_found,
            !r.errors_found,
    {
        RunStatus { typos_found: false, errors_found: false }
    }

    /// Adds what one input's walk found.
    pub fn record(&mut self, typos_found: bool, errors_found: bool)
        ensures
            final(self).typos_found == (old(self).typos_found || typos_found),
            final(self).errors_found == (old(self).errors_found || errors_found),
    {
        if typos_found {
            self.typos_found = true;
        }
        if errors_found {
            self.errors_found = true;
        }
    }

    /// Errors end a run in failure; otherwise typos give their own outcome.
    pub fn outcome(&self) -> (r: Outcome)
        ensures
            r == if self.errors_found {
                Outcome::Failure
            } else if self.typos_found {
                Outcome::TyposFound
            } else {
                Outcome::Success
            },
    {
        if self.errors_found {
            Outcome::Failure
        } else if self.typos_found {
            Outcome::TyposFound
        } else {
            Outcome::Success
        }
    }
}

impl Default for RunStatus {
    fn default() -> (r: Self)
        ensures
            !r.typos_found,
            !r.errors_found,
    {
        Self::new()
    }
}

} // verus!

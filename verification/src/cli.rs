//! What the command line decides: what the arguments ask for, whether an
//! answer means yes, and the status that a failure ends with.

use crate::text::{chars_of, same_text, texts, trim_range, trimmed};
use vstd::prelude::*;

verus! {

/// What the arguments behind the program's name ask for.
#[derive(Debug, Clone, Copy, PartialEq, Eq)]
pub enum Invocation {
    /// No argument: make the Makefile.
    Run,
    /// `-v` or `--version`.
    Version,
    /// `-h` or `--help`.
    Help,
    /// More than one argument, whatever they are.
    TooManyArguments,
    /// One argument that is none of the four that are known.
    WrongArgument,
}

/// Why a run did not end with a Makefile.
#[derive(Debug, Clone, Copy, PartialEq, Eq)]
pub enum Failure {
    /// More than one argument was given.
    TooManyArguments,
    /// The one argument is not known.
    WrongArgument,
    /// The answer to a question could not be read.
    NoAnswer,
    /// There is no task file.
    InputNotFound,
    /// The task file is there and cannot be read.
    InputUnreadable,
    /// The Makefile cannot be made or written.
    OutputUnwritable,
}

/// What these arguments ask for. More than one argument is too many even
/// where the first is known.
pub open spec fn invocation_of(args: Seq<Seq<char>>) -> Invocation {
    if args.len() == 0 {
        Invocation::Run
    } else if args.len() > 1 {
        Invocation::TooManyArguments
    } else if args[0] == "-v"@ || args[0] == "--version"@ {
        Invocation::Version
    } else if args[0] == "-h"@ || args[0] == "--help"@ {
        Invocation::Help
    } else {
        Invocation::WrongArgument
    }
}

/// Whether `answer` means yes: trimmed, it is `y` or `yes`, in capitals or
/// small letters or both.
pub open spec fn affirms(answer: Seq<char>) -> bool {
    let word = trimmed(answer);
    ||| word.len() == 1 && (word[0] == 'y' || word[0] == 'Y')
    ||| word.len() == 3 && (word[0] == 'y' || word[0] == 'Y') && (word[1] == 'e' || word[1] == 'E')
        && (word[2] == 's' || word[2] == 'S')
}

/// The status that a run ends with after `failure`: 2 where the Makefile could
/// not be written, 1 for everything else. A run without a failure ends with 0.
pub open spec fn status_of(failure: Failure) -> int {
    if failure == Failure::OutputUnwritable {
        2
    } else {
        1
    }
}

/// What `args`, the arguments behind the program's name, ask for.
pub fn invocation(args: &Vec<String>) -> (r: Invocation)
    ensures
        r == invocation_of(texts(args@)),
{
    if args.len() == 0 {
        Invocation::Run
    } else if args.len() > 1 {
        Invocation::TooManyArguments
    } else {
        let arg = args[0].as_str();
        assert(texts(args@)[0] == arg@);
        if same_text(arg, "-v") || same_text(arg, "--version") {
            Invocation::Version
        } else if same_text(arg, "-h") || same_text(arg, "--help") {
            Invocation::Help
        } else {
            Invocation::WrongArgument
        }
    }
}

/// Whether `answer`, a line as it was typed, means yes.
pub fn is_affirmative(answer: &str) -> (r: bool)
    ensures
        r == affirms(answer@),
{
    let chars = chars_of(answer);
    let (start, end) = trim_range(&chars, 0, chars.len());
    proof {
        assert(trimmed(answer@) == chars@.subrange(start as int, end as int));
    }
    if end - start == 1 {
        chars[start] == 'y' || chars[start] == 'Y'
    } else if end - start == 3 {
        (chars[start] == 'y' || chars[start] == 'Y') && (chars[start + 1] == 'e' || chars[start + 1]
            == 'E') && (chars[start + 2] == 's' || chars[start + 2] == 'S')
    } else {
        false
    }
}

impl Failure {
    /// The status that a run ends with after this failure.
    pub fn exit_code(&self) -> (code: i32)
        ensures
            code == status_of(*self),
    {
        match self {
            Failure::OutputUnwritable => 2,
            _ => 1,
        }
    }

    /// Whether the usage is shown after this failure: after all but a
    /// Makefile that could not be written.
    pub fn shows_usage(&self) -> (r: bool)
        ensures
            r == (*self != Failure::OutputUnwritable),
    {
        match self {
            Failure::OutputUnwritable => false,
            _ => true,
        }
    }
}

} // verus!

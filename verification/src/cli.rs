//! The decisions of the command-line program: which streams a command line
//! names, when the usage text is shown instead, and how a run ends.

use crate::csv::{parsed, rendered, transpose_csv};
use crate::error::{message_text, Error};
use crate::table::{is_rectangular, transposed};
use vstd::prelude::*;
use vstd::string::StringExecFns;

verus! {

/// Where the table is read from.
#[derive(Debug, Clone, PartialEq, Eq)]
pub enum Source {
    /// Standard input.
    Stdin,
    /// The file at this path.
    File(String),
}

/// Where the transposed table is written to.
#[derive(Debug, Clone, PartialEq, Eq)]
pub enum Sink {
    /// Standard output.
    Stdout,
    /// The file at this path.
    File(String),
}

/// The two streams of a run.
#[derive(Debug, Clone, PartialEq, Eq)]
pub struct Streams {
    pub input: Source,
    pub output: Sink,
}

/// How a run ends: the exit status of the process, what it has written to
/// its output, and what it has written to the error stream.
#[derive(Debug, Clone, PartialEq, Eq)]
pub struct Outcome {
    pub exit_code: i32,
    pub output: String,
    pub diagnostics: String,
}

impl View for Source {
    type V = Option<Seq<char>>;

    /// The path of the file, and `None` for the standard stream.
    open spec fn view(&self) -> Option<Seq<char>> {
        match self {
            Source::Stdin => None,
            Source::File(path) => Some(path@),
        }
    }
}

impl View for Sink {
    type V = Option<Seq<char>>;

    /// The path of the file, and `None` for the standard stream.
    open spec fn view(&self) -> Option<Seq<char>> {
        match self {
            Sink::Stdout => None,
            Sink::File(path) => Some(path@),
        }
    }
}

/// `arg` is one of the two flags that ask for the usage text.
pub open spec fn is_help_flag(arg: Seq<char>) -> bool {
    arg == "-h"@ || arg == "--help"@
}

/// A help flag stands somewhere on the command line.
pub open spec fn asks_for_help(args: Seq<Seq<char>>) -> bool {
    exists|k: int| 0 <= k < args.len() && is_help_flag(#[trigger] args[k])
}

/// The command line, program name included, leads to the usage text: it
/// holds a help flag, or it does not consist of the program name and at most
/// two more arguments.
pub open spec fn wants_usage(args: Seq<Seq<char>>) -> bool {
    asks_for_help(args) || !(1 <= args.len() <= 3)
}

/// The input that a command line names: the file of its first argument
/// after the program name, and standard input where there is none.
pub open spec fn input_of(args: Seq<Seq<char>>) -> Option<Seq<char>> {
    if args.len() >= 2 {
        Some(args[1])
    } else {
        None
    }
}

/// The output that a command line names: the file of its second argument
/// after the program name, and standard output where there is none.
pub open spec fn output_of(args: Seq<Seq<char>>) -> Option<Seq<char>> {
    if args.len() >= 3 {
        Some(args[2])
    } else {
        None
    }
}

/// The name under which the program was started: the first entry of the
/// command line, and the empty text where the command line is empty.
pub open spec fn program_of(args: Seq<Seq<char>>) -> Seq<char> {
    if args.len() >= 1 {
        args[0]
    } else {
        Seq::empty()
    }
}

/// The usage text for a program of this name: a heading, the two forms with
/// file arguments, and the form that reads from a pipe.
pub open spec fn usage_text(program: Seq<char>) -> Seq<char> {
    "Usage:\n\t"@ + program + " [INPUT_FILE] > [OUTPUT_FILE]\n\t"@ + program
        + " [INPUT_FILE] [OUTPUT_FILE]\n\tcat [INPUT_FILE] | "@ + program + " > [OUTPUT_FILE]\n"@
}

/// Tells whether any argument is `-h` or `--help`.
pub fn has_help_flag(args: &Vec<String>) -> (found: bool)
    ensures
        found == asks_for_help(args.deep_view()),
{
    let short = String::from_str("-h");
    let long = String::from_str("--help");
    let mut k: usize = 0;
    while k < args.len()
        invariant
            k <= args.len(),
            short@ == "-h"@,
            long@ == "--help"@,
            forall|i: int| 0 <= i < k ==> !is_help_flag(#[trigger] args.deep_view()[i]),
        decreases args.len() - k,
    {
        if args[k] == short || args[k] == long {
            assert(is_help_flag(args.deep_view()[k as int]));
            return true;
        }
        k += 1;
    }
    false
}

/// Writes the usage text for a program of this name.
pub fn usage(program: &str) -> (text: String)
    ensures
        text@ == usage_text(program@),
{
    let mut text = String::from_str("Usage:\n\t");
    text.append(program);
    text.append(" [INPUT_FILE] > [OUTPUT_FILE]\n\t");
    text.append(program);
    text.append(" [INPUT_FILE] [OUTPUT_FILE]\n\tcat [INPUT_FILE] | ");
    text.append(program);
    text.append(" > [OUTPUT_FILE]\n");
    text
}

/// Decides from the command line, program name first, where the table is
/// read from and where it is written to. With no argument after the program
/// name both are the standard streams, one argument names the input file, a
/// second one the output file. A command line with a help flag or of any
/// other length ends the run at once: the usage text goes to the error
/// stream, nothing is written to the output, and the exit status is 1.
pub fn resolve_io(args: &Vec<String>) -> (r: Result<Streams, Outcome>)
    ensures
        match r {
            Ok(streams) => {
                &&& !wants_usage(args.deep_view())
                &&& streams.input@ == input_of(args.deep_view())
                &&& streams.output@ == output_of(args.deep_view())
            },
            Err(outcome) => {
                &&& wants_usage(args.deep_view())
                &&& outcome.exit_code == 1
                &&& outcome.output@ == Seq::<char>::empty()
                &&& outcome.diagnostics@ == usage_text(program_of(args.deep_view()))
            },
        },
{
    let n = args.len();
    if has_help_flag(args) || n < 1 || n > 3 {
        let diagnostics = if n >= 1 {
            usage(args[0].as_str())
        } else {
            usage("")
        };
        proof {
            reveal_strlit("");
            assert(""@ =~= Seq::<char>::empty());
        }
        return Err(Outcome { exit_code: 1, output: String::new(), diagnostics });
    }
    let input = if n >= 2 {
        Source::File(args[1].clone())
    } else {
        Source::Stdin
    };
    let output = if n >= 3 {
        Sink::File(args[2].clone())
    } else {
        Sink::Stdout
    };
    Ok(Streams { input, output })
}

/// Transposes the table that was read and says how the run ends. A table
/// whose rows have one length is written out transposed and the exit status
/// is 0. For any other table nothing at all is written to the output, the
/// error message goes to the error stream on a line of its own, and the exit
/// status is 1.
pub fn run(input: &str) -> (outcome: Outcome)
    ensures
        is_rectangular(parsed(input@)) ==> {
            &&& outcome.exit_code == 0
            &&& outcome.output@ == rendered(transposed(parsed(input@)))
            &&& outcome.diagnostics@ == Seq::<char>::empty()
        },
        !is_rectangular(parsed(input@)) ==> {
            &&& outcome.exit_code == 1
            &&& outcome.output@ == Seq::<char>::empty()
            &&& outcome.diagnostics@ == message_text(Error::UnequalRows).push('\n')
        },
{
    match transpose_csv(input) {
        Ok(output) => Outcome { exit_code: 0, output, diagnostics: String::new() },
        Err(error) => {
            let mut diagnostics = error.message();
            diagnostics.push('\n');
            Outcome { exit_code: error.exit_code(), output: String::new(), diagnostics }
        },
    }
}

} // verus!

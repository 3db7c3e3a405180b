//! The command line: `<program> <file_path> <search_term> [flags...]`.
use vstd::prelude::*;
use crate::options::{has_case_flag, CliOptions};

verus! {

/// What was asked for on the command line.
#[derive(Debug, PartialEq, Eq)]
pub struct Command {
    pub file_path: String,
    pub term: String,
    pub options: CliOptions,
}

/// Why the command line cannot be used.
#[derive(Debug, Clone, Copy, PartialEq, Eq, Structural)]
pub enum ArgError {
    /// The file path or the search term is missing.
    MissingArguments,
}

/// Reads the command line `args`, program name first: the file path and the
/// search term stand at positions 1 and 2, and the options are read from
/// everything after them. Fewer than three arguments is an error.
pub fn parse_command(args: &[String]) -> (r: Result<Command, ArgError>)
    ensures
        args@.len() < 3 <==> r is Err,
        r matches Err(e) ==> e == ArgError::MissingArguments,
        r matches Ok(c) ==> {
            &&& c.file_path@ == args@[1]@
            &&& c.term@ == args@[2]@
            &&& c.options.ignore_case == has_case_flag(args@.subrange(3, args@.len() as int))
        },
{
    if args.len() < 3 {
        return Err(ArgError::MissingArguments);
    }
    Ok(
        Command {
            file_path: args[1].clone(),
            term: args[2].clone(),
            options: CliOptions::from_args_after(args, 3),
        },
    )
}

} // verus!

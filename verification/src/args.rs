//! The command line: a pattern, then a path that must exist.

use vstd::prelude::*;
use vstd::string::StringExecFns;
use crate::scanner::GrepArgs;

verus! {

/// Why a command line was refused.
#[derive(Clone, Copy, Debug, PartialEq, Eq, Structural)]
pub enum GrepArgsParseError {
    /// No pattern was given.
    NoPattern,
    /// A pattern was given, and no path.
    NoPath,
    /// The path does not exist.
    InvalidPath,
}

/// The text shown to the user for each refusal.
pub open spec fn error_text(error: GrepArgsParseError) -> Seq<char> {
    match error {
        GrepArgsParseError::NoPattern => "Error! No pattern provided"@,
        GrepArgsParseError::NoPath => "Error! No path provided"@,
        GrepArgsParseError::InvalidPath => "Error! Invalid path"@,
    }
}

impl GrepArgsParseError {
    /// The text shown to the user for this refusal.
    pub fn message(&self) -> (text: String)
        ensures
            text@ == error_text(*self),
    {
        match self {
            GrepArgsParseError::NoPattern => String::from_str("Error! No pattern provided"),
            GrepArgsParseError::NoPath => String::from_str("Error! No path provided"),
            GrepArgsParseError::InvalidPath => String::from_str("Error! Invalid path"),
        }
    }
}

/// Reads the pattern and the path from the words of a command line, of
/// which the first is the program's own name. Words behind the path are
/// ignored. Whether the path exists is not looked at here.
pub fn get_args(argv: &Vec<String>) -> (parsed: Result<GrepArgs, GrepArgsParseError>)
    ensures
        argv@.len() < 2 ==> parsed == Err::<GrepArgs, GrepArgsParseError>(
            GrepArgsParseError::NoPattern,
        ),
        argv@.len() == 2 ==> parsed == Err::<GrepArgs, GrepArgsParseError>(
            GrepArgsParseError::NoPath,
        ),
        argv@.len() > 2 ==> parsed is Ok && parsed->Ok_0.pattern@ == argv@[1]@
            && parsed->Ok_0.path@ == argv@[2]@,
{
    if argv.len() < 2 {
        return Err(GrepArgsParseError::NoPattern);
    }
    if argv.len() < 3 {
        return Err(GrepArgsParseError::NoPath);
    }
    Ok(GrepArgs { pattern: argv[1].clone(), path: argv[2].clone() })
}

/// Lets the arguments through where the path exists, and refuses them as
/// `InvalidPath` where it does not.
pub fn validate_path(args: GrepArgs, exists: bool) -> (checked: Result<GrepArgs, GrepArgsParseError>)
    ensures
        exists ==> checked == Ok::<GrepArgs, GrepArgsParseError>(args),
        !exists ==> checked == Err::<GrepArgs, GrepArgsParseError>(
            GrepArgsParseError::InvalidPath,
        ),
{
    if exists {
        Ok(args)
    } else {
        Err(GrepArgsParseError::InvalidPath)
    }
}

} // verus!

use crate::error::Error;
use vstd::prelude::*;
use vstd::string::StringExecFns;

verus! {

/// How the program runs: reading lines from a prompt, or one source file.
#[derive(Debug, PartialEq, Eq)]
pub enum Mode {
    Prompt,
    File(String),
}

/// The mode the command-line arguments (the program name left out) ask for:
/// none, the prompt; one, that file; more, a usage error.
pub fn choose_mode(args: &Vec<String>) -> (r: Result<Mode, Error>)
    ensures
        args@.len() == 0 ==> r matches Ok(Mode::Prompt),
        args@.len() == 1 ==> (r matches Ok(Mode::File(f)) && f@ == args@[0]@),
        args@.len() > 1 ==> (r matches Err(Error::CLIErrorr(m)) && m@ == "Usage: zerox [file]"@),
{
    match args.len() {
        0 => Ok(Mode::Prompt),
        1 => Ok(Mode::File(args[0].clone())),
        _ => Err(Error::CLIErrorr(String::from_str("Usage: zerox [file]"))),
    }
}

} // verus!

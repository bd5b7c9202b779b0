use vstd::prelude::*;
use vstd::string::StringExecFns;

verus! {

/// The I/O error of std, carried through the library's error type unchanged.
#[verifier::external_type_specification]
#[verifier::external_body]
pub struct ExIoError(std::io::Error);

/// Everything that can go wrong, from reading input to running a program.
#[derive(Debug)]
pub enum Error {
    IOError(std::io::Error),
    CLIErrorr(String),
    LexError(String),
    ParseError(String),
    RuntimeError(String),
    CogegenError(String),
}

/// The message std's `Display` writes for an I/O error. It comes from the operating
/// system and the error's kind, so nothing is stated of it.
#[verifier::external_body]
fn io_error_text(err: &std::io::Error) -> (s: String) {
    err.to_string()
}

impl Error {
    /// The text shown for the error: a heading naming where it arose, a newline, and
    /// the details.
    pub fn describe(&self) -> (s: String)
        ensures
            match self {
                Error::IOError(_) => exists|d: Seq<char>| s@ == "io error\n"@ + d,
                Error::CLIErrorr(m) => s@ == "cli error\n"@ + m@,
                Error::LexError(m) => s@ == "lex error\n"@ + m@,
                Error::ParseError(m) => s@ == "parse error\n"@ + m@,
                Error::RuntimeError(m) => s@ == "eval error\n"@ + m@,
                Error::CogegenError(m) => s@ == "code gen error\n"@ + m@,
            },
    {
        let (mut s, detail) = match self {
            Error::IOError(err) => (String::from_str("io error\n"), io_error_text(err)),
            Error::CLIErrorr(m) => (String::from_str("cli error\n"), m.clone()),
            Error::LexError(m) => (String::from_str("lex error\n"), m.clone()),
            Error::ParseError(m) => (String::from_str("parse error\n"), m.clone()),
            Error::RuntimeError(m) => (String::from_str("eval error\n"), m.clone()),
            Error::CogegenError(m) => (String::from_str("code gen error\n"), m.clone()),
        };
        let ghost head = s@;
        s.append(detail.as_str());
        assert(s@ == head + detail@);
        s
    }
}

impl From<std::io::Error> for Error {
    fn from(value: std::io::Error) -> (e: Self) {
        Self::IOError(value)
    }
}

impl vstd::std_specs::convert::FromSpecImpl<std::io::Error> for Error {
    open spec fn obeys_from_spec() -> bool {
        true
    }

    open spec fn from_spec(value: std::io::Error) -> Self {
        Self::IOError(value)
    }
}

} // verus!

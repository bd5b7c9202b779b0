pub mod cli;
pub mod error;
pub mod interpret;
pub mod lex;
pub mod parse;
pub mod span;
pub mod text;

pub use error::Error;
pub use lex::Lexer;
pub use parse::Parser;
pub use span::Span;

use vstd::prelude::*;

verus! {

pub type Result<T> = std::result::Result<T, Error>;

} // verus!

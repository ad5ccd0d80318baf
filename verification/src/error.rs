//! The error taxonomy of the engine.
//!
//! Every failure carries a human-readable description of the offending
//! token or value. Propagation is fail-fast: the first error aborts the
//! enclosing parse or render entirely.

use vstd::prelude::*;

verus! {

/// A failure of tokenizing, parsing or rendering.
#[derive(Debug)]
pub enum Error {
    /// A malformed delimiter or token stream, such as an expression or tag
    /// region that is opened but never closed.
    Lexer(String),
    /// An unknown tag or block name, a directive's invalid argument
    /// grammar, or an unmatched block end marker.
    Parser(String),
    /// A type mismatch against the values held by the context, such as
    /// iterating over a value that is not an array.
    Render(String),
}

impl Error {
    /// The human-readable description carried by this error.
    pub fn text(&self) -> (r: &String)
        ensures
            r@ == self.text_spec(),
    {
        match self {
            Error::Lexer(m) => m,
            Error::Parser(m) => m,
            Error::Render(m) => m,
        }
    }

    /// The description as a sequence of characters.
    pub open spec fn text_spec(&self) -> Seq<char> {
        match self {
            Error::Lexer(m) => m@,
            Error::Parser(m) => m@,
            Error::Render(m) => m@,
        }
    }
}

} // verus!

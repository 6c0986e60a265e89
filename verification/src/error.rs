use vstd::prelude::*;

use crate::lexer::Token;
use crate::utils::{Annot, Loc};

pub use crate::lexer::{LexError, LexErrorKind};

verus! {

/// Why parsing failed, each variant carrying the offending token where one
/// exists.
#[derive(Debug, Clone, Copy, PartialEq, Eq, Hash)]
pub enum ParseError {
    /// A token stands where the grammar forbids it (after a parenthesized
    /// expression, only `)` may follow).
    UnexpectedToken(Token),
    /// The token cannot begin an atom: it is neither a number nor `(`.
    NotExpression(Token),
    /// A token expected to be a binary operator is not one. The grammar's
    /// one-token peek never commits to an operator it has not seen, so no
    /// input produces this variant; it belongs to the closed error set.
    NotOperator(Token),
    /// No matching `)` before the input ended; carries the opening `(`.
    UnclosedOpenParen(Token),
    /// Tokens remain after a complete expression; carries the first leftover.
    RedundantExpression(Token),
    /// The input ended where a token was required.
    Eof,
}

/// Why evaluation failed.
#[derive(Debug, Clone, Copy, PartialEq, Eq, Hash)]
pub enum InterpreterErrorKind {
    /// The right operand of a division evaluated to zero.
    DivisionByZero,
}

/// An evaluation failure annotated with the span of the failing expression.
pub type InterpreterError = Annot<InterpreterErrorKind>;

/// The lexical and syntactic error families, merged for callers that run the
/// whole text-to-tree pipeline.
#[derive(Debug, Clone, Copy, PartialEq, Eq, Hash)]
pub enum Error {
    Lexer(LexError),
    Parser(ParseError),
}

impl From<LexError> for Error {
    fn from(e: LexError) -> (r: Self) {
        Error::Lexer(e)
    }
}

impl vstd::std_specs::convert::FromSpecImpl<LexError> for Error {
    open spec fn obeys_from_spec() -> bool {
        true
    }

    open spec fn from_spec(e: LexError) -> Self {
        Error::Lexer(e)
    }
}

impl From<ParseError> for Error {
    fn from(e: ParseError) -> (r: Self) {
        Error::Parser(e)
    }
}

impl vstd::std_specs::convert::FromSpecImpl<ParseError> for Error {
    open spec fn obeys_from_spec() -> bool {
        true
    }

    open spec fn from_spec(e: ParseError) -> Self {
        Error::Parser(e)
    }
}

/// The span a diagnostic for `e` should highlight in a line of `input_len`
/// bytes: the stored span, widened to the rest of the line for a redundant
/// trailing expression, and one position past the end where the input ended
/// too early.
pub open spec fn spec_diagnostic_loc(e: Error, input_len: usize) -> Loc
    recommends
        input_len < usize::MAX,
{
    match e {
        Error::Lexer(le) => le.loc,
        Error::Parser(pe) => match pe {
            ParseError::UnexpectedToken(t) => t.loc,
            ParseError::NotExpression(t) => t.loc,
            ParseError::NotOperator(t) => t.loc,
            ParseError::UnclosedOpenParen(t) => t.loc,
            ParseError::RedundantExpression(t) => Loc(t.loc.0, input_len),
            ParseError::Eof => Loc(input_len, (input_len + 1) as usize),
        },
    }
}

impl Error {
    /// The span a diagnostic should point at, for a renderer that only knows
    /// the original line and its length.
    pub fn diagnostic_loc(&self, input_len: usize) -> (r: Loc)
        requires
            input_len < usize::MAX,
        ensures
            r == spec_diagnostic_loc(*self, input_len),
    {
        match self {
            Error::Lexer(le) => le.loc,
            Error::Parser(pe) => match pe {
                ParseError::UnexpectedToken(t) => t.loc,
                ParseError::NotExpression(t) => t.loc,
                ParseError::NotOperator(t) => t.loc,
                ParseError::UnclosedOpenParen(t) => t.loc,
                ParseError::RedundantExpression(t) => Loc(t.loc.0, input_len),
                ParseError::Eof => Loc(input_len, input_len + 1),
            },
        }
    }
}

} // verus!

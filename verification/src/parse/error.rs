use vstd::prelude::*;

use crate::parse::token_type::TokenType;
use crate::parse::tokenizer::Token;

verus! {

/// The closed set of parse failures, each carrying the diagnostic context a
/// caller needs to print a "line:col: expected X, found Y" style message.
#[derive(Debug, PartialEq)]
pub enum ParseError {
    /// The scanner could not classify a character sequence.
    UnknownToken { lexeme: String, line: usize, col: usize },
    /// A token was required but the input was exhausted.
    Eof { line: usize, col: usize },
    /// A specific kind of token or construct was required and something else
    /// stood there.
    UnexpectedToken { expected: String, actual: TokenType, lexeme: String, line: usize, col: usize },
    /// An escape hatch for a message-only error; no grammar path produces it.
    Unclassified(String),
}

/// The mathematical model of a parse error.
pub enum SpecError {
    UnknownToken { lexeme: Seq<char>, line: int, col: int },
    Eof { line: int, col: int },
    UnexpectedToken { expected: Seq<char>, actual: TokenType, lexeme: Seq<char>, line: int, col: int },
    Unclassified(Seq<char>),
}

impl View for ParseError {
    type V = SpecError;

    open spec fn view(&self) -> SpecError {
        match self {
            ParseError::UnknownToken { lexeme, line, col } => SpecError::UnknownToken {
                lexeme: lexeme@,
                line: *line as int,
                col: *col as int,
            },
            ParseError::Eof { line, col } => SpecError::Eof {
                line: *line as int,
                col: *col as int,
            },
            ParseError::UnexpectedToken { expected, actual, lexeme, line, col } => {
                SpecError::UnexpectedToken {
                    expected: expected@,
                    actual: *actual,
                    lexeme: lexeme@,
                    line: *line as int,
                    col: *col as int,
                }
            },
            ParseError::Unclassified(msg) => SpecError::Unclassified(msg@),
        }
    }
}

impl From<String> for ParseError {
    fn from(s: String) -> (e: Self) {
        ParseError::Unclassified(s)
    }
}

impl vstd::std_specs::convert::FromSpecImpl<String> for ParseError {
    open spec fn obeys_from_spec() -> bool {
        true
    }

    open spec fn from_spec(s: String) -> Self {
        ParseError::Unclassified(s)
    }
}

impl ParseError {
    /// A required construct was absent: records what was expected and the
    /// token actually found, with its position.
    pub fn unexpected_token(token: Token, msg: &str) -> (e: Self)
        ensures
            e@ == (SpecError::UnexpectedToken {
                expected: msg@,
                actual: token.token_type,
                lexeme: token.data.lexeme@,
                line: token.data.line as int,
                col: token.data.col as int,
            }),
    {
        ParseError::UnexpectedToken {
            expected: msg.to_owned(),
            actual: token.token_type,
            lexeme: token.data.lexeme,
            line: token.data.line,
            col: token.data.col,
        }
    }

    /// Wraps a token the scanner could not classify.
    pub fn unknown_token(token: Token) -> (e: Self)
        requires
            token.token_type == TokenType::UnknownToken,
        ensures
            e@ == (SpecError::UnknownToken {
                lexeme: token.data.lexeme@,
                line: token.data.line as int,
                col: token.data.col as int,
            }),
    {
        ParseError::UnknownToken {
            lexeme: token.data.lexeme,
            line: token.data.line,
            col: token.data.col,
        }
    }
}

} // verus!

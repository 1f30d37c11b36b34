use vstd::prelude::*;
use vstd::string::StringExecFns;

verus! {

/// Why a scan of source text was abandoned.
#[derive(Clone, Copy, Debug, PartialEq, Eq, Structural)]
pub enum LexError {
    /// A numeric literal holds more than one decimal point.
    MalformedNumber,
    /// A numeric literal without a decimal point does not fit in 32 bits.
    IntegerOutOfRange,
    /// The input ended inside a string literal.
    UnterminatedString,
}

/// Why a token stream was rejected.
#[derive(Clone, Copy, Debug, PartialEq, Eq, Structural)]
pub enum ParseError {
    /// The tokens ended before the bracket that closes a group.
    UnterminatedBracketGroup,
    /// A group was asked for with a character that opens no bracket pair.
    UnrecognizedBracket,
    /// The tokens do not have the shape of any statement.
    UnexpectedToken,
}

impl LexError {
    /// The words that name the error.
    pub open spec fn message_text(self) -> Seq<char> {
        match self {
            LexError::MalformedNumber => "Cannot have more than one decimal point in a number!"@,
            LexError::IntegerOutOfRange => "An integer does not fit in 32 bits!"@,
            LexError::UnterminatedString => "Unclosed string!"@,
        }
    }

    /// The words that name the error.
    pub fn message(&self) -> (text: String)
        ensures
            text@ == self.message_text(),
    {
        match self {
            LexError::MalformedNumber => String::from_str(
                "Cannot have more than one decimal point in a number!",
            ),
            LexError::IntegerOutOfRange => String::from_str("An integer does not fit in 32 bits!"),
            LexError::UnterminatedString => String::from_str("Unclosed string!"),
        }
    }
}

impl ParseError {
    /// The words that name the error.
    pub open spec fn message_text(self) -> Seq<char> {
        match self {
            ParseError::UnterminatedBracketGroup => "Could not get parameters, reached EOF!"@,
            ParseError::UnrecognizedBracket => "Could not find matching closing character!"@,
            ParseError::UnexpectedToken => "Unexpected token!"@,
        }
    }

    /// The words that name the error.
    pub fn message(&self) -> (text: String)
        ensures
            text@ == self.message_text(),
    {
        match self {
            ParseError::UnterminatedBracketGroup => String::from_str(
                "Could not get parameters, reached EOF!",
            ),
            ParseError::UnrecognizedBracket => String::from_str(
                "Could not find matching closing character!",
            ),
            ParseError::UnexpectedToken => String::from_str("Unexpected token!"),
        }
    }
}

} // verus!

//! The failures that end a compilation.

use vstd::prelude::*;
use crate::lexer::{kind_name, loc_text, Loc, LocView, TokenKind};
use crate::text::{lit, push_bytes, push_str};

verus! {

/// What the parser was looking for when it met a token it could not use.
#[derive(Clone, Copy, Debug, PartialEq, Eq, Structural)]
pub enum Expected {
    /// A token of one particular kind.
    Kind(TokenKind),
    /// The start of an operand: `(`, a number or an identifier.
    Operand,
    /// An arithmetic operator, or the end of the expression.
    Operator,
    /// The start of a statement.
    Statement,
    /// Text that begins a token of the language.
    Lexeme,
}

/// A fatal error, tagged with the place in the source where it was found.
#[derive(Debug)]
pub enum ParseError {
    /// An identifier has no declaration in the active scope.
    UndefinedSymbol { name: Vec<u8>, loc: Loc },
    /// A token is missing or of the wrong kind. At the end of the token
    /// stream `found` is the text `<eof>`.
    UnexpectedToken { expected: Expected, found: Vec<u8>, loc: Loc },
    /// A `{` is never closed before the end of the token stream.
    UnmatchedDelimiter { opening: Loc },
    /// Text that starts with a digit is neither an integer nor a
    /// floating-point literal.
    MalformedNumericLiteral { text: Vec<u8>, loc: Loc },
}

/// The model of a [`ParseError`].
pub enum ParseErrorView {
    UndefinedSymbol { name: Seq<u8>, loc: LocView },
    UnexpectedToken { expected: Expected, found: Seq<u8>, loc: LocView },
    UnmatchedDelimiter { opening: LocView },
    MalformedNumericLiteral { text: Seq<u8>, loc: LocView },
}

impl View for ParseError {
    type V = ParseErrorView;

    open spec fn view(&self) -> ParseErrorView {
        match *self {
            ParseError::UndefinedSymbol { name, loc } => ParseErrorView::UndefinedSymbol {
                name: name@,
                loc: loc@,
            },
            ParseError::UnexpectedToken { expected, found, loc } => ParseErrorView::UnexpectedToken {
                expected,
                found: found@,
                loc: loc@,
            },
            ParseError::UnmatchedDelimiter { opening } => ParseErrorView::UnmatchedDelimiter {
                opening: opening@,
            },
            ParseError::MalformedNumericLiteral { text, loc } => {
                ParseErrorView::MalformedNumericLiteral { text: text@, loc: loc@ }
            },
        }
    }
}

/// How a message names what was looked for.
pub open spec fn expected_text(expected: Expected) -> Seq<u8> {
    match expected {
        Expected::Kind(kind) => kind_name(kind),
        Expected::Operand => lit("an operand"),
        Expected::Operator => lit("an operator"),
        Expected::Statement => lit("a statement"),
        Expected::Lexeme => lit("a token"),
    }
}

/// The message for an error: the place, the word `error` and what is
/// wrong.
pub open spec fn error_text(e: ParseErrorView) -> Seq<u8> {
    match e {
        ParseErrorView::UndefinedSymbol { name, loc } => loc_text(loc) + lit(
            " error: undefined symbol: ",
        ) + name,
        ParseErrorView::UnexpectedToken { expected, found, loc } => loc_text(loc) + lit(
            " error: expected ",
        ) + expected_text(expected) + lit(", but got: ") + found,
        ParseErrorView::UnmatchedDelimiter { opening } => loc_text(opening) + lit(
            " error: this `{` is never closed",
        ),
        ParseErrorView::MalformedNumericLiteral { text, loc } => loc_text(loc) + lit(
            " error: failed to parse number: ",
        ) + text,
    }
}

impl Expected {
    /// How a message names what was looked for.
    pub fn describe(&self) -> (r: &'static str)
        ensures
            lit(r) == expected_text(*self),
    {
        match self {
            Expected::Kind(kind) => kind.name(),
            Expected::Operand => "an operand",
            Expected::Operator => "an operator",
            Expected::Statement => "a statement",
            Expected::Lexeme => "a token",
        }
    }
}

impl ParseError {
    /// The message for the error.
    pub fn to_text(&self) -> (r: Vec<u8>)
        ensures
            r@ == error_text(self@),
    {
        match self {
            ParseError::UndefinedSymbol { name, loc } => {
                let mut r: Vec<u8> = loc.to_text();
                push_str(&mut r, " error: undefined symbol: ");
                push_bytes(&mut r, name.as_slice());
                r
            },
            ParseError::UnexpectedToken { expected, found, loc } => {
                let mut r: Vec<u8> = loc.to_text();
                push_str(&mut r, " error: expected ");
                push_str(&mut r, expected.describe());
                push_str(&mut r, ", but got: ");
                push_bytes(&mut r, found.as_slice());
                r
            },
            ParseError::UnmatchedDelimiter { opening } => {
                let mut r: Vec<u8> = opening.to_text();
                push_str(&mut r, " error: this `{` is never closed");
                r
            },
            ParseError::MalformedNumericLiteral { text, loc } => {
                let mut r: Vec<u8> = loc.to_text();
                push_str(&mut r, " error: failed to parse number: ");
                push_bytes(&mut r, text.as_slice());
                r
            },
        }
    }
}

} // verus!

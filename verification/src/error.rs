//! The failures of a parse.

use vstd::prelude::*;
use vstd::string::StringExecFns;

verus! {

/// What the grammar found wrong at the position of a syntax error.
#[derive(Debug, Clone, Copy, PartialEq, Eq, Hash, Structural)]
pub enum SyntaxFault {
    /// Something other than an element stands at the top level.
    ExpectedElement,
    /// A tag does not continue with a name.
    ExpectedName,
    /// A start tag continues with neither an attribute nor `>`.
    ExpectedAttributeOrTagEnd,
    /// An attribute key is not followed by `=`.
    ExpectedEquals,
    /// An attribute value does not open with `"`.
    ExpectedQuote,
    /// The input ends inside an attribute value.
    UnterminatedValue,
    /// `&` does not begin one of the five predefined entity references.
    UnknownEntity,
    /// The name of an end tag is not followed by `>`.
    ExpectedTagEnd,
    /// An end tag names another element than the one that is open.
    MismatchedEndTag,
    /// The input ends inside an element.
    UnclosedElement,
}

/// Why a parse failed.
#[derive(Debug, Clone, Copy, PartialEq, Eq, Hash, Structural)]
pub enum XmlParseError {
    /// The input does not match the grammar; `position` counts characters.
    SyntaxError { fault: SyntaxFault, position: usize },
    /// A top-level span from `start` to `end` is neither an element nor the end of
    /// the input, or the root span is not a document.
    MalformedDocument { start: usize, end: usize },
}

/// The sentence that describes a syntax fault.
pub open spec fn fault_message(fault: SyntaxFault) -> Seq<char> {
    match fault {
        SyntaxFault::ExpectedElement => "expected an element"@,
        SyntaxFault::ExpectedName => "expected a name"@,
        SyntaxFault::ExpectedAttributeOrTagEnd => "expected an attribute or `>`"@,
        SyntaxFault::ExpectedEquals => "expected `=` after the attribute key"@,
        SyntaxFault::ExpectedQuote => "expected `\"` to open the attribute value"@,
        SyntaxFault::UnterminatedValue => "the attribute value is not closed"@,
        SyntaxFault::UnknownEntity => "unknown entity reference"@,
        SyntaxFault::ExpectedTagEnd => "expected `>` to close the end tag"@,
        SyntaxFault::MismatchedEndTag => "the end tag does not match the start tag"@,
        SyntaxFault::UnclosedElement => "the element is not closed"@,
    }
}

/// The sentence that describes an error.
pub open spec fn error_message(error: XmlParseError) -> Seq<char> {
    match error {
        XmlParseError::SyntaxError { fault, .. } => fault_message(fault),
        XmlParseError::MalformedDocument { .. } => "expected an element at the top level"@,
    }
}

impl SyntaxFault {
    /// The sentence that describes this fault.
    pub fn message(&self) -> (text: String)
        ensures
            text@ == fault_message(*self),
    {
        match self {
            SyntaxFault::ExpectedElement => String::from_str("expected an element"),
            SyntaxFault::ExpectedName => String::from_str("expected a name"),
            SyntaxFault::ExpectedAttributeOrTagEnd => String::from_str("expected an attribute or `>`"),
            SyntaxFault::ExpectedEquals => String::from_str("expected `=` after the attribute key"),
            SyntaxFault::ExpectedQuote => String::from_str("expected `\"` to open the attribute value"),
            SyntaxFault::UnterminatedValue => String::from_str("the attribute value is not closed"),
            SyntaxFault::UnknownEntity => String::from_str("unknown entity reference"),
            SyntaxFault::ExpectedTagEnd => String::from_str("expected `>` to close the end tag"),
            SyntaxFault::MismatchedEndTag => String::from_str("the end tag does not match the start tag"),
            SyntaxFault::UnclosedElement => String::from_str("the element is not closed"),
        }
    }
}

impl XmlParseError {
    /// The sentence that describes this error.
    pub fn message(&self) -> (text: String)
        ensures
            text@ == error_message(*self),
    {
        match self {
            XmlParseError::SyntaxError { fault, .. } => fault.message(),
            XmlParseError::MalformedDocument { .. } => String::from_str("expected an element at the top level"),
        }
    }

    /// The character position at which the error was found.
    pub fn position(&self) -> (position: usize)
        ensures
            position == match *self {
                XmlParseError::SyntaxError { position, .. } => position,
                XmlParseError::MalformedDocument { start, .. } => start,
            },
    {
        match self {
            XmlParseError::SyntaxError { position, .. } => *position,
            XmlParseError::MalformedDocument { start, .. } => *start,
        }
    }
}

} // verus!

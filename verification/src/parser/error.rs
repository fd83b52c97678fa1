//! Errors reported by the document parser.

use crate::ir::Span;
use vstd::prelude::*;

verus! {

/// What kind of problem a parse error reports.
#[derive(Debug, Clone, Copy, PartialEq, Eq, Structural)]
pub enum ParseErrorKind {
    XmlSyntax,
    UnknownWidget,
    InvalidValue,
    InvalidExpression,
    MissingAttribute,
    UnsupportedVersion,
    DeprecatedAttribute,
    InvalidChild,
}

/// A parse error with its location and an optional suggestion.
#[derive(Debug, Clone, PartialEq)]
pub struct ParseError {
    pub kind: ParseErrorKind,
    pub message: String,
    pub span: Span,
    pub suggestion: Option<String>,
}

/// View of a parse error: texts as character sequences.
pub struct SpecParseError {
    pub kind: ParseErrorKind,
    pub message: Seq<char>,
    pub span: Span,
    pub suggestion: Option<Seq<char>>,
}

pub open spec fn opt_view(o: Option<String>) -> Option<Seq<char>> {
    match o {
        Some(s) => Some(s@),
        None => None,
    }
}

impl View for ParseError {
    type V = SpecParseError;

    open spec fn view(&self) -> SpecParseError {
        SpecParseError {
            kind: self.kind,
            message: self.message@,
            span: self.span,
            suggestion: opt_view(self.suggestion),
        }
    }
}

/// The view of an error built from its parts.
pub open spec fn perr(
    kind: ParseErrorKind,
    message: Seq<char>,
    span: Span,
    suggestion: Option<Seq<char>>,
) -> SpecParseError {
    SpecParseError { kind, message, span, suggestion }
}

impl ParseError {
    pub fn new(kind: ParseErrorKind, message: String, span: Span, suggestion: Option<String>) -> (res: ParseError)
        ensures
            res@ == perr(kind, message@, span, opt_view(suggestion)),
    {
        ParseError { kind, message, span, suggestion }
    }
}

} // verus!

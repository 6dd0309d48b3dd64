//! Spans and error records.
use vstd::prelude::*;

verus! {

/// A half-open range `[start, end)` of byte offsets into the source text.
#[derive(Debug, Clone, Copy, PartialEq, Eq, Structural)]
pub struct Span {
    pub start: usize,
    pub end: usize,
}

impl Span {
    pub fn new(start: usize, end: usize) -> (span: Span)
        ensures
            span == (Span { start, end }),
    {
        Span { start, end }
    }

    /// The span that covers the single position `pos`.
    pub fn single(pos: usize) -> (span: Span)
        requires
            pos < usize::MAX,
        ensures
            span == (Span { start: pos, end: (pos + 1) as usize }),
    {
        Span { start: pos, end: pos + 1 }
    }
}

/// The phase that raised an error.
#[derive(Debug, Clone, Copy, PartialEq, Eq, Structural)]
pub enum ErrorKind {
    LexError,
    ParseError,
    RuntimeError,
}

/// An error record: what went wrong, where, and optionally how to fix it.
#[derive(Debug, Clone, PartialEq)]
pub struct BccError {
    pub kind: ErrorKind,
    pub span: Span,
    pub message: String,
    pub help: Option<String>,
}

/// The mathematical content of a [`BccError`].
pub struct ErrorView {
    pub kind: ErrorKind,
    pub span: Span,
    pub message: Seq<char>,
    pub help: Option<Seq<char>>,
}

impl View for BccError {
    type V = ErrorView;

    open spec fn view(&self) -> ErrorView {
        ErrorView {
            kind: self.kind,
            span: self.span,
            message: self.message@,
            help: match self.help {
                Some(h) => Some(h@),
                None => None,
            },
        }
    }
}

/// An error record without help text.
pub open spec fn plain_error(kind: ErrorKind, span: Span, message: Seq<char>) -> ErrorView {
    ErrorView { kind, span, message, help: None }
}

/// An error record with help text.
pub open spec fn helpful_error(
    kind: ErrorKind,
    span: Span,
    message: Seq<char>,
    help: Seq<char>,
) -> ErrorView {
    ErrorView { kind, span, message, help: Some(help) }
}

impl BccError {
    pub fn new(kind: ErrorKind, span: Span, message: String) -> (e: BccError)
        ensures
            e@ == plain_error(kind, span, message@),
    {
        BccError { kind, span, message, help: None }
    }

    pub fn new_with_help(kind: ErrorKind, span: Span, message: String, help: String) -> (e:
        BccError)
        ensures
            e@ == helpful_error(kind, span, message@, help@),
    {
        BccError { kind, span, message, help: Some(help) }
    }

    pub fn lex_error(span: Span, message: String) -> (e: BccError)
        ensures
            e@ == plain_error(ErrorKind::LexError, span, message@),
    {
        BccError::new(ErrorKind::LexError, span, message)
    }

    pub fn parse_error(span: Span, message: String) -> (e: BccError)
        ensures
            e@ == plain_error(ErrorKind::ParseError, span, message@),
    {
        BccError::new(ErrorKind::ParseError, span, message)
    }

    pub fn parse_error_with_help(span: Span, message: String, help: String) -> (e: BccError)
        ensures
            e@ == helpful_error(ErrorKind::ParseError, span, message@, help@),
    {
        BccError::new_with_help(ErrorKind::ParseError, span, message, help)
    }

    pub fn runtime_error(span: Span, message: String) -> (e: BccError)
        ensures
            e@ == plain_error(ErrorKind::RuntimeError, span, message@),
    {
        BccError::new(ErrorKind::RuntimeError, span, message)
    }

    pub fn runtime_error_with_help(span: Span, message: String, help: String) -> (e: BccError)
        ensures
            e@ == helpful_error(ErrorKind::RuntimeError, span, message@, help@),
    {
        BccError::new_with_help(ErrorKind::RuntimeError, span, message, help)
    }

    /// The text shown for this error: its message.
    pub fn to_string(&self) -> (s: String)
        ensures
            s@ == self.message@,
    {
        self.message.clone()
    }
}

} // verus!

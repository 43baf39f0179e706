//! Source spans and diagnostics.

use vstd::prelude::*;

verus! {

/// A half-open byte range `[start, end)` into the original source string.
#[derive(Debug, Clone, Copy, PartialEq, Eq, Structural)]
pub struct Span {
    pub start: usize,
    pub end: usize,
}

impl Span {
    pub fn new(start: usize, end: usize) -> (s: Span)
        ensures
            s == (Span { start, end }),
    {
        Span { start, end }
    }
}

/// A message for a human reader, optionally tied to a source span.
#[derive(Debug, Clone)]
pub struct Diagnostic {
    pub message: String,
    pub span: Option<Span>,
}

impl Diagnostic {
    /// A diagnostic with the given message and no span.
    pub fn new(message: String) -> (d: Diagnostic)
        ensures
            d.message@ == message@,
            d.span is None,
    {
        Diagnostic { message, span: None }
    }

    /// The same diagnostic, now tied to `span`.
    pub fn with_span(self, span: Span) -> (d: Diagnostic)
        ensures
            d.message@ == self.message@,
            d.span == Some(span),
    {
        Diagnostic { message: self.message, span: Some(span) }
    }
}

} // verus!

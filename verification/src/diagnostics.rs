//! Compiler diagnostics: a kind, a message, and an optional path and span.
use vstd::prelude::*;

verus! {

/// An error reported by one of the compiler's phases.
#[derive(Debug, Clone, PartialEq, Eq)]
pub struct Diagnostic {
    /// The phase or rule that rejected the input, such as `parse` or `type`.
    pub kind: String,
    pub message: String,
    pub path: Option<String>,
    pub line: Option<usize>,
    pub column: Option<usize>,
}

impl Diagnostic {
    pub fn new(kind: &str, message: String) -> (d: Diagnostic)
        ensures
            d.kind@ == kind@,
            d.message@ == message@,
            d.path is None,
            d.line is None,
            d.column is None,
    {
        Diagnostic { kind: String::from_str(kind), message, path: None, line: None, column: None }
    }

    /// A diagnostic whose message is a string literal.
    pub fn msg(kind: &str, message: &str) -> (d: Diagnostic)
        ensures
            d.kind@ == kind@,
            d.message@ == message@,
            d.path is None,
            d.line is None,
            d.column is None,
    {
        Diagnostic::new(kind, String::from_str(message))
    }

    pub fn with_path(self, path: String) -> (d: Diagnostic)
        ensures
            d.kind == self.kind,
            d.message == self.message,
            d.path == Some(path),
            d.line == self.line,
            d.column == self.column,
    {
        Diagnostic { path: Some(path), ..self }
    }

    pub fn with_span(self, line: usize, column: usize) -> (d: Diagnostic)
        ensures
            d.kind == self.kind,
            d.message == self.message,
            d.path == self.path,
            d.line == Some(line),
            d.column == Some(column),
    {
        Diagnostic { line: Some(line), column: Some(column), ..self }
    }
}

} // verus!

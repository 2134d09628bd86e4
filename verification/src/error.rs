use vstd::prelude::*;

verus! {

/// A byte range `start..end` in the source text.
#[derive(Debug, Clone, Copy, PartialEq, Eq, Structural)]
pub struct Span {
    pub start: usize,
    pub end: usize,
}

impl Span {
    pub fn new(start: usize, end: usize) -> (s: Self)
        ensures
            s.start == start,
            s.end == end,
    {
        Span { start, end }
    }
}

/// A value together with the source span it came from.
#[derive(Debug, Clone)]
pub struct Spanned<T> {
    pub value: T,
    pub span: Span,
}

impl<T> Spanned<T> {
    pub fn new(value: T, span: Span) -> (s: Self)
        ensures
            s.value == value,
            s.span == span,
    {
        Spanned { value, span }
    }
}

/// The class of an error, for callers that react to a particular failure.
#[derive(Debug, Clone, Copy, PartialEq, Eq, Structural)]
pub enum ErrorKind {
    /// Any error without a dedicated class.
    General,
    /// A standalone `-` extension directly after a rest.
    DashAfterRest,
}

/// An error located at a span of the source, optionally tagged with the path of the file.
#[derive(Debug)]
pub struct JianPuError {
    pub span: Span,
    pub message: String,
    pub path: Option<String>,
    pub kind: ErrorKind,
}

/// The message of an error for a standalone `-` after a rest.
pub open spec fn dash_after_rest_message() -> Seq<char> {
    "standalone `-` cannot extend a rest; write `0` for each further beat of rest"@
}

/// The text `error: <message>` that an error displays as.
pub open spec fn display_text(message: Seq<char>) -> Seq<char> {
    "error: "@ + message
}

impl JianPuError {
    pub fn new(span: Span, message: String) -> (e: Self)
        ensures
            e.span == span,
            e.message@ == message@,
            e.path.is_none(),
            e.kind == ErrorKind::General,
    {
        JianPuError { span, message, path: None, kind: ErrorKind::General }
    }

    /// An error for a standalone `-` that extends a rest.
    pub fn dash_after_rest(span: Span) -> (e: Self)
        ensures
            e.span == span,
            e.message@ == dash_after_rest_message(),
            e.path.is_none(),
            e.kind == ErrorKind::DashAfterRest,
    {
        JianPuError {
            span,
            message: String::from_str("standalone `-` cannot extend a rest; write `0` for each further beat of rest"),
            path: None,
            kind: ErrorKind::DashAfterRest,
        }
    }

    /// Attach the path of the file the error was found in.
    pub fn with_path(self, path: &str) -> (e: Self)
        ensures
            e.span == self.span,
            e.message == self.message,
            e.kind == self.kind,
            e.path matches Some(p) && p@ == path@,
    {
        JianPuError { span: self.span, message: self.message, path: Some(String::from_str(path)), kind: self.kind }
    }

    /// The displayed form of the error: `error: ` followed by the message.
    pub fn to_display_string(&self) -> (s: String)
        ensures
            s@ == display_text(self.message@),
    {
        let mut s = String::from_str("error: ");
        s.append(self.message.as_str());
        s
    }
}

} // verus!

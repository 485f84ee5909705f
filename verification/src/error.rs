use vstd::prelude::*;
use crate::span::Span;
use crate::source_file::SourceFile;
use crate::diagnostic::{DiagnosticView, SourceDiagnostic};

verus! {

/// Compiler phase that produced a compilation error.
#[derive(Debug, Clone, Copy, PartialEq, Eq, Structural)]
pub enum CompilationStage {
    Parser,
    Resolver,
}

/// A failed `assert` or `assert_eq` in a running program.
#[derive(Debug, Clone)]
pub struct AssertionError {
    pub source_file: SourceFile,
    pub span: Span,
    pub message: String,
    /// Rendered expected and actual values, when the assertion compares two values.
    pub diff: Option<(String, String)>,
}

impl AssertionError {
    /// What the assertion reports.
    pub fn summary(&self) -> (summary: &str)
        ensures
            summary@ == self.message@,
    {
        self.message.as_str()
    }

    /// The rendered expected value, when the assertion compares two values.
    pub fn expected(&self) -> (expected: Option<String>)
        ensures
            match self.diff {
                Some((e, _)) => expected matches Some(text) && text@ == e@,
                None => expected is None,
            },
    {
        match &self.diff {
            Some((expected, _)) => Some(expected.clone()),
            None => None,
        }
    }

    /// The rendered actual value, when the assertion compares two values.
    pub fn actual(&self) -> (actual: Option<String>)
        ensures
            match self.diff {
                Some((_, a)) => actual matches Some(text) && text@ == a@,
                None => actual is None,
            },
    {
        match &self.diff {
            Some((_, actual)) => Some(actual.clone()),
            None => None,
        }
    }

    /// An assertion failure that compares an expected and an actual value.
    pub fn new(source_file: &SourceFile, span: Span, message: &str, expected: String, actual: String) -> (error: AssertionError)
        ensures
            error.source_file.path@ == source_file.path@,
            error.source_file.source@ == source_file.source@,
            error.span == span,
            error.message@ == message@,
            error.diff matches Some((e, a)) && e@ == expected@ && a@ == actual@,
    {
        AssertionError {
            source_file: SourceFile::from_strings(source_file.path.clone(), source_file.source.clone()),
            span,
            message: String::from_str(message),
            diff: Some((expected, actual)),
        }
    }

    /// An assertion failure without values to compare.
    pub fn new_without_diff(source_file: &SourceFile, span: Span, message: &str) -> (error: AssertionError)
        ensures
            error.source_file.path@ == source_file.path@,
            error.source_file.source@ == source_file.source@,
            error.span == span,
            error.message@ == message@,
            error.diff is None,
    {
        AssertionError {
            source_file: SourceFile::from_strings(source_file.path.clone(), source_file.source.clone()),
            span,
            message: String::from_str(message),
            diff: None,
        }
    }
}

/// What went wrong.
#[derive(Debug, Clone)]
pub enum ErrorKind {
    Message(String),
    CompilationError(CompilationStage),
    RuntimeError(SourceDiagnostic),
    AssertionError(AssertionError),
}

/// An error of the toolchain, optionally caused by another error.
#[derive(Debug)]
pub struct OcelotError {
    pub kind: ErrorKind,
    pub source: Option<Box<OcelotError>>,
}

/// True when the error carries exactly the message `text`.
pub open spec fn is_message_error(error: OcelotError, text: Seq<char>) -> bool {
    error.kind matches ErrorKind::Message(m) && m@ == text
}

/// The text of one error kind.
pub open spec fn kind_view_text(kind: ErrorKind) -> Seq<char> {
    match kind {
        ErrorKind::Message(m) => m@,
        ErrorKind::CompilationError(CompilationStage::Parser) => "parser compilation failed"@,
        ErrorKind::CompilationError(CompilationStage::Resolver) => "resolver compilation failed"@,
        ErrorKind::RuntimeError(d) => d.message@,
        ErrorKind::AssertionError(a) => a.message@,
    }
}

/// The text of an error followed by the texts of its causes, one per line.
pub open spec fn error_text(error: OcelotError) -> Seq<char>
    decreases error,
{
    match error.source {
        Some(source) => kind_view_text(error.kind) + "\n"@ + error_text(*source),
        None => kind_view_text(error.kind),
    }
}

/// Returns the text of one error kind.
pub fn kind_text(kind: &ErrorKind) -> (text: String)
    ensures
        text@ == kind_view_text(*kind),
{
    match kind {
        ErrorKind::Message(m) => m.clone(),
        ErrorKind::CompilationError(CompilationStage::Parser) => String::from_str("parser compilation failed"),
        ErrorKind::CompilationError(CompilationStage::Resolver) => String::from_str("resolver compilation failed"),
        ErrorKind::RuntimeError(d) => d.message.clone(),
        ErrorKind::AssertionError(a) => a.message.clone(),
    }
}

/// Mathematical content of what went wrong (without the chain of causes).
pub enum FailureView {
    Message(Seq<char>),
    Compilation(CompilationStage),
    Runtime(DiagnosticView),
    Assertion { path: Seq<char>, source: Seq<char>, span: Span, message: Seq<char>, diff: Option<(Seq<char>, Seq<char>)> },
}

/// What an error reports.
pub open spec fn error_view(error: OcelotError) -> FailureView {
    match error.kind {
        ErrorKind::Message(m) => FailureView::Message(m@),
        ErrorKind::CompilationError(stage) => FailureView::Compilation(stage),
        ErrorKind::RuntimeError(d) => FailureView::Runtime(d@),
        ErrorKind::AssertionError(a) => FailureView::Assertion {
            path: a.source_file.path@,
            source: a.source_file.source@,
            span: a.span,
            message: a.message@,
            diff: match a.diff {
                Some((expected, actual)) => Some((expected@, actual@)),
                None => None,
            },
        },
    }
}

/// The text of what went wrong, as `kind_view_text` gives it for the error's kind.
pub open spec fn failure_text(failure: FailureView) -> Seq<char> {
    match failure {
        FailureView::Message(m) => m,
        FailureView::Compilation(CompilationStage::Parser) => "parser compilation failed"@,
        FailureView::Compilation(CompilationStage::Resolver) => "resolver compilation failed"@,
        FailureView::Runtime(d) => d.message,
        FailureView::Assertion { message, .. } => message,
    }
}

/// Result type of fallible operations of the toolchain.
pub type OcelotResult<T> = Result<T, OcelotError>;

impl OcelotError {
    /// An error that carries only a message.
    pub fn message(text: String) -> (error: OcelotError)
        ensures
            error.kind matches ErrorKind::Message(m) && m@ == text@,
            error.source is None,
    {
        OcelotError { kind: ErrorKind::Message(text), source: None }
    }

    /// An error that carries only a message given as a string slice.
    pub fn message_str(text: &str) -> (error: OcelotError)
        ensures
            error.kind matches ErrorKind::Message(m) && m@ == text@,
            error.source is None,
    {
        OcelotError::message(String::from_str(text))
    }

    /// A compilation failure of one compiler phase.
    pub fn compilation_error(stage: CompilationStage) -> (error: OcelotError)
        ensures
            error.kind == ErrorKind::CompilationError(stage),
            error.source is None,
    {
        OcelotError { kind: ErrorKind::CompilationError(stage), source: None }
    }

    /// A runtime failure described by a source diagnostic.
    pub fn runtime_error(diagnostic: SourceDiagnostic) -> (error: OcelotError)
        ensures
            error.kind matches ErrorKind::RuntimeError(d) && d@ == diagnostic@,
            error.source is None,
    {
        OcelotError { kind: ErrorKind::RuntimeError(diagnostic), source: None }
    }

    /// A failed assertion of a running program.
    pub fn assertion_error(assertion: AssertionError) -> (error: OcelotError)
        ensures
            error.kind == ErrorKind::AssertionError(assertion),
            error.source is None,
    {
        OcelotError { kind: ErrorKind::AssertionError(assertion), source: None }
    }

    /// The same error, caused by `source`.
    pub fn with_source(self, source: OcelotError) -> (error: OcelotError)
        ensures
            error.kind == self.kind,
            error.source == Some(Box::new(source)),
    {
        OcelotError { kind: self.kind, source: Some(Box::new(source)) }
    }

    /// Renders the error and its causes, one per line, outermost first.
    pub fn to_test_string(&self) -> (text: String)
        ensures
            text@ == error_text(*self),
        decreases *self,
    {
        let mut text = kind_text(&self.kind);
        match &self.source {
            Some(source) => {
                text.append("\n");
                let rest = source.to_test_string();
                text.append(rest.as_str());
            },
            None => {},
        }
        text
    }

    /// Returns what went wrong.
    pub fn kind(&self) -> (kind: &ErrorKind)
        ensures
            *kind == self.kind,
    {
        &self.kind
    }
}

} // verus!

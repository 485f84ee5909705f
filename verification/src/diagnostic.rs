use vstd::prelude::*;
use crate::span::Span;

verus! {

/// Severity of one source diagnostic.
#[derive(Debug, Clone, Copy, PartialEq, Eq, Structural)]
pub enum DiagnosticLevel {
    Error,
    Warning,
}

/// One labelled span inside a source excerpt; the span is relative to the line.
#[derive(Debug, Clone)]
pub struct SourceAnnotation {
    pub span: Span,
    pub message: String,
}

/// Mathematical content of a [`SourceAnnotation`].
pub struct AnnotationView {
    pub span: Span,
    pub message: Seq<char>,
}

impl View for SourceAnnotation {
    type V = AnnotationView;

    open spec fn view(&self) -> AnnotationView {
        AnnotationView { span: self.span, message: self.message@ }
    }
}

impl SourceAnnotation {
    /// Creates an annotation from its relative span and message.
    pub fn new(span: Span, message: String) -> (annotation: SourceAnnotation)
        ensures
            annotation@ == (AnnotationView { span, message: message@ }),
    {
        SourceAnnotation { span, message }
    }
}

/// One source line quoted by a diagnostic, with its annotations.
#[derive(Debug, Clone)]
pub struct SourceExcerpt {
    pub file_path: String,
    pub line_number: usize,
    pub source_line: String,
    pub annotations: Vec<SourceAnnotation>,
}

/// Mathematical content of a [`SourceExcerpt`].
pub struct ExcerptView {
    pub file_path: Seq<char>,
    pub line_number: nat,
    pub source_line: Seq<char>,
    pub annotations: Seq<AnnotationView>,
}

impl View for SourceExcerpt {
    type V = ExcerptView;

    open spec fn view(&self) -> ExcerptView {
        ExcerptView {
            file_path: self.file_path@,
            line_number: self.line_number as nat,
            source_line: self.source_line@,
            annotations: self.annotations@.map_values(|a: SourceAnnotation| a@),
        }
    }
}

impl SourceExcerpt {
    /// Creates an excerpt of one source line without annotations.
    pub fn new(file_path: String, line_number: usize, source_line: String) -> (excerpt:
        SourceExcerpt)
        ensures
            excerpt@ == (ExcerptView {
                file_path: file_path@,
                line_number: line_number as nat,
                source_line: source_line@,
                annotations: Seq::empty(),
            }),
    {
        let excerpt = SourceExcerpt { file_path, line_number, source_line, annotations: Vec::new() };
        assert(excerpt@.annotations =~= Seq::<AnnotationView>::empty());
        excerpt
    }

    /// Adds one annotation after the existing ones.
    pub fn with_annotation(self, annotation: SourceAnnotation) -> (excerpt: SourceExcerpt)
        ensures
            excerpt@ == (ExcerptView { annotations: self@.annotations.push(annotation@), ..self@ }),
    {
        let mut excerpt = self;
        excerpt.annotations.push(annotation);
        assert(excerpt@.annotations =~= self@.annotations.push(annotation@));
        excerpt
    }
}

/// One message about a source file, with the excerpts that illustrate it.
#[derive(Debug, Clone)]
pub struct SourceDiagnostic {
    pub level: DiagnosticLevel,
    pub file_path: String,
    pub message: String,
    pub excerpts: Vec<SourceExcerpt>,
}

/// Mathematical content of a [`SourceDiagnostic`].
pub struct DiagnosticView {
    pub level: DiagnosticLevel,
    pub file_path: Seq<char>,
    pub message: Seq<char>,
    pub excerpts: Seq<ExcerptView>,
}

impl View for SourceDiagnostic {
    type V = DiagnosticView;

    open spec fn view(&self) -> DiagnosticView {
        DiagnosticView {
            level: self.level,
            file_path: self.file_path@,
            message: self.message@,
            excerpts: self.excerpts@.map_values(|e: SourceExcerpt| e@),
        }
    }
}

impl SourceDiagnostic {
    /// Creates a diagnostic without excerpts.
    pub fn new(level: DiagnosticLevel, file_path: &str, message: &str) -> (diagnostic:
        SourceDiagnostic)
        ensures
            diagnostic@ == (DiagnosticView {
                level,
                file_path: file_path@,
                message: message@,
                excerpts: Seq::empty(),
            }),
    {
        Self::from_strings(level, String::from_str(file_path), String::from_str(message))
    }

    /// Creates a diagnostic without excerpts from owned strings.
    pub fn from_strings(level: DiagnosticLevel, file_path: String, message: String) -> (diagnostic:
        SourceDiagnostic)
        ensures
            diagnostic@ == (DiagnosticView {
                level,
                file_path: file_path@,
                message: message@,
                excerpts: Seq::empty(),
            }),
    {
        let diagnostic = SourceDiagnostic { level, file_path, message, excerpts: Vec::new() };
        assert(diagnostic@.excerpts =~= Seq::<ExcerptView>::empty());
        diagnostic
    }

    /// Adds one excerpt after the existing ones.
    pub fn with_excerpt(self, excerpt: SourceExcerpt) -> (diagnostic: SourceDiagnostic)
        ensures
            diagnostic@ == (DiagnosticView { excerpts: self@.excerpts.push(excerpt@), ..self@ }),
    {
        let mut diagnostic = self;
        diagnostic.excerpts.push(excerpt);
        assert(diagnostic@.excerpts =~= self@.excerpts.push(excerpt@));
        diagnostic
    }
}

/// True when some diagnostic of the sequence has error severity.
pub open spec fn any_error(diagnostics: Seq<DiagnosticView>) -> bool {
    exists|i: int| 0 <= i < diagnostics.len() && (#[trigger] diagnostics[i]).level == DiagnosticLevel::Error
}

/// An ordered collection of diagnostics.
#[derive(Debug, Clone)]
pub struct SourceDiagnostics {
    pub diagnostics: Vec<SourceDiagnostic>,
}

impl View for SourceDiagnostics {
    type V = Seq<DiagnosticView>;

    open spec fn view(&self) -> Seq<DiagnosticView> {
        self.diagnostics@.map_values(|d: SourceDiagnostic| d@)
    }
}

impl SourceDiagnostics {
    /// Creates an empty collection.
    pub fn new() -> (diagnostics: SourceDiagnostics)
        ensures
            diagnostics@ == Seq::<DiagnosticView>::empty(),
    {
        let diagnostics = SourceDiagnostics { diagnostics: Vec::new() };
        assert(diagnostics@ =~= Seq::<DiagnosticView>::empty());
        diagnostics
    }

    /// Returns the collection with one more diagnostic at the end.
    pub fn with_diagnostic(self, diagnostic: SourceDiagnostic) -> (diagnostics: SourceDiagnostics)
        ensures
            diagnostics@ == self@.push(diagnostic@),
    {
        let mut diagnostics = self;
        diagnostics.add_diagnostic(diagnostic);
        diagnostics
    }

    /// Appends one diagnostic.
    pub fn add_diagnostic(&mut self, diagnostic: SourceDiagnostic)
        ensures
            final(self)@ == old(self)@.push(diagnostic@),
    {
        self.diagnostics.push(diagnostic);
        assert(self@ =~= old(self)@.push(diagnostic@));
    }

    /// Appends several diagnostics in order.
    pub fn add_diagnostics(&mut self, diagnostics: Vec<SourceDiagnostic>)
        ensures
            final(self)@ == old(self)@ + diagnostics@.map_values(|d: SourceDiagnostic| d@),
    {
        let ghost added = diagnostics@.map_values(|d: SourceDiagnostic| d@);
        let mut index: usize = 0;
        let total = diagnostics.len();
        assert(added.len() == total);
        let mut remaining = diagnostics;
        let mut reversed: Vec<SourceDiagnostic> = Vec::new();
        while remaining.len() > 0
            invariant
                reversed@.len() + remaining@.len() == added.len(),
                added.len() <= usize::MAX,
                forall|i: int| 0 <= i < remaining@.len() ==> remaining@[i]@ == added[i],
                forall|i: int| 0 <= i < reversed@.len() ==> reversed@[i]@ == added[added.len() - 1 - i],
            decreases remaining@.len(),
        {
            let last = remaining.pop().unwrap();
            reversed.push(last);
        }
        while reversed.len() > 0
            invariant
                index + reversed@.len() == added.len(),
                added.len() <= usize::MAX,
                self@ == old(self)@ + added.subrange(0, index as int),
                forall|i: int| 0 <= i < reversed@.len() ==> reversed@[i]@ == added[added.len() - 1 - i],
            decreases reversed@.len(),
        {
            let next = reversed.pop().unwrap();
            self.add_diagnostic(next);
            index = index + 1;
            assert(added.subrange(0, index as int) =~= added.subrange(0, index - 1).push(added[index - 1]));
        }
        assert(added.subrange(0, index as int) =~= added);
    }

    /// Returns whether any diagnostic has error severity.
    pub fn has_errors(&self) -> (errors: bool)
        ensures
            errors == any_error(self@),
    {
        let mut index: usize = 0;
        while index < self.diagnostics.len()
            invariant
                index <= self.diagnostics@.len(),
                forall|i: int| 0 <= i < index ==> (#[trigger] self@[i]).level != DiagnosticLevel::Error,
            decreases self.diagnostics@.len() - index,
        {
            if self.diagnostics[index].level == DiagnosticLevel::Error {
                assert(self@[index as int].level == DiagnosticLevel::Error);
                return true;
            }
            index = index + 1;
        }
        false
    }
}

impl Default for SourceDiagnostics {
    fn default() -> (diagnostics: SourceDiagnostics)
        ensures
            diagnostics@ == Seq::<DiagnosticView>::empty(),
    {
        SourceDiagnostics::new()
    }
}

/// Adding diagnostics never removes an existing error.
pub proof fn law_errors_persist(before: Seq<DiagnosticView>, added: DiagnosticView)
    ensures
        any_error(before) ==> any_error(before.push(added)),
        added.level == DiagnosticLevel::Error ==> any_error(before.push(added)),
{
    if any_error(before) {
        let i = choose|i: int| 0 <= i < before.len() && (#[trigger] before[i]).level == DiagnosticLevel::Error;
        assert(before.push(added)[i] == before[i]);
    }
    if added.level == DiagnosticLevel::Error {
        assert(before.push(added)[before.len() as int] == added);
    }
}

} // verus!

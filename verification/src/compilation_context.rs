use vstd::prelude::*;
use crate::diagnostic::{any_error, DiagnosticView, SourceDiagnostic, SourceDiagnostics};

verus! {

/// Compilation state that accumulates source diagnostics.
#[derive(Debug, Clone)]
pub struct CompilationContext {
    /// Diagnostics produced during compilation.
    pub source_diagnostics: SourceDiagnostics,
}

impl View for CompilationContext {
    type V = Seq<DiagnosticView>;

    open spec fn view(&self) -> Seq<DiagnosticView> {
        self.source_diagnostics@
    }
}

impl CompilationContext {
    /// Creates a compilation context from the provided source diagnostics.
    pub fn new(source_diagnostics: SourceDiagnostics) -> (context: CompilationContext)
        ensures
            context@ == source_diagnostics@,
    {
        CompilationContext { source_diagnostics }
    }

    /// Appends one diagnostic to this compilation context.
    pub fn add_diagnostic(&mut self, diagnostic: SourceDiagnostic)
        ensures
            final(self)@ == old(self)@.push(diagnostic@),
    {
        self.source_diagnostics.add_diagnostic(diagnostic);
    }

    /// Appends multiple diagnostics to this compilation context, in order.
    pub fn add_diagnostics(&mut self, diagnostics: Vec<SourceDiagnostic>)
        ensures
            final(self)@ == old(self)@ + diagnostics@.map_values(|d: SourceDiagnostic| d@),
    {
        self.source_diagnostics.add_diagnostics(diagnostics);
    }

    /// Returns true when any tracked diagnostic has error severity.
    pub fn has_errors(&self) -> (errors: bool)
        ensures
            errors == any_error(self@),
    {
        self.source_diagnostics.has_errors()
    }
}

impl Default for CompilationContext {
    fn default() -> (context: CompilationContext)
        ensures
            context@ == Seq::<DiagnosticView>::empty(),
    {
        CompilationContext::new(SourceDiagnostics::new())
    }
}

} // verus!

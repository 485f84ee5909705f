use ocelot::compilation_context::CompilationContext;
use ocelot::diagnostic::{DiagnosticLevel, SourceDiagnostic, SourceDiagnostics};

#[test]
fn compilation_context_reports_errors_when_present() {
    let context = CompilationContext::new(
        SourceDiagnostics::new()
            .with_diagnostic(SourceDiagnostic::new(
                DiagnosticLevel::Warning,
                "examples/test.ocelot",
                "unused value",
            ))
            .with_diagnostic(SourceDiagnostic::new(
                DiagnosticLevel::Error,
                "examples/test.ocelot",
                "type mismatch",
            )),
    );

    assert!(context.has_errors());
}

#[test]
fn compilation_context_reports_no_errors_when_only_warnings_are_present() {
    let context = CompilationContext::new(SourceDiagnostics::new().with_diagnostic(
        SourceDiagnostic::new(
            DiagnosticLevel::Warning,
            "examples/test.ocelot",
            "unused value",
        ),
    ));

    assert!(!context.has_errors());
}

#[test]
fn compilation_context_can_add_one_diagnostic() {
    let mut context = CompilationContext::default();

    context.add_diagnostic(SourceDiagnostic::new(
        DiagnosticLevel::Warning,
        "examples/test.ocelot",
        "unused value",
    ));

    assert_eq!(context.source_diagnostics.diagnostics.len(), 1);
    assert_eq!(
        context.source_diagnostics.diagnostics[0].message,
        "unused value"
    );
}

#[test]
fn compilation_context_can_add_multiple_diagnostics() {
    let mut context = CompilationContext::default();

    context.add_diagnostics(vec![
        SourceDiagnostic::new(
            DiagnosticLevel::Warning,
            "examples/test.ocelot",
            "unused value",
        ),
        SourceDiagnostic::new(
            DiagnosticLevel::Error,
            "examples/test.ocelot",
            "type mismatch",
        ),
    ]);

    assert_eq!(context.source_diagnostics.diagnostics.len(), 2);
    assert!(context.has_errors());
}

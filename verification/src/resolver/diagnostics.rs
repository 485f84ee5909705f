use vstd::prelude::*;
use crate::span::Span;
use crate::line_bounds::{
    LineBounds, line_start_of, line_end_of, line_number_of, lemma_line_start_bounds,
    lemma_line_end_bounds,
};
use crate::text::substring;
use crate::source_file::SourceFile;
use crate::lexer::lex::text_of;
use crate::diagnostic::{
    AnnotationView, DiagnosticLevel, DiagnosticView, ExcerptView, SourceAnnotation,
    SourceDiagnostic, SourceExcerpt,
};

verus! {

/// `a - b`, or 0 when `b` exceeds `a`.
pub open spec fn saturating_difference(a: int, b: int) -> usize {
    if a >= b { (a - b) as usize } else { 0 }
}

/// The offset whose line an excerpt quotes: the span start, kept inside the text.
pub open spec fn quoted_offset(bytes: Seq<u8>, span: Span) -> int {
    if span.start <= bytes.len() { span.start as int } else { bytes.len() as int }
}

/// The excerpt that resolver diagnostics quote: the line containing the start of
/// `span`, annotated at the span's offsets relative to that line.
pub open spec fn span_excerpt(path: Seq<char>, bytes: Seq<u8>, span: Span, message: Seq<char>) -> ExcerptView {
    let index = quoted_offset(bytes, span);
    let line_start = line_start_of(bytes, index);
    ExcerptView {
        file_path: path,
        line_number: line_number_of(bytes, index),
        source_line: text_of(bytes, line_start, line_end_of(bytes, index)),
        annotations: seq![
            AnnotationView {
                span: Span {
                    start: saturating_difference(span.start as int, line_start),
                    end: saturating_difference(span.end as int, line_start),
                },
                message,
            },
        ],
    }
}

/// An error diagnostic about `path` with one excerpt.
pub open spec fn span_diagnostic(
    path: Seq<char>,
    bytes: Seq<u8>,
    message: Seq<char>,
    span: Span,
    annotation: Seq<char>,
) -> DiagnosticView {
    DiagnosticView {
        level: DiagnosticLevel::Error,
        file_path: path,
        message,
        excerpts: seq![span_excerpt(path, bytes, span, annotation)],
    }
}

/// Source files this small can be measured in `usize` offsets with room to spare.
pub open spec fn addressable(source_file: SourceFile) -> bool {
    source_file.bytes().len() < usize::MAX
}

/// Builds an excerpt of the line that contains the start of `span`.
pub fn source_excerpt_for_span(source_file: &SourceFile, span: Span, annotation: String) -> (excerpt: SourceExcerpt)
    requires
        addressable(*source_file),
    ensures
        excerpt@ == span_excerpt(source_file.path@, source_file.bytes(), span, annotation@),
{
    let bytes = source_file.source_bytes();
    let index = if span.start <= bytes.len() { span.start } else { bytes.len() };
    let line_bounds = LineBounds::from_bytes(bytes, index);
    proof {
        lemma_line_start_bounds(bytes@, index as int);
        lemma_line_end_bounds(bytes@, index as int);
    }
    let source_line = substring(source_file.source(), line_bounds.line_start, line_bounds.line_end);
    let relative_start = span.start.saturating_sub(line_bounds.line_start);
    let relative_end = span.end.saturating_sub(line_bounds.line_start);
    let excerpt = SourceExcerpt::new(source_file.path.clone(), line_bounds.line_number, source_line)
        .with_annotation(SourceAnnotation::new(Span::new(relative_start, relative_end), annotation));
    proof {
        assert(excerpt@.annotations =~= span_excerpt(source_file.path@, source_file.bytes(), span, annotation@).annotations);
    }
    excerpt
}

/// Builds an error diagnostic for `source_file` that quotes the line of `span`.
pub fn source_diagnostic_for_span(source_file: &SourceFile, message: String, span: Span, annotation: String) -> (diagnostic: SourceDiagnostic)
    requires
        addressable(*source_file),
    ensures
        diagnostic@ == span_diagnostic(source_file.path@, source_file.bytes(), message@, span, annotation@),
{
    let excerpt = source_excerpt_for_span(source_file, span, annotation);
    let diagnostic = SourceDiagnostic::from_strings(DiagnosticLevel::Error, source_file.path.clone(), message)
        .with_excerpt(excerpt);
    assert(diagnostic@.excerpts =~= seq![excerpt@]);
    diagnostic
}

} // verus!

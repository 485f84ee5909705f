use vstd::prelude::*;
use vstd::utf8::*;
use vstd::string::StringSliceAdditionalSpecFns;
use crate::span::Span;
use crate::line_bounds::{
    LineBounds, line_start_of, line_end_of, line_number_of, lemma_line_start_bounds,
    lemma_line_end_bounds,
};
use crate::text::{substring, ascii_edge, is_ascii_byte};
use crate::source_file::SourceFile;
use crate::diagnostic::{
    AnnotationView, DiagnosticLevel, DiagnosticView, ExcerptView, SourceAnnotation,
    SourceDiagnostic, SourceDiagnostics, SourceExcerpt,
};
use crate::lexer::token::{Token, TokenType, TokenView, Trivia, TriviaPiece, TriviaView, token_views, trivia_views};
use crate::lexer::scan::{
    CR, LF, QUOTE, SLASH, SPACE, STAR, TAB, block_comment_close, consume_newlines,
    identifier_end, is_blank, is_identifier_start, is_line_break, keyword_token_type,
    keyword_type, lemma_block_comment_close, lemma_identifier_end, lemma_line_comment_end,
    lemma_newline_run, lemma_string_body_end, line_comment_end, newline_run, punctuation,
    punctuation_token, scan_block_comment, scan_identifier_end, scan_line_comment_end,
    scan_string_body_end, spec_is_identifier_start, spec_is_identifier_continue, string_body_end,
};

verus! {

/// Characters of the source text whose UTF-8 encoding is `bytes[start..end)`.
pub open spec fn text_of(bytes: Seq<u8>, start: int, end: int) -> Seq<char> {
    decode_utf8(bytes.subrange(start, end))
}

/// Result of scanning trivia: the pieces and the offset after them, or the offset of
/// a block comment that is never closed.
pub enum TriviaScan {
    Scanned { pieces: Seq<TriviaView>, end: int },
    UnclosedComment { start: int },
}

pub open spec fn prepend_trivia(piece: TriviaView, rest: TriviaScan) -> TriviaScan {
    match rest {
        TriviaScan::Scanned { pieces, end } => TriviaScan::Scanned {
            pieces: seq![piece] + pieces,
            end,
        },
        TriviaScan::UnclosedComment { start } => TriviaScan::UnclosedComment { start },
    }
}

pub open spec fn append_trivia(prefix: Seq<TriviaView>, rest: TriviaScan) -> TriviaScan {
    match rest {
        TriviaScan::Scanned { pieces, end } => TriviaScan::Scanned { pieces: prefix + pieces, end },
        TriviaScan::UnclosedComment { start } => TriviaScan::UnclosedComment { start },
    }
}

/// The trivia that starts at offset `i`: blanks are skipped, line-break runs, line
/// comments and block comments become pieces.
pub open spec fn trivia_scan(b: Seq<u8>, i: int) -> TriviaScan
    decreases b.len() - i,
{
    if i < 0 || i >= b.len() {
        TriviaScan::Scanned { pieces: seq![], end: i }
    } else if is_blank(b[i]) {
        trivia_scan(b, i + 1)
    } else if is_line_break(b[i]) {
        let run = newline_run(b, i);
        if run.0 <= i || run.0 > b.len() {
            TriviaScan::Scanned { pieces: seq![], end: i }
        } else {
            prepend_trivia(
                TriviaView::Newlines {
                    count: run.1,
                    span: Span { start: i as usize, end: run.0 as usize },
                },
                trivia_scan(b, run.0),
            )
        }
    } else if b[i] == SLASH && i + 1 < b.len() && b[i + 1] == SLASH {
        let e = line_comment_end(b, i + 2);
        if e <= i || e > b.len() {
            TriviaScan::Scanned { pieces: seq![], end: i }
        } else {
            prepend_trivia(
                TriviaView::LineComment {
                    text: text_of(b, i, e),
                    span: Span { start: i as usize, end: e as usize },
                },
                trivia_scan(b, e),
            )
        }
    } else if b[i] == SLASH && i + 1 < b.len() && b[i + 1] == STAR {
        match block_comment_close(b, i + 2, 1) {
            None => TriviaScan::UnclosedComment { start: i },
            Some(e) => if e <= i || e > b.len() {
                TriviaScan::Scanned { pieces: seq![], end: i }
            } else {
                prepend_trivia(
                    TriviaView::BlockComment {
                        text: text_of(b, i, e),
                        span: Span { start: i as usize, end: e as usize },
                    },
                    trivia_scan(b, e),
                )
            },
        }
    } else {
        TriviaScan::Scanned { pieces: seq![], end: i }
    }
}

pub proof fn lemma_trivia_scan(b: Seq<u8>, i: int)
    requires
        0 <= i <= b.len(),
    ensures
        trivia_scan(b, i) matches TriviaScan::Scanned { end, .. } ==> i <= end <= b.len(),
        trivia_scan(b, i) matches TriviaScan::UnclosedComment { start } ==> i <= start && start
            + 2 <= b.len(),
    decreases b.len() - i,
{
    if 0 <= i < b.len() {
        if is_blank(b[i]) {
            lemma_trivia_scan(b, i + 1);
        } else if is_line_break(b[i]) {
            lemma_newline_run(b, i);
            lemma_trivia_scan(b, newline_run(b, i).0);
        } else if b[i] == SLASH && i + 1 < b.len() && b[i + 1] == SLASH {
            lemma_line_comment_end(b, i + 2);
            lemma_trivia_scan(b, line_comment_end(b, i + 2));
        } else if b[i] == SLASH && i + 1 < b.len() && b[i + 1] == STAR {
            lemma_block_comment_close(b, i + 2, 1);
            if let Some(e) = block_comment_close(b, i + 2, 1) {
                lemma_trivia_scan(b, e);
            }
        }
    }
}

/// Why lexing stopped early.
pub enum LexFailure {
    UnterminatedString { start: int, end: int },
    UnterminatedBlockComment { start: int },
}

pub open spec fn token_view(
    token_type: TokenType,
    start: int,
    end: int,
    leading: Seq<TriviaView>,
) -> TokenView {
    TokenView {
        token_type,
        span: Span { start: start as usize, end: end as usize },
        leading,
        trailing: seq![],
    }
}

pub open spec fn prepend_token(
    token: TokenView,
    rest: (Seq<TokenView>, Option<LexFailure>),
) -> (Seq<TokenView>, Option<LexFailure>) {
    (seq![token] + rest.0, rest.1)
}

/// The tokens of `b` from offset `i` on, and the failure that stopped lexing, if any.
pub open spec fn lex_from(b: Seq<u8>, i: int) -> (Seq<TokenView>, Option<LexFailure>)
    decreases b.len() - i,
{
    if i < 0 || i >= b.len() {
        (seq![token_view(TokenType::EndOfFile, i, i, seq![])], None)
    } else {
        match trivia_scan(b, i) {
            TriviaScan::UnclosedComment { start } => (
                seq![token_view(TokenType::EndOfFile, b.len() as int, b.len() as int, seq![])],
                Some(LexFailure::UnterminatedBlockComment { start }),
            ),
            TriviaScan::Scanned { pieces, end: e } => if e < i || e > b.len() {
                (seq![], None)
            } else if e == b.len() {
                (seq![token_view(TokenType::EndOfFile, e, e, pieces)], None)
            } else if b[e] == QUOTE {
                let j = string_body_end(b, e + 1);
                if j <= e || j >= b.len() || is_line_break(b[j]) {
                    (
                        seq![token_view(TokenType::EndOfFile, j, j, seq![])],
                        Some(LexFailure::UnterminatedString { start: e, end: j }),
                    )
                } else {
                    prepend_token(
                        token_view(TokenType::String, e, j + 1, pieces),
                        lex_from(b, j + 1),
                    )
                }
            } else if spec_is_identifier_start(b[e]) {
                let j = identifier_end(b, e + 1);
                if j <= e || j > b.len() {
                    (seq![], None)
                } else {
                    prepend_token(
                        token_view(keyword_type(b.subrange(e, j)), e, j, pieces),
                        lex_from(b, j),
                    )
                }
            } else {
                let p = punctuation(b, e);
                if p.1 <= 0 || e + p.1 > b.len() {
                    (seq![], None)
                } else {
                    prepend_token(token_view(p.0, e, e + p.1, pieces), lex_from(b, e + p.1))
                }
            },
        }
    }
}

/// The excerpt that a lexer diagnostic quotes: the line containing `start`, annotated
/// from `start` to `end` (clipped to the line, at least one byte wide).
pub open spec fn lexer_excerpt(
    path: Seq<char>,
    b: Seq<u8>,
    start: int,
    end: int,
    message: Seq<char>,
) -> ExcerptView {
    let line_start = line_start_of(b, start);
    let line_end = line_end_of(b, start);
    let clipped = if end < line_end { end } else { line_end };
    let annotation_end = if clipped > start + 1 { clipped } else { start + 1 };
    ExcerptView {
        file_path: path,
        line_number: line_number_of(b, start),
        source_line: text_of(b, line_start, line_end),
        annotations: seq![
            AnnotationView {
                span: Span {
                    start: (start - line_start) as usize,
                    end: (annotation_end - line_start) as usize,
                },
                message,
            },
        ],
    }
}

pub open spec fn unterminated_string_view(path: Seq<char>, b: Seq<u8>, start: int, end: int) -> DiagnosticView {
    DiagnosticView {
        level: DiagnosticLevel::Error,
        file_path: path,
        message: "unterminated string literal"@,
        excerpts: seq![lexer_excerpt(path, b, start, end, "string is missing a closing quote"@)],
    }
}

pub open spec fn unterminated_block_comment_view(path: Seq<char>, b: Seq<u8>, start: int) -> DiagnosticView {
    DiagnosticView {
        level: DiagnosticLevel::Error,
        file_path: path,
        message: "unterminated block comment"@,
        excerpts: seq![
            lexer_excerpt(path, b, start, b.len() as int, "block comment is missing a closing `*/`"@),
        ],
    }
}

/// The diagnostic reported for a lexing failure.
pub open spec fn failure_view(path: Seq<char>, b: Seq<u8>, failure: LexFailure) -> DiagnosticView {
    match failure {
        LexFailure::UnterminatedString { start, end } => unterminated_string_view(path, b, start, end),
        LexFailure::UnterminatedBlockComment { start } => unterminated_block_comment_view(path, b, start),
    }
}

/// Builds the excerpt quoted by lexer diagnostics.
fn excerpt_with_annotation(
    source_file: &SourceFile,
    start: usize,
    end: usize,
    annotation_message: &str,
) -> (excerpt: SourceExcerpt)
    requires
        start < source_file.bytes().len(),
        source_file.bytes().len() < usize::MAX,
    ensures
        excerpt@ == lexer_excerpt(
            source_file.path@,
            source_file.bytes(),
            start as int,
            end as int,
            annotation_message@,
        ),
{
    let bytes = source_file.source_bytes();
    let line_bounds = LineBounds::from_bytes(bytes, start);
    let clipped = if end < line_bounds.line_end { end } else { line_bounds.line_end };
    let annotation_end = if clipped > start + 1 { clipped } else { start + 1 };
    proof {
        lemma_line_start_bounds(bytes@, start as int);
        lemma_line_end_bounds(bytes@, start as int);
    }
    let source_line = substring(source_file.source(), line_bounds.line_start, line_bounds.line_end);
    let annotation = SourceAnnotation::new(
        Span::new(start - line_bounds.line_start, annotation_end - line_bounds.line_start),
        String::from_str(annotation_message),
    );
    let excerpt = SourceExcerpt::new(source_file.path.clone(), line_bounds.line_number, source_line)
        .with_annotation(annotation);
    proof {
        assert(excerpt@.annotations =~= lexer_excerpt(
            source_file.path@,
            source_file.bytes(),
            start as int,
            end as int,
            annotation_message@,
        ).annotations);
    }
    excerpt
}

/// The diagnostic for a string literal that starts at `start` and is not closed before `end`.
fn unterminated_string_diagnostic(source_file: &SourceFile, start: usize, end: usize) -> (diagnostic:
    SourceDiagnostic)
    requires
        start < source_file.bytes().len(),
        source_file.bytes().len() < usize::MAX,
    ensures
        diagnostic@ == unterminated_string_view(
            source_file.path@,
            source_file.bytes(),
            start as int,
            end as int,
        ),
{
    let excerpt = excerpt_with_annotation(source_file, start, end, "string is missing a closing quote");
    let diagnostic = SourceDiagnostic::from_strings(
        DiagnosticLevel::Error,
        source_file.path.clone(),
        String::from_str("unterminated string literal"),
    ).with_excerpt(excerpt);
    assert(diagnostic@.excerpts =~= unterminated_string_view(
        source_file.path@,
        source_file.bytes(),
        start as int,
        end as int,
    ).excerpts);
    diagnostic
}

/// The diagnostic for a block comment that opens at `start` and is never closed.
fn unterminated_block_comment_diagnostic(source_file: &SourceFile, start: usize) -> (diagnostic:
    SourceDiagnostic)
    requires
        start < source_file.bytes().len(),
        source_file.bytes().len() < usize::MAX,
    ensures
        diagnostic@ == unterminated_block_comment_view(
            source_file.path@,
            source_file.bytes(),
            start as int,
        ),
{
    let length = source_file.source_bytes().len();
    let excerpt = excerpt_with_annotation(
        source_file,
        start,
        length,
        "block comment is missing a closing `*/`",
    );
    let diagnostic = SourceDiagnostic::from_strings(
        DiagnosticLevel::Error,
        source_file.path.clone(),
        String::from_str("unterminated block comment"),
    ).with_excerpt(excerpt);
    assert(diagnostic@.excerpts =~= unterminated_block_comment_view(
        source_file.path@,
        source_file.bytes(),
        start as int,
    ).excerpts);
    diagnostic
}


/// Skips a block comment whose `/*` is at `start`, returning the offset after its
/// matching `*/`, or the diagnostic for an unterminated comment.
fn skip_block_comment(source_file: &SourceFile, start: usize) -> (result: Result<usize, SourceDiagnostic>)
    requires
        start + 2 <= source_file.bytes().len(),
        source_file.bytes().len() < usize::MAX,
    ensures
        match block_comment_close(source_file.bytes(), start + 2, 1) {
            Some(e) => result == Ok::<usize, SourceDiagnostic>(e as usize),
            None => result is Err && result->Err_0@ == unterminated_block_comment_view(
                source_file.path@,
                source_file.bytes(),
                start as int,
            ),
        },
{
    match scan_block_comment(source_file.source_bytes(), start) {
        Some(end) => Ok(end),
        None => Err(unterminated_block_comment_diagnostic(source_file, start)),
    }
}

/// Collects the trivia at `*index`, advancing `*index` past it.
fn collect_trivia(source_file: &SourceFile, index: &mut usize) -> (result: Result<
    Vec<TriviaPiece>,
    SourceDiagnostic,
>)
    requires
        *old(index) <= source_file.bytes().len(),
        source_file.bytes().len() < usize::MAX,
    ensures
        match trivia_scan(source_file.bytes(), *old(index) as int) {
            TriviaScan::Scanned { pieces, end } => result is Ok && trivia_views(result->Ok_0@)
                == pieces && *final(index) == end,
            TriviaScan::UnclosedComment { start } => result is Err && result->Err_0@
                == unterminated_block_comment_view(
                source_file.path@,
                source_file.bytes(),
                start,
            ),
        },
{
    let bytes = source_file.source_bytes();
    let ghost b = bytes@;
    let mut position: usize = *index;
    let ghost first = position as int;
    let length = bytes.len();
    let mut trivia: Vec<TriviaPiece> = Vec::new();
    proof {
        assert(trivia_views(trivia@) =~= Seq::<TriviaView>::empty());
        assert(append_trivia(seq![], trivia_scan(b, first)) == trivia_scan(b, first)) by {
            match trivia_scan(b, first) {
                TriviaScan::Scanned { pieces, end } => {
                    assert(Seq::<TriviaView>::empty() + pieces =~= pieces);
                },
                _ => {},
            }
        }
    }
    loop
        invariant
            b == bytes@,
            b == source_file.bytes(),
            length == b.len(),
            length < usize::MAX,
            first <= position <= length,
            first == *old(index) as int,
            trivia_scan(b, first) == append_trivia(trivia_views(trivia@), trivia_scan(b, position as int)),
        decreases length - position,
    {
        let ghost before = position as int;
        let ghost acc = trivia_views(trivia@);
        if position >= length {
            proof {
                assert(trivia_scan(b, before) == TriviaScan::Scanned { pieces: seq![], end: before });
                assert(acc + Seq::<TriviaView>::empty() =~= acc);
            }
            *index = position;
            return Ok(trivia);
        }
        let byte = bytes[position];
        if byte == SPACE || byte == TAB {
            position = position + 1;
        } else if byte == LF || byte == CR {
            let start = position;
            proof {
                lemma_newline_run(b, before);
            }
            let count = consume_newlines(bytes, &mut position);
            let piece = TriviaPiece::Newlines { count, span: Span::new(start, position) };
            trivia.push(piece);
            proof {
                assert(trivia_views(trivia@) =~= acc.push(piece@));
                match trivia_scan(b, position as int) {
                    TriviaScan::Scanned { pieces, end } => {
                        assert(acc + (seq![piece@] + pieces) =~= acc.push(piece@) + pieces);
                    },
                    _ => {},
                }
            }
        } else if byte == SLASH && position + 1 < length && bytes[position + 1] == SLASH {
            let start = position;
            let end = scan_line_comment_end(bytes, start + 2);
            proof {
                lemma_line_comment_end(b, start + 2);
            }
            let text = substring(source_file.source(), start, end);
            let piece = TriviaPiece::LineComment { text, span: Span::new(start, end) };
            trivia.push(piece);
            position = end;
            proof {
                assert(trivia_views(trivia@) =~= acc.push(piece@));
                match trivia_scan(b, position as int) {
                    TriviaScan::Scanned { pieces, end } => {
                        assert(acc + (seq![piece@] + pieces) =~= acc.push(piece@) + pieces);
                    },
                    _ => {},
                }
            }
        } else if byte == SLASH && position + 1 < length && bytes[position + 1] == STAR {
            let start = position;
            proof {
                lemma_block_comment_close(b, start + 2, 1);
            }
            let end = match skip_block_comment(source_file, start) {
                Ok(end) => end,
                Err(diagnostic) => {
                    assert(trivia_scan(b, before) == TriviaScan::UnclosedComment { start: before });
                    *index = position;
                    return Err(diagnostic);
                },
            };
            let text = substring(source_file.source(), start, end);
            let piece = TriviaPiece::BlockComment { text, span: Span::new(start, end) };
            trivia.push(piece);
            position = end;
            proof {
                assert(trivia_views(trivia@) =~= acc.push(piece@));
                match trivia_scan(b, position as int) {
                    TriviaScan::Scanned { pieces, end } => {
                        assert(acc + (seq![piece@] + pieces) =~= acc.push(piece@) + pieces);
                    },
                    _ => {},
                }
            }
        } else {
            proof {
                assert(trivia_scan(b, before) == TriviaScan::Scanned { pieces: seq![], end: before });
                assert(acc + Seq::<TriviaView>::empty() =~= acc);
            }
            *index = position;
            return Ok(trivia);
        }
    }
}

/// Tokenizes a source file into lexical tokens, appending the diagnostic of a lexing
/// failure to `source_diagnostics`. Lexing stops at an unterminated string literal or
/// block comment; the token list always ends with an `EndOfFile` token.
pub fn lex(source_file: &SourceFile, source_diagnostics: &mut SourceDiagnostics) -> (tokens: Vec<
    Token,
>)
    requires
        source_file.bytes().len() < usize::MAX,
    ensures
        token_views(tokens@) == lex_from(source_file.bytes(), 0).0,
        tokens_well_ordered(token_views(tokens@), 0, source_file.bytes().len() as int),
        final(source_diagnostics)@ == old(source_diagnostics)@ + match lex_from(
            source_file.bytes(),
            0,
        ).1 {
            None => Seq::<DiagnosticView>::empty(),
            Some(failure) => seq![failure_view(source_file.path@, source_file.bytes(), failure)],
        },
{
    let bytes = source_file.source_bytes();
    let ghost b = bytes@;
    let length = bytes.len();
    let mut tokens: Vec<Token> = Vec::new();
    let mut index: usize = 0;
    proof {
        law_tokens_well_ordered(b, 0);
        assert(token_views(tokens@) =~= Seq::<TokenView>::empty());
        assert(Seq::<TokenView>::empty() + lex_from(b, 0).0 =~= lex_from(b, 0).0);
    }
    loop
        invariant
            b == bytes@,
            b == source_file.bytes(),
            length == b.len(),
            length < usize::MAX,
            index <= length,
            source_diagnostics@ == old(source_diagnostics)@,
            tokens_well_ordered(lex_from(b, 0).0, 0, length as int),
            lex_from(b, 0) == (token_views(tokens@) + lex_from(b, index as int).0, lex_from(
                b,
                index as int,
            ).1),
        decreases length - index,
    {
        let ghost before = index as int;
        let ghost acc = token_views(tokens@);
        if index >= length {
            let token = Token::new(TokenType::EndOfFile, index, index);
            tokens.push(token);
            proof {
                assert(token_views(tokens@) =~= acc.push(token@));
                assert(acc + seq![token@] =~= acc.push(token@));
                assert(old(source_diagnostics)@ + Seq::<DiagnosticView>::empty() =~= old(source_diagnostics)@);
            }
            return tokens;
        }
        proof {
            lemma_trivia_scan(b, before);
        }
        let leading = match collect_trivia(source_file, &mut index) {
            Ok(leading) => leading,
            Err(diagnostic) => {
                source_diagnostics.add_diagnostic(diagnostic);
                let token = Token::new(TokenType::EndOfFile, length, length);
                tokens.push(token);
                proof {
                    assert(token_views(tokens@) =~= acc.push(token@));
                    assert(acc + seq![token@] =~= acc.push(token@));
                }
                return tokens;
            },
        };
        let ghost pieces = trivia_views(leading@);
        if index >= length {
            let token = Token::with_leading_trivia(
                TokenType::EndOfFile,
                Trivia::new(leading, Vec::new()),
                index,
                index,
            );
            tokens.push(token);
            proof {
                assert(token@.trailing =~= Seq::<TriviaView>::empty());
                assert(token_views(tokens@) =~= acc.push(token@));
                assert(acc + seq![token@] =~= acc.push(token@));
                assert(old(source_diagnostics)@ + Seq::<DiagnosticView>::empty() =~= old(source_diagnostics)@);
            }
            return tokens;
        }
        let start = index;
        let byte = bytes[index];
        if byte == QUOTE {
            let end = scan_string_body_end(bytes, start + 1);
            proof {
                lemma_string_body_end(b, start + 1);
            }
            if end >= length || bytes[end] == LF || bytes[end] == CR {
                source_diagnostics.add_diagnostic(unterminated_string_diagnostic(source_file, start, end));
                let token = Token::new(TokenType::EndOfFile, end, end);
                tokens.push(token);
                proof {
                    assert(token_views(tokens@) =~= acc.push(token@));
                    assert(acc + seq![token@] =~= acc.push(token@));
                }
                return tokens;
            }
            let token = Token::with_leading_trivia(
                TokenType::String,
                Trivia::new(leading, Vec::new()),
                start,
                end + 1,
            );
            tokens.push(token);
            index = end + 1;
            proof {
                assert(token@.trailing =~= Seq::<TriviaView>::empty());
                assert(token_views(tokens@) =~= acc.push(token@));
                assert(acc + (seq![token@] + lex_from(b, index as int).0) =~= acc.push(token@) + lex_from(b, index as int).0);
            }
        } else if is_identifier_start(byte) {
            let end = scan_identifier_end(bytes, start + 1);
            proof {
                lemma_identifier_end(b, start + 1);
            }
            let token_type = keyword_token_type(bytes, start, end);
            let token = Token::with_leading_trivia(
                token_type,
                Trivia::new(leading, Vec::new()),
                start,
                end,
            );
            tokens.push(token);
            index = end;
            proof {
                assert(token@.trailing =~= Seq::<TriviaView>::empty());
                assert(token_views(tokens@) =~= acc.push(token@));
                assert(acc + (seq![token@] + lex_from(b, index as int).0) =~= acc.push(token@) + lex_from(b, index as int).0);
            }
        } else {
            let (token_type, width) = punctuation_token(bytes, start);
            let token = Token::with_leading_trivia(
                token_type,
                Trivia::new(leading, Vec::new()),
                start,
                start + width,
            );
            tokens.push(token);
            index = start + width;
            proof {
                assert(token@.trailing =~= Seq::<TriviaView>::empty());
                assert(token_views(tokens@) =~= acc.push(token@));
                assert(acc + (seq![token@] + lex_from(b, index as int).0) =~= acc.push(token@) + lex_from(b, index as int).0);
            }
        }
    }
}


/// Tokens lie inside `[lo, hi]`, in source order, without overlapping; only the last
/// one is `EndOfFile` and every other token covers at least one byte.
pub open spec fn tokens_well_ordered(tokens: Seq<TokenView>, lo: int, hi: int) -> bool {
    &&& tokens.len() >= 1
    &&& tokens.last().token_type == TokenType::EndOfFile
    &&& forall|k: int| 0 <= k < tokens.len() ==> lo <= (#[trigger] tokens[k]).span.start <= tokens[k].span.end <= hi
    &&& forall|j: int, k: int| 0 <= j < k < tokens.len() ==> (#[trigger] tokens[j]).span.end <= (#[trigger] tokens[k]).span.start
    &&& forall|k: int| 0 <= k < tokens.len() - 1 ==> (#[trigger] tokens[k]).token_type != TokenType::EndOfFile && tokens[k].span.start < tokens[k].span.end
}

proof fn lemma_prepend_well_ordered(t: TokenView, rest: Seq<TokenView>, lo: int, mid: int, hi: int)
    requires
        tokens_well_ordered(rest, mid, hi),
        lo <= t.span.start < t.span.end <= mid,
        t.token_type != TokenType::EndOfFile,
    ensures
        tokens_well_ordered(seq![t] + rest, lo, hi),
{
    let all = seq![t] + rest;
    assert(all.last() == rest.last());
    assert forall|k: int| 0 <= k < all.len() implies lo <= (#[trigger] all[k]).span.start <= all[k].span.end <= hi by {
        if k > 0 {
            assert(all[k] == rest[k - 1]);
        }
    }
    assert forall|j: int, k: int| 0 <= j < k < all.len() implies (#[trigger] all[j]).span.end <= (#[trigger] all[k]).span.start by {
        assert(all[k] == rest[k - 1]);
        if j > 0 {
            assert(all[j] == rest[j - 1]);
        }
    }
    assert forall|k: int| 0 <= k < all.len() - 1 implies (#[trigger] all[k]).token_type != TokenType::EndOfFile && all[k].span.start < all[k].span.end by {
        if k > 0 {
            assert(all[k] == rest[k - 1]);
        }
    }
}

/// Lexing from any offset yields tokens in source order that end with exactly one
/// `EndOfFile` token.
pub proof fn law_tokens_well_ordered(b: Seq<u8>, i: int)
    requires
        0 <= i <= b.len(),
        b.len() <= usize::MAX,
    ensures
        tokens_well_ordered(lex_from(b, i).0, i, b.len() as int),
    decreases b.len() - i,
{
    let r = lex_from(b, i);
    if i >= b.len() {
        lemma_single_well_ordered(token_view(TokenType::EndOfFile, i, i, seq![]), i, b.len() as int);
        return;
    }
    lemma_trivia_scan(b, i);
    match trivia_scan(b, i) {
        TriviaScan::UnclosedComment { start } => {
            lemma_single_well_ordered(token_view(TokenType::EndOfFile, b.len() as int, b.len() as int, seq![]), i, b.len() as int);
        },
        TriviaScan::Scanned { pieces, end: e } => {
            if e == b.len() {
                lemma_single_well_ordered(token_view(TokenType::EndOfFile, e, e, pieces), i, b.len() as int);
            } else if b[e] == QUOTE {
                lemma_string_body_end(b, e + 1);
                let j = string_body_end(b, e + 1);
                if j <= e || j >= b.len() || is_line_break(b[j]) {
                    lemma_single_well_ordered(token_view(TokenType::EndOfFile, j, j, seq![]), i, b.len() as int);
                } else {
                    law_tokens_well_ordered(b, j + 1);
                    lemma_prepend_well_ordered(token_view(TokenType::String, e, j + 1, pieces), lex_from(b, j + 1).0, i, j + 1, b.len() as int);
                }
            } else if spec_is_identifier_start(b[e]) {
                lemma_identifier_end(b, e + 1);
                let j = identifier_end(b, e + 1);
                law_tokens_well_ordered(b, j);
                lemma_keyword_not_end_of_file(b.subrange(e, j));
                lemma_prepend_well_ordered(token_view(keyword_type(b.subrange(e, j)), e, j, pieces), lex_from(b, j).0, i, j, b.len() as int);
            } else {
                let p = punctuation(b, e);
                assert(1 <= p.1 <= 2 && e + p.1 <= b.len() && p.0 != TokenType::EndOfFile);
                law_tokens_well_ordered(b, e + p.1);
                lemma_prepend_well_ordered(token_view(p.0, e, e + p.1, pieces), lex_from(b, e + p.1).0, i, e + p.1, b.len() as int);
            }
        },
    }
}

proof fn lemma_single_well_ordered(t: TokenView, lo: int, hi: int)
    requires
        lo <= t.span.start <= t.span.end <= hi,
        t.token_type == TokenType::EndOfFile,
    ensures
        tokens_well_ordered(seq![t], lo, hi),
{
    let s = seq![t];
    assert(s[0] == t);
    assert(s.last() == t);
}

proof fn lemma_keyword_not_end_of_file(w: Seq<u8>)
    ensures
        keyword_type(w) != TokenType::EndOfFile,
{
}

/// Identifier tokens start and end at ASCII edges; string tokens hold their two
/// quotes, so the text between them starts and ends at ASCII edges too.
pub open spec fn token_text_edges(tokens: Seq<TokenView>, b: Seq<u8>) -> bool {
    forall|k: int| 0 <= k < tokens.len() ==> {
        let token = #[trigger] tokens[k];
        &&& token.token_type == TokenType::Identifier ==> ascii_edge(b, token.span.start as int)
            && ascii_edge(b, token.span.end as int)
        &&& token.token_type == TokenType::String ==> token.span.start + 2 <= token.span.end
            && is_ascii_byte(b[token.span.start as int]) && is_ascii_byte(b[token.span.end - 1])
    }
}

proof fn lemma_prepend_edges(token: TokenView, rest: Seq<TokenView>, b: Seq<u8>)
    requires
        token_text_edges(rest, b),
        token.token_type == TokenType::Identifier ==> ascii_edge(b, token.span.start as int)
            && ascii_edge(b, token.span.end as int),
        token.token_type == TokenType::String ==> token.span.start + 2 <= token.span.end
            && is_ascii_byte(b[token.span.start as int]) && is_ascii_byte(b[token.span.end - 1]),
    ensures
        token_text_edges(seq![token] + rest, b),
{
    let all = seq![token] + rest;
    assert forall|k: int| 0 <= k < all.len() implies {
        let t = #[trigger] all[k];
        &&& t.token_type == TokenType::Identifier ==> ascii_edge(b, t.span.start as int)
            && ascii_edge(b, t.span.end as int)
        &&& t.token_type == TokenType::String ==> t.span.start + 2 <= t.span.end
            && is_ascii_byte(b[t.span.start as int]) && is_ascii_byte(b[t.span.end - 1])
    } by {
        if k > 0 {
            assert(all[k] == rest[k - 1]);
        }
    }
}

/// The text of every identifier and string token of a lexed text can be sliced out.
pub proof fn lemma_token_text_edges(b: Seq<u8>, i: int)
    requires
        0 <= i <= b.len(),
        b.len() <= usize::MAX,
    ensures
        token_text_edges(lex_from(b, i).0, b),
    decreases b.len() - i,
{
    if i >= b.len() {
        return;
    }
    lemma_trivia_scan(b, i);
    match trivia_scan(b, i) {
        TriviaScan::UnclosedComment { .. } => {},
        TriviaScan::Scanned { pieces, end: e } => {
            if e == b.len() {
            } else if b[e] == QUOTE {
                lemma_string_body_end(b, e + 1);
                let j = string_body_end(b, e + 1);
                if !(j <= e || j >= b.len() || is_line_break(b[j])) {
                    lemma_token_text_edges(b, j + 1);
                    lemma_prepend_edges(token_view(TokenType::String, e, j + 1, pieces), lex_from(b, j + 1).0, b);
                }
            } else if spec_is_identifier_start(b[e]) {
                lemma_identifier_end(b, e + 1);
                let j = identifier_end(b, e + 1);
                lemma_token_text_edges(b, j);
                assert(spec_is_identifier_continue(b[j - 1]));
                lemma_prepend_edges(token_view(keyword_type(b.subrange(e, j)), e, j, pieces), lex_from(b, j).0, b);
            } else {
                let p = punctuation(b, e);
                lemma_token_text_edges(b, e + p.1);
                lemma_prepend_edges(token_view(p.0, e, e + p.1, pieces), lex_from(b, e + p.1).0, b);
            }
        },
    }
}

/// An ASCII letter or `_`.
pub open spec fn ascii_letter_or_underscore(c: u8) -> bool {
    (65 <= c <= 90) || (97 <= c <= 122) || c == 95
}

/// An ASCII letter, an ASCII digit or `_`.
pub open spec fn ascii_word_byte(c: u8) -> bool {
    ascii_letter_or_underscore(c) || (48 <= c <= 57)
}

/// Every identifier token covers a maximal run of word bytes: it starts with an ASCII
/// letter or `_`, goes on with letters, digits or `_`, and the byte after it, if any,
/// is none of these.
pub open spec fn identifier_tokens_maximal(tokens: Seq<TokenView>, b: Seq<u8>) -> bool {
    forall|k: int| 0 <= k < tokens.len() && (#[trigger] tokens[k]).token_type == TokenType::Identifier ==> {
        let start = tokens[k].span.start as int;
        let end = tokens[k].span.end as int;
        &&& 0 <= start < end <= b.len()
        &&& ascii_letter_or_underscore(b[start])
        &&& forall|m: int| start < m < end ==> ascii_word_byte(#[trigger] b[m])
        &&& end < b.len() ==> !ascii_word_byte(b[end])
    }
}

proof fn lemma_prepend_maximal(token: TokenView, rest: Seq<TokenView>, b: Seq<u8>)
    requires
        identifier_tokens_maximal(rest, b),
        token.token_type == TokenType::Identifier ==> {
            let start = token.span.start as int;
            let end = token.span.end as int;
            &&& 0 <= start < end <= b.len()
            &&& ascii_letter_or_underscore(b[start])
            &&& forall|m: int| start < m < end ==> ascii_word_byte(#[trigger] b[m])
            &&& end < b.len() ==> !ascii_word_byte(b[end])
        },
    ensures
        identifier_tokens_maximal(seq![token] + rest, b),
{
    let all = seq![token] + rest;
    assert forall|k: int| 0 <= k < all.len() && (#[trigger] all[k]).token_type == TokenType::Identifier implies {
        let start = all[k].span.start as int;
        let end = all[k].span.end as int;
        &&& 0 <= start < end <= b.len()
        &&& ascii_letter_or_underscore(b[start])
        &&& forall|m: int| start < m < end ==> ascii_word_byte(#[trigger] b[m])
        &&& end < b.len() ==> !ascii_word_byte(b[end])
    } by {
        if k > 0 {
            assert(all[k] == rest[k - 1]);
        } else {
            assert(all[k] == token);
        }
    }
}

/// Identifiers are maximal: a digit, letter or `_` right after identifier characters
/// belongs to the same identifier token, so `greet2` lexes as one identifier.
pub proof fn law_identifier_tokens_maximal(b: Seq<u8>, i: int)
    requires
        0 <= i <= b.len(),
        b.len() <= usize::MAX,
    ensures
        identifier_tokens_maximal(lex_from(b, i).0, b),
    decreases b.len() - i,
{
    if i >= b.len() {
        return;
    }
    lemma_trivia_scan(b, i);
    match trivia_scan(b, i) {
        TriviaScan::UnclosedComment { .. } => {},
        TriviaScan::Scanned { pieces, end: e } => {
            if e == b.len() {
            } else if b[e] == QUOTE {
                lemma_string_body_end(b, e + 1);
                let j = string_body_end(b, e + 1);
                if !(j <= e || j >= b.len() || is_line_break(b[j])) {
                    law_identifier_tokens_maximal(b, j + 1);
                    lemma_prepend_maximal(token_view(TokenType::String, e, j + 1, pieces), lex_from(b, j + 1).0, b);
                }
            } else if spec_is_identifier_start(b[e]) {
                lemma_identifier_end(b, e + 1);
                let j = identifier_end(b, e + 1);
                law_identifier_tokens_maximal(b, j);
                let token = token_view(keyword_type(b.subrange(e, j)), e, j, pieces);
                assert(token.span.start as int == e && token.span.end as int == j);
                assert forall|m: int| e < m < j implies ascii_word_byte(#[trigger] b[m]) by {
                    assert(spec_is_identifier_continue(b[m]));
                }
                if j < b.len() {
                    assert(!spec_is_identifier_continue(b[j]));
                }
                lemma_prepend_maximal(token, lex_from(b, j).0, b);
            } else {
                let p = punctuation(b, e);
                assert(1 <= p.1 <= 2 && e + p.1 <= b.len() && p.0 != TokenType::EndOfFile);
                law_identifier_tokens_maximal(b, e + p.1);
                lemma_prepend_maximal(token_view(p.0, e, e + p.1, pieces), lex_from(b, e + p.1).0, b);
            }
        },
    }
}

} // verus!

use ocelot::diagnostic::{DiagnosticLevel, SourceDiagnostics};
use ocelot::lexer::lex::lex;
use ocelot::lexer::token::{TokenType, TriviaPiece};
use ocelot::source_file::SourceFile;
use ocelot::span::Span;

#[test]
fn lexes_println_script() {
    let source_file = SourceFile::new("examples/hello.ocelot", "println(\"hello\");");
    let mut source_diagnostics = SourceDiagnostics::default();
    let token_types: Vec<_> = lex(&source_file, &mut source_diagnostics)
        .into_iter()
        .map(|token| token.token_type)
        .collect();

    assert_eq!(
        token_types,
        vec![
            TokenType::Identifier,
            TokenType::LeftParen,
            TokenType::String,
            TokenType::RightParen,
            TokenType::Semicolon,
            TokenType::EndOfFile,
        ]
    );
    assert!(!source_diagnostics.has_errors());
}

#[test]
fn lexes_test_item_tokens() {
    let source_file = SourceFile::new(
        "examples/tests.ocelot",
        "test \"prints\" { println(\"hello\"); }",
    );
    let mut source_diagnostics = SourceDiagnostics::default();
    let token_types: Vec<_> = lex(&source_file, &mut source_diagnostics)
        .into_iter()
        .map(|token| token.token_type)
        .collect();

    assert_eq!(
        token_types,
        vec![
            TokenType::Test,
            TokenType::String,
            TokenType::LeftBrace,
            TokenType::Identifier,
            TokenType::LeftParen,
            TokenType::String,
            TokenType::RightParen,
            TokenType::Semicolon,
            TokenType::RightBrace,
            TokenType::EndOfFile,
        ]
    );
    assert!(!source_diagnostics.has_errors());
}

#[test]
fn lexes_function_item_tokens() {
    let source_file = SourceFile::new(
        "examples/functions.ocelot",
        "fun greet() { println(\"hello\"); }",
    );
    let mut source_diagnostics = SourceDiagnostics::default();
    let token_types: Vec<_> = lex(&source_file, &mut source_diagnostics)
        .into_iter()
        .map(|token| token.token_type)
        .collect();

    assert_eq!(
        token_types,
        vec![
            TokenType::Fun,
            TokenType::Identifier,
            TokenType::LeftParen,
            TokenType::RightParen,
            TokenType::LeftBrace,
            TokenType::Identifier,
            TokenType::LeftParen,
            TokenType::String,
            TokenType::RightParen,
            TokenType::Semicolon,
            TokenType::RightBrace,
            TokenType::EndOfFile,
        ]
    );
    assert!(!source_diagnostics.has_errors());
}

#[test]
fn lexes_colons_in_function_parameter_lists() {
    let source_file = SourceFile::new(
        "examples/functions.ocelot",
        "fun greet(name: string, excited: bool) {}",
    );
    let mut source_diagnostics = SourceDiagnostics::default();
    let token_types: Vec<_> = lex(&source_file, &mut source_diagnostics)
        .into_iter()
        .map(|token| token.token_type)
        .collect();

    assert_eq!(
        token_types,
        vec![
            TokenType::Fun,
            TokenType::Identifier,
            TokenType::LeftParen,
            TokenType::Identifier,
            TokenType::Colon,
            TokenType::Identifier,
            TokenType::Comma,
            TokenType::Identifier,
            TokenType::Colon,
            TokenType::Identifier,
            TokenType::RightParen,
            TokenType::LeftBrace,
            TokenType::RightBrace,
            TokenType::EndOfFile,
        ]
    );
    assert!(!source_diagnostics.has_errors());
}

#[test]
fn lexes_effect_keywords() {
    let source_file = SourceFile::new(
        "examples/effects.ocelot",
        "effect exec; fun greet() can exec cannot panic {}",
    );
    let mut source_diagnostics = SourceDiagnostics::default();
    let token_types: Vec<_> = lex(&source_file, &mut source_diagnostics)
        .into_iter()
        .map(|token| token.token_type)
        .collect();

    assert_eq!(
        token_types,
        vec![
            TokenType::Effect,
            TokenType::Identifier,
            TokenType::Semicolon,
            TokenType::Fun,
            TokenType::Identifier,
            TokenType::LeftParen,
            TokenType::RightParen,
            TokenType::Can,
            TokenType::Identifier,
            TokenType::Cannot,
            TokenType::Identifier,
            TokenType::LeftBrace,
            TokenType::RightBrace,
            TokenType::EndOfFile,
        ]
    );
    assert!(!source_diagnostics.has_errors());
}

#[test]
fn lexes_boolean_literals_as_reserved_tokens() {
    let source_file = SourceFile::new("examples/booleans.ocelot", "true; false;");
    let mut source_diagnostics = SourceDiagnostics::default();
    let token_types: Vec<_> = lex(&source_file, &mut source_diagnostics)
        .into_iter()
        .map(|token| token.token_type)
        .collect();

    assert_eq!(
        token_types,
        vec![
            TokenType::True,
            TokenType::Semicolon,
            TokenType::False,
            TokenType::Semicolon,
            TokenType::EndOfFile,
        ]
    );
    assert!(!source_diagnostics.has_errors());
}

#[test]
fn lexes_not_as_a_reserved_token() {
    let source_file = SourceFile::new("examples/not.ocelot", "not true;");
    let mut source_diagnostics = SourceDiagnostics::default();
    let token_types: Vec<_> = lex(&source_file, &mut source_diagnostics)
        .into_iter()
        .map(|token| token.token_type)
        .collect();

    assert_eq!(
        token_types,
        vec![
            TokenType::Not,
            TokenType::True,
            TokenType::Semicolon,
            TokenType::EndOfFile,
        ]
    );
    assert!(!source_diagnostics.has_errors());
}

#[test]
fn keeps_longer_identifiers_distinct_from_boolean_literals() {
    let source_file = SourceFile::new("examples/booleans.ocelot", "true_value; falsey;");
    let mut source_diagnostics = SourceDiagnostics::default();
    let token_types: Vec<_> = lex(&source_file, &mut source_diagnostics)
        .into_iter()
        .map(|token| token.token_type)
        .collect();

    assert_eq!(
        token_types,
        vec![
            TokenType::Identifier,
            TokenType::Semicolon,
            TokenType::Identifier,
            TokenType::Semicolon,
            TokenType::EndOfFile,
        ]
    );
    assert!(!source_diagnostics.has_errors());
}

#[test]
fn keeps_longer_identifiers_distinct_from_not() {
    let source_file = SourceFile::new("examples/not.ocelot", "notify; not_value; knot;");
    let mut source_diagnostics = SourceDiagnostics::default();
    let token_types: Vec<_> = lex(&source_file, &mut source_diagnostics)
        .into_iter()
        .map(|token| token.token_type)
        .collect();

    assert_eq!(
        token_types,
        vec![
            TokenType::Identifier,
            TokenType::Semicolon,
            TokenType::Identifier,
            TokenType::Semicolon,
            TokenType::Identifier,
            TokenType::Semicolon,
            TokenType::EndOfFile,
        ]
    );
    assert!(!source_diagnostics.has_errors());
}

#[test]
fn skips_whitespace_between_tokens() {
    let source_file = SourceFile::new("examples/whitespace.ocelot", "println ( \"hello\" ) ;");
    let mut source_diagnostics = SourceDiagnostics::default();
    let token_types: Vec<_> = lex(&source_file, &mut source_diagnostics)
        .into_iter()
        .map(|token| token.token_type)
        .collect();

    assert_eq!(
        token_types,
        vec![
            TokenType::Identifier,
            TokenType::LeftParen,
            TokenType::String,
            TokenType::RightParen,
            TokenType::Semicolon,
            TokenType::EndOfFile,
        ]
    );
    assert!(!source_diagnostics.has_errors());
}

#[test]
fn skips_line_comments_between_tokens() {
    let source_file = SourceFile::new(
        "examples/comments.ocelot",
        "// heading comment\nprintln(\"hello\"); // trailing comment",
    );
    let mut source_diagnostics = SourceDiagnostics::default();
    let token_types: Vec<_> = lex(&source_file, &mut source_diagnostics)
        .into_iter()
        .map(|token| token.token_type)
        .collect();

    assert_eq!(
        token_types,
        vec![
            TokenType::Identifier,
            TokenType::LeftParen,
            TokenType::String,
            TokenType::RightParen,
            TokenType::Semicolon,
            TokenType::EndOfFile,
        ]
    );
    assert!(!source_diagnostics.has_errors());
}

#[test]
fn retains_line_comments_and_newlines_as_leading_trivia() {
    let source_file = SourceFile::new(
        "examples/comments.ocelot",
        "// heading\nprintln(\"hello\");\n\n// footer",
    );
    let mut source_diagnostics = SourceDiagnostics::default();
    let tokens = lex(&source_file, &mut source_diagnostics);

    assert!(!source_diagnostics.has_errors());
    assert!(matches!(
        &tokens[0].leading_trivia.leading[..],
        [
            TriviaPiece::LineComment { text, .. },
            TriviaPiece::Newlines { count: 1, .. }
        ] if text.as_str() == "// heading"
    ));
    assert!(matches!(
        &tokens[tokens.len() - 1].leading_trivia.leading[..],
        [
            TriviaPiece::Newlines { count: 2, .. },
            TriviaPiece::LineComment { text, .. }
        ] if text.as_str() == "// footer"
    ));
}

#[test]
fn skips_block_comments_between_tokens() {
    let source_file = SourceFile::new(
        "examples/comments.ocelot",
        "println/* call */(\"hello\"/* value */);",
    );
    let mut source_diagnostics = SourceDiagnostics::default();
    let token_types: Vec<_> = lex(&source_file, &mut source_diagnostics)
        .into_iter()
        .map(|token| token.token_type)
        .collect();

    assert_eq!(
        token_types,
        vec![
            TokenType::Identifier,
            TokenType::LeftParen,
            TokenType::String,
            TokenType::RightParen,
            TokenType::Semicolon,
            TokenType::EndOfFile,
        ]
    );
    assert!(!source_diagnostics.has_errors());
}

#[test]
fn skips_nested_block_comments() {
    let source_file = SourceFile::new(
        "examples/comments.ocelot",
        "/* outer /* inner */ still outer */ println(\"hello\");",
    );
    let mut source_diagnostics = SourceDiagnostics::default();
    let token_types: Vec<_> = lex(&source_file, &mut source_diagnostics)
        .into_iter()
        .map(|token| token.token_type)
        .collect();

    assert_eq!(
        token_types,
        vec![
            TokenType::Identifier,
            TokenType::LeftParen,
            TokenType::String,
            TokenType::RightParen,
            TokenType::Semicolon,
            TokenType::EndOfFile,
        ]
    );
    assert!(!source_diagnostics.has_errors());
}

#[test]
fn retains_nested_block_comments_as_leading_trivia() {
    let source_file = SourceFile::new(
        "examples/comments.ocelot",
        "println(/* outer /* inner */ value */\"hello\");",
    );
    let mut source_diagnostics = SourceDiagnostics::default();
    let tokens = lex(&source_file, &mut source_diagnostics);

    assert!(!source_diagnostics.has_errors());
    assert!(matches!(
        &tokens[2].leading_trivia.leading[..],
        [TriviaPiece::BlockComment { text, .. }] if
            text.as_str() == "/* outer /* inner */ value */"
    ));
}

#[test]
fn skips_multiline_block_comments() {
    let source_file = SourceFile::new(
        "examples/comments.ocelot",
        "/* setup\n   before call */\nprintln(\"hello\");",
    );
    let mut source_diagnostics = SourceDiagnostics::default();
    let token_types: Vec<_> = lex(&source_file, &mut source_diagnostics)
        .into_iter()
        .map(|token| token.token_type)
        .collect();

    assert_eq!(
        token_types,
        vec![
            TokenType::Identifier,
            TokenType::LeftParen,
            TokenType::String,
            TokenType::RightParen,
            TokenType::Semicolon,
            TokenType::EndOfFile,
        ]
    );
    assert!(!source_diagnostics.has_errors());
}

#[test]
fn keeps_comment_markers_inside_strings() {
    let source_file = SourceFile::new(
        "examples/comments.ocelot",
        "println(\"// not a comment /* still text */\");",
    );
    let mut source_diagnostics = SourceDiagnostics::default();
    let tokens = lex(&source_file, &mut source_diagnostics);

    assert_eq!(tokens.len(), 6);
    assert_eq!(tokens[2].token_type, TokenType::String);
    assert_eq!(
        &source_file.source()[tokens[2].span.start()..tokens[2].span.end()],
        "\"// not a comment /* still text */\""
    );
    assert!(!source_diagnostics.has_errors());
}

#[test]
fn lexes_commas_in_argument_lists() {
    let source_file = SourceFile::new(
        "examples/arguments.ocelot",
        "println(\"hello\", \"world\");",
    );
    let mut source_diagnostics = SourceDiagnostics::default();
    let token_types: Vec<_> = lex(&source_file, &mut source_diagnostics)
        .into_iter()
        .map(|token| token.token_type)
        .collect();

    assert_eq!(
        token_types,
        vec![
            TokenType::Identifier,
            TokenType::LeftParen,
            TokenType::String,
            TokenType::Comma,
            TokenType::String,
            TokenType::RightParen,
            TokenType::Semicolon,
            TokenType::EndOfFile,
        ]
    );
    assert!(!source_diagnostics.has_errors());
}

#[test]
fn reports_unterminated_strings_as_source_diagnostics() {
    let source_file = SourceFile::new("examples/broken.ocelot", "println(\"hello);");
    let mut source_diagnostics = SourceDiagnostics::default();
    let token_types: Vec<_> = lex(&source_file, &mut source_diagnostics)
        .into_iter()
        .map(|token| token.token_type)
        .collect();

    assert_eq!(
        token_types,
        vec![
            TokenType::Identifier,
            TokenType::LeftParen,
            TokenType::EndOfFile
        ]
    );
    assert!(source_diagnostics.has_errors());
    assert_eq!(source_diagnostics.diagnostics.len(), 1);

    let diagnostic = &source_diagnostics.diagnostics[0];

    assert_eq!(diagnostic.level, DiagnosticLevel::Error);
    assert_eq!(diagnostic.file_path.as_str(), "examples/broken.ocelot");
    assert_eq!(diagnostic.message, "unterminated string literal");
    assert_eq!(diagnostic.excerpts.len(), 1);
    assert_eq!(diagnostic.excerpts[0].line_number, 1);
    assert_eq!(diagnostic.excerpts[0].source_line, "println(\"hello);");
    assert_eq!(diagnostic.excerpts[0].annotations.len(), 1);
    assert_eq!(
        diagnostic.excerpts[0].annotations[0].span,
        Span::new(8, 16)
    );
    assert_eq!(
        diagnostic.excerpts[0].annotations[0].message,
        "string is missing a closing quote"
    );
}

#[test]
fn reports_strings_terminated_by_a_newline_as_source_diagnostics() {
    let source_file = SourceFile::new("examples/broken.ocelot", "println(\"hello);\n");
    let mut source_diagnostics = SourceDiagnostics::default();
    let token_types: Vec<_> = lex(&source_file, &mut source_diagnostics)
        .into_iter()
        .map(|token| token.token_type)
        .collect();

    assert_eq!(
        token_types,
        vec![
            TokenType::Identifier,
            TokenType::LeftParen,
            TokenType::EndOfFile
        ]
    );
    assert!(source_diagnostics.has_errors());
    assert_eq!(source_diagnostics.diagnostics.len(), 1);

    let diagnostic = &source_diagnostics.diagnostics[0];

    assert_eq!(diagnostic.level, DiagnosticLevel::Error);
    assert_eq!(diagnostic.file_path.as_str(), "examples/broken.ocelot");
    assert_eq!(diagnostic.message, "unterminated string literal");
    assert_eq!(diagnostic.excerpts.len(), 1);
    assert_eq!(diagnostic.excerpts[0].line_number, 1);
    assert_eq!(diagnostic.excerpts[0].source_line, "println(\"hello);");
    assert_eq!(diagnostic.excerpts[0].annotations.len(), 1);
    assert_eq!(
        diagnostic.excerpts[0].annotations[0].span,
        Span::new(8, 16)
    );
    assert_eq!(
        diagnostic.excerpts[0].annotations[0].message,
        "string is missing a closing quote"
    );
}

#[test]
fn reports_unterminated_block_comments_as_source_diagnostics() {
    let source_file = SourceFile::new("examples/broken.ocelot", "println(/* hello");
    let mut source_diagnostics = SourceDiagnostics::default();
    let token_types: Vec<_> = lex(&source_file, &mut source_diagnostics)
        .into_iter()
        .map(|token| token.token_type)
        .collect();

    assert_eq!(
        token_types,
        vec![
            TokenType::Identifier,
            TokenType::LeftParen,
            TokenType::EndOfFile
        ]
    );
    assert!(source_diagnostics.has_errors());
    assert_eq!(source_diagnostics.diagnostics.len(), 1);

    let diagnostic = &source_diagnostics.diagnostics[0];

    assert_eq!(diagnostic.level, DiagnosticLevel::Error);
    assert_eq!(diagnostic.file_path.as_str(), "examples/broken.ocelot");
    assert_eq!(diagnostic.message, "unterminated block comment");
    assert_eq!(diagnostic.excerpts.len(), 1);
    assert_eq!(diagnostic.excerpts[0].line_number, 1);
    assert_eq!(diagnostic.excerpts[0].source_line, "println(/* hello");
    assert_eq!(diagnostic.excerpts[0].annotations.len(), 1);
    assert_eq!(
        diagnostic.excerpts[0].annotations[0].span,
        Span::new(8, 16)
    );
    assert_eq!(
        diagnostic.excerpts[0].annotations[0].message,
        "block comment is missing a closing `*/`"
    );
}

#[test]
fn reports_unterminated_multiline_block_comments_from_the_opening_line() {
    let source_file = SourceFile::new("examples/broken.ocelot", "/* hello\nprintln(\"x\");");
    let mut source_diagnostics = SourceDiagnostics::default();

    lex(&source_file, &mut source_diagnostics);

    assert!(source_diagnostics.has_errors());
    assert_eq!(source_diagnostics.diagnostics.len(), 1);

    let diagnostic = &source_diagnostics.diagnostics[0];

    assert_eq!(diagnostic.message, "unterminated block comment");
    assert_eq!(diagnostic.excerpts[0].line_number, 1);
    assert_eq!(diagnostic.excerpts[0].source_line, "/* hello");
    assert_eq!(
        diagnostic.excerpts[0].annotations[0].span,
        Span::new(0, 8)
    );
}

#[test]
fn emits_unexpected_tokens_for_unknown_characters() {
    let source_file = SourceFile::new("examples/unexpected.ocelot", "@");
    let mut source_diagnostics = SourceDiagnostics::default();
    let token_types: Vec<_> = lex(&source_file, &mut source_diagnostics)
        .into_iter()
        .map(|token| token.token_type)
        .collect();

    assert_eq!(
        token_types,
        vec![TokenType::Unexpected, TokenType::EndOfFile]
    );
    assert!(!source_diagnostics.has_errors());
}

#[test]
fn lexes_double_colon_qualified_identifiers() {
    let source_file = SourceFile::new("examples/module.ocelot", "math::greet::hello();");
    let mut source_diagnostics = SourceDiagnostics::default();
    let token_types: Vec<_> = lex(&source_file, &mut source_diagnostics)
        .into_iter()
        .map(|token| token.token_type)
        .collect();

    assert_eq!(
        token_types,
        vec![
            TokenType::Identifier,
            TokenType::DoubleColon,
            TokenType::Identifier,
            TokenType::DoubleColon,
            TokenType::Identifier,
            TokenType::LeftParen,
            TokenType::RightParen,
            TokenType::Semicolon,
            TokenType::EndOfFile,
        ]
    );
}

#[test]
fn lexes_use_items_and_grouped_imports() {
    let source_file = SourceFile::new(
        "examples/imports.ocelot-script",
        "use math::trig::{sin, cos};",
    );
    let mut source_diagnostics = SourceDiagnostics::default();
    let token_types: Vec<_> = lex(&source_file, &mut source_diagnostics)
        .into_iter()
        .map(|token| token.token_type)
        .collect();

    assert_eq!(
        token_types,
        vec![
            TokenType::Use,
            TokenType::Identifier,
            TokenType::DoubleColon,
            TokenType::Identifier,
            TokenType::DoubleColon,
            TokenType::LeftBrace,
            TokenType::Identifier,
            TokenType::Comma,
            TokenType::Identifier,
            TokenType::RightBrace,
            TokenType::Semicolon,
            TokenType::EndOfFile,
        ]
    );
    assert!(!source_diagnostics.has_errors());
}

#[test]
fn lexes_native_function_declarations() {
    let source_file = SourceFile::new(
        "examples/core.ocelot",
        "native fun println(value: any) can write_stdout;",
    );
    let mut source_diagnostics = SourceDiagnostics::default();
    let token_types: Vec<_> = lex(&source_file, &mut source_diagnostics)
        .into_iter()
        .map(|token| token.token_type)
        .collect();

    assert_eq!(
        token_types,
        vec![
            TokenType::Native,
            TokenType::Fun,
            TokenType::Identifier,
            TokenType::LeftParen,
            TokenType::Identifier,
            TokenType::Colon,
            TokenType::Identifier,
            TokenType::RightParen,
            TokenType::Can,
            TokenType::Identifier,
            TokenType::Semicolon,
            TokenType::EndOfFile,
        ]
    );
    assert!(!source_diagnostics.has_errors());
}

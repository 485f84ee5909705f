use vstd::prelude::*;
use crate::span::Span;
use crate::source_file::SourceFile;
use crate::text::substring;
use crate::diagnostic::{any_error, DiagnosticView, SourceDiagnostics};
use crate::compilation_context::CompilationContext;
use crate::error::{CompilationStage, ErrorKind, OcelotError, OcelotResult};
use crate::lexer::token::{Token, TokenType, TokenView, token_views};
use crate::lexer::lex::{
    failure_view, law_tokens_well_ordered, lemma_token_text_edges, lex, lex_from, token_text_edges,
    tokens_well_ordered,
};
use crate::resolver::diagnostics::{addressable, source_diagnostic_for_span, span_diagnostic};
use crate::resolver::resolution::{list_diagnostics, listed_diagnostics};
use crate::error::is_message_error;
use crate::ast::{
    bare_item, bare_statements, bare_trivia, bare_unit,
    BooleanLiteralExpression, CallExpression, CompilationUnit, EffectItem, Expression,
    ExpressionKind, ExpressionStatement, FunctionEffectClause, FunctionItem, FunctionParameter,
    Identifier, Item, ItemKind, NotExpression, QualifiedIdentifier, Statement, StatementKind,
    StringLiteralExpression, TestItem, UseItem,
};
use crate::ast_view::{
    clause_view, expr_view, expr_views, ident_view, ident_views, param_view, param_views, stmt_view,
    stmt_views, item_view, item_views, unit_items, ExprKindView, ExprView, IdentView, ItemView,
    ParamView, StmtView,
};
pub use crate::parser::arity::parse_script;
use crate::parser::grammar::{
    ParseFailure, Parsed, expect_token, expect_identifier, literal_text, parse_argument_list,
    parse_arguments, parse_call, parse_call_suffixes, parse_expression, parse_path_expression,
    parse_path_segments, parse_prefix, parse_primary, token_ident, unresolved_expr,
    parse_statement, parse_block_statements, parse_parameter, parse_parameter_list,
    parse_parameters, parse_optional_clause, parse_effect_item, parse_function_rest,
    parse_function_signature, parse_function_item, parse_test_item, parse_group_names,
    parse_grouped_imports, parse_use_path, parse_use_names, parse_use_item, parse_item, parse_items,
};

verus! {

/// The diagnostic that reports a parse failure in `file`.
pub open spec fn failure_diagnostic(file: SourceFile, failure: ParseFailure) -> DiagnosticView {
    span_diagnostic(file.path@, file.bytes(), failure.message, failure.span, failure.annotation)
}

/// `after` is `before`, plus the diagnostic of the failure when `parsed` failed; `ok`
/// says whether parsing succeeded and `position` is where it stopped.
pub open spec fn reported<T>(parsed: Parsed<T>, ok: bool, position: int, before: Seq<DiagnosticView>, after: Seq<DiagnosticView>, file: SourceFile) -> bool {
    match parsed {
        Parsed::Done { next, .. } => ok && position == next && after == before,
        Parsed::Failed(f) => !ok && after == before.push(failure_diagnostic(file, f)),
    }
}

/// The error every parse failure returns.
pub open spec fn is_parser_failure(error: OcelotError) -> bool {
    error.kind == ErrorKind::CompilationError(CompilationStage::Parser)
}

pub proof fn lemma_expr_views(s: Seq<Expression>)
    ensures
        expr_views(s).len() == s.len(),
        forall|i: int| 0 <= i < s.len() ==> #[trigger] expr_views(s)[i] == expr_view(s[i]),
    decreases s.len(),
{
    if s.len() > 0 {
        lemma_expr_views(s.drop_last());
        assert forall|i: int| 0 <= i < s.len() implies #[trigger] expr_views(s)[i] == expr_view(s[i]) by {
            if i < s.len() - 1 {
                assert(s.drop_last()[i] == s[i]);
            }
        }
    }
}

/// Stateful parser for one source file: its tokens and the position of the next one.
pub struct Parser<'a> {
    source_file: &'a SourceFile,
    tokens: Vec<Token>,
    position: usize,
}

impl<'a> Parser<'a> {
    /// The file being parsed.
    pub closed spec fn file(&self) -> SourceFile {
        *self.source_file
    }

    /// The tokens of the file.
    pub closed spec fn token_list(&self) -> Seq<TokenView> {
        token_views(self.tokens@)
    }

    /// Position of the next token.
    pub closed spec fn next_position(&self) -> int {
        self.position as int
    }

    /// The tokens are those of a lexed text, and the position is inside them.
    pub closed spec fn well_formed(&self) -> bool {
        let t = token_views(self.tokens@);
        let b = self.source_file.bytes();
        &&& tokens_well_ordered(t, 0, b.len() as int)
        &&& token_text_edges(t, b)
        &&& self.position < t.len()
        &&& addressable(*self.source_file)
    }

    /// Creates a parser for one source file, lexing it; a lexing failure is reported
    /// to `compilation_context`.
    pub fn new(source_file: &'a SourceFile, compilation_context: &mut CompilationContext) -> (parser: Parser<'a>)
        requires
            addressable(*source_file),
        ensures
            parser.well_formed(),
            parser.file() == *source_file,
            parser.token_list() == lex_from(source_file.bytes(), 0).0,
            parser.next_position() == 0,
            final(compilation_context)@ == old(compilation_context)@ + match lex_from(source_file.bytes(), 0).1 {
                None => Seq::<DiagnosticView>::empty(),
                Some(failure) => seq![failure_view(source_file.path@, source_file.bytes(), failure)],
            },
    {
        let tokens = lex(source_file, &mut compilation_context.source_diagnostics);
        proof {
            law_tokens_well_ordered(source_file.bytes(), 0);
            lemma_token_text_edges(source_file.bytes(), 0);
        }
        Parser { source_file, tokens, position: 0 }
    }

    fn current_type(&self) -> (token_type: TokenType)
        requires
            self.well_formed(),
        ensures
            token_type == self.token_list()[self.next_position()].token_type,
    {
        self.tokens[self.position].token_type
    }

    fn current_span(&self) -> (span: Span)
        requires
            self.well_formed(),
        ensures
            span == self.token_list()[self.next_position()].span,
    {
        self.tokens[self.position].span
    }

    fn at(&self, token_type: TokenType) -> (found: bool)
        requires
            self.well_formed(),
        ensures
            found == (self.token_list()[self.next_position()].token_type == token_type),
    {
        self.tokens[self.position].token_type == token_type
    }

    /// Steps past the current token, which is not the end of the input.
    fn advance(&mut self)
        requires
            old(self).well_formed(),
            old(self).token_list()[old(self).next_position()].token_type != TokenType::EndOfFile,
        ensures
            final(self).well_formed(),
            final(self).file() == old(self).file(),
            final(self).token_list() == old(self).token_list(),
            final(self).next_position() == old(self).next_position() + 1,
    {
        let count = self.tokens.len();
        proof {
            let t = token_views(self.tokens@);
            assert(t.last() == t[t.len() - 1]);
            assert(self.position != t.len() - 1);
            assert(t.len() == self.tokens@.len());
        }
        self.position = self.position + 1;
    }

    /// Reports a parse failure and returns the parser's error.
    fn fail<T>(&self, compilation_context: &mut CompilationContext, message: &str, span: Span, annotation: &str) -> (result: OcelotResult<T>)
        requires
            self.well_formed(),
        ensures
            result matches Err(e) && is_parser_failure(e),
            final(compilation_context)@ == old(compilation_context)@.push(
                failure_diagnostic(self.file(), ParseFailure { message: message@, span, annotation: annotation@ }),
            ),
    {
        let diagnostic = source_diagnostic_for_span(self.source_file, String::from_str(message), span, String::from_str(annotation));
        compilation_context.add_diagnostic(diagnostic);
        Err(OcelotError::compilation_error(CompilationStage::Parser))
    }

    /// Consumes the current token when it has type `token_type`, returning its span.
    fn expect(&mut self, compilation_context: &mut CompilationContext, token_type: TokenType, message: &str) -> (result: OcelotResult<Span>)
        requires
            old(self).well_formed(),
            token_type != TokenType::EndOfFile,
        ensures
            final(self).well_formed(),
            final(self).file() == old(self).file(),
            final(self).token_list() == old(self).token_list(),
            reported(expect_token(old(self).token_list(), old(self).next_position(), token_type, message@), result is Ok,
                final(self).next_position(), old(compilation_context)@, final(compilation_context)@, old(self).file()),
            result matches Ok(span) ==> span == old(self).token_list()[old(self).next_position()].span,
            result matches Err(e) ==> is_parser_failure(e),
    {
        let span = self.current_span();
        if self.current_type() != token_type {
            return self.fail(compilation_context, message, span, "found here");
        }
        self.advance();
        Ok(span)
    }

    /// The source text of bytes `[start, end)`.
    fn source_text(&self, start: usize, end: usize) -> (text: String)
        requires
            self.well_formed(),
            start <= end <= self.file().bytes().len(),
            crate::text::ascii_edge(self.file().bytes(), start as int),
            crate::text::ascii_edge(self.file().bytes(), end as int),
        ensures
            text@ == crate::lexer::lex::text_of(self.file().bytes(), start as int, end as int),
    {
        substring(self.source_file.source(), start, end)
    }

    /// Consumes an identifier token.
    fn identifier(&mut self, compilation_context: &mut CompilationContext, message: &str) -> (result: OcelotResult<Identifier>)
        requires
            old(self).well_formed(),
        ensures
            final(self).well_formed(),
            final(self).file() == old(self).file(),
            final(self).token_list() == old(self).token_list(),
            reported(expect_identifier(old(self).token_list(), old(self).file().bytes(), old(self).next_position(), message@),
                result is Ok, final(self).next_position(), old(compilation_context)@, final(compilation_context)@, old(self).file()),
            result matches Ok(identifier) ==> expect_identifier(old(self).token_list(), old(self).file().bytes(),
                old(self).next_position(), message@) == (Parsed::Done { value: ident_view(identifier), next: final(self).next_position() }),
            result matches Err(e) ==> is_parser_failure(e),
    {
        let ghost t = self.token_list();
        let ghost p = self.next_position();
        let span = self.expect(compilation_context, TokenType::Identifier, message)?;
        proof {
            assert(t[p] == t[p]);
            assert(t[p].token_type == TokenType::Identifier);
            assert(t[p].span.start <= t[p].span.end <= self.file().bytes().len());
        }
        let name = self.source_text(span.start, span.end);
        Ok(Identifier::from_string(name, span))
    }
}

impl<'a> Parser<'a> {
    /// Reads the same file and tokens as `other`.
    pub open spec fn same_input(&self, other: &Parser<'a>) -> bool {
        &&& self.well_formed()
        &&& self.file() == other.file()
        &&& self.token_list() == other.token_list()
    }

    /// expression := `not`* call
    fn parse_expression(&mut self, compilation_context: &mut CompilationContext) -> (result: OcelotResult<Expression>)
        requires
            old(self).well_formed(),
        ensures
            final(self).same_input(old(self)),
            ({
                let parsed = parse_expression(old(self).token_list(), old(self).file().bytes(), old(self).next_position());
                &&& reported(parsed, result is Ok, final(self).next_position(), old(compilation_context)@, final(compilation_context)@, old(self).file())
                &&& result matches Ok(e) ==> parsed == (Parsed::Done { value: expr_view(e), next: final(self).next_position() })
            }),
            result is Ok ==> final(self).next_position() > old(self).next_position(),
            result matches Err(e) ==> is_parser_failure(e),
        decreases old(self).token_list().len() - old(self).next_position(), 7nat,
    {
        self.parse_prefix(compilation_context)
    }

    fn parse_prefix(&mut self, compilation_context: &mut CompilationContext) -> (result: OcelotResult<Expression>)
        requires
            old(self).well_formed(),
        ensures
            final(self).same_input(old(self)),
            ({
                let parsed = parse_prefix(old(self).token_list(), old(self).file().bytes(), old(self).next_position());
                &&& reported(parsed, result is Ok, final(self).next_position(), old(compilation_context)@, final(compilation_context)@, old(self).file())
                &&& result matches Ok(e) ==> parsed == (Parsed::Done { value: expr_view(e), next: final(self).next_position() })
            }),
            result is Ok ==> final(self).next_position() > old(self).next_position(),
            result matches Err(e) ==> is_parser_failure(e),
        decreases old(self).token_list().len() - old(self).next_position(), 6nat,
    {
        if self.at(TokenType::Not) {
            let start = self.current_span().start;
            self.advance();
            let operand = self.parse_prefix(compilation_context)?;
            let span = Span::new(start, operand.span.end);
            Ok(Expression::new(ExpressionKind::Not(NotExpression::new(operand)), span))
        } else {
            self.parse_call(compilation_context)
        }
    }

    fn parse_call(&mut self, compilation_context: &mut CompilationContext) -> (result: OcelotResult<Expression>)
        requires
            old(self).well_formed(),
        ensures
            final(self).same_input(old(self)),
            ({
                let parsed = parse_call(old(self).token_list(), old(self).file().bytes(), old(self).next_position());
                &&& reported(parsed, result is Ok, final(self).next_position(), old(compilation_context)@, final(compilation_context)@, old(self).file())
                &&& result matches Ok(e) ==> parsed == (Parsed::Done { value: expr_view(e), next: final(self).next_position() })
            }),
            result is Ok ==> final(self).next_position() > old(self).next_position(),
            result matches Err(e) ==> is_parser_failure(e),
        decreases old(self).token_list().len() - old(self).next_position(), 5nat,
    {
        let primary = self.parse_primary(compilation_context)?;
        self.parse_call_suffixes(compilation_context, primary)
    }

    fn parse_call_suffixes(&mut self, compilation_context: &mut CompilationContext, callee: Expression) -> (result: OcelotResult<Expression>)
        requires
            old(self).well_formed(),
        ensures
            final(self).same_input(old(self)),
            ({
                let parsed = parse_call_suffixes(old(self).token_list(), old(self).file().bytes(), expr_view(callee), old(self).next_position());
                &&& reported(parsed, result is Ok, final(self).next_position(), old(compilation_context)@, final(compilation_context)@, old(self).file())
                &&& result matches Ok(e) ==> parsed == (Parsed::Done { value: expr_view(e), next: final(self).next_position() })
            }),
            result is Ok ==> final(self).next_position() >= old(self).next_position(),
            result matches Err(e) ==> is_parser_failure(e),
        decreases old(self).token_list().len() - old(self).next_position(), 10nat,
    {
        if self.at(TokenType::LeftParen) {
            self.advance();
            let arguments = self.parse_arguments(compilation_context)?;
            let right_paren = self.expect(compilation_context, TokenType::RightParen, "expected `)` after argument list")?;
            let span = Span::new(callee.span.start, right_paren.end);
            let call = Expression::new(ExpressionKind::Call(CallExpression::new(callee, arguments)), span);
            self.parse_call_suffixes(compilation_context, call)
        } else {
            Ok(callee)
        }
    }

    fn parse_arguments(&mut self, compilation_context: &mut CompilationContext) -> (result: OcelotResult<Vec<Expression>>)
        requires
            old(self).well_formed(),
        ensures
            final(self).same_input(old(self)),
            ({
                let parsed = parse_arguments(old(self).token_list(), old(self).file().bytes(), old(self).next_position());
                &&& reported(parsed, result is Ok, final(self).next_position(), old(compilation_context)@, final(compilation_context)@, old(self).file())
                &&& result matches Ok(v) ==> parsed == (Parsed::Done { value: expr_views(v@), next: final(self).next_position() })
            }),
            result is Ok ==> final(self).next_position() >= old(self).next_position(),
            result matches Err(e) ==> is_parser_failure(e),
        decreases old(self).token_list().len() - old(self).next_position(), 9nat,
    {
        if self.at(TokenType::RightParen) {
            let arguments: Vec<Expression> = Vec::new();
            assert(expr_views(arguments@) =~= Seq::<ExprView>::empty());
            Ok(arguments)
        } else {
            self.parse_argument_list(compilation_context)
        }
    }

    fn parse_argument_list(&mut self, compilation_context: &mut CompilationContext) -> (result: OcelotResult<Vec<Expression>>)
        requires
            old(self).well_formed(),
        ensures
            final(self).same_input(old(self)),
            ({
                let parsed = parse_argument_list(old(self).token_list(), old(self).file().bytes(), old(self).next_position());
                &&& reported(parsed, result is Ok, final(self).next_position(), old(compilation_context)@, final(compilation_context)@, old(self).file())
                &&& result matches Ok(v) ==> parsed == (Parsed::Done { value: expr_views(v@), next: final(self).next_position() })
            }),
            result is Ok ==> final(self).next_position() > old(self).next_position(),
            result matches Err(e) ==> is_parser_failure(e),
        decreases old(self).token_list().len() - old(self).next_position(), 8nat,
    {
        let first = self.parse_expression(compilation_context)?;
        if self.at(TokenType::Comma) {
            self.advance();
            let mut rest = self.parse_argument_list(compilation_context)?;
            let ghost tail = rest@;
            rest.insert(0, first);
            proof {
                lemma_expr_views(tail);
                lemma_expr_views(rest@);
                assert(expr_views(rest@) =~= seq![expr_view(first)] + expr_views(tail));
            }
            Ok(rest)
        } else {
            let mut arguments = Vec::new();
            arguments.push(first);
            proof {
                lemma_expr_views(arguments@);
                assert(expr_views(arguments@) =~= seq![expr_view(first)]);
            }
            Ok(arguments)
        }
    }

    fn parse_primary(&mut self, compilation_context: &mut CompilationContext) -> (result: OcelotResult<Expression>)
        requires
            old(self).well_formed(),
        ensures
            final(self).same_input(old(self)),
            ({
                let parsed = parse_primary(old(self).token_list(), old(self).file().bytes(), old(self).next_position());
                &&& reported(parsed, result is Ok, final(self).next_position(), old(compilation_context)@, final(compilation_context)@, old(self).file())
                &&& result matches Ok(e) ==> parsed == (Parsed::Done { value: expr_view(e), next: final(self).next_position() })
            }),
            result is Ok ==> final(self).next_position() > old(self).next_position(),
            result matches Err(e) ==> is_parser_failure(e),
        decreases old(self).token_list().len() - old(self).next_position(), 4nat,
    {
        let ghost t = self.token_list();
        let ghost p = self.next_position();
        let token_type = self.current_type();
        let span = self.current_span();
        match token_type {
            TokenType::False => {
                self.advance();
                Ok(Expression::new(ExpressionKind::BooleanLiteral(BooleanLiteralExpression::new(false)), span))
            },
            TokenType::String => {
                proof {
                    assert(t[p] == t[p]);
                }
                self.advance();
                let value = self.source_text(span.start + 1, span.end - 1);
                Ok(Expression::new(ExpressionKind::StringLiteral(StringLiteralExpression::from_string(value)), span))
            },
            TokenType::True => {
                self.advance();
                Ok(Expression::new(ExpressionKind::BooleanLiteral(BooleanLiteralExpression::new(true)), span))
            },
            TokenType::Identifier => self.parse_path_expression(compilation_context),
            TokenType::Not => self.fail(compilation_context, "expected expression after `not`", span, "operand expected here"),
            TokenType::Unexpected => self.fail(compilation_context, "unexpected token", span, "unexpected character"),
            _ => self.fail(compilation_context, "expected expression", span, "expression expected here"),
        }
    }

    fn parse_path_expression(&mut self, compilation_context: &mut CompilationContext) -> (result: OcelotResult<Expression>)
        requires
            old(self).well_formed(),
        ensures
            final(self).same_input(old(self)),
            ({
                let parsed = parse_path_expression(old(self).token_list(), old(self).file().bytes(), old(self).next_position());
                &&& reported(parsed, result is Ok, final(self).next_position(), old(compilation_context)@, final(compilation_context)@, old(self).file())
                &&& result matches Ok(e) ==> parsed == (Parsed::Done { value: expr_view(e), next: final(self).next_position() })
            }),
            result is Ok ==> final(self).next_position() > old(self).next_position(),
            result matches Err(e) ==> is_parser_failure(e),
        decreases old(self).token_list().len() - old(self).next_position(), 3nat,
    {
        let first = self.identifier(compilation_context, "expected identifier")?;
        let mut rest = self.parse_path_segments(compilation_context)?;
        if rest.len() == 0 {
            let span = first.span;
            assert(ident_views(rest@).len() == 0);
            Ok(Expression::new(ExpressionKind::Identifier(first), span))
        } else {
            let start = first.span.start;
            let end = rest[rest.len() - 1].span.end;
            let ghost tail = rest@;
            rest.insert(0, first);
            proof {
                assert(ident_views(rest@) =~= seq![ident_view(first)] + ident_views(tail));
                assert(ident_views(tail).last() == ident_view(tail.last()));
            }
            Ok(Expression::new(ExpressionKind::QualifiedIdentifier(QualifiedIdentifier::new(rest)), Span::new(start, end)))
        }
    }

    fn parse_path_segments(&mut self, compilation_context: &mut CompilationContext) -> (result: OcelotResult<Vec<Identifier>>)
        requires
            old(self).well_formed(),
        ensures
            final(self).same_input(old(self)),
            ({
                let parsed = parse_path_segments(old(self).token_list(), old(self).file().bytes(), old(self).next_position());
                &&& reported(parsed, result is Ok, final(self).next_position(), old(compilation_context)@, final(compilation_context)@, old(self).file())
                &&& result matches Ok(v) ==> parsed == (Parsed::Done { value: ident_views(v@), next: final(self).next_position() })
            }),
            result is Ok ==> final(self).next_position() >= old(self).next_position(),
            result matches Err(e) ==> is_parser_failure(e),
        decreases old(self).token_list().len() - old(self).next_position(), 2nat,
    {
        if self.at(TokenType::DoubleColon) {
            self.advance();
            let segment = self.identifier(compilation_context, "expected identifier after `::`")?;
            let mut rest = self.parse_path_segments(compilation_context)?;
            let ghost tail = rest@;
            rest.insert(0, segment);
            assert(ident_views(rest@) =~= seq![ident_view(segment)] + ident_views(tail));
            Ok(rest)
        } else {
            let segments: Vec<Identifier> = Vec::new();
            assert(ident_views(segments@) =~= Seq::<IdentView>::empty());
            Ok(segments)
        }
    }
}

impl<'a> Parser<'a> {
    fn parse_statement(&mut self, compilation_context: &mut CompilationContext) -> (result: OcelotResult<Statement>)
        requires
            old(self).well_formed(),
        ensures
            final(self).same_input(old(self)),
            ({
                let parsed = parse_statement(old(self).token_list(), old(self).file().bytes(), old(self).next_position());
                &&& reported(parsed, result is Ok, final(self).next_position(), old(compilation_context)@, final(compilation_context)@, old(self).file())
                &&& result matches Ok(s) ==> parsed == (Parsed::Done { value: stmt_view(s), next: final(self).next_position() })
            }),
            result is Ok ==> final(self).next_position() > old(self).next_position(),
            result matches Err(e) ==> is_parser_failure(e),
            result matches Ok(v) ==> bare_trivia(v.trivia),
    {
        let expression = self.parse_expression(compilation_context)?;
        let semicolon = self.expect(compilation_context, TokenType::Semicolon, "expected `;` after statement")?;
        let span = Span::new(expression.span.start, semicolon.end);
        Ok(Statement::new(StatementKind::Expression(ExpressionStatement::new(expression)), span))
    }

    /// The statements of a block, up to its `}`.
    fn parse_block_statements(
        &mut self,
        compilation_context: &mut CompilationContext,
        unclosed: &str,
        ends_here: &str,
    ) -> (result: OcelotResult<Vec<Statement>>)
        requires
            old(self).well_formed(),
        ensures
            final(self).same_input(old(self)),
            ({
                let parsed = parse_block_statements(old(self).token_list(), old(self).file().bytes(), old(self).next_position(), unclosed@, ends_here@);
                &&& reported(parsed, result is Ok, final(self).next_position(), old(compilation_context)@, final(compilation_context)@, old(self).file())
                &&& result matches Ok(v) ==> parsed == (Parsed::Done { value: stmt_views(v@), next: final(self).next_position() })
            }),
            result is Ok ==> final(self).next_position() >= old(self).next_position(),
            result matches Err(e) ==> is_parser_failure(e),
            result matches Ok(v) ==> bare_statements(v@),
        decreases old(self).token_list().len() - old(self).next_position(),
    {
        if self.at(TokenType::RightBrace) {
            let statements: Vec<Statement> = Vec::new();
            assert(stmt_views(statements@) =~= Seq::<StmtView>::empty());
            return Ok(statements);
        }
        if self.at(TokenType::EndOfFile) {
            let span = self.current_span();
            return self.fail(compilation_context, unclosed, span, ends_here);
        }
        let statement = self.parse_statement(compilation_context)?;
        let mut rest = self.parse_block_statements(compilation_context, unclosed, ends_here)?;
        let ghost tail = rest@;
        rest.insert(0, statement);
        assert(stmt_views(rest@) =~= seq![stmt_view(statement)] + stmt_views(tail));
        assert(rest@ =~= seq![statement] + tail);
        assert forall|i: int| 0 <= i < rest@.len() implies bare_trivia(#[trigger] rest@[i].trivia) by {
            if i > 0 {
                assert(rest@[i] == tail[i - 1]);
            }
        }
        Ok(rest)
    }

    fn parse_parameter(&mut self, compilation_context: &mut CompilationContext) -> (result: OcelotResult<FunctionParameter>)
        requires
            old(self).well_formed(),
        ensures
            final(self).same_input(old(self)),
            ({
                let parsed = parse_parameter(old(self).token_list(), old(self).file().bytes(), old(self).next_position());
                &&& reported(parsed, result is Ok, final(self).next_position(), old(compilation_context)@, final(compilation_context)@, old(self).file())
                &&& result matches Ok(v) ==> parsed == (Parsed::Done { value: param_view(v), next: final(self).next_position() })
            }),
            result is Ok ==> final(self).next_position() > old(self).next_position(),
            result matches Err(e) ==> is_parser_failure(e),
    {
        let identifier = self.identifier(compilation_context, "expected parameter name")?;
        self.expect(compilation_context, TokenType::Colon, "expected `:` after parameter name")?;
        let type_identifier = self.identifier(compilation_context, "expected parameter type")?;
        let span = Span::new(identifier.span.start, type_identifier.span.end);
        Ok(FunctionParameter::new(identifier, type_identifier, span))
    }

    fn parse_parameter_list(&mut self, compilation_context: &mut CompilationContext) -> (result: OcelotResult<Vec<FunctionParameter>>)
        requires
            old(self).well_formed(),
        ensures
            final(self).same_input(old(self)),
            ({
                let parsed = parse_parameter_list(old(self).token_list(), old(self).file().bytes(), old(self).next_position());
                &&& reported(parsed, result is Ok, final(self).next_position(), old(compilation_context)@, final(compilation_context)@, old(self).file())
                &&& result matches Ok(v) ==> parsed == (Parsed::Done { value: param_views(v@), next: final(self).next_position() })
            }),
            result is Ok ==> final(self).next_position() > old(self).next_position(),
            result matches Err(e) ==> is_parser_failure(e),
        decreases old(self).token_list().len() - old(self).next_position(),
    {
        let parameter = self.parse_parameter(compilation_context)?;
        if !self.at(TokenType::Comma) {
            let mut parameters = Vec::new();
            parameters.push(parameter);
            assert(param_views(parameters@) =~= seq![param_view(parameter)]);
            return Ok(parameters);
        }
        self.advance();
        if self.at(TokenType::RightParen) {
            let span = self.current_span();
            return self.fail(compilation_context, "expected parameter after `,`", span, "parameter expected here");
        }
        let mut rest = self.parse_parameter_list(compilation_context)?;
        let ghost tail = rest@;
        rest.insert(0, parameter);
        assert(param_views(rest@) =~= seq![param_view(parameter)] + param_views(tail));
        Ok(rest)
    }

    fn parse_parameters(&mut self, compilation_context: &mut CompilationContext) -> (result: OcelotResult<Vec<FunctionParameter>>)
        requires
            old(self).well_formed(),
        ensures
            final(self).same_input(old(self)),
            ({
                let parsed = parse_parameters(old(self).token_list(), old(self).file().bytes(), old(self).next_position());
                &&& reported(parsed, result is Ok, final(self).next_position(), old(compilation_context)@, final(compilation_context)@, old(self).file())
                &&& result matches Ok(v) ==> parsed == (Parsed::Done { value: param_views(v@), next: final(self).next_position() })
            }),
            result is Ok ==> final(self).next_position() >= old(self).next_position(),
            result matches Err(e) ==> is_parser_failure(e),
    {
        if self.at(TokenType::RightParen) {
            let parameters: Vec<FunctionParameter> = Vec::new();
            assert(param_views(parameters@) =~= Seq::<ParamView>::empty());
            Ok(parameters)
        } else {
            self.parse_parameter_list(compilation_context)
        }
    }

    fn parse_optional_clause(
        &mut self,
        compilation_context: &mut CompilationContext,
        keyword: TokenType,
        message: &str,
    ) -> (result: OcelotResult<Option<FunctionEffectClause>>)
        requires
            old(self).well_formed(),
            keyword != TokenType::EndOfFile,
        ensures
            final(self).same_input(old(self)),
            ({
                let parsed = parse_optional_clause(old(self).token_list(), old(self).file().bytes(), old(self).next_position(), keyword, message@);
                &&& reported(parsed, result is Ok, final(self).next_position(), old(compilation_context)@, final(compilation_context)@, old(self).file())
                &&& result matches Ok(v) ==> parsed == (Parsed::Done { value: clause_view(v), next: final(self).next_position() })
            }),
            result is Ok ==> final(self).next_position() >= old(self).next_position(),
            result matches Err(e) ==> is_parser_failure(e),
    {
        if !self.at(keyword) {
            return Ok(None);
        }
        let keyword_span = self.expect(compilation_context, keyword, message)?;
        let effect = self.identifier(compilation_context, "expected effect name")?;
        let span = Span::new(keyword_span.start, effect.span.end);
        Ok(Some(FunctionEffectClause::new(effect, span)))
    }
}

impl<'a> Parser<'a> {
    fn parse_effect_item(&mut self, compilation_context: &mut CompilationContext) -> (result: OcelotResult<Item>)
        requires
            old(self).well_formed(),
        ensures
            final(self).same_input(old(self)),
            ({
                let parsed = parse_effect_item(old(self).token_list(), old(self).file().bytes(), old(self).next_position());
                &&& reported(parsed, result is Ok, final(self).next_position(), old(compilation_context)@, final(compilation_context)@, old(self).file())
                &&& result matches Ok(v) ==> parsed == (Parsed::Done { value: item_view(v), next: final(self).next_position() })
            }),
            result is Ok ==> final(self).next_position() > old(self).next_position(),
            result matches Err(e) ==> is_parser_failure(e),
            result matches Ok(v) ==> bare_item(v),
    {
        let effect_span = self.expect(compilation_context, TokenType::Effect, "expected `effect` item")?;
        let identifier = self.identifier(compilation_context, "expected effect name")?;
        let semicolon = self.expect(compilation_context, TokenType::Semicolon, "expected `;` after effect declaration")?;
        let span = Span::new(effect_span.start, semicolon.end);
        Ok(Item::new(ItemKind::Effect(EffectItem::new(identifier, span)), span))
    }

    fn parse_function_rest(
        &mut self,
        compilation_context: &mut CompilationContext,
        is_native: bool,
        start: usize,
        identifier: Identifier,
        parameters: Vec<FunctionParameter>,
        can_clause: Option<FunctionEffectClause>,
        cannot_clause: Option<FunctionEffectClause>,
    ) -> (result: OcelotResult<Item>)
        requires
            old(self).well_formed(),
        ensures
            final(self).same_input(old(self)),
            ({
                let parsed = parse_function_rest(old(self).token_list(), old(self).file().bytes(), old(self).next_position(),
                    is_native, start, ident_view(identifier), param_views(parameters@), clause_view(can_clause), clause_view(cannot_clause));
                &&& reported(parsed, result is Ok, final(self).next_position(), old(compilation_context)@, final(compilation_context)@, old(self).file())
                &&& result matches Ok(v) ==> parsed == (Parsed::Done { value: item_view(v), next: final(self).next_position() })
            }),
            result is Ok ==> final(self).next_position() > old(self).next_position(),
            result matches Err(e) ==> is_parser_failure(e),
            result matches Ok(v) ==> bare_item(v),
    {
        if self.at(TokenType::Can) {
            let span = self.current_span();
            return self.fail(compilation_context, "function effect clauses must place `can` before `cannot`", span, "`can` must appear first");
        }
        if is_native {
            if self.at(TokenType::LeftBrace) {
                let span = self.current_span();
                return self.fail(compilation_context, "native functions must not have a body", span, "remove this body");
            }
            let semicolon = self.expect(compilation_context, TokenType::Semicolon, "expected `;` after native function declaration")?;
            let span = Span::new(start, semicolon.end);
            let function = FunctionItem::new_native(identifier, parameters, can_clause, cannot_clause, span);
            assert(stmt_views(function.body@) =~= Seq::<StmtView>::empty());
            Ok(Item::new(ItemKind::Function(function), span))
        } else {
            self.expect(compilation_context, TokenType::LeftBrace, "expected `{` before function body")?;
            let body = self.parse_block_statements(compilation_context, "expected `}` to close function body", "function body ends here")?;
            let right_brace = self.expect(compilation_context, TokenType::RightBrace, "expected `}` after function body")?;
            let span = Span::new(start, right_brace.end);
            Ok(Item::new(ItemKind::Function(FunctionItem::new(identifier, parameters, can_clause, cannot_clause, body, span)), span))
        }
    }

    fn parse_function_signature(
        &mut self,
        compilation_context: &mut CompilationContext,
        is_native: bool,
        start: usize,
        identifier: Identifier,
    ) -> (result: OcelotResult<Item>)
        requires
            old(self).well_formed(),
        ensures
            final(self).same_input(old(self)),
            ({
                let parsed = parse_function_signature(old(self).token_list(), old(self).file().bytes(), old(self).next_position(),
                    is_native, start, ident_view(identifier));
                &&& reported(parsed, result is Ok, final(self).next_position(), old(compilation_context)@, final(compilation_context)@, old(self).file())
                &&& result matches Ok(v) ==> parsed == (Parsed::Done { value: item_view(v), next: final(self).next_position() })
            }),
            result is Ok ==> final(self).next_position() > old(self).next_position(),
            result matches Err(e) ==> is_parser_failure(e),
            result matches Ok(v) ==> bare_item(v),
    {
        let parameters = self.parse_parameters(compilation_context)?;
        self.expect(compilation_context, TokenType::RightParen, "expected `)` after parameter list")?;
        let can_clause = self.parse_optional_clause(compilation_context, TokenType::Can, "expected `can` effect clause")?;
        let cannot_clause = self.parse_optional_clause(compilation_context, TokenType::Cannot, "expected `cannot` effect clause")?;
        self.parse_function_rest(compilation_context, is_native, start, identifier, parameters, can_clause, cannot_clause)
    }

    fn parse_function_item(&mut self, compilation_context: &mut CompilationContext) -> (result: OcelotResult<Item>)
        requires
            old(self).well_formed(),
        ensures
            final(self).same_input(old(self)),
            ({
                let parsed = parse_function_item(old(self).token_list(), old(self).file().bytes(), old(self).next_position());
                &&& reported(parsed, result is Ok, final(self).next_position(), old(compilation_context)@, final(compilation_context)@, old(self).file())
                &&& result matches Ok(v) ==> parsed == (Parsed::Done { value: item_view(v), next: final(self).next_position() })
            }),
            result is Ok ==> final(self).next_position() > old(self).next_position(),
            result matches Err(e) ==> is_parser_failure(e),
            result matches Ok(v) ==> bare_item(v),
    {
        let is_native = self.at(TokenType::Native);
        let native_start = self.current_span().start;
        if is_native {
            self.advance();
        }
        let fun_span = self.expect(compilation_context, TokenType::Fun, "expected `fun` item")?;
        let identifier = self.identifier(compilation_context, "expected function name")?;
        let start = if is_native { native_start } else { fun_span.start };
        self.expect(compilation_context, TokenType::LeftParen, "expected `(` after function name")?;
        self.parse_function_signature(compilation_context, is_native, start, identifier)
    }

    fn parse_test_item(&mut self, compilation_context: &mut CompilationContext) -> (result: OcelotResult<Item>)
        requires
            old(self).well_formed(),
        ensures
            final(self).same_input(old(self)),
            ({
                let parsed = parse_test_item(old(self).token_list(), old(self).file().bytes(), old(self).next_position());
                &&& reported(parsed, result is Ok, final(self).next_position(), old(compilation_context)@, final(compilation_context)@, old(self).file())
                &&& result matches Ok(v) ==> parsed == (Parsed::Done { value: item_view(v), next: final(self).next_position() })
            }),
            result is Ok ==> final(self).next_position() > old(self).next_position(),
            result matches Err(e) ==> is_parser_failure(e),
            result matches Ok(v) ==> bare_item(v),
    {
        let test_span = self.expect(compilation_context, TokenType::Test, "expected `test` item")?;
        let ghost t = self.token_list();
        let ghost p = self.next_position();
        let name_span = self.expect(compilation_context, TokenType::String, "expected test name string")?;
        proof {
            assert(t[p] == t[p]);
        }
        let name = self.source_text(name_span.start + 1, name_span.end - 1);
        self.expect(compilation_context, TokenType::LeftBrace, "expected `{` after test name")?;
        let body = self.parse_block_statements(compilation_context, "expected `}` to close test body", "test body ends here")?;
        let right_brace = self.expect(compilation_context, TokenType::RightBrace, "expected `}` after test body")?;
        let span = Span::new(test_span.start, right_brace.end);
        Ok(Item::new(ItemKind::Test(TestItem::new(name, body, span)), span))
    }

    fn parse_group_names(&mut self, compilation_context: &mut CompilationContext) -> (result: OcelotResult<(Vec<Identifier>, Span)>)
        requires
            old(self).well_formed(),
        ensures
            final(self).same_input(old(self)),
            ({
                let parsed = parse_group_names(old(self).token_list(), old(self).file().bytes(), old(self).next_position());
                &&& reported(parsed, result is Ok, final(self).next_position(), old(compilation_context)@, final(compilation_context)@, old(self).file())
                &&& result matches Ok(v) ==> parsed == (Parsed::Done { value: (ident_views(v.0@), v.1), next: final(self).next_position() })
            }),
            result is Ok ==> final(self).next_position() > old(self).next_position(),
            result matches Err(e) ==> is_parser_failure(e),
        decreases old(self).token_list().len() - old(self).next_position(),
    {
        let name = self.identifier(compilation_context, "expected imported name inside `{}`")?;
        if self.at(TokenType::Comma) {
            self.advance();
            let (mut rest, end) = self.parse_group_names(compilation_context)?;
            let ghost tail = rest@;
            rest.insert(0, name);
            assert(ident_views(rest@) =~= seq![ident_view(name)] + ident_views(tail));
            Ok((rest, end))
        } else {
            let right_brace = self.expect(compilation_context, TokenType::RightBrace, "expected `}` after grouped imports")?;
            let mut names = Vec::new();
            names.push(name);
            assert(ident_views(names@) =~= seq![ident_view(name)]);
            Ok((names, right_brace))
        }
    }

    fn parse_grouped_imports(&mut self, compilation_context: &mut CompilationContext) -> (result: OcelotResult<(Vec<Identifier>, Span)>)
        requires
            old(self).well_formed(),
        ensures
            final(self).same_input(old(self)),
            ({
                let parsed = parse_grouped_imports(old(self).token_list(), old(self).file().bytes(), old(self).next_position());
                &&& reported(parsed, result is Ok, final(self).next_position(), old(compilation_context)@, final(compilation_context)@, old(self).file())
                &&& result matches Ok(v) ==> parsed == (Parsed::Done { value: (ident_views(v.0@), v.1), next: final(self).next_position() })
            }),
            result is Ok ==> final(self).next_position() > old(self).next_position(),
            result matches Err(e) ==> is_parser_failure(e),
    {
        self.expect(compilation_context, TokenType::LeftBrace, "expected `{` before grouped import names")?;
        self.parse_group_names(compilation_context)
    }

    fn parse_use_path(&mut self, compilation_context: &mut CompilationContext, module_segments: Vec<Identifier>) -> (result: OcelotResult<(Vec<Identifier>, Vec<Identifier>)>)
        requires
            old(self).well_formed(),
        ensures
            final(self).same_input(old(self)),
            ({
                let parsed = parse_use_path(old(self).token_list(), old(self).file().bytes(), old(self).next_position(), ident_views(module_segments@));
                &&& reported(parsed, result is Ok, final(self).next_position(), old(compilation_context)@, final(compilation_context)@, old(self).file())
                &&& result matches Ok(v) ==> parsed == (Parsed::Done { value: (ident_views(v.0@), ident_views(v.1@)), next: final(self).next_position() })
            }),
            result is Ok ==> final(self).next_position() > old(self).next_position(),
            result matches Err(e) ==> is_parser_failure(e),
        decreases old(self).token_list().len() - old(self).next_position(),
    {
        self.expect(compilation_context, TokenType::DoubleColon, "expected `::` after imported module path segment")?;
        if self.at(TokenType::LeftBrace) {
            let (names, _) = self.parse_grouped_imports(compilation_context)?;
            return Ok((module_segments, names));
        }
        let segment = self.identifier(compilation_context, "expected identifier after `::` in `use` item")?;
        if !self.at(TokenType::DoubleColon) {
            let mut names = Vec::new();
            names.push(segment);
            assert(ident_views(names@) =~= seq![ident_view(segment)]);
            return Ok((module_segments, names));
        }
        let mut segments = module_segments;
        let ghost before = segments@;
        segments.push(segment);
        assert(ident_views(segments@) =~= ident_views(before).push(ident_view(segment)));
        self.parse_use_path(compilation_context, segments)
    }

    fn parse_use_names(&mut self, compilation_context: &mut CompilationContext, module: Identifier) -> (result: OcelotResult<(Vec<Identifier>, Vec<Identifier>)>)
        requires
            old(self).well_formed(),
        ensures
            final(self).same_input(old(self)),
            ({
                let parsed = parse_use_names(old(self).token_list(), old(self).file().bytes(), old(self).next_position(), ident_view(module));
                &&& reported(parsed, result is Ok, final(self).next_position(), old(compilation_context)@, final(compilation_context)@, old(self).file())
                &&& result matches Ok(v) ==> parsed == (Parsed::Done { value: (ident_views(v.0@), ident_views(v.1@)), next: final(self).next_position() })
            }),
            result is Ok ==> final(self).next_position() > old(self).next_position(),
            result matches Err(e) ==> is_parser_failure(e),
    {
        if self.at(TokenType::LeftBrace) {
            let (names, _) = self.parse_grouped_imports(compilation_context)?;
            let mut segments = Vec::new();
            segments.push(module);
            assert(ident_views(segments@) =~= seq![ident_view(module)]);
            return Ok((segments, names));
        }
        let segment = self.identifier(compilation_context, "expected imported name")?;
        if self.at(TokenType::DoubleColon) {
            let mut segments = Vec::new();
            segments.push(module);
            segments.push(segment);
            assert(ident_views(segments@) =~= seq![ident_view(module), ident_view(segment)]);
            self.parse_use_path(compilation_context, segments)
        } else {
            let mut segments = Vec::new();
            segments.push(module);
            let mut names = Vec::new();
            names.push(segment);
            assert(ident_views(segments@) =~= seq![ident_view(module)]);
            assert(ident_views(names@) =~= seq![ident_view(segment)]);
            Ok((segments, names))
        }
    }

    fn parse_use_item(&mut self, compilation_context: &mut CompilationContext) -> (result: OcelotResult<Item>)
        requires
            old(self).well_formed(),
        ensures
            final(self).same_input(old(self)),
            ({
                let parsed = parse_use_item(old(self).token_list(), old(self).file().bytes(), old(self).next_position());
                &&& reported(parsed, result is Ok, final(self).next_position(), old(compilation_context)@, final(compilation_context)@, old(self).file())
                &&& result matches Ok(v) ==> parsed == (Parsed::Done { value: item_view(v), next: final(self).next_position() })
            }),
            result is Ok ==> final(self).next_position() > old(self).next_position(),
            result matches Err(e) ==> is_parser_failure(e),
            result matches Ok(v) ==> bare_item(v),
    {
        let use_span = self.expect(compilation_context, TokenType::Use, "expected `use` item")?;
        let module = self.identifier(compilation_context, "expected module name")?;
        self.expect(compilation_context, TokenType::DoubleColon, "expected `::` after imported module path")?;
        let (segments, names) = self.parse_use_names(compilation_context, module)?;
        let semicolon = self.expect(compilation_context, TokenType::Semicolon, "expected `;` after `use` item")?;
        let span = Span::new(use_span.start, semicolon.end);
        Ok(Item::new(ItemKind::Use(UseItem::new(QualifiedIdentifier::new(segments), names, span)), span))
    }

    fn parse_item(&mut self, compilation_context: &mut CompilationContext) -> (result: OcelotResult<Item>)
        requires
            old(self).well_formed(),
        ensures
            final(self).same_input(old(self)),
            ({
                let parsed = parse_item(old(self).token_list(), old(self).file().bytes(), old(self).next_position());
                &&& reported(parsed, result is Ok, final(self).next_position(), old(compilation_context)@, final(compilation_context)@, old(self).file())
                &&& result matches Ok(v) ==> parsed == (Parsed::Done { value: item_view(v), next: final(self).next_position() })
            }),
            result is Ok ==> final(self).next_position() > old(self).next_position(),
            result matches Err(e) ==> is_parser_failure(e),
            result matches Ok(v) ==> bare_item(v),
    {
        proof {
            reveal(parse_item);
        }
        match self.current_type() {
            TokenType::Effect => self.parse_effect_item(compilation_context),
            TokenType::Fun => self.parse_function_item(compilation_context),
            TokenType::Native => self.parse_function_item(compilation_context),
            TokenType::Test => self.parse_test_item(compilation_context),
            TokenType::Use => self.parse_use_item(compilation_context),
            _ => {
                let statement = self.parse_statement(compilation_context)?;
                let span = statement.span;
                Ok(Item::new(ItemKind::Statement(statement), span))
            },
        }
    }

    fn parse_items(&mut self, compilation_context: &mut CompilationContext) -> (result: OcelotResult<Vec<Item>>)
        requires
            old(self).well_formed(),
        ensures
            final(self).same_input(old(self)),
            ({
                let parsed = parse_items(old(self).token_list(), old(self).file().bytes(), old(self).next_position());
                &&& reported(parsed, result is Ok, final(self).next_position(), old(compilation_context)@, final(compilation_context)@, old(self).file())
                &&& result matches Ok(v) ==> parsed == (Parsed::Done { value: item_views(v@), next: final(self).next_position() })
            }),
            result matches Err(e) ==> is_parser_failure(e),
            result matches Ok(v) ==> forall|i: int| 0 <= i < v@.len() ==> bare_item(#[trigger] v@[i]),
        decreases old(self).token_list().len() - old(self).next_position(),
    {
        if self.at(TokenType::EndOfFile) {
            let items: Vec<Item> = Vec::new();
            assert(item_views(items@) =~= Seq::<ItemView>::empty());
            return Ok(items);
        }
        let item = self.parse_item(compilation_context)?;
        let mut rest = self.parse_items(compilation_context)?;
        let ghost tail = rest@;
        rest.insert(0, item);
        assert(item_views(rest@) =~= seq![item_view(item)] + item_views(tail));
        assert(rest@ =~= seq![item] + tail);
        assert forall|i: int| 0 <= i < rest@.len() implies bare_item(#[trigger] rest@[i]) by {
            if i > 0 {
                assert(rest@[i] == tail[i - 1]);
            }
        }
        Ok(rest)
    }

    /// Parses the source file into its items; fails at once, reporting nothing more,
    /// when `compilation_context` already holds an error (such as a lexing failure).
    pub fn parse_script(&mut self, compilation_context: &mut CompilationContext) -> (result: OcelotResult<CompilationUnit>)
        requires
            old(self).well_formed(),
        ensures
            final(self).same_input(old(self)),
            result matches Err(e) ==> is_parser_failure(e),
            any_error(old(compilation_context)@) ==> result is Err && final(compilation_context)@ == old(compilation_context)@,
            !any_error(old(compilation_context)@) ==> {
                let parsed = parse_items(old(self).token_list(), old(self).file().bytes(), old(self).next_position());
                &&& reported(parsed, result is Ok, final(self).next_position(), old(compilation_context)@, final(compilation_context)@, old(self).file())
                &&& result matches Ok(unit) ==> parsed == (Parsed::Done { value: unit_items(unit), next: final(self).next_position() })
                    && unit.span == (Span { start: 0, end: old(self).file().bytes().len() as usize })
            },
            result matches Ok(unit) ==> bare_unit(unit),
    {
        if compilation_context.has_errors() {
            return Err(OcelotError::compilation_error(CompilationStage::Parser));
        }
        let items = self.parse_items(compilation_context)?;
        let length = self.source_file.source_bytes().len();
        Ok(CompilationUnit::new(items, Span::new(0, length)))
    }
}

/// Parses a source file into its items, reporting a lexing or parsing failure to
/// `compilation_context`. Lexing that fails (or an error already reported) makes the
/// parse fail without another diagnostic. Calls are not checked against any definition.
pub fn parse_source(source_file: &SourceFile, compilation_context: &mut CompilationContext) -> (result: OcelotResult<CompilationUnit>)
    requires
        addressable(*source_file),
    ensures
        ({
            let b = source_file.bytes();
            let lexed = lex_from(b, 0);
            let after_lexing = old(compilation_context)@ + match lexed.1 {
                None => Seq::<DiagnosticView>::empty(),
                Some(failure) => seq![failure_view(source_file.path@, b, failure)],
            };
            let parsed = parse_items(lexed.0, b, 0);
            &&& result matches Ok(unit) ==> bare_unit(unit)
            &&& result matches Err(e) ==> is_parser_failure(e)
            &&& result matches Err(e) ==> (any_error(final(compilation_context)@) ==> (e.source matches Some(cause)
                && is_message_error(*cause, listed_diagnostics(final(compilation_context)@))))
            &&& any_error(after_lexing) ==> result is Err && final(compilation_context)@ == after_lexing
            &&& !any_error(after_lexing) ==> {
                &&& parsed is Done <==> result is Ok
                &&& parsed matches Parsed::Failed(f) ==> final(compilation_context)@ == after_lexing.push(failure_diagnostic(*source_file, f))
                &&& parsed is Done ==> final(compilation_context)@ == after_lexing
                &&& result matches Ok(unit) ==> parsed matches Parsed::Done { value, .. } && value == unit_items(unit)
                    && unit.span == (Span { start: 0, end: b.len() as usize })
            }
        }),
{
    let mut parser = Parser::new(source_file, compilation_context);
    match parser.parse_script(compilation_context) {
        Ok(script) => Ok(script),
        Err(error) => {
            if compilation_context.has_errors() {
                Err(parser_failure(compilation_context))
            } else {
                Err(error)
            }
        },
    }
}

/// The error of a failed parse, caused by an error that lists what was reported.
pub(crate) fn parser_failure(compilation_context: &CompilationContext) -> (error: OcelotError)
    ensures
        is_parser_failure(error),
        error.source matches Some(cause) && is_message_error(*cause, listed_diagnostics(compilation_context@)),
{
    let listing = list_diagnostics(&compilation_context.source_diagnostics);
    OcelotError::compilation_error(CompilationStage::Parser).with_source(OcelotError::message(listing))
}

} // verus!

use vstd::prelude::*;
use crate::span::Span;
use crate::types::TypeIndex;
use crate::lexer::token::{TokenType, TokenView};
use crate::lexer::lex::{text_of, tokens_well_ordered};
use crate::ast_view::{
    ClauseView, ExprKindView, ExprView, FunctionView, IdentView, ItemKindView, ItemView, ParamView,
    StmtView,
};

verus! {

/// Why parsing stopped: the message, the span it points at and the annotation there.
pub struct ParseFailure {
    pub message: Seq<char>,
    pub span: Span,
    pub annotation: Seq<char>,
}

/// The outcome of parsing a construct that starts at some token: the construct and the
/// position of the token after it, or the failure.
pub enum Parsed<T> {
    Done { value: T, next: int },
    Failed(ParseFailure),
}

pub open spec fn fail<T>(message: Seq<char>, span: Span, annotation: Seq<char>) -> Parsed<T> {
    Parsed::Failed(ParseFailure { message, span, annotation })
}

/// Outcome for a position outside the tokens (never reached from a well-formed token list).
pub open spec fn stray<T>() -> Parsed<T> {
    fail(Seq::empty(), Span { start: 0, end: 0 }, Seq::empty())
}

/// The identifier a token spells.
pub open spec fn token_ident(b: Seq<u8>, token: TokenView) -> IdentView {
    IdentView { name: text_of(b, token.span.start as int, token.span.end as int), span: token.span }
}

/// The text between the quotes of a string token.
pub open spec fn literal_text(b: Seq<u8>, token: TokenView) -> Seq<char> {
    text_of(b, token.span.start + 1, token.span.end - 1)
}

pub open spec fn unresolved_expr(kind: ExprKindView, span: Span) -> ExprView {
    ExprView { kind, span, ty: TypeIndex(0) }
}

pub open spec fn at(t: Seq<TokenView>, p: int, token_type: TokenType) -> bool {
    0 <= p < t.len() && t[p].token_type == token_type
}

/// The token at `p` when it has type `token_type`; else a failure that points at it.
pub open spec fn expect_token(t: Seq<TokenView>, p: int, token_type: TokenType, message: Seq<char>) -> Parsed<TokenView> {
    if !(0 <= p < t.len()) {
        stray()
    } else if t[p].token_type == token_type {
        Parsed::Done { value: t[p], next: p + 1 }
    } else {
        fail(message, t[p].span, "found here"@)
    }
}

pub open spec fn expect_identifier(t: Seq<TokenView>, b: Seq<u8>, p: int, message: Seq<char>) -> Parsed<IdentView> {
    match expect_token(t, p, TokenType::Identifier, message) {
        Parsed::Done { value, next } => Parsed::Done { value: token_ident(b, value), next },
        Parsed::Failed(f) => Parsed::Failed(f),
    }
}

/// expression := prefix
pub open spec fn parse_expression(t: Seq<TokenView>, b: Seq<u8>, p: int) -> Parsed<ExprView>
    decreases t.len() - p, 7nat,
{
    if !(0 <= p < t.len()) {
        stray()
    } else {
        parse_prefix(t, b, p)
    }
}

/// prefix := `not` prefix | call
pub open spec fn parse_prefix(t: Seq<TokenView>, b: Seq<u8>, p: int) -> Parsed<ExprView>
    decreases t.len() - p, 6nat,
{
    if !(0 <= p < t.len()) {
        stray()
    } else if t[p].token_type == TokenType::Not {
        if p + 1 >= t.len() {
            stray()
        } else {
            match parse_prefix(t, b, p + 1) {
                Parsed::Done { value: operand, next } => Parsed::Done {
                    value: unresolved_expr(
                        ExprKindView::Not(Box::new(operand)),
                        Span { start: t[p].span.start, end: operand.span.end },
                    ),
                    next,
                },
                Parsed::Failed(f) => Parsed::Failed(f),
            }
        }
    } else {
        parse_call(t, b, p)
    }
}

/// call := primary ( `(` arguments `)` )*
pub open spec fn parse_call(t: Seq<TokenView>, b: Seq<u8>, p: int) -> Parsed<ExprView>
    decreases t.len() - p, 5nat,
{
    if !(0 <= p < t.len()) {
        stray()
    } else {
        match parse_primary(t, b, p) {
            Parsed::Done { value, next } => if p < next < t.len() {
                parse_call_suffixes(t, b, value, next)
            } else {
                stray()
            },
            Parsed::Failed(f) => Parsed::Failed(f),
        }
    }
}

/// The calls applied to `callee` by the argument lists that start at `q`.
pub open spec fn parse_call_suffixes(t: Seq<TokenView>, b: Seq<u8>, callee: ExprView, q: int) -> Parsed<ExprView>
    decreases t.len() - q, 10nat,
{
    if !(0 <= q < t.len()) {
        stray()
    } else if t[q].token_type == TokenType::LeftParen {
        if q + 1 >= t.len() {
            stray()
        } else {
            match parse_arguments(t, b, q + 1) {
                Parsed::Done { value: arguments, next: r } => match expect_token(
                    t,
                    r,
                    TokenType::RightParen,
                    "expected `)` after argument list"@,
                ) {
                    Parsed::Done { value: right_paren, next: s } => if q < s < t.len() {
                        parse_call_suffixes(
                            t,
                            b,
                            unresolved_expr(
                                ExprKindView::Call { callee: Box::new(callee), arguments, function_index: None },
                                Span { start: callee.span.start, end: right_paren.span.end },
                            ),
                            s,
                        )
                    } else {
                        stray()
                    },
                    Parsed::Failed(f) => Parsed::Failed(f),
                },
                Parsed::Failed(f) => Parsed::Failed(f),
            }
        }
    } else {
        Parsed::Done { value: callee, next: q }
    }
}

/// arguments := nothing before `)` | argument-list
pub open spec fn parse_arguments(t: Seq<TokenView>, b: Seq<u8>, p: int) -> Parsed<Seq<ExprView>>
    decreases t.len() - p, 9nat,
{
    if !(0 <= p < t.len()) {
        stray()
    } else if t[p].token_type == TokenType::RightParen {
        Parsed::Done { value: Seq::empty(), next: p }
    } else {
        parse_argument_list(t, b, p)
    }
}

/// argument-list := expression ( `,` argument-list )?
pub open spec fn parse_argument_list(t: Seq<TokenView>, b: Seq<u8>, p: int) -> Parsed<Seq<ExprView>>
    decreases t.len() - p, 8nat,
{
    if !(0 <= p < t.len()) {
        stray()
    } else {
        match parse_expression(t, b, p) {
            Parsed::Done { value: first, next: q } => if !(p < q < t.len()) {
                stray()
            } else if t[q].token_type == TokenType::Comma {
                if q + 1 >= t.len() {
                    stray()
                } else {
                    match parse_argument_list(t, b, q + 1) {
                        Parsed::Done { value: rest, next: r } => Parsed::Done { value: seq![first] + rest, next: r },
                        Parsed::Failed(f) => Parsed::Failed(f),
                    }
                }
            } else {
                Parsed::Done { value: seq![first], next: q }
            },
            Parsed::Failed(f) => Parsed::Failed(f),
        }
    }
}

/// primary := `true` | `false` | string | path; anything else is an error.
pub open spec fn parse_primary(t: Seq<TokenView>, b: Seq<u8>, p: int) -> Parsed<ExprView>
    decreases t.len() - p, 4nat,
{
    if !(0 <= p < t.len()) {
        stray()
    } else {
        let token = t[p];
        match token.token_type {
            TokenType::False => Parsed::Done {
                value: unresolved_expr(ExprKindView::BooleanLiteral(false), token.span),
                next: p + 1,
            },
            TokenType::String => Parsed::Done {
                value: unresolved_expr(ExprKindView::StringLiteral(literal_text(b, token)), token.span),
                next: p + 1,
            },
            TokenType::True => Parsed::Done {
                value: unresolved_expr(ExprKindView::BooleanLiteral(true), token.span),
                next: p + 1,
            },
            TokenType::Identifier => parse_path_expression(t, b, p),
            TokenType::Not => fail("expected expression after `not`"@, token.span, "operand expected here"@),
            TokenType::Unexpected => fail("unexpected token"@, token.span, "unexpected character"@),
            _ => fail("expected expression"@, token.span, "expression expected here"@),
        }
    }
}

/// path := identifier ( `::` identifier )*; one segment is a plain identifier.
pub open spec fn parse_path_expression(t: Seq<TokenView>, b: Seq<u8>, p: int) -> Parsed<ExprView>
    decreases t.len() - p, 3nat,
{
    match expect_identifier(t, b, p, "expected identifier"@) {
        Parsed::Done { value: first, next: q } => if !(p < q < t.len()) {
            stray()
        } else {
            match parse_path_segments(t, b, q) {
                Parsed::Done { value: rest, next: r } => if rest.len() == 0 {
                    Parsed::Done { value: unresolved_expr(ExprKindView::Identifier(first), first.span), next: r }
                } else {
                    Parsed::Done {
                        value: unresolved_expr(
                            ExprKindView::QualifiedIdentifier(seq![first] + rest),
                            Span { start: first.span.start, end: rest.last().span.end },
                        ),
                        next: r,
                    }
                },
                Parsed::Failed(f) => Parsed::Failed(f),
            }
        },
        Parsed::Failed(f) => Parsed::Failed(f),
    }
}

/// The `:: identifier` segments that start at `q`.
pub open spec fn parse_path_segments(t: Seq<TokenView>, b: Seq<u8>, q: int) -> Parsed<Seq<IdentView>>
    decreases t.len() - q, 2nat,
{
    if !(0 <= q < t.len()) {
        stray()
    } else if t[q].token_type == TokenType::DoubleColon {
        match expect_identifier(t, b, q + 1, "expected identifier after `::`"@) {
            Parsed::Done { value: segment, next: r } => if !(q < r < t.len()) {
                stray()
            } else {
                match parse_path_segments(t, b, r) {
                    Parsed::Done { value: rest, next: s } => Parsed::Done { value: seq![segment] + rest, next: s },
                    Parsed::Failed(f) => Parsed::Failed(f),
                }
            },
            Parsed::Failed(f) => Parsed::Failed(f),
        }
    } else {
        Parsed::Done { value: Seq::empty(), next: q }
    }
}

/// statement := expression `;`
pub open spec fn parse_statement(t: Seq<TokenView>, b: Seq<u8>, p: int) -> Parsed<StmtView> {
    match parse_expression(t, b, p) {
        Parsed::Done { value: expression, next: q } => match expect_token(
            t,
            q,
            TokenType::Semicolon,
            "expected `;` after statement"@,
        ) {
            Parsed::Done { value: semicolon, next: r } => Parsed::Done {
                value: StmtView {
                    expression,
                    span: Span { start: expression.span.start, end: semicolon.span.end },
                },
                next: r,
            },
            Parsed::Failed(f) => Parsed::Failed(f),
        },
        Parsed::Failed(f) => Parsed::Failed(f),
    }
}

/// The statements of a block up to (not including) its `}`; the end of the input
/// before the `}` fails with `unclosed` pointing at it, annotated `ends_here`.
pub open spec fn parse_block_statements(
    t: Seq<TokenView>,
    b: Seq<u8>,
    p: int,
    unclosed: Seq<char>,
    ends_here: Seq<char>,
) -> Parsed<Seq<StmtView>>
    decreases t.len() - p,
{
    if !(0 <= p < t.len()) {
        stray()
    } else if t[p].token_type == TokenType::RightBrace {
        Parsed::Done { value: Seq::empty(), next: p }
    } else if t[p].token_type == TokenType::EndOfFile {
        fail(unclosed, t[p].span, ends_here)
    } else {
        match parse_statement(t, b, p) {
            Parsed::Done { value: statement, next: q } => if !(p < q < t.len()) {
                stray()
            } else {
                match parse_block_statements(t, b, q, unclosed, ends_here) {
                    Parsed::Done { value: rest, next: r } => Parsed::Done { value: seq![statement] + rest, next: r },
                    Parsed::Failed(f) => Parsed::Failed(f),
                }
            },
            Parsed::Failed(f) => Parsed::Failed(f),
        }
    }
}

/// parameters := nothing before `)` | parameter-list
pub open spec fn parse_parameters(t: Seq<TokenView>, b: Seq<u8>, p: int) -> Parsed<Seq<ParamView>> {
    if at(t, p, TokenType::RightParen) {
        Parsed::Done { value: Seq::empty(), next: p }
    } else {
        parse_parameter_list(t, b, p)
    }
}

/// One `name: type` parameter.
pub open spec fn parse_parameter(t: Seq<TokenView>, b: Seq<u8>, p: int) -> Parsed<ParamView> {
    match expect_identifier(t, b, p, "expected parameter name"@) {
        Parsed::Done { value: name, next: q } => match expect_token(
            t,
            q,
            TokenType::Colon,
            "expected `:` after parameter name"@,
        ) {
            Parsed::Done { next: r, .. } => match expect_identifier(t, b, r, "expected parameter type"@) {
                Parsed::Done { value: type_identifier, next: s } => Parsed::Done {
                    value: ParamView {
                        identifier: name,
                        type_identifier,
                        span: Span { start: name.span.start, end: type_identifier.span.end },
                        ty: TypeIndex(0),
                    },
                    next: s,
                },
                Parsed::Failed(f) => Parsed::Failed(f),
            },
            Parsed::Failed(f) => Parsed::Failed(f),
        },
        Parsed::Failed(f) => Parsed::Failed(f),
    }
}

/// parameter-list := parameter ( `,` parameter-list )?; a `)` after `,` is an error.
pub open spec fn parse_parameter_list(t: Seq<TokenView>, b: Seq<u8>, p: int) -> Parsed<Seq<ParamView>>
    decreases t.len() - p,
{
    match parse_parameter(t, b, p) {
        Parsed::Done { value: parameter, next: q } => if !(p < q < t.len()) {
            stray()
        } else if t[q].token_type != TokenType::Comma {
            Parsed::Done { value: seq![parameter], next: q }
        } else if q + 1 >= t.len() {
            stray()
        } else if t[q + 1].token_type == TokenType::RightParen {
            fail("expected parameter after `,`"@, t[q + 1].span, "parameter expected here"@)
        } else {
            match parse_parameter_list(t, b, q + 1) {
                Parsed::Done { value: rest, next: r } => Parsed::Done { value: seq![parameter] + rest, next: r },
                Parsed::Failed(f) => Parsed::Failed(f),
            }
        },
        Parsed::Failed(f) => Parsed::Failed(f),
    }
}

/// `can effect` or `cannot effect`, starting with the keyword `keyword`.
pub open spec fn parse_effect_clause(t: Seq<TokenView>, b: Seq<u8>, p: int, keyword: TokenType, message: Seq<char>) -> Parsed<ClauseView> {
    match expect_token(t, p, keyword, message) {
        Parsed::Done { value: keyword_token, next: q } => match expect_identifier(t, b, q, "expected effect name"@) {
            Parsed::Done { value: effect, next: r } => Parsed::Done {
                value: ClauseView { effect, span: Span { start: keyword_token.span.start, end: effect.span.end } },
                next: r,
            },
            Parsed::Failed(f) => Parsed::Failed(f),
        },
        Parsed::Failed(f) => Parsed::Failed(f),
    }
}

/// An optional effect clause: present when the token at `p` is `keyword`.
pub open spec fn parse_optional_clause(t: Seq<TokenView>, b: Seq<u8>, p: int, keyword: TokenType, message: Seq<char>) -> Parsed<Option<ClauseView>> {
    if at(t, p, keyword) {
        match parse_effect_clause(t, b, p, keyword, message) {
            Parsed::Done { value, next } => Parsed::Done { value: Some(value), next },
            Parsed::Failed(f) => Parsed::Failed(f),
        }
    } else {
        Parsed::Done { value: None, next: p }
    }
}

/// `effect name;`
pub open spec fn parse_effect_item(t: Seq<TokenView>, b: Seq<u8>, p: int) -> Parsed<ItemView> {
    match expect_token(t, p, TokenType::Effect, "expected `effect` item"@) {
        Parsed::Done { value: effect_token, next: q } => match expect_identifier(t, b, q, "expected effect name"@) {
            Parsed::Done { value: name, next: r } => match expect_token(
                t,
                r,
                TokenType::Semicolon,
                "expected `;` after effect declaration"@,
            ) {
                Parsed::Done { value: semicolon, next: s } => {
                    let span = Span { start: effect_token.span.start, end: semicolon.span.end };
                    Parsed::Done { value: ItemView { kind: ItemKindView::Effect { identifier: name, span }, span }, next: s }
                },
                Parsed::Failed(f) => Parsed::Failed(f),
            },
            Parsed::Failed(f) => Parsed::Failed(f),
        },
        Parsed::Failed(f) => Parsed::Failed(f),
    }
}

/// What follows the effect clauses of a function that starts at byte `start`: `;` for
/// a native function, a block otherwise.
pub open spec fn parse_function_rest(
    t: Seq<TokenView>,
    b: Seq<u8>,
    p: int,
    is_native: bool,
    start: usize,
    identifier: IdentView,
    parameters: Seq<ParamView>,
    can_clause: Option<ClauseView>,
    cannot_clause: Option<ClauseView>,
) -> Parsed<ItemView> {
    if !(0 <= p < t.len()) {
        stray()
    } else if t[p].token_type == TokenType::Can {
        fail("function effect clauses must place `can` before `cannot`"@, t[p].span, "`can` must appear first"@)
    } else if is_native {
        if t[p].token_type == TokenType::LeftBrace {
            fail("native functions must not have a body"@, t[p].span, "remove this body"@)
        } else {
            match expect_token(t, p, TokenType::Semicolon, "expected `;` after native function declaration"@) {
                Parsed::Done { value: semicolon, next: q } => {
                    let span = Span { start, end: semicolon.span.end };
                    Parsed::Done {
                        value: ItemView {
                            kind: ItemKindView::Function(FunctionView {
                                identifier,
                                parameters,
                                can_clause,
                                cannot_clause,
                                body: Seq::empty(),
                                span,
                                is_native: true,
                            }),
                            span,
                        },
                        next: q,
                    }
                },
                Parsed::Failed(f) => Parsed::Failed(f),
            }
        }
    } else {
        match expect_token(t, p, TokenType::LeftBrace, "expected `{` before function body"@) {
            Parsed::Done { next: q, .. } => match parse_block_statements(
                t,
                b,
                q,
                "expected `}` to close function body"@,
                "function body ends here"@,
            ) {
                Parsed::Done { value: body, next: r } => match expect_token(
                    t,
                    r,
                    TokenType::RightBrace,
                    "expected `}` after function body"@,
                ) {
                    Parsed::Done { value: right_brace, next: s } => {
                        let span = Span { start, end: right_brace.span.end };
                        Parsed::Done {
                            value: ItemView {
                                kind: ItemKindView::Function(FunctionView {
                                    identifier,
                                    parameters,
                                    can_clause,
                                    cannot_clause,
                                    body,
                                    span,
                                    is_native: false,
                                }),
                                span,
                            },
                            next: s,
                        }
                    },
                    Parsed::Failed(f) => Parsed::Failed(f),
                },
                Parsed::Failed(f) => Parsed::Failed(f),
            },
            Parsed::Failed(f) => Parsed::Failed(f),
        }
    }
}

/// The part of a function after `(`: parameters, `)`, the effect clauses and the rest.
pub open spec fn parse_function_signature(
    t: Seq<TokenView>,
    b: Seq<u8>,
    p: int,
    is_native: bool,
    start: usize,
    identifier: IdentView,
) -> Parsed<ItemView> {
    match parse_parameters(t, b, p) {
        Parsed::Done { value: parameters, next: q } => match expect_token(
            t,
            q,
            TokenType::RightParen,
            "expected `)` after parameter list"@,
        ) {
            Parsed::Done { next: r, .. } => match parse_optional_clause(t, b, r, TokenType::Can, "expected `can` effect clause"@) {
                Parsed::Done { value: can_clause, next: s } => match parse_optional_clause(
                    t,
                    b,
                    s,
                    TokenType::Cannot,
                    "expected `cannot` effect clause"@,
                ) {
                    Parsed::Done { value: cannot_clause, next: u } => parse_function_rest(
                        t,
                        b,
                        u,
                        is_native,
                        start,
                        identifier,
                        parameters,
                        can_clause,
                        cannot_clause,
                    ),
                    Parsed::Failed(f) => Parsed::Failed(f),
                },
                Parsed::Failed(f) => Parsed::Failed(f),
            },
            Parsed::Failed(f) => Parsed::Failed(f),
        },
        Parsed::Failed(f) => Parsed::Failed(f),
    }
}

/// function := `native`? `fun` name `(` parameters `)` clauses ( `;` | block )
pub open spec fn parse_function_item(t: Seq<TokenView>, b: Seq<u8>, p: int) -> Parsed<ItemView> {
    let is_native = at(t, p, TokenType::Native);
    let q = if is_native { p + 1 } else { p };
    match expect_token(t, q, TokenType::Fun, "expected `fun` item"@) {
        Parsed::Done { value: fun_token, next: r } => match expect_identifier(t, b, r, "expected function name"@) {
            Parsed::Done { value: identifier, next: s } => {
                let start = if is_native { t[p].span.start } else { fun_token.span.start };
                match expect_token(t, s, TokenType::LeftParen, "expected `(` after function name"@) {
                    Parsed::Done { next: u, .. } => parse_function_signature(t, b, u, is_native, start, identifier),
                    Parsed::Failed(f) => Parsed::Failed(f),
                }
            },
            Parsed::Failed(f) => Parsed::Failed(f),
        },
        Parsed::Failed(f) => Parsed::Failed(f),
    }
}

/// test := `test` string `{` statements `}`
pub open spec fn parse_test_item(t: Seq<TokenView>, b: Seq<u8>, p: int) -> Parsed<ItemView> {
    match expect_token(t, p, TokenType::Test, "expected `test` item"@) {
        Parsed::Done { value: test_token, next: q } => match expect_token(t, q, TokenType::String, "expected test name string"@) {
            Parsed::Done { value: name_token, next: r } => match expect_token(
                t,
                r,
                TokenType::LeftBrace,
                "expected `{` after test name"@,
            ) {
                Parsed::Done { next: s, .. } => match parse_block_statements(
                    t,
                    b,
                    s,
                    "expected `}` to close test body"@,
                    "test body ends here"@,
                ) {
                    Parsed::Done { value: body, next: u } => match expect_token(
                        t,
                        u,
                        TokenType::RightBrace,
                        "expected `}` after test body"@,
                    ) {
                        Parsed::Done { value: right_brace, next: v } => {
                            let span = Span { start: test_token.span.start, end: right_brace.span.end };
                            Parsed::Done {
                                value: ItemView {
                                    kind: ItemKindView::Test { name: literal_text(b, name_token), body, span },
                                    span,
                                },
                                next: v,
                            }
                        },
                        Parsed::Failed(f) => Parsed::Failed(f),
                    },
                    Parsed::Failed(f) => Parsed::Failed(f),
                },
                Parsed::Failed(f) => Parsed::Failed(f),
            },
            Parsed::Failed(f) => Parsed::Failed(f),
        },
        Parsed::Failed(f) => Parsed::Failed(f),
    }
}

/// The names of `{a, b}` after the `{`, up to and including the `}`; the value holds
/// the names and the span of the `}`.
pub open spec fn parse_group_names(t: Seq<TokenView>, b: Seq<u8>, p: int) -> Parsed<(Seq<IdentView>, Span)>
    decreases t.len() - p,
{
    match expect_identifier(t, b, p, "expected imported name inside `{}`"@) {
        Parsed::Done { value: name, next: q } => if !(p < q < t.len()) {
            stray()
        } else if t[q].token_type == TokenType::Comma {
            if q + 1 >= t.len() {
                stray()
            } else {
                match parse_group_names(t, b, q + 1) {
                    Parsed::Done { value: (rest, end), next: r } => Parsed::Done { value: (seq![name] + rest, end), next: r },
                    Parsed::Failed(f) => Parsed::Failed(f),
                }
            }
        } else {
            match expect_token(t, q, TokenType::RightBrace, "expected `}` after grouped imports"@) {
                Parsed::Done { value: right_brace, next: r } => Parsed::Done { value: (seq![name], right_brace.span), next: r },
                Parsed::Failed(f) => Parsed::Failed(f),
            }
        },
        Parsed::Failed(f) => Parsed::Failed(f),
    }
}

/// `{a, b}`
pub open spec fn parse_grouped_imports(t: Seq<TokenView>, b: Seq<u8>, p: int) -> Parsed<(Seq<IdentView>, Span)> {
    match expect_token(t, p, TokenType::LeftBrace, "expected `{` before grouped import names"@) {
        Parsed::Done { next: q, .. } => parse_group_names(t, b, q),
        Parsed::Failed(f) => Parsed::Failed(f),
    }
}

/// The rest of a use path after `module::segment::` with `module_segments` read so far:
/// more segments, then a name or a group. The value holds the module path and the names.
pub open spec fn parse_use_path(t: Seq<TokenView>, b: Seq<u8>, p: int, module_segments: Seq<IdentView>) -> Parsed<(Seq<IdentView>, Seq<IdentView>)>
    decreases t.len() - p,
{
    match expect_token(t, p, TokenType::DoubleColon, "expected `::` after imported module path segment"@) {
        Parsed::Done { next: q, .. } => if at(t, q, TokenType::LeftBrace) {
            match parse_grouped_imports(t, b, q) {
                Parsed::Done { value: (names, _), next: r } => Parsed::Done { value: (module_segments, names), next: r },
                Parsed::Failed(f) => Parsed::Failed(f),
            }
        } else {
            match expect_identifier(t, b, q, "expected identifier after `::` in `use` item"@) {
                Parsed::Done { value: segment, next: r } => if !(p < r < t.len()) {
                    stray()
                } else if t[r].token_type != TokenType::DoubleColon {
                    Parsed::Done { value: (module_segments, seq![segment]), next: r }
                } else {
                    parse_use_path(t, b, r, module_segments.push(segment))
                },
                Parsed::Failed(f) => Parsed::Failed(f),
            }
        },
        Parsed::Failed(f) => Parsed::Failed(f),
    }
}

/// The module path and names of a use item, after `use module::`.
pub open spec fn parse_use_names(t: Seq<TokenView>, b: Seq<u8>, p: int, module: IdentView) -> Parsed<(Seq<IdentView>, Seq<IdentView>)> {
    if at(t, p, TokenType::LeftBrace) {
        match parse_grouped_imports(t, b, p) {
            Parsed::Done { value: (names, _), next: q } => Parsed::Done { value: (seq![module], names), next: q },
            Parsed::Failed(f) => Parsed::Failed(f),
        }
    } else {
        match expect_identifier(t, b, p, "expected imported name"@) {
            Parsed::Done { value: segment, next: q } => if at(t, q, TokenType::DoubleColon) {
                parse_use_path(t, b, q, seq![module, segment])
            } else {
                Parsed::Done { value: (seq![module], seq![segment]), next: q }
            },
            Parsed::Failed(f) => Parsed::Failed(f),
        }
    }
}

/// use := `use` module `::` ( name | `{` names `}` | segment `::` ... ) `;`
pub open spec fn parse_use_item(t: Seq<TokenView>, b: Seq<u8>, p: int) -> Parsed<ItemView> {
    match expect_token(t, p, TokenType::Use, "expected `use` item"@) {
        Parsed::Done { value: use_token, next: q } => match expect_identifier(t, b, q, "expected module name"@) {
            Parsed::Done { value: module, next: r } => match expect_token(
                t,
                r,
                TokenType::DoubleColon,
                "expected `::` after imported module path"@,
            ) {
                Parsed::Done { next: s, .. } => match parse_use_names(t, b, s, module) {
                    Parsed::Done { value: (imported_module, imported_names), next: u } => match expect_token(
                        t,
                        u,
                        TokenType::Semicolon,
                        "expected `;` after `use` item"@,
                    ) {
                        Parsed::Done { value: semicolon, next: v } => {
                            let span = Span { start: use_token.span.start, end: semicolon.span.end };
                            Parsed::Done {
                                value: ItemView { kind: ItemKindView::Use { imported_module, imported_names, span }, span },
                                next: v,
                            }
                        },
                        Parsed::Failed(f) => Parsed::Failed(f),
                    },
                    Parsed::Failed(f) => Parsed::Failed(f),
                },
                Parsed::Failed(f) => Parsed::Failed(f),
            },
            Parsed::Failed(f) => Parsed::Failed(f),
        },
        Parsed::Failed(f) => Parsed::Failed(f),
    }
}

/// item := effect | function | test | use | statement, chosen by the first token.
#[verifier::opaque]
pub open spec fn parse_item(t: Seq<TokenView>, b: Seq<u8>, p: int) -> Parsed<ItemView> {
    if !(0 <= p < t.len()) {
        stray()
    } else {
        match t[p].token_type {
            TokenType::Effect => parse_effect_item(t, b, p),
            TokenType::Fun => parse_function_item(t, b, p),
            TokenType::Native => parse_function_item(t, b, p),
            TokenType::Test => parse_test_item(t, b, p),
            TokenType::Use => parse_use_item(t, b, p),
            _ => match parse_statement(t, b, p) {
                Parsed::Done { value: statement, next } => Parsed::Done {
                    value: ItemView { kind: ItemKindView::Statement(statement), span: statement.span },
                    next,
                },
                Parsed::Failed(f) => Parsed::Failed(f),
            },
        }
    }
}

/// The items from position `p` to the end of the input.
pub open spec fn parse_items(t: Seq<TokenView>, b: Seq<u8>, p: int) -> Parsed<Seq<ItemView>>
    decreases t.len() - p,
{
    if !(0 <= p < t.len()) {
        stray()
    } else if t[p].token_type == TokenType::EndOfFile {
        Parsed::Done { value: Seq::empty(), next: p }
    } else {
        match parse_item(t, b, p) {
            Parsed::Done { value: item, next: q } => if !(p < q < t.len()) {
                stray()
            } else {
                match parse_items(t, b, q) {
                    Parsed::Done { value: rest, next: r } => Parsed::Done { value: seq![item] + rest, next: r },
                    Parsed::Failed(f) => Parsed::Failed(f),
                }
            },
            Parsed::Failed(f) => Parsed::Failed(f),
        }
    }
}

/// Parameters of a parsed list come in source order: each one lies inside the tokens the
/// list consumed, and each ends before the next one starts.
pub proof fn law_parameters_in_source_order(t: Seq<TokenView>, b: Seq<u8>, p: int, lo: int, hi: int)
    requires
        tokens_well_ordered(t, lo, hi),
        0 <= p,
    ensures
        parse_parameter_list(t, b, p) matches Parsed::Done { value, next } ==> {
            &&& p < next <= t.len()
            &&& forall|k: int| 0 <= k < value.len() ==> t[p].span.start <= (#[trigger] value[k]).span.start
                && value[k].span.end <= t[next - 1].span.end
            &&& forall|i: int, j: int| 0 <= i < j < value.len() ==> (#[trigger] value[i]).span.end <= (#[trigger] value[j]).span.start
            &&& forall|k: int| 0 <= k < value.len() ==> {
                let parameter = #[trigger] value[k];
                &&& parameter.identifier.span.start == parameter.span.start
                &&& parameter.identifier.span.end <= parameter.type_identifier.span.start
                &&& parameter.type_identifier.span.end == parameter.span.end
            }
        },
    decreases t.len() - p,
{
    match parse_parameter(t, b, p) {
        Parsed::Done { value: parameter, next: q } => {
            assert(q == p + 3);
            assert(parameter.span.start == t[p].span.start && parameter.span.end == t[p + 2].span.end);
            assert(parameter.identifier.span == t[p].span && parameter.type_identifier.span == t[p + 2].span);
            assert(t[p].span.end <= t[p + 2].span.start);
            if p < q < t.len() && t[q].token_type == TokenType::Comma && q + 1 < t.len()
                && t[q + 1].token_type != TokenType::RightParen {
                law_parameters_in_source_order(t, b, q + 1, lo, hi);
                match parse_parameter_list(t, b, q + 1) {
                    Parsed::Done { value: rest, next: r } => {
                        let all = seq![parameter] + rest;
                        assert(t[p + 2].span.end <= t[q + 1].span.start);
                        assert(t[p].span.start <= t[p + 2].span.start);
                        assert(t[p + 2].span.end <= t[r - 1].span.end) by {
                            if p + 2 < r - 1 {
                                assert(t[p + 2].span.end <= t[r - 1].span.start);
                            }
                        }
                        assert forall|k: int| 0 <= k < all.len() implies t[p].span.start <= (#[trigger] all[k]).span.start
                            && all[k].span.end <= t[r - 1].span.end by {
                            if k > 0 {
                                assert(all[k] == rest[k - 1]);
                                assert(t[p].span.start <= t[q + 1].span.start);
                            }
                        }
                        assert forall|k: int| 0 <= k < all.len() implies {
                            let parameter = #[trigger] all[k];
                            &&& parameter.identifier.span.start == parameter.span.start
                            &&& parameter.identifier.span.end <= parameter.type_identifier.span.start
                            &&& parameter.type_identifier.span.end == parameter.span.end
                        } by {
                            if k > 0 {
                                assert(all[k] == rest[k - 1]);
                            }
                        }
                        assert forall|i: int, j: int| 0 <= i < j < all.len() implies (#[trigger] all[i]).span.end
                            <= (#[trigger] all[j]).span.start by {
                            assert(all[j] == rest[j - 1]);
                            if i > 0 {
                                assert(all[i] == rest[i - 1]);
                            }
                        }
                    },
                    Parsed::Failed(_) => {},
                }
            }
        },
        Parsed::Failed(_) => {},
    }
}

proof fn lemma_rest_keeps_parameters(
    t: Seq<TokenView>,
    b: Seq<u8>,
    p: int,
    is_native: bool,
    start: usize,
    identifier: IdentView,
    parameters: Seq<ParamView>,
    can_clause: Option<ClauseView>,
    cannot_clause: Option<ClauseView>,
)
    ensures
        parse_function_rest(t, b, p, is_native, start, identifier, parameters, can_clause, cannot_clause)
            matches Parsed::Done { value, .. } ==> value.kind matches ItemKindView::Function(f) && f.parameters == parameters,
{
}

/// A parsed function keeps its parameters in source order: each parameter ends before
/// the next one starts.
pub proof fn law_function_parameters_in_source_order(t: Seq<TokenView>, b: Seq<u8>, p: int, lo: int, hi: int)
    requires
        tokens_well_ordered(t, lo, hi),
        0 <= p,
    ensures
        parse_function_item(t, b, p) matches Parsed::Done { value, .. } ==> (value.kind matches ItemKindView::Function(f)
            && forall|i: int, j: int| 0 <= i < j < f.parameters.len()
                ==> (#[trigger] f.parameters[i]).span.end <= (#[trigger] f.parameters[j]).span.start),
{
    let is_native = at(t, p, TokenType::Native);
    let q = if is_native { p + 1 } else { p };
    if let Parsed::Done { value: fun_token, next: r } = expect_token(t, q, TokenType::Fun, "expected `fun` item"@) {
        if let Parsed::Done { value: identifier, next: s } = expect_identifier(t, b, r, "expected function name"@) {
            let start = if is_native { t[p].span.start } else { fun_token.span.start };
            if let Parsed::Done { next: u, .. } = expect_token(t, s, TokenType::LeftParen, "expected `(` after function name"@) {
                assert(u >= 0);
                law_parameters_in_source_order(t, b, u, lo, hi);
                if let Parsed::Done { value: parameters, next: v } = parse_parameters(t, b, u) {
                    if let Parsed::Done { next: w, .. } = expect_token(t, v, TokenType::RightParen, "expected `)` after parameter list"@) {
                        if let Parsed::Done { value: can_clause, next: x } = parse_optional_clause(t, b, w, TokenType::Can, "expected `can` effect clause"@) {
                            if let Parsed::Done { value: cannot_clause, next: y } = parse_optional_clause(t, b, x, TokenType::Cannot, "expected `cannot` effect clause"@) {
                                lemma_rest_keeps_parameters(t, b, y, is_native, start, identifier, parameters, can_clause, cannot_clause);
                            }
                        }
                    }
                }
            }
        }
    }
}

} // verus!

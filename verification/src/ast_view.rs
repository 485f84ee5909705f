use vstd::prelude::*;
use crate::span::Span;
use crate::types::{FunctionIndex, TypeIndex};
use crate::ast::{
    BooleanLiteralExpression, CallExpression, CompilationUnit, Expression, ExpressionKind,
    ExpressionStatement, FunctionEffectClause, FunctionItem, FunctionParameter, Identifier, Item,
    ItemKind, NotExpression, QualifiedIdentifier, Statement, StatementKind,
    StringLiteralExpression, duplicate_identifiers, statement_comments, trivia_view,
};

verus! {

/// Mathematical content of an [`Identifier`].
pub struct IdentView {
    pub name: Seq<char>,
    pub span: Span,
}

/// Mathematical content of the shape of an [`Expression`].
pub enum ExprKindView {
    BooleanLiteral(bool),
    Call { callee: Box<ExprView>, arguments: Seq<ExprView>, function_index: Option<FunctionIndex> },
    Identifier(IdentView),
    Not(Box<ExprView>),
    QualifiedIdentifier(Seq<IdentView>),
    StringLiteral(Seq<char>),
}

/// Mathematical content of an [`Expression`].
pub struct ExprView {
    pub kind: ExprKindView,
    pub span: Span,
    pub ty: TypeIndex,
}

/// Mathematical content of a [`Statement`], without its comments.
pub struct StmtView {
    pub expression: ExprView,
    pub span: Span,
}

/// Mathematical content of a [`FunctionParameter`].
pub struct ParamView {
    pub identifier: IdentView,
    pub type_identifier: IdentView,
    pub span: Span,
    pub ty: TypeIndex,
}

/// Mathematical content of a [`FunctionEffectClause`].
pub struct ClauseView {
    pub effect: IdentView,
    pub span: Span,
}

/// Mathematical content of a [`FunctionItem`].
pub struct FunctionView {
    pub identifier: IdentView,
    pub parameters: Seq<ParamView>,
    pub can_clause: Option<ClauseView>,
    pub cannot_clause: Option<ClauseView>,
    pub body: Seq<StmtView>,
    pub span: Span,
    pub is_native: bool,
}

/// Mathematical content of the shape of an [`Item`].
pub enum ItemKindView {
    Effect { identifier: IdentView, span: Span },
    Function(FunctionView),
    Statement(StmtView),
    Test { name: Seq<char>, body: Seq<StmtView>, span: Span },
    Use { imported_module: Seq<IdentView>, imported_names: Seq<IdentView>, span: Span },
}

/// Mathematical content of an [`Item`], without its comments.
pub struct ItemView {
    pub kind: ItemKindView,
    pub span: Span,
}

pub open spec fn ident_view(identifier: Identifier) -> IdentView {
    IdentView { name: identifier.name@, span: identifier.span }
}

pub open spec fn ident_views(identifiers: Seq<Identifier>) -> Seq<IdentView> {
    identifiers.map_values(|i: Identifier| ident_view(i))
}

pub open spec fn expr_view(expression: Expression) -> ExprView
    decreases expression, 1nat,
{
    ExprView {
        kind: match expression.kind {
            ExpressionKind::BooleanLiteral(literal) => ExprKindView::BooleanLiteral(literal.value),
            ExpressionKind::Call(call) => ExprKindView::Call {
                callee: Box::new(expr_view(*call.callee)),
                arguments: expr_views(call.arguments@),
                function_index: call.function_index,
            },
            ExpressionKind::Identifier(identifier) => ExprKindView::Identifier(ident_view(identifier)),
            ExpressionKind::Not(not) => ExprKindView::Not(Box::new(expr_view(*not.operand))),
            ExpressionKind::QualifiedIdentifier(path) => ExprKindView::QualifiedIdentifier(ident_views(path.segments@)),
            ExpressionKind::StringLiteral(literal) => ExprKindView::StringLiteral(literal.value@),
        },
        span: expression.span,
        ty: expression.ty,
    }
}

pub open spec fn expr_views(expressions: Seq<Expression>) -> Seq<ExprView>
    decreases expressions, 0nat,
{
    if expressions.len() == 0 {
        Seq::empty()
    } else {
        expr_views(expressions.drop_last()).push(expr_view(expressions.last()))
    }
}

pub open spec fn stmt_view(statement: Statement) -> StmtView {
    match statement.kind {
        StatementKind::Expression(e) => StmtView { expression: expr_view(e.expression), span: statement.span },
    }
}

pub open spec fn stmt_views(statements: Seq<Statement>) -> Seq<StmtView> {
    statements.map_values(|s: Statement| stmt_view(s))
}

pub open spec fn param_view(parameter: FunctionParameter) -> ParamView {
    ParamView {
        identifier: ident_view(parameter.identifier),
        type_identifier: ident_view(parameter.type_identifier),
        span: parameter.span,
        ty: parameter.ty,
    }
}

pub open spec fn param_views(parameters: Seq<FunctionParameter>) -> Seq<ParamView> {
    parameters.map_values(|p: FunctionParameter| param_view(p))
}

pub open spec fn clause_view(clause: Option<FunctionEffectClause>) -> Option<ClauseView> {
    match clause {
        Some(c) => Some(ClauseView { effect: ident_view(c.effect), span: c.span }),
        None => None,
    }
}

pub open spec fn function_view(function: FunctionItem) -> FunctionView {
    FunctionView {
        identifier: ident_view(function.identifier),
        parameters: param_views(function.parameters@),
        can_clause: clause_view(function.can_clause),
        cannot_clause: clause_view(function.cannot_clause),
        body: stmt_views(function.body@),
        span: function.span,
        is_native: function.is_native,
    }
}

pub open spec fn item_view(item: Item) -> ItemView {
    ItemView {
        kind: match item.kind {
            ItemKind::Effect(e) => ItemKindView::Effect { identifier: ident_view(e.identifier), span: e.span },
            ItemKind::Function(f) => ItemKindView::Function(function_view(f)),
            ItemKind::Statement(s) => ItemKindView::Statement(stmt_view(s)),
            ItemKind::Test(t) => ItemKindView::Test { name: t.name@, body: stmt_views(t.body@), span: t.span },
            ItemKind::Use(u) => ItemKindView::Use {
                imported_module: ident_views(u.imported_module.segments@),
                imported_names: ident_views(u.imported_names@),
                span: u.span,
            },
        },
        span: item.span,
    }
}

pub open spec fn item_views(items: Seq<Item>) -> Seq<ItemView> {
    items.map_values(|i: Item| item_view(i))
}

pub open spec fn unit_items(unit: CompilationUnit) -> Seq<ItemView> {
    item_views(unit.items@)
}

proof fn lemma_views_of_expressions(s: Seq<Expression>)
    ensures
        expr_views(s).len() == s.len(),
        forall|i: int| 0 <= i < s.len() ==> #[trigger] expr_views(s)[i] == expr_view(s[i]),
    decreases s.len(),
{
    if s.len() > 0 {
        lemma_views_of_expressions(s.drop_last());
        assert forall|i: int| 0 <= i < s.len() implies #[trigger] expr_views(s)[i] == expr_view(s[i]) by {
            if i < s.len() - 1 {
                assert(s.drop_last()[i] == s[i]);
            }
        }
    }
}

/// A copy of an expression.
pub fn duplicate_expression(expression: &Expression) -> (copy: Expression)
    ensures
        expr_view(copy) == expr_view(*expression),
    decreases expression, 1nat,
{
    let kind = match &expression.kind {
        ExpressionKind::BooleanLiteral(literal) => ExpressionKind::BooleanLiteral(BooleanLiteralExpression { value: literal.value }),
        ExpressionKind::Call(call) => {
            proof {
                let kind = expression.kind;
                assert(decreases_to!(expression => kind));
                assert(decreases_to!(kind => kind->Call_0));
                assert(decreases_to!(kind->Call_0 => kind->Call_0.callee));
            }
            let callee = duplicate_expression(&call.callee);
            let arguments = duplicate_arguments(expression, &call.arguments);
            ExpressionKind::Call(CallExpression { callee: Box::new(callee), arguments, function_index: call.function_index })
        },
        ExpressionKind::Identifier(identifier) => ExpressionKind::Identifier(identifier.duplicate()),
        ExpressionKind::Not(not) => {
            proof {
                let kind = expression.kind;
                assert(decreases_to!(expression => kind));
                assert(decreases_to!(kind => kind->Not_0));
                assert(decreases_to!(kind->Not_0 => kind->Not_0.operand));
            }
            let operand = duplicate_expression(&not.operand);
            ExpressionKind::Not(NotExpression { operand: Box::new(operand) })
        },
        ExpressionKind::QualifiedIdentifier(path) => {
            ExpressionKind::QualifiedIdentifier(QualifiedIdentifier { segments: duplicate_identifiers(&path.segments) })
        },
        ExpressionKind::StringLiteral(literal) => ExpressionKind::StringLiteral(StringLiteralExpression { value: literal.value.clone() }),
    };
    Expression { kind, span: expression.span, ty: expression.ty }
}

fn duplicate_arguments(whole: &Expression, arguments: &Vec<Expression>) -> (copy: Vec<Expression>)
    requires
        whole.kind matches ExpressionKind::Call(call) && call.arguments == *arguments,
    ensures
        expr_views(copy@) == expr_views(arguments@),
    decreases whole, 0nat,
{
    let mut copy: Vec<Expression> = Vec::new();
    let mut index: usize = 0;
    while index < arguments.len()
        invariant
            index <= arguments@.len(),
            copy@.len() == index,
            whole.kind matches ExpressionKind::Call(call) && call.arguments == *arguments,
            forall|j: int| 0 <= j < index ==> expr_view(#[trigger] copy@[j]) == expr_view(arguments@[j]),
        decreases arguments@.len() - index,
    {
        proof {
            let kind = whole.kind;
            assert(decreases_to!(whole => kind));
            assert(decreases_to!(kind => kind->Call_0));
            assert(decreases_to!(kind->Call_0 => kind->Call_0.arguments));
            assert(decreases_to!(kind->Call_0.arguments => kind->Call_0.arguments@));
            assert(decreases_to!(kind->Call_0.arguments@ => kind->Call_0.arguments@[index as int]));
        }
        let argument = duplicate_expression(&arguments[index]);
        copy.push(argument);
        index = index + 1;
    }
    proof {
        lemma_views_of_expressions(copy@);
        lemma_views_of_expressions(arguments@);
        assert(expr_views(copy@) =~= expr_views(arguments@));
    }
    copy
}

/// A copy of statements (their comments included).
pub fn duplicate_statements(statements: &Vec<Statement>) -> (copy: Vec<Statement>)
    ensures
        stmt_views(copy@) == stmt_views(statements@),
        statement_comments(copy@) == statement_comments(statements@),
{
    let mut copy: Vec<Statement> = Vec::new();
    let mut index: usize = 0;
    while index < statements.len()
        invariant
            index <= statements@.len(),
            copy@.len() == index,
            forall|j: int| 0 <= j < index ==> stmt_view(#[trigger] copy@[j]) == stmt_view(statements@[j]),
            forall|j: int| 0 <= j < index ==> trivia_view((#[trigger] copy@[j]).trivia) == trivia_view(statements@[j].trivia),
        decreases statements@.len() - index,
    {
        let statement = &statements[index];
        let kind = match &statement.kind {
            StatementKind::Expression(e) => StatementKind::Expression(ExpressionStatement { expression: duplicate_expression(&e.expression) }),
        };
        copy.push(Statement { kind, span: statement.span, trivia: statement.trivia.duplicate() });
        index = index + 1;
    }
    assert(stmt_views(copy@) =~= stmt_views(statements@));
    assert(statement_comments(copy@) =~= statement_comments(statements@));
    copy
}

fn duplicate_clause(clause: &Option<FunctionEffectClause>) -> (copy: Option<FunctionEffectClause>)
    ensures
        copy == *clause,
{
    match clause {
        Some(c) => Some(FunctionEffectClause { effect: c.effect.duplicate(), span: c.span }),
        None => None,
    }
}

/// A copy of a function item.
pub fn duplicate_function(function: &FunctionItem) -> (copy: FunctionItem)
    ensures
        copy.identifier == function.identifier,
        copy.parameters@ == function.parameters@,
        copy.can_clause == function.can_clause,
        copy.cannot_clause == function.cannot_clause,
        stmt_views(copy.body@) == stmt_views(function.body@),
        statement_comments(copy.body@) == statement_comments(function.body@),
        copy.span == function.span,
        copy.is_native == function.is_native,
        function_view(copy) == function_view(*function),
{
    let mut parameters: Vec<FunctionParameter> = Vec::new();
    let mut index: usize = 0;
    while index < function.parameters.len()
        invariant
            index <= function.parameters@.len(),
            parameters@ == function.parameters@.subrange(0, index as int),
        decreases function.parameters@.len() - index,
    {
        let parameter = &function.parameters[index];
        parameters.push(FunctionParameter {
            identifier: parameter.identifier.duplicate(),
            type_identifier: parameter.type_identifier.duplicate(),
            span: parameter.span,
            ty: parameter.ty,
        });
        index = index + 1;
        assert(parameters@ =~= function.parameters@.subrange(0, index as int));
    }
    assert(parameters@ =~= function.parameters@);
    FunctionItem {
        identifier: function.identifier.duplicate(),
        parameters,
        can_clause: duplicate_clause(&function.can_clause),
        cannot_clause: duplicate_clause(&function.cannot_clause),
        body: duplicate_statements(&function.body),
        span: function.span,
        is_native: function.is_native,
    }
}

} // verus!

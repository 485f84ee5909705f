use vstd::prelude::*;
use crate::span::Span;
use crate::types::{FunctionIndex, TypeIndex};
use crate::lexer::token::{TriviaPiece, TriviaView, duplicate_pieces, trivia_views};
use crate::error::{OcelotError, OcelotResult, is_message_error};

verus! {

/// A name with its source span.
#[derive(Debug, Clone, PartialEq, Eq)]
pub struct Identifier {
    pub name: String,
    pub span: Span,
}

impl Identifier {
    /// Creates an identifier from its name and span.
    pub fn new(name: &str, span: Span) -> (identifier: Identifier)
        ensures
            identifier.name@ == name@,
            identifier.span == span,
    {
        Identifier { name: String::from_str(name), span }
    }

    /// Creates an identifier from an owned name and its span.
    pub fn from_string(name: String, span: Span) -> (identifier: Identifier)
        ensures
            identifier.name@ == name@,
            identifier.span == span,
    {
        Identifier { name, span }
    }
}

/// The names of a sequence of identifiers joined by `::`.
pub open spec fn joined_names(segments: Seq<Identifier>) -> Seq<char>
    decreases segments.len(),
{
    if segments.len() == 0 {
        Seq::empty()
    } else if segments.len() == 1 {
        segments[0].name@
    } else {
        joined_names(segments.drop_last()) + "::"@ + segments.last().name@
    }
}

/// Joins the names of `segments` with `::`.
pub fn join_names(segments: &[Identifier]) -> (text: String)
    ensures
        text@ == joined_names(segments@),
{
    let mut text = String::new();
    let mut index: usize = 0;
    while index < segments.len()
        invariant
            index <= segments@.len(),
            text@ == joined_names(segments@.subrange(0, index as int)),
        decreases segments@.len() - index,
    {
        if index > 0 {
            text.append("::");
        }
        text.append(segments[index].name.as_str());
        index = index + 1;
        proof {
            let prefix = segments@.subrange(0, index as int);
            assert(prefix.drop_last() =~= segments@.subrange(0, index - 1));
            if index == 1 {
                assert(joined_names(segments@.subrange(0, 0)) == Seq::<char>::empty());
                assert(text@ =~= prefix[0].name@);
            }
        }
    }
    assert(segments@.subrange(0, index as int) =~= segments@);
    text
}

/// A `::`-separated path such as `math::greet`.
#[derive(Debug, Clone, PartialEq, Eq)]
pub struct QualifiedIdentifier {
    pub segments: Vec<Identifier>,
}

impl QualifiedIdentifier {
    /// Creates a path from its segments.
    pub fn new(segments: Vec<Identifier>) -> (identifier: QualifiedIdentifier)
        ensures
            identifier.segments@ == segments@,
    {
        QualifiedIdentifier { segments }
    }

    /// The path text: its segment names joined by `::`.
    pub fn render(&self) -> (text: String)
        ensures
            text@ == joined_names(self.segments@),
    {
        join_names(self.segments.as_slice())
    }

    /// The text of all segments but the last, joined by `::`.
    pub fn render_imported_module(&self) -> (text: String)
        ensures
            self.segments@.len() == 0 ==> text@ == Seq::<char>::empty(),
            self.segments@.len() > 0 ==> text@ == joined_names(self.segments@.drop_last()),
    {
        if self.segments.len() == 0 {
            return String::new();
        }
        let mut text = String::new();
        let mut index: usize = 0;
        let count = self.segments.len() - 1;
        while index < count
            invariant
                count == self.segments@.len() - 1,
                index <= count,
                text@ == joined_names(self.segments@.subrange(0, index as int)),
            decreases count - index,
        {
            if index > 0 {
                text.append("::");
            }
            text.append(self.segments[index].name.as_str());
            index = index + 1;
            proof {
                let prefix = self.segments@.subrange(0, index as int);
                assert(prefix.drop_last() =~= self.segments@.subrange(0, index - 1));
                if index == 1 {
                    assert(joined_names(self.segments@.subrange(0, 0)) == Seq::<char>::empty());
                    assert(text@ =~= prefix[0].name@);
                }
            }
        }
        assert(self.segments@.subrange(0, count as int) =~= self.segments@.drop_last());
        text
    }

    /// The last segment, if any.
    pub fn last(&self) -> (segment: Option<&Identifier>)
        ensures
            self.segments@.len() == 0 ==> segment is None,
            self.segments@.len() > 0 ==> segment == Some(&self.segments@.last()),
    {
        if self.segments.len() == 0 {
            None
        } else {
            Some(&self.segments[self.segments.len() - 1])
        }
    }

    /// From the start of the first segment to the end of the last one.
    pub fn span(&self) -> (span: Span)
        ensures
            self.segments@.len() > 0 ==> span == (Span {
                start: self.segments@[0].span.start,
                end: self.segments@.last().span.end,
            }),
            self.segments@.len() == 0 ==> span == (Span { start: 0, end: 0 }),
    {
        if self.segments.len() == 0 {
            Span::new(0, 0)
        } else {
            Span::new(self.segments[0].span.start, self.segments[self.segments.len() - 1].span.end)
        }
    }
}

/// `true` or `false`.
#[derive(Debug, Clone, Copy, PartialEq, Eq, Structural)]
pub struct BooleanLiteralExpression {
    pub value: bool,
}

impl BooleanLiteralExpression {
    /// Creates a boolean literal.
    pub fn new(value: bool) -> (literal: BooleanLiteralExpression)
        ensures
            literal.value == value,
    {
        BooleanLiteralExpression { value }
    }
}

/// A string literal; `value` excludes the quotes.
#[derive(Debug, Clone, PartialEq, Eq)]
pub struct StringLiteralExpression {
    pub value: String,
}

impl StringLiteralExpression {
    /// Creates a string literal.
    pub fn new(value: &str) -> (literal: StringLiteralExpression)
        ensures
            literal.value@ == value@,
    {
        StringLiteralExpression { value: String::from_str(value) }
    }

    /// Creates a string literal from an owned string.
    pub fn from_string(value: String) -> (literal: StringLiteralExpression)
        ensures
            literal.value@ == value@,
    {
        StringLiteralExpression { value }
    }
}

/// A call; `function_index` is set by name resolution.
#[derive(Debug, PartialEq, Eq)]
pub struct CallExpression {
    pub callee: Box<Expression>,
    pub arguments: Vec<Expression>,
    pub function_index: Option<FunctionIndex>,
}

impl CallExpression {
    /// Creates an unresolved call.
    pub fn new(callee: Expression, arguments: Vec<Expression>) -> (call: CallExpression)
        ensures
            *call.callee == callee,
            call.arguments@ == arguments@,
            call.function_index is None,
    {
        CallExpression { callee: Box::new(callee), arguments, function_index: None }
    }

    /// Records the function this call resolves to.
    pub fn resolve_to(&mut self, function_index: FunctionIndex)
        ensures
            final(self).function_index == Some(function_index),
            final(self).callee == old(self).callee,
            final(self).arguments == old(self).arguments,
    {
        self.function_index = Some(function_index);
    }

    /// The resolved function, or an error for a call that was never resolved.
    pub fn function_index(&self) -> (result: OcelotResult<FunctionIndex>)
        ensures
            self.function_index matches Some(f) ==> result == Ok::<FunctionIndex, OcelotError>(f),
            self.function_index is None ==> result is Err && is_message_error(
                result->Err_0,
                "internal error: call expression was not resolved"@,
            ),
    {
        match self.function_index {
            Some(function_index) => Ok(function_index),
            None => Err(OcelotError::message_str("internal error: call expression was not resolved")),
        }
    }
}

/// `not operand`.
#[derive(Debug, PartialEq, Eq)]
pub struct NotExpression {
    pub operand: Box<Expression>,
}

impl NotExpression {
    /// Creates a negation.
    pub fn new(operand: Expression) -> (not: NotExpression)
        ensures
            *not.operand == operand,
    {
        NotExpression { operand: Box::new(operand) }
    }
}

/// The shapes of expressions.
#[derive(Debug, PartialEq, Eq)]
pub enum ExpressionKind {
    BooleanLiteral(BooleanLiteralExpression),
    Call(CallExpression),
    Identifier(Identifier),
    Not(NotExpression),
    QualifiedIdentifier(QualifiedIdentifier),
    StringLiteral(StringLiteralExpression),
}

/// An expression with its span and resolved type.
#[derive(Debug, PartialEq, Eq)]
pub struct Expression {
    pub kind: ExpressionKind,
    pub span: Span,
    pub ty: TypeIndex,
}

impl Expression {
    /// Creates an expression whose type is not yet resolved.
    pub fn new(kind: ExpressionKind, span: Span) -> (expression: Expression)
        ensures
            expression.kind == kind,
            expression.span == span,
            expression.ty == TypeIndex(0),
    {
        Expression { kind, span, ty: TypeIndex::unresolved() }
    }
}

/// An expression used as a statement.
#[derive(Debug, PartialEq, Eq)]
pub struct ExpressionStatement {
    pub expression: Expression,
}

impl ExpressionStatement {
    /// Wraps an expression.
    pub fn new(expression: Expression) -> (statement: ExpressionStatement)
        ensures
            statement.expression == expression,
    {
        ExpressionStatement { expression }
    }
}

/// The shapes of statements.
#[derive(Debug, PartialEq, Eq)]
pub enum StatementKind {
    Expression(ExpressionStatement),
}

/// Comments attached to a syntax node.
#[derive(Debug, Clone, PartialEq, Eq)]
pub struct NodeTrivia {
    pub leading: Vec<TriviaPiece>,
    pub trailing: Vec<TriviaPiece>,
}

/// What a node's comments read: the leading pieces, then the trailing ones.
pub open spec fn trivia_view(trivia: NodeTrivia) -> (Seq<TriviaView>, Seq<TriviaView>) {
    (trivia_views(trivia.leading@), trivia_views(trivia.trailing@))
}

impl NodeTrivia {
    /// A copy of the attached comments.
    pub fn duplicate(&self) -> (copy: NodeTrivia)
        ensures
            trivia_view(copy) == trivia_view(*self),
    {
        NodeTrivia { leading: duplicate_pieces(&self.leading), trailing: duplicate_pieces(&self.trailing) }
    }

    /// No attached comments.
    pub fn empty() -> (trivia: NodeTrivia)
        ensures
            trivia.leading@.len() == 0,
            trivia.trailing@.len() == 0,
    {
        NodeTrivia { leading: Vec::new(), trailing: Vec::new() }
    }
}

/// A statement with its span.
#[derive(Debug, PartialEq, Eq)]
pub struct Statement {
    pub kind: StatementKind,
    pub span: Span,
    pub trivia: NodeTrivia,
}

impl Statement {
    /// Creates a statement without attached comments.
    pub fn new(kind: StatementKind, span: Span) -> (statement: Statement)
        ensures
            statement.kind == kind,
            statement.span == span,
            statement.trivia.leading@.len() == 0,
            statement.trivia.trailing@.len() == 0,
    {
        Statement { kind, span, trivia: NodeTrivia::empty() }
    }
}

/// One parameter `name: type` of a function.
#[derive(Debug, Clone, PartialEq, Eq)]
pub struct FunctionParameter {
    pub identifier: Identifier,
    pub type_identifier: Identifier,
    pub span: Span,
    pub ty: TypeIndex,
}

impl FunctionParameter {
    /// Creates a parameter whose type is not yet resolved.
    pub fn new(identifier: Identifier, type_identifier: Identifier, span: Span) -> (parameter: FunctionParameter)
        ensures
            parameter.identifier == identifier,
            parameter.type_identifier == type_identifier,
            parameter.span == span,
            parameter.ty == TypeIndex(0),
    {
        FunctionParameter { identifier, type_identifier, span, ty: TypeIndex::unresolved() }
    }
}

/// A `can effect` or `cannot effect` clause of a function.
#[derive(Debug, Clone, PartialEq, Eq)]
pub struct FunctionEffectClause {
    pub effect: Identifier,
    pub span: Span,
}

impl FunctionEffectClause {
    /// Creates an effect clause.
    pub fn new(effect: Identifier, span: Span) -> (clause: FunctionEffectClause)
        ensures
            clause.effect == effect,
            clause.span == span,
    {
        FunctionEffectClause { effect, span }
    }
}

/// A function declaration; native functions have no body.
#[derive(Debug, PartialEq, Eq)]
pub struct FunctionItem {
    pub identifier: Identifier,
    pub parameters: Vec<FunctionParameter>,
    pub can_clause: Option<FunctionEffectClause>,
    pub cannot_clause: Option<FunctionEffectClause>,
    pub body: Vec<Statement>,
    pub span: Span,
    pub is_native: bool,
}

impl FunctionItem {
    /// Creates a function with a body.
    pub fn new(
        identifier: Identifier,
        parameters: Vec<FunctionParameter>,
        can_clause: Option<FunctionEffectClause>,
        cannot_clause: Option<FunctionEffectClause>,
        body: Vec<Statement>,
        span: Span,
    ) -> (function: FunctionItem)
        ensures
            function.identifier == identifier,
            function.parameters@ == parameters@,
            function.can_clause == can_clause,
            function.cannot_clause == cannot_clause,
            function.body@ == body@,
            function.span == span,
            !function.is_native,
    {
        FunctionItem { identifier, parameters, can_clause, cannot_clause, body, span, is_native: false }
    }

    /// Creates a native function declaration.
    pub fn new_native(
        identifier: Identifier,
        parameters: Vec<FunctionParameter>,
        can_clause: Option<FunctionEffectClause>,
        cannot_clause: Option<FunctionEffectClause>,
        span: Span,
    ) -> (function: FunctionItem)
        ensures
            function.identifier == identifier,
            function.parameters@ == parameters@,
            function.can_clause == can_clause,
            function.cannot_clause == cannot_clause,
            function.body@.len() == 0,
            function.span == span,
            function.is_native,
    {
        FunctionItem {
            identifier,
            parameters,
            can_clause,
            cannot_clause,
            body: Vec::new(),
            span,
            is_native: true,
        }
    }
}

/// A named test with its body.
#[derive(Debug, PartialEq, Eq)]
pub struct TestItem {
    pub name: String,
    pub body: Vec<Statement>,
    pub span: Span,
}

impl TestItem {
    /// Creates a test item.
    pub fn new(name: String, body: Vec<Statement>, span: Span) -> (test: TestItem)
        ensures
            test.name@ == name@,
            test.body@ == body@,
            test.span == span,
    {
        TestItem { name, body, span }
    }
}

/// An `effect name;` declaration.
#[derive(Debug, Clone, PartialEq, Eq)]
pub struct EffectItem {
    pub identifier: Identifier,
    pub span: Span,
}

impl EffectItem {
    /// Creates an effect declaration.
    pub fn new(identifier: Identifier, span: Span) -> (effect: EffectItem)
        ensures
            effect.identifier == identifier,
            effect.span == span,
    {
        EffectItem { identifier, span }
    }
}

/// A `use module::name;` or `use module::{a, b};` import.
#[derive(Debug, Clone, PartialEq, Eq)]
pub struct UseItem {
    pub imported_module: QualifiedIdentifier,
    pub imported_names: Vec<Identifier>,
    pub span: Span,
}

impl UseItem {
    /// Creates an import.
    pub fn new(imported_module: QualifiedIdentifier, imported_names: Vec<Identifier>, span: Span) -> (use_item: UseItem)
        ensures
            use_item.imported_module == imported_module,
            use_item.imported_names@ == imported_names@,
            use_item.span == span,
    {
        UseItem { imported_module, imported_names, span }
    }
}

/// The shapes of top-level items.
#[derive(Debug, PartialEq, Eq)]
pub enum ItemKind {
    Effect(EffectItem),
    Function(FunctionItem),
    Statement(Statement),
    Test(TestItem),
    Use(UseItem),
}

/// A top-level item with its span.
#[derive(Debug, PartialEq, Eq)]
pub struct Item {
    pub kind: ItemKind,
    pub span: Span,
    pub trivia: NodeTrivia,
}

impl Item {
    /// Creates an item without attached comments.
    pub fn new(kind: ItemKind, span: Span) -> (item: Item)
        ensures
            item.kind == kind,
            item.span == span,
            item.trivia.leading@.len() == 0,
            item.trivia.trailing@.len() == 0,
    {
        Item { kind, span, trivia: NodeTrivia::empty() }
    }
}

/// The items of one source file.
#[derive(Debug, PartialEq, Eq)]
pub struct CompilationUnit {
    pub items: Vec<Item>,
    pub span: Span,
    pub trivia: NodeTrivia,
}

/// No comments are attached.
pub open spec fn bare_trivia(trivia: NodeTrivia) -> bool {
    trivia.leading@.len() == 0 && trivia.trailing@.len() == 0
}

/// No comments are attached to any of the statements.
pub open spec fn bare_statements(statements: Seq<Statement>) -> bool {
    forall|i: int| 0 <= i < statements.len() ==> bare_trivia(#[trigger] statements[i].trivia)
}

/// No comments are attached to the item, nor to a statement of it or of its body.
pub open spec fn bare_item(item: Item) -> bool {
    &&& bare_trivia(item.trivia)
    &&& match item.kind {
        ItemKind::Function(f) => bare_statements(f.body@),
        ItemKind::Test(t) => bare_statements(t.body@),
        ItemKind::Statement(s) => bare_trivia(s.trivia),
        _ => true,
    }
}

/// No comments are attached to the unit, its items or their statements.
pub open spec fn bare_unit(unit: CompilationUnit) -> bool {
    &&& bare_trivia(unit.trivia)
    &&& forall|i: int| 0 <= i < unit.items@.len() ==> bare_item(#[trigger] unit.items@[i])
}

/// The comments attached to each statement, in order.
pub open spec fn statement_comments(statements: Seq<Statement>) -> Seq<(Seq<TriviaView>, Seq<TriviaView>)> {
    statements.map_values(|statement: Statement| trivia_view(statement.trivia))
}

/// The comments an item carries: its own, then those of the statements it holds.
pub open spec fn item_comments(item: Item)
    -> ((Seq<TriviaView>, Seq<TriviaView>), Seq<(Seq<TriviaView>, Seq<TriviaView>)>)
{
    (trivia_view(item.trivia), match item.kind {
        ItemKind::Function(f) => statement_comments(f.body@),
        ItemKind::Test(t) => statement_comments(t.body@),
        ItemKind::Statement(s) => seq![trivia_view(s.trivia)],
        _ => Seq::empty(),
    })
}

/// The comments of each item, in order.
pub open spec fn items_comments(items: Seq<Item>)
    -> Seq<((Seq<TriviaView>, Seq<TriviaView>), Seq<(Seq<TriviaView>, Seq<TriviaView>)>)>
{
    items.map_values(|item: Item| item_comments(item))
}

impl CompilationUnit {
    /// Creates a compilation unit without attached comments.
    pub fn new(items: Vec<Item>, span: Span) -> (unit: CompilationUnit)
        ensures
            unit.items@ == items@,
            unit.span == span,
            unit.trivia.leading@.len() == 0,
            unit.trivia.trailing@.len() == 0,
    {
        CompilationUnit { items, span, trivia: NodeTrivia::empty() }
    }

    /// The position of the first top-level statement, if any.
    pub fn first_statement_position(&self) -> (position: Option<usize>)
        ensures
            match position {
                Some(p) => p < self.items@.len() && self.items@[p as int].kind is Statement
                    && forall|k: int| 0 <= k < p ==> !(self.items@[k].kind is Statement),
                None => forall|k: int| 0 <= k < self.items@.len() ==> !(self.items@[k].kind is Statement),
            },
    {
        let mut index: usize = 0;
        while index < self.items.len()
            invariant
                index <= self.items@.len(),
                forall|k: int| 0 <= k < index ==> !(self.items@[k].kind is Statement),
            decreases self.items@.len() - index,
        {
            if let ItemKind::Statement(_) = &self.items[index].kind {
                return Some(index);
            }
            index = index + 1;
        }
        None
    }
}


impl Identifier {
    /// A copy of this identifier.
    pub fn duplicate(&self) -> (copy: Identifier)
        ensures
            copy == *self,
    {
        Identifier { name: self.name.clone(), span: self.span }
    }
}

/// Copies a sequence of identifiers.
pub fn duplicate_identifiers(identifiers: &Vec<Identifier>) -> (copy: Vec<Identifier>)
    ensures
        copy@ == identifiers@,
{
    let mut copy: Vec<Identifier> = Vec::new();
    let mut index: usize = 0;
    while index < identifiers.len()
        invariant
            index <= identifiers@.len(),
            copy@ == identifiers@.subrange(0, index as int),
        decreases identifiers@.len() - index,
    {
        copy.push(identifiers[index].duplicate());
        index = index + 1;
        assert(copy@ =~= identifiers@.subrange(0, index as int));
    }
    assert(identifiers@.subrange(0, index as int) =~= identifiers@);
    copy
}

impl FunctionItem {
    /// An empty placeholder function.
    pub fn placeholder() -> (function: FunctionItem)
        ensures
            function.identifier.name@ == Seq::<char>::empty(),
            function.identifier.span == (Span { start: 0, end: 0 }),
            function.parameters@.len() == 0,
            function.can_clause is None,
            function.cannot_clause is None,
            function.body@.len() == 0,
            function.span == (Span { start: 0, end: 0 }),
            !function.is_native,
    {
        FunctionItem::new(Identifier::from_string(String::new(), Span::new(0, 0)), Vec::new(), None, None, Vec::new(), Span::new(0, 0))
    }
}

} // verus!

use vstd::prelude::*;
use crate::span::Span;
use crate::source_file::SourceFile;
use crate::types::{FunctionIndex, TypeIndex};
use crate::text::{concat3, concat5, decimal_string, decimal_text, same_text};
use crate::diagnostic::DiagnosticView;
use crate::compilation_context::CompilationContext;
use crate::name_table::NameTable;
use crate::index_map::IndexMap;
use crate::index_set::IndexSet;
use crate::ast::{
    CallExpression, Expression, ExpressionKind, FunctionItem, Identifier, Item, ItemKind,
    NotExpression, QualifiedIdentifier, Statement, StatementKind, ExpressionStatement, TestItem,
    item_comments, joined_names, statement_comments, trivia_view,
};
use crate::ast_view::{ExprKindView, ExprView, IdentView, StmtView, expr_view, expr_views, ident_views, stmt_view, stmt_views};
use crate::symbol_table::{FunctionKind, ResolvedFunction, SymbolTable, qualified_name};
use crate::module_environment::ModuleEnvironment;
use crate::resolver::diagnostics::{addressable, source_diagnostic_for_span, span_diagnostic};

verus! {

/// What resolving a body can see: the symbol table, the file, the module's name and
/// imports, and the types of the local values (a function's parameters).
pub struct Scope {
    pub table: SymbolTable,
    pub file: SourceFile,
    pub module_name: Seq<char>,
    pub imports: Map<Seq<char>, FunctionIndex>,
    pub locals: Map<Seq<char>, TypeIndex>,
}

/// The outcome of resolving an expression: the annotated expression, the diagnostics
/// in the order they are reported, and the calls resolved inside it, with the span of
/// each callee.
pub struct Resolved {
    pub expression: ExprView,
    pub diagnostics: Seq<DiagnosticView>,
    pub calls: Seq<(FunctionIndex, Span)>,
}

/// The outcome of resolving expressions in order.
pub struct ResolvedList {
    pub expressions: Seq<ExprView>,
    pub diagnostics: Seq<DiagnosticView>,
    pub calls: Seq<(FunctionIndex, Span)>,
}

pub open spec fn scope_diagnostic(s: Scope, message: Seq<char>, span: Span, annotation: Seq<char>) -> DiagnosticView {
    span_diagnostic(s.file.path@, s.file.bytes(), message, span, annotation)
}

pub open spec fn type_named(s: Scope, name: Seq<char>) -> TypeIndex {
    s.table.type_symbols.get(name)->Some_0
}

/// The name of a type, or `unknown` for a handle outside the table.
pub open spec fn type_label(s: Scope, ty: TypeIndex) -> Seq<char> {
    if ty.0 < s.table.types@.len() { s.table.types@[ty.0 as int].name@ } else { "unknown"@ }
}

/// A name in the module, else an import, else a `core` function.
pub open spec fn local_function(s: Scope, name: Seq<char>) -> Option<FunctionIndex> {
    let own = if s.module_name.len() > 0 {
        s.table.function_symbols.get(qualified_name(s.module_name, name))
    } else {
        None
    };
    if own is Some {
        own
    } else if s.imports.contains_key(name) {
        Some(s.imports[name])
    } else {
        s.table.function_symbols.get(qualified_name("core"@, name))
    }
}

/// Segment names joined by `::`.
pub open spec fn joined_segments(segments: Seq<IdentView>) -> Seq<char>
    decreases segments.len(),
{
    if segments.len() == 0 {
        Seq::empty()
    } else if segments.len() == 1 {
        segments[0].name
    } else {
        joined_segments(segments.drop_last()) + "::"@ + segments.last().name
    }
}

/// From the start of the first segment to the end of the last one.
pub open spec fn segments_span(segments: Seq<IdentView>) -> Span {
    if segments.len() == 0 {
        Span { start: 0, end: 0 }
    } else {
        Span { start: segments[0].span.start, end: segments.last().span.end }
    }
}

/// The function a `module::name` path calls, with its qualified name, or the diagnostic.
pub open spec fn qualified_target(s: Scope, segments: Seq<IdentView>) -> (Option<(FunctionIndex, Seq<char>)>, Seq<DiagnosticView>) {
    let qualified = joined_segments(segments);
    let module = if segments.len() == 0 { Seq::empty() } else { joined_segments(segments.drop_last()) };
    let span = segments_span(segments);
    if s.table.module_symbols.get(module) is None {
        (None, seq![scope_diagnostic(s, "unknown module `"@ + module + "`"@, span, "unknown module"@)])
    } else {
        match s.table.function_symbols.get(qualified) {
            None => {
                let last = if segments.len() == 0 { Seq::empty() } else { segments.last().name };
                (None, seq![scope_diagnostic(s, "module `"@ + module + "` has no function `"@ + last + "`"@, span, "unknown function"@)])
            },
            Some(index) => (Some((index, qualified)), Seq::empty()),
        }
    }
}

/// The function a resolved callee names, with the name used in messages, or the diagnostic.
pub open spec fn call_target(s: Scope, callee: ExprView) -> (Option<(FunctionIndex, Seq<char>)>, Seq<DiagnosticView>) {
    match callee.kind {
        ExprKindView::Identifier(identifier) => if s.locals.contains_key(identifier.name) {
            (None, seq![scope_diagnostic(s, "`"@ + identifier.name + "` is a value, not a function"@, identifier.span, "callable function required"@)])
        } else {
            match local_function(s, identifier.name) {
                None => (None, seq![scope_diagnostic(s, "unknown function `"@ + identifier.name + "`"@, identifier.span, "unknown function"@)]),
                Some(index) => (Some((index, identifier.name)), Seq::empty()),
            }
        },
        ExprKindView::QualifiedIdentifier(segments) => qualified_target(s, segments),
        _ => (None, seq![scope_diagnostic(s, "only identifier calls are supported"@, callee.span, "callee must be an identifier"@)]),
    }
}

/// The message for a call with the wrong number of arguments.
pub open spec fn arity_message(name: Seq<char>, expected: nat) -> Seq<char> {
    if expected == 0 {
        "type error: `"@ + name + "` expects no arguments"@
    } else if expected == 1 {
        "type error: `"@ + name + "` expects exactly one argument"@
    } else if expected == 2 {
        "type error: `"@ + name + "` expects exactly two arguments"@
    } else {
        "type error: `"@ + name + "` expects exactly "@ + decimal_text(expected) + " arguments"@
    }
}

/// The message for argument `index` (from 0) of the wrong type.
pub open spec fn argument_type_message(s: Scope, name: Seq<char>, index: nat, expected: TypeIndex) -> Seq<char> {
    if index == 0 && name == "assert"@ && expected == type_named(s, "bool"@) {
        "type error: `assert` expects a bool argument"@
    } else {
        "type error: argument "@ + decimal_text(index + 1) + " to `"@ + name + "` must be "@ + type_label(s, expected)
    }
}

/// The diagnostics for the first `count` arguments whose known type differs from the
/// parameter type (parameters of type `any` take every type).
pub open spec fn argument_type_diagnostics(s: Scope, name: Seq<char>, arguments: Seq<ExprView>, expected: Seq<TypeIndex>, count: int) -> Seq<DiagnosticView>
    decreases count,
{
    if count <= 0 {
        Seq::empty()
    } else {
        let i = count - 1;
        let earlier = argument_type_diagnostics(s, name, arguments, expected, i);
        if i >= arguments.len() || i >= expected.len() || arguments[i].ty == TypeIndex(0)
            || expected[i] == type_named(s, "any"@) || arguments[i].ty == expected[i] {
            earlier
        } else {
            earlier.push(scope_diagnostic(s, argument_type_message(s, name, i as nat, expected[i]), arguments[i].span,
                "expected "@ + type_label(s, expected[i])))
        }
    }
}

/// Argument `i` has a known type that its own parameter's type rejects.
pub open spec fn argument_mismatch(s: Scope, arguments: Seq<ExprView>, expected: Seq<TypeIndex>, i: int) -> bool {
    &&& arguments[i].ty != TypeIndex(0)
    &&& expected[i] != type_named(s, "any"@)
    &&& arguments[i].ty != expected[i]
}

/// The diagnostic for argument `i` against the type of parameter `i`.
pub open spec fn argument_diagnostic(s: Scope, name: Seq<char>, arguments: Seq<ExprView>, expected: Seq<TypeIndex>, i: int) -> DiagnosticView {
    scope_diagnostic(s, argument_type_message(s, name, i as nat, expected[i]), arguments[i].span,
        "expected "@ + type_label(s, expected[i]))
}

/// Each argument is checked against its own parameter: the diagnostics for the first
/// `count` arguments are, in argument order, one for each argument whose known type
/// differs from the type of the parameter in the same position (a parameter of type
/// `any` takes every type), and nothing else. The returned positions are those
/// arguments.
pub proof fn law_arguments_checked_against_own_parameter(
    s: Scope,
    name: Seq<char>,
    arguments: Seq<ExprView>,
    expected: Seq<TypeIndex>,
    count: int,
) -> (positions: Seq<int>)
    requires
        0 <= count <= arguments.len(),
        count <= expected.len(),
    ensures
        ({
            let diagnostics = argument_type_diagnostics(s, name, arguments, expected, count);
            &&& diagnostics.len() == positions.len()
            &&& forall|k: int| 0 <= k < positions.len() ==> 0 <= #[trigger] positions[k] < count
                && argument_mismatch(s, arguments, expected, positions[k])
                && diagnostics[k] == argument_diagnostic(s, name, arguments, expected, positions[k])
            &&& forall|j: int, k: int| 0 <= j < k < positions.len() ==> #[trigger] positions[j] < #[trigger] positions[k]
            &&& forall|i: int| 0 <= i < count && #[trigger] argument_mismatch(s, arguments, expected, i)
                ==> positions.contains(i)
        }),
    decreases count,
{
    if count == 0 {
        return Seq::empty();
    }
    let i = count - 1;
    let earlier = law_arguments_checked_against_own_parameter(s, name, arguments, expected, i);
    if argument_mismatch(s, arguments, expected, i) {
        let positions = earlier.push(i);
        assert forall|m: int| 0 <= m < count && #[trigger] argument_mismatch(s, arguments, expected, m)
            implies positions.contains(m) by {
            if m < i {
                let k = choose|k: int| 0 <= k < earlier.len() && earlier[k] == m;
                assert(positions[k] == m);
            } else {
                assert(positions[positions.len() - 1] == m);
            }
        }
        positions
    } else {
        assert forall|m: int| 0 <= m < count && #[trigger] argument_mismatch(s, arguments, expected, m)
            implies earlier.contains(m) by {
            assert(m < i);
        }
        earlier
    }
}

/// Resolves expressions in order.
pub open spec fn resolve_expressions(s: Scope, expressions: Seq<ExprView>, count: int) -> ResolvedList
    decreases expressions, count,
{
    if count <= 0 || count > expressions.len() {
        ResolvedList { expressions: Seq::empty(), diagnostics: Seq::empty(), calls: Seq::empty() }
    } else {
        let earlier = resolve_expressions(s, expressions, count - 1);
        let last = resolve_expression(s, expressions[count - 1]);
        ResolvedList {
            expressions: earlier.expressions.push(last.expression),
            diagnostics: earlier.diagnostics + last.diagnostics,
            calls: earlier.calls + last.calls,
        }
    }
}

/// Resolves a call: its callee and arguments, then its target, arity and argument types.
pub open spec fn resolve_call(s: Scope, e: ExprView) -> Resolved
    decreases e, 0nat,
{
    match e.kind {
        ExprKindView::Call { callee, arguments, function_index } => {
            let callee_resolved = resolve_expression(s, *callee);
            let arguments_resolved = resolve_expressions(s, arguments, arguments.len() as int);
            let new_callee = callee_resolved.expression;
            let new_arguments = arguments_resolved.expressions;
            let diagnostics = callee_resolved.diagnostics + arguments_resolved.diagnostics;
            let calls = callee_resolved.calls + arguments_resolved.calls;
            let target = call_target(s, new_callee);
            let unresolved = ExprView {
                kind: ExprKindView::Call { callee: Box::new(new_callee), arguments: new_arguments, function_index },
                span: e.span,
                ty: TypeIndex(0),
            };
            let resolved_to = |index: FunctionIndex| ExprView {
                kind: ExprKindView::Call { callee: Box::new(new_callee), arguments: new_arguments, function_index: Some(index) },
                span: e.span,
                ty: TypeIndex(0),
            };
            match target.0 {
                None => Resolved { expression: unresolved, diagnostics: diagnostics + target.1, calls },
                Some((index, name)) => match s.table.definition_at(index) {
                    None => Resolved { expression: resolved_to(index), diagnostics, calls },
                    Some(definition) => {
                        let expected = definition.argument_types@.len();
                        let actual = new_arguments.len();
                        if expected != actual {
                            let span = if actual > expected { new_arguments[expected as int].span } else { new_callee.span };
                            let annotation = if actual < expected { "missing argument"@ } else { "extra argument"@ };
                            Resolved {
                                expression: unresolved,
                                diagnostics: diagnostics.push(scope_diagnostic(s, arity_message(name, expected), span, annotation)),
                                calls,
                            }
                        } else {
                            Resolved {
                                expression: resolved_to(index),
                                diagnostics: diagnostics + argument_type_diagnostics(s, name, new_arguments,
                                    definition.argument_types@, actual as int),
                                calls: calls.push((index, new_callee.span)),
                            }
                        }
                    },
                },
            }
        },
        _ => Resolved { expression: e, diagnostics: Seq::empty(), calls: Seq::empty() },
    }
}

/// Resolves an expression: calls are resolved, and every expression gets its type
/// (`bool` and `string` literals, local values, `not` of a `bool`; unresolved otherwise).
pub open spec fn resolve_expression(s: Scope, e: ExprView) -> Resolved
    decreases e, 1nat,
{
    let boolean = type_named(s, "bool"@);
    match e.kind {
        ExprKindView::BooleanLiteral(_) => Resolved { expression: ExprView { ty: boolean, ..e }, diagnostics: Seq::empty(), calls: Seq::empty() },
        ExprKindView::StringLiteral(_) => Resolved {
            expression: ExprView { ty: type_named(s, "string"@), ..e },
            diagnostics: Seq::empty(),
            calls: Seq::empty(),
        },
        ExprKindView::Identifier(identifier) => Resolved {
            expression: ExprView {
                ty: if s.locals.contains_key(identifier.name) { s.locals[identifier.name] } else { TypeIndex(0) },
                ..e
            },
            diagnostics: Seq::empty(),
            calls: Seq::empty(),
        },
        ExprKindView::QualifiedIdentifier(_) => Resolved { expression: ExprView { ty: TypeIndex(0), ..e }, diagnostics: Seq::empty(), calls: Seq::empty() },
        ExprKindView::Not(operand) => {
            let inner = resolve_expression(s, *operand);
            let operand_type = inner.expression.ty;
            let kind = ExprKindView::Not(Box::new(inner.expression));
            if operand_type == boolean {
                Resolved { expression: ExprView { kind, span: e.span, ty: boolean }, diagnostics: inner.diagnostics, calls: inner.calls }
            } else {
                Resolved {
                    expression: ExprView { kind, span: e.span, ty: TypeIndex(0) },
                    diagnostics: if operand_type != TypeIndex(0) {
                        inner.diagnostics.push(scope_diagnostic(s, "operator `not` expects a bool operand"@, inner.expression.span, "bool operand required"@))
                    } else {
                        inner.diagnostics
                    },
                    calls: inner.calls,
                }
            }
        },
        ExprKindView::Call { .. } => resolve_call(s, e),
    }
}

/// The effect metadata a body's calls give its function.
pub struct DependencyView {
    pub direct: Set<u32>,
    pub sources: Map<u32, Span>,
    pub callees: Map<u32, Span>,
}

pub open spec fn dependency_view(function: ResolvedFunction) -> DependencyView {
    DependencyView {
        direct: function.direct_effects@,
        sources: function.direct_effect_sources.as_map(),
        callees: function.called_functions.as_map(),
    }
}

/// `map` with `value` under every key of `keys` that has no entry yet.
pub open spec fn add_absent(map: Map<u32, Span>, keys: Set<u32>, value: Span) -> Map<u32, Span> {
    Map::new(|k: u32| map.contains_key(k) || keys.contains(k), |k: u32| if map.contains_key(k) { map[k] } else { value })
}

/// A call of a native function makes its effects direct effects of the caller, first
/// seen at the callee; a call of a user-defined function is recorded with the callee's
/// span, first call first.
pub open spec fn record_call(table: SymbolTable, d: DependencyView, call: (FunctionIndex, Span)) -> DependencyView {
    match table.definition_at(call.0) {
        None => d,
        Some(definition) => match definition.kind {
            FunctionKind::NativeFunction { .. } => DependencyView {
                direct: d.direct.union(definition.inferred_effects@),
                sources: add_absent(d.sources, definition.inferred_effects@, call.1),
                callees: d.callees,
            },
            FunctionKind::UserDefined { .. } => DependencyView {
                callees: if d.callees.contains_key(call.0.0) { d.callees } else { d.callees.insert(call.0.0, call.1) },
                ..d
            },
        },
    }
}

pub open spec fn record_calls(table: SymbolTable, d: DependencyView, calls: Seq<(FunctionIndex, Span)>) -> DependencyView
    decreases calls.len(),
{
    if calls.len() == 0 {
        d
    } else {
        record_call(table, record_calls(table, d, calls.drop_last()), calls.last())
    }
}

/// `after` is `before` with only its effect metadata changed, as `calls` record it.
pub open spec fn records(table: SymbolTable, before: Option<ResolvedFunction>, after: Option<ResolvedFunction>, calls: Seq<(FunctionIndex, Span)>) -> bool {
    match before {
        None => after is None,
        Some(b) => after matches Some(a) && dependency_view(a) == record_calls(table, dependency_view(b), calls)
            && a.function_index == b.function_index && a.function == b.function && a.inferred_effects == b.inferred_effects,
    }
}

proof fn lemma_record_calls_append(table: SymbolTable, d: DependencyView, first: Seq<(FunctionIndex, Span)>, second: Seq<(FunctionIndex, Span)>)
    ensures
        record_calls(table, d, first + second) == record_calls(table, record_calls(table, d, first), second),
    decreases second.len(),
{
    if second.len() == 0 {
        assert(first + second =~= first);
    } else {
        lemma_record_calls_append(table, d, first, second.drop_last());
        assert((first + second).drop_last() =~= first + second.drop_last());
    }
}

proof fn lemma_records_transitive(
    table: SymbolTable,
    a: Option<ResolvedFunction>,
    b: Option<ResolvedFunction>,
    c: Option<ResolvedFunction>,
    first: Seq<(FunctionIndex, Span)>,
    second: Seq<(FunctionIndex, Span)>,
)
    requires
        records(table, a, b, first),
        records(table, b, c, second),
    ensures
        records(table, a, c, first + second),
{
    if let Some(x) = a {
        lemma_record_calls_append(table, dependency_view(x), first, second);
    }
}

/// Resolves names in bodies of one module: it annotates expressions with types, binds
/// calls to functions, reports what it cannot resolve, and records the effect
/// metadata of the function whose body it resolves, if any.
pub struct Resolver<'a> {
    source_file: &'a SourceFile,
    module_name: &'a str,
    symbol_table: &'a SymbolTable,
    module_environment: &'a ModuleEnvironment,
    resolved_function: Option<ResolvedFunction>,
    local_value_types: NameTable<TypeIndex>,
}

impl<'a> Resolver<'a> {
    pub closed spec fn scope(&self) -> Scope {
        Scope {
            table: *self.symbol_table,
            file: *self.source_file,
            module_name: self.module_name@,
            imports: self.module_environment.imports(),
            locals: self.local_value_types.map(),
        }
    }

    /// The function whose body is being resolved, with the metadata recorded so far.
    pub closed spec fn current_function(&self) -> Option<ResolvedFunction> {
        self.resolved_function
    }

    /// What resolution needs of its inputs: primitive types in the table and a file
    /// measured in `usize` offsets.
    pub open spec fn ready(&self) -> bool {
        &&& self.scope().table.primitive_types_seeded()
        &&& addressable(self.scope().file)
    }

    /// Creates a resolver with no local values.
    pub fn new(
        source_file: &'a SourceFile,
        module_name: &'a str,
        symbol_table: &'a SymbolTable,
        module_environment: &'a ModuleEnvironment,
        resolved_function: Option<ResolvedFunction>,
    ) -> (resolver: Resolver<'a>)
        ensures
            resolver.scope() == (Scope {
                table: *symbol_table,
                file: *source_file,
                module_name: module_name@,
                imports: module_environment.imports(),
                locals: Map::empty(),
            }),
            resolver.current_function() == resolved_function,
    {
        let resolver = Resolver {
            source_file,
            module_name,
            symbol_table,
            module_environment,
            resolved_function,
            local_value_types: NameTable::new(),
        };
        assert(resolver.local_value_types.map() =~= Map::<Seq<char>, TypeIndex>::empty());
        resolver
    }

    /// Hands back the function whose body was resolved.
    pub fn into_resolved_function(self) -> (function: Option<ResolvedFunction>)
        ensures
            function == self.current_function(),
    {
        self.resolved_function
    }

    fn add_diagnostic(&self, compilation_context: &mut CompilationContext, message: String, span: Span, annotation: String)
        requires
            self.ready(),
        ensures
            final(compilation_context)@ == old(compilation_context)@.push(scope_diagnostic(self.scope(), message@, span, annotation@)),
    {
        let diagnostic = source_diagnostic_for_span(self.source_file, message, span, annotation);
        compilation_context.add_diagnostic(diagnostic);
    }

    fn type_label(&self, ty: TypeIndex) -> (label: String)
        ensures
            label@ == type_label(self.scope(), ty),
    {
        match self.symbol_table.type_definition(ty) {
            Ok(definition) => definition.name.clone(),
            Err(_) => String::from_str("unknown"),
        }
    }

    /// Records a call in the current function's effect metadata.
    fn record_effect_dependency(&mut self, called_function_index: FunctionIndex, span: Span)
        ensures
            final(self).scope() == old(self).scope(),
            records(old(self).scope().table, old(self).current_function(), final(self).current_function(), seq![(called_function_index, span)]),
    {
        let ghost table = *self.symbol_table;
        let mut current = match self.resolved_function.take() {
            Some(current) => current,
            None => {
                return;
            },
        };
        let ghost before = current;
        proof {
            assert(seq![(called_function_index, span)].drop_last() =~= Seq::<(FunctionIndex, Span)>::empty());
        }
        match self.symbol_table.function_definition(called_function_index) {
            Ok(called) => match &called.kind {
                FunctionKind::NativeFunction { .. } => {
                    let count = called.inferred_effects.len();
                    let ghost effects = called.inferred_effects.elements();
                    let mut index: usize = 0;
                    while index < count
                        invariant
                            index <= count,
                            count == effects.len(),
                            effects == called.inferred_effects.elements(),
                            current.direct_effects@ == before.direct_effects@.union(effects.subrange(0, index as int).to_set()),
                            current.direct_effect_sources.as_map() == add_absent(before.direct_effect_sources.as_map(),
                                effects.subrange(0, index as int).to_set(), span),
                            current.called_functions == before.called_functions,
                            current.function_index == before.function_index,
                            current.function == before.function,
                            current.inferred_effects == before.inferred_effects,
                        decreases count - index,
                    {
                        let effect = called.inferred_effects.get(index);
                        current.direct_effects.insert(effect);
                        let ghost sources_before = current.direct_effect_sources;
                        current.direct_effect_sources.insert_if_absent(effect, span);
                        proof {
                            let prev = effects.subrange(0, index as int).to_set();
                            assert forall|k: u32| #![auto] current.direct_effect_sources.as_map().contains_key(k)
                                == add_absent(before.direct_effect_sources.as_map(), prev.insert(effect), span).contains_key(k) by {
                                assert(sources_before.as_map().contains_key(k) == add_absent(before.direct_effect_sources.as_map(), prev, span).contains_key(k));
                            }
                            assert forall|k: u32| #![auto] current.direct_effect_sources.as_map().contains_key(k)
                                implies current.direct_effect_sources.as_map()[k]
                                == add_absent(before.direct_effect_sources.as_map(), prev.insert(effect), span)[k] by {
                                assert(sources_before.as_map().contains_key(k) ==> sources_before.as_map()[k]
                                    == add_absent(before.direct_effect_sources.as_map(), prev, span)[k]);
                                assert(sources_before.as_map().contains_key(k) == add_absent(before.direct_effect_sources.as_map(), prev, span).contains_key(k));
                            }
                            assert(current.direct_effect_sources.as_map() =~= add_absent(before.direct_effect_sources.as_map(), prev.insert(effect), span));
                            let next = effects.subrange(0, index + 1).to_set();
                            assert(next =~= effects.subrange(0, index as int).to_set().insert(effect)) by {
                                assert forall|x: u32| next.contains(x) <==> effects.subrange(0, index as int).to_set().contains(x) || x == effect by {
                                    let s = effects.subrange(0, index + 1);
                                    let t = effects.subrange(0, index as int);
                                    if s.contains(x) {
                                        let k = choose|k: int| 0 <= k < s.len() && s[k] == x;
                                        if k < index {
                                            assert(t[k] == x);
                                        }
                                    }
                                    if t.contains(x) {
                                        let k = choose|k: int| 0 <= k < t.len() && t[k] == x;
                                        assert(s[k] == x);
                                    }
                                    if x == effect {
                                        assert(s[index as int] == effect);
                                    }
                                }
                            }
                            assert(current.direct_effects@ =~= before.direct_effects@.union(next));
                            assert(current.direct_effect_sources.as_map() =~= add_absent(before.direct_effect_sources.as_map(), next, span));
                        }
                        index = index + 1;
                    }
                    assert(effects.subrange(0, index as int) =~= effects);
                    assert(current.called_functions.as_map() =~= before.called_functions.as_map());
                    assert(effects.to_set() =~= called.inferred_effects@);
                    assert(dependency_view(current) == record_call(table, dependency_view(before), (called_function_index, span)));
                },
                FunctionKind::UserDefined { .. } => {
                    current.called_functions.insert_if_absent(called_function_index.0, span);
                    assert(current.called_functions.as_map() =~= record_call(table, dependency_view(before),
                        (called_function_index, span)).callees);
                    assert(dependency_view(current) == record_call(table, dependency_view(before), (called_function_index, span)));
                },
            },
            Err(_) => {
                assert(dependency_view(current) == record_call(table, dependency_view(before), (called_function_index, span)));
            },
        }
        proof {
            let call = (called_function_index, span);
            assert(seq![call].last() == call);
            assert(seq![call].drop_last() =~= Seq::<(FunctionIndex, Span)>::empty());
            assert(record_calls(table, dependency_view(before), Seq::<(FunctionIndex, Span)>::empty()) == dependency_view(before));
            assert(record_calls(table, dependency_view(before), seq![call]) == record_call(table, dependency_view(before), call));
        }
        self.resolved_function = Some(current);
    }
}

pub proof fn lemma_joined_segments(segments: Seq<Identifier>)
    ensures
        joined_names(segments) == joined_segments(ident_views(segments)),
        segments.len() > 0 ==> ident_views(segments).drop_last() == ident_views(segments.drop_last()),
    decreases segments.len(),
{
    if segments.len() > 0 {
        lemma_joined_segments(segments.drop_last());
        assert(ident_views(segments).drop_last() =~= ident_views(segments.drop_last()));
    }
}

fn arity_message_text(name: &str, expected: usize) -> (message: String)
    ensures
        message@ == arity_message(name@, expected as nat),
{
    if expected == 0 {
        return concat3("type error: `", name, "` expects no arguments");
    }
    if expected == 1 {
        return concat3("type error: `", name, "` expects exactly one argument");
    }
    if expected == 2 {
        return concat3("type error: `", name, "` expects exactly two arguments");
    }
    let count = decimal_string(expected);
    concat5("type error: `", name, "` expects exactly ", count.as_str(), " arguments")
}

impl<'a> Resolver<'a> {
    fn argument_type_message_text(&self, name: &str, index: usize, expected: TypeIndex) -> (message: String)
        requires
            self.ready(),
            index < usize::MAX,
        ensures
            message@ == argument_type_message(self.scope(), name@, index as nat, expected),
    {
        proof {
            reveal_strlit("assert");
        }
        if index == 0 && same_text(name, "assert") && expected == self.symbol_table.boolean_type_index() {
            return String::from_str("type error: `assert` expects a bool argument");
        }
        let position = decimal_string(index + 1);
        let label = self.type_label(expected);
        let mut message = concat3("type error: argument ", position.as_str(), " to `");
        message.append(name);
        message.append("` must be ");
        message.append(label.as_str());
        message
    }

    fn validate_call_argument_types(&self, compilation_context: &mut CompilationContext, name: &str, arguments: &Vec<Expression>, expected: &Vec<TypeIndex>)
        requires
            self.ready(),
            arguments@.len() == expected@.len(),
        ensures
            final(compilation_context)@ == old(compilation_context)@ + argument_type_diagnostics(self.scope(), name@,
                expr_views(arguments@), expected@, arguments@.len() as int),
    {
        let ghost s = self.scope();
        let ghost views = expr_views(arguments@);
        proof {
            crate::parser::parse::lemma_expr_views(arguments@);
        }
        let any = self.symbol_table.any_type_index();
        let mut index: usize = 0;
        assert(old(compilation_context)@ + Seq::<DiagnosticView>::empty() =~= old(compilation_context)@);
        while index < arguments.len()
            invariant
                s == self.scope(),
                self.ready(),
                index <= arguments@.len(),
                arguments@.len() == expected@.len(),
                views == expr_views(arguments@),
                views.len() == arguments@.len(),
                forall|i: int| 0 <= i < arguments@.len() ==> #[trigger] views[i] == expr_view(arguments@[i]),
                Some(any) == s.table.type_symbols.get("any"@),
                compilation_context@ == old(compilation_context)@ + argument_type_diagnostics(s, name@, views, expected@, index as int),
            decreases arguments@.len() - index,
        {
            let argument = &arguments[index];
            let expected_type = expected[index];
            assert(views[index as int].ty == argument.ty && views[index as int].span == argument.span);
            if !(argument.ty.is_unresolved() || expected_type == any || argument.ty == expected_type) {
                let message = self.argument_type_message_text(name, index, expected_type);
                let label = self.type_label(expected_type);
                let annotation = crate::text::concat2("expected ", label.as_str());
                self.add_diagnostic(compilation_context, message, argument.span, annotation);
                assert(annotation@ =~= "expected "@ + type_label(s, expected_type));
            }
            index = index + 1;
            assert(compilation_context@ =~= old(compilation_context)@ + argument_type_diagnostics(s, name@, views, expected@, index as int));
        }
    }

    fn resolve_local_function(&self, name: &str) -> (function_index: Option<FunctionIndex>)
        ensures
            function_index == local_function(self.scope(), name@),
    {
        if self.module_name.unicode_len() > 0 {
            let qualified = self.symbol_table.qualify_function_name(self.module_name, name);
            match self.symbol_table.resolve_function_exact(qualified.as_str()) {
                Some(function_index) => {
                    return Some(function_index);
                },
                None => {},
            }
        }
        match self.module_environment.resolve_imported_function(name) {
            Some(function_index) => {
                return Some(function_index);
            },
            None => {},
        }
        let core_name = self.symbol_table.qualify_function_name("core", name);
        self.symbol_table.resolve_function_exact(core_name.as_str())
    }

    fn resolve_qualified_call(&self, compilation_context: &mut CompilationContext, path: &QualifiedIdentifier) -> (target: Option<(FunctionIndex, String)>)
        requires
            self.ready(),
        ensures
            ({
                let t = qualified_target(self.scope(), ident_views(path.segments@));
                &&& final(compilation_context)@ == old(compilation_context)@ + t.1
                &&& target is None <==> t.0 is None
                &&& target matches Some((i, n)) ==> t.0 == Some((i, n@))
            }),
    {
        proof {
            lemma_joined_segments(path.segments@);
            if path.segments@.len() > 0 {
                lemma_joined_segments(path.segments@.drop_last());
                assert(ident_views(path.segments@).last() == ident_views(path.segments@)[path.segments@.len() - 1]);
            }
        }
        let qualified = path.render();
        let module = path.render_imported_module();
        let span = path.span();
        if !self.symbol_table.has_module(module.as_str()) {
            let message = concat3("unknown module `", module.as_str(), "`");
            self.add_diagnostic(compilation_context, message, span, String::from_str("unknown module"));
            return None;
        }
        match self.symbol_table.resolve_function_exact(qualified.as_str()) {
            Some(function_index) => {
                assert(old(compilation_context)@ + Seq::<DiagnosticView>::empty() =~= old(compilation_context)@);
                Some((function_index, qualified))
            },
            None => {
                let last = match path.last() {
                    Some(segment) => segment.name.clone(),
                    None => String::new(),
                };
                let message = concat5("module `", module.as_str(), "` has no function `", last.as_str(), "`");
                self.add_diagnostic(compilation_context, message, span, String::from_str("unknown function"));
                None
            },
        }
    }

    fn call_target(&self, compilation_context: &mut CompilationContext, callee: &Expression) -> (target: Option<(FunctionIndex, String)>)
        requires
            self.ready(),
        ensures
            ({
                let t = call_target(self.scope(), expr_view(*callee));
                &&& final(compilation_context)@ == old(compilation_context)@ + t.1
                &&& target is None <==> t.0 is None
                &&& target matches Some((i, n)) ==> t.0 == Some((i, n@))
            }),
    {
        match &callee.kind {
            ExpressionKind::Identifier(identifier) => {
                if self.local_value_types.contains_key(identifier.name.as_str()) {
                    let message = concat3("`", identifier.name.as_str(), "` is a value, not a function");
                    self.add_diagnostic(compilation_context, message, identifier.span, String::from_str("callable function required"));
                    return None;
                }
                match self.resolve_local_function(identifier.name.as_str()) {
                    Some(function_index) => {
                        assert(old(compilation_context)@ + Seq::<DiagnosticView>::empty() =~= old(compilation_context)@);
                        Some((function_index, identifier.name.clone()))
                    },
                    None => {
                        let message = concat3("unknown function `", identifier.name.as_str(), "`");
                        self.add_diagnostic(compilation_context, message, identifier.span, String::from_str("unknown function"));
                        None
                    },
                }
            },
            ExpressionKind::QualifiedIdentifier(path) => self.resolve_qualified_call(compilation_context, path),
            _ => {
                self.add_diagnostic(compilation_context, String::from_str("only identifier calls are supported"), callee.span,
                    String::from_str("callee must be an identifier"));
                None
            },
        }
    }
}

impl<'a> Resolver<'a> {
    /// Resolves an expression: see [`resolve_expression`](fn@resolve_expression).
    pub fn resolve_expression(&mut self, compilation_context: &mut CompilationContext, expression: Expression) -> (resolved: Expression)
        requires
            old(self).ready(),
        ensures
            final(self).scope() == old(self).scope(),
            ({
                let r = resolve_expression(old(self).scope(), expr_view(expression));
                &&& expr_view(resolved) == r.expression
                &&& final(compilation_context)@ == old(compilation_context)@ + r.diagnostics
                &&& records(old(self).scope().table, old(self).current_function(), final(self).current_function(), r.calls)
            }),
        decreases expression, 2nat,
    {
        proof {
            assert(old(compilation_context)@ + Seq::<DiagnosticView>::empty() =~= old(compilation_context)@);
            assert(Seq::<(FunctionIndex, Span)>::empty().len() == 0);
        }
        if let ExpressionKind::Call(_) = &expression.kind {
            return self.resolve_call(compilation_context, expression);
        }
        let Expression { kind, span, ty } = expression;
        match kind {
            ExpressionKind::BooleanLiteral(literal) => {
                let ty = self.symbol_table.boolean_type_index();
                Expression { kind: ExpressionKind::BooleanLiteral(literal), span, ty }
            },
            ExpressionKind::StringLiteral(literal) => {
                let ty = self.symbol_table.string_type_index();
                Expression { kind: ExpressionKind::StringLiteral(literal), span, ty }
            },
            ExpressionKind::Identifier(identifier) => {
                let ty = match self.local_value_types.get_value(identifier.name.as_str()) {
                    Some(ty) => ty,
                    None => TypeIndex::unresolved(),
                };
                Expression { kind: ExpressionKind::Identifier(identifier), span, ty }
            },
            ExpressionKind::QualifiedIdentifier(path) => {
                Expression { kind: ExpressionKind::QualifiedIdentifier(path), span, ty: TypeIndex::unresolved() }
            },
            ExpressionKind::Not(not) => {
                let operand = self.resolve_expression(compilation_context, *not.operand);
                let boolean = self.symbol_table.boolean_type_index();
                if operand.ty == boolean {
                    return Expression { kind: ExpressionKind::Not(NotExpression::new(operand)), span, ty: boolean };
                }
                if !operand.ty.is_unresolved() {
                    self.add_diagnostic(compilation_context, String::from_str("operator `not` expects a bool operand"), operand.span,
                        String::from_str("bool operand required"));
                }
                Expression { kind: ExpressionKind::Not(NotExpression::new(operand)), span, ty: TypeIndex::unresolved() }
            },
            ExpressionKind::Call(call) => {
                Expression { kind: ExpressionKind::Call(call), span, ty }
            },
        }
    }

    fn resolve_arguments(
        &mut self,
        compilation_context: &mut CompilationContext,
        arguments: Vec<Expression>,
        Ghost(whole): Ghost<Expression>,
    ) -> (resolved: Vec<Expression>)
        requires
            old(self).ready(),
            whole.kind is Call,
            arguments@ == whole.kind->Call_0.arguments@,
        ensures
            final(self).scope() == old(self).scope(),
            ({
                let r = resolve_expressions(old(self).scope(), expr_views(arguments@), arguments@.len() as int);
                &&& expr_views(resolved@) == r.expressions
                &&& final(compilation_context)@ == old(compilation_context)@ + r.diagnostics
                &&& records(old(self).scope().table, old(self).current_function(), final(self).current_function(), r.calls)
            }),
        decreases whole, 0nat,
    {
        let ghost s = self.scope();
        let ghost original = arguments@;
        let ghost views = expr_views(original);
        proof {
            crate::parser::parse::lemma_expr_views(original);
        }
        let ghost start = self.current_function();
        let mut remaining = arguments;
        let total = remaining.len();
        let mut resolved: Vec<Expression> = Vec::new();
        let mut index: usize = 0;
        proof {
            assert(expr_views(resolved@) =~= Seq::<ExprView>::empty());
            assert(old(compilation_context)@ + Seq::<DiagnosticView>::empty() =~= old(compilation_context)@);
            assert(record_calls(s.table, dependency_view(start->Some_0), Seq::<(FunctionIndex, Span)>::empty())
                == dependency_view(start->Some_0));
        }
        while remaining.len() > 0
            invariant
                s == self.scope(),
                self.ready(),
                whole.kind is Call,
                original == whole.kind->Call_0.arguments@,
                views == expr_views(original),
                views.len() == original.len(),
                total == original.len(),
                forall|i: int| 0 <= i < original.len() ==> #[trigger] views[i] == expr_view(original[i]),
                index <= original.len(),
                remaining@ == original.subrange(index as int, original.len() as int),
                expr_views(resolved@) == resolve_expressions(s, views, index as int).expressions,
                compilation_context@ == old(compilation_context)@ + resolve_expressions(s, views, index as int).diagnostics,
                records(s.table, start, self.current_function(), resolve_expressions(s, views, index as int).calls),
            decreases remaining@.len(),
        {
            let argument = remaining.remove(0);
            proof {
                assert(argument == original[index as int]);
                let kind = whole.kind;
                assert(decreases_to!(whole => kind));
                assert(decreases_to!(kind => kind->Call_0));
                assert(decreases_to!(kind->Call_0 => kind->Call_0.arguments));
                assert(decreases_to!(kind->Call_0.arguments => kind->Call_0.arguments@));
                assert(decreases_to!(kind->Call_0.arguments@ => kind->Call_0.arguments@[index as int]));
            }
            let ghost middle = self.current_function();
            let next = self.resolve_expression(compilation_context, argument);
            let ghost before_push = resolved@;
            resolved.push(next);
            proof {
                let earlier = resolve_expressions(s, views, index as int);
                let last = resolve_expression(s, views[index as int]);
                lemma_records_transitive(s.table, start, middle, self.current_function(), earlier.calls, last.calls);
                crate::parser::parse::lemma_expr_views(before_push);
                crate::parser::parse::lemma_expr_views(resolved@);
                assert(expr_views(resolved@) =~= earlier.expressions.push(last.expression));
                assert(compilation_context@ =~= old(compilation_context)@ + (earlier.diagnostics + last.diagnostics));
                assert(remaining@ =~= original.subrange(index + 1, original.len() as int));
            }
            index = index + 1;
        }
        resolved
    }

    fn resolve_call(&mut self, compilation_context: &mut CompilationContext, expression: Expression) -> (resolved: Expression)
        requires
            old(self).ready(),
            expression.kind is Call,
        ensures
            final(self).scope() == old(self).scope(),
            ({
                let r = resolve_call(old(self).scope(), expr_view(expression));
                &&& expr_view(resolved) == r.expression
                &&& final(compilation_context)@ == old(compilation_context)@ + r.diagnostics
                &&& records(old(self).scope().table, old(self).current_function(), final(self).current_function(), r.calls)
            }),
        decreases expression, 1nat,
    {
        let ghost whole = expression;
        let ghost s = self.scope();
        let ghost start = self.current_function();
        let Expression { kind, span, ty } = expression;
        let call = match kind {
            ExpressionKind::Call(call) => call,
            other => {
                return Expression { kind: other, span, ty };
            },
        };
        let CallExpression { callee, arguments, function_index } = call;
        proof {
            crate::parser::parse::lemma_expr_views(arguments@);
            let kind = whole.kind;
            assert(decreases_to!(whole => kind));
            assert(decreases_to!(kind => kind->Call_0));
            assert(decreases_to!(kind->Call_0 => kind->Call_0.callee));
        }
        let new_callee = self.resolve_expression(compilation_context, *callee);
        let ghost after_callee = self.current_function();
        let ghost context_after_callee = compilation_context@;
        let new_arguments = self.resolve_arguments(compilation_context, arguments, Ghost(whole));
        let ghost after_arguments = self.current_function();
        let ghost callee_resolved = resolve_expression(s, expr_view(*callee));
        let ghost arguments_resolved = resolve_expressions(s, expr_views(arguments@), arguments@.len() as int);
        proof {
            lemma_records_transitive(s.table, start, after_callee, after_arguments, callee_resolved.calls, arguments_resolved.calls);
            assert(compilation_context@ =~= old(compilation_context)@ + (callee_resolved.diagnostics + arguments_resolved.diagnostics));
        }
        let ghost before_target = compilation_context@;
        let target = self.call_target(compilation_context, &new_callee);
        let (function_index_found, name) = match target {
            None => {
                proof {
                    assert(compilation_context@ =~= old(compilation_context)@ + (callee_resolved.diagnostics
                        + arguments_resolved.diagnostics + call_target(s, expr_view(new_callee)).1));
                }
                return Expression {
                    kind: ExpressionKind::Call(CallExpression { callee: Box::new(new_callee), arguments: new_arguments, function_index }),
                    span,
                    ty: TypeIndex::unresolved(),
                };
            },
            Some(found) => found,
        };
        proof {
            assert(compilation_context@ =~= old(compilation_context)@ + (callee_resolved.diagnostics + arguments_resolved.diagnostics));
        }
        let definition = match self.symbol_table.function_definition(function_index_found) {
            Ok(definition) => definition,
            Err(_) => {
                return Expression {
                    kind: ExpressionKind::Call(CallExpression {
                        callee: Box::new(new_callee),
                        arguments: new_arguments,
                        function_index: Some(function_index_found),
                    }),
                    span,
                    ty: TypeIndex::unresolved(),
                };
            },
        };
        proof {
            crate::parser::parse::lemma_expr_views(new_arguments@);
        }
        let expected = definition.argument_types.len();
        let actual = new_arguments.len();
        if expected != actual {
            let arity_span = if actual > expected { new_arguments[expected].span } else { new_callee.span };
            let annotation = if actual < expected { String::from_str("missing argument") } else { String::from_str("extra argument") };
            let message = arity_message_text(name.as_str(), expected);
            self.add_diagnostic(compilation_context, message, arity_span, annotation);
            return Expression {
                kind: ExpressionKind::Call(CallExpression { callee: Box::new(new_callee), arguments: new_arguments, function_index }),
                span,
                ty: TypeIndex::unresolved(),
            };
        }
        let callee_span = new_callee.span;
        let ghost before_record = self.current_function();
        self.record_effect_dependency(function_index_found, callee_span);
        proof {
            lemma_records_transitive(s.table, start, before_record, self.current_function(),
                callee_resolved.calls + arguments_resolved.calls, seq![(function_index_found, callee_span)]);
            assert(callee_resolved.calls + arguments_resolved.calls + seq![(function_index_found, callee_span)]
                =~= (callee_resolved.calls + arguments_resolved.calls).push((function_index_found, callee_span)));
        }
        let ghost before_types = compilation_context@;
        self.validate_call_argument_types(compilation_context, name.as_str(), &new_arguments, &definition.argument_types);
        proof {
            assert(compilation_context@ =~= old(compilation_context)@ + (callee_resolved.diagnostics + arguments_resolved.diagnostics
                + argument_type_diagnostics(s, name@, expr_views(new_arguments@), definition.argument_types@, actual as int)));
        }
        Expression {
            kind: ExpressionKind::Call(CallExpression {
                callee: Box::new(new_callee),
                arguments: new_arguments,
                function_index: Some(function_index_found),
            }),
            span,
            ty: TypeIndex::unresolved(),
        }
    }
}

/// The outcome of resolving statements in order.
pub struct ResolvedStatements {
    pub statements: Seq<StmtView>,
    pub diagnostics: Seq<DiagnosticView>,
    pub calls: Seq<(FunctionIndex, Span)>,
}

/// Resolves the expressions of the first `count` statements in order.
pub open spec fn resolve_statements(s: Scope, statements: Seq<StmtView>, count: int) -> ResolvedStatements
    decreases count,
{
    if count <= 0 || count > statements.len() {
        ResolvedStatements { statements: Seq::empty(), diagnostics: Seq::empty(), calls: Seq::empty() }
    } else {
        let earlier = resolve_statements(s, statements, count - 1);
        let statement = statements[count - 1];
        let last = resolve_expression(s, statement.expression);
        ResolvedStatements {
            statements: earlier.statements.push(StmtView { expression: last.expression, ..statement }),
            diagnostics: earlier.diagnostics + last.diagnostics,
            calls: earlier.calls + last.calls,
        }
    }
}

/// The types of a function's parameters by name (a later parameter of the same name wins).
pub open spec fn parameter_types(parameters: Seq<crate::ast::FunctionParameter>) -> Map<Seq<char>, TypeIndex>
    decreases parameters.len(),
{
    if parameters.len() == 0 {
        Map::empty()
    } else {
        parameter_types(parameters.drop_last()).insert(parameters.last().identifier.name@, parameters.last().ty)
    }
}

impl<'a> Resolver<'a> {
    fn resolve_statement(&mut self, compilation_context: &mut CompilationContext, statement: Statement) -> (resolved: Statement)
        requires
            old(self).ready(),
        ensures
            final(self).scope() == old(self).scope(),
            ({
                let r = resolve_expression(old(self).scope(), stmt_view(statement).expression);
                &&& stmt_view(resolved) == (StmtView { expression: r.expression, ..stmt_view(statement) })
                &&& resolved.trivia == statement.trivia
                &&& final(compilation_context)@ == old(compilation_context)@ + r.diagnostics
                &&& records(old(self).scope().table, old(self).current_function(), final(self).current_function(), r.calls)
            }),
    {
        let Statement { kind, span, trivia } = statement;
        match kind {
            StatementKind::Expression(e) => {
                let expression = self.resolve_expression(compilation_context, e.expression);
                Statement { kind: StatementKind::Expression(ExpressionStatement::new(expression)), span, trivia }
            },
        }
    }

    /// Resolves statements in order.
    fn resolve_statements(&mut self, compilation_context: &mut CompilationContext, statements: Vec<Statement>) -> (resolved: Vec<Statement>)
        requires
            old(self).ready(),
        ensures
            final(self).scope() == old(self).scope(),
            ({
                let r = resolve_statements(old(self).scope(), stmt_views(statements@), statements@.len() as int);
                &&& stmt_views(resolved@) == r.statements
                &&& statement_comments(resolved@) == statement_comments(statements@)
                &&& final(compilation_context)@ == old(compilation_context)@ + r.diagnostics
                &&& records(old(self).scope().table, old(self).current_function(), final(self).current_function(), r.calls)
            }),
    {
        let ghost s = self.scope();
        let ghost original = statements@;
        let ghost views = stmt_views(original);
        let ghost start = self.current_function();
        let mut remaining = statements;
        let total = remaining.len();
        let mut resolved: Vec<Statement> = Vec::new();
        let mut index: usize = 0;
        proof {
            assert(stmt_views(resolved@) =~= Seq::<StmtView>::empty());
            assert(old(compilation_context)@ + Seq::<DiagnosticView>::empty() =~= old(compilation_context)@);
            if let Some(f) = start {
                assert(record_calls(s.table, dependency_view(f), Seq::<(FunctionIndex, Span)>::empty()) == dependency_view(f));
            }
        }
        while remaining.len() > 0
            invariant
                s == self.scope(),
                self.ready(),
                views == stmt_views(original),
                total == original.len(),
                index <= original.len(),
                remaining@ == original.subrange(index as int, original.len() as int),
                stmt_views(resolved@) == resolve_statements(s, views, index as int).statements,
                statement_comments(resolved@) == statement_comments(original.take(index as int)),
                compilation_context@ == old(compilation_context)@ + resolve_statements(s, views, index as int).diagnostics,
                records(s.table, start, self.current_function(), resolve_statements(s, views, index as int).calls),
            decreases remaining@.len(),
        {
            let statement = remaining.remove(0);
            assert(statement == original[index as int]);
            let ghost middle = self.current_function();
            let next = self.resolve_statement(compilation_context, statement);
            let ghost before_push = resolved@;
            resolved.push(next);
            proof {
                let earlier = resolve_statements(s, views, index as int);
                let last = resolve_expression(s, views[index as int].expression);
                lemma_records_transitive(s.table, start, middle, self.current_function(), earlier.calls, last.calls);
                assert(stmt_views(resolved@) =~= earlier.statements.push(StmtView { expression: last.expression, ..views[index as int] }));
                assert(original.take(index + 1) =~= original.take(index as int).push(original[index as int]));
                assert(resolved@ =~= before_push.push(next));
                assert(statement_comments(resolved@) =~= statement_comments(before_push).push(trivia_view(next.trivia)));
                assert(statement_comments(original.take(index + 1))
                    =~= statement_comments(original.take(index as int)).push(trivia_view(original[index as int].trivia)));
                assert(compilation_context@ =~= old(compilation_context)@ + (earlier.diagnostics + last.diagnostics));
                assert(remaining@ =~= original.subrange(index + 1, original.len() as int));
            }
            index = index + 1;
        }
        assert(original.take(index as int) =~= original);
        resolved
    }

    /// Resolves a function body with the parameters as local values.
    pub fn resolve_function_item(&mut self, compilation_context: &mut CompilationContext, function: FunctionItem) -> (resolved: FunctionItem)
        requires
            old(self).ready(),
        ensures
            final(self).scope() == (Scope { locals: Map::empty(), ..old(self).scope() }),
            ({
                let s = Scope { locals: parameter_types(function.parameters@), ..old(self).scope() };
                let r = resolve_statements(s, stmt_views(function.body@), function.body@.len() as int);
                &&& stmt_views(resolved.body@) == r.statements
                &&& statement_comments(resolved.body@) == statement_comments(function.body@)
                &&& resolved.identifier == function.identifier
                &&& resolved.parameters@ == function.parameters@
                &&& resolved.can_clause == function.can_clause
                &&& resolved.cannot_clause == function.cannot_clause
                &&& resolved.span == function.span
                &&& resolved.is_native == function.is_native
                &&& final(compilation_context)@ == old(compilation_context)@ + r.diagnostics
                &&& records(old(self).scope().table, old(self).current_function(), final(self).current_function(), r.calls)
            }),
    {
        let FunctionItem { identifier, parameters, can_clause, cannot_clause, body, span, is_native } = function;
        self.local_value_types = NameTable::new();
        let mut index: usize = 0;
        while index < parameters.len()
            invariant
                index <= parameters@.len(),
                self.local_value_types.map() == parameter_types(parameters@.subrange(0, index as int)),
                self.scope() == (Scope { locals: self.local_value_types.map(), ..old(self).scope() }),
                self.current_function() == old(self).current_function(),
                self.ready() == old(self).ready(),
            decreases parameters@.len() - index,
        {
            self.local_value_types.insert(parameters[index].identifier.name.clone(), parameters[index].ty);
            index = index + 1;
            proof {
                assert(parameters@.subrange(0, index as int).drop_last() =~= parameters@.subrange(0, index - 1));
                assert(self.local_value_types.map() =~= parameter_types(parameters@.subrange(0, index as int)));
            }
        }
        assert(parameters@.subrange(0, index as int) =~= parameters@);
        let body = self.resolve_statements(compilation_context, body);
        self.local_value_types = NameTable::new();
        assert(self.local_value_types.map() =~= Map::<Seq<char>, TypeIndex>::empty());
        FunctionItem { identifier, parameters, can_clause, cannot_clause, body, span, is_native }
    }

    /// Resolves a top-level statement or the body of a test; other items are lowered
    /// out of the item list before resolution.
    pub fn resolve_item(&mut self, compilation_context: &mut CompilationContext, item: Item) -> (resolved: Item)
        requires
            old(self).ready(),
            item.kind is Statement || item.kind is Test,
        ensures
            final(self).scope() == old(self).scope(),
            resolved.span == item.span,
            resolved.trivia == item.trivia,
            item_comments(resolved) == item_comments(item),
            ({
                let r = resolve_item_view(old(self).scope(), item);
                &&& crate::ast_view::item_view(resolved) == r.0
                &&& final(compilation_context)@ == old(compilation_context)@ + r.1
                &&& records(old(self).scope().table, old(self).current_function(), final(self).current_function(), r.2)
            }),
    {
        let Item { kind, span, trivia } = item;
        match kind {
            ItemKind::Statement(statement) => {
                let statement = self.resolve_statement(compilation_context, statement);
                Item { kind: ItemKind::Statement(statement), span, trivia }
            },
            ItemKind::Test(test) => {
                let TestItem { name, body, span: test_span } = test;
                let body = self.resolve_statements(compilation_context, body);
                Item { kind: ItemKind::Test(TestItem { name, body, span: test_span }), span, trivia }
            },
            other => Item { kind: other, span, trivia },
        }
    }
}

/// The outcome of resolving a top-level statement or a test: the item, the diagnostics
/// and the calls.
pub open spec fn resolve_item_view(s: Scope, item: Item) -> (crate::ast_view::ItemView, Seq<DiagnosticView>, Seq<(FunctionIndex, Span)>) {
    let view = crate::ast_view::item_view(item);
    match item.kind {
        ItemKind::Statement(statement) => {
            let r = resolve_expression(s, stmt_view(statement).expression);
            (
                crate::ast_view::ItemView {
                    kind: crate::ast_view::ItemKindView::Statement(StmtView { expression: r.expression, ..stmt_view(statement) }),
                    ..view
                },
                r.diagnostics,
                r.calls,
            )
        },
        ItemKind::Test(test) => {
            let r = resolve_statements(s, stmt_views(test.body@), test.body@.len() as int);
            (
                crate::ast_view::ItemView {
                    kind: crate::ast_view::ItemKindView::Test { name: test.name@, body: r.statements, span: test.span },
                    ..view
                },
                r.diagnostics,
                r.calls,
            )
        },
        _ => (view, Seq::empty(), Seq::empty()),
    }
}

} // verus!

use vstd::prelude::*;
use crate::span::Span;
use crate::source_file::SourceFile;
use crate::types::FunctionIndex;
use crate::diagnostic::{DiagnosticLevel, DiagnosticView, SourceDiagnostics, any_error};
use crate::compilation_context::CompilationContext;
use crate::compilation_session::CompilationSession;
use crate::ast::{CompilationUnit, Item, ItemKind, item_comments, items_comments, statement_comments};
use crate::ast_view::{ItemView, item_views};
use crate::symbol_table::{FunctionKind, ResolvedFunction, SymbolTable, apply_outcome, is_user_defined_slot};
use crate::ast::FunctionItem;
use crate::parsed_module::{ParsedModule, ResolvedProgram};
use crate::resolver::module_validation::{validate_loaded_modules, validation_report};
use crate::ast_view::{duplicate_function, stmt_views};
use crate::text::same_text;
use vstd::string::StrSliceExecFns;
use crate::lexer::lex::{failure_view, lex_from};
use crate::parser::grammar::{Parsed, parse_items};
use crate::parser::parse::{is_parser_failure, parse_source};
use crate::ast_view::unit_items;
use crate::resolver::diagnostics::span_diagnostic;
use crate::resolver::resolver::{DependencyView, dependency_view, parameter_types, record_call, record_calls, resolve_statements};
use crate::resolver::effect_propagation::{
    EffectNode, all_callees_known, below_propagation, effect_node, effect_nodes, effect_report, inferred_within,
    inferred_within_direct, is_closed_bound, is_fixed_point, only_inferred_changed, propagate_function_effects,
    propagated, user_sources_addressable,
};
use crate::module_environment::ModuleEnvironment;
use crate::error::{CompilationStage, ErrorKind, OcelotError, OcelotResult, is_message_error};
use crate::resolver::diagnostics::addressable;
use crate::resolver::declaration_indexer::{
    DeclarationIndexer, Pass, declarations_outcome, declarations_registered, effects_registered, indexable, lowered, retained,
    uses_registered,
};
use crate::resolver::resolver::{Resolver, Scope, resolve_item_view};

verus! {

// ---------------------------------------------------------------- reporting

/// The word that names a diagnostic level.
pub open spec fn level_word(level: DiagnosticLevel) -> Seq<char> {
    match level {
        DiagnosticLevel::Error => "error"@,
        DiagnosticLevel::Warning => "warning"@,
    }
}

/// Each diagnostic as a line `level: message`, then a line ` --> path` naming its file.
pub open spec fn listed_diagnostics(diagnostics: Seq<DiagnosticView>) -> Seq<char>
    decreases diagnostics.len(),
{
    if diagnostics.len() == 0 {
        Seq::empty()
    } else {
        let last = diagnostics.last();
        listed_diagnostics(diagnostics.drop_last()) + level_word(last.level) + ": "@ + last.message + "\n"@
            + " --> "@ + last.file_path + "\n"@
    }
}

/// Lists each diagnostic as a line `level: message`, then a line ` --> path` naming its
/// file.
pub fn list_diagnostics(diagnostics: &SourceDiagnostics) -> (text: String)
    ensures
        text@ == listed_diagnostics(diagnostics@),
{
    let mut text = String::new();
    let mut index: usize = 0;
    while index < diagnostics.diagnostics.len()
        invariant
            index <= diagnostics@.len(),
            diagnostics@.len() == diagnostics.diagnostics@.len(),
            text@ == listed_diagnostics(diagnostics@.take(index as int)),
        decreases diagnostics@.len() - index,
    {
        let diagnostic = &diagnostics.diagnostics[index];
        match diagnostic.level {
            DiagnosticLevel::Error => text.append("error"),
            DiagnosticLevel::Warning => text.append("warning"),
        }
        text.append(": ");
        text.append(diagnostic.message.as_str());
        text.append("\n");
        text.append(" --> ");
        text.append(diagnostic.file_path.as_str());
        text.append("\n");
        proof {
            assert(diagnostics@.take(index + 1).drop_last() =~= diagnostics@.take(index as int));
            assert(diagnostics@[index as int] == diagnostic@);
        }
        index = index + 1;
    }
    assert(diagnostics@.take(index as int) =~= diagnostics@);
    text
}

/// Ends resolution: a resolver compilation error, caused by an error that lists every
/// diagnostic, when a diagnostic of error level was reported.
pub fn finish_resolution(compilation_context: &CompilationContext) -> (result: OcelotResult<()>)
    ensures
        result is Ok <==> !any_error(compilation_context@),
        result matches Err(e) ==> {
            &&& e.kind == ErrorKind::CompilationError(CompilationStage::Resolver)
            &&& e.source matches Some(source) && source.source is None
                && is_message_error(*source, listed_diagnostics(compilation_context@))
        },
{
    if compilation_context.has_errors() {
        let listing = list_diagnostics(&compilation_context.source_diagnostics);
        return Err(OcelotError::compilation_error(CompilationStage::Resolver).with_source(OcelotError::message(listing)));
    }
    Ok(())
}

// ---------------------------------------------------------------- registration passes

/// Registers the `effect` items of one module and removes them from its items.
pub fn register_module_effects(
    unit: &mut CompilationUnit,
    source_file: &SourceFile,
    compilation_context: &mut CompilationContext,
    table: &mut SymbolTable,
) -> (result: OcelotResult<()>)
    requires
        indexable(*old(table)),
        addressable(*source_file),
        old(table).effects@.len() + old(unit).items@.len() + 1 < u32::MAX,
    ensures
        result is Ok,
        indexable(*final(table)),
        effects_registered((*old(table), old(compilation_context)@), (*final(table), final(compilation_context)@), *source_file,
            old(unit).items@),
        final(unit).items@ == retained(old(unit).items@, Pass::Effects),
        final(unit).span == old(unit).span,
        final(unit).trivia == old(unit).trivia,
        final(table).effects@.len() <= old(table).effects@.len() + old(unit).items@.len(),
        old(table).effects@.len() <= final(table).effects@.len(),
        final(table).effects@.len() + final(unit).items@.len() <= old(table).effects@.len() + old(unit).items@.len(),
        final(table).functions@ == old(table).functions@,
{
    let compilation_session = CompilationSession::new();
    let indexer = DeclarationIndexer::new(source_file, "", &compilation_session);
    indexer.register_effect_items(compilation_context, table, unit);
    Ok(())
}

/// Registers the `effect` and `fn` items of module `module_name` and removes them from
/// its items. The module's imports are not involved: the parameter is kept for the
/// passes' common shape and left unchanged.
pub fn register_module_functions(
    unit: &mut CompilationUnit,
    module_name: &str,
    source_file: &SourceFile,
    compilation_context: &mut CompilationContext,
    table: &mut SymbolTable,
    module_environment: &mut ModuleEnvironment,
    compilation_session: &CompilationSession,
) -> (result: OcelotResult<()>)
    requires
        indexable(*old(table)),
        addressable(*source_file),
        old(table).effects@.len() + old(unit).items@.len() + 1 < u32::MAX,
        old(table).functions@.len() + old(unit).items@.len() + 1 < u32::MAX,
    ensures
        indexable(*final(table)),
        *final(module_environment) == *old(module_environment),
        declarations_outcome((*old(table), old(compilation_context)@), (*final(table), final(compilation_context)@), result,
            *source_file, module_name@, *compilation_session, old(unit).items@),
        result is Ok ==> final(unit).items@ == retained(old(unit).items@, Pass::Declarations),
        result is Err ==> final(unit).items@.len() == 0,
        final(unit).span == old(unit).span,
        final(unit).trivia == old(unit).trivia,
        final(table).functions@.len() <= old(table).functions@.len() + old(unit).items@.len(),
        final(table).effects@.len() <= old(table).effects@.len() + old(unit).items@.len(),
{
    let indexer = DeclarationIndexer::new(source_file, module_name, compilation_session);
    indexer.register_function_items(compilation_context, table, unit)
}

/// Registers the `use` items of module `module_name` in its imports and removes them
/// from its items.
pub fn register_module_imports(
    unit: &mut CompilationUnit,
    module_name: &str,
    source_file: &SourceFile,
    compilation_context: &mut CompilationContext,
    table: &SymbolTable,
    module_environment: &mut ModuleEnvironment,
) -> (result: OcelotResult<()>)
    requires
        addressable(*source_file),
    ensures
        result is Ok,
        uses_registered(*table, *source_file, module_name@, (old(module_environment).imports(), old(compilation_context)@),
            (final(module_environment).imports(), final(compilation_context)@), old(unit).items@),
        final(unit).items@ == retained(old(unit).items@, Pass::Uses),
        final(unit).span == old(unit).span,
        final(unit).trivia == old(unit).trivia,
{
    let compilation_session = CompilationSession::new();
    let indexer = DeclarationIndexer::new(source_file, module_name, &compilation_session);
    indexer.register_use_items(compilation_context, table, module_environment, unit);
    Ok(())
}

// ---------------------------------------------------------------- item resolution

/// Resolving the first `count` items in order: their views and their diagnostics.
pub open spec fn items_resolved(s: Scope, items: Seq<Item>, count: int) -> (Seq<ItemView>, Seq<DiagnosticView>)
    decreases count,
{
    if count <= 0 {
        (Seq::empty(), Seq::empty())
    } else {
        let earlier = items_resolved(s, items, count - 1);
        let last = resolve_item_view(s, items[count - 1]);
        (earlier.0.push(last.0), earlier.1 + last.1)
    }
}

/// Resolves the statements and tests left in one module after registration.
pub fn resolve_module_items(
    unit: &mut CompilationUnit,
    module_name: &str,
    source_file: &SourceFile,
    compilation_context: &mut CompilationContext,
    table: &SymbolTable,
    module_environment: &ModuleEnvironment,
    compilation_session: &CompilationSession,
) -> (result: OcelotResult<()>)
    requires
        table.primitive_types_seeded(),
        addressable(*source_file),
        forall|i: int| 0 <= i < old(unit).items@.len() ==> (#[trigger] old(unit).items@[i]).kind is Statement
            || old(unit).items@[i].kind is Test,
    ensures
        result is Ok,
        ({
            let s = Scope {
                table: *table,
                file: *source_file,
                module_name: module_name@,
                imports: module_environment.imports(),
                locals: Map::empty(),
            };
            let r = items_resolved(s, old(unit).items@, old(unit).items@.len() as int);
            &&& item_views(final(unit).items@) == r.0
            &&& final(compilation_context)@ == old(compilation_context)@ + r.1
        }),
        final(unit).items@.len() == old(unit).items@.len(),
        items_comments(final(unit).items@) == items_comments(old(unit).items@),
        final(unit).span == old(unit).span,
        final(unit).trivia == old(unit).trivia,
{
    let mut resolver = Resolver::new(source_file, module_name, table, module_environment, None);
    let ghost s = resolver.scope();
    let mut items: Vec<Item> = Vec::new();
    std::mem::swap(&mut items, &mut unit.items);
    let ghost original = items@;
    let mut resolved: Vec<Item> = Vec::new();
    let ghost mut done: int = 0;
    assert(old(compilation_context)@ + Seq::<DiagnosticView>::empty() =~= old(compilation_context)@);
    while items.len() > 0
        invariant
            0 <= done <= original.len(),
            items@ == original.subrange(done, original.len() as int),
            original == old(unit).items@,
            resolver.scope() == s,
            resolver.ready(),
            resolver.current_function() is None,
            resolved@.len() == done,
            item_views(resolved@) == items_resolved(s, original, done).0,
            compilation_context@ == old(compilation_context)@ + items_resolved(s, original, done).1,
            items_comments(resolved@) == items_comments(original.take(done)),
            forall|i: int| 0 <= i < original.len() ==> (#[trigger] original[i]).kind is Statement || original[i].kind is Test,
            unit.span == old(unit).span,
            unit.trivia == old(unit).trivia,
        decreases items.len(),
    {
        let item = items.remove(0);
        proof {
            assert(item == original[done]);
        }
        let ghost before = compilation_context@;
        let next = resolver.resolve_item(compilation_context, item);
        let ghost before_push = resolved@;
        resolved.push(next);
        proof {
            assert(original.take(done + 1) =~= original.take(done).push(original[done]));
            assert(items_comments(resolved@) =~= items_comments(before_push).push(item_comments(next)));
            assert(items_comments(original.take(done + 1)) =~= items_comments(original.take(done)).push(item_comments(original[done])));
            assert(item_views(resolved@) =~= items_resolved(s, original, done + 1).0);
            assert(compilation_context@ =~= old(compilation_context)@ + items_resolved(s, original, done + 1).1);
            done = done + 1;
            assert(items@ =~= original.subrange(done, original.len() as int));
        }
    }
    assert(original.take(done) =~= original);
    unit.items = resolved;
    Ok(())
}

// ---------------------------------------------------------------- function bodies

/// The imports of the module whose file has path `path` (the last entry for it).
pub open spec fn environment_for(environments: Seq<(String, ModuleEnvironment)>, path: Seq<char>) -> Option<ModuleEnvironment>
    decreases environments.len(),
{
    if environments.len() == 0 {
        None
    } else if environments.last().0@ == path {
        Some(environments.last().1)
    } else {
        environment_for(environments.drop_last(), path)
    }
}

/// Every user-defined function's file has imports among `environments`.
pub open spec fn environments_cover(table: SymbolTable, environments: Seq<(String, ModuleEnvironment)>) -> bool {
    forall|p: int| 0 <= p < table.functions@.len() ==> match #[trigger] table.functions@[p] {
        Some(definition) => match definition.kind {
            FunctionKind::UserDefined { source_file, .. } => environment_for(environments, source_file.path@) is Some,
            FunctionKind::NativeFunction { .. } => true,
        },
        None => true,
    }
}

fn environment_for_path<'b>(environments: &'b Vec<(String, ModuleEnvironment)>, path: &str) -> (found: Option<&'b ModuleEnvironment>)
    ensures
        found is Some <==> environment_for(environments@, path@) is Some,
        found matches Some(e) ==> *e == environment_for(environments@, path@)->Some_0,
{
    let mut count = environments.len();
    assert(environments@.take(count as int) =~= environments@);
    while count > 0
        invariant
            count <= environments@.len(),
            environment_for(environments@, path@) == environment_for(environments@.take(count as int), path@),
        decreases count,
    {
        let ghost prefix = environments@.take(count as int);
        assert(prefix.drop_last() =~= environments@.take(count - 1));
        if same_text(environments[count - 1].0.as_str(), path) {
            return Some(&environments[count - 1].1);
        }
        count = count - 1;
    }
    None
}

/// The handles listed are the user-defined functions of `table`, in increasing order.
pub open spec fn user_defined_order(table: SymbolTable, indices: Seq<FunctionIndex>) -> bool {
    &&& forall|i: int| 0 <= i < indices.len() ==> 1 <= (#[trigger] indices[i]).0 < table.functions@.len()
        && is_user_defined_slot(table.functions@[indices[i].0 as int])
    &&& forall|i: int, j: int| 0 <= i < j < indices.len() ==> indices[i].0 < indices[j].0
    &&& forall|p: int| 1 <= p < table.functions@.len() && is_user_defined_slot(table.functions@[p])
        ==> exists|i: int| 0 <= i < indices.len() && indices[i].0 == p
}

/// `resolved` is user-defined function `index` with its body resolved in its module and
/// its calls recorded, before effect inference; resolving the body reports `diagnostics`.
pub open spec fn body_resolved(
    table: SymbolTable,
    environments: Seq<(String, ModuleEnvironment)>,
    index: FunctionIndex,
    resolved: ResolvedFunction,
    diagnostics: Seq<DiagnosticView>,
) -> bool {
    match table.definition_at(index) {
        Some(definition) => match definition.kind {
            FunctionKind::UserDefined { function, source_file } => {
                let s = Scope {
                    table,
                    file: *source_file,
                    module_name: definition.module_name@,
                    imports: environment_for(environments, source_file.path@)->Some_0.imports(),
                    locals: parameter_types(function.parameters@),
                };
                let r = resolve_statements(s, stmt_views(function.body@), function.body@.len() as int);
                let start = DependencyView { direct: definition.direct_effects@, sources: Map::empty(), callees: Map::empty() };
                &&& resolved.function_index == index
                &&& stmt_views(resolved.function.body@) == r.statements
                &&& statement_comments(resolved.function.body@) == statement_comments(function.body@)
                &&& resolved.function.identifier == function.identifier
                &&& resolved.function.parameters@ == function.parameters@
                &&& resolved.function.can_clause == function.can_clause
                &&& resolved.function.cannot_clause == function.cannot_clause
                &&& resolved.function.span == function.span
                &&& resolved.function.is_native == function.is_native
                &&& dependency_view(resolved) == record_calls(table, start, r.calls)
                &&& resolved.inferred_effects@ == definition.direct_effects@
                &&& diagnostics == r.diagnostics
            },
            FunctionKind::NativeFunction { .. } => false,
        },
        None => false,
    }
}

/// The diagnostic lists one after another.
pub open spec fn concatenated(reports: Seq<Seq<DiagnosticView>>) -> Seq<DiagnosticView>
    decreases reports.len(),
{
    if reports.len() == 0 {
        Seq::empty()
    } else {
        concatenated(reports.drop_last()) + reports.last()
    }
}

/// Effect inference settled `before` into `after`: only inferred effects changed, into
/// the least fixed point of propagation.
pub open spec fn inference_settled(table: SymbolTable, before: Seq<ResolvedFunction>, after: Seq<ResolvedFunction>) -> bool {
    &&& only_inferred_changed(before, after)
    &&& is_fixed_point(effect_nodes(after), table)
    &&& forall|bound: Seq<Set<u32>>| is_closed_bound(effect_nodes(before), table, bound) ==> inferred_within(effect_nodes(after), bound)
}

/// What effect inference and checking give for the resolved functions `before`, with
/// `context` the diagnostics so far.
pub open spec fn inference_outcome(
    table: SymbolTable,
    before: Seq<ResolvedFunction>,
    context: Seq<DiagnosticView>,
    final_context: Seq<DiagnosticView>,
    result: OcelotResult<Vec<ResolvedFunction>>,
) -> bool {
    if !all_callees_known(effect_nodes(before), table) {
        &&& result matches Err(e) && is_message_error(e, "internal error: function index points outside the function table"@)
        &&& final_context == context
    } else {
        match result {
            Ok(after) => {
                let report = effect_report(table, after@, effect_nodes(after@));
                &&& inference_settled(table, before, after@)
                &&& report.1 is None
                &&& final_context == context + report.0
            },
            Err(e) => exists|after: Seq<ResolvedFunction>| {
                let report = effect_report(table, after, effect_nodes(after));
                &&& #[trigger] inference_settled(table, before, after)
                &&& report.1 matches Some(m) && is_message_error(e, m)
                &&& final_context == context + report.0
            },
        }
    }
}

proof fn lemma_record_calls_keep_direct(table: SymbolTable, d: DependencyView, calls: Seq<(FunctionIndex, Span)>)
    ensures
        d.direct.subset_of(record_calls(table, d, calls).direct),
    decreases calls.len(),
{
    if calls.len() > 0 {
        lemma_record_calls_keep_direct(table, d, calls.drop_last());
    }
}

/// Resolves the body of every user-defined function of `table`, in table order, in
/// the scope of its module, then infers and checks their effects.
pub fn resolve_user_defined_function_definitions(
    compilation_context: &mut CompilationContext,
    table: &SymbolTable,
    module_environments: &Vec<(String, ModuleEnvironment)>,
    compilation_session: &CompilationSession,
) -> (result: OcelotResult<Vec<ResolvedFunction>>)
    requires
        indexable(*table),
        table.functions@.len() <= u32::MAX,
        environments_cover(*table, module_environments@),
    ensures
        exists|before: Seq<ResolvedFunction>, reports: Seq<Seq<DiagnosticView>>| {
            &&& before.len() == reports.len()
            &&& user_defined_order(*table, before.map_values(|f: ResolvedFunction| f.function_index))
            &&& forall|i: int| 0 <= i < before.len() ==> #[trigger] body_resolved(*table, module_environments@,
                before[i].function_index, before[i], reports[i])
            &&& inference_outcome(*table, before, old(compilation_context)@ + concatenated(reports), final(compilation_context)@, result)
        },
{
    let function_indices = table.user_defined_function_indices();
    let mut resolved_functions: Vec<ResolvedFunction> = Vec::new();
    let ghost mut reports: Seq<Seq<DiagnosticView>> = Seq::empty();
    let mut position: usize = 0;
    assert(old(compilation_context)@ + concatenated(reports) =~= old(compilation_context)@);
    while position < function_indices.len()
        invariant
            position <= function_indices@.len(),
            indexable(*table),
            environments_cover(*table, module_environments@),
            user_defined_order(*table, function_indices@),
            resolved_functions@.len() == position,
            reports.len() == position,
            forall|i: int| 0 <= i < position ==> (#[trigger] resolved_functions@[i]).function_index == function_indices@[i],
            forall|i: int| 0 <= i < position ==> #[trigger] body_resolved(*table, module_environments@,
                resolved_functions@[i].function_index, resolved_functions@[i], reports[i]),
            forall|i: int| 0 <= i < position ==> (#[trigger] resolved_functions@[i]).inferred_effects@.subset_of(
                resolved_functions@[i].direct_effects@),
            compilation_context@ == old(compilation_context)@ + concatenated(reports),
        decreases function_indices@.len() - position,
    {
        let function_index = function_indices[position];
        let definition = match table.function_definition(function_index) {
            Ok(definition) => definition,
            Err(error) => return Err(error),
        };
        proof {
            assert(table.functions@[function_index.0 as int] == Some(*definition));
        }
        match &definition.kind {
            FunctionKind::UserDefined { function, source_file } => {
                let module_environment = match environment_for_path(module_environments, source_file.path.as_str()) {
                    Some(module_environment) => module_environment,
                    None => return Err(OcelotError::message_str("internal error: module imports are missing for a function's file")),
                };
                let body = duplicate_function(function);
                let ghost copy = body;
                let start = ResolvedFunction::new(function_index, FunctionItem::placeholder(), definition.direct_effects.copy());
                proof {
                    start.direct_effect_sources.lemma_no_entries();
                    start.called_functions.lemma_no_entries();
                }
                let ghost start_view = start;
                let mut resolver = Resolver::new(source_file, definition.module_name.as_str(), table, module_environment, Some(start));
                let ghost before = compilation_context@;
                let body = resolver.resolve_function_item(compilation_context, body);
                let resolved = resolver.into_resolved_function();
                let mut resolved = resolved.unwrap();
                resolved.function = Box::new(body);
                proof {
                    let s = Scope {
                        table: *table,
                        file: **source_file,
                        module_name: definition.module_name@,
                        imports: module_environment.imports(),
                        locals: parameter_types(function.parameters@),
                    };
                    let r = resolve_statements(s, stmt_views(function.body@), function.body@.len() as int);
                    assert(copy.parameters@ == function.parameters@);
                    assert(stmt_views(copy.body@) == stmt_views(function.body@));
                    assert(copy.body@.len() == function.body@.len()) by {
                        assert(stmt_views(copy.body@).len() == copy.body@.len());
                    }
                    assert(stmt_views(resolved.function.body@) == r.statements);
                    assert(dependency_view(start_view) == (DependencyView {
                        direct: definition.direct_effects@,
                        sources: Map::empty(),
                        callees: Map::empty(),
                    }));
                    assert(dependency_view(resolved) == record_calls(*table, dependency_view(start_view), r.calls));
                    lemma_record_calls_keep_direct(*table, dependency_view(start_view), r.calls);
                    let report = compilation_context@.subrange(before.len() as int, compilation_context@.len() as int);
                    assert(report =~= r.diagnostics);
                    assert(environment_for(module_environments@, source_file.path@) == Some(*module_environment));
                    assert(body_resolved(*table, module_environments@, function_index, resolved, report));
                    let earlier = reports;
                    reports = reports.push(report);
                    assert(reports.drop_last() =~= earlier);
                    assert(compilation_context@ =~= old(compilation_context)@ + concatenated(reports));
                }
                resolved_functions.push(resolved);
            },
            FunctionKind::NativeFunction { .. } => {
                return Err(OcelotError::message_str("internal error: function index did not reference a user-defined function"));
            },
        }
        position = position + 1;
    }
    let ghost before = resolved_functions@;
    let ghost middle = compilation_context@;
    proof {
        assert(before.map_values(|f: ResolvedFunction| f.function_index) =~= function_indices@);
        let nodes = effect_nodes(before);
        assert forall|i: int| 0 <= i < nodes.len() implies (#[trigger] nodes[i]).inferred.subset_of(propagated(nodes, *table, i)) by {
            assert(nodes[i] == effect_node(before[i]));
        }
        assert(below_propagation(nodes, *table));
        assert forall|i: int| 0 <= i < nodes.len() implies (#[trigger] nodes[i]).inferred.subset_of(nodes[i].direct) by {
            assert(nodes[i] == effect_node(before[i]));
        }
        assert(inferred_within_direct(nodes));
    }
    let outcome = propagate_function_effects(compilation_context, table, &mut resolved_functions);
    let result: OcelotResult<Vec<ResolvedFunction>> = match outcome {
        Ok(()) => Ok(resolved_functions),
        Err(error) => Err(error),
    };
    proof {
        if all_callees_known(effect_nodes(before), *table) && result is Err {
            assert(inference_settled(*table, before, resolved_functions@));
        }
        assert(inference_outcome(*table, before, middle, compilation_context@, result));
        assert(forall|i: int| 0 <= i < before.len() ==> #[trigger] body_resolved(*table, module_environments@,
            before[i].function_index, before[i], reports[i]));
    }
    result
}

// ---------------------------------------------------------------- the core module

/// Name of the compiler-provided module.
pub const CORE_MODULE_NAME: &'static str = "core";
/// Path under which the core module's text is reported.
pub const CORE_MODULE_PATH: &'static str = "crates/engine/resources/core.ocelot";
/// Text of the core module: the builtin effects and the native functions.
pub const CORE_MODULE_SOURCE: &'static str = "effect write_stdout;\neffect panic;\n\nnative fun println(value: any) can write_stdout;\nnative fun assert(condition: bool) can panic;\nnative fun assert_eq(expected: any, actual: any) can panic;\n";

/// `file` holds the core module's text under its path.
pub open spec fn is_core_file(file: SourceFile) -> bool {
    file.path@ == CORE_MODULE_PATH@ && file.source@ == CORE_MODULE_SOURCE@
}

/// What parsing the text of `file` reports: whether it succeeds and the diagnostics.
#[verifier::opaque]
pub open spec fn parse_report(file: SourceFile) -> (bool, Seq<DiagnosticView>) {
    let b = file.bytes();
    let lexed = lex_from(b, 0);
    let after_lexing = match lexed.1 {
        None => Seq::<DiagnosticView>::empty(),
        Some(failure) => seq![failure_view(file.path@, b, failure)],
    };
    if any_error(after_lexing) {
        (false, after_lexing)
    } else {
        match parse_items(lexed.0, b, 0) {
            Parsed::Failed(f) => (false, after_lexing.push(span_diagnostic(file.path@, b, f.message, f.span, f.annotation))),
            Parsed::Done { .. } => (true, after_lexing),
        }
    }
}

/// `unit` is what parsing the text of `file` gives.
#[verifier::opaque]
pub open spec fn parsed_unit(file: SourceFile, unit: CompilationUnit) -> bool {
    let b = file.bytes();
    &&& parse_items(lex_from(b, 0).0, b, 0) matches Parsed::Done { value, .. } && value == unit_items(unit)
    &&& unit.span == (Span { start: 0, end: b.len() as usize })
}

/// `after` is `before` with module `name` registered.
pub open spec fn module_added(before: SymbolTable, after: SymbolTable, name: Seq<char>) -> bool {
    &&& after.module_symbols.get(name) is Some
    &&& forall|other: Seq<char>| other != name ==> after.module_symbols.get(other) == before.module_symbols.get(other)
    &&& after.functions@ == before.functions@
    &&& after.function_symbols == before.function_symbols
    &&& after.effects@ == before.effects@
    &&& after.effect_symbols == before.effect_symbols
    &&& after.types@ == before.types@
    &&& after.type_symbols == before.type_symbols
}

/// `count` more entries fit after `existing` ones in a table indexed by `u32`.
pub open spec fn fits(existing: int, count: int) -> bool {
    existing + count + 1 < u32::MAX
}

fn fits_in_table(existing: usize, count: usize) -> (fit: bool)
    ensures
        fit == fits(existing as int, count as int),
{
    existing < 0xffff_fffe && count < 0xffff_fffe - existing
}

/// Registering a parsed module `unit` of `file` as module `module_name`: the module is
/// added, then its effects and its functions are registered.
pub open spec fn module_declared(
    before: (SymbolTable, Seq<DiagnosticView>),
    after: (SymbolTable, Seq<DiagnosticView>),
    result: OcelotResult<()>,
    file: SourceFile,
    module_name: Seq<char>,
    session: CompilationSession,
    unit: CompilationUnit,
) -> bool {
    exists|with_module: SymbolTable, middle: (SymbolTable, Seq<DiagnosticView>)| {
        &&& #[trigger] module_added(before.0, with_module, module_name)
        &&& #[trigger] effects_registered((with_module, before.1), middle, file, unit.items@)
        &&& declarations_outcome(middle, after, result, file, module_name, session, retained(unit.items@, Pass::Effects))
    }
}

/// What registering the core module does, from `before` to `after`.
pub open spec fn core_outcome(
    before: (SymbolTable, Seq<DiagnosticView>),
    after: (SymbolTable, Seq<DiagnosticView>),
    result: OcelotResult<()>,
    session: CompilationSession,
) -> bool {
    if before.0.module_symbols.get(CORE_MODULE_NAME@) is Some {
        result is Ok && after == before
    } else {
        exists|file: SourceFile| {
            let report = parse_report(file);
            &&& #[trigger] is_core_file(file)
            &&& if !addressable(file) {
                &&& result matches Err(e) && is_message_error(e, "internal error: the core module is too large"@)
                &&& after == before
            } else if !report.0 {
                &&& result matches Err(e) && is_parser_failure(e)
                &&& after == (before.0, before.1 + report.1)
            } else {
                exists|unit: CompilationUnit| {
                    &&& #[trigger] parsed_unit(file, unit)
                    &&& if !fits(before.0.effects@.len() as int, unit.items@.len() as int)
                        || !fits(before.0.functions@.len() as int, unit.items@.len() as int) {
                        &&& result matches Err(e) && is_message_error(e, "internal error: too many declarations"@)
                        &&& after == (before.0, before.1 + report.1)
                    } else {
                        module_declared((before.0, before.1 + report.1), after, result, file, CORE_MODULE_NAME@, session, unit)
                    }
                }
            }
        }
    }
}

/// Parsing depends on a file's path and text alone.
pub proof fn lemma_parse_report_views(a: SourceFile, b: SourceFile)
    requires
        a.path@ == b.path@,
        a.source@ == b.source@,
    ensures
        parse_report(a) == parse_report(b),
        forall|unit: CompilationUnit| parsed_unit(a, unit) == parsed_unit(b, unit),
{
    reveal(parse_report);
    reveal(parsed_unit);
}

/// Parses the text of `source_file` on a context of its own, then adds what it reported
/// to `compilation_context`.
pub(crate) fn parse_module_text(source_file: &SourceFile, compilation_context: &mut CompilationContext) -> (result: OcelotResult<CompilationUnit>)
    requires
        addressable(*source_file),
    ensures
        final(compilation_context)@ == old(compilation_context)@ + parse_report(*source_file).1,
        result is Ok <==> parse_report(*source_file).0,
        result matches Err(e) ==> is_parser_failure(e),
        result matches Ok(unit) ==> parsed_unit(*source_file, unit),
{
    let mut own_context = CompilationContext::default();
    let parsed = parse_source(source_file, &mut own_context);
    proof {
        reveal(parse_report);
        reveal(parsed_unit);
        assert(own_context@ =~= parse_report(*source_file).1);
    }
    compilation_context.add_diagnostics(own_context.source_diagnostics.diagnostics);
    parsed
}

/// Registers the compiler-provided `core` module, unless the table already has it: its
/// text is parsed, then its effects and native functions are registered.
pub fn register_core_module(
    compilation_context: &mut CompilationContext,
    table: &mut SymbolTable,
    compilation_session: &CompilationSession,
) -> (result: OcelotResult<()>)
    requires
        indexable(*old(table)),
    ensures
        indexable(*final(table)),
        core_outcome((*old(table), old(compilation_context)@), (*final(table), final(compilation_context)@), result,
            *compilation_session),
{
    if table.has_module(CORE_MODULE_NAME) {
        return Ok(());
    }
    let source_file = SourceFile::new(CORE_MODULE_PATH, CORE_MODULE_SOURCE);
    proof {
        assert(is_core_file(source_file));
    }
    if source_file.source_bytes().len() == usize::MAX {
        return Err(OcelotError::message_str("internal error: the core module is too large"));
    }
    let parsed = parse_module_text(&source_file, compilation_context);
    let mut unit = match parsed {
        Ok(unit) => unit,
        Err(error) => return Err(error),
    };
    let ghost parsed = unit;
    if !fits_in_table(table.effects.len(), unit.items.len()) || !fits_in_table(table.functions.len(), unit.items.len()) {
        return Err(OcelotError::message_str("internal error: too many declarations"));
    }
    let ghost before = (*table, compilation_context@);
    table.add_module(CORE_MODULE_NAME);
    let ghost with_module = *table;
    register_module_effects(&mut unit, &source_file, compilation_context, table)?;
    let ghost middle = (*table, compilation_context@);
    let mut module_environment = ModuleEnvironment::new();
    let result = register_module_functions(&mut unit, CORE_MODULE_NAME, &source_file, compilation_context, table,
        &mut module_environment, compilation_session);
    proof {
        assert(module_added(before.0, with_module, CORE_MODULE_NAME@));
        assert(effects_registered((with_module, before.1), middle, source_file, parsed.items@));
        assert(declarations_outcome(middle, (*table, compilation_context@), result, source_file, CORE_MODULE_NAME@,
            *compilation_session, retained(parsed.items@, Pass::Effects)));
        assert(module_declared(before, (*table, compilation_context@), result, source_file, CORE_MODULE_NAME@,
            *compilation_session, parsed));
    }
    result
}

// ---------------------------------------------------------------- one script

/// Position of the last `c` in `text` before `end`, or -1.
pub open spec fn last_char_position(text: Seq<char>, c: char, end: int) -> int
    decreases end,
{
    if end <= 0 {
        -1
    } else if text[end - 1] == c {
        end - 1
    } else {
        last_char_position(text, c, end - 1)
    }
}

pub proof fn lemma_last_char_position(text: Seq<char>, c: char, end: int)
    requires
        0 <= end <= text.len(),
    ensures
        -1 <= last_char_position(text, c, end) < end,
        last_char_position(text, c, end) >= 0 ==> text[last_char_position(text, c, end)] == c,
    decreases end,
{
    if end > 0 {
        lemma_last_char_position(text, c, end - 1);
    }
}

/// The last component of a `/`-separated path.
pub open spec fn file_name(path: Seq<char>) -> Seq<char> {
    path.subrange(last_char_position(path, '/', path.len() as int) + 1, path.len() as int)
}

/// The file name of `path` without its extension: up to its last `.`, unless that `.`
/// starts the name; empty for `.` and `..`.
pub open spec fn file_stem(path: Seq<char>) -> Seq<char> {
    let name = file_name(path);
    if name == "."@ || name == ".."@ {
        Seq::empty()
    } else {
        let dot = last_char_position(name, '.', name.len() as int);
        if dot <= 0 { name } else { name.subrange(0, dot) }
    }
}

pub(crate) fn last_char_before(text: &str, c: char, end: usize) -> (position: usize)
    requires
        end <= text@.len(),
    ensures
        last_char_position(text@, c, end as int) >= 0 ==> position == last_char_position(text@, c, end as int),
        last_char_position(text@, c, end as int) < 0 ==> position == end,
{
    let mut index = end;
    while index > 0
        invariant
            index <= end,
            end <= text@.len(),
            last_char_position(text@, c, end as int) == last_char_position(text@, c, index as int),
        decreases index,
    {
        if text.get_char(index - 1) == c {
            return index - 1;
        }
        index = index - 1;
    }
    end
}

/// The module name a script file gets: the stem of its file name.
pub fn default_module_name(source_file: &SourceFile) -> (name: String)
    ensures
        name@ == file_stem(source_file.path@),
{
    let path = source_file.path.as_str();
    let length = path.unicode_len();
    let slash = last_char_before(path, '/', length);
    proof {
        lemma_last_char_position(path@, '/', length as int);
    }
    let start = if slash == length { 0 } else { slash + 1 };
    let name = path.substring_char(start, length);
    proof {
        reveal_strlit(".");
        reveal_strlit("..");
    }
    if same_text(name, ".") || same_text(name, "..") {
        return String::new();
    }
    let name_length = name.unicode_len();
    let dot = last_char_before(name, '.', name_length);
    proof {
        lemma_last_char_position(name@, '.', name_length as int);
    }
    if dot == name_length || dot == 0 {
        name.to_owned()
    } else {
        name.substring_char(0, dot).to_owned()
    }
}

fn environments_cover_table(table: &SymbolTable, environments: &Vec<(String, ModuleEnvironment)>) -> (covered: bool)
    ensures
        covered == environments_cover(*table, environments@),
{
    let mut position: usize = 0;
    while position < table.functions.len()
        invariant
            position <= table.functions@.len(),
            forall|p: int| 0 <= p < position ==> match #[trigger] table.functions@[p] {
                Some(definition) => match definition.kind {
                    FunctionKind::UserDefined { source_file, .. } => environment_for(environments@, source_file.path@) is Some,
                    FunctionKind::NativeFunction { .. } => true,
                },
                None => true,
            },
        decreases table.functions@.len() - position,
    {
        match &table.functions[position] {
            Some(definition) => match &definition.kind {
                FunctionKind::UserDefined { source_file, .. } => {
                    if environment_for_path(environments, source_file.path.as_str()).is_none() {
                        return false;
                    }
                },
                FunctionKind::NativeFunction { .. } => {},
            },
            None => {},
        }
        position = position + 1;
    }
    true
}

proof fn lemma_retained(items: Seq<Item>, pass: Pass)
    ensures
        retained(items, pass).len() <= items.len(),
        forall|i: int| 0 <= i < retained(items, pass).len() ==> !lowered(pass, #[trigger] retained(items, pass)[i])
            && items.contains(retained(items, pass)[i]),
    decreases items.len(),
{
    if items.len() > 0 {
        lemma_retained(items.drop_last(), pass);
        let earlier = retained(items.drop_last(), pass);
        assert forall|i: int| 0 <= i < retained(items, pass).len() implies !lowered(pass, #[trigger] retained(items, pass)[i])
            && items.contains(retained(items, pass)[i]) by {
            if i < earlier.len() {
                assert(retained(items, pass)[i] == earlier[i]);
                let k = choose|k: int| 0 <= k < items.drop_last().len() && items.drop_last()[k] == earlier[i];
                assert(items[k] == earlier[i]);
            } else {
                assert(items[items.len() - 1] == items.last());
            }
        }
    }
}

/// A symbol table as created: the reserved entries and the primitive types, nothing
/// named but the types.
pub open spec fn fresh_table(table: SymbolTable) -> bool {
    &&& table.functions@ == seq![None::<crate::symbol_table::FunctionDefinition>]
    &&& table.effects@.len() == 1 && table.effects@[0].is_builtin
    &&& table.types@.len() == 4
    &&& table.types@[0].kind == crate::types::TypeKind::Unresolved
    &&& table.types@[1].name@ == "any"@ && table.types@[1].kind == crate::types::TypeKind::Any
    &&& table.types@[2].name@ == "string"@ && table.types@[2].kind == crate::types::TypeKind::String
    &&& table.types@[3].name@ == "bool"@ && table.types@[3].kind == crate::types::TypeKind::Boolean
    &&& table.type_symbols.get("any"@) == Some(crate::types::TypeIndex(1))
    &&& table.type_symbols.get("string"@) == Some(crate::types::TypeIndex(2))
    &&& table.type_symbols.get("bool"@) == Some(crate::types::TypeIndex(3))
    &&& forall|name: Seq<char>| #[trigger] table.type_symbols.get(name) matches Some(ty) ==> 1 <= ty.0 < 4
    &&& forall|name: Seq<char>| #[trigger] table.function_symbols.get(name) is None
    &&& forall|name: Seq<char>| #[trigger] table.effect_symbols.get(name) is None
    &&& forall|name: Seq<char>| #[trigger] table.module_symbols.get(name) is None
}

/// The states resolving a script goes through, up to its resolved bodies.
pub struct ScriptStages {
    /// The table it starts from.
    pub fresh: SymbolTable,
    /// The table and diagnostics once the core module is registered.
    pub core: (SymbolTable, Seq<DiagnosticView>),
    /// The table once the script's module is added.
    pub with_module: SymbolTable,
    /// After the effect pass.
    pub effects: (SymbolTable, Seq<DiagnosticView>),
    /// After the declaration pass.
    pub declarations: (SymbolTable, Seq<DiagnosticView>),
    /// The script's imports and the diagnostics after the import pass.
    pub imports: (Map<Seq<char>, FunctionIndex>, Seq<DiagnosticView>),
    /// The diagnostics after the statements and tests are resolved.
    pub items: Seq<DiagnosticView>,
    /// The imports of each module's file.
    pub environments: Seq<(String, ModuleEnvironment)>,
    /// The user-defined functions with their bodies resolved, before effect inference.
    pub bodies: Seq<ResolvedFunction>,
    /// What resolving each body reported.
    pub reports: Seq<Seq<DiagnosticView>>,
}

/// The items of a script that the three registration passes leave.
pub open spec fn remaining_items(items: Seq<Item>) -> Seq<Item> {
    retained(retained(retained(items, Pass::Effects), Pass::Declarations), Pass::Uses)
}

/// The scope in which a script's statements and tests are resolved.
pub open spec fn script_scope(stages: ScriptStages, file: SourceFile) -> Scope {
    Scope {
        table: stages.declarations.0,
        file,
        module_name: file_stem(file.path@),
        imports: stages.imports.0,
        locals: Map::empty(),
    }
}

/// `stages` are what resolving `unit` of `file`, reporting to `context`, goes through.
pub open spec fn script_stages(
    stages: ScriptStages,
    unit: CompilationUnit,
    file: SourceFile,
    session: CompilationSession,
    context: Seq<DiagnosticView>,
) -> bool {
    let table = stages.declarations.0;
    &&& script_stages_through_items(stages, unit, file, session, context)
    &&& stages.bodies.len() == stages.reports.len()
    &&& user_defined_order(table, stages.bodies.map_values(|f: ResolvedFunction| f.function_index))
    &&& forall|i: int| 0 <= i < stages.bodies.len() ==> #[trigger] body_resolved(table, stages.environments,
        stages.bodies[i].function_index, stages.bodies[i], stages.reports[i])
}

/// `stages` are what resolving the script goes through up to the resolution of its
/// statements and tests (the bodies of functions are not looked at).
pub open spec fn script_stages_through_items(
    stages: ScriptStages,
    unit: CompilationUnit,
    file: SourceFile,
    session: CompilationSession,
    context: Seq<DiagnosticView>,
) -> bool {
    let module_name = file_stem(file.path@);
    let after_effects = retained(unit.items@, Pass::Effects);
    let after_declarations = retained(after_effects, Pass::Declarations);
    let remaining = remaining_items(unit.items@);
    let table = stages.declarations.0;
    &&& fresh_table(stages.fresh)
    &&& core_outcome((stages.fresh, context), stages.core, Ok(()), session)
    &&& fits(stages.core.0.effects@.len() as int, unit.items@.len() as int)
    &&& fits(stages.core.0.functions@.len() as int, unit.items@.len() as int)
    &&& module_added(stages.core.0, stages.with_module, module_name)
    &&& effects_registered((stages.with_module, stages.core.1), stages.effects, file, unit.items@)
    &&& declarations_registered(stages.effects, stages.declarations, file, module_name, session, after_effects)
    &&& uses_registered(table, file, module_name, (Map::empty(), stages.declarations.1), stages.imports, after_declarations)
    &&& stages.items == stages.imports.1 + items_resolved(script_scope(stages, file), remaining, remaining.len() as int).1
    &&& stages.environments.len() == 2
    &&& stages.environments[0].0@ == CORE_MODULE_PATH@ && stages.environments[0].1.imports() == Map::<Seq<char>, FunctionIndex>::empty()
    &&& stages.environments[1].0@ == file.path@ && stages.environments[1].1.imports() == stages.imports.0
}

/// Resolving the script fails with `e`, at the stage that `stages` reach: the core
/// module fails to register; the declarations do not fit the tables; registering a
/// function fails (a native function without a matching registered implementation);
/// or, once the items are resolved, a table entry is found inconsistent (an internal
/// error). `found_context` is what was reported when inference ended and `inferred`
/// what it gave.
pub open spec fn script_failure(
    stages: ScriptStages,
    found_context: Seq<DiagnosticView>,
    inferred: Seq<ResolvedFunction>,
    unit: CompilationUnit,
    file: SourceFile,
    session: CompilationSession,
    context: Seq<DiagnosticView>,
    e: OcelotError,
) -> bool {
    let module_name = file_stem(file.path@);
    let table = stages.declarations.0;
    let found = stages.items + concatenated(stages.reports);
    let core_ok = core_outcome((stages.fresh, context), stages.core, Ok(()), session);
    let fits_tables = fits(stages.core.0.effects@.len() as int, unit.items@.len() as int)
        && fits(stages.core.0.functions@.len() as int, unit.items@.len() as int);
    &&& fresh_table(stages.fresh)
    &&& {
        ||| core_outcome((stages.fresh, context), stages.core, Err(e), session)
        ||| core_ok && !fits_tables && is_message_error(e, "internal error: too many declarations"@)
        ||| core_ok && fits_tables && module_added(stages.core.0, stages.with_module, module_name)
            && effects_registered((stages.with_module, stages.core.1), stages.effects, file, unit.items@)
            && (exists|after: (SymbolTable, Seq<DiagnosticView>)| #[trigger] declarations_outcome(stages.effects, after, Err(e),
                file, module_name, session, retained(unit.items@, Pass::Effects)))
        ||| script_stages_through_items(stages, unit, file, session, context) && !environments_cover(table, stages.environments)
            && is_message_error(e, "internal error: module imports should exist for resolved function source file"@)
        ||| script_stages(stages, unit, file, session, context) && environments_cover(table, stages.environments)
            && inference_outcome(table, stages.bodies, found, found_context, Err(e))
        ||| script_stages(stages, unit, file, session, context) && environments_cover(table, stages.environments)
            && (exists|functions: Vec<ResolvedFunction>| #[trigger] inference_outcome(table, stages.bodies, found, found_context, Ok(functions))
                && functions@ == inferred)
            && (apply_outcome(table.functions@, inferred).1 matches Some(m) && is_message_error(e, m))
    }
}

/// Resolving a script ran to its end: effects were inferred and checked, the bodies
/// written into `final_table`, and `final_context` holds every diagnostic.
pub open spec fn script_finished(
    stages: ScriptStages,
    inferred: Seq<ResolvedFunction>,
    final_table: SymbolTable,
    final_context: Seq<DiagnosticView>,
) -> bool {
    let table = stages.declarations.0;
    let report = effect_report(table, inferred, effect_nodes(inferred));
    &&& all_callees_known(effect_nodes(stages.bodies), table)
    &&& inference_settled(table, stages.bodies, inferred)
    &&& report.1 is None
    &&& final_context == stages.items + concatenated(stages.reports) + report.0
    &&& apply_outcome(table.functions@, inferred) == (final_table.functions@, None::<Seq<char>>)
    &&& final_table.function_symbols == table.function_symbols
    &&& final_table.module_symbols == table.module_symbols
    &&& final_table.effects@ == table.effects@
    &&& final_table.effect_symbols == table.effect_symbols
    &&& final_table.types@ == table.types@
    &&& final_table.type_symbols == table.type_symbols
}


/// Resolution ran to its end: it succeeded, or failed with the resolver's compilation error.
pub open spec fn ran_to_end(result: OcelotResult<()>) -> bool {
    match result {
        Ok(()) => true,
        Err(e) => e.kind == ErrorKind::CompilationError(CompilationStage::Resolver),
    }
}

/// A record of the first two stages of a script, the later ones left empty.
spec fn script_stages_from(fresh: SymbolTable, core: (SymbolTable, Seq<DiagnosticView>)) -> ScriptStages {
    ScriptStages {
        fresh,
        core,
        with_module: fresh,
        effects: core,
        declarations: core,
        imports: (Map::empty(), Seq::empty()),
        items: Seq::empty(),
        environments: Seq::empty(),
        bodies: Seq::empty(),
        reports: Seq::empty(),
    }
}

/// Resolves one script as a module of its own, named after its file, beside the core
/// module: registration, item and body resolution, and effect inference on a fresh
/// table that replaces `symbol_table` once bodies are resolved; fails with a resolver
/// compilation error when an error was reported.
pub fn resolve(
    unit: &mut CompilationUnit,
    source_file: &SourceFile,
    compilation_context: &mut CompilationContext,
    symbol_table: &mut SymbolTable,
    compilation_session: &CompilationSession,
) -> (result: OcelotResult<()>)
    requires
        addressable(*source_file),
    ensures
        ran_to_end(result) ==> exists|stages: ScriptStages, inferred: Seq<ResolvedFunction>| {
            &&& #[trigger] script_stages(stages, *old(unit), *source_file, *compilation_session, old(compilation_context)@)
            &&& #[trigger] script_finished(stages, inferred, *final(symbol_table), final(compilation_context)@)
            &&& item_views(final(unit).items@) == items_resolved(script_scope(stages, *source_file),
                remaining_items(old(unit).items@), remaining_items(old(unit).items@).len() as int).0
            &&& items_comments(final(unit).items@) == items_comments(remaining_items(old(unit).items@))
            &&& result is Ok <==> !any_error(final(compilation_context)@)
        },
        result matches Err(e) ==> (!ran_to_end(result) ==> exists|stages: ScriptStages, found_context: Seq<DiagnosticView>,
            inferred: Seq<ResolvedFunction>| #[trigger] script_failure(stages, found_context, inferred, *old(unit), *source_file,
            *compilation_session, old(compilation_context)@, e)),
{
    let mut table = SymbolTable::new();
    proof {
        assert(user_sources_addressable(table));
        assert(indexable(table));
    }
    let ghost fresh = table;
    let ghost context = compilation_context@;
    proof {
        assert(fresh_table(fresh));
    }
    match register_core_module(compilation_context, &mut table, compilation_session) {
        Ok(()) => {},
        Err(error) => {
            proof {
                let stages = script_stages_from(fresh, (table, compilation_context@));
                assert(script_failure(stages, Seq::empty(), Seq::empty(), *old(unit), *source_file, *compilation_session, context, error));
            }
            return Err(error);
        },
    }
    let ghost core = (table, compilation_context@);
    let module_name = default_module_name(source_file);
    let mut module_environment = ModuleEnvironment::new();
    if !fits_in_table(table.effects.len(), unit.items.len()) || !fits_in_table(table.functions.len(), unit.items.len()) {
        let error = OcelotError::message_str("internal error: too many declarations");
        proof {
            let stages = script_stages_from(fresh, core);
            assert(script_failure(stages, Seq::empty(), Seq::empty(), *old(unit), *source_file, *compilation_session, context, error));
        }
        return Err(error);
    }
    table.add_module(module_name.as_str());
    let ghost with_module = table;
    let ghost original = unit.items@;
    register_module_effects(unit, source_file, compilation_context, &mut table)?;
    let ghost effects = (table, compilation_context@);
    let ghost after_effects = unit.items@;
    match register_module_functions(unit, module_name.as_str(), source_file, compilation_context, &mut table, &mut module_environment,
        compilation_session) {
        Ok(()) => {},
        Err(error) => {
            proof {
                let stages = ScriptStages { with_module, effects, ..script_stages_from(fresh, core) };
                let after = (table, compilation_context@);
                assert(declarations_outcome(effects, after, Err(error), *source_file, module_name@, *compilation_session,
                    retained(original, Pass::Effects)));
                assert(script_failure(stages, Seq::empty(), Seq::empty(), *old(unit), *source_file, *compilation_session, context, error));
            }
            return Err(error);
        },
    }
    let ghost declarations = (table, compilation_context@);
    let ghost after_declarations = unit.items@;
    register_module_imports(unit, module_name.as_str(), source_file, compilation_context, &table, &mut module_environment)?;
    let ghost imports = (module_environment.imports(), compilation_context@);
    proof {
        lemma_retained(original, Pass::Effects);
        lemma_retained(after_effects, Pass::Declarations);
        lemma_retained(after_declarations, Pass::Uses);
        assert forall|i: int| 0 <= i < unit.items@.len() implies (#[trigger] unit.items@[i]).kind is Statement
            || unit.items@[i].kind is Test by {
            let x = unit.items@[i];
            assert(!lowered(Pass::Uses, x));
            let k = choose|k: int| 0 <= k < after_declarations.len() && after_declarations[k] == x;
            assert(!lowered(Pass::Declarations, after_declarations[k]));
        }
    }
    resolve_module_items(unit, module_name.as_str(), source_file, compilation_context, &table, &module_environment,
        compilation_session)?;
    let ghost items = compilation_context@;
    let mut environments: Vec<(String, ModuleEnvironment)> = Vec::new();
    environments.push((String::from_str(CORE_MODULE_PATH), ModuleEnvironment::new()));
    environments.push((source_file.path.clone(), module_environment));
    let ghost partial = ScriptStages {
        fresh,
        core,
        with_module,
        effects,
        declarations,
        imports,
        items,
        environments: environments@,
        bodies: Seq::empty(),
        reports: Seq::empty(),
    };
    proof {
        assert(core_outcome((fresh, context), core, Ok(()), *compilation_session));
        assert(script_stages_through_items(partial, *old(unit), *source_file, *compilation_session, context));
    }
    if !environments_cover_table(&table, &environments) {
        let error = OcelotError::message_str("internal error: module imports should exist for resolved function source file");
        proof {
            assert(script_failure(partial, Seq::empty(), Seq::empty(), *old(unit), *source_file, *compilation_session, context, error));
        }
        return Err(error);
    }
    let resolved = resolve_user_defined_function_definitions(compilation_context, &table, &environments,
        compilation_session);
    let ghost (bodies, reports) = choose|bodies: Seq<ResolvedFunction>, reports: Seq<Seq<DiagnosticView>>| {
        &&& bodies.len() == reports.len()
        &&& user_defined_order(table, bodies.map_values(|f: ResolvedFunction| f.function_index))
        &&& forall|i: int| 0 <= i < bodies.len() ==> #[trigger] body_resolved(table, environments@,
            bodies[i].function_index, bodies[i], reports[i])
        &&& inference_outcome(table, bodies, items + concatenated(reports), compilation_context@, resolved)
    };
    let ghost stages = ScriptStages { bodies, reports, ..partial };
    proof {
        assert(script_stages_through_items(stages, *old(unit), *source_file, *compilation_session, context));
        assert(script_stages(stages, *old(unit), *source_file, *compilation_session, context));
    }
    let resolved_functions = match resolved {
        Ok(resolved_functions) => resolved_functions,
        Err(error) => {
            proof {
                assert(script_failure(stages, compilation_context@, Seq::empty(), *old(unit), *source_file, *compilation_session,
                    context, error));
            }
            return Err(error);
        },
    };
    let ghost inferred = resolved_functions@;
    *symbol_table = table;
    match symbol_table.apply_resolved_functions(resolved_functions) {
        Ok(()) => {},
        Err(error) => {
            proof {
                assert(script_failure(stages, compilation_context@, inferred, *old(unit), *source_file, *compilation_session,
                    context, error));
            }
            return Err(error);
        },
    }
    let result = finish_resolution(compilation_context);
    proof {
        assert(script_stages(stages, *old(unit), *source_file, *compilation_session, old(compilation_context)@));
        assert(script_finished(stages, inferred, *symbol_table, compilation_context@));
    }
    result
}

// ---------------------------------------------------------------- a program of modules

/// The paths of the modules' files, in order.
pub open spec fn module_paths(modules: Seq<ParsedModule>) -> Seq<Seq<char>> {
    modules.map_values(|m: ParsedModule| m.source_file.path@)
}

/// Position of the last path equal to `path` among the first `end`, or -1.
pub open spec fn last_path_position(paths: Seq<Seq<char>>, path: Seq<char>, end: int) -> int
    decreases end,
{
    if end <= 0 {
        -1
    } else if paths[end - 1] == path {
        end - 1
    } else {
        last_path_position(paths, path, end - 1)
    }
}

proof fn lemma_last_path_position(paths: Seq<Seq<char>>, path: Seq<char>, end: int)
    requires
        0 <= end <= paths.len(),
    ensures
        -1 <= last_path_position(paths, path, end) < end,
        last_path_position(paths, path, end) >= 0 ==> paths[last_path_position(paths, path, end)] == path,
        (exists|k: int| 0 <= k < end && paths[k] == path) ==> last_path_position(paths, path, end) >= 0,
    decreases end,
{
    if end > 0 {
        lemma_last_path_position(paths, path, end - 1);
    }
}

/// Position of the imports of module `i`'s file: the last module with the same path.
pub open spec fn environment_position(modules: Seq<ParsedModule>, i: int) -> int {
    last_path_position(module_paths(modules), modules[i].source_file.path@, modules.len() as int)
}

/// The module names of a program are registered on top of `before`.
pub open spec fn modules_named(before: SymbolTable, after: SymbolTable, modules: Seq<ParsedModule>) -> bool {
    &&& forall|name: Seq<char>| #[trigger] after.module_symbols.get(name) is Some <==> (before.module_symbols.get(name) is Some
        || exists|i: int| 0 <= i < modules.len() && modules[i].module_name@ == name)
    &&& after.functions@ == before.functions@
    &&& after.function_symbols == before.function_symbols
    &&& after.effects@ == before.effects@
    &&& after.effect_symbols == before.effect_symbols
    &&& after.types@ == before.types@
    &&& after.type_symbols == before.type_symbols
}

/// The effect pass over every module in order goes through the states of `trace`.
pub open spec fn program_effect_trace(trace: Seq<(SymbolTable, Seq<DiagnosticView>)>, modules: Seq<ParsedModule>) -> bool {
    &&& trace.len() == modules.len() + 1
    &&& forall|i: int| 0 <= i < modules.len() ==> effects_registered(trace[i], trace[i + 1], modules[i].source_file,
        (#[trigger] modules[i]).compilation_unit.items@)
}

/// The declaration pass over every module in order goes through the states of `trace`.
pub open spec fn program_declaration_trace(
    trace: Seq<(SymbolTable, Seq<DiagnosticView>)>,
    modules: Seq<ParsedModule>,
    session: CompilationSession,
) -> bool {
    &&& trace.len() == modules.len() + 1
    &&& forall|i: int| 0 <= i < modules.len() ==> declarations_registered(trace[i], trace[i + 1], modules[i].source_file,
        modules[i].module_name@, session, retained((#[trigger] modules[i]).compilation_unit.items@, Pass::Effects))
}

/// The import pass over every module in order goes through the states of `trace`: the
/// imports of each file's last module, and the diagnostics.
pub open spec fn program_import_trace(
    trace: Seq<(Seq<Map<Seq<char>, FunctionIndex>>, Seq<DiagnosticView>)>,
    table: SymbolTable,
    modules: Seq<ParsedModule>,
) -> bool {
    &&& trace.len() == modules.len() + 1
    &&& forall|i: int| 0 <= i <= modules.len() ==> (#[trigger] trace[i]).0.len() == modules.len()
    &&& forall|i: int| 0 <= i < modules.len() ==> {
        let module = #[trigger] modules[i];
        let p = environment_position(modules, i);
        &&& uses_registered(table, module.source_file, module.module_name@, (trace[i].0[p], trace[i].1),
            (trace[i + 1].0[p], trace[i + 1].1),
            retained(retained(module.compilation_unit.items@, Pass::Effects), Pass::Declarations))
        &&& trace[i + 1].0 == trace[i].0.update(p, trace[i + 1].0[p])
    }
}

/// The scope of module `i` once every import is registered.
pub open spec fn module_scope(table: SymbolTable, modules: Seq<ParsedModule>, imports: Seq<Map<Seq<char>, FunctionIndex>>, i: int) -> Scope {
    Scope {
        table,
        file: modules[i].source_file,
        module_name: modules[i].module_name@,
        imports: imports[environment_position(modules, i)],
        locals: Map::empty(),
    }
}

/// Resolving the statements and tests of every module in order goes through the
/// diagnostics of `trace`.
pub open spec fn program_item_trace(
    trace: Seq<Seq<DiagnosticView>>,
    table: SymbolTable,
    modules: Seq<ParsedModule>,
    imports: Seq<Map<Seq<char>, FunctionIndex>>,
) -> bool {
    &&& trace.len() == modules.len() + 1
    &&& forall|i: int| 0 <= i < modules.len() ==> {
        let remaining = remaining_items((#[trigger] modules[i]).compilation_unit.items@);
        trace[i + 1] == trace[i] + items_resolved(module_scope(table, modules, imports, i), remaining, remaining.len() as int).1
    }
}

/// The states resolving a program goes through, up to its resolved bodies.
pub struct ProgramStages {
    pub fresh: SymbolTable,
    /// After the core module, unless a module is named `core`.
    pub core: (SymbolTable, Seq<DiagnosticView>),
    /// The diagnostics after the modules are validated.
    pub validated: Seq<DiagnosticView>,
    /// The table once every module name is registered.
    pub named: SymbolTable,
    pub effects: Seq<(SymbolTable, Seq<DiagnosticView>)>,
    pub declarations: Seq<(SymbolTable, Seq<DiagnosticView>)>,
    pub imports: Seq<(Seq<Map<Seq<char>, FunctionIndex>>, Seq<DiagnosticView>)>,
    pub items: Seq<Seq<DiagnosticView>>,
    pub environments: Seq<(String, ModuleEnvironment)>,
    pub bodies: Seq<ResolvedFunction>,
    pub reports: Seq<Seq<DiagnosticView>>,
}

/// `stages` are what resolving `modules` goes through.
pub open spec fn program_stages(stages: ProgramStages, modules: Seq<ParsedModule>, session: CompilationSession) -> bool {
    let table = stages.declarations[modules.len() as int].0;
    &&& stages_through_items(stages, modules, session)
    &&& stages.bodies.len() == stages.reports.len()
    &&& user_defined_order(table, stages.bodies.map_values(|f: ResolvedFunction| f.function_index))
    &&& forall|i: int| 0 <= i < stages.bodies.len() ==> #[trigger] body_resolved(table, stages.environments,
        stages.bodies[i].function_index, stages.bodies[i], stages.reports[i])
}

/// `stages` are what resolving `modules` goes through up to the resolution of their
/// items (the bodies of functions are not looked at).
pub open spec fn stages_through_items(stages: ProgramStages, modules: Seq<ParsedModule>, session: CompilationSession) -> bool {
    let n = modules.len() as int;
    let has_core = exists|i: int| 0 <= i < n && modules[i].module_name@ == CORE_MODULE_NAME@;
    let table = stages.declarations[n].0;
    &&& fresh_table(stages.fresh)
    &&& if has_core { stages.core == (stages.fresh, Seq::<DiagnosticView>::empty()) } else {
        core_outcome((stages.fresh, Seq::empty()), stages.core, Ok(()), session)
    }
    &&& stages.validated == stages.core.1 + validation_report(modules)
    &&& modules_named(stages.core.0, stages.named, modules)
    &&& program_effect_trace(stages.effects, modules)
    &&& stages.effects[0] == (stages.named, stages.validated)
    &&& program_declaration_trace(stages.declarations, modules, session)
    &&& stages.declarations[0] == stages.effects[n]
    &&& program_import_trace(stages.imports, table, modules)
    &&& stages.imports[0] == (Seq::new(n as nat, |k: int| Map::<Seq<char>, FunctionIndex>::empty()), stages.declarations[n].1)
    &&& program_item_trace(stages.items, table, modules, stages.imports[n].0)
    &&& stages.items[0] == stages.imports[n].1
    &&& stages.environments.len() == n
    &&& forall|k: int| 0 <= k < n ==> (#[trigger] stages.environments[k]).0@ == modules[k].source_file.path@
        && stages.environments[k].1.imports() == stages.imports[n].0[k]
}

/// The declaration pass over the modules failed with `e` in the module after the last
/// state of `stages.declarations`, every module before it registered.
pub open spec fn declarations_failed(stages: ProgramStages, modules: Seq<ParsedModule>, session: CompilationSession, e: OcelotError) -> bool {
    let n = modules.len() as int;
    let k = stages.declarations.len() - 1;
    &&& 0 <= k < n
    &&& stages.validated == stages.core.1 + validation_report(modules)
    &&& modules_named(stages.core.0, stages.named, modules)
    &&& program_effect_trace(stages.effects, modules)
    &&& stages.effects[0] == (stages.named, stages.validated)
    &&& stages.declarations[0] == stages.effects[n]
    &&& forall|i: int| 0 <= i < k ==> declarations_registered(stages.declarations[i], stages.declarations[i + 1],
        modules[i].source_file, modules[i].module_name@, session, retained((#[trigger] modules[i]).compilation_unit.items@, Pass::Effects))
    &&& exists|after: (SymbolTable, Seq<DiagnosticView>)| #[trigger] declarations_outcome(stages.declarations[k], after, Err(e),
        modules[k].source_file, modules[k].module_name@, session, retained(modules[k].compilation_unit.items@, Pass::Effects))
}

/// Resolving `modules` fails with `e`, at the stage that `stages` reach: the core module
/// fails to register; the declarations do not fit the tables; registering a function
/// fails (a native function of module `core` without a matching registered
/// implementation); or, once the items are resolved, a table entry is found
/// inconsistent (an internal error). `context` is what was reported when inference
/// ended and `inferred` what it gave.
pub open spec fn program_failure(
    stages: ProgramStages,
    context: Seq<DiagnosticView>,
    inferred: Seq<ResolvedFunction>,
    modules: Seq<ParsedModule>,
    session: CompilationSession,
    e: OcelotError,
) -> bool {
    let n = modules.len() as int;
    let has_core = exists|i: int| 0 <= i < n && modules[i].module_name@ == CORE_MODULE_NAME@;
    let total = item_total(modules, n);
    let core_ok = if has_core { stages.core == (stages.fresh, Seq::<DiagnosticView>::empty()) } else {
        core_outcome((stages.fresh, Seq::empty()), stages.core, Ok(()), session)
    };
    let fits_tables = total < 0xffff_fffe && fits(stages.core.0.effects@.len() as int, total)
        && fits(stages.core.0.functions@.len() as int, total);
    let table = stages.declarations[n].0;
    let found = stages.items[n] + concatenated(stages.reports);
    &&& fresh_table(stages.fresh)
    &&& {
        ||| !has_core && core_outcome((stages.fresh, Seq::empty()), stages.core, Err(e), session)
        ||| core_ok && !fits_tables && is_message_error(e, "internal error: too many declarations"@)
        ||| core_ok && fits_tables && declarations_failed(stages, modules, session, e)
        ||| stages_through_items(stages, modules, session) && !environments_cover(table, stages.environments)
            && is_message_error(e, "internal error: module imports should exist for resolved function source file"@)
        ||| program_stages(stages, modules, session) && environments_cover(table, stages.environments)
            && inference_outcome(table, stages.bodies, found, context, Err(e))
        ||| program_stages(stages, modules, session) && environments_cover(table, stages.environments)
            && (exists|functions: Vec<ResolvedFunction>| #[trigger] inference_outcome(table, stages.bodies, found, context, Ok(functions))
                && functions@ == inferred)
            && (apply_outcome(table.functions@, inferred).1 matches Some(m) && is_message_error(e, m))
    }
}

/// `after` is module `before` with other items.
pub open spec fn same_module(before: ParsedModule, after: ParsedModule) -> bool {
    &&& after.module_name@ == before.module_name@
    &&& after.kind == before.kind
    &&& after.source_file == before.source_file
    &&& after.compilation_unit.span == before.compilation_unit.span
    &&& after.compilation_unit.trivia == before.compilation_unit.trivia
}

/// Number of items of the first `count` modules.
pub open spec fn item_total(modules: Seq<ParsedModule>, count: int) -> int
    decreases count,
{
    if count <= 0 {
        0
    } else {
        item_total(modules, count - 1) + modules[count - 1].compilation_unit.items@.len()
    }
}

proof fn lemma_item_total(modules: Seq<ParsedModule>, count: int, end: int)
    requires
        0 <= count <= end <= modules.len(),
    ensures
        0 <= item_total(modules, count) <= item_total(modules, end),
    decreases end,
{
    if end > count {
        lemma_item_total(modules, count, end - 1);
    }
    if count > 0 {
        lemma_item_total(modules, count - 1, count - 1);
    }
}

/// The number of items of all modules, when it is below `limit`.
fn total_items(modules: &Vec<ParsedModule>, limit: usize) -> (total: Option<usize>)
    requires
        limit > 0,
    ensures
        match total {
            Some(t) => t == item_total(modules@, modules@.len() as int) && t < limit,
            None => item_total(modules@, modules@.len() as int) >= limit,
        },
{
    let mut total: usize = 0;
    let mut index: usize = 0;
    while index < modules.len()
        invariant
            index <= modules@.len(),
            total == item_total(modules@, index as int),
            total < limit,
        decreases modules@.len() - index,
    {
        let count = modules[index].compilation_unit.items.len();
        if count >= limit - total {
            proof {
                lemma_item_total(modules@, index + 1, modules@.len() as int);
            }
            return None;
        }
        total = total + count;
        index = index + 1;
    }
    Some(total)
}

fn add_module_names(table: &mut SymbolTable, modules: &Vec<ParsedModule>)
    ensures
        modules_named(*old(table), *final(table), modules@),
{
    let mut index: usize = 0;
    while index < modules.len()
        invariant
            index <= modules@.len(),
            forall|name: Seq<char>| #[trigger] table.module_symbols.get(name) is Some <==> (old(table).module_symbols.get(name) is Some
                || exists|i: int| 0 <= i < index && modules@[i].module_name@ == name),
            table.functions@ == old(table).functions@,
            table.function_symbols == old(table).function_symbols,
            table.effects@ == old(table).effects@,
            table.effect_symbols == old(table).effect_symbols,
            table.types@ == old(table).types@,
            table.type_symbols == old(table).type_symbols,
        decreases modules@.len() - index,
    {
        table.add_module(modules[index].module_name.as_str());
        proof {
            assert forall|name: Seq<char>| #[trigger] table.module_symbols.get(name) is Some <==> (old(table).module_symbols.get(name) is Some
                || exists|i: int| 0 <= i < index + 1 && modules@[i].module_name@ == name) by {
                if name == modules@[index as int].module_name@ {
                    assert(0 <= index < index + 1 && modules@[index as int].module_name@ == name);
                }
            }
        }
        index = index + 1;
    }
}

fn register_program_effects(modules: &mut Vec<ParsedModule>, compilation_context: &mut CompilationContext, table: &mut SymbolTable)
    -> (trace: Ghost<Seq<(SymbolTable, Seq<DiagnosticView>)>>)
    requires
        indexable(*old(table)),
        forall|i: int| 0 <= i < old(modules)@.len() ==> addressable(#[trigger] old(modules)@[i].source_file),
        fits(old(table).effects@.len() as int, item_total(old(modules)@, old(modules)@.len() as int)),
    ensures
        indexable(*final(table)),
        program_effect_trace(trace@, old(modules)@),
        trace@[0] == (*old(table), old(compilation_context)@),
        trace@.last() == (*final(table), final(compilation_context)@),
        final(modules)@.len() == old(modules)@.len(),
        forall|i: int| 0 <= i < old(modules)@.len() ==> same_module(old(modules)@[i], #[trigger] final(modules)@[i])
            && final(modules)@[i].compilation_unit.items@ == retained(old(modules)@[i].compilation_unit.items@, Pass::Effects),
        final(table).functions@ == old(table).functions@,
        old(table).effects@.len() <= final(table).effects@.len(),
        final(table).effects@.len() + item_total(final(modules)@, final(modules)@.len() as int)
            <= old(table).effects@.len() + item_total(old(modules)@, old(modules)@.len() as int),
{
    let ghost original = modules@;
    let ghost n = original.len() as int;
    let ghost start = (*table, compilation_context@);
    let mut remaining: Vec<ParsedModule> = Vec::new();
    std::mem::swap(&mut remaining, modules);
    let mut done: Vec<ParsedModule> = Vec::new();
    let ghost mut trace = seq![start];
    proof {
        lemma_item_total(original, 0, n);
    }
    while remaining.len() > 0
        invariant
            original == old(modules)@,
            n == original.len(),
            done@.len() <= n,
            start == (*old(table), old(compilation_context)@),
            remaining@ == original.subrange(done@.len() as int, n),
            indexable(*table),
            forall|i: int| 0 <= i < n ==> addressable(#[trigger] original[i].source_file),
            fits(start.0.effects@.len() as int, item_total(original, n)),
            trace.len() == done@.len() + 1,
            trace[0] == start,
            trace.last() == (*table, compilation_context@),
            forall|i: int| 0 <= i < done@.len() ==> effects_registered(trace[i], trace[i + 1], original[i].source_file,
                (#[trigger] original[i]).compilation_unit.items@),
            forall|i: int| 0 <= i < done@.len() ==> same_module(original[i], #[trigger] done@[i])
                && done@[i].compilation_unit.items@ == retained(original[i].compilation_unit.items@, Pass::Effects),
            table.functions@ == start.0.functions@,
            start.0.effects@.len() <= table.effects@.len(),
            table.effects@.len() + item_total(original, n) - item_total(original, done@.len() as int) + item_total(done@, done@.len() as int)
                <= start.0.effects@.len() + item_total(original, n),
            modules@.len() == 0,
        decreases remaining@.len(),
    {
        let ghost k = done@.len() as int;
        let mut module = remaining.remove(0);
        proof {
            assert(module == original[k]);
            lemma_item_total(original, k + 1, n);
            lemma_item_total(done@, k, k);
        }
        let ghost before = (*table, compilation_context@);
        let ghost old_done = done@;
        let result = register_module_effects(&mut module.compilation_unit, &module.source_file, compilation_context, table);
        let ghost now = (*table, compilation_context@);
        done.push(module);
        proof {
            lemma_item_total_prefix(done@, old_done, k);
            assert(item_total(done@, k + 1) == item_total(old_done, k) + module.compilation_unit.items@.len());
            assert(item_total(original, k + 1) == item_total(original, k) + original[k].compilation_unit.items@.len());
            trace = trace.push(now);
            assert(remaining@ =~= original.subrange(done@.len() as int, n));
        }
    }
    proof {
        assert(done@.len() == n);
    }
    *modules = done;
    Ghost(trace)
}

proof fn lemma_item_total_prefix(a: Seq<ParsedModule>, b: Seq<ParsedModule>, count: int)
    requires
        0 <= count <= a.len(),
        count <= b.len(),
        forall|i: int| 0 <= i < count ==> a[i] == b[i],
    ensures
        item_total(a, count) == item_total(b, count),
    decreases count,
{
    if count > 0 {
        lemma_item_total_prefix(a, b, count - 1);
    }
}

fn register_program_functions(
    modules: &mut Vec<ParsedModule>,
    compilation_context: &mut CompilationContext,
    table: &mut SymbolTable,
    compilation_session: &CompilationSession,
) -> (outcome: (OcelotResult<()>, Ghost<Seq<(SymbolTable, Seq<DiagnosticView>)>>))
    requires
        indexable(*old(table)),
        forall|i: int| 0 <= i < old(modules)@.len() ==> addressable(#[trigger] old(modules)@[i].source_file),
        fits(old(table).effects@.len() as int, item_total(old(modules)@, old(modules)@.len() as int)),
        fits(old(table).functions@.len() as int, item_total(old(modules)@, old(modules)@.len() as int)),
    ensures
        indexable(*final(table)),
        outcome.0 is Ok ==> {
            let trace = outcome.1@;
            &&& trace.len() == old(modules)@.len() + 1
            &&& trace[0] == (*old(table), old(compilation_context)@)
            &&& trace.last() == (*final(table), final(compilation_context)@)
            &&& forall|i: int| 0 <= i < old(modules)@.len() ==> declarations_registered(trace[i], trace[i + 1],
                old(modules)@[i].source_file, old(modules)@[i].module_name@, *compilation_session,
                (#[trigger] old(modules)@[i]).compilation_unit.items@)
            &&& final(modules)@.len() == old(modules)@.len()
            &&& forall|i: int| 0 <= i < old(modules)@.len() ==> same_module(old(modules)@[i], #[trigger] final(modules)@[i])
                && final(modules)@[i].compilation_unit.items@ == retained(old(modules)@[i].compilation_unit.items@, Pass::Declarations)
        },
        outcome.0 matches Err(e) ==> {
            let trace = outcome.1@;
            let k = trace.len() - 1;
            &&& 0 <= k < old(modules)@.len()
            &&& trace[0] == (*old(table), old(compilation_context)@)
            &&& forall|i: int| 0 <= i < k ==> declarations_registered(trace[i], trace[i + 1], old(modules)@[i].source_file,
                old(modules)@[i].module_name@, *compilation_session, (#[trigger] old(modules)@[i]).compilation_unit.items@)
            &&& declarations_outcome(trace[k], (*final(table), final(compilation_context)@), Err(e),
                old(modules)@[k].source_file, old(modules)@[k].module_name@, *compilation_session,
                old(modules)@[k].compilation_unit.items@)
        },
{
    let ghost original = modules@;
    let ghost n = original.len() as int;
    let ghost start = (*table, compilation_context@);
    let mut remaining: Vec<ParsedModule> = Vec::new();
    std::mem::swap(&mut remaining, modules);
    let mut done: Vec<ParsedModule> = Vec::new();
    let ghost mut trace = seq![start];
    proof {
        lemma_item_total(original, 0, n);
    }
    while remaining.len() > 0
        invariant
            original == old(modules)@,
            n == original.len(),
            done@.len() <= n,
            start == (*old(table), old(compilation_context)@),
            remaining@ == original.subrange(done@.len() as int, n),
            indexable(*table),
            forall|i: int| 0 <= i < n ==> addressable(#[trigger] original[i].source_file),
            fits(start.0.effects@.len() as int, item_total(original, n)),
            fits(start.0.functions@.len() as int, item_total(original, n)),
            trace.len() == done@.len() + 1,
            trace[0] == start,
            trace.last() == (*table, compilation_context@),
            forall|i: int| 0 <= i < done@.len() ==> declarations_registered(trace[i], trace[i + 1], original[i].source_file,
                original[i].module_name@, *compilation_session, (#[trigger] original[i]).compilation_unit.items@),
            forall|i: int| 0 <= i < done@.len() ==> same_module(original[i], #[trigger] done@[i])
                && done@[i].compilation_unit.items@ == retained(original[i].compilation_unit.items@, Pass::Declarations),
            table.effects@.len() <= start.0.effects@.len() + item_total(original, done@.len() as int),
            table.functions@.len() <= start.0.functions@.len() + item_total(original, done@.len() as int),
            modules@.len() == 0,
        decreases remaining@.len(),
    {
        let ghost k = done@.len() as int;
        let mut module = remaining.remove(0);
        proof {
            assert(module == original[k]);
            lemma_item_total(original, k + 1, n);
            assert(item_total(original, k + 1) == item_total(original, k) + original[k].compilation_unit.items@.len());
        }
        let mut scratch = ModuleEnvironment::new();
        let result = register_module_functions(&mut module.compilation_unit, module.module_name.as_str(), &module.source_file,
            compilation_context, table, &mut scratch, compilation_session);
        match result {
            Ok(()) => {},
            Err(error) => {
                let outcome: OcelotResult<()> = Err(error);
                return (outcome, Ghost(trace));
            },
        }
        let ghost now = (*table, compilation_context@);
        done.push(module);
        proof {
            trace = trace.push(now);
            assert(remaining@ =~= original.subrange(done@.len() as int, n));
        }
    }
    *modules = done;
    (Ok(()), Ghost(trace))
}

/// The paths of the files whose imports `environments` hold, in order.
pub open spec fn environment_paths(environments: Seq<(String, ModuleEnvironment)>) -> Seq<Seq<char>> {
    environments.map_values(|e: (String, ModuleEnvironment)| e.0@)
}

/// The imports `environments` hold, in order.
pub open spec fn environment_imports(environments: Seq<(String, ModuleEnvironment)>) -> Seq<Map<Seq<char>, FunctionIndex>> {
    environments.map_values(|e: (String, ModuleEnvironment)| e.1.imports())
}

fn environment_index(environments: &Vec<(String, ModuleEnvironment)>, path: &str) -> (position: usize)
    requires
        exists|k: int| 0 <= k < environments@.len() && environments@[k].0@ == path@,
    ensures
        position == last_path_position(environment_paths(environments@), path@, environments@.len() as int),
        position < environments@.len(),
{
    let ghost paths = environment_paths(environments@);
    proof {
        lemma_last_path_position(paths, path@, environments@.len() as int);
        let k = choose|k: int| 0 <= k < environments@.len() && environments@[k].0@ == path@;
        assert(paths[k] == path@);
    }
    let mut count = environments.len();
    while count > 0
        invariant
            count <= environments@.len(),
            paths == environment_paths(environments@),
            last_path_position(paths, path@, environments@.len() as int) == last_path_position(paths, path@, count as int),
            last_path_position(paths, path@, environments@.len() as int) >= 0,
        decreases count,
    {
        if same_text(environments[count - 1].0.as_str(), path) {
            return count - 1;
        }
        count = count - 1;
    }
    0
}

fn build_environments(modules: &Vec<ParsedModule>) -> (environments: Vec<(String, ModuleEnvironment)>)
    ensures
        environment_paths(environments@) == module_paths(modules@),
        environment_imports(environments@) == Seq::new(modules@.len(), |k: int| Map::<Seq<char>, FunctionIndex>::empty()),
{
    let mut environments: Vec<(String, ModuleEnvironment)> = Vec::new();
    let mut index: usize = 0;
    while index < modules.len()
        invariant
            index <= modules@.len(),
            environments@.len() == index,
            environment_paths(environments@) == module_paths(modules@).take(index as int),
            environment_imports(environments@) == Seq::new(index as nat, |k: int| Map::<Seq<char>, FunctionIndex>::empty()),
        decreases modules@.len() - index,
    {
        let ghost before = environments@;
        let path = modules[index].source_file.path.clone();
        let environment = ModuleEnvironment::new();
        environments.push((path, environment));
        proof {
            assert(environments@.drop_last() == before);
            assert(environments@.last().0@ == modules@[index as int].source_file.path@);
            assert(environments@.last().1.imports() == Map::<Seq<char>, FunctionIndex>::empty());
            assert forall|k: int| 0 <= k < index implies #[trigger] environment_paths(environments@)[k] == environment_paths(before)[k] by {
                assert(environments@[k] == before[k]);
            }
            assert forall|k: int| 0 <= k < index implies #[trigger] environment_imports(environments@)[k] == environment_imports(before)[k] by {
                assert(environments@[k] == before[k]);
            }
        }
        index = index + 1;
        assert(environment_paths(environments@) =~= module_paths(modules@).take(index as int));
        assert(environment_imports(environments@) =~= Seq::new(index as nat, |k: int| Map::<Seq<char>, FunctionIndex>::empty()));
    }
    assert(module_paths(modules@).take(index as int) =~= module_paths(modules@));
    environments
}

fn register_program_imports(
    modules: &mut Vec<ParsedModule>,
    compilation_context: &mut CompilationContext,
    table: &SymbolTable,
    environments: &mut Vec<(String, ModuleEnvironment)>,
) -> (trace: Ghost<Seq<(Seq<Map<Seq<char>, FunctionIndex>>, Seq<DiagnosticView>)>>)
    requires
        forall|i: int| 0 <= i < old(modules)@.len() ==> addressable(#[trigger] old(modules)@[i].source_file),
        environment_paths(old(environments)@) == module_paths(old(modules)@),
    ensures
        environment_paths(final(environments)@) == module_paths(old(modules)@),
        trace@.len() == old(modules)@.len() + 1,
        trace@[0] == (environment_imports(old(environments)@), old(compilation_context)@),
        trace@.last() == (environment_imports(final(environments)@), final(compilation_context)@),
        forall|i: int| 0 <= i <= old(modules)@.len() ==> (#[trigger] trace@[i]).0.len() == old(modules)@.len(),
        forall|i: int| 0 <= i < old(modules)@.len() ==> {
            let module = #[trigger] old(modules)@[i];
            let p = environment_position(old(modules)@, i);
            &&& uses_registered(*table, module.source_file, module.module_name@, (trace@[i].0[p], trace@[i].1),
                (trace@[i + 1].0[p], trace@[i + 1].1), module.compilation_unit.items@)
            &&& trace@[i + 1].0 == trace@[i].0.update(p, trace@[i + 1].0[p])
        },
        final(modules)@.len() == old(modules)@.len(),
        forall|i: int| 0 <= i < old(modules)@.len() ==> same_module(old(modules)@[i], #[trigger] final(modules)@[i])
            && final(modules)@[i].compilation_unit.items@ == retained(old(modules)@[i].compilation_unit.items@, Pass::Uses),
{
    let ghost original = modules@;
    let ghost n = original.len() as int;
    let ghost paths = module_paths(original);
    let ghost start = (environment_imports(environments@), compilation_context@);
    let mut remaining: Vec<ParsedModule> = Vec::new();
    std::mem::swap(&mut remaining, modules);
    let mut done: Vec<ParsedModule> = Vec::new();
    let ghost mut trace = seq![start];
    proof {
        assert(environment_paths(environments@).len() == environments@.len());
        assert(paths.len() == n);
        assert(trace[0].0.len() == n);
    }
    while remaining.len() > 0
        invariant
            original == old(modules)@,
            n == original.len(),
            paths == module_paths(original),
            done@.len() <= n,
            remaining@ == original.subrange(done@.len() as int, n),
            forall|i: int| 0 <= i < n ==> addressable(#[trigger] original[i].source_file),
            environment_paths(environments@) == paths,
            trace.len() == done@.len() + 1,
            trace[0] == start,
            start == (environment_imports(old(environments)@), old(compilation_context)@),
            trace.last() == (environment_imports(environments@), compilation_context@),
            forall|i: int| 0 <= i <= done@.len() ==> (#[trigger] trace[i]).0.len() == n,
            forall|i: int| 0 <= i < done@.len() ==> {
                let module = #[trigger] original[i];
                let p = environment_position(original, i);
                &&& uses_registered(*table, module.source_file, module.module_name@, (trace[i].0[p], trace[i].1),
                    (trace[i + 1].0[p], trace[i + 1].1), module.compilation_unit.items@)
                &&& trace[i + 1].0 == trace[i].0.update(p, trace[i + 1].0[p])
            },
            forall|i: int| 0 <= i < done@.len() ==> same_module(original[i], #[trigger] done@[i])
                && done@[i].compilation_unit.items@ == retained(original[i].compilation_unit.items@, Pass::Uses),
            modules@.len() == 0,
        decreases remaining@.len(),
    {
        let ghost k = done@.len() as int;
        let mut module = remaining.remove(0);
        proof {
            assert(module == original[k]);
            assert(paths.len() == n);
            assert(environment_paths(environments@).len() == environments@.len());
            assert(paths[k] == module.source_file.path@);
            assert(environment_paths(environments@)[k] == environments@[k].0@);
        }
        let position = environment_index(environments, module.source_file.path.as_str());
        let ghost before_imports = environment_imports(environments@);
        let ghost before_context = compilation_context@;
        let (entry_path, mut environment) = environments.remove(position);
        let ghost entry_imports = environment.imports();
        proof {
            assert(entry_imports == before_imports[position as int]);
        }
        let result = register_module_imports(&mut module.compilation_unit, module.module_name.as_str(), &module.source_file,
            compilation_context, table, &mut environment);
        let ghost after_imports = environment.imports();
        environments.insert(position, (entry_path, environment));
        proof {
            assert(environment_paths(environments@) =~= paths);
            assert(environment_imports(environments@) =~= before_imports.update(position as int, after_imports));
        }
        done.push(module);
        proof {
            let now = (environment_imports(environments@), compilation_context@);
            trace = trace.push(now);
            assert(environment_position(original, k) == position);
            assert(remaining@ =~= original.subrange(done@.len() as int, n));
        }
    }
    *modules = done;
    Ghost(trace)
}

fn resolve_program_items(
    modules: &mut Vec<ParsedModule>,
    compilation_context: &mut CompilationContext,
    table: &SymbolTable,
    environments: &Vec<(String, ModuleEnvironment)>,
    compilation_session: &CompilationSession,
) -> (trace: Ghost<Seq<Seq<DiagnosticView>>>)
    requires
        table.primitive_types_seeded(),
        forall|i: int| 0 <= i < old(modules)@.len() ==> addressable(#[trigger] old(modules)@[i].source_file),
        environment_paths(environments@) == module_paths(old(modules)@),
        forall|i: int, j: int| 0 <= i < old(modules)@.len() && 0 <= j < old(modules)@[i].compilation_unit.items@.len()
            ==> (#[trigger] old(modules)@[i].compilation_unit.items@[j]).kind is Statement
            || old(modules)@[i].compilation_unit.items@[j].kind is Test,
    ensures
        trace@.len() == old(modules)@.len() + 1,
        trace@[0] == old(compilation_context)@,
        trace@.last() == final(compilation_context)@,
        final(modules)@.len() == old(modules)@.len(),
        forall|i: int| 0 <= i < old(modules)@.len() ==> {
            let module = #[trigger] old(modules)@[i];
            let scope = Scope {
                table: *table,
                file: module.source_file,
                module_name: module.module_name@,
                imports: environment_imports(environments@)[environment_position(old(modules)@, i)],
                locals: Map::empty(),
            };
            let r = items_resolved(scope, module.compilation_unit.items@, module.compilation_unit.items@.len() as int);
            &&& trace@[i + 1] == trace@[i] + r.1
            &&& item_views(final(modules)@[i].compilation_unit.items@) == r.0
            &&& items_comments(final(modules)@[i].compilation_unit.items@) == items_comments(module.compilation_unit.items@)
            &&& same_module(module, final(modules)@[i])
        },
{
    let ghost original = modules@;
    let ghost n = original.len() as int;
    let ghost paths = module_paths(original);
    let mut remaining: Vec<ParsedModule> = Vec::new();
    std::mem::swap(&mut remaining, modules);
    let mut done: Vec<ParsedModule> = Vec::new();
    let ghost mut trace = seq![compilation_context@];
    while remaining.len() > 0
        invariant
            original == old(modules)@,
            n == original.len(),
            paths == module_paths(original),
            done@.len() <= n,
            remaining@ == original.subrange(done@.len() as int, n),
            table.primitive_types_seeded(),
            forall|i: int| 0 <= i < n ==> addressable(#[trigger] original[i].source_file),
            environment_paths(environments@) == paths,
            forall|i: int, j: int| 0 <= i < n && 0 <= j < original[i].compilation_unit.items@.len()
                ==> (#[trigger] original[i].compilation_unit.items@[j]).kind is Statement
                || original[i].compilation_unit.items@[j].kind is Test,
            trace.len() == done@.len() + 1,
            trace[0] == old(compilation_context)@,
            trace.last() == compilation_context@,
            forall|i: int| 0 <= i < done@.len() ==> {
                let module = #[trigger] original[i];
                let scope = Scope {
                    table: *table,
                    file: module.source_file,
                    module_name: module.module_name@,
                    imports: environment_imports(environments@)[environment_position(original, i)],
                    locals: Map::empty(),
                };
                let r = items_resolved(scope, module.compilation_unit.items@, module.compilation_unit.items@.len() as int);
                &&& trace[i + 1] == trace[i] + r.1
                &&& item_views(done@[i].compilation_unit.items@) == r.0
                &&& items_comments(done@[i].compilation_unit.items@) == items_comments(module.compilation_unit.items@)
                &&& same_module(module, done@[i])
            },
            modules@.len() == 0,
        decreases remaining@.len(),
    {
        let ghost k = done@.len() as int;
        let mut module = remaining.remove(0);
        proof {
            assert(module == original[k]);
            assert(paths.len() == n);
            assert(environment_paths(environments@).len() == environments@.len());
            assert(paths[k] == module.source_file.path@);
            assert(environment_paths(environments@)[k] == environments@[k].0@);
        }
        let position = environment_index(environments, module.source_file.path.as_str());
        proof {
            assert(environment_position(original, k) == position);
            assert(environment_imports(environments@)[position as int] == environments@[position as int].1.imports());
        }
        let result = resolve_module_items(&mut module.compilation_unit, module.module_name.as_str(), &module.source_file,
            compilation_context, table, &environments[position].1, compilation_session);
        done.push(module);
        proof {
            trace = trace.push(compilation_context@);
            assert(remaining@ =~= original.subrange(done@.len() as int, n));
        }
    }
    *modules = done;
    Ghost(trace)
}

/// Resolving a program ran to its end: effects were inferred and checked, the bodies
/// written into the program's table, and the program's modules hold their resolved
/// items.
pub open spec fn program_finished(
    stages: ProgramStages,
    modules: Seq<ParsedModule>,
    inferred: Seq<ResolvedFunction>,
    program: ResolvedProgram,
) -> bool {
    let n = modules.len() as int;
    let table = stages.declarations[n].0;
    let report = effect_report(table, inferred, effect_nodes(inferred));
    let final_table = program.symbol_table;
    &&& all_callees_known(effect_nodes(stages.bodies), table)
    &&& inference_settled(table, stages.bodies, inferred)
    &&& report.1 is None
    &&& program.source_diagnostics@ == stages.items[n] + concatenated(stages.reports) + report.0
    &&& apply_outcome(table.functions@, inferred) == (final_table.functions@, None::<Seq<char>>)
    &&& final_table.function_symbols == table.function_symbols
    &&& final_table.module_symbols == table.module_symbols
    &&& final_table.effects@ == table.effects@
    &&& final_table.effect_symbols == table.effect_symbols
    &&& final_table.types@ == table.types@
    &&& final_table.type_symbols == table.type_symbols
    &&& program.modules@.len() == n
    &&& forall|i: int| 0 <= i < n ==> {
        let remaining = remaining_items(modules[i].compilation_unit.items@);
        &&& same_module(modules[i], #[trigger] program.modules@[i])
        &&& item_views(program.modules@[i].compilation_unit.items@)
            == items_resolved(module_scope(table, modules, stages.imports[n].0, i), remaining, remaining.len() as int).0
        &&& items_comments(program.modules@[i].compilation_unit.items@) == items_comments(remaining)
    }
}

proof fn lemma_declaration_translation(
    trace: Seq<(SymbolTable, Seq<DiagnosticView>)>,
    original: Seq<ParsedModule>,
    lowered_modules: Seq<ParsedModule>,
    session: CompilationSession,
)
    requires
        trace.len() == original.len() + 1,
        lowered_modules.len() == original.len(),
        forall|i: int| 0 <= i < original.len() ==> same_module(original[i], #[trigger] lowered_modules[i])
            && lowered_modules[i].compilation_unit.items@ == retained(original[i].compilation_unit.items@, Pass::Effects),
        forall|i: int| 0 <= i < original.len() ==> declarations_registered(trace[i], trace[i + 1],
            lowered_modules[i].source_file, lowered_modules[i].module_name@, session,
            (#[trigger] lowered_modules[i]).compilation_unit.items@),
    ensures
        program_declaration_trace(trace, original, session),
{
    assert forall|i: int| 0 <= i < original.len() implies declarations_registered(trace[i], trace[i + 1],
        original[i].source_file, original[i].module_name@, session,
        retained((#[trigger] original[i]).compilation_unit.items@, Pass::Effects)) by {
        assert(same_module(original[i], lowered_modules[i]));
    }
}

proof fn lemma_import_translation(
    trace: Seq<(Seq<Map<Seq<char>, FunctionIndex>>, Seq<DiagnosticView>)>,
    table: SymbolTable,
    original: Seq<ParsedModule>,
    lowered_modules: Seq<ParsedModule>,
)
    requires
        trace.len() == original.len() + 1,
        lowered_modules.len() == original.len(),
        forall|i: int| 0 <= i <= original.len() ==> (#[trigger] trace[i]).0.len() == original.len(),
        forall|i: int| 0 <= i < original.len() ==> same_module(original[i], #[trigger] lowered_modules[i])
            && lowered_modules[i].compilation_unit.items@
                == retained(retained(original[i].compilation_unit.items@, Pass::Effects), Pass::Declarations),
        forall|i: int| 0 <= i < original.len() ==> {
            let module = #[trigger] lowered_modules[i];
            let p = environment_position(lowered_modules, i);
            &&& uses_registered(table, module.source_file, module.module_name@, (trace[i].0[p], trace[i].1),
                (trace[i + 1].0[p], trace[i + 1].1), module.compilation_unit.items@)
            &&& trace[i + 1].0 == trace[i].0.update(p, trace[i + 1].0[p])
        },
    ensures
        program_import_trace(trace, table, original),
{
    assert(module_paths(lowered_modules) =~= module_paths(original)) by {
        assert forall|i: int| 0 <= i < original.len() implies #[trigger] module_paths(lowered_modules)[i] == module_paths(original)[i] by {
            assert(same_module(original[i], lowered_modules[i]));
        }
    }
    assert forall|i: int| 0 <= i < original.len() implies {
        let module = #[trigger] original[i];
        let p = environment_position(original, i);
        &&& uses_registered(table, module.source_file, module.module_name@, (trace[i].0[p], trace[i].1),
            (trace[i + 1].0[p], trace[i + 1].1),
            retained(retained(module.compilation_unit.items@, Pass::Effects), Pass::Declarations))
        &&& trace[i + 1].0 == trace[i].0.update(p, trace[i + 1].0[p])
    } by {
        assert(same_module(original[i], lowered_modules[i]));
        assert(environment_position(lowered_modules, i) == environment_position(original, i));
    }
}

proof fn lemma_item_translation(
    trace: Seq<Seq<DiagnosticView>>,
    table: SymbolTable,
    original: Seq<ParsedModule>,
    lowered_modules: Seq<ParsedModule>,
    resolved_modules: Seq<ParsedModule>,
    imports: Seq<Map<Seq<char>, FunctionIndex>>,
)
    requires
        trace.len() == original.len() + 1,
        lowered_modules.len() == original.len(),
        resolved_modules.len() == original.len(),
        forall|i: int| 0 <= i < original.len() ==> same_module(original[i], #[trigger] lowered_modules[i])
            && lowered_modules[i].compilation_unit.items@ == remaining_items(original[i].compilation_unit.items@),
        forall|i: int| 0 <= i < original.len() ==> {
            let module = #[trigger] lowered_modules[i];
            let scope = Scope {
                table,
                file: module.source_file,
                module_name: module.module_name@,
                imports: imports[environment_position(lowered_modules, i)],
                locals: Map::empty(),
            };
            let r = items_resolved(scope, module.compilation_unit.items@, module.compilation_unit.items@.len() as int);
            &&& trace[i + 1] == trace[i] + r.1
            &&& item_views(resolved_modules[i].compilation_unit.items@) == r.0
            &&& items_comments(resolved_modules[i].compilation_unit.items@) == items_comments(module.compilation_unit.items@)
            &&& same_module(module, resolved_modules[i])
        },
    ensures
        program_item_trace(trace, table, original, imports),
        forall|i: int| 0 <= i < original.len() ==> {
            let remaining = remaining_items(original[i].compilation_unit.items@);
            &&& same_module(original[i], #[trigger] resolved_modules[i])
            &&& item_views(resolved_modules[i].compilation_unit.items@)
                == items_resolved(module_scope(table, original, imports, i), remaining, remaining.len() as int).0
            &&& items_comments(resolved_modules[i].compilation_unit.items@) == items_comments(remaining)
        },
{
    assert(module_paths(lowered_modules) =~= module_paths(original)) by {
        assert forall|i: int| 0 <= i < original.len() implies #[trigger] module_paths(lowered_modules)[i] == module_paths(original)[i] by {
            assert(same_module(original[i], lowered_modules[i]));
        }
    }
    assert forall|i: int| 0 <= i < original.len() implies {
        let remaining = remaining_items((#[trigger] original[i]).compilation_unit.items@);
        trace[i + 1] == trace[i] + items_resolved(module_scope(table, original, imports, i), remaining, remaining.len() as int).1
    } by {
        assert(same_module(original[i], lowered_modules[i]));
        assert(environment_position(lowered_modules, i) == environment_position(original, i));
    }
    assert forall|i: int| 0 <= i < original.len() implies {
        let remaining = remaining_items(original[i].compilation_unit.items@);
        &&& same_module(original[i], #[trigger] resolved_modules[i])
        &&& item_views(resolved_modules[i].compilation_unit.items@)
            == items_resolved(module_scope(table, original, imports, i), remaining, remaining.len() as int).0
        &&& items_comments(resolved_modules[i].compilation_unit.items@) == items_comments(remaining)
    } by {
        assert(same_module(original[i], lowered_modules[i]));
        assert(same_module(lowered_modules[i], resolved_modules[i]));
        assert(environment_position(lowered_modules, i) == environment_position(original, i));
    }
}

fn has_module_named(modules: &Vec<ParsedModule>, name: &str) -> (found: bool)
    ensures
        found == exists|i: int| 0 <= i < modules@.len() && modules@[i].module_name@ == name@,
{
    let mut index: usize = 0;
    while index < modules.len()
        invariant
            index <= modules@.len(),
            forall|i: int| 0 <= i < index ==> modules@[i].module_name@ != name@,
        decreases modules@.len() - index,
    {
        if same_text(modules[index].module_name.as_str(), name) {
            return true;
        }
        index = index + 1;
    }
    false
}

/// A record of the first two stages, the later ones left empty.
spec fn stages_from(fresh: SymbolTable, core: (SymbolTable, Seq<DiagnosticView>)) -> ProgramStages {
    ProgramStages {
        fresh,
        core,
        validated: Seq::empty(),
        named: fresh,
        effects: Seq::empty(),
        declarations: Seq::empty(),
        imports: Seq::empty(),
        items: Seq::empty(),
        environments: Seq::empty(),
        bodies: Seq::empty(),
        reports: Seq::empty(),
    }
}

/// Resolves a program of several modules together: the core module unless a module
/// takes its name, validation of the modules, then each registration pass over every
/// module in turn, item and body resolution, and effect inference; the program keeps
/// every diagnostic, which its caller inspects.
#[verifier::rlimit(40)]
pub fn resolve_program(modules: Vec<ParsedModule>, compilation_session: &CompilationSession) -> (result: OcelotResult<ResolvedProgram>)
    requires
        forall|i: int| 0 <= i < modules@.len() ==> addressable(#[trigger] modules@[i].source_file),
    ensures
        result matches Ok(program) ==> exists|stages: ProgramStages, inferred: Seq<ResolvedFunction>| {
            &&& #[trigger] program_stages(stages, modules@, *compilation_session)
            &&& #[trigger] program_finished(stages, modules@, inferred, program)
        },
        result matches Err(e) ==> exists|stages: ProgramStages, context: Seq<DiagnosticView>, inferred: Seq<ResolvedFunction>|
            #[trigger] program_failure(stages, context, inferred, modules@, *compilation_session, e),
{
    let ghost original = modules@;
    let ghost n = original.len() as int;
    let mut compilation_context = CompilationContext::default();
    let mut table = SymbolTable::new();
    proof {
        assert(user_sources_addressable(table));
        assert(indexable(table));
    }
    let ghost fresh = table;
    proof {
        assert(fresh_table(fresh));
        assert(compilation_context@ == Seq::<DiagnosticView>::empty());
    }
    if !has_module_named(&modules, CORE_MODULE_NAME) {
        match register_core_module(&mut compilation_context, &mut table, compilation_session) {
            Ok(()) => {},
            Err(error) => {
                proof {
                    let stages = stages_from(fresh, (table, compilation_context@));
                    assert(program_failure(stages, Seq::empty(), Seq::empty(), original, *compilation_session, error));
                }
                return Err(error);
            },
        }
    }
    let ghost core = (table, compilation_context@);
    let ghost has_core = exists|i: int| 0 <= i < n && original[i].module_name@ == CORE_MODULE_NAME@;
    proof {
        assert(if has_core { core == (fresh, Seq::<DiagnosticView>::empty()) } else {
            core_outcome((fresh, Seq::empty()), core, Ok(()), *compilation_session)
        });
    }
    validate_loaded_modules(&modules, &mut compilation_context);
    let ghost validated = compilation_context@;
    let total = match total_items(&modules, 0xffff_fffe) {
        Some(total) => total,
        None => {
            let error = OcelotError::message_str("internal error: too many declarations");
            proof {
                let stages = stages_from(fresh, core);
                assert(program_failure(stages, Seq::empty(), Seq::empty(), original, *compilation_session, error));
            }
            return Err(error);
        },
    };
    if !fits_in_table(table.effects.len(), total) || !fits_in_table(table.functions.len(), total) {
        let error = OcelotError::message_str("internal error: too many declarations");
        proof {
            let stages = stages_from(fresh, core);
            assert(program_failure(stages, Seq::empty(), Seq::empty(), original, *compilation_session, error));
        }
        return Err(error);
    }
    let mut environments = build_environments(&modules);
    add_module_names(&mut table, &modules);
    let ghost named = table;
    let mut loaded = modules;
    let effect_trace = register_program_effects(&mut loaded, &mut compilation_context, &mut table);
    let ghost after_effects = loaded@;
    let (outcome, declaration_trace) = register_program_functions(&mut loaded, &mut compilation_context, &mut table,
        compilation_session);
    match outcome {
        Ok(()) => {},
        Err(error) => {
            proof {
                let stages = ProgramStages {
                    fresh,
                    core,
                    validated,
                    named,
                    effects: effect_trace@,
                    declarations: declaration_trace@,
                    ..stages_from(fresh, core)
                };
                let k = declaration_trace@.len() - 1;
                assert(after_effects[k] == after_effects[k]);
                assert(same_module(original[k], after_effects[k]));
                assert forall|i: int| 0 <= i < k implies declarations_registered(stages.declarations[i], stages.declarations[i + 1],
                    original[i].source_file, original[i].module_name@, *compilation_session,
                    retained((#[trigger] original[i]).compilation_unit.items@, Pass::Effects)) by {
                    assert(same_module(original[i], after_effects[i]));
                    assert(declarations_registered(declaration_trace@[i], declaration_trace@[i + 1], after_effects[i].source_file,
                        after_effects[i].module_name@, *compilation_session, after_effects[i].compilation_unit.items@));
                }
                let after = (table, compilation_context@);
                assert(declarations_outcome(stages.declarations[k], after, Err(error), original[k].source_file,
                    original[k].module_name@, *compilation_session, retained(original[k].compilation_unit.items@, Pass::Effects)));
                assert(declarations_failed(stages, original, *compilation_session, error));
                assert(program_failure(stages, Seq::empty(), Seq::empty(), original, *compilation_session, error));
            }
            return Err(error);
        },
    }
    let ghost after_declarations = loaded@;
    proof {
        assert(module_paths(after_effects) =~= module_paths(original));
        assert(module_paths(after_declarations) =~= module_paths(original));
    }
    let import_trace = register_program_imports(&mut loaded, &mut compilation_context, &table, &mut environments);
    let ghost after_imports = loaded@;
    proof {
        assert forall|i: int, j: int| 0 <= i < n && 0 <= j < after_imports[i].compilation_unit.items@.len()
            implies (#[trigger] after_imports[i].compilation_unit.items@[j]).kind is Statement
            || after_imports[i].compilation_unit.items@[j].kind is Test by {
            let x = after_imports[i].compilation_unit.items@[j];
            lemma_retained(after_declarations[i].compilation_unit.items@, Pass::Uses);
            lemma_retained(after_effects[i].compilation_unit.items@, Pass::Declarations);
            assert(!lowered(Pass::Uses, x));
            let d = after_declarations[i].compilation_unit.items@;
            let k = choose|k: int| 0 <= k < d.len() && d[k] == x;
            assert(!lowered(Pass::Declarations, d[k]));
        }
        assert(module_paths(after_imports) =~= module_paths(original));
    }
    let item_trace = resolve_program_items(&mut loaded, &mut compilation_context, &table, &environments, compilation_session);
    let ghost items = compilation_context@;
    let ghost declared = table;
    let ghost partial = ProgramStages {
        fresh,
        core,
        validated,
        named,
        effects: effect_trace@,
        declarations: declaration_trace@,
        imports: import_trace@,
        items: item_trace@,
        environments: environments@,
        bodies: Seq::empty(),
        reports: Seq::empty(),
    };
    proof {
        assert(declaration_trace@[n].0 == declared);
        assert forall|i: int| 0 <= i < n implies same_module(original[i], #[trigger] after_declarations[i])
            && after_declarations[i].compilation_unit.items@
                == retained(retained(original[i].compilation_unit.items@, Pass::Effects), Pass::Declarations) by {
            assert(same_module(original[i], after_effects[i]));
            assert(same_module(after_effects[i], after_declarations[i]));
        }
        assert forall|i: int| 0 <= i < n implies same_module(original[i], #[trigger] after_imports[i])
            && after_imports[i].compilation_unit.items@ == remaining_items(original[i].compilation_unit.items@) by {
            assert(same_module(original[i], after_declarations[i]));
            assert(same_module(after_declarations[i], after_imports[i]));
        }
        lemma_declaration_translation(partial.declarations, original, after_effects, *compilation_session);
        lemma_import_translation(partial.imports, declared, original, after_declarations);
        lemma_item_translation(partial.items, declared, original, after_imports, loaded@, partial.imports[n].0);
        let has_core = exists|i: int| 0 <= i < n && original[i].module_name@ == CORE_MODULE_NAME@;
        assert(fresh_table(partial.fresh));
        assert(if has_core { partial.core == (partial.fresh, Seq::<DiagnosticView>::empty()) } else {
            core_outcome((partial.fresh, Seq::empty()), partial.core, Ok(()), *compilation_session)
        });
        assert(partial.validated == partial.core.1 + validation_report(original));
        assert(modules_named(partial.core.0, partial.named, original));
        assert(partial.effects[0] == (partial.named, partial.validated));
        assert(partial.declarations[0] == partial.effects[n]);
        assert(partial.imports[0] == (Seq::new(n as nat, |k: int| Map::<Seq<char>, FunctionIndex>::empty()), partial.declarations[n].1));
        assert(partial.items[0] == partial.imports[n].1);
        assert(partial.environments.len() == n);
        assert forall|k: int| 0 <= k < n implies (#[trigger] partial.environments[k]).0@ == original[k].source_file.path@
            && partial.environments[k].1.imports() == partial.imports[n].0[k] by {
            assert(environment_paths(environments@)[k] == environments@[k].0@);
            assert(module_paths(original)[k] == original[k].source_file.path@);
            assert(environment_imports(environments@)[k] == environments@[k].1.imports());
        }
        assert(stages_through_items(partial, original, *compilation_session));
    }
    if !environments_cover_table(&table, &environments) {
        let error = OcelotError::message_str("internal error: module imports should exist for resolved function source file");
        proof {
            assert(program_failure(partial, Seq::empty(), Seq::empty(), original, *compilation_session, error));
        }
        return Err(error);
    }
    let resolved = resolve_user_defined_function_definitions(&mut compilation_context, &table, &environments,
        compilation_session);
    let ghost (bodies, reports) = choose|bodies: Seq<ResolvedFunction>, reports: Seq<Seq<DiagnosticView>>| {
        &&& bodies.len() == reports.len()
        &&& user_defined_order(table, bodies.map_values(|f: ResolvedFunction| f.function_index))
        &&& forall|i: int| 0 <= i < bodies.len() ==> #[trigger] body_resolved(table, environments@,
            bodies[i].function_index, bodies[i], reports[i])
        &&& inference_outcome(table, bodies, items + concatenated(reports), compilation_context@, resolved)
    };
    let ghost stages = ProgramStages { bodies, reports, ..partial };
    proof {
        assert(stages_through_items(stages, original, *compilation_session));
        assert(program_stages(stages, original, *compilation_session));
    }
    let resolved_functions = match resolved {
        Ok(resolved_functions) => resolved_functions,
        Err(error) => {
            proof {
                assert(program_failure(stages, compilation_context@, Seq::empty(), original, *compilation_session, error));
            }
            return Err(error);
        },
    };
    let ghost inferred = resolved_functions@;
    match table.apply_resolved_functions(resolved_functions) {
        Ok(()) => {},
        Err(error) => {
            proof {
                assert(program_failure(stages, compilation_context@, inferred, original, *compilation_session, error));
            }
            return Err(error);
        },
    }
    let program = ResolvedProgram::new(loaded, compilation_context.source_diagnostics, table);
    proof {
        assert(user_defined_order(declared, stages.bodies.map_values(|f: ResolvedFunction| f.function_index)));
        assert(program_stages(stages, original, *compilation_session));
        assert(program_finished(stages, original, inferred, program));
        assert(exists|stages: ProgramStages, inferred: Seq<ResolvedFunction>| {
            &&& #[trigger] program_stages(stages, original, *compilation_session)
            &&& #[trigger] program_finished(stages, original, inferred, program)
        });
    }
    let result: OcelotResult<ResolvedProgram> = Ok(program);
    proof {
        assert(result matches Ok(p) && p == program);
    }
    result
}

} // verus!

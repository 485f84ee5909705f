use vstd::prelude::*;
use crate::span::Span;
use crate::source_file::SourceFile;
use crate::types::{EffectIndex, FunctionIndex, TypeIndex, TypeKind};
use crate::text::{concat2, concat3, concat5, same_text};
use crate::diagnostic::{DiagnosticView, ExcerptView};
use crate::compilation_context::CompilationContext;
use crate::compilation_session::CompilationSession;
use crate::name_table::NameTable;
use crate::index_set::IndexSet;
use crate::ast::{
    CompilationUnit, EffectItem, FunctionEffectClause, FunctionItem, FunctionParameter, Identifier,
    Item, ItemKind, UseItem, joined_names,
};
use crate::native_function::{NativeFunction, native_type_label, type_kind_label};
use crate::symbol_table::{Effect, FunctionDefinition, FunctionKind, SymbolTable, qualified_name};
use crate::module_environment::ModuleEnvironment;
use crate::error::{OcelotError, OcelotResult, is_message_error};
use crate::resolver::diagnostics::{
    addressable, source_diagnostic_for_span, source_excerpt_for_span, span_diagnostic, span_excerpt,
};
use crate::resolver::effect_propagation::user_sources_addressable;

verus! {

/// Two source files with the same path and text.
pub open spec fn same_file(a: SourceFile, b: SourceFile) -> bool {
    a.path@ == b.path@ && a.source@ == b.source@
}

/// What registering declarations relies on in the table: names point at entries,
/// declared effects remember where they were declared, and source files are measured
/// in `usize` offsets.
pub open spec fn indexable(table: SymbolTable) -> bool {
    &&& table.types@.len() >= 1
    &&& table.functions@.len() <= u32::MAX
    &&& table.effects@.len() <= u32::MAX
    &&& table.primitive_types_seeded()
    &&& forall|name: Seq<char>| #[trigger] table.type_symbols.get(name) matches Some(ty) ==> ty.0 < table.types@.len()
    &&& forall|name: Seq<char>| #[trigger] table.effect_symbols.get(name) matches Some(e) ==> e.0 < table.effects@.len()
    &&& forall|i: int| 0 <= i < table.effects@.len() && !(#[trigger] table.effects@[i]).is_builtin ==> {
        &&& table.effects@[i].source_file matches Some(f) && addressable(f)
        &&& table.effects@[i].declaration_span is Some
    }
    &&& forall|name: Seq<char>| #[trigger] table.function_symbols.get(name) matches Some(f) ==> table.definition_at(f) is Some
    &&& user_sources_addressable(table)
}

pub open spec fn file_diagnostic(file: SourceFile, message: Seq<char>, span: Span, annotation: Seq<char>) -> DiagnosticView {
    span_diagnostic(file.path@, file.bytes(), message, span, annotation)
}

pub open spec fn with_excerpt(diagnostic: DiagnosticView, excerpt: ExcerptView) -> DiagnosticView {
    DiagnosticView { excerpts: diagnostic.excerpts.push(excerpt), ..diagnostic }
}

pub open spec fn file_excerpt(file: SourceFile, span: Span, annotation: Seq<char>) -> ExcerptView {
    span_excerpt(file.path@, file.bytes(), span, annotation)
}

// ---------------------------------------------------------------- effects

/// The diagnostic for an effect declared again, if it was.
pub open spec fn effect_conflict(table: SymbolTable, file: SourceFile, item: EffectItem) -> Option<DiagnosticView> {
    let name = item.identifier.name@;
    let span = item.identifier.span;
    match table.effect_symbols.get(name) {
        None => None,
        Some(index) => {
            let existing = table.effects@[index.0 as int];
            Some(if existing.is_builtin {
                file_diagnostic(file, "effect `"@ + name + "` conflicts with builtin effect"@, span, "duplicate effect"@)
            } else {
                with_excerpt(
                    file_diagnostic(file, "duplicate effect `"@ + name + "`"@, span, "duplicate effect"@),
                    file_excerpt(existing.source_file->Some_0, existing.declaration_span->Some_0, "already defined here"@),
                )
            })
        },
    }
}

/// `after` is `before` with one more effect, declared in `file` at `span` under `name`.
pub open spec fn effect_added(before: SymbolTable, after: SymbolTable, name: Seq<char>, span: Span, file: SourceFile) -> bool {
    let added = after.effects@.last();
    &&& after.effects@.len() == before.effects@.len() + 1
    &&& after.effects@.drop_last() == before.effects@
    &&& added.name@ == name && !added.is_builtin && added.declaration_span == Some(span)
    &&& added.source_file matches Some(f) && same_file(f, file)
    &&& after.effect_symbols.map() == before.effect_symbols.map().insert(name, EffectIndex(before.effects@.len() as u32))
    &&& after.functions@ == before.functions@
    &&& after.function_symbols == before.function_symbols
    &&& after.module_symbols == before.module_symbols
    &&& after.types@ == before.types@
    &&& after.type_symbols == before.type_symbols
}

/// Registering one item of the effect pass: an effect is added or reported as a
/// duplicate; other items change nothing.
pub open spec fn effect_step(before: (SymbolTable, Seq<DiagnosticView>), after: (SymbolTable, Seq<DiagnosticView>), file: SourceFile, item: Item) -> bool {
    match item.kind {
        ItemKind::Effect(effect) => match effect_conflict(before.0, file, effect) {
            Some(diagnostic) => after.0 == before.0 && after.1 == before.1.push(diagnostic),
            None => effect_added(before.0, after.0, effect.identifier.name@, effect.identifier.span, file) && after.1 == before.1,
        },
        _ => after == before,
    }
}

/// `trace` lists the states the effect pass goes through over `items`, one step per item.
pub open spec fn effect_trace(trace: Seq<(SymbolTable, Seq<DiagnosticView>)>, file: SourceFile, items: Seq<Item>) -> bool {
    &&& trace.len() == items.len() + 1
    &&& forall|i: int| 0 <= i < items.len() ==> effect_step(trace[i], trace[i + 1], file, #[trigger] items[i])
}

/// The effect pass over `items` in order leads from `before` to `after`.
pub open spec fn effects_registered(before: (SymbolTable, Seq<DiagnosticView>), after: (SymbolTable, Seq<DiagnosticView>), file: SourceFile, items: Seq<Item>) -> bool {
    exists|trace: Seq<(SymbolTable, Seq<DiagnosticView>)>| #[trigger] effect_trace(trace, file, items) && trace[0] == before && trace.last() == after
}

/// The three registration passes over a module's items.
pub enum Pass {
    Effects,
    Declarations,
    Uses,
}

/// Whether `pass` lowers `item` out of the item list.
pub open spec fn lowered(pass: Pass, item: Item) -> bool {
    match pass {
        Pass::Effects => is_effect_item(item),
        Pass::Declarations => is_declaration_item(item),
        Pass::Uses => is_use_item(item),
    }
}

/// The items that `pass` does not lower, in order.
pub open spec fn retained(items: Seq<Item>, pass: Pass) -> Seq<Item>
    decreases items.len(),
{
    if items.len() == 0 {
        Seq::empty()
    } else if lowered(pass, items.last()) {
        retained(items.drop_last(), pass)
    } else {
        retained(items.drop_last(), pass).push(items.last())
    }
}

pub open spec fn is_effect_item(item: Item) -> bool {
    item.kind is Effect
}

pub open spec fn is_declaration_item(item: Item) -> bool {
    item.kind is Effect || item.kind is Function
}

pub open spec fn is_use_item(item: Item) -> bool {
    item.kind is Use
}

// ---------------------------------------------------------------- functions

/// The effect a clause names, with the diagnostic when no effect has that name.
pub open spec fn clause_effects(table: SymbolTable, file: SourceFile, clause: Option<FunctionEffectClause>) -> (Set<u32>, Seq<DiagnosticView>) {
    match clause {
        None => (Set::empty(), Seq::empty()),
        Some(c) => match table.effect_symbols.get(c.effect.name@) {
            None => (
                Set::empty(),
                seq![file_diagnostic(file, "unknown effect `"@ + c.effect.name@ + "`"@, c.effect.span, "unknown effect"@)],
            ),
            Some(e) => (Set::empty().insert(e.0), Seq::empty()),
        },
    }
}

/// Position of the last parameter before position `i` named `name`, or -1.
pub open spec fn last_named(parameters: Seq<FunctionParameter>, i: int, name: Seq<char>) -> int
    decreases i,
{
    if i <= 0 {
        -1
    } else if parameters[i - 1].identifier.name@ == name {
        i - 1
    } else {
        last_named(parameters, i - 1, name)
    }
}

proof fn lemma_last_named(parameters: Seq<FunctionParameter>, i: int, name: Seq<char>)
    requires
        0 <= i,
    ensures
        -1 <= last_named(parameters, i, name) < i,
        last_named(parameters, i, name) >= 0 ==> parameters[last_named(parameters, i, name)].identifier.name@ == name,
    decreases i,
{
    if i > 0 {
        lemma_last_named(parameters, i - 1, name);
    }
}

/// `result` failed with `message`, or succeeded where there is none.
pub open spec fn failed_with(result: OcelotResult<()>, message: Option<Seq<char>>) -> bool {
    match message {
        None => result is Ok,
        Some(m) => result is Err && is_message_error(result->Err_0, m),
    }
}

/// A diagnostic for every parameter named like an earlier one, pointing at the
/// closest earlier one.
pub open spec fn duplicate_parameter_diagnostics(file: SourceFile, parameters: Seq<FunctionParameter>, count: int) -> Seq<DiagnosticView>
    decreases count,
{
    if count <= 0 {
        Seq::empty()
    } else {
        let i = count - 1;
        let earlier = duplicate_parameter_diagnostics(file, parameters, i);
        let parameter = parameters[i];
        let previous = last_named(parameters, i, parameter.identifier.name@);
        if previous < 0 {
            earlier
        } else {
            earlier.push(with_excerpt(
                file_diagnostic(file, "duplicate parameter `"@ + parameter.identifier.name@ + "`"@, parameter.identifier.span,
                    "duplicate parameter"@),
                file_excerpt(file, parameters[previous].identifier.span, "already defined here"@),
            ))
        }
    }
}

/// The type of one parameter, with the diagnostic when the type is unknown, or is
/// `any` outside a native function.
pub open spec fn parameter_type(table: SymbolTable, file: SourceFile, parameter: FunctionParameter, is_native: bool) -> (TypeIndex, Seq<DiagnosticView>) {
    let declared_type = parameter.type_identifier;
    match table.type_symbols.get(declared_type.name@) {
        None => (TypeIndex(0), seq![file_diagnostic(file, "unknown type `"@ + declared_type.name@ + "`"@, declared_type.span, "unknown type"@)]),
        Some(ty) => if !is_native && Some(ty) == table.type_symbols.get("any"@) {
            (TypeIndex(0), seq![file_diagnostic(file, "`any` may only be used in native function signatures"@, declared_type.span,
                "`any` is only allowed here for native functions"@)])
        } else {
            (ty, Seq::empty())
        },
    }
}

/// The types of the first `count` parameters and their diagnostics, in order.
pub open spec fn parameter_types_of(table: SymbolTable, file: SourceFile, parameters: Seq<FunctionParameter>, is_native: bool, count: int) -> (Seq<TypeIndex>, Seq<DiagnosticView>)
    decreases count,
{
    if count <= 0 {
        (Seq::empty(), Seq::empty())
    } else {
        let earlier = parameter_types_of(table, file, parameters, is_native, count - 1);
        let last = parameter_type(table, file, parameters[count - 1], is_native);
        (earlier.0.push(last.0), earlier.1 + last.1)
    }
}

/// The argument kinds a native implementation takes.
pub open spec fn native_argument_kinds(function: NativeFunction) -> Seq<TypeKind> {
    match function {
        NativeFunction::Println(_) => seq![TypeKind::Any],
        NativeFunction::Assert(_) => seq![TypeKind::Boolean],
        NativeFunction::AssertEq(_) => seq![TypeKind::Any, TypeKind::Any],
    }
}

/// Position of the first declared parameter type whose kind differs from the
/// implementation's, among the first `count`, or -1.
pub open spec fn first_kind_mismatch(table: SymbolTable, declared: Seq<TypeIndex>, expected: Seq<TypeKind>, count: int) -> int
    decreases count,
{
    if count <= 0 {
        -1
    } else {
        let earlier = first_kind_mismatch(table, declared, expected, count - 1);
        if earlier >= 0 {
            earlier
        } else if table.types@[declared[count - 1].0 as int].kind != expected[count - 1] {
            count - 1
        } else {
            -1
        }
    }
}

/// What registering one function does.
pub enum FunctionAction {
    /// Nothing is added (a duplicate, or a native function outside `core`).
    Keep,
    /// A native function with these argument types and effects is added.
    AddNative { native_function: NativeFunction, argument_types: Seq<TypeIndex>, can_effects: Set<u32>, cannot_effects: Set<u32> },
    /// The user-defined function, its parameters typed, is added with these effects.
    AddUser { argument_types: Seq<TypeIndex>, can_effects: Set<u32>, cannot_effects: Set<u32> },
    /// Registration stops with an internal error carrying this message.
    Fail(Seq<char>),
}

/// The diagnostics registering a function reports, in order, and what it does.
pub struct FunctionPlan {
    pub diagnostics: Seq<DiagnosticView>,
    pub action: FunctionAction,
}

pub open spec fn function_plan(
    table: SymbolTable,
    file: SourceFile,
    module_name: Seq<char>,
    session: CompilationSession,
    function: FunctionItem,
) -> FunctionPlan {
    let name = function.identifier.name@;
    let span = function.identifier.span;
    let qualified = qualified_name(module_name, name);
    match table.function_symbols.get(qualified) {
        Some(index) => {
            let existing = table.definition_at(index)->Some_0;
            FunctionPlan {
                diagnostics: seq![match existing.kind {
                    FunctionKind::UserDefined { function: original, source_file } => with_excerpt(
                        file_diagnostic(file, "duplicate function `"@ + name + "`"@, span, "duplicate function"@),
                        file_excerpt(*source_file, original.identifier.span, "already defined here"@),
                    ),
                    FunctionKind::NativeFunction { .. } => file_diagnostic(file,
                        "function `"@ + name + "` conflicts with native function"@, span, "duplicate function"@),
                }],
                action: FunctionAction::Keep,
            }
        },
        None => {
            let can = clause_effects(table, file, function.can_clause);
            let cannot = clause_effects(table, file, function.cannot_clause);
            let parameters = function.parameters@;
            let typed = parameter_types_of(table, file, parameters, function.is_native, parameters.len() as int);
            let diagnostics = can.1 + cannot.1 + duplicate_parameter_diagnostics(file, parameters, parameters.len() as int) + typed.1;
            if !function.is_native {
                FunctionPlan {
                    diagnostics,
                    action: FunctionAction::AddUser { argument_types: typed.0, can_effects: can.0, cannot_effects: cannot.0 },
                }
            } else if module_name != "core"@ {
                FunctionPlan {
                    diagnostics: diagnostics.push(file_diagnostic(file, "native functions may only be declared in `core`"@, span,
                        "only allowed in `core`"@)),
                    action: FunctionAction::Keep,
                }
            } else {
                match session.registry().registered(qualified) {
                    None => FunctionPlan {
                        diagnostics,
                        action: FunctionAction::Fail("internal error: native function `"@ + qualified + "` has no registered implementation"@),
                    },
                    Some(native_function) => {
                        let expected = native_argument_kinds(native_function);
                        if expected.len() != typed.0.len() {
                            FunctionPlan {
                                diagnostics,
                                action: FunctionAction::Fail("internal error: native function `"@ + qualified
                                    + "` declaration does not match its registered signature"@),
                            }
                        } else {
                            let mismatch = first_kind_mismatch(table, typed.0, expected, expected.len() as int);
                            if mismatch >= 0 {
                                FunctionPlan {
                                    diagnostics,
                                    action: FunctionAction::Fail("internal error: native function `"@ + qualified + "` declaration type `"@
                                        + table.types@[typed.0[mismatch].0 as int].name@ + "` does not match registered type `"@
                                        + type_kind_label(expected[mismatch]) + "`"@),
                                }
                            } else {
                                FunctionPlan {
                                    diagnostics,
                                    action: FunctionAction::AddNative {
                                        native_function,
                                        argument_types: typed.0,
                                        can_effects: can.0,
                                        cannot_effects: cannot.0,
                                    },
                                }
                            }
                        }
                    },
                }
            }
        },
    }
}

/// `after` is `before` with `definition` appended under its name.
pub open spec fn function_added(before: SymbolTable, after: SymbolTable, definition: FunctionDefinition) -> bool {
    &&& after.functions@ == before.functions@.push(Some(definition))
    &&& after.function_symbols.map() == before.function_symbols.map().insert(definition.name@, FunctionIndex(before.functions@.len() as u32))
    &&& after.module_symbols == before.module_symbols
    &&& after.effects@ == before.effects@
    &&& after.effect_symbols == before.effect_symbols
    &&& after.types@ == before.types@
    &&& after.type_symbols == before.type_symbols
}

/// The common fields of a definition registered for `function` in module `module_name`.
pub open spec fn declared_as(definition: FunctionDefinition, module_name: Seq<char>, function: FunctionItem, argument_types: Seq<TypeIndex>, can_effects: Set<u32>, cannot_effects: Set<u32>) -> bool {
    &&& definition.name@ == qualified_name(module_name, function.identifier.name@)
    &&& definition.module_name@ == module_name
    &&& definition.argument_types@ == argument_types
    &&& definition.can_effects@ == can_effects
    &&& definition.cannot_effects@ == cannot_effects
    &&& definition.direct_effects@ == can_effects
    &&& definition.inferred_effects@ == can_effects
    &&& definition.direct_effect_sources.entries().len() == 0
    &&& definition.called_functions.entries().len() == 0
}

/// `stored` is `function` with its parameters typed by `argument_types`.
pub open spec fn typed_function(stored: FunctionItem, function: FunctionItem, argument_types: Seq<TypeIndex>) -> bool {
    &&& stored.parameters@.len() == function.parameters@.len()
    &&& forall|i: int| 0 <= i < function.parameters@.len() ==> #[trigger] stored.parameters@[i]
        == (FunctionParameter { ty: argument_types[i], ..function.parameters@[i] })
    &&& stored.identifier == function.identifier
    &&& stored.can_clause == function.can_clause
    &&& stored.cannot_clause == function.cannot_clause
    &&& stored.body == function.body
    &&& stored.span == function.span
    &&& stored.is_native == function.is_native
}

/// Registering one function declared in `file` leads from `before` to `after`.
pub open spec fn function_registered(
    before: (SymbolTable, Seq<DiagnosticView>),
    after: (SymbolTable, Seq<DiagnosticView>),
    result: OcelotResult<()>,
    file: SourceFile,
    module_name: Seq<char>,
    session: CompilationSession,
    function: FunctionItem,
) -> bool {
    let plan = function_plan(before.0, file, module_name, session, function);
    &&& after.1 == before.1 + plan.diagnostics
    &&& match plan.action {
        FunctionAction::Keep => after.0 == before.0 && result is Ok,
        FunctionAction::Fail(message) => after.0 == before.0 && result is Err && is_message_error(result->Err_0, message),
        FunctionAction::AddNative { native_function, argument_types, can_effects, cannot_effects } => {
            let definition = after.0.functions@.last()->Some_0;
            &&& result is Ok
            &&& function_added(before.0, after.0, definition)
            &&& declared_as(definition, module_name, function, argument_types, can_effects, cannot_effects)
            &&& definition.can_clause_span is None && definition.cannot_clause_span is None
            &&& definition.kind == (FunctionKind::NativeFunction { native_function })
        },
        FunctionAction::AddUser { argument_types, can_effects, cannot_effects } => {
            let definition = after.0.functions@.last()->Some_0;
            &&& result is Ok
            &&& function_added(before.0, after.0, definition)
            &&& declared_as(definition, module_name, function, argument_types, can_effects, cannot_effects)
            &&& definition.can_clause_span == match function.can_clause { Some(c) => Some(c.span), None => None::<Span> }
            &&& definition.cannot_clause_span == match function.cannot_clause { Some(c) => Some(c.span), None => None::<Span> }
            &&& definition.kind matches FunctionKind::UserDefined { function: stored, source_file }
                && typed_function(*stored, function, argument_types) && same_file(*source_file, file)
        },
    }
}

/// One item of the declaration pass: effects and functions are registered, other
/// items change nothing.
pub open spec fn declaration_step(
    before: (SymbolTable, Seq<DiagnosticView>),
    after: (SymbolTable, Seq<DiagnosticView>),
    result: OcelotResult<()>,
    file: SourceFile,
    module_name: Seq<char>,
    session: CompilationSession,
    item: Item,
) -> bool {
    match item.kind {
        ItemKind::Function(function) => function_registered(before, after, result, file, module_name, session, function),
        ItemKind::Effect(_) => effect_step(before, after, file, item) && result is Ok,
        _ => after == before && result is Ok,
    }
}

/// `trace` lists the states the declaration pass goes through over `items`, one
/// successful step per item.
pub open spec fn declaration_trace(
    trace: Seq<(SymbolTable, Seq<DiagnosticView>)>,
    file: SourceFile,
    module_name: Seq<char>,
    session: CompilationSession,
    items: Seq<Item>,
) -> bool {
    &&& trace.len() == items.len() + 1
    &&& forall|i: int| 0 <= i < items.len() ==> declaration_step(trace[i], trace[i + 1], Ok(()), file, module_name, session,
        #[trigger] items[i])
}

/// The declaration pass over `items` in order, without failure, leads from `before` to `after`.
pub open spec fn declarations_registered(
    before: (SymbolTable, Seq<DiagnosticView>),
    after: (SymbolTable, Seq<DiagnosticView>),
    file: SourceFile,
    module_name: Seq<char>,
    session: CompilationSession,
    items: Seq<Item>,
) -> bool {
    exists|trace: Seq<(SymbolTable, Seq<DiagnosticView>)>| #[trigger] declaration_trace(trace, file, module_name, session, items) && trace[0] == before
        && trace.last() == after
}

/// The declaration pass over `items` leads from `before` to `after` with `result`:
/// without failure it registers every item; an internal error stops it at the item
/// that failed.
pub open spec fn declarations_outcome(
    before: (SymbolTable, Seq<DiagnosticView>),
    after: (SymbolTable, Seq<DiagnosticView>),
    result: OcelotResult<()>,
    file: SourceFile,
    module_name: Seq<char>,
    session: CompilationSession,
    items: Seq<Item>,
) -> bool {
    match result {
        Ok(()) => declarations_registered(before, after, file, module_name, session, items),
        Err(_) => exists|done: int, middle: (SymbolTable, Seq<DiagnosticView>)| {
            &&& 0 <= done < items.len()
            &&& #[trigger] declarations_registered(before, middle, file, module_name, session, items.take(done))
            &&& declaration_step(middle, after, result, file, module_name, session, items[done])
        },
    }
}

// ---------------------------------------------------------------- imports

/// Importing one name of `module`: the import, or the diagnostic that refuses it.
pub open spec fn import_step(
    table: SymbolTable,
    file: SourceFile,
    module_name: Seq<char>,
    imported_module: Seq<char>,
    before: (Map<Seq<char>, FunctionIndex>, Seq<DiagnosticView>),
    after: (Map<Seq<char>, FunctionIndex>, Seq<DiagnosticView>),
    name: Identifier,
) -> bool {
    let local = name.name@;
    let refusal = |message: Seq<char>, annotation: Seq<char>| after == (before.0, before.1.push(file_diagnostic(file, message, name.span, annotation)));
    match table.function_symbols.get(qualified_name(imported_module, local)) {
        None => refusal("module `"@ + imported_module + "` has no function `"@ + local + "`"@, "unknown function"@),
        Some(index) => if table.function_symbols.get(qualified_name(module_name, local)) is Some {
            refusal("imported function `"@ + local + "` conflicts with local function `"@ + module_name + "`"@, "conflicting import"@)
        } else if before.0.contains_key(local) {
            refusal("duplicate import `"@ + local + "`"@, "duplicate import"@)
        } else {
            after == (before.0.insert(local, index), before.1)
        },
    }
}

/// `trace` lists the states importing `names` goes through, one step per name.
pub open spec fn import_trace(
    trace: Seq<(Map<Seq<char>, FunctionIndex>, Seq<DiagnosticView>)>,
    table: SymbolTable,
    file: SourceFile,
    module_name: Seq<char>,
    imported_module: Seq<char>,
    names: Seq<Identifier>,
) -> bool {
    &&& trace.len() == names.len() + 1
    &&& forall|i: int| 0 <= i < names.len() ==> import_step(table, file, module_name, imported_module, trace[i], trace[i + 1],
        #[trigger] names[i])
}

/// Importing `names` in order leads from `before` to `after`.
pub open spec fn names_imported(
    table: SymbolTable,
    file: SourceFile,
    module_name: Seq<char>,
    imported_module: Seq<char>,
    before: (Map<Seq<char>, FunctionIndex>, Seq<DiagnosticView>),
    after: (Map<Seq<char>, FunctionIndex>, Seq<DiagnosticView>),
    names: Seq<Identifier>,
) -> bool {
    exists|trace: Seq<(Map<Seq<char>, FunctionIndex>, Seq<DiagnosticView>)>| #[trigger] import_trace(trace, table, file, module_name, imported_module, names)
        && trace[0] == before && trace.last() == after
}

/// Registering one `use` item: the names of a known module are imported; a `use`
/// of an unknown module is reported.
pub open spec fn use_item_registered(
    table: SymbolTable,
    file: SourceFile,
    module_name: Seq<char>,
    before: (Map<Seq<char>, FunctionIndex>, Seq<DiagnosticView>),
    after: (Map<Seq<char>, FunctionIndex>, Seq<DiagnosticView>),
    use_item: UseItem,
) -> bool {
    let segments = use_item.imported_module.segments@;
    let imported_module = joined_names(segments);
    if table.module_symbols.get(imported_module) is None {
        let span = if segments.len() == 0 { Span { start: 0, end: 0 } } else { Span { start: segments[0].span.start, end: segments.last().span.end } };
        after == (before.0, before.1.push(file_diagnostic(file, "unknown module `"@ + imported_module + "`"@, span, "unknown module"@)))
    } else {
        names_imported(table, file, module_name, imported_module, before, after, use_item.imported_names@)
    }
}

/// One item of the import pass: `use` items are registered, other items change nothing.
pub open spec fn use_step(
    table: SymbolTable,
    file: SourceFile,
    module_name: Seq<char>,
    before: (Map<Seq<char>, FunctionIndex>, Seq<DiagnosticView>),
    after: (Map<Seq<char>, FunctionIndex>, Seq<DiagnosticView>),
    item: Item,
) -> bool {
    match item.kind {
        ItemKind::Use(use_item) => use_item_registered(table, file, module_name, before, after, use_item),
        _ => after == before,
    }
}

/// `trace` lists the states the import pass goes through over `items`, one step per item.
pub open spec fn use_trace(
    trace: Seq<(Map<Seq<char>, FunctionIndex>, Seq<DiagnosticView>)>,
    table: SymbolTable,
    file: SourceFile,
    module_name: Seq<char>,
    items: Seq<Item>,
) -> bool {
    &&& trace.len() == items.len() + 1
    &&& forall|i: int| 0 <= i < items.len() ==> use_step(table, file, module_name, trace[i], trace[i + 1], #[trigger] items[i])
}

/// The import pass over `items` in order leads from `before` to `after`.
pub open spec fn uses_registered(
    table: SymbolTable,
    file: SourceFile,
    module_name: Seq<char>,
    before: (Map<Seq<char>, FunctionIndex>, Seq<DiagnosticView>),
    after: (Map<Seq<char>, FunctionIndex>, Seq<DiagnosticView>),
    items: Seq<Item>,
) -> bool {
    exists|trace: Seq<(Map<Seq<char>, FunctionIndex>, Seq<DiagnosticView>)>| #[trigger] use_trace(trace, table, file, module_name, items) && trace[0] == before
        && trace.last() == after
}

// ---------------------------------------------------------------- the indexer

/// Registers the declarations of one module's items in the symbol table: effects,
/// functions and imports, each in a pass of its own that lowers its items out of the
/// item list.
pub struct DeclarationIndexer<'a> {
    source_file: &'a SourceFile,
    module_name: &'a str,
    compilation_session: &'a CompilationSession,
}

impl<'a> DeclarationIndexer<'a> {
    /// The file whose items are registered.
    pub closed spec fn file(&self) -> SourceFile {
        *self.source_file
    }

    /// The name of the module the items belong to.
    pub closed spec fn module(&self) -> Seq<char> {
        self.module_name@
    }

    /// The session that provides native implementations.
    pub closed spec fn session(&self) -> CompilationSession {
        *self.compilation_session
    }

    /// Creates an indexer for the items of `source_file`, declared in module `module_name`.
    pub fn new(source_file: &'a SourceFile, module_name: &'a str, compilation_session: &'a CompilationSession) -> (indexer: DeclarationIndexer<'a>)
        ensures
            indexer.file() == *source_file,
            indexer.module() == module_name@,
            indexer.session() == *compilation_session,
    {
        DeclarationIndexer { source_file, module_name, compilation_session }
    }

    fn add_diagnostic(&self, compilation_context: &mut CompilationContext, message: String, span: Span, annotation: &str)
        requires
            addressable(self.file()),
        ensures
            final(compilation_context)@ == old(compilation_context)@.push(file_diagnostic(self.file(), message@, span, annotation@)),
    {
        let diagnostic = source_diagnostic_for_span(self.source_file, message, span, String::from_str(annotation));
        compilation_context.add_diagnostic(diagnostic);
    }

    fn register_effect_item(&self, compilation_context: &mut CompilationContext, table: &mut SymbolTable, effect_item: EffectItem)
        requires
            indexable(*old(table)),
            addressable(self.file()),
            old(table).effects@.len() + 1 < u32::MAX,
        ensures
            indexable(*final(table)),
            match effect_conflict(*old(table), self.file(), effect_item) {
                Some(diagnostic) => *final(table) == *old(table) && final(compilation_context)@ == old(compilation_context)@.push(diagnostic),
                None => effect_added(*old(table), *final(table), effect_item.identifier.name@, effect_item.identifier.span, self.file())
                    && final(compilation_context)@ == old(compilation_context)@,
            },
            final(table).effects@.len() <= old(table).effects@.len() + 1,
            final(table).functions@ == old(table).functions@,
    {
        let span = effect_item.identifier.span;
        match table.resolve_effect(effect_item.identifier.name.as_str()) {
            Some(effect_index) => {
                let existing = match table.effect_definition(effect_index) {
                    Ok(existing) => existing,
                    Err(_) => return,
                };
                if existing.is_builtin {
                    let message = concat3("effect `", effect_item.identifier.name.as_str(), "` conflicts with builtin effect");
                    self.add_diagnostic(compilation_context, message, span, "duplicate effect");
                    return;
                }
                let excerpt = match (&existing.source_file, existing.declaration_span) {
                    (Some(original_file), Some(original_span)) => source_excerpt_for_span(original_file, original_span,
                        String::from_str("already defined here")),
                    _ => return,
                };
                let message = concat3("duplicate effect `", effect_item.identifier.name.as_str(), "`");
                let diagnostic = source_diagnostic_for_span(self.source_file, message, span, String::from_str("duplicate effect"))
                    .with_excerpt(excerpt);
                compilation_context.add_diagnostic(diagnostic);
            },
            None => {
                let ghost before = *table;
                let ghost name = effect_item.identifier.name@;
                table.add_effect(Effect::declared(effect_item.identifier.name, span, self.source_file.duplicate()));
                proof {
                    assert(table.effect_symbols.map() =~= before.effect_symbols.map().insert(name, EffectIndex(before.effects@.len() as u32)));
                    assert(table.effects@.drop_last() =~= before.effects@);
                    assert forall|p: int| 0 <= p < table.functions@.len() implies match #[trigger] table.functions@[p] {
                        Some(definition) => match definition.kind {
                            FunctionKind::UserDefined { source_file, .. } => addressable(*source_file),
                            FunctionKind::NativeFunction { .. } => true,
                        },
                        None => true,
                    } by {
                        assert(table.functions@[p] == before.functions@[p]);
                    }
                }
            },
        }
    }

    /// The effect pass: registers every `effect` item in order and removes the effect
    /// items from the item list.
    pub fn register_effect_items(&self, compilation_context: &mut CompilationContext, table: &mut SymbolTable, unit: &mut CompilationUnit)
        requires
            indexable(*old(table)),
            addressable(self.file()),
            old(table).effects@.len() + old(unit).items@.len() + 1 < u32::MAX,
        ensures
            indexable(*final(table)),
            effects_registered((*old(table), old(compilation_context)@), (*final(table), final(compilation_context)@), self.file(),
                old(unit).items@),
            final(unit).items@ == retained(old(unit).items@, Pass::Effects),
            final(unit).span == old(unit).span,
            final(unit).trivia == old(unit).trivia,
            final(table).effects@.len() <= old(table).effects@.len() + old(unit).items@.len(),
            old(table).effects@.len() <= final(table).effects@.len(),
            final(table).effects@.len() + final(unit).items@.len() <= old(table).effects@.len() + old(unit).items@.len(),
            final(table).functions@ == old(table).functions@,
    {
        let mut items: Vec<Item> = Vec::new();
        std::mem::swap(&mut items, &mut unit.items);
        let ghost original = items@;
        let ghost start = (*table, compilation_context@);
        let mut kept: Vec<Item> = Vec::new();
        let ghost mut done: int = 0;
        let ghost mut trace = seq![start];
        while items.len() > 0
            invariant
                0 <= done <= original.len(),
                items@ == original.subrange(done, original.len() as int),
                indexable(*table),
                addressable(self.file()),
                effect_trace(trace, self.file(), original.take(done)),
                trace[0] == start,
                trace.last() == (*table, compilation_context@),
                kept@ == retained(original.take(done), Pass::Effects),
                table.effects@.len() <= start.0.effects@.len() + done,
                start.0.effects@.len() <= table.effects@.len(),
                table.effects@.len() + kept@.len() <= start.0.effects@.len() + done,
                table.functions@ == start.0.functions@,
                start.0.effects@.len() + original.len() + 1 < u32::MAX,
            decreases items.len(),
        {
            let ghost before = (*table, compilation_context@);
            let item = items.remove(0);
            proof {
                assert(item == original[done]);
                assert(original.take(done + 1).drop_last() =~= original.take(done));
                assert(original.take(done + 1).last() == original[done]);
            }
            match item.kind {
                ItemKind::Effect(effect_item) => {
                    self.register_effect_item(compilation_context, table, effect_item);
                },
                _ => {
                    kept.push(item);
                },
            }
            proof {
                let now = (*table, compilation_context@);
                let prefix = original.take(done + 1);
                assert(effect_step(before, now, self.file(), original[done]));
                let next = trace.push(now);
                assert forall|i: int| 0 <= i < prefix.len() implies effect_step(next[i], next[i + 1], self.file(), #[trigger] prefix[i]) by {
                    if i < done {
                        assert(prefix[i] == original.take(done)[i]);
                    }
                }
                trace = next;
                done = done + 1;
                assert(items@ =~= original.subrange(done, original.len() as int));
            }
        }
        proof {
            assert(original.take(done) =~= original);
            assert(effect_trace(trace, self.file(), original));
        }
        unit.items = kept;
    }

    fn resolve_effect_clause(&self, compilation_context: &mut CompilationContext, table: &SymbolTable, clause: &Option<FunctionEffectClause>) -> (effects: IndexSet)
        requires
            addressable(self.file()),
        ensures
            effects@ == clause_effects(*table, self.file(), *clause).0,
            final(compilation_context)@ == old(compilation_context)@ + clause_effects(*table, self.file(), *clause).1,
    {
        match clause {
            None => {
                assert(old(compilation_context)@ + Seq::<DiagnosticView>::empty() =~= old(compilation_context)@);
                IndexSet::new()
            },
            Some(clause) => match table.resolve_effect(clause.effect.name.as_str()) {
                None => {
                    let message = concat3("unknown effect `", clause.effect.name.as_str(), "`");
                    self.add_diagnostic(compilation_context, message, clause.effect.span, "unknown effect");
                    assert(compilation_context@ =~= old(compilation_context)@ + clause_effects(*table, self.file(), Some(*clause)).1);
                    IndexSet::new()
                },
                Some(effect_index) => {
                    assert(old(compilation_context)@ + Seq::<DiagnosticView>::empty() =~= old(compilation_context)@);
                    let effects = IndexSet::singleton(effect_index.0);
                    assert(effects@ =~= Set::<u32>::empty().insert(effect_index.0));
                    effects
                },
            },
        }
    }

    fn report_duplicate_parameters(&self, compilation_context: &mut CompilationContext, parameters: &Vec<FunctionParameter>)
        requires
            addressable(self.file()),
        ensures
            final(compilation_context)@ == old(compilation_context)@
                + duplicate_parameter_diagnostics(self.file(), parameters@, parameters@.len() as int),
    {
        let mut seen: NameTable<usize> = NameTable::new();
        let mut index: usize = 0;
        assert(old(compilation_context)@ + Seq::<DiagnosticView>::empty() =~= old(compilation_context)@);
        while index < parameters.len()
            invariant
                index <= parameters@.len(),
                addressable(self.file()),
                forall|name: Seq<char>| #[trigger] seen.get(name) == if last_named(parameters@, index as int, name) >= 0 {
                    Some(last_named(parameters@, index as int, name) as usize)
                } else {
                    None::<usize>
                },
                compilation_context@ == old(compilation_context)@
                    + duplicate_parameter_diagnostics(self.file(), parameters@, index as int),
            decreases parameters@.len() - index,
        {
            let parameter = &parameters[index];
            let ghost name = parameter.identifier.name@;
            let ghost before = compilation_context@;
            proof {
                lemma_last_named(parameters@, index as int, name);
            }
            match seen.get_value(parameter.identifier.name.as_str()) {
                Some(previous) => {
                    let message = concat3("duplicate parameter `", parameter.identifier.name.as_str(), "`");
                    let excerpt = source_excerpt_for_span(self.source_file, parameters[previous].identifier.span,
                        String::from_str("already defined here"));
                    let diagnostic = source_diagnostic_for_span(self.source_file, message, parameter.identifier.span,
                        String::from_str("duplicate parameter")).with_excerpt(excerpt);
                    compilation_context.add_diagnostic(diagnostic);
                },
                None => {},
            }
            seen.insert(parameter.identifier.name.clone(), index);
            proof {
                assert(compilation_context@ =~= old(compilation_context)@
                    + duplicate_parameter_diagnostics(self.file(), parameters@, index + 1));
                assert forall|other: Seq<char>| #[trigger] seen.get(other) == if last_named(parameters@, index + 1, other) >= 0 {
                    Some(last_named(parameters@, index + 1, other) as usize)
                } else {
                    None::<usize>
                } by {
                    lemma_last_named(parameters@, index as int, other);
                }
            }
            index = index + 1;
        }
    }

    fn resolve_function_parameter_types(
        &self,
        compilation_context: &mut CompilationContext,
        table: &SymbolTable,
        function_item: &mut FunctionItem,
    ) -> (argument_types: Vec<TypeIndex>)
        requires
            indexable(*table),
            addressable(self.file()),
        ensures
            ({
                let typed = parameter_types_of(*table, self.file(), old(function_item).parameters@, old(function_item).is_native,
                    old(function_item).parameters@.len() as int);
                &&& argument_types@ == typed.0
                &&& final(compilation_context)@ == old(compilation_context)@ + typed.1
            }),
            typed_function(*final(function_item), *old(function_item), argument_types@),
            forall|i: int| 0 <= i < argument_types@.len() ==> (#[trigger] argument_types@[i]).0 < table.types@.len(),
    {
        let ghost original = function_item.parameters@;
        let ghost is_native = function_item.is_native;
        let mut argument_types: Vec<TypeIndex> = Vec::new();
        let mut index: usize = 0;
        assert(old(compilation_context)@ + Seq::<DiagnosticView>::empty() =~= old(compilation_context)@);
        while index < function_item.parameters.len()
            invariant
                index <= original.len(),
                indexable(*table),
                addressable(self.file()),
                function_item.parameters@.len() == original.len(),
                argument_types@.len() == index,
                function_item.identifier == old(function_item).identifier,
                function_item.can_clause == old(function_item).can_clause,
                function_item.cannot_clause == old(function_item).cannot_clause,
                function_item.body == old(function_item).body,
                function_item.span == old(function_item).span,
                function_item.is_native == is_native,
                forall|j: int| index <= j < original.len() ==> function_item.parameters@[j] == original[j],
                forall|j: int| 0 <= j < index ==> #[trigger] function_item.parameters@[j]
                    == (FunctionParameter { ty: argument_types@[j], ..original[j] }),
                argument_types@ == parameter_types_of(*table, self.file(), original, is_native, index as int).0,
                compilation_context@ == old(compilation_context)@ + parameter_types_of(*table, self.file(), original, is_native, index as int).1,
                forall|j: int| 0 <= j < argument_types@.len() ==> (#[trigger] argument_types@[j]).0 < table.types@.len(),
            decreases original.len() - index,
        {
            let declared_name = function_item.parameters[index].type_identifier.name.clone();
            let declared_span = function_item.parameters[index].type_identifier.span;
            let ghost before = compilation_context@;
            let ty = match table.resolve_type(declared_name.as_str()) {
                None => {
                    let message = concat3("unknown type `", declared_name.as_str(), "`");
                    self.add_diagnostic(compilation_context, message, declared_span, "unknown type");
                    TypeIndex::unresolved()
                },
                Some(ty) => {
                    if !function_item.is_native && ty == table.any_type_index() {
                        self.add_diagnostic(compilation_context, String::from_str("`any` may only be used in native function signatures"),
                            declared_span, "`any` is only allowed here for native functions");
                        TypeIndex::unresolved()
                    } else {
                        ty
                    }
                },
            };
            function_item.parameters[index].ty = ty;
            argument_types.push(ty);
            proof {
                let step = parameter_type(*table, self.file(), original[index as int], is_native);
                assert(ty == step.0);
                assert(compilation_context@ == before + step.1);
                assert(compilation_context@ =~= old(compilation_context)@
                    + parameter_types_of(*table, self.file(), original, is_native, index + 1).1);
            }
            index = index + 1;
        }
        argument_types
    }

    #[verifier::loop_isolation(false)]
    fn register_function_item(&self, compilation_context: &mut CompilationContext, table: &mut SymbolTable, function_item: FunctionItem) -> (result: OcelotResult<()>)
        requires
            indexable(*old(table)),
            addressable(self.file()),
            old(table).functions@.len() + 1 < u32::MAX,
        ensures
            indexable(*final(table)),
            function_registered((*old(table), old(compilation_context)@), (*final(table), final(compilation_context)@), result,
                self.file(), self.module(), self.session(), function_item),
            final(table).functions@.len() <= old(table).functions@.len() + 1,
            final(table).effects@ == old(table).effects@,
    {
        let ghost original = function_item;
        let ghost start = compilation_context@;
        let span = function_item.identifier.span;
        let qualified = table.qualify_function_name(self.module_name, function_item.identifier.name.as_str());
        match table.resolve_function_exact(qualified.as_str()) {
            Some(function_index) => {
                let diagnostic = match table.function_definition(function_index) {
                    Ok(existing) => match &existing.kind {
                        FunctionKind::UserDefined { function, source_file } => {
                            proof {
                                assert(table.functions@[function_index.0 as int] == Some(*existing));
                            }
                            let message = concat3("duplicate function `", function_item.identifier.name.as_str(), "`");
                            let excerpt = source_excerpt_for_span(source_file, function.identifier.span,
                                String::from_str("already defined here"));
                            source_diagnostic_for_span(self.source_file, message, span, String::from_str("duplicate function"))
                                .with_excerpt(excerpt)
                        },
                        FunctionKind::NativeFunction { .. } => {
                            let message = concat3("function `", function_item.identifier.name.as_str(), "` conflicts with native function");
                            source_diagnostic_for_span(self.source_file, message, span, String::from_str("duplicate function"))
                        },
                    },
                    Err(error) => return Err(error),
                };
                compilation_context.add_diagnostic(diagnostic);
                proof {
                    assert(compilation_context@ =~= start + function_plan(*old(table), self.file(), self.module(), self.session(),
                        original).diagnostics);
                }
                return Ok(());
            },
            None => {},
        }
        let can_effects = self.resolve_effect_clause(compilation_context, table, &function_item.can_clause);
        let cannot_effects = self.resolve_effect_clause(compilation_context, table, &function_item.cannot_clause);
        let mut function_item = function_item;
        self.report_duplicate_parameters(compilation_context, &function_item.parameters);
        let argument_types = self.resolve_function_parameter_types(compilation_context, table, &mut function_item);
        let ghost plan = function_plan(*old(table), self.file(), self.module(), self.session(), original);
        proof {
            let can = clause_effects(*old(table), self.file(), original.can_clause);
            let cannot = clause_effects(*old(table), self.file(), original.cannot_clause);
            let parameters = original.parameters@;
            let typed = parameter_types_of(*old(table), self.file(), parameters, original.is_native, parameters.len() as int);
            assert(compilation_context@ =~= start + (can.1 + cannot.1 + duplicate_parameter_diagnostics(self.file(), parameters,
                parameters.len() as int) + typed.1));
        }
        if function_item.is_native {
            if !same_text(self.module_name, "core") {
                self.add_diagnostic(compilation_context, String::from_str("native functions may only be declared in `core`"), span,
                    "only allowed in `core`");
                proof {
                    assert(compilation_context@ =~= start + plan.diagnostics);
                }
                return Ok(());
            }
            let native_function = match self.compilation_session.native_function_registry().resolve(qualified.as_str()) {
                Some(native_function) => native_function,
                None => {
                    return Err(OcelotError::message(concat3("internal error: native function `", qualified.as_str(),
                        "` has no registered implementation")));
                },
            };
            let signature = native_function.signature();
            if signature.argument_types.len() != argument_types.len() {
                return Err(OcelotError::message(concat3("internal error: native function `", qualified.as_str(),
                    "` declaration does not match its registered signature")));
            }
            let ghost expected = native_argument_kinds(native_function);
            assert(signature.argument_types@ == expected);
            let mut index: usize = 0;
            while index < argument_types.len()
                invariant
                    index <= argument_types@.len(),
                    argument_types@.len() == expected.len(),
                    signature.argument_types@ == expected,
                    forall|i: int| 0 <= i < argument_types@.len() ==> (#[trigger] argument_types@[i]).0 < table.types@.len(),
                    first_kind_mismatch(*table, argument_types@, expected, index as int) == -1,
                decreases argument_types@.len() - index,
            {
                let declared = argument_types[index];
                let declared_type = match table.type_definition(declared) {
                    Ok(declared_type) => declared_type,
                    Err(error) => return Err(error),
                };
                if declared_type.kind != signature.argument_types[index] {
                    let label = native_type_label(signature.argument_types[index]);
                    let head = concat5("internal error: native function `", qualified.as_str(), "` declaration type `",
                        declared_type.name.as_str(), "` does not match registered type `");
                    proof {
                        assert(first_kind_mismatch(*table, argument_types@, expected, index + 1) == index);
                    }
                    return Err(OcelotError::message(concat3(head.as_str(), label.as_str(), "`")));
                }
                index = index + 1;
            }
            let ghost before = *table;
            let definition = FunctionDefinition::native(self.module_name, qualified.as_str(), argument_types, native_function,
                can_effects, cannot_effects);
            let ghost added = definition;
            table.add_function(definition);
            proof {
                assert(table.functions@.last() == Some(added));
                assert(table.function_symbols.map() =~= before.function_symbols.map().insert(added.name@,
                    FunctionIndex(before.functions@.len() as u32)));
                assert forall|p: int| 0 <= p < table.functions@.len() implies match #[trigger] table.functions@[p] {
                    Some(definition) => match definition.kind {
                        FunctionKind::UserDefined { source_file, .. } => addressable(*source_file),
                        FunctionKind::NativeFunction { .. } => true,
                    },
                    None => true,
                } by {
                    if p < before.functions@.len() {
                        assert(table.functions@[p] == before.functions@[p]);
                    }
                }
            }
            return Ok(());
        }
        let ghost before = *table;
        let definition = FunctionDefinition::user_defined(self.module_name, qualified, function_item, argument_types, can_effects,
            cannot_effects, self.source_file.duplicate());
        let ghost added = definition;
        table.add_function(definition);
        proof {
            assert(table.functions@.last() == Some(added));
            assert(table.function_symbols.map() =~= before.function_symbols.map().insert(added.name@,
                FunctionIndex(before.functions@.len() as u32)));
            assert forall|p: int| 0 <= p < table.functions@.len() implies match #[trigger] table.functions@[p] {
                Some(definition) => match definition.kind {
                    FunctionKind::UserDefined { source_file, .. } => addressable(*source_file),
                    FunctionKind::NativeFunction { .. } => true,
                },
                None => true,
            } by {
                if p < before.functions@.len() {
                    assert(table.functions@[p] == before.functions@[p]);
                }
            }
        }
        Ok(())
    }

    /// The declaration pass: registers every `effect` and `fn` item in order and
    /// removes them from the item list. It stops at the first internal error, with the
    /// item list left empty.
    pub fn register_function_items(&self, compilation_context: &mut CompilationContext, table: &mut SymbolTable, unit: &mut CompilationUnit)
        -> (result: OcelotResult<()>)
        requires
            indexable(*old(table)),
            addressable(self.file()),
            old(table).effects@.len() + old(unit).items@.len() + 1 < u32::MAX,
            old(table).functions@.len() + old(unit).items@.len() + 1 < u32::MAX,
        ensures
            indexable(*final(table)),
            declarations_outcome((*old(table), old(compilation_context)@), (*final(table), final(compilation_context)@), result,
                self.file(), self.module(), self.session(), old(unit).items@),
            result is Ok ==> final(unit).items@ == retained(old(unit).items@, Pass::Declarations),
            result is Err ==> final(unit).items@.len() == 0,
            final(unit).span == old(unit).span,
            final(unit).trivia == old(unit).trivia,
            final(table).functions@.len() <= old(table).functions@.len() + old(unit).items@.len(),
            final(table).effects@.len() <= old(table).effects@.len() + old(unit).items@.len(),
    {
        let mut items: Vec<Item> = Vec::new();
        std::mem::swap(&mut items, &mut unit.items);
        let ghost original = items@;
        let ghost start = (*table, compilation_context@);
        let mut kept: Vec<Item> = Vec::new();
        let ghost mut done: int = 0;
        let ghost mut trace = seq![start];
        while items.len() > 0
            invariant
                0 <= done <= original.len(),
                items@ == original.subrange(done, original.len() as int),
                indexable(*table),
                addressable(self.file()),
                original == old(unit).items@,
                start == (*old(table), old(compilation_context)@),
                declaration_trace(trace, self.file(), self.module(), self.session(), original.take(done)),
                trace[0] == start,
                trace.last() == (*table, compilation_context@),
                kept@ == retained(original.take(done), Pass::Declarations),
                table.effects@.len() <= start.0.effects@.len() + done,
                table.functions@.len() <= start.0.functions@.len() + done,
                start.0.effects@.len() + original.len() + 1 < u32::MAX,
                start.0.functions@.len() + original.len() + 1 < u32::MAX,
                unit.items@.len() == 0,
                unit.span == old(unit).span,
                unit.trivia == old(unit).trivia,
            decreases items.len(),
        {
            let ghost before = (*table, compilation_context@);
            let item = items.remove(0);
            proof {
                assert(item == original[done]);
                assert(original.take(done + 1).drop_last() =~= original.take(done));
                assert(original.take(done + 1).last() == original[done]);
            }
            let outcome = match item.kind {
                ItemKind::Effect(effect_item) => {
                    self.register_effect_item(compilation_context, table, effect_item);
                    Ok(())
                },
                ItemKind::Function(function_item) => self.register_function_item(compilation_context, table, function_item),
                _ => {
                    kept.push(item);
                    Ok(())
                },
            };
            let ghost now = (*table, compilation_context@);
            proof {
                assert(declaration_step(before, now, outcome, self.file(), self.module(), self.session(), original[done]));
            }
            match outcome {
                Ok(()) => {},
                Err(error) => {
                    let result: OcelotResult<()> = Err(error);
                    proof {
                        assert(original == old(unit).items@);
                        assert(declarations_registered(start, before, self.file(), self.module(), self.session(), original.take(done)));
                        assert(declaration_step(before, now, result, self.file(), self.module(), self.session(), original[done]));
                    }
                    return result;
                },
            }
            proof {
                let prefix = original.take(done + 1);
                let next = trace.push(now);
                assert forall|i: int| 0 <= i < prefix.len() implies declaration_step(next[i], next[i + 1], Ok(()), self.file(),
                    self.module(), self.session(), #[trigger] prefix[i]) by {
                    if i < done {
                        assert(prefix[i] == original.take(done)[i]);
                    }
                }
                trace = next;
                done = done + 1;
                assert(items@ =~= original.subrange(done, original.len() as int));
            }
        }
        proof {
            assert(original.take(done) =~= original);
            assert(declaration_trace(trace, self.file(), self.module(), self.session(), original));
        }
        unit.items = kept;
        Ok(())
    }

    fn register_imported_name(
        &self,
        compilation_context: &mut CompilationContext,
        table: &SymbolTable,
        module_environment: &mut ModuleEnvironment,
        imported_module: &str,
        imported_name: Identifier,
    )
        requires
            addressable(self.file()),
        ensures
            import_step(*table, self.file(), self.module(), imported_module@,
                (old(module_environment).imports(), old(compilation_context)@),
                (final(module_environment).imports(), final(compilation_context)@), imported_name),
    {
        let local_name = imported_name.name;
        let span = imported_name.span;
        let qualified = table.qualify_function_name(imported_module, local_name.as_str());
        let function_index = match table.resolve_function_exact(qualified.as_str()) {
            Some(function_index) => function_index,
            None => {
                let message = concat5("module `", imported_module, "` has no function `", local_name.as_str(), "`");
                self.add_diagnostic(compilation_context, message, span, "unknown function");
                return;
            },
        };
        let local_qualified = table.qualify_function_name(self.module_name, local_name.as_str());
        if table.resolve_function_exact(local_qualified.as_str()).is_some() {
            let message = concat5("imported function `", local_name.as_str(), "` conflicts with local function `", self.module_name, "`");
            self.add_diagnostic(compilation_context, message, span, "conflicting import");
            return;
        }
        if module_environment.resolve_imported_function(local_name.as_str()).is_some() {
            let message = concat3("duplicate import `", local_name.as_str(), "`");
            self.add_diagnostic(compilation_context, message, span, "duplicate import");
            return;
        }
        module_environment.add_imported_function(local_name, function_index);
    }

    fn register_use_item(
        &self,
        compilation_context: &mut CompilationContext,
        table: &SymbolTable,
        module_environment: &mut ModuleEnvironment,
        use_item: UseItem,
    )
        requires
            addressable(self.file()),
        ensures
            use_item_registered(*table, self.file(), self.module(),
                (old(module_environment).imports(), old(compilation_context)@),
                (final(module_environment).imports(), final(compilation_context)@), use_item),
    {
        let imported_module = use_item.imported_module.render();
        if !table.has_module(imported_module.as_str()) {
            let message = concat3("unknown module `", imported_module.as_str(), "`");
            self.add_diagnostic(compilation_context, message, use_item.imported_module.span(), "unknown module");
            return;
        }
        let ghost names = use_item.imported_names@;
        let ghost start = (module_environment.imports(), compilation_context@);
        let mut remaining = use_item.imported_names;
        let ghost mut done: int = 0;
        let ghost mut trace = seq![start];
        while remaining.len() > 0
            invariant
                0 <= done <= names.len(),
                remaining@ == names.subrange(done, names.len() as int),
                addressable(self.file()),
                imported_module@ == joined_names(use_item.imported_module.segments@),
                import_trace(trace, *table, self.file(), self.module(), imported_module@, names.take(done)),
                trace[0] == start,
                trace.last() == (module_environment.imports(), compilation_context@),
            decreases remaining.len(),
        {
            let ghost before = (module_environment.imports(), compilation_context@);
            let imported_name = remaining.remove(0);
            proof {
                assert(imported_name == names[done]);
            }
            self.register_imported_name(compilation_context, table, module_environment, imported_module.as_str(), imported_name);
            proof {
                let now = (module_environment.imports(), compilation_context@);
                let prefix = names.take(done + 1);
                assert(import_step(*table, self.file(), self.module(), imported_module@, before, now, names[done]));
                let next = trace.push(now);
                assert forall|i: int| 0 <= i < prefix.len() implies import_step(*table, self.file(), self.module(), imported_module@,
                    next[i], next[i + 1], #[trigger] prefix[i]) by {
                    if i < done {
                        assert(prefix[i] == names.take(done)[i]);
                    }
                }
                trace = next;
                done = done + 1;
                assert(remaining@ =~= names.subrange(done, names.len() as int));
            }
        }
        proof {
            assert(names.take(done) =~= names);
            assert(import_trace(trace, *table, self.file(), self.module(), imported_module@, names));
        }
    }

    /// The import pass: registers every `use` item in order and removes the `use`
    /// items from the item list.
    pub fn register_use_items(
        &self,
        compilation_context: &mut CompilationContext,
        table: &SymbolTable,
        module_environment: &mut ModuleEnvironment,
        unit: &mut CompilationUnit,
    )
        requires
            addressable(self.file()),
        ensures
            uses_registered(*table, self.file(), self.module(),
                (old(module_environment).imports(), old(compilation_context)@),
                (final(module_environment).imports(), final(compilation_context)@), old(unit).items@),
            final(unit).items@ == retained(old(unit).items@, Pass::Uses),
            final(unit).span == old(unit).span,
            final(unit).trivia == old(unit).trivia,
    {
        let mut items: Vec<Item> = Vec::new();
        std::mem::swap(&mut items, &mut unit.items);
        let ghost original = items@;
        let ghost start = (module_environment.imports(), compilation_context@);
        let mut kept: Vec<Item> = Vec::new();
        let ghost mut done: int = 0;
        let ghost mut trace = seq![start];
        while items.len() > 0
            invariant
                0 <= done <= original.len(),
                items@ == original.subrange(done, original.len() as int),
                addressable(self.file()),
                use_trace(trace, *table, self.file(), self.module(), original.take(done)),
                trace[0] == start,
                trace.last() == (module_environment.imports(), compilation_context@),
                kept@ == retained(original.take(done), Pass::Uses),
            decreases items.len(),
        {
            let ghost before = (module_environment.imports(), compilation_context@);
            let item = items.remove(0);
            proof {
                assert(item == original[done]);
                assert(original.take(done + 1).drop_last() =~= original.take(done));
                assert(original.take(done + 1).last() == original[done]);
            }
            match item.kind {
                ItemKind::Use(use_item) => {
                    self.register_use_item(compilation_context, table, module_environment, use_item);
                },
                _ => {
                    kept.push(item);
                },
            }
            proof {
                let now = (module_environment.imports(), compilation_context@);
                let prefix = original.take(done + 1);
                assert(use_step(*table, self.file(), self.module(), before, now, original[done]));
                let next = trace.push(now);
                assert forall|i: int| 0 <= i < prefix.len() implies use_step(*table, self.file(), self.module(), next[i], next[i + 1],
                    #[trigger] prefix[i]) by {
                    if i < done {
                        assert(prefix[i] == original.take(done)[i]);
                    }
                }
                trace = next;
                done = done + 1;
                assert(items@ =~= original.subrange(done, original.len() as int));
            }
        }
        proof {
            assert(original.take(done) =~= original);
            assert(use_trace(trace, *table, self.file(), self.module(), original));
        }
        unit.items = kept;
    }
}

} // verus!

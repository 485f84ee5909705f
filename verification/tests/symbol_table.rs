use ocelot::ast::{FunctionItem, Identifier};
use ocelot::index_set::IndexSet;
use ocelot::native_function::default_native_function_registry;
use ocelot::source_file::SourceFile;
use ocelot::span::Span;
use ocelot::symbol_table::{Effect, FunctionDefinition, FunctionKind, SymbolTable};
use ocelot::types::{FunctionIndex, TypeIndex, TypeKind};

#[test]
fn add_function_can_store_native_function_metadata() {
    let mut symbol_table = SymbolTable::new();
    let function_index = symbol_table.add_function(FunctionDefinition::native(
        "core",
        "core::println",
        vec![symbol_table.any_type_index()],
        default_native_function_registry()
            .resolve("core::println")
            .unwrap(),
        IndexSet::new(),
        IndexSet::new(),
    ));
    let function = symbol_table.function_definition(function_index).unwrap();

    assert_eq!(function.name, "core::println");
    assert_eq!(function.module_name, "core");
    assert_eq!(function.argument_types, vec![symbol_table.any_type_index()]);
    assert!(matches!(
        function.kind,
        FunctionKind::NativeFunction { .. }
    ));
}

#[test]
fn symbol_table_reserves_table_entry_zero() {
    let symbol_table = SymbolTable::new();

    assert!(symbol_table.functions[0].is_none());
}

#[test]
fn symbol_table_seeds_primitive_types() {
    let symbol_table = SymbolTable::new();

    assert_eq!(
        symbol_table
            .type_definition(TypeIndex::unresolved())
            .unwrap()
            .kind,
        TypeKind::Unresolved
    );
    assert_eq!(
        symbol_table
            .type_definition(symbol_table.resolve_type("any").unwrap())
            .unwrap()
            .kind,
        TypeKind::Any
    );
    assert_eq!(
        symbol_table
            .type_definition(symbol_table.resolve_type("string").unwrap())
            .unwrap()
            .kind,
        TypeKind::String
    );
    assert_eq!(
        symbol_table
            .type_definition(symbol_table.resolve_type("bool").unwrap())
            .unwrap()
            .kind,
        TypeKind::Boolean
    );
}

#[test]
fn symbol_table_indexes_types_by_name() {
    let symbol_table = SymbolTable::new();

    assert_eq!(symbol_table.resolve_type("any"), Some(TypeIndex::new(1)));
    assert_eq!(symbol_table.resolve_type("string"), Some(TypeIndex::new(2)));
    assert_eq!(symbol_table.resolve_type("bool"), Some(TypeIndex::new(3)));
}

#[test]
fn add_effect_indexes_effects_by_name() {
    let mut symbol_table = SymbolTable::new();

    let write_stdout = symbol_table.add_effect(Effect::builtin("write_stdout"));
    let panic = symbol_table.add_effect(Effect::builtin("panic"));

    assert_eq!(
        symbol_table.effect_definition(write_stdout).unwrap().name,
        "write_stdout"
    );
    assert_eq!(symbol_table.effect_definition(panic).unwrap().name, "panic");
}

#[test]
fn write_stdout_and_panic_effect_accessors_use_declared_effects() {
    let mut symbol_table = SymbolTable::new();
    let write_stdout = symbol_table.add_effect(Effect::builtin("write_stdout"));
    let panic = symbol_table.add_effect(Effect::builtin("panic"));

    assert_eq!(
        symbol_table.resolve_effect("write_stdout"),
        Some(write_stdout)
    );
    assert_eq!(symbol_table.resolve_effect("panic"), Some(panic));
    assert_eq!(symbol_table.write_stdout_effect_index(), write_stdout);
    assert_eq!(symbol_table.panic_effect_index(), panic);
}

#[test]
fn add_function_appends_user_defined_entries() {
    let mut symbol_table = SymbolTable::new();

    let function_index = symbol_table.add_function(FunctionDefinition::user_defined(
        "greetings",
        String::from("greetings::greet"),
        FunctionItem::new(
            Identifier::new("greet", Span::new(4, 9)),
            Vec::new(),
            None,
            None,
            Vec::new(),
            Span::new(0, 13),
        ),
        Vec::new(),
        IndexSet::new(),
        IndexSet::new(),
        SourceFile::new("greetings.ocelot", "fun greet() {}"),
    ));

    assert_eq!(
        symbol_table.resolve_function("greetings::greet"),
        Some(function_index)
    );
    assert!(matches!(
        symbol_table
            .function_definition(function_index)
            .unwrap()
            .kind,
        FunctionKind::UserDefined { .. }
    ));
}

#[test]
fn user_defined_function_indices_returns_only_user_defined_entries() {
    let mut symbol_table = SymbolTable::new();
    let _ = symbol_table.add_function(FunctionDefinition::user_defined(
        "greetings",
        String::from("greetings::greet"),
        FunctionItem::new(
            Identifier::new("greet", Span::new(4, 9)),
            Vec::new(),
            None,
            None,
            Vec::new(),
            Span::new(0, 13),
        ),
        Vec::new(),
        IndexSet::new(),
        IndexSet::new(),
        SourceFile::new("greetings.ocelot", "fun greet() {}"),
    ));

    assert_eq!(
        symbol_table.user_defined_function_indices(),
        vec![FunctionIndex::new(1)]
    );
}

#[test]
fn take_and_put_user_defined_function_round_trips() {
    let mut symbol_table = SymbolTable::new();
    let function_index = symbol_table.add_function(FunctionDefinition::user_defined(
        "greetings",
        String::from("greetings::greet"),
        FunctionItem::new(
            Identifier::new("greet", Span::new(4, 9)),
            Vec::new(),
            None,
            None,
            Vec::new(),
            Span::new(0, 13),
        ),
        Vec::new(),
        IndexSet::new(),
        IndexSet::new(),
        SourceFile::new("greetings.ocelot", "fun greet() {}"),
    ));

    let function = symbol_table
        .take_user_defined_function(function_index)
        .unwrap();
    assert_eq!(function.identifier.name, "greet");

    symbol_table
        .put_user_defined_function(function_index, function)
        .unwrap();
    assert!(matches!(
        symbol_table
            .function_definition(function_index)
            .unwrap()
            .kind,
        FunctionKind::UserDefined { .. }
    ));
}

#[test]
fn resolve_function_exact_looks_up_qualified_names() {
    let mut symbol_table = SymbolTable::new();
    let function_index = symbol_table.add_function(FunctionDefinition::user_defined(
        "math",
        String::from("math::greet"),
        FunctionItem::new(
            Identifier::new("greet", Span::new(4, 9)),
            Vec::new(),
            None,
            None,
            Vec::new(),
            Span::new(0, 13),
        ),
        Vec::new(),
        IndexSet::new(),
        IndexSet::new(),
        SourceFile::new("math.ocelot", "fun greet() {}"),
    ));

    assert_eq!(
        symbol_table.resolve_function_exact("math::greet"),
        Some(function_index)
    );
    assert!(
        symbol_table
            .resolve_function_exact("other::greet")
            .is_none()
    );
    assert_eq!(
        symbol_table.resolve_function("math::greet"),
        Some(function_index)
    );
}

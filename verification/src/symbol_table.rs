use vstd::prelude::*;
use crate::span::Span;
use crate::source_file::SourceFile;
use crate::types::{EffectIndex, FunctionIndex, TypeIndex, TypeKind};
use crate::ast::FunctionItem;
use crate::index_set::IndexSet;
use crate::index_map::IndexMap;
use crate::name_table::NameTable;
use crate::native_function::NativeFunction;
use crate::error::{OcelotError, OcelotResult, is_message_error};
use crate::text::concat3;

verus! {

/// One effect a function may perform.
#[derive(Debug, Clone)]
pub struct Effect {
    pub name: String,
    pub is_builtin: bool,
    pub declaration_span: Option<Span>,
    pub source_file: Option<SourceFile>,
}

impl Effect {
    /// An effect provided by the compiler.
    pub fn builtin(name: &str) -> (effect: Effect)
        ensures
            effect.name@ == name@,
            effect.is_builtin,
            effect.declaration_span is None,
            effect.source_file is None,
    {
        Effect { name: String::from_str(name), is_builtin: true, declaration_span: None, source_file: None }
    }

    /// An effect declared by an `effect` item of a source file.
    pub fn declared(name: String, declaration_span: Span, source_file: SourceFile) -> (effect: Effect)
        ensures
            effect.name@ == name@,
            !effect.is_builtin,
            effect.declaration_span == Some(declaration_span),
            effect.source_file == Some(source_file),
    {
        Effect { name, is_builtin: false, declaration_span: Some(declaration_span), source_file: Some(source_file) }
    }
}

/// One type known to the compiler.
#[derive(Debug, Clone)]
pub struct Ty {
    pub name: String,
    pub kind: TypeKind,
}

impl Ty {
    /// Creates a type from its name and kind.
    pub fn new(name: &str, kind: TypeKind) -> (ty: Ty)
        ensures
            ty.name@ == name@,
            ty.kind == kind,
    {
        Ty { name: String::from_str(name), kind }
    }
}

/// Runtime-facing classification of one function definition.
#[derive(Debug)]
pub enum FunctionKind {
    NativeFunction { native_function: NativeFunction },
    UserDefined { function: Box<FunctionItem>, source_file: Box<SourceFile> },
}

/// Definition record for one function entry in the symbol table.
#[derive(Debug)]
pub struct FunctionDefinition {
    pub name: String,
    pub module_name: String,
    pub argument_types: Vec<TypeIndex>,
    pub can_effects: IndexSet,
    pub cannot_effects: IndexSet,
    pub direct_effects: IndexSet,
    pub direct_effect_sources: IndexMap<Span>,
    pub inferred_effects: IndexSet,
    pub called_functions: IndexMap<Span>,
    pub can_clause_span: Option<Span>,
    pub cannot_clause_span: Option<Span>,
    pub kind: FunctionKind,
}

impl FunctionDefinition {
    /// Creates a native function definition; its declared effects are also its direct
    /// and inferred effects.
    pub fn native(
        module_name: &str,
        qualified_name: &str,
        argument_types: Vec<TypeIndex>,
        native_function: NativeFunction,
        can_effects: IndexSet,
        cannot_effects: IndexSet,
    ) -> (definition: FunctionDefinition)
        ensures
            definition.name@ == qualified_name@,
            definition.module_name@ == module_name@,
            definition.argument_types@ == argument_types@,
            definition.can_effects@ == can_effects@,
            definition.cannot_effects@ == cannot_effects@,
            definition.direct_effects@ == can_effects@,
            definition.inferred_effects@ == can_effects@,
            definition.direct_effect_sources.entries().len() == 0,
            definition.called_functions.entries().len() == 0,
            definition.can_clause_span is None,
            definition.cannot_clause_span is None,
            definition.kind == (FunctionKind::NativeFunction { native_function }),
    {
        let direct_effects = can_effects.copy();
        let inferred_effects = can_effects.copy();
        FunctionDefinition {
            name: String::from_str(qualified_name),
            module_name: String::from_str(module_name),
            argument_types,
            can_effects,
            cannot_effects,
            direct_effects,
            direct_effect_sources: IndexMap::new(),
            inferred_effects,
            called_functions: IndexMap::new(),
            can_clause_span: None,
            cannot_clause_span: None,
            kind: FunctionKind::NativeFunction { native_function },
        }
    }

    /// Creates a user-defined function definition; its declared effects are its
    /// initial direct and inferred effects.
    pub fn user_defined(
        module_name: &str,
        qualified_name: String,
        function: FunctionItem,
        argument_types: Vec<TypeIndex>,
        can_effects: IndexSet,
        cannot_effects: IndexSet,
        source_file: SourceFile,
    ) -> (definition: FunctionDefinition)
        ensures
            definition.name@ == qualified_name@,
            definition.module_name@ == module_name@,
            definition.argument_types@ == argument_types@,
            definition.can_effects@ == can_effects@,
            definition.cannot_effects@ == cannot_effects@,
            definition.direct_effects@ == can_effects@,
            definition.inferred_effects@ == can_effects@,
            definition.direct_effect_sources.entries().len() == 0,
            definition.called_functions.entries().len() == 0,
            definition.can_clause_span == match function.can_clause {
                Some(clause) => Some(clause.span),
                None => None::<Span>,
            },
            definition.cannot_clause_span == match function.cannot_clause {
                Some(clause) => Some(clause.span),
                None => None::<Span>,
            },
            definition.kind == (FunctionKind::UserDefined {
                function: Box::new(function),
                source_file: Box::new(source_file),
            }),
    {
        let can_clause_span = match &function.can_clause {
            Some(clause) => Some(clause.span),
            None => None,
        };
        let cannot_clause_span = match &function.cannot_clause {
            Some(clause) => Some(clause.span),
            None => None,
        };
        let direct_effects = can_effects.copy();
        let inferred_effects = can_effects.copy();
        FunctionDefinition {
            name: qualified_name,
            module_name: String::from_str(module_name),
            argument_types,
            can_effects,
            cannot_effects,
            direct_effects,
            direct_effect_sources: IndexMap::new(),
            inferred_effects,
            called_functions: IndexMap::new(),
            can_clause_span,
            cannot_clause_span,
            kind: FunctionKind::UserDefined { function: Box::new(function), source_file: Box::new(source_file) },
        }
    }
}

/// Resolved body and effect metadata for one user-defined function.
#[derive(Debug)]
pub struct ResolvedFunction {
    pub function_index: FunctionIndex,
    pub function: Box<FunctionItem>,
    pub direct_effects: IndexSet,
    pub direct_effect_sources: IndexMap<Span>,
    pub inferred_effects: IndexSet,
    pub called_functions: IndexMap<Span>,
}

impl ResolvedFunction {
    /// Creates one resolved function payload whose direct and inferred effects are the
    /// given initial direct effects.
    pub fn new(function_index: FunctionIndex, function: FunctionItem, direct_effects: IndexSet) -> (resolved: ResolvedFunction)
        ensures
            resolved.function_index == function_index,
            *resolved.function == function,
            resolved.direct_effects@ == direct_effects@,
            resolved.inferred_effects@ == direct_effects@,
            resolved.direct_effect_sources.entries().len() == 0,
            resolved.called_functions.entries().len() == 0,
    {
        let inferred_effects = direct_effects.copy();
        ResolvedFunction {
            function_index,
            function: Box::new(function),
            direct_effects,
            direct_effect_sources: IndexMap::new(),
            inferred_effects,
            called_functions: IndexMap::new(),
        }
    }
}

/// `module::function`, or just `function` when the module name is empty.
pub open spec fn qualified_name(module_name: Seq<char>, function_name: Seq<char>) -> Seq<char> {
    if module_name.len() == 0 {
        function_name
    } else {
        module_name + "::"@ + function_name
    }
}

/// Creates a qualified function name from a module and local name.
pub fn qualify_function_name(module_name: &str, function_name: &str) -> (name: String)
    ensures
        name@ == qualified_name(module_name@, function_name@),
{
    if module_name.unicode_len() == 0 {
        return String::from_str(function_name);
    }
    concat3(module_name, "::", function_name)
}

/// True when a table slot holds a user-defined function.
pub open spec fn is_user_defined_slot(slot: Option<FunctionDefinition>) -> bool {
    slot matches Some(d) && d.kind is UserDefined
}

/// Canonical program-wide semantic table used by resolution and execution.
#[derive(Debug)]
pub struct SymbolTable {
    pub functions: Vec<Option<FunctionDefinition>>,
    pub function_symbols: NameTable<FunctionIndex>,
    pub module_symbols: NameTable<bool>,
    pub effects: Vec<Effect>,
    pub effect_symbols: NameTable<EffectIndex>,
    pub types: Vec<Ty>,
    pub type_symbols: NameTable<TypeIndex>,
}

impl SymbolTable {
    /// The primitive types are registered under their names.
    pub open spec fn primitive_types_seeded(&self) -> bool {
        &&& self.type_symbols.get("any"@) is Some
        &&& self.type_symbols.get("string"@) is Some
        &&& self.type_symbols.get("bool"@) is Some
    }

    /// Creates a symbol table whose entry 0 of each table is reserved and whose types
    /// are seeded with `any`, `string` and `bool`.
    pub fn new() -> (table: SymbolTable)
        ensures
            table.functions@ == seq![None::<FunctionDefinition>],
            table.effects@.len() == 1,
            table.effects@[0].is_builtin,
            table.types@.len() == 4,
            table.types@[0].kind == TypeKind::Unresolved,
            table.types@[1].name@ == "any"@ && table.types@[1].kind == TypeKind::Any,
            table.types@[2].name@ == "string"@ && table.types@[2].kind == TypeKind::String,
            table.types@[3].name@ == "bool"@ && table.types@[3].kind == TypeKind::Boolean,
            table.type_symbols.get("any"@) == Some(TypeIndex(1)),
            table.type_symbols.get("string"@) == Some(TypeIndex(2)),
            table.type_symbols.get("bool"@) == Some(TypeIndex(3)),
            table.primitive_types_seeded(),
            forall|name: Seq<char>| #[trigger] table.type_symbols.get(name) matches Some(ty) ==> 1 <= ty.0 < 4,
            forall|name: Seq<char>| table.function_symbols.get(name) is None,
            forall|name: Seq<char>| table.effect_symbols.get(name) is None,
            forall|name: Seq<char>| table.module_symbols.get(name) is None,
            table.names_consistent(),
    {
        let mut functions = Vec::new();
        functions.push(None);
        let mut effects = Vec::new();
        effects.push(Effect::builtin("__reserved_effect_slot__"));
        let mut types = Vec::new();
        types.push(Ty::new("unresolved", TypeKind::Unresolved));
        let mut table = SymbolTable {
            functions,
            function_symbols: NameTable::new(),
            module_symbols: NameTable::new(),
            effects,
            effect_symbols: NameTable::new(),
            types,
            type_symbols: NameTable::new(),
        };
        table.add_type(Ty::new("any", TypeKind::Any));
        table.add_type(Ty::new("string", TypeKind::String));
        table.add_type(Ty::new("bool", TypeKind::Boolean));
        proof {
            reveal_strlit("any");
            reveal_strlit("string");
            reveal_strlit("bool");
            assert("any"@.len() == 3 && "string"@.len() == 6 && "bool"@.len() == 4);
        }
        assert(table.functions@ =~= seq![None::<FunctionDefinition>]);
        table
    }

    /// Resolves one effect name to its table handle.
    pub fn resolve_effect(&self, name: &str) -> (effect_index: Option<EffectIndex>)
        ensures
            effect_index == self.effect_symbols.get(name@),
    {
        self.effect_symbols.get_value(name)
    }

    /// Returns the definition for one effect index.
    pub fn effect_definition(&self, effect_index: EffectIndex) -> (result: OcelotResult<&Effect>)
        ensures
            effect_index.0 < self.effects@.len() ==> result is Ok && *result->Ok_0 == self.effects@[effect_index.0 as int],
            effect_index.0 >= self.effects@.len() ==> result is Err && is_message_error(
                result->Err_0,
                "internal error: effect index points outside the effect table"@,
            ),
    {
        let position = effect_index.as_usize();
        if position < self.effects.len() {
            Ok(&self.effects[position])
        } else {
            Err(OcelotError::message_str("internal error: effect index points outside the effect table"))
        }
    }

    /// Appends one new effect definition and returns its table handle.
    pub fn add_effect(&mut self, effect: Effect) -> (effect_index: EffectIndex)
        requires
            old(self).effects@.len() < u32::MAX,
        ensures
            effect_index.0 == old(self).effects@.len(),
            final(self).effects@ == old(self).effects@.push(effect),
            final(self).effect_symbols.get(effect.name@) == Some(effect_index),
            forall|name: Seq<char>| name != effect.name@ ==> final(self).effect_symbols.get(name) == old(self).effect_symbols.get(name),
            final(self).functions@ == old(self).functions@,
            final(self).function_symbols == old(self).function_symbols,
            final(self).module_symbols == old(self).module_symbols,
            final(self).types@ == old(self).types@,
            final(self).type_symbols == old(self).type_symbols,
    {
        let effect_index = EffectIndex::new(self.effects.len() as u32);
        self.effect_symbols.insert(effect.name.clone(), effect_index);
        self.effects.push(effect);
        effect_index
    }

    /// Returns the canonical write-stdout effect handle.
    pub fn write_stdout_effect_index(&self) -> (effect_index: EffectIndex)
        requires
            self.effect_symbols.get("write_stdout"@) is Some,
        ensures
            Some(effect_index) == self.effect_symbols.get("write_stdout"@),
    {
        self.resolve_effect("write_stdout").unwrap()
    }

    /// Returns the canonical panic effect handle.
    pub fn panic_effect_index(&self) -> (effect_index: EffectIndex)
        requires
            self.effect_symbols.get("panic"@) is Some,
        ensures
            Some(effect_index) == self.effect_symbols.get("panic"@),
    {
        self.resolve_effect("panic").unwrap()
    }

    /// Resolves one type name to its table handle.
    pub fn resolve_type(&self, name: &str) -> (type_index: Option<TypeIndex>)
        ensures
            type_index == self.type_symbols.get(name@),
    {
        self.type_symbols.get_value(name)
    }

    /// Returns the definition for one type index.
    pub fn type_definition(&self, type_index: TypeIndex) -> (result: OcelotResult<&Ty>)
        ensures
            type_index.0 < self.types@.len() ==> result is Ok && *result->Ok_0 == self.types@[type_index.0 as int],
            type_index.0 >= self.types@.len() ==> result is Err && is_message_error(
                result->Err_0,
                "internal error: type index points outside the type table"@,
            ),
    {
        let position = type_index.as_usize();
        if position < self.types.len() {
            Ok(&self.types[position])
        } else {
            Err(OcelotError::message_str("internal error: type index points outside the type table"))
        }
    }

    /// Appends one new type definition and returns its table handle.
    pub fn add_type(&mut self, ty: Ty) -> (type_index: TypeIndex)
        requires
            old(self).types@.len() < u32::MAX,
        ensures
            type_index.0 == old(self).types@.len(),
            final(self).types@ == old(self).types@.push(ty),
            final(self).type_symbols.get(ty.name@) == Some(type_index),
            forall|name: Seq<char>| name != ty.name@ ==> final(self).type_symbols.get(name) == old(self).type_symbols.get(name),
            final(self).functions@ == old(self).functions@,
            final(self).function_symbols == old(self).function_symbols,
            final(self).module_symbols == old(self).module_symbols,
            final(self).effects@ == old(self).effects@,
            final(self).effect_symbols == old(self).effect_symbols,
    {
        let type_index = TypeIndex::new(self.types.len() as u32);
        self.type_symbols.insert(ty.name.clone(), type_index);
        self.types.push(ty);
        type_index
    }

    /// Returns the canonical any type handle.
    pub fn any_type_index(&self) -> (type_index: TypeIndex)
        requires
            self.primitive_types_seeded(),
        ensures
            Some(type_index) == self.type_symbols.get("any"@),
    {
        self.resolve_type("any").unwrap()
    }

    /// Returns the canonical string type handle.
    pub fn string_type_index(&self) -> (type_index: TypeIndex)
        requires
            self.primitive_types_seeded(),
        ensures
            Some(type_index) == self.type_symbols.get("string"@),
    {
        self.resolve_type("string").unwrap()
    }

    /// Returns the canonical boolean type handle.
    pub fn boolean_type_index(&self) -> (type_index: TypeIndex)
        requires
            self.primitive_types_seeded(),
        ensures
            Some(type_index) == self.type_symbols.get("bool"@),
    {
        self.resolve_type("bool").unwrap()
    }

    /// Returns the canonical unresolved type handle.
    pub fn unresolved_type_index(&self) -> (type_index: TypeIndex)
        ensures
            type_index == TypeIndex(0),
    {
        TypeIndex::unresolved()
    }

    /// Resolves one function name to its table handle.
    pub fn resolve_function(&self, name: &str) -> (function_index: Option<FunctionIndex>)
        ensures
            function_index == self.function_symbols.get(name@),
    {
        self.function_symbols.get_value(name)
    }

    /// Resolves one function name without module fallback.
    pub fn resolve_function_exact(&self, name: &str) -> (function_index: Option<FunctionIndex>)
        ensures
            function_index == self.function_symbols.get(name@),
    {
        self.function_symbols.get_value(name)
    }

    /// Registers one module name.
    pub fn add_module(&mut self, module_name: &str)
        ensures
            final(self).module_symbols.get(module_name@) is Some,
            forall|name: Seq<char>| name != module_name@ ==> final(self).module_symbols.get(name) == old(self).module_symbols.get(name),
            final(self).functions@ == old(self).functions@,
            final(self).function_symbols == old(self).function_symbols,
            final(self).effects@ == old(self).effects@,
            final(self).effect_symbols == old(self).effect_symbols,
            final(self).types@ == old(self).types@,
            final(self).type_symbols == old(self).type_symbols,
    {
        self.module_symbols.insert(String::from_str(module_name), true);
    }

    /// Returns whether one module name is known.
    pub fn has_module(&self, module_name: &str) -> (known: bool)
        ensures
            known == (self.module_symbols.get(module_name@) is Some),
    {
        self.module_symbols.contains_key(module_name)
    }

    /// Creates a qualified function name from a module and local name.
    pub fn qualify_function_name(&self, module_name: &str, function_name: &str) -> (name: String)
        ensures
            name@ == qualified_name(module_name@, function_name@),
    {
        qualify_function_name(module_name, function_name)
    }

    /// Slot 0 of the function table is reserved and empty, and every registered name
    /// leads to a stored definition of that name.
    pub open spec fn names_consistent(&self) -> bool {
        &&& self.functions@.len() > 0
        &&& self.functions@[0] is None
        &&& forall|name: Seq<char>| #[trigger] self.function_symbols.get(name) matches Some(index)
            ==> index.0 < self.functions@.len() && (self.functions@[index.0 as int] matches Some(d) && d.name@ == name)
    }

    /// The definition stored under a function handle, if any.
    pub open spec fn definition_at(&self, function_index: FunctionIndex) -> Option<FunctionDefinition> {
        if function_index.0 < self.functions@.len() {
            self.functions@[function_index.0 as int]
        } else {
            None
        }
    }

    /// Returns the definition for one previously resolved function index.
    pub fn function_definition(&self, function_index: FunctionIndex) -> (result: OcelotResult<&FunctionDefinition>)
        ensures
            self.definition_at(function_index) matches Some(d) ==> result is Ok && *result->Ok_0 == d,
            self.definition_at(function_index) is None ==> result is Err && is_message_error(
                result->Err_0,
                "internal error: function index points outside the function table"@,
            ),
    {
        let position = function_index.as_usize();
        if position < self.functions.len() {
            match &self.functions[position] {
                Some(definition) => return Ok(definition),
                None => {},
            }
        }
        Err(OcelotError::message_str("internal error: function index points outside the function table"))
    }

    /// Appends one new function definition and returns its table handle.
    /// The handle is the table's former length taken as a `u32`, so handles repeat once the
    /// table holds more than `u32::MAX` entries.
    pub fn add_function(&mut self, function: FunctionDefinition) -> (function_index: FunctionIndex)
        ensures
            function_index.0 == old(self).functions@.len() as u32,
            old(self).functions@.len() <= u32::MAX ==> function_index.0 == old(self).functions@.len(),
            final(self).functions@ == old(self).functions@.push(Some(function)),
            final(self).function_symbols.get(function.name@) == Some(function_index),
            forall|name: Seq<char>| name != function.name@ ==> final(self).function_symbols.get(name) == old(self).function_symbols.get(name),
            final(self).module_symbols == old(self).module_symbols,
            final(self).effects@ == old(self).effects@,
            final(self).effect_symbols == old(self).effect_symbols,
            final(self).types@ == old(self).types@,
            final(self).type_symbols == old(self).type_symbols,
            old(self).functions@.len() <= u32::MAX ==> final(self).definition_at(function_index) == Some(function),
            old(self).functions@.len() <= u32::MAX && old(self).names_consistent() ==> final(self).names_consistent(),
    {
        let function_index = FunctionIndex::new(#[verifier::truncate] (self.functions.len() as u32));
        self.function_symbols.insert(function.name.clone(), function_index);
        self.functions.push(Some(function));
        function_index
    }

    /// Returns the indices of all user-defined functions in insertion order.
    pub fn user_defined_function_indices(&self) -> (indices: Vec<FunctionIndex>)
        requires
            self.functions@.len() <= u32::MAX,
        ensures
            forall|i: int| 0 <= i < indices@.len() ==> 1 <= (#[trigger] indices@[i]).0 < self.functions@.len()
                && is_user_defined_slot(self.functions@[indices@[i].0 as int]),
            forall|i: int, j: int| 0 <= i < j < indices@.len() ==> indices@[i].0 < indices@[j].0,
            forall|p: int| 1 <= p < self.functions@.len() && is_user_defined_slot(self.functions@[p])
                ==> exists|i: int| 0 <= i < indices@.len() && indices@[i].0 == p,
    {
        let mut indices: Vec<FunctionIndex> = Vec::new();
        let mut position: usize = 1;
        while position < self.functions.len()
            invariant
                1 <= position,
                position <= self.functions@.len() || self.functions@.len() == 0,
                self.functions@.len() <= u32::MAX,
                forall|i: int| 0 <= i < indices@.len() ==> 1 <= (#[trigger] indices@[i]).0 < position
                    && indices@[i].0 < self.functions@.len()
                    && is_user_defined_slot(self.functions@[indices@[i].0 as int]),
                forall|i: int, j: int| 0 <= i < j < indices@.len() ==> indices@[i].0 < indices@[j].0,
                forall|p: int| 1 <= p < position && p < self.functions@.len() && is_user_defined_slot(self.functions@[p])
                    ==> exists|i: int| 0 <= i < indices@.len() && indices@[i].0 == p,
            decreases self.functions@.len() - position,
        {
            let is_user_defined = match &self.functions[position] {
                Some(definition) => match &definition.kind {
                    FunctionKind::UserDefined { .. } => true,
                    FunctionKind::NativeFunction { .. } => false,
                },
                None => false,
            };
            if is_user_defined {
                let ghost before = indices@;
                indices.push(FunctionIndex::new(position as u32));
                proof {
                    assert(indices@[before.len() as int].0 == position);
                    assert forall|p: int| 1 <= p < position + 1 && p < self.functions@.len() && is_user_defined_slot(self.functions@[p])
                        implies exists|i: int| 0 <= i < indices@.len() && indices@[i].0 == p by {
                        if p < position {
                            let i = choose|i: int| 0 <= i < before.len() && before[i].0 == p;
                            assert(indices@[i] == before[i]);
                        } else {
                            assert(indices@[before.len() as int].0 == p);
                        }
                    }
                }
            }
            position = position + 1;
        }
        indices
    }

    /// Removes one user-defined function body from the table temporarily, leaving an
    /// empty placeholder.
    pub fn take_user_defined_function(&mut self, function_index: FunctionIndex) -> (result: OcelotResult<Box<FunctionItem>>)
        ensures
            match old(self).definition_at(function_index) {
                Some(d) => match d.kind {
                    FunctionKind::UserDefined { function, .. } => result is Ok && result->Ok_0 == function
                        && exists|placeholder: Box<FunctionItem>| {
                            &&& placeholder.identifier.name@.len() == 0
                            &&& placeholder.parameters@.len() == 0
                            &&& placeholder.body@.len() == 0
                            &&& final(self).functions@ == old(self).functions@.update(
                                function_index.0 as int,
                                Some(with_body(d, placeholder)),
                            )
                        },
                    FunctionKind::NativeFunction { .. } => result is Err && is_message_error(
                        result->Err_0,
                        "internal error: function index did not reference a user-defined function"@,
                    ) && final(self).functions@ == old(self).functions@,
                },
                None => result is Err && is_message_error(
                    result->Err_0,
                    "internal error: function index points outside the function table"@,
                ) && final(self).functions@ == old(self).functions@,
            },
            final(self).functions@.len() == old(self).functions@.len(),
            final(self).function_symbols == old(self).function_symbols,
            final(self).module_symbols == old(self).module_symbols,
            final(self).effects@ == old(self).effects@,
            final(self).effect_symbols == old(self).effect_symbols,
            final(self).types@ == old(self).types@,
            final(self).type_symbols == old(self).type_symbols,
    {
        let position = function_index.as_usize();
        if position >= self.functions.len() {
            return Err(OcelotError::message_str("internal error: function index points outside the function table"));
        }
        let mut slot: Option<FunctionDefinition> = None;
        std::mem::swap(&mut slot, &mut self.functions[position]);
        let result = match slot {
            None => {
                Err(OcelotError::message_str("internal error: function index points outside the function table"))
            },
            Some(mut definition) => {
                let outcome = match definition.kind {
                    FunctionKind::UserDefined { function, source_file } => {
                        let placeholder = Box::new(FunctionItem::placeholder());
                        let ghost kept = placeholder;
                        definition.kind = FunctionKind::UserDefined {
                            function: placeholder,
                            source_file,
                        };
                        proof {
                            assert(definition == with_body(old(self).functions@[position as int]->0, kept));
                        }
                        Ok(function)
                    },
                    FunctionKind::NativeFunction { native_function } => {
                        definition.kind = FunctionKind::NativeFunction { native_function };
                        Err(OcelotError::message_str("internal error: function index did not reference a user-defined function"))
                    },
                };
                slot = Some(definition);
                outcome
            },
        };
        std::mem::swap(&mut slot, &mut self.functions[position]);
        result
    }
}

/// `definition` with its user-defined body replaced by `body`.
pub open spec fn with_body(definition: FunctionDefinition, body: Box<FunctionItem>) -> FunctionDefinition {
    match definition.kind {
        FunctionKind::UserDefined { source_file, .. } => FunctionDefinition {
            kind: FunctionKind::UserDefined { function: body, source_file },
            ..definition
        },
        FunctionKind::NativeFunction { .. } => definition,
    }
}

/// `definition` with the body and effect metadata of one resolved function.
pub open spec fn with_resolution(definition: FunctionDefinition, resolved: ResolvedFunction) -> FunctionDefinition {
    match definition.kind {
        FunctionKind::UserDefined { source_file, .. } => FunctionDefinition {
            kind: FunctionKind::UserDefined { function: resolved.function, source_file },
            direct_effects: resolved.direct_effects,
            direct_effect_sources: resolved.direct_effect_sources,
            inferred_effects: resolved.inferred_effects,
            called_functions: resolved.called_functions,
            ..definition
        },
        FunctionKind::NativeFunction { .. } => definition,
    }
}

/// Taking the body of a user-defined function out of the table, leaving any placeholder,
/// then putting that body back, gives the table's function slots as they were.
pub proof fn law_take_put_round_trip(
    functions: Seq<Option<FunctionDefinition>>,
    function_index: FunctionIndex,
    placeholder: Box<FunctionItem>,
)
    requires
        slot_at(functions, function_index) matches Some(d) && d.kind is UserDefined,
    ensures
        ({
            let definition = slot_at(functions, function_index)->0;
            let body = match definition.kind {
                FunctionKind::UserDefined { function, .. } => function,
                FunctionKind::NativeFunction { .. } => placeholder,
            };
            let taken = functions.update(function_index.0 as int, Some(with_body(definition, placeholder)));
            &&& user_slot_error(taken, function_index) is None
            &&& taken.update(function_index.0 as int, Some(with_body(slot_at(taken, function_index)->0, body))) == functions
        }),
{
    let definition = slot_at(functions, function_index)->0;
    let taken = functions.update(function_index.0 as int, Some(with_body(definition, placeholder)));
    let body = match definition.kind {
        FunctionKind::UserDefined { function, .. } => function,
        FunctionKind::NativeFunction { .. } => placeholder,
    };
    assert(with_body(with_body(definition, placeholder), body) == definition);
    assert(taken.update(function_index.0 as int, Some(with_body(slot_at(taken, function_index)->0, body))) =~= functions);
}

/// The slot of one function handle, if the handle is inside the table.
pub open spec fn slot_at(functions: Seq<Option<FunctionDefinition>>, function_index: FunctionIndex) -> Option<FunctionDefinition> {
    if function_index.0 < functions.len() {
        functions[function_index.0 as int]
    } else {
        None
    }
}

/// Error message for a handle that does not name a user-defined function, if it does not.
pub open spec fn user_slot_error(functions: Seq<Option<FunctionDefinition>>, function_index: FunctionIndex) -> Option<Seq<char>> {
    match slot_at(functions, function_index) {
        None => Some("internal error: function index points outside the function table"@),
        Some(definition) => match definition.kind {
            FunctionKind::UserDefined { .. } => None,
            FunctionKind::NativeFunction { .. } => Some(
                "internal error: function index did not reference a user-defined function"@,
            ),
        },
    }
}

/// The table slots after applying `resolved` in order, and the error that stops it.
pub open spec fn apply_outcome(functions: Seq<Option<FunctionDefinition>>, resolved: Seq<ResolvedFunction>) -> (Seq<Option<FunctionDefinition>>, Option<Seq<char>>)
    decreases resolved.len(),
{
    if resolved.len() == 0 {
        (functions, None)
    } else {
        let first = resolved[0];
        match user_slot_error(functions, first.function_index) {
            Some(message) => (functions, Some(message)),
            None => apply_outcome(
                functions.update(
                    first.function_index.0 as int,
                    Some(with_resolution(slot_at(functions, first.function_index)->0, first)),
                ),
                resolved.drop_first(),
            ),
        }
    }
}

impl SymbolTable {
    /// Writes one user-defined function body back into the table.
    pub fn put_user_defined_function(&mut self, function_index: FunctionIndex, function: Box<FunctionItem>) -> (result: OcelotResult<()>)
        ensures
            match user_slot_error(old(self).functions@, function_index) {
                Some(message) => result matches Err(e) && is_message_error(e, message)
                    && final(self).functions@ == old(self).functions@,
                None => result is Ok && final(self).functions@ == old(self).functions@.update(
                    function_index.0 as int,
                    Some(with_body(slot_at(old(self).functions@, function_index)->0, function)),
                ),
            },
            final(self).function_symbols == old(self).function_symbols,
            final(self).module_symbols == old(self).module_symbols,
            final(self).effects@ == old(self).effects@,
            final(self).effect_symbols == old(self).effect_symbols,
            final(self).types@ == old(self).types@,
            final(self).type_symbols == old(self).type_symbols,
    {
        let position = function_index.as_usize();
        if position >= self.functions.len() {
            return Err(OcelotError::message_str("internal error: function index points outside the function table"));
        }
        let mut slot: Option<FunctionDefinition> = None;
        std::mem::swap(&mut slot, &mut self.functions[position]);
        let result = match slot {
            None => Err(OcelotError::message_str("internal error: function index points outside the function table")),
            Some(mut definition) => {
                let outcome = match definition.kind {
                    FunctionKind::UserDefined { function: _, source_file } => {
                        definition.kind = FunctionKind::UserDefined { function, source_file };
                        Ok(())
                    },
                    FunctionKind::NativeFunction { native_function } => {
                        definition.kind = FunctionKind::NativeFunction { native_function };
                        Err(OcelotError::message_str("internal error: function index did not reference a user-defined function"))
                    },
                };
                slot = Some(definition);
                outcome
            },
        };
        std::mem::swap(&mut slot, &mut self.functions[position]);
        proof {
            if result is Err {
                assert(self.functions@ =~= old(self).functions@);
            }
        }
        result
    }

    /// Applies resolved bodies and effect metadata for user-defined functions, in order;
    /// stops at the first handle that does not name a user-defined function.
    pub fn apply_resolved_functions(&mut self, resolved_functions: Vec<ResolvedFunction>) -> (result: OcelotResult<()>)
        ensures
            ({
                let outcome = apply_outcome(old(self).functions@, resolved_functions@);
                &&& final(self).functions@ == outcome.0
                &&& result is Err <==> outcome.1 is Some
                &&& result matches Err(e) ==> is_message_error(e, outcome.1->0)
            }),
            final(self).function_symbols == old(self).function_symbols,
            final(self).module_symbols == old(self).module_symbols,
            final(self).effects@ == old(self).effects@,
            final(self).effect_symbols == old(self).effect_symbols,
            final(self).types@ == old(self).types@,
            final(self).type_symbols == old(self).type_symbols,
    {
        let ghost outcome = apply_outcome(old(self).functions@, resolved_functions@);
        let mut remaining = resolved_functions;
        while remaining.len() > 0
            invariant
                outcome == apply_outcome(self.functions@, remaining@),
                outcome == apply_outcome(old(self).functions@, resolved_functions@),
                self.function_symbols == old(self).function_symbols,
                self.module_symbols == old(self).module_symbols,
                self.effects@ == old(self).effects@,
                self.effect_symbols == old(self).effect_symbols,
                self.types@ == old(self).types@,
                self.type_symbols == old(self).type_symbols,
            decreases remaining@.len(),
        {
            let ghost before = remaining@;
            let resolved = remaining.remove(0);
            assert(remaining@ =~= before.drop_first());
            let position = resolved.function_index.as_usize();
            assert(before[0] == resolved);
            let ghost slots = self.functions@;
            if position >= self.functions.len() {
                assert(user_slot_error(slots, resolved.function_index) is Some);
                return Err(OcelotError::message_str("internal error: function index points outside the function table"));
            }
            let mut slot: Option<FunctionDefinition> = None;
            std::mem::swap(&mut slot, &mut self.functions[position]);
            let missing = slot.is_none();
            let failed = match slot {
                None => true,
                Some(mut definition) => {
                    let failed = match definition.kind {
                        FunctionKind::UserDefined { function: _, source_file } => {
                            definition.kind = FunctionKind::UserDefined { function: resolved.function, source_file };
                            definition.direct_effects = resolved.direct_effects;
                            definition.direct_effect_sources = resolved.direct_effect_sources;
                            definition.inferred_effects = resolved.inferred_effects;
                            definition.called_functions = resolved.called_functions;
                            false
                        },
                        FunctionKind::NativeFunction { native_function } => {
                            definition.kind = FunctionKind::NativeFunction { native_function };
                            true
                        },
                    };
                    slot = Some(definition);
                    failed
                },
            };
            std::mem::swap(&mut slot, &mut self.functions[position]);
            proof {
                if !failed {
                    assert(user_slot_error(slots, resolved.function_index) is None);
                    assert(self.functions@ =~= slots.update(
                        position as int,
                        Some(with_resolution(slot_at(slots, resolved.function_index)->0, resolved)),
                    ));
                }
            }
            if failed {
                proof {
                    assert(self.functions@ =~= slots);
                }
                if missing {
                    return Err(OcelotError::message_str("internal error: function index points outside the function table"));
                }
                return Err(OcelotError::message_str("internal error: function index did not reference a user-defined function"));
            }
        }
        Ok(())
    }
}

impl SymbolTable {
    /// Returns the definition for one previously resolved function index mutably.
    pub fn function_definition_mut(&mut self, function_index: FunctionIndex) -> (result: OcelotResult<&mut FunctionDefinition>)
        ensures
            match old(self).definition_at(function_index) {
                Some(d) => result is Ok && *result->Ok_0 == d
                    && final(self).functions@ == old(self).functions@.update(function_index.0 as int, Some(*final(result->Ok_0))),
                None => result is Err && is_message_error(
                    result->Err_0,
                    "internal error: function index points outside the function table"@,
                ) && final(self).functions@ == old(self).functions@,
            },
            final(self).function_symbols == old(self).function_symbols,
            final(self).module_symbols == old(self).module_symbols,
            final(self).effects@ == old(self).effects@,
            final(self).effect_symbols == old(self).effect_symbols,
            final(self).types@ == old(self).types@,
            final(self).type_symbols == old(self).type_symbols,
    {
        let position = function_index.as_usize();
        if position >= self.functions.len() {
            return Err(OcelotError::message_str("internal error: function index points outside the function table"));
        }
        match self.functions[position].as_mut() {
            Some(definition) => Ok(definition),
            None => Err(OcelotError::message_str("internal error: function index points outside the function table")),
        }
    }
}

} // verus!

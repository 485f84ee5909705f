use vstd::prelude::*;
use crate::types::FunctionIndex;
use crate::name_table::NameTable;

verus! {

/// File-local semantic state used while resolving one module: the functions it imports.
#[derive(Debug, Clone)]
pub struct ModuleEnvironment {
    pub imported_function_symbols: NameTable<FunctionIndex>,
}

impl ModuleEnvironment {
    /// The imported functions by local name.
    pub open spec fn imports(&self) -> Map<Seq<char>, FunctionIndex> {
        self.imported_function_symbols.map()
    }

    /// Creates an empty module environment.
    pub fn new() -> (environment: ModuleEnvironment)
        ensures
            environment.imports() == Map::<Seq<char>, FunctionIndex>::empty(),
    {
        let environment = ModuleEnvironment { imported_function_symbols: NameTable::new() };
        assert(environment.imports() =~= Map::<Seq<char>, FunctionIndex>::empty());
        environment
    }

    /// Resolves one imported function binding by file-local name.
    pub fn resolve_imported_function(&self, name: &str) -> (function_index: Option<FunctionIndex>)
        ensures
            function_index == self.imported_function_symbols.get(name@),
            function_index is Some <==> self.imports().contains_key(name@),
            function_index matches Some(f) ==> self.imports()[name@] == f,
    {
        self.imported_function_symbols.get_value(name)
    }

    /// Registers one imported function binding for this module.
    pub fn add_imported_function(&mut self, local_name: String, function_index: FunctionIndex)
        ensures
            final(self).imports() == old(self).imports().insert(local_name@, function_index),
    {
        self.imported_function_symbols.insert(local_name, function_index);
        assert(self.imports() =~= old(self).imports().insert(local_name@, function_index));
    }
}

impl Default for ModuleEnvironment {
    fn default() -> (environment: ModuleEnvironment)
        ensures
            environment.imports() == Map::<Seq<char>, FunctionIndex>::empty(),
    {
        ModuleEnvironment::new()
    }
}

} // verus!

use vstd::prelude::*;
use crate::source_file::SourceFile;
use crate::source_file_kind::SourceFileKind;
use crate::ast::CompilationUnit;
use crate::diagnostic::SourceDiagnostics;
use crate::symbol_table::SymbolTable;

verus! {

/// One parsed module of a program: its logical name, its kind, its file and its items.
#[derive(Debug)]
pub struct ParsedModule {
    pub module_name: String,
    pub kind: SourceFileKind,
    pub source_file: SourceFile,
    pub compilation_unit: CompilationUnit,
}

impl ParsedModule {
    /// Creates a parsed module from its name, kind, file and parsed items.
    pub fn new(module_name: &str, kind: SourceFileKind, source_file: SourceFile, compilation_unit: CompilationUnit) -> (module: ParsedModule)
        ensures
            module.module_name@ == module_name@,
            module.kind == kind,
            module.source_file == source_file,
            module.compilation_unit == compilation_unit,
    {
        ParsedModule { module_name: String::from_str(module_name), kind, source_file, compilation_unit }
    }
}

/// A resolved program: its modules with their items resolved, every diagnostic
/// reported, and the symbol table its functions run from.
#[derive(Debug)]
pub struct ResolvedProgram {
    pub modules: Vec<ParsedModule>,
    pub source_diagnostics: SourceDiagnostics,
    pub symbol_table: SymbolTable,
}

impl ResolvedProgram {
    /// Creates a resolved program from its parts.
    pub fn new(modules: Vec<ParsedModule>, source_diagnostics: SourceDiagnostics, symbol_table: SymbolTable) -> (program: ResolvedProgram)
        ensures
            program.modules == modules,
            program.source_diagnostics == source_diagnostics,
            program.symbol_table == symbol_table,
    {
        ResolvedProgram { modules, source_diagnostics, symbol_table }
    }
}

} // verus!

use vstd::prelude::*;
use crate::source_file::SourceFile;
use crate::source_file_kind::SourceFileKind;
use crate::text::concat3;
use crate::ast::{Item, ItemKind, Statement};
use crate::error::{ErrorKind, FailureView, OcelotError, OcelotResult, error_view, failure_text, kind_text, kind_view_text, is_message_error};
use crate::symbol_table::{FunctionKind, SymbolTable, qualified_name};
use crate::interpreter::{Interpreter, Run, run_statements, statement_expressions, statements_complete, reports_run};
use crate::runtime_value::RuntimeValueView;
use crate::resolver::diagnostics::addressable;
use crate::resolver::effect_propagation::user_sources_addressable;
use crate::parsed_module::ParsedModule;
use crate::engine::{BuiltinModule, FailedTestResult, PassedTestResult, TestRunSummary, module_name_from_path, module_name_of};
use crate::source_file_kind::{path_extension, unsupported_path_message};
use crate::compilation_context::CompilationContext;
use crate::diagnostic::DiagnosticView;
use crate::ast::CompilationUnit;
use crate::resolver::resolution::{
    ProgramStages, last_char_before, last_char_position, lemma_last_char_position, lemma_parse_report_views,
    list_diagnostics, listed_diagnostics, parse_module_text, parse_report, parsed_unit, program_failure, program_finished, program_stages, resolve_program,
};
use crate::interpreter::{interpret_script, items_complete, run_items};
use crate::diagnostic::{SourceDiagnostics, any_error};
use crate::compilation_session::CompilationSession;
use crate::error::CompilationStage;
use crate::parsed_module::ResolvedProgram;
use crate::parser::parse::is_parser_failure;
use vstd::string::StrSliceExecFns;
use crate::parser::arity::{parse_script, script_items};
use crate::ast_view::unit_items;
use crate::resolver::resolution::{CORE_MODULE_NAME, CORE_MODULE_PATH, CORE_MODULE_SOURCE};
use crate::span::Span;
use crate::engine::texts;
use crate::text::chars_of;
use crate::lexer::lex::{failure_view, lex_from};

verus! {

/// The run of `statements` in `file` without local bindings, taken at a fuel on which
/// it completes (all such fuels give the same run).
pub open spec fn completed_run(table: SymbolTable, file: SourceFile, statements: Seq<Statement>) -> Run {
    let expressions = statement_expressions(statements);
    let fuel = choose|fuel: nat| #[trigger] run_statements(table, file, Map::empty(), expressions, statements.len() as int, fuel) is Some;
    run_statements(table, file, Map::empty(), expressions, statements.len() as int, fuel)->Some_0
}

/// What a failed test reports: its name, then what went wrong.
pub open spec fn test_failure_text(name: Seq<char>, failure: FailureView) -> Seq<char> {
    "test `"@ + name + "` failed\n"@ + failure_text(failure)
}

/// Every test among `items` completes when run without local bindings.
pub open spec fn tests_complete(table: SymbolTable, file: SourceFile, items: Seq<Item>) -> bool {
    forall|i: int| 0 <= i < items.len() ==> (#[trigger] items[i].kind matches ItemKind::Test(t)
        ==> statements_complete(table, file, Map::empty(), t.body@))
}

/// The outcome of running the tests among the first `count` items in order: the names
/// of those that passed, the names and reports of those that failed, and what they
/// printed.
pub open spec fn test_results(table: SymbolTable, file: SourceFile, items: Seq<Item>, count: int)
    -> (Seq<Seq<char>>, Seq<(Seq<char>, Seq<char>)>, Seq<char>)
    decreases count,
{
    if count <= 0 || count > items.len() {
        (Seq::empty(), Seq::empty(), Seq::empty())
    } else {
        let (passed, failed, printed) = test_results(table, file, items, count - 1);
        match items[count - 1].kind {
            ItemKind::Test(t) => {
                let run = completed_run(table, file, t.body@);
                match run.0 {
                    Ok(_) => (passed.push(t.name@), failed, printed + run.1),
                    Err(failure) => (passed, failed.push((t.name@, test_failure_text(t.name@, failure))), printed + run.1),
                }
            },
            _ => (passed, failed, printed),
        }
    }
}

/// The number of test items among the first `count` items.
pub open spec fn test_count(items: Seq<Item>, count: int) -> nat
    decreases count,
{
    if count <= 0 || count > items.len() {
        0
    } else {
        test_count(items, count - 1) + if items[count - 1].kind is Test { 1nat } else { 0nat }
    }
}

/// Running the tests of a file reports each of them once: as many passed and failed
/// results together as the file has tests.
pub proof fn law_every_test_reported(table: SymbolTable, file: SourceFile, items: Seq<Item>, count: int)
    requires
        0 <= count <= items.len(),
    ensures
        test_results(table, file, items, count).0.len() + test_results(table, file, items, count).1.len()
            == test_count(items, count),
    decreases count,
{
    if count > 0 {
        law_every_test_reported(table, file, items, count - 1);
    }
}

/// The position of the first test item named `name` among the first `count` items.
pub open spec fn find_test(items: Seq<Item>, name: Seq<char>, count: int) -> Option<int>
    decreases count,
{
    if count <= 0 || count > items.len() {
        None
    } else {
        match find_test(items, name, count - 1) {
            Some(i) => Some(i),
            None => if items[count - 1].kind matches ItemKind::Test(t) && t.name@ == name {
                Some(count - 1)
            } else {
                None
            },
        }
    }
}

/// The position of the first module among the first `count` whose file has path `path`.
pub open spec fn find_module(modules: Seq<ParsedModule>, path: Seq<char>, count: int) -> Option<int>
    decreases count,
{
    if count <= 0 || count > modules.len() {
        None
    } else {
        match find_module(modules, path, count - 1) {
            Some(i) => Some(i),
            None => if modules[count - 1].source_file.path@ == path {
                Some(count - 1)
            } else {
                None
            },
        }
    }
}

proof fn lemma_test_found_stays(items: Seq<Item>, name: Seq<char>, k: int, n: int)
    requires
        0 <= k <= n <= items.len(),
        find_test(items, name, k) is Some,
    ensures
        find_test(items, name, n) == find_test(items, name, k),
    decreases n - k,
{
    if n > k {
        lemma_test_found_stays(items, name, k, n - 1);
    }
}

proof fn lemma_module_found_stays(modules: Seq<ParsedModule>, path: Seq<char>, k: int, n: int)
    requires
        0 <= k <= n <= modules.len(),
        find_module(modules, path, k) is Some,
    ensures
        find_module(modules, path, n) == find_module(modules, path, k),
    decreases n - k,
{
    if n > k {
        lemma_module_found_stays(modules, path, k, n - 1);
    }
}

proof fn lemma_found_in_range_module(modules: Seq<ParsedModule>, path: Seq<char>, n: int)
    ensures
        find_module(modules, path, n) matches Some(i) ==> {
            &&& 0 <= i < n
            &&& modules[i].source_file.path@ == path
        },
    decreases n,
{
    if n > 0 {
        lemma_found_in_range_module(modules, path, n - 1);
    }
}

/// The `main` function that a module runs: the definition registered under
/// `module::main`.
pub open spec fn entrypoint(table: SymbolTable, module_name: Seq<char>) -> Option<crate::symbol_table::FunctionDefinition> {
    match table.function_symbols.get(qualified_name(module_name, "main"@)) {
        Some(index) => table.definition_at(index),
        None => None,
    }
}

/// Running the statements, without local bindings, reports their completed run.
proof fn lemma_completed_run(table: SymbolTable, file: SourceFile, statements: Seq<Statement>, result: OcelotResult<()>, before: Seq<char>, after: Seq<char>)
    requires
        statements_complete(table, file, Map::empty(), statements),
        forall|fuel: nat| #[trigger] run_statements(table, file, Map::empty(), statement_expressions(statements), statements.len() as int, fuel) is Some
            ==> reports_run(result, |u: ()| RuntimeValueView::Unit,
                run_statements(table, file, Map::empty(), statement_expressions(statements), statements.len() as int, fuel)->Some_0,
                before, after),
    ensures
        ({
            let run = completed_run(table, file, statements);
            &&& result is Ok <==> run.0 is Ok
            &&& result matches Err(e) ==> error_view(e) == run.0->Err_0
            &&& after == before + run.1
        }),
{
    let expressions = statement_expressions(statements);
    let fuel = choose|fuel: nat| #[trigger] run_statements(table, file, Map::empty(), expressions, statements.len() as int, fuel) is Some;
    assert(run_statements(table, file, Map::empty(), expressions, statements.len() as int, fuel) is Some);
}

/// The report of a failed test: `test `name` failed`, then the text of what went wrong.
fn test_failure_message(name: &str, error: &OcelotError) -> (message: String)
    ensures
        message@ == "test `"@ + name@ + "` failed\n"@ + kind_view_text(error.kind),
{
    let mut message = concat3("test `", name, "` failed\n");
    let text = kind_text(&error.kind);
    message.append(text.as_str());
    message
}

/// `result` and `after` (what was printed after `before`) are what running the test of
/// `module` named `name` gives: an unknown name fails without running anything; a test
/// that fails reports `test `name` failed`, caused by what went wrong.
pub open spec fn selected_test_outcome(
    table: SymbolTable,
    module: ParsedModule,
    name: Seq<char>,
    result: OcelotResult<()>,
    before: Seq<char>,
    after: Seq<char>,
) -> bool {
    let items = module.compilation_unit.items@;
    match find_test(items, name, items.len() as int) {
        None => {
            &&& result matches Err(e) && is_message_error(e, "unknown test `"@ + name + "`"@)
            &&& after == before
        },
        Some(i) => match items[i].kind {
            ItemKind::Test(t) => {
                let run = completed_run(table, module.source_file, t.body@);
                &&& result is Ok <==> run.0 is Ok
                &&& result matches Err(e) ==> {
                    &&& is_message_error(e, "test `"@ + name + "` failed"@)
                    &&& e.source matches Some(cause) && error_view(*cause) == run.0->Err_0
                }
                &&& after == before + run.1
            },
            _ => false,
        },
    }
}

/// `result` and `after` are what running the `main` function of module file `module`
/// gives: the function registered as `module::main`, run without local bindings.
pub open spec fn entrypoint_outcome(
    table: SymbolTable,
    module: ParsedModule,
    result: OcelotResult<()>,
    before: Seq<char>,
    after: Seq<char>,
) -> bool {
    let name = qualified_name(module.module_name@, "main"@);
    match table.function_symbols.get(name) {
        None => {
            &&& result matches Err(e) && is_message_error(e,
                "module `"@ + module.module_name@ + "` does not define a `main()` entrypoint"@)
            &&& after == before
        },
        Some(index) => match table.definition_at(index) {
            None => {
                &&& result matches Err(e) && is_message_error(e,
                    "internal error: function index points outside the function table"@)
                &&& after == before
            },
            Some(d) => match d.kind {
                FunctionKind::UserDefined { function, source_file } => {
                    let run = completed_run(table, *source_file, function.body@);
                    &&& result is Ok <==> run.0 is Ok
                    &&& result matches Err(e) ==> error_view(e) == run.0->Err_0
                    &&& after == before + run.1
                },
                FunctionKind::NativeFunction { .. } => {
                    &&& result matches Err(e) && is_message_error(e,
                        "internal error: module entrypoint `"@ + name + "` must be user-defined"@)
                    &&& after == before
                },
            },
        },
    }
}

/// `summary` and `after` are what running every test of `module` in order gives.
pub open spec fn all_tests_outcome(
    table: SymbolTable,
    module: ParsedModule,
    summary: TestRunSummary,
    before: Seq<char>,
    after: Seq<char>,
) -> bool {
    let items = module.compilation_unit.items@;
    let (passed, failed, printed) = test_results(table, module.source_file, items, items.len() as int);
    &&& summary.passed@.map_values(|p: PassedTestResult| p.name@) == passed
    &&& summary.failed@.map_values(|f: FailedTestResult| (f.name@, f.message@)) == failed
    &&& forall|i: int| 0 <= i < summary.passed@.len() ==> #[trigger] summary.passed@[i].file_path@ == module.source_file.path@
    &&& forall|i: int| 0 <= i < summary.failed@.len() ==> #[trigger] summary.failed@[i].file_path@ == module.source_file.path@
    &&& after == before + printed
}

/// Running the `main` function of module file `module` completes.
pub open spec fn entrypoint_completes(table: SymbolTable, module: ParsedModule) -> bool {
    entrypoint(table, module.module_name@) matches Some(d) ==> (d.kind matches FunctionKind::UserDefined { function, source_file }
        ==> statements_complete(table, *source_file, Map::empty(), function.body@))
}

/// Running the test of `module` named `name`, if there is one, completes.
pub open spec fn selected_test_completes(table: SymbolTable, module: ParsedModule, name: Seq<char>) -> bool {
    let items = module.compilation_unit.items@;
    find_test(items, name, items.len() as int) matches Some(i) ==> (items[i].kind matches ItemKind::Test(t)
        ==> statements_complete(table, module.source_file, Map::empty(), t.body@))
}

/// Runs every test item of the entry module, in order, each without local bindings,
/// appending what they print to `output`, and collects which passed and which failed.
pub fn run_all_tests(entry_module: &ParsedModule, table: &SymbolTable, output: &mut String) -> (summary: TestRunSummary)
    requires
        tests_complete(*table, entry_module.source_file, entry_module.compilation_unit.items@),
        addressable(entry_module.source_file),
        user_sources_addressable(*table),
    ensures
        all_tests_outcome(*table, *entry_module, summary, old(output)@, final(output)@),
{
    let ghost table_view = *table;
    let ghost file = entry_module.source_file;
    let ghost items = entry_module.compilation_unit.items@;
    let interpreter = Interpreter::new(&entry_module.source_file, table);
    let mut summary = TestRunSummary::new();
    let mut index: usize = 0;
    let path = entry_module.source_file.path.as_str();
    assert(old(output)@ + Seq::<char>::empty() =~= old(output)@);
    while index < entry_module.compilation_unit.items.len()
        invariant
            index <= items.len(),
            items == entry_module.compilation_unit.items@,
            table_view == *table,
            file == entry_module.source_file,
            path@ == file.path@,
            interpreter.table() == table_view,
            interpreter.file() == file,
            interpreter.bindings() == Map::<Seq<char>, RuntimeValueView>::empty(),
            tests_complete(table_view, file, items),
            addressable(file),
            user_sources_addressable(table_view),
            ({
                let (passed, failed, printed) = test_results(table_view, file, items, index as int);
                &&& summary.passed@.map_values(|p: PassedTestResult| p.name@) == passed
                &&& summary.failed@.map_values(|f: FailedTestResult| (f.name@, f.message@)) == failed
                &&& output@ == old(output)@ + printed
            }),
            forall|i: int| 0 <= i < summary.passed@.len() ==> #[trigger] summary.passed@[i].file_path@ == file.path@,
            forall|i: int| 0 <= i < summary.failed@.len() ==> #[trigger] summary.failed@[i].file_path@ == file.path@,
        decreases items.len() - index,
    {
        let ghost before_output = output@;
        let ghost previous = test_results(table_view, file, items, index as int);
        match &entry_module.compilation_unit.items[index].kind {
            ItemKind::Test(test) => {
                proof {
                    assert(items[index as int].kind matches ItemKind::Test(t) ==> statements_complete(table_view, file, Map::empty(), t.body@));
                }
                let result = interpreter.interpret_statements(&test.body, output);
                proof {
                    lemma_completed_run(table_view, file, test.body@, result, before_output, output@);
                }
                let ghost run = completed_run(table_view, file, test.body@);
                match result {
                    Ok(()) => {
                        let ghost old_passed = summary.passed@;
                        summary.passed.push(PassedTestResult::new(path, test.name.as_str()));
                        proof {
                            assert(summary.passed@.map_values(|p: PassedTestResult| p.name@)
                                =~= old_passed.map_values(|p: PassedTestResult| p.name@).push(test.name@));
                        }
                    },
                    Err(error) => {
                        let message = test_failure_message(test.name.as_str(), &error);
                        let ghost old_failed = summary.failed@;
                        summary.failed.push(FailedTestResult::new(path, test.name.as_str(), message.as_str()));
                        proof {
                            assert(kind_view_text(error.kind) == failure_text(error_view(error)));
                            assert(summary.failed@.map_values(|f: FailedTestResult| (f.name@, f.message@))
                                =~= old_failed.map_values(|f: FailedTestResult| (f.name@, f.message@))
                                    .push((test.name@, test_failure_text(test.name@, run.0->Err_0))));
                        }
                    },
                }
                proof {
                    assert(output@ =~= old(output)@ + (previous.2 + run.1));
                }
            },
            _ => {},
        }
        index = index + 1;
    }
    summary
}

/// The module of `modules` whose file is the entry file: the first with path `entry_path`.
pub fn entry_module<'a>(modules: &'a Vec<ParsedModule>, entry_path: &str) -> (result: OcelotResult<&'a ParsedModule>)
    ensures
        match find_module(modules@, entry_path@, modules@.len() as int) {
            Some(i) => result matches Ok(m) && *m == modules@[i],
            None => result matches Err(e) && is_message_error(e, "internal error: entry module was not loaded"@),
        },
{
    let mut index: usize = 0;
    while index < modules.len()
        invariant
            index <= modules@.len(),
            find_module(modules@, entry_path@, index as int) is None,
        decreases modules@.len() - index,
    {
        if crate::text::same_text(modules[index].source_file.path.as_str(), entry_path) {
            proof {
                lemma_module_found_stays(modules@, entry_path@, index + 1, modules@.len() as int);
            }
            return Ok(&modules[index]);
        }
        index = index + 1;
    }
    Err(OcelotError::message_str("internal error: entry module was not loaded"))
}

/// Runs the test item of the entry module named `test_name`, without local bindings,
/// appending what it prints to `output`; a failure is reported as
/// `test `name` failed`, caused by what went wrong.
pub fn run_selected_test(entry_module: &ParsedModule, table: &SymbolTable, test_name: &str, output: &mut String) -> (result: OcelotResult<()>)
    requires
        addressable(entry_module.source_file),
        user_sources_addressable(*table),
        selected_test_completes(*table, *entry_module, test_name@),
    ensures
        selected_test_outcome(*table, *entry_module, test_name@, result, old(output)@, final(output)@),
{
    let ghost items = entry_module.compilation_unit.items@;
    let mut index: usize = 0;
    while index < entry_module.compilation_unit.items.len()
        invariant
            index <= items.len(),
            items == entry_module.compilation_unit.items@,
            find_test(items, test_name@, index as int) is None,
            output@ == old(output)@,
            addressable(entry_module.source_file),
            user_sources_addressable(*table),
            find_test(items, test_name@, items.len() as int) matches Some(i) ==> (items[i].kind matches ItemKind::Test(t)
                ==> statements_complete(*table, entry_module.source_file, Map::empty(), t.body@)),
        decreases items.len() - index,
    {
        match &entry_module.compilation_unit.items[index].kind {
            ItemKind::Test(test) => {
                if crate::text::same_text(test.name.as_str(), test_name) {
                    proof {
                        lemma_test_found_stays(items, test_name@, index + 1, items.len() as int);
                    }
                    let ghost before_output = output@;
                    let interpreter = Interpreter::new(&entry_module.source_file, table);
                    let result = interpreter.interpret_statements(&test.body, output);
                    proof {
                        lemma_completed_run(*table, entry_module.source_file, test.body@, result, before_output, output@);
                    }
                    return match result {
                        Ok(()) => Ok(()),
                        Err(error) => Err(OcelotError::message(concat3("test `", test_name, "` failed")).with_source(error)),
                    };
                }
            },
            _ => {},
        }
        index = index + 1;
    }
    Err(OcelotError::message(concat3("unknown test `", test_name, "`")))
}

/// Runs the `main` function of a module file, without local bindings, appending what it
/// prints to `output`.
pub fn run_module_entrypoint(entry_module: &ParsedModule, table: &SymbolTable, output: &mut String) -> (result: OcelotResult<()>)
    requires
        user_sources_addressable(*table),
        entrypoint_completes(*table, *entry_module),
    ensures
        entrypoint_outcome(*table, *entry_module, result, old(output)@, final(output)@),
{
    let entrypoint_name = table.qualify_function_name(entry_module.module_name.as_str(), "main");
    let function_index = match table.resolve_function_exact(entrypoint_name.as_str()) {
        Some(index) => index,
        None => return Err(OcelotError::message(concat3(
            "module `",
            entry_module.module_name.as_str(),
            "` does not define a `main()` entrypoint",
        ))),
    };
    let definition = match table.function_definition(function_index) {
        Ok(definition) => definition,
        Err(error) => return Err(error),
    };
    match &definition.kind {
        FunctionKind::UserDefined { function, source_file } => {
            proof {
                assert(addressable(**source_file));
            }
            let ghost before_output = output@;
            let interpreter = Interpreter::new(source_file, table);
            let result = interpreter.interpret_statements(&function.body, output);
            proof {
                lemma_completed_run(*table, **source_file, function.body@, result, before_output, output@);
            }
            result
        },
        FunctionKind::NativeFunction { .. } => Err(OcelotError::message(concat3(
            "internal error: module entrypoint `",
            entrypoint_name.as_str(),
            "` must be user-defined",
        ))),
    }
}

/// The kind that a path's extension gives its file, if any.
pub open spec fn kind_of_path(path: Seq<char>) -> Option<SourceFileKind> {
    if path_extension(path) == Some("ocelot"@) {
        Some(SourceFileKind::Module)
    } else if path_extension(path) == Some("ocelot-script"@) {
        Some(SourceFileKind::Script)
    } else {
        None
    }
}

/// What a parsed file is loaded as: its kind and module name, or the message of the
/// first of them that cannot be derived.
pub open spec fn file_identity(path: Seq<char>, base_path: Seq<char>) -> Result<(SourceFileKind, Seq<char>), Seq<char>> {
    match kind_of_path(path) {
        None => Err(unsupported_path_message(path)),
        Some(kind) => match module_name_of(base_path, path) {
            None => Err("internal error: `"@ + path + "` is not inside execution root `"@ + base_path + "`"@),
            Some(name) => Ok((kind, name)),
        },
    }
}

/// Loading the first `count` files in order: the positions, kinds and names of those
/// whose text parses, what parsing reported, and the message that stopped loading.
pub open spec fn load_files(files: Seq<SourceFile>, base_path: Seq<char>, count: int)
    -> (Seq<(int, SourceFileKind, Seq<char>)>, Seq<DiagnosticView>, Option<Seq<char>>)
    decreases count,
{
    if count <= 0 || count > files.len() {
        (Seq::empty(), Seq::empty(), None)
    } else {
        let (loaded, reported, stopped) = load_files(files, base_path, count - 1);
        if stopped is Some {
            (loaded, reported, stopped)
        } else {
            let report = parse_report(files[count - 1]);
            if !report.0 {
                (loaded, reported + report.1, None)
            } else {
                match file_identity(files[count - 1].path@, base_path) {
                    Ok((kind, name)) => (loaded.push((count - 1, kind, name)), reported + report.1, None),
                    Err(message) => (loaded, reported + report.1, Some(message)),
                }
            }
        }
    }
}

proof fn lemma_loading_stopped_stays(files: Seq<SourceFile>, base_path: Seq<char>, k: int, n: int)
    requires
        0 <= k <= n <= files.len(),
        load_files(files, base_path, k).2 is Some,
    ensures
        load_files(files, base_path, n) == load_files(files, base_path, k),
    decreases n - k,
{
    if n > k {
        lemma_loading_stopped_stays(files, base_path, k, n - 1);
    }
}

/// The path under which a builtin module's text is read: `<builtin:name>`.
pub open spec fn builtin_path(module: BuiltinModule) -> Seq<char> {
    "<builtin:"@ + module.module_name@ + ">"@
}

/// What parsing a builtin module's text reports.
pub open spec fn builtin_report(module: BuiltinModule) -> (bool, Seq<DiagnosticView>) {
    parse_report(choose|file: SourceFile| file.path@ == builtin_path(module) && file.source@ == module.source@)
}

/// Loading the first `count` builtin modules in order: the positions of those whose
/// text parses, and what parsing reported.
pub open spec fn load_builtins(modules: Seq<BuiltinModule>, count: int) -> (Seq<int>, Seq<DiagnosticView>)
    decreases count,
{
    if count <= 0 || count > modules.len() {
        (Seq::empty(), Seq::empty())
    } else {
        let (loaded, reported) = load_builtins(modules, count - 1);
        let report = builtin_report(modules[count - 1]);
        (if report.0 { loaded.push(count - 1) } else { loaded }, reported + report.1)
    }
}

/// `module` is `file` loaded with `kind` and `name`.
pub open spec fn loaded_as(module: ParsedModule, file: SourceFile, kind: SourceFileKind, name: Seq<char>) -> bool {
    &&& module.source_file == file
    &&& module.kind == kind
    &&& module.module_name@ == name
    &&& parsed_unit(file, module.compilation_unit)
}

/// `module` is the builtin module `builtin`, loaded as a module file.
pub open spec fn builtin_loaded_as(module: ParsedModule, builtin: BuiltinModule) -> bool {
    &&& module.source_file.path@ == builtin_path(builtin)
    &&& module.source_file.source@ == builtin.source@
    &&& module.kind == SourceFileKind::Module
    &&& module.module_name@ == builtin.module_name@
    &&& parsed_unit(module.source_file, module.compilation_unit)
}

/// `modules` are the files, then the builtin modules, whose text parses, each loaded as
/// loading them in order gives.
pub open spec fn modules_loaded(files: Seq<SourceFile>, base_path: Seq<char>, builtins: Seq<BuiltinModule>, modules: Seq<ParsedModule>) -> bool {
    let loaded = load_files(files, base_path, files.len() as int).0;
    let builtin_positions = load_builtins(builtins, builtins.len() as int).0;
    &&& modules.len() == loaded.len() + builtin_positions.len()
    &&& forall|j: int| 0 <= j < loaded.len() ==> #[trigger] loaded_as(modules[j], files[loaded[j].0], loaded[j].1, loaded[j].2)
    &&& forall|j: int| 0 <= j < builtin_positions.len() ==> #[trigger] builtin_loaded_as(modules[loaded.len() + j], builtins[builtin_positions[j]])
}

/// The text of every file, and of every builtin module, can be measured in `usize` offsets.
pub open spec fn inputs_addressable(files: Seq<SourceFile>, builtins: Seq<BuiltinModule>) -> bool {
    &&& forall|k: int| 0 <= k < files.len() ==> addressable(#[trigger] files[k])
    &&& forall|k: int| 0 <= k < builtins.len() ==> vstd::utf8::encode_utf8(#[trigger] builtins[k].source@).len() < usize::MAX
}

/// Parses every file, then every builtin module, in order. A file whose text does not
/// parse is left out (what parsing reported goes to `compilation_context`); one that
/// parses becomes a module of the kind its extension gives, named by its place below
/// `base_path`, and the first file for which either cannot be derived stops loading.
pub fn parse_modules(
    files: Vec<SourceFile>,
    base_path: &str,
    builtin_modules: &Vec<BuiltinModule>,
    compilation_context: &mut CompilationContext,
) -> (result: OcelotResult<Vec<ParsedModule>>)
    requires
        inputs_addressable(files@, builtin_modules@),
    ensures
        ({
            let (loaded, reported, stopped) = load_files(files@, base_path@, files@.len() as int);
            let (builtins, builtin_reported) = load_builtins(builtin_modules@, builtin_modules@.len() as int);
            match stopped {
                Some(message) => {
                    &&& result matches Err(e) && is_message_error(e, message)
                    &&& final(compilation_context)@ == old(compilation_context)@ + reported
                },
                None => {
                    &&& result matches Ok(modules) && modules_loaded(files@, base_path@, builtin_modules@, modules@)
                    &&& final(compilation_context)@ == old(compilation_context)@ + reported + builtin_reported
                },
            }
        }),
{
    let ghost all_files = files@;
    let file_total = files.len();
    let mut parsed_modules: Vec<ParsedModule> = Vec::new();
    let mut rest = files;
    let mut index: usize = 0;
    assert(old(compilation_context)@ + Seq::<DiagnosticView>::empty() =~= old(compilation_context)@);
    while rest.len() > 0
        invariant
            index + rest@.len() == all_files.len(),
            all_files == files@,
            all_files.len() == file_total,
            rest@ == all_files.subrange(index as int, all_files.len() as int),
            inputs_addressable(all_files, builtin_modules@),
            ({
                let (loaded, reported, stopped) = load_files(all_files, base_path@, index as int);
                &&& stopped is None
                &&& compilation_context@ == old(compilation_context)@ + reported
                &&& parsed_modules@.len() == loaded.len()
                &&& forall|j: int| 0 <= j < loaded.len() ==> #[trigger] loaded_as(parsed_modules@[j], all_files[loaded[j].0], loaded[j].1, loaded[j].2)
            }),
        decreases rest@.len(),
    {
        let ghost previous = load_files(all_files, base_path@, index as int);
        let ghost before = compilation_context@;
        let file = rest.remove(0);
        assert(file == all_files[index as int]);
        let parsed = parse_module_text(&file, compilation_context);
        match parsed {
            Ok(unit) => {
                let kind = match SourceFileKind::from_path(file.path.as_str()) {
                    Ok(kind) => kind,
                    Err(error) => {
                        proof {
                            assert(compilation_context@ =~= old(compilation_context)@ + (previous.1 + parse_report(file).1));
                            lemma_loading_stopped_stays(all_files, base_path@, index + 1, all_files.len() as int);
                        }
                        return Err(error);
                    },
                };
                let name = match module_name_from_path(base_path, file.path.as_str()) {
                    Ok(name) => name,
                    Err(error) => {
                        proof {
                            assert(compilation_context@ =~= old(compilation_context)@ + (previous.1 + parse_report(file).1));
                            lemma_loading_stopped_stays(all_files, base_path@, index + 1, all_files.len() as int);
                        }
                        return Err(error);
                    },
                };
                let module = ParsedModule::new(name.as_str(), kind, file, unit);
                let ghost before_modules = parsed_modules@;
                parsed_modules.push(module);
                proof {
                    let now = load_files(all_files, base_path@, index + 1);
                    assert(now.0 == previous.0.push((index as int, kind, name@)));
                    assert forall|j: int| 0 <= j < now.0.len() implies #[trigger] loaded_as(parsed_modules@[j], all_files[now.0[j].0], now.0[j].1, now.0[j].2) by {
                        if j < previous.0.len() {
                            assert(parsed_modules@[j] == before_modules[j]);
                        }
                    }
                }
            },
            Err(_) => {},
        }
        proof {
            assert(compilation_context@ =~= old(compilation_context)@ + (previous.1 + parse_report(all_files[index as int]).1));
        }
        index = index + 1;
    }
    let ghost file_count = index as int;
    let ghost loaded_files = load_files(all_files, base_path@, file_count);
    let ghost after_files = compilation_context@;
    let mut builtin_index: usize = 0;
    assert(after_files + Seq::<DiagnosticView>::empty() =~= after_files);
    while builtin_index < builtin_modules.len()
        invariant
            builtin_index <= builtin_modules@.len(),
            file_count == all_files.len(),
            loaded_files == load_files(all_files, base_path@, file_count),
            after_files == old(compilation_context)@ + loaded_files.1,
            inputs_addressable(all_files, builtin_modules@),
            ({
                let (builtins, reported) = load_builtins(builtin_modules@, builtin_index as int);
                &&& compilation_context@ == after_files + reported
                &&& parsed_modules@.len() == loaded_files.0.len() + builtins.len()
                &&& forall|j: int| 0 <= j < loaded_files.0.len() ==> #[trigger] loaded_as(parsed_modules@[j], all_files[loaded_files.0[j].0], loaded_files.0[j].1, loaded_files.0[j].2)
                &&& forall|j: int| 0 <= j < builtins.len() ==> #[trigger] builtin_loaded_as(parsed_modules@[loaded_files.0.len() + j], builtin_modules@[builtins[j]])
            }),
        decreases builtin_modules@.len() - builtin_index,
    {
        let ghost previous = load_builtins(builtin_modules@, builtin_index as int);
        let builtin = &builtin_modules[builtin_index];
        let source_file = SourceFile::from_strings(builtin.source_file_path(), builtin.source.clone());
        proof {
            assert(addressable(source_file));
            let chosen = choose|file: SourceFile| file.path@ == builtin_path(*builtin) && file.source@ == builtin.source@;
            assert(source_file.path@ == builtin_path(*builtin) && source_file.source@ == builtin.source@);
            lemma_parse_report_views(chosen, source_file);
        }
        let parsed = parse_module_text(&source_file, compilation_context);
        match parsed {
            Ok(unit) => {
                let module = ParsedModule::new(builtin.module_name.as_str(), SourceFileKind::Module, source_file, unit);
                let ghost before_modules = parsed_modules@;
                parsed_modules.push(module);
                proof {
                    let now = load_builtins(builtin_modules@, builtin_index + 1);
                    assert(now.0 == previous.0.push(builtin_index as int));
                    assert forall|j: int| 0 <= j < loaded_files.0.len() implies #[trigger] loaded_as(parsed_modules@[j], all_files[loaded_files.0[j].0], loaded_files.0[j].1, loaded_files.0[j].2) by {
                        assert(parsed_modules@[j] == before_modules[j]);
                    }
                    assert forall|j: int| 0 <= j < now.0.len() implies #[trigger] builtin_loaded_as(parsed_modules@[loaded_files.0.len() + j], builtin_modules@[now.0[j]]) by {
                        if j < previous.0.len() {
                            assert(parsed_modules@[loaded_files.0.len() + j] == before_modules[loaded_files.0.len() + j]);
                        }
                    }
                }
            },
            Err(_) => {},
        }
        proof {
            assert(compilation_context@ =~= after_files + (previous.1 + builtin_report(builtin_modules@[builtin_index as int]).1));
        }
        builtin_index = builtin_index + 1;
    }
    Ok(parsed_modules)
}

/// The run of the top-level statements among `items` in `file` without local bindings,
/// taken at a fuel on which it completes.
pub open spec fn completed_items_run(table: SymbolTable, file: SourceFile, items: Seq<Item>) -> Run {
    let fuel = choose|fuel: nat| #[trigger] run_items(table, file, Map::empty(), items, items.len() as int, fuel) is Some;
    run_items(table, file, Map::empty(), items, items.len() as int, fuel)->Some_0
}

/// `result` and `after` are what running script `module` gives.
pub open spec fn script_outcome(table: SymbolTable, module: ParsedModule, result: OcelotResult<()>, before: Seq<char>, after: Seq<char>) -> bool {
    let run = completed_items_run(table, module.source_file, module.compilation_unit.items@);
    &&& result is Ok <==> run.0 is Ok
    &&& result matches Err(e) ==> error_view(e) == run.0->Err_0
    &&& after == before + run.1
}

/// The directory part of a `/`-separated path: what comes before its last `/` (`/`
/// itself when that is its first character, nothing when it has none); none for an
/// empty path.
pub open spec fn parent_path(path: Seq<char>) -> Option<Seq<char>> {
    if path.len() == 0 {
        None
    } else {
        let slash = last_char_position(path, '/', path.len() as int);
        if slash < 0 {
            Some(Seq::empty())
        } else if slash == 0 {
            Some("/"@)
        } else {
            Some(path.subrange(0, slash))
        }
    }
}

fn parent_of(path: &str) -> (parent: Option<String>)
    ensures
        match parent_path(path@) {
            Some(expected) => parent matches Some(p) && p@ == expected,
            None => parent is None,
        },
{
    let length = path.unicode_len();
    if length == 0 {
        return None;
    }
    proof {
        lemma_last_char_position(path@, '/', length as int);
        reveal_strlit("");
        reveal_strlit("/");
    }
    let slash = last_char_before(path, '/', length);
    if slash == length {
        Some(String::from_str(""))
    } else if slash == 0 {
        Some(String::from_str("/"))
    } else {
        Some(String::from_str(path.substring_char(0, slash)))
    }
}

/// What a command asks the engine to do with its entry file.
#[derive(Debug, Clone)]
pub enum RunCommandKind {
    /// Run the script, or the `main` function of the module.
    RunFile,
    /// Run the test of the entry file with this name.
    RunTest { test_name: String },
    /// Run every test of the entry file.
    RunTests,
}

/// One run of the engine: the entry file, the directory whose files make up the
/// program (the entry file's), and what to do.
#[derive(Debug, Clone)]
pub struct EngineCommand {
    pub base_path: String,
    pub entry_path: String,
    pub kind: RunCommandKind,
}

impl EngineCommand {
    fn with_kind(path: &str, kind: RunCommandKind) -> (command: OcelotResult<EngineCommand>)
        ensures
            match parent_path(path@) {
                Some(parent) => command matches Ok(c) && c.base_path@ == parent && c.entry_path@ == path@ && c.kind == kind,
                None => command matches Err(e) && is_message_error(e, "Failed to get parent of "@ + path@),
            },
    {
        match parent_of(path) {
            Some(base_path) => Ok(EngineCommand { base_path, entry_path: String::from_str(path), kind }),
            None => Err(OcelotError::message(crate::text::concat2("Failed to get parent of ", path))),
        }
    }

    /// A command that runs the file at `path`.
    pub fn run_file(path: &str) -> (command: OcelotResult<EngineCommand>)
        ensures
            match parent_path(path@) {
                Some(parent) => command matches Ok(c) && c.base_path@ == parent && c.entry_path@ == path@ && c.kind is RunFile,
                None => command matches Err(e) && is_message_error(e, "Failed to get parent of "@ + path@),
            },
    {
        EngineCommand::with_kind(path, RunCommandKind::RunFile)
    }

    /// A command that runs the test named `test_name` of the file at `path`.
    pub fn run_test(path: &str, test_name: &str) -> (command: OcelotResult<EngineCommand>)
        ensures
            match parent_path(path@) {
                Some(parent) => command matches Ok(c) && c.base_path@ == parent && c.entry_path@ == path@
                    && (c.kind matches RunCommandKind::RunTest { test_name: name } && name@ == test_name@),
                None => command matches Err(e) && is_message_error(e, "Failed to get parent of "@ + path@),
            },
    {
        EngineCommand::with_kind(path, RunCommandKind::RunTest { test_name: String::from_str(test_name) })
    }

    /// A command that runs every test of the file at `path`.
    pub fn run_tests(path: &str) -> (command: OcelotResult<EngineCommand>)
        ensures
            match parent_path(path@) {
                Some(parent) => command matches Ok(c) && c.base_path@ == parent && c.entry_path@ == path@ && c.kind is RunTests,
                None => command matches Err(e) && is_message_error(e, "Failed to get parent of "@ + path@),
            },
    {
        EngineCommand::with_kind(path, RunCommandKind::RunTests)
    }

    /// The path of the entry file.
    pub fn entry_path(&self) -> (path: &str)
        ensures
            path@ == self.entry_path@,
    {
        self.entry_path.as_str()
    }
}

/// `program` is what resolving `modules` together gives.
pub open spec fn resolved_from(modules: Seq<ParsedModule>, session: CompilationSession, program: ResolvedProgram) -> bool {
    exists|stages: ProgramStages, inferred: Seq<crate::symbol_table::ResolvedFunction>| {
        &&& #[trigger] program_stages(stages, modules, session)
        &&& #[trigger] program_finished(stages, modules, inferred, program)
    }
}

/// Resolving `modules` together fails with `e`, at one of the stages that
/// `program_failure` lists.
pub open spec fn resolution_failed(modules: Seq<ParsedModule>, session: CompilationSession, e: OcelotError) -> bool {
    exists|stages: ProgramStages, context: Seq<DiagnosticView>, inferred: Seq<crate::symbol_table::ResolvedFunction>|
        #[trigger] program_failure(stages, context, inferred, modules, session, e)
}

/// What `command` runs of `program` completes.
pub open spec fn command_completes(program: ResolvedProgram, command: EngineCommand) -> bool {
    let table = program.symbol_table;
    match find_module(program.modules@, command.entry_path@, program.modules@.len() as int) {
        None => true,
        Some(i) => {
            let module = program.modules@[i];
            match command.kind {
                RunCommandKind::RunFile => match module.kind {
                    SourceFileKind::Script => items_complete(table, module.source_file, Map::empty(), module.compilation_unit.items@),
                    SourceFileKind::Module => entrypoint_completes(table, module),
                },
                RunCommandKind::RunTest { test_name } => selected_test_completes(table, module, test_name@),
                RunCommandKind::RunTests => tests_complete(table, module.source_file, module.compilation_unit.items@),
            }
        },
    }
}

proof fn lemma_completed_items_run(table: SymbolTable, file: SourceFile, items: Seq<Item>, result: OcelotResult<()>, before: Seq<char>, after: Seq<char>)
    requires
        items_complete(table, file, Map::empty(), items),
        forall|fuel: nat| #[trigger] run_items(table, file, Map::empty(), items, items.len() as int, fuel) is Some
            ==> reports_run(result, |u: ()| RuntimeValueView::Unit,
                run_items(table, file, Map::empty(), items, items.len() as int, fuel)->Some_0, before, after),
    ensures
        ({
            let run = completed_items_run(table, file, items);
            &&& result is Ok <==> run.0 is Ok
            &&& result matches Err(e) ==> error_view(e) == run.0->Err_0
            &&& after == before + run.1
        }),
{
    let fuel = choose|fuel: nat| #[trigger] run_items(table, file, Map::empty(), items, items.len() as int, fuel) is Some;
    assert(run_items(table, file, Map::empty(), items, items.len() as int, fuel) is Some);
}

proof fn lemma_loaded_addressable(files: Seq<SourceFile>, base_path: Seq<char>, builtins: Seq<BuiltinModule>, modules: Seq<ParsedModule>)
    requires
        inputs_addressable(files, builtins),
        modules_loaded(files, base_path, builtins, modules),
    ensures
        forall|i: int| 0 <= i < modules.len() ==> addressable(#[trigger] modules[i].source_file),
{
    let loaded = load_files(files, base_path, files.len() as int).0;
    let positions = load_builtins(builtins, builtins.len() as int).0;
    lemma_loaded_positions(files, base_path, files.len() as int);
    lemma_builtin_positions(builtins, builtins.len() as int);
    assert forall|i: int| 0 <= i < modules.len() implies addressable(#[trigger] modules[i].source_file) by {
        if i < loaded.len() {
            assert(loaded_as(modules[i], files[loaded[i].0], loaded[i].1, loaded[i].2));
        } else {
            let j = i - loaded.len();
            assert(builtin_loaded_as(modules[loaded.len() + j], builtins[positions[j]]));
        }
    }
}

proof fn lemma_loaded_positions(files: Seq<SourceFile>, base_path: Seq<char>, count: int)
    ensures
        forall|j: int| 0 <= j < load_files(files, base_path, count).0.len()
            ==> 0 <= #[trigger] load_files(files, base_path, count).0[j].0 < count,
    decreases count,
{
    if count > 0 && count <= files.len() {
        lemma_loaded_positions(files, base_path, count - 1);
        let previous = load_files(files, base_path, count - 1).0;
        let now = load_files(files, base_path, count).0;
        assert forall|j: int| 0 <= j < now.len() implies 0 <= #[trigger] now[j].0 < count by {
            if j < previous.len() {
                assert(now[j] == previous[j]);
            }
        }
    }
}

proof fn lemma_builtin_positions(builtins: Seq<BuiltinModule>, count: int)
    ensures
        forall|j: int| 0 <= j < load_builtins(builtins, count).0.len()
            ==> 0 <= #[trigger] load_builtins(builtins, count).0[j] < count,
    decreases count,
{
    if count > 0 && count <= builtins.len() {
        lemma_builtin_positions(builtins, count - 1);
        let previous = load_builtins(builtins, count - 1).0;
        let now = load_builtins(builtins, count).0;
        assert forall|j: int| 0 <= j < now.len() implies 0 <= #[trigger] now[j] < count by {
            if j < previous.len() {
                assert(now[j] == previous[j]);
            }
        }
    }
}

/// Checks that the source file of every user-defined function can be measured in `usize`
/// offsets.
fn sources_addressable(table: &SymbolTable) -> (addressable_sources: bool)
    ensures
        addressable_sources == user_sources_addressable(*table),
{
    let mut index: usize = 0;
    while index < table.functions.len()
        invariant
            index <= table.functions@.len(),
            forall|p: int| 0 <= p < index ==> match #[trigger] table.functions@[p] {
                Some(definition) => match definition.kind {
                    FunctionKind::UserDefined { source_file, .. } => addressable(*source_file),
                    FunctionKind::NativeFunction { .. } => true,
                },
                None => true,
            },
        decreases table.functions@.len() - index,
    {
        match &table.functions[index] {
            Some(definition) => match &definition.kind {
                FunctionKind::UserDefined { source_file, .. } => {
                    if source_file.source_bytes().len() == usize::MAX {
                        return false;
                    }
                },
                FunctionKind::NativeFunction { .. } => {},
            },
            None => {},
        }
        index = index + 1;
    }
    true
}

/// `result`, the summary after and what was printed after `before` are what running
/// `command` on `program` gives, when the worker holds `program`.
pub open spec fn execution_outcome(
    program: Option<ResolvedProgram>,
    command: EngineCommand,
    summary_before: TestRunSummary,
    summary_after: TestRunSummary,
    result: OcelotResult<()>,
    before: Seq<char>,
    after: Seq<char>,
) -> bool {
    match program {
        None => {
            &&& result matches Err(e) && is_message_error(e, "internal error: program was not resolved"@)
            &&& after == before && summary_after == summary_before
        },
        Some(program) => match find_module(program.modules@, command.entry_path@, program.modules@.len() as int) {
            None => {
                &&& result matches Err(e) && is_message_error(e, "internal error: entry module was not loaded"@)
                &&& after == before && summary_after == summary_before
            },
            Some(i) => {
                let module = program.modules@[i];
                let table = program.symbol_table;
                if !user_sources_addressable(table) || !addressable(module.source_file) {
                    &&& result matches Err(e) && is_message_error(e, "internal error: a source file is too large to run"@)
                    &&& after == before && summary_after == summary_before
                } else {
                    match command.kind {
                        RunCommandKind::RunFile => summary_after == summary_before && match module.kind {
                            SourceFileKind::Script => script_outcome(table, module, result, before, after),
                            SourceFileKind::Module => entrypoint_outcome(table, module, result, before, after),
                        },
                        RunCommandKind::RunTest { test_name } => summary_after == summary_before
                            && selected_test_outcome(table, module, test_name@, result, before, after),
                        RunCommandKind::RunTests => result is Ok && all_tests_outcome(table, module, summary_after, before, after),
                    }
                }
            },
        },
    }
}

/// Runs one command: loads the files of the program (parsing and resolving them), then
/// runs what the command asks of the entry file.
pub struct EngineWorker {
    command: EngineCommand,
    builtin_modules: Vec<BuiltinModule>,
    parser_source_diagnostics: CompilationContext,
    resolved_program: Option<ResolvedProgram>,
    test_run_summary: TestRunSummary,
}

impl EngineWorker {
    /// What the worker runs.
    pub closed spec fn command(&self) -> EngineCommand {
        self.command
    }

    /// The modules compiled into the toolchain that every program loads.
    pub closed spec fn builtins(&self) -> Seq<BuiltinModule> {
        self.builtin_modules@
    }

    /// What parsing the program reported.
    pub closed spec fn parser_diagnostics(&self) -> Seq<DiagnosticView> {
        self.parser_source_diagnostics@
    }

    /// The program once resolved.
    pub closed spec fn program(&self) -> Option<ResolvedProgram> {
        self.resolved_program
    }

    /// What the last run of every test gave.
    pub closed spec fn summary(&self) -> TestRunSummary {
        self.test_run_summary
    }

    /// Creates a worker for `command` that loads `builtin_modules` with every program.
    pub fn new(command: EngineCommand, builtin_modules: Vec<BuiltinModule>) -> (worker: EngineWorker)
        ensures
            worker.command() == command,
            worker.builtins() == builtin_modules@,
            worker.parser_diagnostics() == Seq::<DiagnosticView>::empty(),
            worker.program() is None,
            worker.summary().passed@.len() == 0 && worker.summary().failed@.len() == 0,
    {
        EngineWorker {
            command,
            builtin_modules,
            parser_source_diagnostics: CompilationContext::default(),
            resolved_program: None,
            test_run_summary: TestRunSummary::new(),
        }
    }

    /// The diagnostics of the program once resolved, else those of parsing.
    pub fn source_diagnostics(&self) -> (diagnostics: &SourceDiagnostics)
        ensures
            match self.program() {
                Some(program) => *diagnostics == program.source_diagnostics,
                None => diagnostics@ == self.parser_diagnostics(),
            },
    {
        match &self.resolved_program {
            Some(program) => &program.source_diagnostics,
            None => &self.parser_source_diagnostics.source_diagnostics,
        }
    }

    /// What the last run of every test gave.
    pub fn test_run_summary(&self) -> (summary: &TestRunSummary)
        ensures
            *summary == self.summary(),
    {
        &self.test_run_summary
    }

    /// Loads the program from `files` (the files of the command's directory, the entry
    /// file among them) and the builtin modules: parses them, stopping with a parser
    /// compilation error when parsing reported one, then resolves the modules together,
    /// failing with a resolver compilation error when resolution reported one; each
    /// compilation error is caused by an error that lists the diagnostics.
    pub fn load(&mut self, files: Vec<SourceFile>, compilation_session: &CompilationSession) -> (result: OcelotResult<()>)
        requires
            inputs_addressable(files@, old(self).builtins()),
        ensures
            final(self).command() == old(self).command(),
            final(self).builtins() == old(self).builtins(),
            final(self).summary() == old(self).summary(),
            ({
                let base_path = old(self).command().base_path@;
                let (loaded, reported, stopped) = load_files(files@, base_path, files@.len() as int);
                let builtin_reported = load_builtins(old(self).builtins(), old(self).builtins().len() as int).1;
                match stopped {
                    Some(message) => {
                        &&& result matches Err(e) && is_message_error(e, message)
                        &&& final(self).program() is None
                        &&& final(self).parser_diagnostics() == old(self).parser_diagnostics() + reported
                    },
                    None => {
                        let diagnostics = old(self).parser_diagnostics() + reported + builtin_reported;
                        &&& final(self).parser_diagnostics() == diagnostics
                        &&& any_error(diagnostics) ==> {
                            &&& result matches Err(e) && e.kind == ErrorKind::CompilationError(CompilationStage::Parser)
                                && (e.source matches Some(cause) && is_message_error(*cause, listed_diagnostics(diagnostics)))
                            &&& final(self).program() is None
                        }
                        &&& !any_error(diagnostics) ==> {
                            &&& final(self).program() matches Some(program) ==> exists|modules: Seq<ParsedModule>|
                                #[trigger] modules_loaded(files@, base_path, old(self).builtins(), modules)
                                && resolved_from(modules, *compilation_session, program)
                            &&& result is Ok <==> (final(self).program() matches Some(program) && !any_error(program.source_diagnostics@))
                            &&& result matches Err(e) ==> match final(self).program() {
                                Some(program) => e.kind == ErrorKind::CompilationError(CompilationStage::Resolver)
                                    && (e.source matches Some(cause) && is_message_error(*cause,
                                        listed_diagnostics(program.source_diagnostics@))),
                                None => exists|modules: Seq<ParsedModule>| #[trigger] modules_loaded(files@, base_path,
                                    old(self).builtins(), modules) && resolution_failed(modules, *compilation_session, e),
                            }
                        }
                    },
                }
            }),
    {
        self.resolved_program = None;
        let modules = parse_modules(files, self.command.base_path.as_str(), &self.builtin_modules, &mut self.parser_source_diagnostics);
        let modules = match modules {
            Ok(modules) => modules,
            Err(error) => return Err(error),
        };
        if self.parser_source_diagnostics.has_errors() {
            let listing = list_diagnostics(&self.parser_source_diagnostics.source_diagnostics);
            return Err(OcelotError::compilation_error(CompilationStage::Parser).with_source(OcelotError::message(listing)));
        }
        let ghost loaded = modules@;
        proof {
            lemma_loaded_addressable(files@, self.command.base_path@, self.builtin_modules@, modules@);
        }
        let program = match resolve_program(modules, compilation_session) {
            Ok(program) => program,
            Err(error) => {
                proof {
                    assert(modules_loaded(files@, old(self).command().base_path@, old(self).builtins(), loaded));
                    assert(resolution_failed(loaded, *compilation_session, error));
                }
                return Err(error);
            },
        };
        let has_errors = program.source_diagnostics.has_errors();
        let listing = list_diagnostics(&program.source_diagnostics);
        self.resolved_program = Some(program);
        proof {
            assert(modules_loaded(files@, old(self).command().base_path@, old(self).builtins(), loaded));
        }
        if has_errors {
            return Err(OcelotError::compilation_error(CompilationStage::Resolver).with_source(OcelotError::message(listing)));
        }
        Ok(())
    }

    /// Runs what the command asks of the entry file of the loaded program, appending what
    /// it prints to `output`: the script, or the `main` function of a module file; the
    /// test of the given name; or every test, whose summary the worker keeps.
    pub fn execute(&mut self, output: &mut String) -> (result: OcelotResult<()>)
        requires
            old(self).program() matches Some(program) ==> command_completes(program, old(self).command()),
        ensures
            final(self).command() == old(self).command(),
            final(self).builtins() == old(self).builtins(),
            final(self).parser_diagnostics() == old(self).parser_diagnostics(),
            final(self).program() == old(self).program(),
            execution_outcome(old(self).program(), old(self).command(), old(self).summary(), final(self).summary(),
                result, old(output)@, final(output)@),
    {
        let program = match &self.resolved_program {
            Some(program) => program,
            None => return Err(OcelotError::message_str("internal error: program was not resolved")),
        };
        let module = match entry_module(&program.modules, self.command.entry_path.as_str()) {
            Ok(module) => module,
            Err(error) => return Err(error),
        };
        proof {
            lemma_found_in_range_module(program.modules@, self.command.entry_path@, program.modules@.len() as int);
        }
        let table = &program.symbol_table;
        if !sources_addressable(table) || module.source_file.source_bytes().len() == usize::MAX {
            return Err(OcelotError::message_str("internal error: a source file is too large to run"));
        }
        match &self.command.kind {
            RunCommandKind::RunFile => match module.kind {
                SourceFileKind::Script => {
                    let ghost before = output@;
                    let result = interpret_script(&module.compilation_unit, &module.source_file, table, output);
                    proof {
                        lemma_completed_items_run(*table, module.source_file, module.compilation_unit.items@, result, before, output@);
                    }
                    result
                },
                SourceFileKind::Module => run_module_entrypoint(module, table, output),
            },
            RunCommandKind::RunTest { test_name } => run_selected_test(module, table, test_name.as_str(), output),
            RunCommandKind::RunTests => {
                let summary = run_all_tests(module, table, output);
                self.test_run_summary = summary;
                Ok(())
            },
        }
    }
}

/// Loads the compiler-provided `core` module: its text parsed as a script, as a module
/// file named `core`.
pub fn load_core_module() -> (result: OcelotResult<ParsedModule>)
    ensures
        vstd::utf8::encode_utf8(CORE_MODULE_SOURCE@).len() < usize::MAX ==> match script_items(CORE_MODULE_PATH@, CORE_MODULE_SOURCE@) {
            Some(items) => result matches Ok(module) && {
                &&& module.module_name@ == CORE_MODULE_NAME@
                &&& module.kind == SourceFileKind::Module
                &&& module.source_file.path@ == CORE_MODULE_PATH@
                &&& module.source_file.source@ == CORE_MODULE_SOURCE@
                &&& unit_items(module.compilation_unit) == items
                &&& module.compilation_unit.span == (Span { start: 0, end: module.source_file.bytes().len() as usize })
            },
            None => result matches Err(e) && is_parser_failure(e),
        },
{
    let source_file = SourceFile::new(CORE_MODULE_PATH, CORE_MODULE_SOURCE);
    if source_file.source_bytes().len() == usize::MAX {
        return Err(OcelotError::compilation_error(CompilationStage::Parser));
    }
    let mut compilation_context = CompilationContext::default();
    let script = match parse_script(&source_file, &mut compilation_context) {
        Ok(script) => script,
        Err(error) => {
            proof {
                let lexed = lex_from(source_file.bytes(), 0);
                if lexed.1 is None {
                    assert(Seq::<DiagnosticView>::empty() + Seq::<DiagnosticView>::empty() =~= Seq::<DiagnosticView>::empty());
                }
            }
            return Err(error);
        },
    };
    proof {
        let lexed = lex_from(source_file.bytes(), 0);
        if let Some(failure) = lexed.1 {
            let v = failure_view(source_file.path@, source_file.bytes(), failure);
            assert((Seq::<DiagnosticView>::empty() + seq![v])[0] == v);
        }
    }
    Ok(ParsedModule::new(CORE_MODULE_NAME, SourceFileKind::Module, source_file, script))
}

/// `a` comes before `b` in the order of their characters' code points, a text before
/// every longer text that starts with it.
pub open spec fn text_less(a: Seq<char>, b: Seq<char>) -> bool
    decreases a.len(),
{
    if b.len() == 0 {
        false
    } else if a.len() == 0 {
        true
    } else if a[0] == b[0] {
        text_less(a.drop_first(), b.drop_first())
    } else {
        (a[0] as int) < (b[0] as int)
    }
}

/// No text of `s` comes before an earlier one.
pub open spec fn texts_sorted(s: Seq<Seq<char>>) -> bool {
    forall|i: int, j: int| 0 <= i < j < s.len() ==> !text_less(#[trigger] s[j], #[trigger] s[i])
}

proof fn lemma_text_less_irreflexive(a: Seq<char>)
    ensures
        !text_less(a, a),
    decreases a.len(),
{
    if a.len() > 0 {
        lemma_text_less_irreflexive(a.drop_first());
    }
}

proof fn lemma_text_less_transitive(a: Seq<char>, b: Seq<char>, c: Seq<char>)
    requires
        text_less(a, b),
        text_less(b, c),
    ensures
        text_less(a, c),
    decreases a.len(),
{
    if a.len() > 0 && a[0] == b[0] && b[0] == c[0] {
        lemma_text_less_transitive(a.drop_first(), b.drop_first(), c.drop_first());
    }
}

/// Whether `a` comes before `b` in the order of `text_less`.
fn text_before(a: &str, b: &str) -> (less: bool)
    ensures
        less == text_less(a@, b@),
{
    let a_chars = chars_of(a);
    let b_chars = chars_of(b);
    let mut index: usize = 0;
    assert(a@.skip(0) =~= a@ && b@.skip(0) =~= b@);
    while index < a_chars.len() && index < b_chars.len()
        invariant
            a_chars@ == a@,
            b_chars@ == b@,
            index <= a@.len(),
            index <= b@.len(),
            text_less(a@, b@) == text_less(a@.skip(index as int), b@.skip(index as int)),
        decreases a@.len() - index,
    {
        proof {
            assert(a@.skip(index as int).drop_first() =~= a@.skip(index + 1));
            assert(b@.skip(index as int).drop_first() =~= b@.skip(index + 1));
        }
        if a_chars[index] != b_chars[index] {
            return a_chars[index] < b_chars[index];
        }
        index = index + 1;
    }
    index < b_chars.len()
}

/// The position of the first text of `files` that `text` comes before, or their number.
fn insertion_position(files: &Vec<String>, text: &str) -> (position: usize)
    ensures
        position <= files@.len(),
        forall|i: int| 0 <= i < position ==> !text_less(text@, #[trigger] texts(files@)[i]),
        position < files@.len() ==> text_less(text@, texts(files@)[position as int]),
{
    let mut position: usize = 0;
    while position < files.len()
        invariant
            position <= files@.len(),
            forall|i: int| 0 <= i < position ==> !text_less(text@, #[trigger] texts(files@)[i]),
        decreases files@.len() - position,
    {
        if text_before(text, files[position].as_str()) {
            return position;
        }
        position = position + 1;
    }
    position
}

/// Inserts `text` into the sorted `files`, before the first text that it comes before.
fn insert_sorted(files: &mut Vec<String>, text: String)
    requires
        texts_sorted(texts(old(files)@)),
    ensures
        texts_sorted(texts(final(files)@)),
        texts(final(files)@).to_multiset() == texts(old(files)@).to_multiset().insert(text@),
{
    let ghost before = texts(files@);
    let position = insertion_position(files, text.as_str());
    let ghost value = text@;
    files.insert(position, text);
    let ghost after = texts(files@);
    proof {
        let p = position as int;
        assert(after =~= before.insert(p, value));
        assert forall|i: int, j: int| 0 <= i < j < after.len() implies !text_less(#[trigger] after[j], #[trigger] after[i]) by {
            if j == p {
                assert(after[i] == before[i]);
            } else if i == p {
                assert(after[j] == before[j - 1]);
                if text_less(before[j - 1], value) {
                    lemma_text_less_transitive(before[j - 1], value, before[p]);
                    if j - 1 == p {
                        lemma_text_less_irreflexive(before[p]);
                    } else {
                        assert(!text_less(before[j - 1], before[p]));
                    }
                }
            } else if i < p && j < p {
                assert(after[i] == before[i] && after[j] == before[j]);
            } else if i < p {
                assert(after[i] == before[i] && after[j] == before[j - 1]);
            } else {
                assert(after[i] == before[i - 1] && after[j] == before[j - 1]);
            }
        }
        assert(after.remove(p) =~= before);
        broadcast use vstd::seq_lib::group_to_multiset_ensures;
        assert(after.to_multiset().remove(value) =~= before.to_multiset());
        assert(after.to_multiset().count(value) > 0) by {
            assert(after[p] == value);
            assert(after.contains(value));
        }
        assert(after.to_multiset() =~= before.to_multiset().insert(value));
    }
}

/// The files of a run: those of the walk, with the entry file when the walk did not
/// find it, sorted by `text_less`.
pub fn collect_files(walked: Vec<String>, entry_path: &str) -> (files: Vec<String>)
    ensures
        texts_sorted(texts(files@)),
        texts(files@).to_multiset() == (if texts(walked@).contains(entry_path@) {
            texts(walked@)
        } else {
            texts(walked@).push(entry_path@)
        }).to_multiset(),
{
    let ghost all = texts(walked@);
    let mut files: Vec<String> = Vec::new();
    let mut found = false;
    let mut index: usize = 0;
    proof {
        assert(texts(files@) =~= Seq::<Seq<char>>::empty());
        assert(all.take(0) =~= Seq::<Seq<char>>::empty());
    }
    while index < walked.len()
        invariant
            all == texts(walked@),
            index <= walked@.len(),
            texts_sorted(texts(files@)),
            texts(files@).to_multiset() == all.take(index as int).to_multiset(),
            found == all.take(index as int).contains(entry_path@),
        decreases walked@.len() - index,
    {
        let text = walked[index].clone();
        if crate::text::same_text(text.as_str(), entry_path) {
            found = true;
        }
        insert_sorted(&mut files, text);
        proof {
            broadcast use vstd::seq_lib::group_to_multiset_ensures;
            let next = all.take(index + 1);
            assert(next =~= all.take(index as int).push(all[index as int]));
            assert(all[index as int] == walked@[index as int]@);
            if all.take(index as int).contains(entry_path@) {
                let k = choose|k: int| 0 <= k < index && all.take(index as int)[k] == entry_path@;
                assert(next[k] == entry_path@);
            }
            if next.contains(entry_path@) {
                let k = choose|k: int| 0 <= k < index + 1 && next[k] == entry_path@;
                if k < index {
                    assert(all.take(index as int)[k] == entry_path@);
                }
            }
            if all[index as int] == entry_path@ {
                assert(next[index as int] == entry_path@);
            }
        }
        index = index + 1;
    }
    proof {
        assert(all.take(walked@.len() as int) =~= all);
    }
    if !found {
        insert_sorted(&mut files, String::from_str(entry_path));
        proof {
            broadcast use vstd::seq_lib::group_to_multiset_ensures;
        }
    }
    files
}

} // verus!

use ocelot::compilation_session::CompilationSession;
use ocelot::engine::BuiltinModule;
use ocelot::engine_worker::{EngineCommand, EngineWorker, collect_files};
use ocelot::error::{CompilationStage, ErrorKind, OcelotError};
use ocelot::source_file::SourceFile;
use ocelot::source_file_kind::SourceFileKind;
use ocelot::resolver::resolution::{CORE_MODULE_NAME, CORE_MODULE_SOURCE};

/// The files of the command's directory that a walk for `*.ocelot` finds.
fn walked_modules(files: &[(&str, &str)]) -> Vec<String> {
    files
        .iter()
        .filter(|(path, _)| path.ends_with(".ocelot"))
        .map(|(path, _)| path.to_string())
        .collect()
}

/// Loads the program of `command` from `files` and runs it, as the engine does.
fn run_command(
    command: EngineCommand,
    files: &[(&str, &str)],
    builtin_modules: Vec<BuiltinModule>,
) -> (EngineWorker, Result<(), OcelotError>, String, Vec<String>) {
    let paths = collect_files(walked_modules(files), command.entry_path());
    let sources: Vec<SourceFile> = paths
        .iter()
        .map(|path| {
            let (_, text) = files.iter().find(|(candidate, _)| candidate == path).unwrap();
            SourceFile::new(path, text)
        })
        .collect();
    let mut worker = EngineWorker::new(command, builtin_modules);
    let session = CompilationSession::with_default_native_functions();
    let mut output = String::new();
    let result = match worker.load(sources, &session) {
        Ok(()) => worker.execute(&mut output),
        Err(error) => Err(error),
    };
    (worker, result, output, paths)
}

/// The modules that the engine loads with every program: `core`.
fn engine_builtins() -> Vec<BuiltinModule> {
    vec![BuiltinModule::new(CORE_MODULE_NAME, CORE_MODULE_SOURCE)]
}

fn run_file(path: &str, files: &[(&str, &str)]) -> (EngineWorker, Result<(), OcelotError>, String) {
    let (worker, result, output, _) = run_command(EngineCommand::run_file(path).unwrap(), files, engine_builtins());
    (worker, result, output)
}

fn has_diagnostic(worker: &EngineWorker, message: &str, file_path: &str) -> bool {
    worker
        .source_diagnostics()
        .diagnostics
        .iter()
        .any(|diagnostic| diagnostic.message.contains(message) && diagnostic.file_path == file_path)
}

fn is_resolver_error(result: &Result<(), OcelotError>) -> bool {
    matches!(
        result.as_ref().unwrap_err().kind(),
        ErrorKind::CompilationError(CompilationStage::Resolver)
    )
}

fn error_text(result: &Result<(), OcelotError>) -> String {
    result.as_ref().unwrap_err().to_test_string()
}

#[test]
fn run_file_executes_a_script_file() {
    let (_, result, output) = run_file(
        "examples/hello_world.ocelot-script",
        &[("examples/hello_world.ocelot-script", "println(\"hello, world\");")],
    );
    result.unwrap();
    assert_eq!(output, "hello, world\n");
}

#[test]
fn run_file_uses_core_functions_as_a_fallback_only() {
    let (_, result, output) = run_file(
        "examples/main.ocelot-script",
        &[
            ("examples/main.ocelot-script", "fun println() { helper::greet(); }\nprintln();"),
            ("examples/helper.ocelot", "fun greet() { core::println(\"local wins\"); }"),
        ],
    );
    result.unwrap();
    assert_eq!(output, "local wins\n");
}

#[test]
fn run_file_prefers_explicit_imports_over_core_fallback() {
    let (_, result, output) = run_file(
        "examples/main.ocelot-script",
        &[
            ("examples/main.ocelot-script", "use helper::println;\nprintln();"),
            ("examples/helper.ocelot", "fun println() { core::println(\"import wins\"); }"),
        ],
    );
    result.unwrap();
    assert_eq!(output, "import wins\n");
}

#[test]
fn run_file_executes_functions_from_sibling_modules() {
    let (_, result, output) = run_file(
        "examples/main.ocelot-script",
        &[
            ("examples/main.ocelot-script", "helper::greet();"),
            ("examples/helper.ocelot", "fun greet() { println(\"hello\"); }"),
        ],
    );
    result.unwrap();
    assert_eq!(output, "hello\n");
}

#[test]
fn run_file_executes_imported_functions_from_sibling_modules() {
    let (_, result, output) = run_file(
        "examples/main.ocelot-script",
        &[
            ("examples/main.ocelot-script", "use helper::greet;\ngreet();"),
            ("examples/helper.ocelot", "fun greet() { println(\"hello\"); }"),
        ],
    );
    result.unwrap();
    assert_eq!(output, "hello\n");
}

#[test]
fn run_file_executes_grouped_imports() {
    let (_, result, output) = run_file(
        "examples/main.ocelot-script",
        &[
            ("examples/main.ocelot-script", "use helper::{greet, wave};\ngreet();\nwave();"),
            (
                "examples/helper.ocelot",
                "fun greet() { println(\"hello\"); } fun wave() { println(\"bye\"); }",
            ),
        ],
    );
    result.unwrap();
    assert_eq!(output, "hello\nbye\n");
}

#[test]
fn run_file_executes_functions_from_nested_modules() {
    let (_, result, output) = run_file(
        "examples/main.ocelot-script",
        &[
            ("examples/main.ocelot-script", "math::greet::hello();"),
            ("examples/math/greet.ocelot", "fun hello() { println(\"hello\"); }"),
        ],
    );
    result.unwrap();
    assert_eq!(output, "hello\n");
}

#[test]
fn run_file_executes_main_in_a_module_file() {
    let (_, result, output) = run_file(
        "examples/main.ocelot",
        &[
            ("examples/main.ocelot", "fun main() { helper::greet(); }"),
            ("examples/helper.ocelot", "fun greet() { println(\"hello\"); }"),
        ],
    );
    result.unwrap();
    assert_eq!(output, "hello\n");
}

#[test]
fn run_file_ignores_sibling_script_files_when_loading_modules() {
    let (_, result, output, paths) = run_command(
        EngineCommand::run_file("examples/main.ocelot-script").unwrap(),
        &[
            ("examples/main.ocelot-script", "helper::greet();"),
            ("examples/helper.ocelot", "fun greet() { println(\"hello\"); }"),
            ("examples/side_effect.ocelot-script", "println(\"wrong\");"),
        ],
        engine_builtins(),
    );
    result.unwrap();
    assert!(paths.iter().any(|path| path == "examples/helper.ocelot"));
    assert!(!paths.iter().any(|path| path == "examples/side_effect.ocelot-script"));
    assert_eq!(output, "hello\n");
}

#[test]
fn run_file_rejects_top_level_statements_in_module_files() {
    let (worker, result, _) = run_file(
        "examples/main.ocelot-script",
        &[
            ("examples/main.ocelot-script", "helper::greet();"),
            ("examples/helper.ocelot", "println(\"setup\"); fun greet() { println(\"hello\"); }"),
        ],
    );
    assert!(is_resolver_error(&result));
    assert!(has_diagnostic(
        &worker,
        "top-level statements are only allowed in `.ocelot-script` files",
        "examples/helper.ocelot"
    ));
    assert!(error_text(&result).contains("top-level statements are only allowed in `.ocelot-script` files"));
    assert!(error_text(&result).contains("examples/helper.ocelot"));
}

#[test]
fn run_file_reports_unknown_modules() {
    let (worker, result, _) = run_file(
        "examples/main.ocelot-script",
        &[("examples/main.ocelot-script", "helper::greet();")],
    );
    assert!(is_resolver_error(&result));
    assert!(has_diagnostic(&worker, "unknown module `helper`", "examples/main.ocelot-script"));
    assert!(error_text(&result).contains("unknown module `helper`"));
}

#[test]
fn run_file_reports_missing_functions_in_loaded_modules() {
    let (worker, result, _) = run_file(
        "examples/main.ocelot-script",
        &[
            ("examples/main.ocelot-script", "helper::greet();"),
            ("examples/helper.ocelot", "fun wave() {}"),
        ],
    );
    assert!(is_resolver_error(&result));
    assert!(has_diagnostic(
        &worker,
        "module `helper` has no function `greet`",
        "examples/main.ocelot-script"
    ));
    assert!(error_text(&result).contains("module `helper` has no function `greet`"));
}

#[test]
fn run_file_reports_duplicate_imports() {
    let (worker, result, _) = run_file(
        "examples/main.ocelot-script",
        &[
            ("examples/main.ocelot-script", "use helper::greet;\nuse helper::greet;"),
            ("examples/helper.ocelot", "fun greet() {}"),
        ],
    );
    assert!(is_resolver_error(&result));
    assert!(has_diagnostic(&worker, "duplicate import `greet`", "examples/main.ocelot-script"));
    assert!(error_text(&result).contains("duplicate import `greet`"));
}

#[test]
fn run_file_reports_missing_module_main_function() {
    let (_, result, _) = run_file("examples/tool.ocelot", &[("examples/tool.ocelot", "fun helper() {}")]);
    assert!(result
        .unwrap_err()
        .to_test_string()
        .contains("module `tool` does not define a `main()` entrypoint"));
}

#[test]
fn run_file_rejects_user_defined_core_modules() {
    let (worker, result, _) = run_file(
        "examples/main.ocelot-script",
        &[
            ("examples/main.ocelot-script", "println(\"hello\");"),
            ("examples/core.ocelot", "fun helper() {}"),
        ],
    );
    assert!(is_resolver_error(&result));
    assert!(has_diagnostic(&worker, "module name `core` is reserved", "examples/core.ocelot"));
    assert!(error_text(&result).contains("module name `core` is reserved"));
    assert!(error_text(&result).contains("examples/core.ocelot"));
}

#[test]
fn run_test_executes_only_entry_module_tests() {
    let (_, result, output, _) = run_command(
        EngineCommand::run_test("examples/main.ocelot-script", "main").unwrap(),
        &[
            ("examples/main.ocelot-script", "test \"main\" { helper::greet(); }"),
            (
                "examples/helper.ocelot",
                "test \"helper\" { println(\"wrong\"); } fun greet() { println(\"hello\"); }",
            ),
        ],
        engine_builtins(),
    );
    result.unwrap();
    assert_eq!(output, "hello\n");
}

#[test]
fn run_test_reports_cross_file_runtime_diagnostics_with_the_called_file_path() {
    let (_, result, _, _) = run_command(
        EngineCommand::run_test("examples/main.ocelot-script", "broken").unwrap(),
        &[
            ("examples/main.ocelot-script", "test \"broken\" { helper::greet(); }"),
            ("examples/helper.ocelot", "fun greet() { println(missing_value); }"),
        ],
        engine_builtins(),
    );
    let error = result.unwrap_err();
    assert!(error.to_test_string().contains("unresolved identifier `missing_value`"));
    match &error.source.as_ref().unwrap().kind {
        ErrorKind::RuntimeError(diagnostic) => assert_eq!(diagnostic.file_path, "examples/helper.ocelot"),
        other => panic!("expected a runtime error, got {:?}", other),
    }
}

#[test]
fn source_file_kind_is_part_of_loaded_modules() {
    assert_eq!(SourceFileKind::Module, SourceFileKind::from_path("x.ocelot").unwrap());
    assert_eq!(SourceFileKind::Script, SourceFileKind::from_path("x.ocelot-script").unwrap());
}

#[test]
fn run_command_collects_parser_diagnostics_in_compilation_context() {
    let (worker, result, _) = run_file(
        "examples/main.ocelot-script",
        &[("examples/main.ocelot-script", "println(\"hello\"")],
    );
    assert!(matches!(
        result.unwrap_err().kind(),
        ErrorKind::CompilationError(CompilationStage::Parser)
    ));
    assert_eq!(worker.source_diagnostics().diagnostics.len(), 1);
    assert_eq!(worker.source_diagnostics().diagnostics[0].file_path, "examples/main.ocelot-script");
}

#[test]
fn run_command_collects_resolver_diagnostics_in_compilation_context() {
    let (worker, result, _) = run_file(
        "examples/main.ocelot-script",
        &[
            ("examples/main.ocelot-script", "helper::greet();"),
            ("examples/helper.ocelot", "println(\"setup\"); fun greet() { println(\"hello\"); }"),
        ],
    );
    assert!(is_resolver_error(&result));
    assert!(worker
        .source_diagnostics()
        .diagnostics
        .iter()
        .any(|diagnostic| diagnostic.file_path == "examples/helper.ocelot"));
}

#[test]
fn run_command_rejects_user_modules_that_conflict_with_builtin_modules() {
    let (worker, result, _, _) = run_command(
        EngineCommand::run_file("examples/main.ocelot-script").unwrap(),
        &[
            ("examples/main.ocelot-script", "helpers::greet();"),
            ("examples/helpers.ocelot", "fun greet() {}"),
        ],
        vec![BuiltinModule::new("helpers", "fun greet() { core::println(\"builtin\"); }")],
    );
    assert!(is_resolver_error(&result));
    assert!(worker
        .source_diagnostics()
        .diagnostics
        .iter()
        .any(|diagnostic| diagnostic.message == "module name `helpers` is reserved for a builtin module"));
}

#[test]
fn run_tests_collects_passed_and_failed_tests_in_item_order() {
    let (worker, result, output, _) = run_command(
        EngineCommand::run_tests("examples/main.ocelot-script").unwrap(),
        &[(
            "examples/main.ocelot-script",
            "test \"first\" { println(\"one\"); } test \"second\" { assert(false); } test \"third\" { println(\"three\"); }",
        )],
        engine_builtins(),
    );
    result.unwrap();
    assert_eq!(output, "one\nthree\n");
    let summary = worker.test_run_summary();
    let passed: Vec<&str> = summary.passed.iter().map(|p| p.name.as_str()).collect();
    assert_eq!(passed, vec!["first", "third"]);
    assert_eq!(summary.failed.len(), 1);
    assert_eq!(summary.failed[0].name, "second");
    assert_eq!(summary.failed[0].file_path, "examples/main.ocelot-script");
    assert!(summary.failed[0].message.starts_with("test `second` failed\n"));
    assert!(!summary.is_success());
}

#[test]
fn run_test_reports_unknown_test_names() {
    let (_, result, output, _) = run_command(
        EngineCommand::run_test("examples/main.ocelot-script", "missing").unwrap(),
        &[("examples/main.ocelot-script", "test \"main\" { println(\"hello\"); }")],
        engine_builtins(),
    );
    assert_eq!(result.unwrap_err().to_test_string(), "unknown test `missing`");
    assert_eq!(output, "");
}

#[test]
fn engine_commands_take_the_directory_of_the_entry_file() {
    let command = EngineCommand::run_file("examples/main.ocelot-script").unwrap();
    assert_eq!(command.base_path, "examples");
    assert_eq!(command.entry_path(), "examples/main.ocelot-script");
    assert_eq!(EngineCommand::run_tests("main.ocelot").unwrap().base_path, "");
    assert_eq!(EngineCommand::run_file("/main.ocelot").unwrap().base_path, "/");
    assert_eq!(
        EngineCommand::run_file("").unwrap_err().to_test_string(),
        "Failed to get parent of "
    );
}

#[test]
fn collect_files_adds_the_entry_file_and_sorts() {
    let files = collect_files(
        vec!["examples/b.ocelot".to_string(), "examples/a.ocelot".to_string()],
        "examples/main.ocelot-script",
    );
    assert_eq!(files, vec!["examples/a.ocelot", "examples/b.ocelot", "examples/main.ocelot-script"]);
    let files = collect_files(
        vec!["examples/main.ocelot".to_string(), "examples/a.ocelot".to_string()],
        "examples/main.ocelot",
    );
    assert_eq!(files, vec!["examples/a.ocelot", "examples/main.ocelot"]);
}

#[test]
fn execute_before_loading_reports_an_unresolved_program() {
    let mut worker = EngineWorker::new(EngineCommand::run_file("examples/main.ocelot-script").unwrap(), Vec::new());
    let mut output = String::new();
    assert_eq!(
        worker.execute(&mut output).unwrap_err().to_test_string(),
        "internal error: program was not resolved"
    );
}

#[test]
fn load_core_module_parses_the_core_declarations() {
    let module = ocelot::engine_worker::load_core_module().unwrap();
    assert_eq!(module.module_name, "core");
    assert_eq!(module.kind, SourceFileKind::Module);
    assert_eq!(module.compilation_unit.items.len(), 5);
}

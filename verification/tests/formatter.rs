use ocelot::compilation_context::CompilationContext;
use ocelot::formatter::format_compilation_unit;
use ocelot::lexer::token::TriviaPiece;
use ocelot::parser::parse::parse_source;
use ocelot::source_file::SourceFile;
use ocelot::span::Span;

fn parse(source: &str) -> ocelot::ast::CompilationUnit {
    let source_file = SourceFile::new("examples/format.ocelot", source);
    let mut context = CompilationContext::default();
    parse_source(&source_file, &mut context).unwrap()
}

#[test]
fn formats_functions_with_indented_bodies() {
    let unit = parse("fun greet(name: string)   can write_stdout {println(name);} greet(\"hi\");");
    assert_eq!(
        format_compilation_unit(&unit),
        "fun greet(name: string) can write_stdout {\n    println(name);\n}\ngreet(\"hi\");"
    );
}

#[test]
fn formats_empty_bodies_native_functions_and_effects() {
    let unit = parse("effect exec; native fun println(value: any) can write_stdout; fun quiet() cannot exec {} test \"works\" {}");
    assert_eq!(
        format_compilation_unit(&unit),
        "effect exec;\nnative fun println(value: any) can write_stdout;\nfun quiet() cannot exec {}\ntest \"works\" {}"
    );
}

#[test]
fn formats_use_items_and_qualified_calls() {
    let unit = parse("use helper::{greet,wave}; use math::greet::hello; math::greet::hello(not true, \"x\");");
    assert_eq!(
        format_compilation_unit(&unit),
        "use helper::{greet, wave};\nuse math::greet::hello;\nmath::greet::hello(not true, \"x\");"
    );
}

#[test]
fn formatting_formatted_text_gives_it_back() {
    let once = format_compilation_unit(&parse("fun a() {b(); c();}\ntest \"t\" { a(); }"));
    let twice = format_compilation_unit(&parse(&once));
    assert_eq!(once, twice);
}

#[test]
fn formats_comments_and_blank_lines_attached_to_items() {
    let mut unit = parse("fun a() {} fun b() {}");
    unit.items[0].trivia.leading.push(TriviaPiece::LineComment {
        text: "// first".to_string(),
        span: Span::new(0, 0),
    });
    unit.items[0].trivia.trailing.push(TriviaPiece::BlockComment {
        text: "/* after */".to_string(),
        span: Span::new(0, 0),
    });
    unit.items[1].trivia.leading.push(TriviaPiece::Newlines { count: 3, span: Span::new(0, 0) });
    assert_eq!(
        format_compilation_unit(&unit),
        "// first\nfun a() {} /* after */\n\n\nfun b() {}"
    );
}

#[test]
fn formats_an_empty_unit_as_empty_text() {
    assert_eq!(format_compilation_unit(&parse("")), "");
}

fn parse_with_comments(source: &str) -> ocelot::ast::CompilationUnit {
    let source_file = SourceFile::new("examples/format.ocelot", source);
    let mut source_diagnostics = ocelot::diagnostic::SourceDiagnostics::default();
    let compilation_unit = ocelot::parser::trivia::parse_compilation_unit(&source_file, &mut source_diagnostics)
        .expect("source should parse");
    assert!(
        !source_diagnostics.has_errors(),
        "unexpected diagnostics: {:?}",
        source_diagnostics.diagnostics
    );
    compilation_unit
}

#[test]
fn formats_comment_heavy_supported_inputs() {
    let input = "// setup\nuse math::trig::{cos, sin}; // imports\n\nfun greet(name: string) {\n// before call\nprintln(not helper::call(name)); // after call\n}\n\n// test setup\ntest \"works\" {\nprintln(\"ok\"); // done\n}\n";

    let formatted = format_compilation_unit(&parse_with_comments(input));

    assert_eq!(
        formatted,
        "// setup\nuse math::trig::{cos, sin}; // imports\n\nfun greet(name: string) {\n    // before call\n    println(not helper::call(name)); // after call\n}\n\n// test setup\ntest \"works\" {\n    println(\"ok\"); // done\n}"
    );
}

#[test]
fn formatting_is_idempotent_for_supported_comment_positions() {
    let input = "// header\neffect exec;\n\nfun greet() {\n// note\nprintln(\"hi\"); // trailing\n}\n// footer";

    let once = format_compilation_unit(&parse_with_comments(input));
    let twice = format_compilation_unit(&parse_with_comments(&once));

    assert_eq!(once, twice);
}

#[test]
fn comments_of_a_source_without_items_stay_with_the_unit() {
    let formatted = format_compilation_unit(&parse_with_comments("// only a comment\n"));
    assert_eq!(formatted, "// only a comment");
}

use vstd::prelude::*;
use crate::span::Span;
use crate::source_file::SourceFile;
use crate::source_file_kind::SourceFileKind;
use crate::diagnostic::{
    AnnotationView, DiagnosticLevel, DiagnosticView, ExcerptView, SourceAnnotation, SourceDiagnostic, SourceExcerpt,
};
use crate::compilation_context::CompilationContext;
use crate::ast::{Item, ItemKind};
use crate::parsed_module::ParsedModule;
use crate::text::{concat3, same_text};
use crate::resolver::diagnostics::{addressable, source_diagnostic_for_span, span_diagnostic};
use vstd::string::StrSliceExecFns;

verus! {

// ---------------------------------------------------------------- statements in modules

/// `p` is the position of the first statement among `items`.
pub open spec fn is_first_statement(items: Seq<Item>, p: int) -> bool {
    &&& 0 <= p < items.len()
    &&& items[p].kind is Statement
    &&& forall|k: int| 0 <= k < p ==> !(#[trigger] items[k].kind is Statement)
}

/// The diagnostic for a top-level statement at `span` of a module file.
pub open spec fn statement_diagnostic(file: SourceFile, span: Span) -> DiagnosticView {
    span_diagnostic(file.path@, file.bytes(), "top-level statements are only allowed in `.ocelot-script` files"@, span,
        "move this statement into `main()` or rename the file to `.ocelot-script`"@)
}

/// What checking one module reports: its first statement, when its kind takes none.
pub open spec fn statement_report(module: ParsedModule) -> Seq<DiagnosticView> {
    let items = module.compilation_unit.items@;
    if module.kind == SourceFileKind::Script || !(exists|p: int| is_first_statement(items, p)) {
        Seq::empty()
    } else {
        let p = choose|p: int| is_first_statement(items, p);
        seq![statement_diagnostic(module.source_file, items[p].kind->Statement_0.span)]
    }
}

/// What checking the first `count` modules reports, in order.
pub open spec fn statement_reports(modules: Seq<ParsedModule>, count: int) -> Seq<DiagnosticView>
    decreases count,
{
    if count <= 0 {
        Seq::empty()
    } else {
        statement_reports(modules, count - 1) + statement_report(modules[count - 1])
    }
}

fn validate_loaded_module(module: &ParsedModule, compilation_context: &mut CompilationContext)
    requires
        addressable(module.source_file),
    ensures
        final(compilation_context)@ == old(compilation_context)@ + statement_report(*module),
{
    let items = &module.compilation_unit.items;
    if module.kind.allows_top_level_statements() {
        assert(old(compilation_context)@ + Seq::<DiagnosticView>::empty() =~= old(compilation_context)@);
        return;
    }
    match module.compilation_unit.first_statement_position() {
        None => {
            assert(!(exists|p: int| is_first_statement(items@, p)));
            assert(old(compilation_context)@ + Seq::<DiagnosticView>::empty() =~= old(compilation_context)@);
        },
        Some(position) => {
            let span = match &items[position].kind {
                ItemKind::Statement(statement) => statement.span,
                _ => Span::new(0, 0),
            };
            proof {
                assert(is_first_statement(items@, position as int));
                let q = choose|q: int| is_first_statement(items@, q);
                assert(q == position) by {
                    if q < position {
                        assert(!(items@[q].kind is Statement));
                    } else if q > position {
                        assert(!(items@[position as int].kind is Statement));
                    }
                }
            }
            let diagnostic = source_diagnostic_for_span(&module.source_file,
                String::from_str("top-level statements are only allowed in `.ocelot-script` files"), span,
                String::from_str("move this statement into `main()` or rename the file to `.ocelot-script`"));
            compilation_context.add_diagnostic(diagnostic);
            assert(compilation_context@ =~= old(compilation_context)@ + statement_report(*module));
        },
    }
}

// ---------------------------------------------------------------- module name conflicts

/// Paths of builtin modules start with `<builtin:`.
pub open spec fn is_builtin_path(path: Seq<char>) -> bool {
    "<builtin:"@.is_prefix_of(path)
}

/// Index of the first `\n` of `text` at or after `i`, or its length.
pub open spec fn line_break_from(text: Seq<char>, i: int) -> int
    decreases text.len() - i,
{
    if i >= text.len() {
        text.len() as int
    } else if text[i] == '\n' {
        i
    } else {
        line_break_from(text, i + 1)
    }
}

/// The first line of a text, without its line break (and a `\r` before it).
pub open spec fn first_line(text: Seq<char>) -> Seq<char> {
    let line = text.subrange(0, line_break_from(text, 0));
    if line.len() > 0 && line.last() == '\r' { line.drop_last() } else { line }
}

/// The diagnostic for module `file` whose name `name` is also that of `original`'s module.
pub open spec fn conflict_diagnostic(file: SourceFile, original: SourceFile, name: Seq<char>) -> DiagnosticView {
    DiagnosticView {
        level: DiagnosticLevel::Error,
        file_path: file.path@,
        message: if is_builtin_path(original.path@) {
            "module name `"@ + name + "` is reserved for a builtin module"@
        } else {
            "module name `"@ + name + "` is already defined"@
        },
        excerpts: seq![ExcerptView {
            file_path: file.path@,
            line_number: 1,
            source_line: first_line(file.source@),
            annotations: seq![AnnotationView { span: Span { start: 0, end: 0 }, message: "rename this file or module path"@ }],
        }],
    }
}

/// Position of the first module before `end` named `name`, or -1.
pub open spec fn first_named(modules: Seq<ParsedModule>, name: Seq<char>, end: int) -> int
    decreases end,
{
    if end <= 0 {
        -1
    } else if first_named(modules, name, end - 1) >= 0 {
        first_named(modules, name, end - 1)
    } else if modules[end - 1].module_name@ == name {
        end - 1
    } else {
        -1
    }
}

/// Position of the first module before `end` named `name` whose file is builtin, or -1.
pub open spec fn first_builtin_named(modules: Seq<ParsedModule>, name: Seq<char>, end: int) -> int
    decreases end,
{
    if end <= 0 {
        -1
    } else if first_builtin_named(modules, name, end - 1) >= 0 {
        first_builtin_named(modules, name, end - 1)
    } else if modules[end - 1].module_name@ == name && is_builtin_path(modules[end - 1].source_file.path@) {
        end - 1
    } else {
        -1
    }
}

/// Number of modules before `end` named `name`.
pub open spec fn named_count(modules: Seq<ParsedModule>, name: Seq<char>, end: int) -> nat
    decreases end,
{
    if end <= 0 {
        0
    } else if modules[end - 1].module_name@ == name {
        named_count(modules, name, end - 1) + 1
    } else {
        named_count(modules, name, end - 1)
    }
}

/// The conflicts reported for the modules named `name` among the first `end`: each one
/// refers to the first builtin module of that name, or else to the first module.
pub open spec fn group_report(modules: Seq<ParsedModule>, name: Seq<char>, end: int) -> Seq<DiagnosticView>
    decreases end,
{
    if end <= 0 {
        Seq::empty()
    } else {
        let earlier = group_report(modules, name, end - 1);
        let module = modules[end - 1];
        let all = modules.len() as int;
        let builtin = first_builtin_named(modules, name, all);
        let referenced = if builtin >= 0 { builtin } else { first_named(modules, name, all) };
        if module.module_name@ != name || (builtin >= 0 && is_builtin_path(module.source_file.path@)) {
            earlier
        } else {
            earlier.push(conflict_diagnostic(module.source_file, modules[referenced].source_file, name))
        }
    }
}

/// The conflicts reported for the first `count` modules' names, each name once, in the
/// order the names first occur; a name shared by fewer than two modules reports nothing.
pub open spec fn conflict_reports(modules: Seq<ParsedModule>, count: int) -> Seq<DiagnosticView>
    decreases count,
{
    if count <= 0 {
        Seq::empty()
    } else {
        let earlier = conflict_reports(modules, count - 1);
        let name = modules[count - 1].module_name@;
        let all = modules.len() as int;
        if first_named(modules, name, count - 1) >= 0 || named_count(modules, name, all) < 2 {
            earlier
        } else {
            earlier + group_report(modules, name, all)
        }
    }
}

/// What validating loaded modules reports.
pub open spec fn validation_report(modules: Seq<ParsedModule>) -> Seq<DiagnosticView> {
    statement_reports(modules, modules.len() as int) + conflict_reports(modules, modules.len() as int)
}

fn first_line_of(text: &str) -> (line: String)
    ensures
        line@ == first_line(text@),
{
    let length = text.unicode_len();
    let mut end: usize = 0;
    while end < length && text.get_char(end) != '\n'
        invariant
            end <= length,
            length == text@.len(),
            line_break_from(text@, 0) == line_break_from(text@, end as int),
        decreases length - end,
    {
        end = end + 1;
    }
    if end > 0 && text.get_char(end - 1) == '\r' {
        text.substring_char(0, end - 1).to_owned()
    } else {
        text.substring_char(0, end).to_owned()
    }
}

fn conflict_diagnostic_for(file: &SourceFile, original: &SourceFile, name: &str) -> (diagnostic: SourceDiagnostic)
    ensures
        diagnostic@ == conflict_diagnostic(*file, *original, name@),
{
    let is_builtin = has_builtin_path(original.path.as_str());
    let message = if is_builtin {
        concat3("module name `", name, "` is reserved for a builtin module")
    } else {
        concat3("module name `", name, "` is already defined")
    };
    let excerpt = SourceExcerpt::new(file.path.clone(), 1, first_line_of(file.source.as_str()))
        .with_annotation(SourceAnnotation::new(Span::new(0, 0), String::from_str("rename this file or module path")));
    let diagnostic = SourceDiagnostic::from_strings(DiagnosticLevel::Error, file.path.clone(), message).with_excerpt(excerpt);
    proof {
        assert(excerpt@.annotations =~= seq![AnnotationView { span: Span { start: 0, end: 0 }, message: "rename this file or module path"@ }]);
        assert(diagnostic@.excerpts =~= conflict_diagnostic(*file, *original, name@).excerpts);
    }
    diagnostic
}

fn has_builtin_path(path: &str) -> (builtin: bool)
    ensures
        builtin == is_builtin_path(path@),
{
    proof {
        reveal_strlit("<builtin:");
    }
    let builtin_prefix = "<builtin:";
    let builtin = path.unicode_len() >= builtin_prefix.unicode_len()
        && same_text(path.substring_char(0, builtin_prefix.unicode_len()), builtin_prefix);
    proof {
        if is_builtin_path(path@) {
            assert(path@.subrange(0, 9) =~= "<builtin:"@);
        }
    }
    builtin
}

struct NameGroup {
    count: usize,
    first: usize,
    builtin: Option<usize>,
}

/// Counts the modules named `name` and finds the first of them and the first builtin one.
fn name_group(modules: &Vec<ParsedModule>, name: &str) -> (group: NameGroup)
    ensures
        group.count == named_count(modules@, name@, modules@.len() as int),
        named_count(modules@, name@, modules@.len() as int) > 0 ==> group.first == first_named(modules@, name@, modules@.len() as int),
        match group.builtin {
            Some(b) => b == first_builtin_named(modules@, name@, modules@.len() as int),
            None => first_builtin_named(modules@, name@, modules@.len() as int) == -1,
        },
{
    let mut count: usize = 0;
    let mut first: usize = 0;
    let mut builtin: Option<usize> = None;
    let mut index: usize = 0;
    while index < modules.len()
        invariant
            index <= modules@.len(),
            count == named_count(modules@, name@, index as int),
            count <= index,
            count > 0 ==> first == first_named(modules@, name@, index as int),
            count == 0 ==> first_named(modules@, name@, index as int) == -1,
            match builtin {
                Some(b) => b == first_builtin_named(modules@, name@, index as int),
                None => first_builtin_named(modules@, name@, index as int) == -1,
            },
        decreases modules@.len() - index,
    {
        let module = &modules[index];
        if same_text(module.module_name.as_str(), name) {
            if count == 0 {
                first = index;
            }
            count = count + 1;
            if builtin.is_none() && has_builtin_path(module.source_file.path.as_str()) {
                builtin = Some(index);
            }
        }
        index = index + 1;
    }
    NameGroup { count, first, builtin }
}

/// Whether a module before `end` is named `name`.
fn named_before(modules: &Vec<ParsedModule>, name: &str, end: usize) -> (found: bool)
    requires
        end <= modules@.len(),
    ensures
        found == (first_named(modules@, name@, end as int) >= 0),
{
    let mut index: usize = 0;
    while index < end
        invariant
            index <= end,
            end <= modules@.len(),
            first_named(modules@, name@, index as int) == -1,
        decreases end - index,
    {
        if same_text(modules[index].module_name.as_str(), name) {
            proof {
                assert(first_named(modules@, name@, index + 1) >= 0);
                lemma_first_named_stays(modules@, name@, index + 1, end as int);
            }
            return true;
        }
        index = index + 1;
    }
    false
}

proof fn lemma_first_named_stays(modules: Seq<ParsedModule>, name: Seq<char>, from: int, end: int)
    requires
        0 <= from <= end,
        first_named(modules, name, from) >= 0,
    ensures
        first_named(modules, name, end) == first_named(modules, name, from),
    decreases end - from,
{
    if end > from {
        lemma_first_named_stays(modules, name, from, end - 1);
    }
}

/// Reports top-level statements in module files, then modules that share a name: a
/// module named like a builtin module refers to the builtin one, others to the first.
pub fn validate_loaded_modules(modules: &Vec<ParsedModule>, compilation_context: &mut CompilationContext)
    requires
        forall|i: int| 0 <= i < modules@.len() ==> addressable(#[trigger] modules@[i].source_file),
    ensures
        final(compilation_context)@ == old(compilation_context)@ + validation_report(modules@),
{
    let mut index: usize = 0;
    assert(old(compilation_context)@ + Seq::<DiagnosticView>::empty() =~= old(compilation_context)@);
    while index < modules.len()
        invariant
            index <= modules@.len(),
            forall|i: int| 0 <= i < modules@.len() ==> addressable(#[trigger] modules@[i].source_file),
            compilation_context@ == old(compilation_context)@ + statement_reports(modules@, index as int),
        decreases modules@.len() - index,
    {
        validate_loaded_module(&modules[index], compilation_context);
        assert(compilation_context@ =~= old(compilation_context)@ + statement_reports(modules@, index + 1));
        index = index + 1;
    }
    let ghost checked = compilation_context@;
    let ghost all = modules@.len() as int;
    let mut position: usize = 0;
    assert(checked + Seq::<DiagnosticView>::empty() =~= checked);
    while position < modules.len()
        invariant
            position <= modules@.len(),
            all == modules@.len(),
            compilation_context@ == checked + conflict_reports(modules@, position as int),
        decreases modules@.len() - position,
    {
        let name = modules[position].module_name.as_str();
        let ghost before = compilation_context@;
        if !named_before(modules, name, position) {
            let group = name_group(modules, name);
            if group.count >= 2 {
                let referenced = match group.builtin {
                    Some(b) => b,
                    None => group.first,
                };
                proof {
                    lemma_first_named_bounds(modules@, name@, all);
                    lemma_first_builtin_named_bounds(modules@, name@, all);
                }
                let mut index: usize = 0;
                assert(before + Seq::<DiagnosticView>::empty() =~= before);
                while index < modules.len()
                    invariant
                        index <= modules@.len(),
                        all == modules@.len(),
                        referenced < modules@.len(),
                        referenced == if first_builtin_named(modules@, name@, all) >= 0 {
                            first_builtin_named(modules@, name@, all)
                        } else {
                            first_named(modules@, name@, all)
                        },
                        match group.builtin {
                            Some(b) => b == first_builtin_named(modules@, name@, all),
                            None => first_builtin_named(modules@, name@, all) == -1,
                        },
                        compilation_context@ == before + group_report(modules@, name@, index as int),
                    decreases modules@.len() - index,
                {
                    let module = &modules[index];
                    let skipped = !same_text(module.module_name.as_str(), name)
                        || (group.builtin.is_some() && has_builtin_path(module.source_file.path.as_str()));
                    if !skipped {
                        let diagnostic = conflict_diagnostic_for(&module.source_file, &modules[referenced].source_file, name);
                        compilation_context.add_diagnostic(diagnostic);
                    }
                    assert(compilation_context@ =~= before + group_report(modules@, name@, index + 1));
                    index = index + 1;
                }
            }
        }
        assert(compilation_context@ =~= checked + conflict_reports(modules@, position + 1));
        position = position + 1;
    }
    assert(compilation_context@ =~= old(compilation_context)@ + validation_report(modules@));
}

proof fn lemma_first_named_bounds(modules: Seq<ParsedModule>, name: Seq<char>, end: int)
    requires
        0 <= end <= modules.len(),
    ensures
        -1 <= first_named(modules, name, end) < end,
        named_count(modules, name, end) > 0 ==> first_named(modules, name, end) >= 0,
    decreases end,
{
    if end > 0 {
        lemma_first_named_bounds(modules, name, end - 1);
    }
}

proof fn lemma_first_builtin_named_bounds(modules: Seq<ParsedModule>, name: Seq<char>, end: int)
    requires
        0 <= end <= modules.len(),
    ensures
        -1 <= first_builtin_named(modules, name, end) < end,
    decreases end,
{
    if end > 0 {
        lemma_first_builtin_named_bounds(modules, name, end - 1);
    }
}

} // verus!

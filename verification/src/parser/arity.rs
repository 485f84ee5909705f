use vstd::prelude::*;
use crate::span::Span;
use crate::text::same_text;
use crate::ast::{bare_unit, CompilationUnit, Expression, ExpressionKind, ItemKind, Statement, StatementKind};
use crate::ast_view::{
    ExprKindView, ExprView, ItemKindView, ItemView, StmtView, expr_view, expr_views, item_view, stmt_view,
    stmt_views, unit_items,
};
use crate::parser::grammar::ParseFailure;
use crate::parser::parse::{failure_diagnostic, is_parser_failure, lemma_expr_views, parse_source, parser_failure};
use crate::parser::grammar::{Parsed, parse_items};
use crate::source_file::SourceFile;
use crate::compilation_context::CompilationContext;
use crate::diagnostic::{any_error, DiagnosticView};
use crate::error::{CompilationStage, OcelotError, OcelotResult};
use crate::lexer::lex::{failure_view, lex_from};
use crate::resolver::diagnostics::{addressable, source_diagnostic_for_span};
use crate::resolver::resolution::listed_diagnostics;
use crate::error::is_message_error;

verus! {

/// The failure of a call of `println` that does not pass exactly one argument: at its
/// second argument when it passes more, at the call when it passes none.
pub open spec fn println_call_failure(e: ExprView) -> Option<ParseFailure> {
    match e.kind {
        ExprKindView::Call { callee, arguments, .. } => if callee.kind matches ExprKindView::Identifier(id)
            && id.name == "println"@ && arguments.len() != 1 {
            Some(if arguments.len() == 0 {
                ParseFailure { message: "type error: `println` expects exactly one argument"@, span: callee.span, annotation: "missing argument"@ }
            } else {
                ParseFailure { message: "type error: `println` expects exactly one argument"@, span: arguments[1].span, annotation: "extra argument"@ }
            })
        } else {
            None
        },
        _ => None,
    }
}

/// The first such call in `e`: a call before its callee and its arguments.
pub open spec fn println_arity_in_expr(e: ExprView) -> Option<ParseFailure>
    decreases e, 1nat,
{
    match println_call_failure(e) {
        Some(f) => Some(f),
        None => match e.kind {
            ExprKindView::Call { .. } => println_arity_in_call(e),
            ExprKindView::Not(operand) => println_arity_in_expr(*operand),
            _ => None,
        },
    }
}

/// The first such call in the callee, then in the arguments, of call `e`.
pub open spec fn println_arity_in_call(e: ExprView) -> Option<ParseFailure>
    decreases e, 0nat,
{
    match e.kind {
        ExprKindView::Call { callee, arguments, .. } => match println_arity_in_expr(*callee) {
            Some(f) => Some(f),
            None => println_arity_in_exprs(arguments, arguments.len() as int),
        },
        _ => None,
    }
}

/// The first such call among the first `count` expressions.
pub open spec fn println_arity_in_exprs(es: Seq<ExprView>, count: int) -> Option<ParseFailure>
    decreases es, count,
{
    if count <= 0 || count > es.len() {
        None
    } else {
        match println_arity_in_exprs(es, count - 1) {
            Some(f) => Some(f),
            None => println_arity_in_expr(es[count - 1]),
        }
    }
}

/// The first such call among the first `count` statements.
pub open spec fn println_arity_in_statements(ss: Seq<StmtView>, count: int) -> Option<ParseFailure>
    decreases count,
{
    if count <= 0 || count > ss.len() {
        None
    } else {
        match println_arity_in_statements(ss, count - 1) {
            Some(f) => Some(f),
            None => println_arity_in_expr(ss[count - 1].expression),
        }
    }
}

/// The first such call in an item: a statement, or the body of a function or a test.
pub open spec fn println_arity_in_item(item: ItemView) -> Option<ParseFailure> {
    match item.kind {
        ItemKindView::Statement(s) => println_arity_in_expr(s.expression),
        ItemKindView::Function(f) => println_arity_in_statements(f.body, f.body.len() as int),
        ItemKindView::Test { body, .. } => println_arity_in_statements(body, body.len() as int),
        _ => None,
    }
}

/// The first such call among the first `count` items.
pub open spec fn println_arity_in_items(items: Seq<ItemView>, count: int) -> Option<ParseFailure>
    decreases count,
{
    if count <= 0 || count > items.len() {
        None
    } else {
        match println_arity_in_items(items, count - 1) {
            Some(f) => Some(f),
            None => println_arity_in_item(items[count - 1]),
        }
    }
}

/// What a found call reports: the span and whether an argument is missing.
pub open spec fn failure_of(found: Option<(Span, bool)>) -> Option<ParseFailure> {
    match found {
        None => None,
        Some((span, missing)) => Some(ParseFailure {
            message: "type error: `println` expects exactly one argument"@,
            span,
            annotation: if missing { "missing argument"@ } else { "extra argument"@ },
        }),
    }
}

proof fn lemma_exprs_found_stays(es: Seq<ExprView>, k: int, n: int)
    requires
        0 <= k <= n <= es.len(),
        println_arity_in_exprs(es, k) is Some,
    ensures
        println_arity_in_exprs(es, n) == println_arity_in_exprs(es, k),
    decreases n - k,
{
    if n > k {
        lemma_exprs_found_stays(es, k, n - 1);
    }
}

proof fn lemma_statements_found_stays(ss: Seq<StmtView>, k: int, n: int)
    requires
        0 <= k <= n <= ss.len(),
        println_arity_in_statements(ss, k) is Some,
    ensures
        println_arity_in_statements(ss, n) == println_arity_in_statements(ss, k),
    decreases n - k,
{
    if n > k {
        lemma_statements_found_stays(ss, k, n - 1);
    }
}

proof fn lemma_items_found_stays(items: Seq<ItemView>, k: int, n: int)
    requires
        0 <= k <= n <= items.len(),
        println_arity_in_items(items, k) is Some,
    ensures
        println_arity_in_items(items, n) == println_arity_in_items(items, k),
    decreases n - k,
{
    if n > k {
        lemma_items_found_stays(items, k, n - 1);
    }
}

fn check_expression(expression: &Expression) -> (found: Option<(Span, bool)>)
    ensures
        failure_of(found) == println_arity_in_expr(expr_view(*expression)),
    decreases expression, 1nat,
{
    proof {
        reveal_strlit("println");
    }
    match &expression.kind {
        ExpressionKind::Call(call) => {
            let count = call.arguments.len();
            let is_println = match &call.callee.kind {
                ExpressionKind::Identifier(identifier) => same_text(identifier.name.as_str(), "println"),
                _ => false,
            };
            proof {
                lemma_expr_views(call.arguments@);
                let ev = expr_view(*expression);
                assert(ev.kind == ExprKindView::Call {
                    callee: Box::new(expr_view(*call.callee)),
                    arguments: expr_views(call.arguments@),
                    function_index: call.function_index,
                });
                if is_println {
                    assert(expr_view(*call.callee).kind matches ExprKindView::Identifier(id) && id.name == "println"@);
                } else {
                    assert(!(expr_view(*call.callee).kind matches ExprKindView::Identifier(id) && id.name == "println"@));
                }
                if count > 1 {
                    assert(expr_views(call.arguments@)[1] == expr_view(call.arguments@[1]));
                }
            }
            if is_println && count != 1 {
                if count == 0 {
                    return Some((call.callee.span, true));
                } else {
                    return Some((call.arguments[1].span, false));
                }
            }
            proof {
                let kind = expression.kind;
                assert(decreases_to!(expression => kind));
                assert(decreases_to!(kind => kind->Call_0));
                assert(decreases_to!(kind->Call_0 => kind->Call_0.callee));
            }
            let found = match check_expression(&call.callee) {
                Some(found) => Some(found),
                None => check_arguments(expression, &call.arguments),
            };
            proof {
                assert(println_arity_in_expr(expr_view(*expression)) == println_arity_in_call(expr_view(*expression)));
            }
            found
        },
        ExpressionKind::Not(not) => {
            proof {
                let kind = expression.kind;
                assert(decreases_to!(expression => kind));
                assert(decreases_to!(kind => kind->Not_0));
                assert(decreases_to!(kind->Not_0 => kind->Not_0.operand));
            }
            check_expression(&not.operand)
        },
        _ => None,
    }
}

fn check_arguments(whole: &Expression, arguments: &Vec<Expression>) -> (found: Option<(Span, bool)>)
    requires
        whole.kind matches ExpressionKind::Call(call) && call.arguments == *arguments,
    ensures
        failure_of(found) == println_arity_in_exprs(expr_views(arguments@), arguments@.len() as int),
    decreases whole, 0nat,
{
    let ghost views = expr_views(arguments@);
    proof {
        lemma_expr_views(arguments@);
    }
    let mut index: usize = 0;
    while index < arguments.len()
        invariant
            index <= arguments@.len(),
            views == expr_views(arguments@),
            views.len() == arguments@.len(),
            forall|i: int| 0 <= i < arguments@.len() ==> #[trigger] views[i] == expr_view(arguments@[i]),
            whole.kind matches ExpressionKind::Call(call) && call.arguments == *arguments,
            println_arity_in_exprs(views, index as int) is None,
        decreases arguments@.len() - index,
    {
        proof {
            let kind = whole.kind;
            assert(decreases_to!(whole => kind));
            assert(decreases_to!(kind => kind->Call_0));
            assert(decreases_to!(kind->Call_0 => kind->Call_0.arguments));
            assert(decreases_to!(kind->Call_0.arguments => kind->Call_0.arguments@));
            assert(decreases_to!(kind->Call_0.arguments@ => kind->Call_0.arguments@[index as int]));
        }
        let found = check_expression(&arguments[index]);
        proof {
            assert(views[index as int] == expr_view(arguments@[index as int]));
            assert(println_arity_in_exprs(views, index + 1) == println_arity_in_expr(views[index as int]));
        }
        match found {
            Some(found) => {
                proof {
                    lemma_exprs_found_stays(views, index + 1, arguments@.len() as int);
                }
                return Some(found);
            },
            None => {},
        }
        index = index + 1;
    }
    None
}

fn check_statements(statements: &Vec<Statement>) -> (found: Option<(Span, bool)>)
    ensures
        failure_of(found) == println_arity_in_statements(stmt_views(statements@), statements@.len() as int),
{
    let ghost views = stmt_views(statements@);
    let mut index: usize = 0;
    while index < statements.len()
        invariant
            index <= statements@.len(),
            views == stmt_views(statements@),
            println_arity_in_statements(views, index as int) is None,
        decreases statements@.len() - index,
    {
        let expression = match &statements[index].kind {
            StatementKind::Expression(e) => &e.expression,
        };
        proof {
            assert(views[index as int] == stmt_view(statements@[index as int]));
        }
        let found = check_expression(expression);
        proof {
            assert(println_arity_in_statements(views, index + 1) == println_arity_in_expr(views[index as int].expression));
        }
        match found {
            Some(found) => {
                proof {
                    lemma_statements_found_stays(views, index + 1, statements@.len() as int);
                }
                return Some(found);
            },
            None => {},
        }
        index = index + 1;
    }
    None
}

/// Finds the first call of `println` that does not pass exactly one argument, in item
/// order: its span and whether an argument is missing.
pub fn println_arity_failure(unit: &CompilationUnit) -> (found: Option<(Span, bool)>)
    ensures
        failure_of(found) == println_arity_in_items(unit_items(*unit), unit.items@.len() as int),
{
    let ghost views = unit_items(*unit);
    let mut index: usize = 0;
    while index < unit.items.len()
        invariant
            index <= unit.items@.len(),
            views == unit_items(*unit),
            views.len() == unit.items@.len(),
            println_arity_in_items(views, index as int) is None,
        decreases unit.items@.len() - index,
    {
        proof {
            assert(views[index as int] == item_view(unit.items@[index as int]));
        }
        let found = match &unit.items[index].kind {
            ItemKind::Statement(statement) => match &statement.kind {
                StatementKind::Expression(e) => check_expression(&e.expression),
            },
            ItemKind::Function(function) => check_statements(&function.body),
            ItemKind::Test(test) => check_statements(&test.body),
            _ => None,
        };
        proof {
            assert(println_arity_in_items(views, index + 1) == println_arity_in_item(views[index as int]));
        }
        match found {
            Some(found) => {
                proof {
                    lemma_items_found_stays(views, index + 1, unit.items@.len() as int);
                }
                return Some(found);
            },
            None => {},
        }
        index = index + 1;
    }
    None
}

/// The items of the script at `path` with text `source`, when it lexes, parses and calls
/// `println` with exactly one argument throughout.
pub open spec fn script_items(path: Seq<char>, source: Seq<char>) -> Option<Seq<ItemView>> {
    let b = vstd::utf8::encode_utf8(source);
    let lexed = lex_from(b, 0);
    if lexed.1 is Some {
        None
    } else {
        match parse_items(lexed.0, b, 0) {
            Parsed::Done { value, .. } => if println_arity_in_items(value, value.len() as int) is None {
                Some(value)
            } else {
                None
            },
            Parsed::Failed(_) => None,
        }
    }
}

/// Parses a script: its source file as `parse_source` does, then a call of `println` that
/// does not pass exactly one argument is reported as a type error (the first in item
/// order, at its second argument or, when it passes none, at its callee).
pub fn parse_script(source_file: &SourceFile, compilation_context: &mut CompilationContext) -> (result: OcelotResult<CompilationUnit>)
    requires
        addressable(*source_file),
    ensures
        ({
            let b = source_file.bytes();
            let lexed = lex_from(b, 0);
            let after_lexing = old(compilation_context)@ + match lexed.1 {
                None => Seq::<DiagnosticView>::empty(),
                Some(failure) => seq![failure_view(source_file.path@, b, failure)],
            };
            let parsed = parse_items(lexed.0, b, 0);
            &&& result matches Err(e) ==> {
                &&& is_parser_failure(e)
                &&& e.source matches Some(cause) && is_message_error(*cause, listed_diagnostics(final(compilation_context)@))
            }
            &&& any_error(after_lexing) ==> result is Err && final(compilation_context)@ == after_lexing
            &&& !any_error(after_lexing) ==> {
                &&& parsed matches Parsed::Failed(f) ==> result is Err
                    && final(compilation_context)@ == after_lexing.push(failure_diagnostic(*source_file, f))
                &&& parsed matches Parsed::Done { value, .. } ==> match println_arity_in_items(value, value.len() as int) {
                    None => result is Ok && final(compilation_context)@ == after_lexing,
                    Some(f) => result is Err && final(compilation_context)@ == after_lexing.push(failure_diagnostic(*source_file, f)),
                }
                &&& result matches Ok(unit) ==> parsed matches Parsed::Done { value, .. } && value == unit_items(unit)
                    && unit.span == (Span { start: 0, end: b.len() as usize })
            }
            &&& result matches Ok(unit) ==> bare_unit(unit)
        }),
{
    let unit = match parse_source(source_file, compilation_context) {
        Ok(unit) => unit,
        Err(_) => return Err(parser_failure(compilation_context)),
    };
    match println_arity_failure(&unit) {
        None => Ok(unit),
        Some((span, missing)) => {
            let annotation = if missing { "missing argument" } else { "extra argument" };
            let diagnostic = source_diagnostic_for_span(
                source_file,
                String::from_str("type error: `println` expects exactly one argument"),
                span,
                String::from_str(annotation),
            );
            compilation_context.add_diagnostic(diagnostic);
            Err(parser_failure(compilation_context))
        },
    }
}

} // verus!

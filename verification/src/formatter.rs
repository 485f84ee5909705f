use vstd::prelude::*;
use vstd::string::StrSliceExecFns;
use crate::text::chars_of;
use crate::lexer::token::TriviaPiece;
use crate::ast::{
    CompilationUnit, Expression, ExpressionKind, FunctionEffectClause, FunctionItem,
    FunctionParameter, Identifier, Item, ItemKind, Statement, StatementKind, TestItem, UseItem,
    EffectItem, joined_names, join_names,
};

verus! {

/// `level` indentation units of four spaces.
pub open spec fn indent_text(level: nat) -> Seq<char>
    decreases level,
{
    if level == 0 {
        Seq::empty()
    } else {
        indent_text((level - 1) as nat) + "    "@
    }
}

/// `count` line breaks.
pub open spec fn blank_lines(count: nat) -> Seq<char>
    decreases count,
{
    if count == 0 {
        Seq::empty()
    } else {
        blank_lines((count - 1) as nat) + "\n"@
    }
}

/// Position of the first `\n` at or after `i`, or the length of `text`.
pub open spec fn newline_index(text: Seq<char>, i: int) -> int
    decreases text.len() - i,
{
    if i < 0 || i >= text.len() {
        text.len() as int
    } else if text[i] == '\n' {
        i
    } else {
        newline_index(text, i + 1)
    }
}

/// The end of the line that starts at `i` and breaks at `k`: a `\r` before the `\n`
/// is not part of the line.
pub open spec fn line_end(text: Seq<char>, i: int, k: int) -> int {
    if k < text.len() && k > i && text[k - 1] == '\r' { k - 1 } else { k }
}

/// The lines of `text` from offset `i` on, split at `\n` (or `\r\n`); a final line
/// break ends the last line and starts no other.
pub open spec fn lines_from(text: Seq<char>, i: int) -> Seq<Seq<char>>
    decreases text.len() - i,
{
    if i < 0 || i >= text.len() {
        Seq::empty()
    } else {
        let k = newline_index(text, i);
        let line = text.subrange(i, line_end(text, i, k));
        if k < i || k >= text.len() {
            seq![line]
        } else {
            seq![line] + lines_from(text, k + 1)
        }
    }
}

/// Lines, each indented, separated by line breaks.
pub open spec fn indented_lines(lines: Seq<Seq<char>>, level: nat) -> Seq<char>
    decreases lines.len(),
{
    if lines.len() == 0 {
        Seq::empty()
    } else if lines.len() == 1 {
        indent_text(level) + lines[0]
    } else {
        indented_lines(lines.drop_last(), level) + "\n"@ + indent_text(level) + lines.last()
    }
}

/// `text` with every line indented by `level`.
pub open spec fn indented_text(text: Seq<char>, level: nat) -> Seq<char> {
    indented_lines(lines_from(text, 0), level)
}

/// Blank lines kept before a node: the longest run of line breaks among its leading
/// trivia, less one.
pub open spec fn blank_line_count(pieces: Seq<TriviaPiece>) -> nat
    decreases pieces.len(),
{
    if pieces.len() == 0 {
        0
    } else {
        let rest = blank_line_count(pieces.drop_last());
        let here: nat = match pieces.last() {
            TriviaPiece::Newlines { count, .. } => if count >= 1 { (count - 1) as nat } else { 0 },
            _ => 0,
        };
        if here > rest { here } else { rest }
    }
}

/// Comments before a node, each on its own indented lines.
pub open spec fn leading_comments_text(pieces: Seq<TriviaPiece>, level: nat) -> Seq<char>
    decreases pieces.len(),
{
    if pieces.len() == 0 {
        Seq::empty()
    } else {
        leading_comments_text(pieces.drop_last(), level) + match pieces.last() {
            TriviaPiece::Newlines { .. } => Seq::empty(),
            TriviaPiece::LineComment { text, .. } => indented_text(text@, level) + "\n"@,
            TriviaPiece::BlockComment { text, .. } => indented_text(text@, level) + "\n"@,
        }
    }
}

/// Comments after a node on the same line, each after a space.
pub open spec fn trailing_comments_text(pieces: Seq<TriviaPiece>) -> Seq<char>
    decreases pieces.len(),
{
    if pieces.len() == 0 {
        Seq::empty()
    } else {
        trailing_comments_text(pieces.drop_last()) + match pieces.last() {
            TriviaPiece::Newlines { .. } => Seq::empty(),
            TriviaPiece::LineComment { text, .. } => " "@ + text@,
            TriviaPiece::BlockComment { text, .. } => " "@ + text@,
        }
    }
}

/// Parts joined by `separator`.
pub open spec fn joined(parts: Seq<Seq<char>>, separator: Seq<char>) -> Seq<char>
    decreases parts.len(),
{
    if parts.len() == 0 {
        Seq::empty()
    } else if parts.len() == 1 {
        parts[0]
    } else {
        joined(parts.drop_last(), separator) + separator + parts.last()
    }
}

/// The source text of an expression.
pub open spec fn expression_text(expression: Expression) -> Seq<char>
    decreases expression, 1nat,
{
    match expression.kind {
        ExpressionKind::BooleanLiteral(literal) => if literal.value { "true"@ } else { "false"@ },
        ExpressionKind::Call(call) => expression_text(*call.callee) + "("@ + arguments_text(call.arguments@) + ")"@,
        ExpressionKind::Identifier(identifier) => identifier.name@,
        ExpressionKind::Not(not) => "not "@ + expression_text(*not.operand),
        ExpressionKind::QualifiedIdentifier(path) => joined_names(path.segments@),
        ExpressionKind::StringLiteral(literal) => "\""@ + literal.value@ + "\""@,
    }
}

/// Arguments separated by `, `.
pub open spec fn arguments_text(arguments: Seq<Expression>) -> Seq<char>
    decreases arguments, 0nat,
{
    if arguments.len() == 0 {
        Seq::empty()
    } else if arguments.len() == 1 {
        expression_text(arguments[0])
    } else {
        arguments_text(arguments.drop_last()) + ", "@ + expression_text(arguments.last())
    }
}

/// An indented expression statement.
pub open spec fn statement_text(statement: Statement, level: nat) -> Seq<char> {
    match statement.kind {
        StatementKind::Expression(e) => indent_text(level) + expression_text(e.expression) + ";"@,
    }
}

/// A statement with its comments.
pub open spec fn statement_entry(statement: Statement, level: nat) -> Seq<char> {
    leading_comments_text(statement.trivia.leading@, level) + statement_text(statement, level)
        + trailing_comments_text(statement.trivia.trailing@)
}

/// Statements on successive lines, keeping the blank lines before each but the first.
pub open spec fn statement_list_text(statements: Seq<Statement>, level: nat) -> Seq<char>
    decreases statements.len(),
{
    if statements.len() == 0 {
        Seq::empty()
    } else if statements.len() == 1 {
        statement_entry(statements[0], level)
    } else {
        statement_list_text(statements.drop_last(), level) + "\n"@
            + blank_lines(blank_line_count(statements.last().trivia.leading@))
            + statement_entry(statements.last(), level)
    }
}

/// A block: ` {}` when empty, else its statements one level deeper between braces.
pub open spec fn block_text(body: Seq<Statement>, level: nat) -> Seq<char> {
    if body.len() == 0 {
        " {}"@
    } else {
        " {\n"@ + statement_list_text(body, level + 1) + "\n"@ + indent_text(level) + "}"@
    }
}

pub open spec fn parameter_text(parameter: FunctionParameter) -> Seq<char> {
    parameter.identifier.name@ + ": "@ + parameter.type_identifier.name@
}

pub open spec fn clause_text(keyword: Seq<char>, clause: Option<FunctionEffectClause>) -> Seq<char> {
    match clause {
        Some(c) => " "@ + keyword + " "@ + c.effect.name@,
        None => Seq::empty(),
    }
}

pub open spec fn function_text(function: FunctionItem, level: nat) -> Seq<char> {
    indent_text(level) + (if function.is_native { "native "@ } else { Seq::empty() }) + "fun "@
        + function.identifier.name@ + "("@
        + joined(function.parameters@.map_values(|p: FunctionParameter| parameter_text(p)), ", "@) + ")"@
        + clause_text("can"@, function.can_clause) + clause_text("cannot"@, function.cannot_clause)
        + if function.is_native { ";"@ } else { block_text(function.body@, level) }
}

pub open spec fn test_text(test: TestItem, level: nat) -> Seq<char> {
    indent_text(level) + "test "@ + "\""@ + test.name@ + "\""@ + block_text(test.body@, level)
}

pub open spec fn use_text(use_item: UseItem, level: nat) -> Seq<char> {
    let names = use_item.imported_names@;
    indent_text(level) + "use "@ + joined_names(use_item.imported_module.segments@) + "::"@
        + (if names.len() == 1 {
            names[0].name@
        } else {
            "{"@ + joined(names.map_values(|i: Identifier| i.name@), ", "@) + "}"@
        }) + ";"@
}

pub open spec fn item_text(item: Item, level: nat) -> Seq<char> {
    match item.kind {
        ItemKind::Effect(e) => indent_text(level) + "effect "@ + e.identifier.name@ + ";"@,
        ItemKind::Function(f) => function_text(f, level),
        ItemKind::Statement(s) => statement_text(s, level),
        ItemKind::Test(t) => test_text(t, level),
        ItemKind::Use(u) => use_text(u, level),
    }
}

pub open spec fn item_entry(item: Item) -> Seq<char> {
    leading_comments_text(item.trivia.leading@, 0) + item_text(item, 0) + trailing_comments_text(item.trivia.trailing@)
}

/// Top-level items on successive lines, keeping the blank lines before each but the first.
pub open spec fn items_text(items: Seq<Item>) -> Seq<char>
    decreases items.len(),
{
    if items.len() == 0 {
        Seq::empty()
    } else if items.len() == 1 {
        item_entry(items[0])
    } else {
        items_text(items.drop_last()) + "\n"@ + blank_lines(blank_line_count(items.last().trivia.leading@))
            + item_entry(items.last())
    }
}

/// The comments after the last item, on lines of their own.
pub open spec fn with_trailing_comments(text: Seq<char>, pieces: Seq<TriviaPiece>) -> Seq<char> {
    if pieces.len() == 0 {
        text
    } else {
        (if text.len() > 0 && text.last() != '\n' { text + "\n"@ } else { text })
            + blank_lines(blank_line_count(pieces)) + leading_comments_text(pieces, 0)
    }
}

/// The formatted text of a compilation unit, before its final line break is dropped.
pub open spec fn unit_text(unit: CompilationUnit) -> Seq<char> {
    with_trailing_comments(
        blank_lines(blank_line_count(unit.trivia.leading@)) + leading_comments_text(unit.trivia.leading@, 0)
            + items_text(unit.items@),
        unit.trivia.trailing@,
    )
}

/// The formatted text of a compilation unit: `unit_text` without a final line break.
pub open spec fn formatted(unit: CompilationUnit) -> Seq<char> {
    let text = unit_text(unit);
    if text.len() > 0 && text.last() == '\n' { text.drop_last() } else { text }
}

/// Appends `indent_level` indentation units.
pub fn write_indent(output: &mut String, indent_level: usize)
    ensures
        final(output)@ == old(output)@ + indent_text(indent_level as nat),
{
    let mut count: usize = 0;
    while count < indent_level
        invariant
            count <= indent_level,
            output@ == old(output)@ + indent_text(count as nat),
        decreases indent_level - count,
    {
        output.append("    ");
        count = count + 1;
        assert(output@ =~= old(output)@ + indent_text(count as nat));
    }
}

/// Appends `count` line breaks.
pub fn write_blank_lines(output: &mut String, count: usize)
    ensures
        final(output)@ == old(output)@ + blank_lines(count as nat),
{
    let mut written: usize = 0;
    while written < count
        invariant
            written <= count,
            output@ == old(output)@ + blank_lines(written as nat),
        decreases count - written,
    {
        output.append("\n");
        written = written + 1;
        assert(output@ =~= old(output)@ + blank_lines(written as nat));
    }
}

/// Appends `text` with every line indented by `indent_level`, lines separated by line
/// breaks (the text's own `\r\n` and final line break are not copied).
pub fn write_indented_text(output: &mut String, text: &str, indent_level: usize)
    ensures
        final(output)@ == old(output)@ + indented_text(text@, indent_level as nat),
{
    let chars = chars_of(text);
    let length = chars.len();
    let ghost all = lines_from(text@, 0);
    let ghost mut done: Seq<Seq<char>> = Seq::empty();
    let mut start: usize = 0;
    let mut index: usize = 0;
    while start < length
        invariant
            chars@ == text@,
            length == text@.len(),
            start <= length,
            index <= start,
            index == done.len(),
            all == lines_from(text@, 0),
            all == done + lines_from(text@, start as int),
            output@ == old(output)@ + indented_lines(done, indent_level as nat),
        decreases length - start,
    {
        let mut stop = start;
        while stop < length && chars[stop] != '\n'
            invariant
                chars@ == text@,
                length == text@.len(),
                start <= stop <= length,
                newline_index(text@, start as int) == newline_index(text@, stop as int),
            decreases length - stop,
        {
            stop = stop + 1;
        }
        let end = if stop < length && stop > start && chars[stop - 1] == '\r' { stop - 1 } else { stop };
        let ghost line = text@.subrange(start as int, end as int);
        proof {
            assert(newline_index(text@, stop as int) == stop);
            assert(lines_from(text@, start as int) == seq![line] + lines_from(text@, if stop < length { stop + 1 } else { length as int }));
        }
        if index > 0 {
            output.append("\n");
        }
        write_indent(output, indent_level);
        output.append(text.substring_char(start, end));
        proof {
            let next = done.push(line);
            assert(next.drop_last() =~= done);
            if index == 0 {
                assert(output@ =~= old(output)@ + indented_lines(next, indent_level as nat));
            } else {
                assert(output@ =~= old(output)@ + indented_lines(next, indent_level as nat));
            }
            assert(all =~= next + lines_from(text@, if stop < length { stop + 1 } else { length as int }));
            done = next;
        }
        index = index + 1;
        start = if stop < length { stop + 1 } else { length };
    }
    assert(done + lines_from(text@, start as int) =~= done);
}

/// Blank lines to keep before a node with these leading trivia pieces.
fn blank_line_count_of(pieces: &Vec<TriviaPiece>) -> (count: usize)
    ensures
        count == blank_line_count(pieces@),
{
    let mut count: usize = 0;
    let mut index: usize = 0;
    while index < pieces.len()
        invariant
            index <= pieces@.len(),
            count == blank_line_count(pieces@.subrange(0, index as int)),
        decreases pieces@.len() - index,
    {
        let here: usize = match &pieces[index] {
            TriviaPiece::Newlines { count, .. } => count.saturating_sub(1),
            _ => 0,
        };
        if here > count {
            count = here;
        }
        index = index + 1;
        assert(pieces@.subrange(0, index as int).drop_last() =~= pieces@.subrange(0, index - 1));
    }
    assert(pieces@.subrange(0, index as int) =~= pieces@);
    count
}

fn write_leading_comments(output: &mut String, pieces: &Vec<TriviaPiece>, indent_level: usize)
    ensures
        final(output)@ == old(output)@ + leading_comments_text(pieces@, indent_level as nat),
{
    let mut index: usize = 0;
    while index < pieces.len()
        invariant
            index <= pieces@.len(),
            output@ == old(output)@ + leading_comments_text(pieces@.subrange(0, index as int), indent_level as nat),
        decreases pieces@.len() - index,
    {
        let ghost before = output@;
        match &pieces[index] {
            TriviaPiece::Newlines { .. } => {},
            TriviaPiece::LineComment { text, .. } => {
                write_indented_text(output, text.as_str(), indent_level);
                output.append("\n");
            },
            TriviaPiece::BlockComment { text, .. } => {
                write_indented_text(output, text.as_str(), indent_level);
                output.append("\n");
            },
        }
        index = index + 1;
        proof {
            let prefix = pieces@.subrange(0, index as int);
            assert(prefix.drop_last() =~= pieces@.subrange(0, index - 1));
            assert(prefix.last() == pieces@[index - 1]);
            assert(output@ =~= old(output)@ + leading_comments_text(prefix, indent_level as nat));
        }
    }
    assert(pieces@.subrange(0, index as int) =~= pieces@);
}

fn write_trailing_comments(output: &mut String, pieces: &Vec<TriviaPiece>)
    ensures
        final(output)@ == old(output)@ + trailing_comments_text(pieces@),
{
    let mut index: usize = 0;
    while index < pieces.len()
        invariant
            index <= pieces@.len(),
            output@ == old(output)@ + trailing_comments_text(pieces@.subrange(0, index as int)),
        decreases pieces@.len() - index,
    {
        match &pieces[index] {
            TriviaPiece::Newlines { .. } => {},
            TriviaPiece::LineComment { text, .. } => {
                output.append(" ");
                output.append(text.as_str());
            },
            TriviaPiece::BlockComment { text, .. } => {
                output.append(" ");
                output.append(text.as_str());
            },
        }
        index = index + 1;
        proof {
            let prefix = pieces@.subrange(0, index as int);
            assert(prefix.drop_last() =~= pieces@.subrange(0, index - 1));
            assert(prefix.last() == pieces@[index - 1]);
            assert(output@ =~= old(output)@ + trailing_comments_text(prefix));
        }
    }
    assert(pieces@.subrange(0, index as int) =~= pieces@);
}

/// Appends the source text of an expression.
fn write_expression(output: &mut String, expression: &Expression)
    ensures
        final(output)@ == old(output)@ + expression_text(*expression),
    decreases expression,
{
    match &expression.kind {
        ExpressionKind::BooleanLiteral(literal) => {
            if literal.value {
                output.append("true");
            } else {
                output.append("false");
            }
        },
        ExpressionKind::Call(call) => {
            write_expression(output, &call.callee);
            output.append("(");
            let ghost head = output@;
            let mut index: usize = 0;
            while index < call.arguments.len()
                invariant
                    index <= call.arguments@.len(),
                    expression.kind == ExpressionKind::Call(*call),
                    output@ == head + arguments_text(call.arguments@.subrange(0, index as int)),
                decreases call.arguments@.len() - index,
            {
                if index > 0 {
                    output.append(", ");
                }
                proof {
                    let kind = expression.kind;
                    assert(decreases_to!(*expression => kind));
                    assert(decreases_to!(kind => kind->Call_0));
                    assert(decreases_to!(*call => call.arguments));
                    assert(decreases_to!(call.arguments => call.arguments@));
                    assert(decreases_to!(call.arguments@ => call.arguments@[index as int]));
                }
                write_expression(output, &call.arguments[index]);
                index = index + 1;
                proof {
                    let prefix = call.arguments@.subrange(0, index as int);
                    assert(prefix.drop_last() =~= call.arguments@.subrange(0, index - 1));
                    assert(prefix.last() == call.arguments@[index - 1]);
                    if index == 1 {
                        assert(arguments_text(call.arguments@.subrange(0, 0)) =~= Seq::<char>::empty());
                        assert(output@ =~= head + arguments_text(prefix));
                    } else {
                        assert(output@ =~= head + arguments_text(prefix));
                    }
                }
            }
            assert(call.arguments@.subrange(0, index as int) =~= call.arguments@);
            output.append(")");
        },
        ExpressionKind::Identifier(identifier) => {
            output.append(identifier.name.as_str());
        },
        ExpressionKind::Not(not) => {
            output.append("not ");
            write_expression(output, &not.operand);
        },
        ExpressionKind::QualifiedIdentifier(path) => {
            let text = join_names(path.segments.as_slice());
            output.append(text.as_str());
        },
        ExpressionKind::StringLiteral(literal) => {
            output.append("\"");
            output.append(literal.value.as_str());
            output.append("\"");
        },
    }
}

fn write_statement(output: &mut String, statement: &Statement, indent_level: usize)
    ensures
        final(output)@ == old(output)@ + statement_text(*statement, indent_level as nat),
{
    match &statement.kind {
        StatementKind::Expression(e) => {
            write_indent(output, indent_level);
            write_expression(output, &e.expression);
            output.append(";");
        },
    }
}

fn write_statement_list(output: &mut String, statements: &Vec<Statement>, indent_level: usize)
    ensures
        final(output)@ == old(output)@ + statement_list_text(statements@, indent_level as nat),
{
    let mut index: usize = 0;
    while index < statements.len()
        invariant
            index <= statements@.len(),
            output@ == old(output)@ + statement_list_text(statements@.subrange(0, index as int), indent_level as nat),
        decreases statements@.len() - index,
    {
        let statement = &statements[index];
        if index > 0 {
            output.append("\n");
            let count = blank_line_count_of(&statement.trivia.leading);
            write_blank_lines(output, count);
        }
        write_leading_comments(output, &statement.trivia.leading, indent_level);
        write_statement(output, statement, indent_level);
        write_trailing_comments(output, &statement.trivia.trailing);
        index = index + 1;
        proof {
            let prefix = statements@.subrange(0, index as int);
            assert(prefix.drop_last() =~= statements@.subrange(0, index - 1));
            assert(prefix.last() == statements@[index - 1]);
            if index == 1 {
                assert(output@ =~= old(output)@ + statement_list_text(prefix, indent_level as nat));
            } else {
                assert(output@ =~= old(output)@ + statement_list_text(prefix, indent_level as nat));
            }
        }
    }
    assert(statements@.subrange(0, index as int) =~= statements@);
}

fn write_block(output: &mut String, body: &Vec<Statement>, indent_level: usize)
    requires
        indent_level < usize::MAX,
    ensures
        final(output)@ == old(output)@ + block_text(body@, indent_level as nat),
{
    if body.len() == 0 {
        output.append(" {}");
        return;
    }
    output.append(" {\n");
    write_statement_list(output, body, indent_level + 1);
    output.append("\n");
    write_indent(output, indent_level);
    output.append("}");
}

fn write_function_parameter(output: &mut String, parameter: &FunctionParameter)
    ensures
        final(output)@ == old(output)@ + parameter_text(*parameter),
{
    output.append(parameter.identifier.name.as_str());
    output.append(": ");
    output.append(parameter.type_identifier.name.as_str());
}

fn write_function_effect_clause(output: &mut String, keyword: &str, clause: &FunctionEffectClause)
    ensures
        final(output)@ == old(output)@ + keyword@ + " "@ + clause.effect.name@,
{
    output.append(keyword);
    output.append(" ");
    output.append(clause.effect.name.as_str());
}

fn write_function_parameters(output: &mut String, parameters: &Vec<FunctionParameter>)
    ensures
        final(output)@ == old(output)@ + joined(parameters@.map_values(|p: FunctionParameter| parameter_text(p)), ", "@),
{
    let ghost parts = parameters@.map_values(|p: FunctionParameter| parameter_text(p));
    let mut index: usize = 0;
    while index < parameters.len()
        invariant
            index <= parameters@.len(),
            parts == parameters@.map_values(|p: FunctionParameter| parameter_text(p)),
            output@ == old(output)@ + joined(parts.subrange(0, index as int), ", "@),
        decreases parameters@.len() - index,
    {
        if index > 0 {
            output.append(", ");
        }
        write_function_parameter(output, &parameters[index]);
        index = index + 1;
        proof {
            let prefix = parts.subrange(0, index as int);
            assert(prefix.drop_last() =~= parts.subrange(0, index - 1));
            assert(prefix.last() == parameter_text(parameters@[index - 1]));
            assert(output@ =~= old(output)@ + joined(prefix, ", "@));
        }
    }
    assert(parts.subrange(0, index as int) =~= parts);
}

fn write_clause(output: &mut String, keyword: &str, clause: &Option<FunctionEffectClause>)
    ensures
        final(output)@ == old(output)@ + clause_text(keyword@, *clause),
{
    match clause {
        Some(clause) => {
            output.append(" ");
            write_function_effect_clause(output, keyword, clause);
            assert(output@ =~= old(output)@ + clause_text(keyword@, Some(*clause)));
        },
        None => {
            assert(output@ =~= old(output)@ + clause_text(keyword@, None));
        },
    }
}

fn write_function_item(output: &mut String, function: &FunctionItem, indent_level: usize)
    requires
        indent_level < usize::MAX,
    ensures
        final(output)@ == old(output)@ + function_text(*function, indent_level as nat),
{
    write_indent(output, indent_level);
    if function.is_native {
        output.append("native ");
    }
    output.append("fun ");
    output.append(function.identifier.name.as_str());
    output.append("(");
    write_function_parameters(output, &function.parameters);
    output.append(")");
    write_clause(output, "can", &function.can_clause);
    write_clause(output, "cannot", &function.cannot_clause);
    let ghost header = output@;
    if function.is_native {
        output.append(";");
    } else {
        write_block(output, &function.body, indent_level);
    }
    assert(output@ =~= old(output)@ + function_text(*function, indent_level as nat));
}

fn write_test_item(output: &mut String, test: &TestItem, indent_level: usize)
    requires
        indent_level < usize::MAX,
    ensures
        final(output)@ == old(output)@ + test_text(*test, indent_level as nat),
{
    write_indent(output, indent_level);
    output.append("test ");
    output.append("\"");
    output.append(test.name.as_str());
    output.append("\"");
    write_block(output, &test.body, indent_level);
}

fn write_use_item(output: &mut String, use_item: &UseItem, indent_level: usize)
    ensures
        final(output)@ == old(output)@ + use_text(*use_item, indent_level as nat),
{
    write_indent(output, indent_level);
    output.append("use ");
    let module = use_item.imported_module.render();
    output.append(module.as_str());
    output.append("::");
    if use_item.imported_names.len() == 1 {
        output.append(use_item.imported_names[0].name.as_str());
    } else {
        output.append("{");
        let ghost head = output@;
        let ghost parts = use_item.imported_names@.map_values(|i: Identifier| i.name@);
        let mut index: usize = 0;
        while index < use_item.imported_names.len()
            invariant
                index <= use_item.imported_names@.len(),
                parts == use_item.imported_names@.map_values(|i: Identifier| i.name@),
                output@ == head + joined(parts.subrange(0, index as int), ", "@),
            decreases use_item.imported_names@.len() - index,
        {
            if index > 0 {
                output.append(", ");
            }
            output.append(use_item.imported_names[index].name.as_str());
            index = index + 1;
            proof {
                let prefix = parts.subrange(0, index as int);
                assert(prefix.drop_last() =~= parts.subrange(0, index - 1));
                assert(output@ =~= head + joined(prefix, ", "@));
            }
        }
        assert(parts.subrange(0, index as int) =~= parts);
        output.append("}");
    }
    output.append(";");
}

fn write_effect_item(output: &mut String, effect: &EffectItem, indent_level: usize)
    ensures
        final(output)@ == old(output)@ + indent_text(indent_level as nat) + "effect "@ + effect.identifier.name@ + ";"@,
{
    write_indent(output, indent_level);
    output.append("effect ");
    output.append(effect.identifier.name.as_str());
    output.append(";");
}

fn write_item(output: &mut String, item: &Item, indent_level: usize)
    requires
        indent_level < usize::MAX,
    ensures
        final(output)@ == old(output)@ + item_text(*item, indent_level as nat),
{
    match &item.kind {
        ItemKind::Effect(effect) => write_effect_item(output, effect, indent_level),
        ItemKind::Function(function) => write_function_item(output, function, indent_level),
        ItemKind::Statement(statement) => write_statement(output, statement, indent_level),
        ItemKind::Test(test) => write_test_item(output, test, indent_level),
        ItemKind::Use(use_item) => write_use_item(output, use_item, indent_level),
    }
}

fn write_compilation_unit_leading_trivia(output: &mut String, unit: &CompilationUnit)
    ensures
        final(output)@ == old(output)@ + blank_lines(blank_line_count(unit.trivia.leading@))
            + leading_comments_text(unit.trivia.leading@, 0),
{
    let count = blank_line_count_of(&unit.trivia.leading);
    write_blank_lines(output, count);
    write_leading_comments(output, &unit.trivia.leading, 0);
}

fn ends_with_newline(text: &String) -> (found: bool)
    ensures
        found == (text@.len() > 0 && text@.last() == '\n'),
{
    let length = text.as_str().unicode_len();
    length > 0 && text.as_str().get_char(length - 1) == '\n'
}

fn write_compilation_unit_trailing_trivia(output: &mut String, unit: &CompilationUnit)
    ensures
        final(output)@ == with_trailing_comments(old(output)@, unit.trivia.trailing@),
{
    if unit.trivia.trailing.len() == 0 {
        return;
    }
    if output.as_str().unicode_len() > 0 && !ends_with_newline(output) {
        output.append("\n");
    }
    let count = blank_line_count_of(&unit.trivia.trailing);
    write_blank_lines(output, count);
    write_leading_comments(output, &unit.trivia.trailing, 0);
}

/// Formats one compilation unit into stable source text: items at the left margin,
/// bodies indented by four spaces, comments and blank lines kept where they were
/// attached, and no line break at the end.
pub fn format_compilation_unit(unit: &CompilationUnit) -> (text: String)
    ensures
        text@ == formatted(*unit),
        !(text@.len() > 0 && text@.last() == '\n') || unit_text(*unit).len() > 1 && unit_text(*unit).drop_last().last() == '\n',
{
    let mut output = String::new();
    write_compilation_unit_leading_trivia(&mut output, unit);
    let ghost head = output@;
    let mut index: usize = 0;
    while index < unit.items.len()
        invariant
            index <= unit.items@.len(),
            output@ == head + items_text(unit.items@.subrange(0, index as int)),
        decreases unit.items@.len() - index,
    {
        let item = &unit.items[index];
        if index > 0 {
            output.append("\n");
            let count = blank_line_count_of(&item.trivia.leading);
            write_blank_lines(&mut output, count);
        }
        write_leading_comments(&mut output, &item.trivia.leading, 0);
        write_item(&mut output, item, 0);
        write_trailing_comments(&mut output, &item.trivia.trailing);
        index = index + 1;
        proof {
            let prefix = unit.items@.subrange(0, index as int);
            assert(prefix.drop_last() =~= unit.items@.subrange(0, index - 1));
            assert(prefix.last() == unit.items@[index - 1]);
            assert(output@ =~= head + items_text(prefix));
        }
    }
    assert(unit.items@.subrange(0, index as int) =~= unit.items@);
    write_compilation_unit_trailing_trivia(&mut output, unit);
    if ends_with_newline(&output) {
        let length = output.as_str().unicode_len();
        let trimmed = output.as_str().substring_char(0, length - 1).to_owned();
        assert(trimmed@ =~= unit_text(*unit).drop_last());
        return trimmed;
    }
    output
}

/// The clauses of a function header in the order the grammar reads them: ` can E` first,
/// then ` cannot F`, each only when present.
pub open spec fn clauses_in_grammar_order(function: FunctionItem) -> Seq<char> {
    match (function.can_clause, function.cannot_clause) {
        (Some(c), Some(d)) => " can "@ + c.effect.name@ + " cannot "@ + d.effect.name@,
        (Some(c), None) => " can "@ + c.effect.name@,
        (None, Some(d)) => " cannot "@ + d.effect.name@,
        (None, None) => Seq::empty(),
    }
}

/// A function's effect clauses are written where the grammar reads them and in its
/// order: the text of a function is the text of the same function without clauses, split
/// right after the `)` that closes its parameters, with ` can E` and then ` cannot F`
/// put in between. The returned pair is that split.
pub proof fn law_clauses_follow_parameters_can_first(function: FunctionItem, level: nat) -> (split: (Seq<char>, Seq<char>))
    ensures
        ({
            let bare = FunctionItem { can_clause: None, cannot_clause: None, ..function };
            &&& function_text(bare, level) == split.0 + split.1
            &&& split.0.len() > 0 && split.0.last() == ')'
            &&& function_text(function, level) == split.0 + clauses_in_grammar_order(function) + split.1
        }),
{
    let head = indent_text(level) + (if function.is_native { "native "@ } else { Seq::empty() }) + "fun "@
        + function.identifier.name@ + "("@
        + joined(function.parameters@.map_values(|p: FunctionParameter| parameter_text(p)), ", "@) + ")"@;
    let tail = if function.is_native { ";"@ } else { block_text(function.body@, level) };
    let bare = FunctionItem { can_clause: None, cannot_clause: None, ..function };
    assert(bare.parameters@ == function.parameters@);
    assert(clause_text("can"@, None) + clause_text("cannot"@, None) =~= Seq::<char>::empty());
    assert(function_text(bare, level) =~= head + tail);
    reveal_strlit(")");
    reveal_strlit(" ");
    reveal_strlit("can");
    reveal_strlit("cannot");
    reveal_strlit(" can ");
    reveal_strlit(" cannot ");
    assert(head.last() == ')');
    match (function.can_clause, function.cannot_clause) {
        (Some(c), Some(d)) => {
            assert(" "@ + "can"@ + " "@ =~= " can "@);
            assert(" "@ + "cannot"@ + " "@ =~= " cannot "@);
            assert(clause_text("can"@, function.can_clause) =~= " can "@ + c.effect.name@);
            assert(clause_text("cannot"@, function.cannot_clause) =~= " cannot "@ + d.effect.name@);
        },
        (Some(c), None) => {
            assert(" "@ + "can"@ + " "@ =~= " can "@);
            assert(clause_text("can"@, function.can_clause) =~= " can "@ + c.effect.name@);
        },
        (None, Some(d)) => {
            assert(" "@ + "cannot"@ + " "@ =~= " cannot "@);
            assert(clause_text("cannot"@, function.cannot_clause) =~= " cannot "@ + d.effect.name@);
        },
        (None, None) => {},
    }
    assert(clause_text("can"@, function.can_clause) + clause_text("cannot"@, function.cannot_clause)
        =~= clauses_in_grammar_order(function));
    assert(function_text(function, level) =~= head + clauses_in_grammar_order(function) + tail);
    (head, tail)
}

/// Parameters are written in their order: a function with one more parameter at the end
/// reads as the shorter one with that parameter (after `, ` when others precede it)
/// written just before the `)` that closes the list. The returned pair is the shorter
/// function's text split at that `)`.
pub proof fn law_parameters_written_in_order(shorter: FunctionItem, longer: FunctionItem, level: nat) -> (split: (Seq<char>, Seq<char>))
    requires
        longer.parameters@.len() == shorter.parameters@.len() + 1,
        longer.parameters@.drop_last() == shorter.parameters@,
        longer.identifier == shorter.identifier,
        longer.can_clause == shorter.can_clause,
        longer.cannot_clause == shorter.cannot_clause,
        longer.body@ == shorter.body@,
        longer.is_native == shorter.is_native,
    ensures
        ({
            let added = parameter_text(longer.parameters@.last());
            let inserted = if shorter.parameters@.len() == 0 { added } else { ", "@ + added };
            &&& function_text(shorter, level) == split.0 + split.1
            &&& split.1.len() > 0 && split.1[0] == ')'
            &&& function_text(longer, level) == split.0 + inserted + split.1
        }),
{
    let texts = shorter.parameters@.map_values(|p: FunctionParameter| parameter_text(p));
    let more = longer.parameters@.map_values(|p: FunctionParameter| parameter_text(p));
    assert(more.drop_last() =~= texts);
    assert(more.last() == parameter_text(longer.parameters@.last()));
    let prefix = indent_text(level) + (if shorter.is_native { "native "@ } else { Seq::empty() }) + "fun "@
        + shorter.identifier.name@ + "("@ + joined(texts, ", "@);
    let rest = ")"@ + clause_text("can"@, shorter.can_clause) + clause_text("cannot"@, shorter.cannot_clause)
        + if shorter.is_native { ";"@ } else { block_text(shorter.body@, level) };
    reveal_strlit(")");
    assert(rest[0] == ')');
    assert(function_text(shorter, level) =~= prefix + rest);
    let added = parameter_text(longer.parameters@.last());
    if shorter.parameters@.len() == 0 {
        assert(joined(texts, ", "@) =~= Seq::<char>::empty());
        assert(joined(more, ", "@) == more[0]);
        assert(joined(more, ", "@) =~= joined(texts, ", "@) + added);
        assert(function_text(longer, level) =~= prefix + added + rest);
    } else {
        assert(joined(more, ", "@) == joined(more.drop_last(), ", "@) + ", "@ + more.last());
        assert(function_text(longer, level) =~= prefix + (", "@ + added) + rest);
    }
    (prefix, rest)
}

} // verus!

use vstd::prelude::*;
use crate::span::Span;
use crate::source_file::SourceFile;
use crate::ast::{CompilationUnit, FunctionItem, Item, ItemKind, NodeTrivia, Statement, TestItem};
use crate::ast_view::{item_view, stmt_view, unit_items};
use crate::lexer::token::{Token, TokenView, TriviaPiece, TriviaView, token_views, trivia_views};
use crate::lexer::lex::{lex, lex_from};
use crate::compilation_context::CompilationContext;
use crate::diagnostic::SourceDiagnostics;
use crate::error::OcelotResult;
use crate::parser::parse::{is_parser_failure, parse_source};
use crate::resolver::diagnostics::addressable;
use crate::resolver::resolution::{parse_report, parsed_unit};

verus! {

/// Position of the first run of line breaks among `pieces`, or their number: the
/// pieces before it stay on the line of the node before them.
pub open spec fn line_end_position(pieces: Seq<TriviaView>) -> int
    decreases pieces.len(),
{
    if pieces.len() == 0 {
        0
    } else if pieces[0] is Newlines {
        0
    } else {
        1 + line_end_position(pieces.drop_first())
    }
}

/// Position of the first of the first `count` tokens that starts at byte `start`.
pub open spec fn token_starting_at(tokens: Seq<TokenView>, start: usize, count: int) -> Option<int>
    decreases count,
{
    if count <= 0 || count > tokens.len() {
        None
    } else {
        match token_starting_at(tokens, start, count - 1) {
            Some(k) => Some(k),
            None => if tokens[count - 1].span.start == start { Some(count - 1) } else { None },
        }
    }
}

/// Position of the first of the first `count` tokens that starts at or after byte `end`.
pub open spec fn token_after(tokens: Seq<TokenView>, end: usize, count: int) -> Option<int>
    decreases count,
{
    if count <= 0 || count > tokens.len() {
        None
    } else {
        match token_after(tokens, end, count - 1) {
            Some(k) => Some(k),
            None => if tokens[count - 1].span.start >= end { Some(count - 1) } else { None },
        }
    }
}

/// The comments and line breaks before a node that starts at byte `start`: those before
/// its first token, all of them when the node opens its list, else from the first
/// line break on (the ones before it follow the node before).
pub open spec fn leading_of(tokens: Seq<TokenView>, start: usize, opens: bool) -> Seq<TriviaView> {
    match token_starting_at(tokens, start, tokens.len() as int) {
        None => Seq::empty(),
        Some(k) => if opens {
            tokens[k].leading
        } else {
            tokens[k].leading.skip(line_end_position(tokens[k].leading))
        },
    }
}

/// The comments after a node that ends at byte `end`, on its line: those before the next
/// token, up to the first line break.
pub open spec fn trailing_of(tokens: Seq<TokenView>, end: usize) -> Seq<TriviaView> {
    match token_after(tokens, end, tokens.len() as int) {
        None => Seq::empty(),
        Some(k) => tokens[k].leading.take(line_end_position(tokens[k].leading)),
    }
}

/// `trivia` holds what comes before and after a node of `span` that opens its list when
/// `opens`.
pub open spec fn attached(trivia: NodeTrivia, tokens: Seq<TokenView>, span: Span, opens: bool) -> bool {
    &&& trivia_views(trivia.leading@) == leading_of(tokens, span.start, opens)
    &&& trivia_views(trivia.trailing@) == trailing_of(tokens, span.end)
}

/// `after` are the statements `before` with their comments attached.
pub open spec fn statements_attached(before: Seq<Statement>, after: Seq<Statement>, tokens: Seq<TokenView>) -> bool {
    &&& after.len() == before.len()
    &&& forall|i: int| 0 <= i < after.len() ==> {
        &&& stmt_view(#[trigger] after[i]) == stmt_view(before[i])
        &&& after[i].kind == before[i].kind
        &&& after[i].span == before[i].span
        &&& attached(after[i].trivia, tokens, after[i].span, i == 0)
    }
}

/// `after` is item `before` with its comments, and those of the statements of its body,
/// attached.
pub open spec fn item_attached(before: Item, after: Item, tokens: Seq<TokenView>, opens: bool) -> bool {
    &&& item_view(after) == item_view(before)
    &&& after.span == before.span
    &&& attached(after.trivia, tokens, after.span, opens)
    &&& match (before.kind, after.kind) {
        (ItemKind::Function(f), ItemKind::Function(g)) => statements_attached(f.body@, g.body@, tokens),
        (ItemKind::Test(t), ItemKind::Test(u)) => statements_attached(t.body@, u.body@, tokens),
        (ItemKind::Function(_), _) => false,
        (ItemKind::Test(_), _) => false,
        _ => after.kind == before.kind,
    }
}

/// `after` is `before` with the comments of its items and their statements attached;
/// the comments before the end of the input that do not follow the last item stay with
/// the unit.
pub open spec fn unit_attached(before: CompilationUnit, after: CompilationUnit, tokens: Seq<TokenView>) -> bool {
    let items = before.items@;
    let last = tokens.last().leading;
    &&& after.items@.len() == items.len()
    &&& forall|i: int| 0 <= i < items.len() ==> item_attached(items[i], #[trigger] after.items@[i], tokens, i == 0)
    &&& after.span == before.span
    &&& trivia_views(after.trivia.leading@) == Seq::<TriviaView>::empty()
    &&& trivia_views(after.trivia.trailing@) == if items.len() == 0 { last } else { last.skip(line_end_position(last)) }
}

fn copy_piece(piece: &TriviaPiece) -> (copy: TriviaPiece)
    ensures
        copy@ == piece@,
{
    match piece {
        TriviaPiece::Newlines { count, span } => TriviaPiece::Newlines { count: *count, span: *span },
        TriviaPiece::LineComment { text, span } => TriviaPiece::LineComment { text: text.clone(), span: *span },
        TriviaPiece::BlockComment { text, span } => TriviaPiece::BlockComment { text: text.clone(), span: *span },
    }
}

/// Copies of `pieces[from..to]`.
fn copy_pieces(pieces: &Vec<TriviaPiece>, from: usize, to: usize) -> (copy: Vec<TriviaPiece>)
    requires
        from <= to <= pieces@.len(),
    ensures
        trivia_views(copy@) == trivia_views(pieces@).subrange(from as int, to as int),
{
    let mut copy: Vec<TriviaPiece> = Vec::new();
    let mut index = from;
    while index < to
        invariant
            from <= index <= to <= pieces@.len(),
            trivia_views(copy@) == trivia_views(pieces@).subrange(from as int, index as int),
        decreases to - index,
    {
        let ghost before = copy@;
        let piece = copy_piece(&pieces[index]);
        copy.push(piece);
        proof {
            assert(trivia_views(copy@) =~= trivia_views(before).push(pieces@[index as int]@));
            assert(trivia_views(pieces@).subrange(from as int, index + 1)
                =~= trivia_views(pieces@).subrange(from as int, index as int).push(pieces@[index as int]@));
        }
        index = index + 1;
    }
    copy
}

fn line_end(pieces: &Vec<TriviaPiece>) -> (position: usize)
    ensures
        position == line_end_position(trivia_views(pieces@)),
        position <= pieces@.len(),
{
    let ghost views = trivia_views(pieces@);
    let mut position: usize = 0;
    assert(views.skip(0) =~= views);
    while position < pieces.len()
        invariant
            views == trivia_views(pieces@),
            position <= pieces@.len(),
            line_end_position(views) == position + line_end_position(views.skip(position as int)),
        decreases pieces@.len() - position,
    {
        proof {
            assert(views.skip(position as int)[0] == pieces@[position as int]@);
        }
        match &pieces[position] {
            TriviaPiece::Newlines { .. } => return position,
            _ => {},
        }
        proof {
            assert(views.skip(position as int).drop_first() =~= views.skip(position + 1));
        }
        position = position + 1;
    }
    proof {
        assert(views.skip(position as int).len() == 0);
    }
    position
}

fn find_token_starting_at(tokens: &Vec<Token>, start: usize) -> (found: Option<usize>)
    ensures
        found matches Some(k) ==> token_starting_at(token_views(tokens@), start, tokens@.len() as int) == Some(k as int)
            && k < tokens@.len(),
        found is None ==> token_starting_at(token_views(tokens@), start, tokens@.len() as int) is None,
{
    let ghost views = token_views(tokens@);
    let mut index: usize = 0;
    while index < tokens.len()
        invariant
            views == token_views(tokens@),
            index <= tokens@.len(),
            token_starting_at(views, start, index as int) is None,
        decreases tokens@.len() - index,
    {
        if tokens[index].span.start == start {
            proof {
                assert(views[index as int] == tokens@[index as int]@);
                lemma_start_found_stays(views, start, index + 1, tokens@.len() as int);
            }
            return Some(index);
        }
        proof {
            assert(views[index as int] == tokens@[index as int]@);
        }
        index = index + 1;
    }
    None
}

proof fn lemma_start_found_stays(tokens: Seq<TokenView>, start: usize, k: int, n: int)
    requires
        0 <= k <= n <= tokens.len(),
        token_starting_at(tokens, start, k) is Some,
    ensures
        token_starting_at(tokens, start, n) == token_starting_at(tokens, start, k),
    decreases n - k,
{
    if n > k {
        lemma_start_found_stays(tokens, start, k, n - 1);
    }
}

proof fn lemma_after_found_stays(tokens: Seq<TokenView>, end: usize, k: int, n: int)
    requires
        0 <= k <= n <= tokens.len(),
        token_after(tokens, end, k) is Some,
    ensures
        token_after(tokens, end, n) == token_after(tokens, end, k),
    decreases n - k,
{
    if n > k {
        lemma_after_found_stays(tokens, end, k, n - 1);
    }
}

fn find_token_after(tokens: &Vec<Token>, end: usize) -> (found: Option<usize>)
    ensures
        found matches Some(k) ==> token_after(token_views(tokens@), end, tokens@.len() as int) == Some(k as int)
            && k < tokens@.len(),
        found is None ==> token_after(token_views(tokens@), end, tokens@.len() as int) is None,
{
    let ghost views = token_views(tokens@);
    let mut index: usize = 0;
    while index < tokens.len()
        invariant
            views == token_views(tokens@),
            index <= tokens@.len(),
            token_after(views, end, index as int) is None,
        decreases tokens@.len() - index,
    {
        if tokens[index].span.start >= end {
            proof {
                assert(views[index as int] == tokens@[index as int]@);
                lemma_after_found_stays(views, end, index + 1, tokens@.len() as int);
            }
            return Some(index);
        }
        proof {
            assert(views[index as int] == tokens@[index as int]@);
        }
        index = index + 1;
    }
    None
}

/// The comments before and after a node of `span`.
fn node_trivia(tokens: &Vec<Token>, span: Span, opens: bool) -> (trivia: NodeTrivia)
    ensures
        attached(trivia, token_views(tokens@), span, opens),
{
    let ghost views = token_views(tokens@);
    let leading = match find_token_starting_at(tokens, span.start) {
        None => {
            let none: Vec<TriviaPiece> = Vec::new();
            assert(trivia_views(none@) =~= Seq::<TriviaView>::empty());
            none
        },
        Some(k) => {
            let pieces = &tokens[k].leading_trivia.leading;
            proof {
                assert(views[k as int] == tokens@[k as int]@);
            }
            if opens {
                let copy = copy_pieces(pieces, 0, pieces.len());
                proof {
                    assert(trivia_views(pieces@).subrange(0, pieces@.len() as int) =~= trivia_views(pieces@));
                }
                copy
            } else {
                let first = line_end(pieces);
                let copy = copy_pieces(pieces, first, pieces.len());
                proof {
                    assert(trivia_views(pieces@).subrange(first as int, pieces@.len() as int)
                        =~= trivia_views(pieces@).skip(first as int));
                }
                copy
            }
        },
    };
    let trailing = match find_token_after(tokens, span.end) {
        None => {
            let none: Vec<TriviaPiece> = Vec::new();
            assert(trivia_views(none@) =~= Seq::<TriviaView>::empty());
            none
        },
        Some(k) => {
            let pieces = &tokens[k].leading_trivia.leading;
            proof {
                assert(views[k as int] == tokens@[k as int]@);
            }
            let first = line_end(pieces);
            let copy = copy_pieces(pieces, 0, first);
            proof {
                assert(trivia_views(pieces@).subrange(0, first as int) =~= trivia_views(pieces@).take(first as int));
            }
            copy
        },
    };
    NodeTrivia { leading, trailing }
}

/// Attaches their comments to `statements`.
fn attach_statements(statements: Vec<Statement>, tokens: &Vec<Token>) -> (attached_statements: Vec<Statement>)
    ensures
        statements_attached(statements@, attached_statements@, token_views(tokens@)),
{
    let ghost original = statements@;
    let mut rest = statements;
    let mut done: Vec<Statement> = Vec::new();
    while rest.len() > 0
        invariant
            done@.len() + rest@.len() == original.len(),
            rest@ == original.subrange(done@.len() as int, original.len() as int),
            statements_attached(original.subrange(0, done@.len() as int), done@, token_views(tokens@)),
        decreases rest@.len(),
    {
        let k = done.len();
        let statement = rest.remove(0);
        assert(statement == original[k as int]);
        let Statement { kind, span, trivia: _ } = statement;
        let trivia = node_trivia(tokens, span, k == 0);
        let ghost previous = done@;
        done.push(Statement { kind, span, trivia });
        proof {
            let before = original.subrange(0, k + 1);
            assert forall|i: int| 0 <= i < done@.len() implies {
                &&& stmt_view(#[trigger] done@[i]) == stmt_view(before[i])
                &&& done@[i].kind == before[i].kind
                &&& done@[i].span == before[i].span
                &&& attached(done@[i].trivia, token_views(tokens@), done@[i].span, i == 0)
            } by {
                if i < k {
                    assert(done@[i] == previous[i]);
                    assert(before[i] == original.subrange(0, k as int)[i]);
                }
            }
        }
    }
    proof {
        assert(original.subrange(0, original.len() as int) =~= original);
    }
    done
}

fn attach_item(item: Item, tokens: &Vec<Token>, opens: bool) -> (attached_item: Item)
    ensures
        item_attached(item, attached_item, token_views(tokens@), opens),
{
    let ghost before_kind = item.kind;
    let Item { kind, span, trivia: _ } = item;
    let trivia = node_trivia(tokens, span, opens);
    let kind = match kind {
        ItemKind::Function(function) => {
            let FunctionItem { identifier, parameters, can_clause, cannot_clause, body, span: function_span, is_native } = function;
            let body = attach_statements(body, tokens);
            ItemKind::Function(FunctionItem {
                identifier,
                parameters,
                can_clause,
                cannot_clause,
                body,
                span: function_span,
                is_native,
            })
        },
        ItemKind::Test(test) => {
            let TestItem { name, body, span: test_span } = test;
            let body = attach_statements(body, tokens);
            ItemKind::Test(TestItem { name, body, span: test_span })
        },
        other => other,
    };
    let attached_item = Item { kind, span, trivia };
    let ghost after_kind = attached_item.kind;
    proof {
        match (before_kind, after_kind) {
            (ItemKind::Function(f), ItemKind::Function(g)) => {
                assert(crate::ast_view::stmt_views(g.body@) =~= crate::ast_view::stmt_views(f.body@));
            },
            (ItemKind::Test(t), ItemKind::Test(u)) => {
                assert(crate::ast_view::stmt_views(u.body@) =~= crate::ast_view::stmt_views(t.body@));
            },
            _ => {},
        }
    }
    attached_item
}

/// Attaches their comments to the items of `unit` and to the statements of their bodies.
pub fn attach_trivia(unit: CompilationUnit, tokens: &Vec<Token>) -> (attached_unit: CompilationUnit)
    requires
        tokens@.len() > 0,
    ensures
        unit_attached(unit, attached_unit, token_views(tokens@)),
{
    let ghost original = unit.items@;
    let CompilationUnit { items, span, trivia: _ } = unit;
    let mut rest = items;
    let mut done: Vec<Item> = Vec::new();
    while rest.len() > 0
        invariant
            done@.len() + rest@.len() == original.len(),
            rest@ == original.subrange(done@.len() as int, original.len() as int),
            forall|i: int| 0 <= i < done@.len() ==> item_attached(original[i], #[trigger] done@[i], token_views(tokens@), i == 0),
        decreases rest@.len(),
    {
        let k = done.len();
        let item = rest.remove(0);
        assert(item == original[k as int]);
        let attached_item = attach_item(item, tokens, k == 0);
        done.push(attached_item);
    }
    let last = &tokens[tokens.len() - 1].leading_trivia.leading;
    proof {
        assert(token_views(tokens@).last() == tokens@[tokens@.len() - 1]@);
    }
    let trailing = if done.len() == 0 {
        let copy = copy_pieces(last, 0, last.len());
        proof {
            assert(trivia_views(last@).subrange(0, last@.len() as int) =~= trivia_views(last@));
        }
        copy
    } else {
        let first = line_end(last);
        let copy = copy_pieces(last, first, last.len());
        proof {
            assert(trivia_views(last@).subrange(first as int, last@.len() as int) =~= trivia_views(last@).skip(first as int));
        }
        copy
    };
    let leading: Vec<TriviaPiece> = Vec::new();
    assert(trivia_views(leading@) =~= Seq::<TriviaView>::empty());
    CompilationUnit { items: done, span, trivia: NodeTrivia { leading, trailing } }
}

/// Parses a source file into its items, as `parse_source` does, with the comments of the
/// source attached to the items and statements they belong to; what was reported goes
/// to `source_diagnostics`.
pub fn parse_compilation_unit(source_file: &SourceFile, source_diagnostics: &mut SourceDiagnostics)
    -> (result: OcelotResult<CompilationUnit>)
    requires
        addressable(*source_file),
    ensures
        final(source_diagnostics)@ == old(source_diagnostics)@ + parse_report(*source_file).1,
        result is Ok <==> parse_report(*source_file).0,
        result matches Err(e) ==> is_parser_failure(e),
        result matches Ok(unit) ==> exists|parsed: CompilationUnit| {
            &&& #[trigger] parsed_unit(*source_file, parsed)
            &&& unit_attached(parsed, unit, lex_from(source_file.bytes(), 0).0)
        },
{
    let mut context = CompilationContext::default();
    let parsed = crate::resolver::resolution::parse_module_text(source_file, &mut context);
    assert(context@ == Seq::empty() + parse_report(*source_file).1);
    source_diagnostics.add_diagnostics(context.source_diagnostics.diagnostics);
    match parsed {
        Ok(unit) => {
            let mut lexing = SourceDiagnostics::new();
            let tokens = lex(source_file, &mut lexing);
            if tokens.len() == 0 {
                proof {
                    reveal(parsed_unit);
                    assert(false);
                }
                return Ok(unit);
            }
            let attached_unit = attach_trivia(unit, &tokens);
            Ok(attached_unit)
        },
        Err(error) => Err(error),
    }
}

} // verus!

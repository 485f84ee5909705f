use vstd::prelude::*;
use crate::span::Span;
use crate::source_file::SourceFile;
use crate::text::concat3;
use crate::error::{FailureView, OcelotError, OcelotResult, error_view};
use crate::runtime_value::{RuntimeValue, RuntimeValueView};
use crate::native_function::{NativeFunctionContext, native_arity, native_run};
use crate::symbol_table::{FunctionKind, SymbolTable};
use crate::ast::{
    CallExpression, CompilationUnit, Expression, ExpressionKind, FunctionItem, FunctionParameter, Item, ItemKind, Statement,
    StatementKind, joined_names,
};
use crate::resolver::diagnostics::{addressable, source_diagnostic_for_span, span_diagnostic};
use crate::resolver::effect_propagation::user_sources_addressable;
use crate::diagnostic::DiagnosticView;

verus! {

/// What running a piece of a program gives: its value or failure, and the text it printed.
pub type Run = (Result<RuntimeValueView, FailureView>, Seq<char>);

/// What running argument expressions gives: their values or the first failure, and the text printed.
pub type ArgumentsRun = (Result<Seq<RuntimeValueView>, FailureView>, Seq<char>);

/// The diagnostic for a name that no binding defines.
pub open spec fn unresolved_identifier(file: SourceFile, span: Span, name: Seq<char>) -> DiagnosticView {
    span_diagnostic(file.path@, file.bytes(), "unresolved identifier `"@ + name + "`"@, span, "not found"@)
}

/// Parameters bound to the first `values.len()` arguments, in order (a later parameter
/// of the same name wins).
pub open spec fn bind_parameters(parameters: Seq<FunctionParameter>, values: Seq<RuntimeValueView>) -> Map<Seq<char>, RuntimeValueView>
    decreases values.len(),
{
    if values.len() == 0 {
        Map::empty()
    } else {
        bind_parameters(parameters, values.drop_last()).insert(
            parameters[values.len() - 1].identifier.name@,
            values.last(),
        )
    }
}

/// The expression of a statement.
pub open spec fn statement_expression(statement: Statement) -> Expression {
    match statement.kind {
        StatementKind::Expression(e) => e.expression,
    }
}

/// Evaluates `expression` in `file` with local `bindings`, allowing `fuel` nested calls
/// of user-defined functions. `None` when the fuel runs out or a native function gets
/// fewer arguments than it takes: inputs on which evaluation does not complete.
pub open spec fn eval_expression(
    table: SymbolTable,
    file: SourceFile,
    bindings: Map<Seq<char>, RuntimeValueView>,
    expression: Expression,
    fuel: nat,
) -> Option<Run>
    decreases fuel, expression, 1nat,
{
    match expression.kind {
        ExpressionKind::BooleanLiteral(literal) => Some((Ok(RuntimeValueView::Boolean(literal.value)), Seq::empty())),
        ExpressionKind::StringLiteral(literal) => Some((Ok(RuntimeValueView::String(literal.value@)), Seq::empty())),
        ExpressionKind::Identifier(identifier) => Some((
            if bindings.contains_key(identifier.name@) {
                Ok(bindings[identifier.name@])
            } else {
                Err(FailureView::Runtime(unresolved_identifier(file, expression.span, identifier.name@)))
            },
            Seq::empty(),
        )),
        ExpressionKind::QualifiedIdentifier(path) => Some((
            Err(FailureView::Runtime(unresolved_identifier(file, expression.span, joined_names(path.segments@)))),
            Seq::empty(),
        )),
        ExpressionKind::Not(not) => match eval_expression(table, file, bindings, *not.operand, fuel) {
            None => None,
            Some((Ok(RuntimeValueView::Boolean(value)), printed)) => Some((Ok(RuntimeValueView::Boolean(!value)), printed)),
            Some((Ok(_), printed)) => Some((Err(FailureView::Message("type error: `not` expects a bool operand"@)), printed)),
            Some((Err(failure), printed)) => Some((Err(failure), printed)),
        },
        ExpressionKind::Call(call) => match call.function_index {
            None => Some((Err(FailureView::Message("internal error: call expression was not resolved"@)), Seq::empty())),
            Some(index) => match table.definition_at(index) {
                None => Some((
                    Err(FailureView::Message("internal error: function index points outside the function table"@)),
                    Seq::empty(),
                )),
                Some(definition) => match definition.kind {
                    FunctionKind::NativeFunction { native_function } => {
                        let arguments = call.arguments@;
                        match eval_arguments(table, file, bindings, arguments, arguments.len() as int, fuel) {
                            None => None,
                            Some((Err(failure), printed)) => Some((Err(failure), printed)),
                            Some((Ok(values), printed)) => if values.len() < native_arity(native_function) {
                                None
                            } else {
                                let run = native_run(native_function, values, file.path@, file.source@, expression.span);
                                Some((run.0, printed + run.1))
                            },
                        }
                    },
                    FunctionKind::UserDefined { function, source_file } => {
                        let arguments = call.arguments@;
                        let count = if function.parameters@.len() < arguments.len() {
                            function.parameters@.len() as int
                        } else {
                            arguments.len() as int
                        };
                        match eval_arguments(table, file, bindings, arguments, count, fuel) {
                            None => None,
                            Some((Err(failure), printed)) => Some((Err(failure), printed)),
                            Some((Ok(values), printed)) => if fuel == 0 {
                                None
                            } else {
                                let body = statement_expressions(function.body@);
                                match run_statements(
                                    table,
                                    *source_file,
                                    bind_parameters(function.parameters@, values),
                                    body,
                                    body.len() as int,
                                    (fuel - 1) as nat,
                                ) {
                                    None => None,
                                    Some((Err(failure), more)) => Some((Err(failure), printed + more)),
                                    Some((Ok(_), more)) => Some((Ok(RuntimeValueView::Unit), printed + more)),
                                }
                            },
                        }
                    },
                },
            },
        },
    }
}

/// Evaluates the first `count` of `arguments` in order, stopping at the first failure.
pub open spec fn eval_arguments(
    table: SymbolTable,
    file: SourceFile,
    bindings: Map<Seq<char>, RuntimeValueView>,
    arguments: Seq<Expression>,
    count: int,
    fuel: nat,
) -> Option<ArgumentsRun>
    decreases fuel, arguments, count,
{
    if count <= 0 || count > arguments.len() {
        Some((Ok(Seq::empty()), Seq::empty()))
    } else {
        match eval_arguments(table, file, bindings, arguments, count - 1, fuel) {
            None => None,
            Some((Err(failure), printed)) => Some((Err(failure), printed)),
            Some((Ok(values), printed)) => match eval_expression(table, file, bindings, arguments[count - 1], fuel) {
                None => None,
                Some((Ok(value), more)) => Some((Ok(values.push(value)), printed + more)),
                Some((Err(failure), more)) => Some((Err(failure), printed + more)),
            },
        }
    }
}

/// Arguments that evaluate successfully give one value per argument, in position order:
/// value `k` is what argument `k` evaluates to.
pub proof fn law_arguments_evaluated_in_position(
    table: SymbolTable,
    file: SourceFile,
    bindings: Map<Seq<char>, RuntimeValueView>,
    arguments: Seq<Expression>,
    count: int,
    fuel: nat,
)
    requires
        0 <= count <= arguments.len(),
    ensures
        eval_arguments(table, file, bindings, arguments, count, fuel) matches Some((Ok(values), _)) ==> {
            &&& values.len() == count
            &&& forall|k: int| 0 <= k < count ==> ((#[trigger] eval_expression(table, file, bindings, arguments[k], fuel))
                matches Some((Ok(v), _)) && v == values[k])
        },
    decreases count,
{
    if count > 0 {
        law_arguments_evaluated_in_position(table, file, bindings, arguments, count - 1, fuel);
    }
}

/// Parameters are bound by position: among the first `values.len()` parameters, the
/// names bound are exactly theirs, and parameter `k` (unless a later one of these takes
/// the same name) is bound to value `k`.
pub proof fn law_parameters_bound_by_position(parameters: Seq<FunctionParameter>, values: Seq<RuntimeValueView>, k: int)
    requires
        values.len() <= parameters.len(),
        0 <= k < values.len(),
        forall|j: int| k < j < values.len() ==> (#[trigger] parameters[j]).identifier.name@ != parameters[k].identifier.name@,
    ensures
        bind_parameters(parameters, values).contains_key(parameters[k].identifier.name@),
        bind_parameters(parameters, values)[parameters[k].identifier.name@] == values[k],
        forall|name: Seq<char>| #[trigger] bind_parameters(parameters, values).contains_key(name)
            <==> exists|j: int| #![trigger parameters[j]] 0 <= j < values.len() && parameters[j].identifier.name@ == name,
    decreases values.len(),
{
    lemma_bound_names(parameters, values);
    if k < values.len() - 1 {
        let last = values.len() - 1;
        assert(parameters[last].identifier.name@ != parameters[k].identifier.name@);
        law_parameters_bound_by_position(parameters, values.drop_last(), k);
        assert(values.drop_last()[k] == values[k]);
    }
}

proof fn lemma_bound_names(parameters: Seq<FunctionParameter>, values: Seq<RuntimeValueView>)
    requires
        values.len() <= parameters.len(),
    ensures
        forall|name: Seq<char>| #[trigger] bind_parameters(parameters, values).contains_key(name)
            <==> exists|j: int| #![trigger parameters[j]] 0 <= j < values.len() && parameters[j].identifier.name@ == name,
    decreases values.len(),
{
    if values.len() > 0 {
        let shorter = values.drop_last();
        let last = values.len() - 1;
        lemma_bound_names(parameters, shorter);
        assert forall|name: Seq<char>| #[trigger] bind_parameters(parameters, values).contains_key(name)
            <==> exists|j: int| #![trigger parameters[j]] 0 <= j < values.len() && parameters[j].identifier.name@ == name by {
            if bind_parameters(parameters, values).contains_key(name) {
                if name == parameters[last].identifier.name@ {
                    assert(0 <= last < values.len() && parameters[last].identifier.name@ == name);
                } else {
                    assert(bind_parameters(parameters, shorter).contains_key(name));
                    let j = choose|j: int| #![trigger parameters[j]] 0 <= j < shorter.len() && parameters[j].identifier.name@ == name;
                    assert(0 <= j < values.len() && parameters[j].identifier.name@ == name);
                }
            }
            if exists|j: int| #![trigger parameters[j]] 0 <= j < values.len() && parameters[j].identifier.name@ == name {
                let j = choose|j: int| #![trigger parameters[j]] 0 <= j < values.len() && parameters[j].identifier.name@ == name;
                if j < last {
                    assert(0 <= j < shorter.len() && parameters[j].identifier.name@ == name);
                    assert(bind_parameters(parameters, shorter).contains_key(name));
                }
            }
        }
    }
}

/// A call of a user-defined function runs its body with each parameter bound to the
/// argument in its own position: for every position `k` within both lists (where no
/// later parameter shares the name), the body's binding of parameter `k` is the value
/// that argument `k` evaluates to in the caller.
pub proof fn law_call_binds_arguments_by_position(
    table: SymbolTable,
    file: SourceFile,
    bindings: Map<Seq<char>, RuntimeValueView>,
    parameters: Seq<FunctionParameter>,
    arguments: Seq<Expression>,
    fuel: nat,
    k: int,
)
    requires
        ({
            let count = if parameters.len() < arguments.len() { parameters.len() as int } else { arguments.len() as int };
            &&& 0 <= k < count
            &&& eval_arguments(table, file, bindings, arguments, count, fuel) is Some
            &&& eval_arguments(table, file, bindings, arguments, count, fuel)->Some_0.0 is Ok
            &&& forall|j: int| k < j < count ==> (#[trigger] parameters[j]).identifier.name@ != parameters[k].identifier.name@
        }),
    ensures
        ({
            let count = if parameters.len() < arguments.len() { parameters.len() as int } else { arguments.len() as int };
            let values = eval_arguments(table, file, bindings, arguments, count, fuel)->Some_0.0->Ok_0;
            let body_bindings = bind_parameters(parameters, values);
            let name = parameters[k].identifier.name@;
            &&& body_bindings.contains_key(name)
            &&& (eval_expression(table, file, bindings, arguments[k], fuel) matches Some((Ok(v), _)) && v == body_bindings[name])
        }),
{
    let count = if parameters.len() < arguments.len() { parameters.len() as int } else { arguments.len() as int };
    law_arguments_evaluated_in_position(table, file, bindings, arguments, count, fuel);
    let values = eval_arguments(table, file, bindings, arguments, count, fuel)->Some_0.0->Ok_0;
    assert(values.len() == count);
    law_parameters_bound_by_position(parameters, values, k);
    assert(eval_expression(table, file, bindings, arguments[k], fuel) matches Some((Ok(v), _)) && v == values[k]);
}

/// The bindings a body runs with hold, for each of the first `count` parameters, the
/// value its own argument evaluates to (a later parameter of the same name wins), and
/// nothing else.
pub open spec fn bound_by_position(
    table: SymbolTable,
    file: SourceFile,
    bindings: Map<Seq<char>, RuntimeValueView>,
    parameters: Seq<FunctionParameter>,
    arguments: Seq<Expression>,
    count: int,
    fuel: nat,
    env: Map<Seq<char>, RuntimeValueView>,
) -> bool {
    &&& forall|name: Seq<char>| #[trigger] env.contains_key(name)
        <==> exists|j: int| #![trigger parameters[j]] 0 <= j < count && parameters[j].identifier.name@ == name
    &&& forall|k: int| 0 <= k < count
        && (forall|j: int| k < j < count ==> (#[trigger] parameters[j]).identifier.name@ != parameters[k].identifier.name@)
        ==> ((#[trigger] eval_expression(table, file, bindings, arguments[k], fuel)) matches Some((Ok(v), _))
            && v == env[parameters[k].identifier.name@])
}

/// A call of a user-defined function whose arguments evaluate runs the function's body
/// with its parameters bound by position: the call's outcome is the body's run under
/// bindings that give each parameter the value of the argument in its own position.
pub proof fn law_call_runs_body_with_arguments_by_position(
    table: SymbolTable,
    file: SourceFile,
    bindings: Map<Seq<char>, RuntimeValueView>,
    call: CallExpression,
    span: Span,
    ty: crate::types::TypeIndex,
    function: FunctionItem,
    source_file: SourceFile,
    fuel: nat,
)
    requires
        fuel > 0,
        call.function_index is Some,
        table.definition_at(call.function_index->Some_0) is Some,
        table.definition_at(call.function_index->Some_0)->Some_0.kind
            == (FunctionKind::UserDefined { function: Box::new(function), source_file: Box::new(source_file) }),
    ensures
        ({
            let arguments = call.arguments@;
            let count = if function.parameters@.len() < arguments.len() { function.parameters@.len() as int } else { arguments.len() as int };
            let body = statement_expressions(function.body@);
            eval_arguments(table, file, bindings, arguments, count, fuel) matches Some((Ok(values), printed)) ==> exists|env: Map<Seq<char>, RuntimeValueView>| {
                &&& bound_by_position(table, file, bindings, function.parameters@, arguments, count, fuel, env)
                &&& eval_expression(table, file, bindings, Expression { kind: ExpressionKind::Call(call), span, ty }, fuel)
                    == match #[trigger] run_statements(table, source_file, env, body, body.len() as int, (fuel - 1) as nat) {
                        None => None,
                        Some((Err(failure), more)) => Some((Err(failure), printed + more)),
                        Some((Ok(_), more)) => Some((Ok(RuntimeValueView::Unit), printed + more)),
                    }
            }
        }),
{
    let arguments = call.arguments@;
    let parameters = function.parameters@;
    let count = if parameters.len() < arguments.len() { parameters.len() as int } else { arguments.len() as int };
    if let Some((Ok(values), printed)) = eval_arguments(table, file, bindings, arguments, count, fuel) {
        law_arguments_evaluated_in_position(table, file, bindings, arguments, count, fuel);
        let env = bind_parameters(parameters, values);
        lemma_bound_names(parameters, values);
        assert forall|k: int| 0 <= k < count
            && (forall|j: int| k < j < count ==> (#[trigger] parameters[j]).identifier.name@ != parameters[k].identifier.name@)
            implies ((#[trigger] eval_expression(table, file, bindings, arguments[k], fuel)) matches Some((Ok(v), _))
                && v == env[parameters[k].identifier.name@]) by {
            law_parameters_bound_by_position(parameters, values, k);
        }
        let body = statement_expressions(function.body@);
        assert(bound_by_position(table, file, bindings, parameters, arguments, count, fuel, env));
        let _ = run_statements(table, source_file, env, body, body.len() as int, (fuel - 1) as nat);
    }
}

/// The expressions of statements, in order.
pub open spec fn statement_expressions(statements: Seq<Statement>) -> Seq<Expression> {
    statements.map_values(|s: Statement| statement_expression(s))
}

/// Runs the first `count` expression statements in order, stopping at the first failure.
pub open spec fn run_statements(
    table: SymbolTable,
    file: SourceFile,
    bindings: Map<Seq<char>, RuntimeValueView>,
    expressions: Seq<Expression>,
    count: int,
    fuel: nat,
) -> Option<Run>
    decreases fuel, expressions, count,
{
    if count <= 0 || count > expressions.len() {
        Some((Ok(RuntimeValueView::Unit), Seq::empty()))
    } else {
        match run_statements(table, file, bindings, expressions, count - 1, fuel) {
            None => None,
            Some((Err(failure), printed)) => Some((Err(failure), printed)),
            Some((Ok(_), printed)) => match eval_expression(table, file, bindings, expressions[count - 1], fuel) {
                None => None,
                Some((Ok(_), more)) => Some((Ok(RuntimeValueView::Unit), printed + more)),
                Some((Err(failure), more)) => Some((Err(failure), printed + more)),
            },
        }
    }
}

/// Runs the top-level statements among the first `count` items, in order, with
/// `bindings`; other items do nothing.
pub open spec fn run_items(
    table: SymbolTable,
    file: SourceFile,
    bindings: Map<Seq<char>, RuntimeValueView>,
    items: Seq<Item>,
    count: int,
    fuel: nat,
) -> Option<Run>
    decreases count,
{
    if count <= 0 || count > items.len() {
        Some((Ok(RuntimeValueView::Unit), Seq::empty()))
    } else {
        match run_items(table, file, bindings, items, count - 1, fuel) {
            None => None,
            Some((Err(failure), printed)) => Some((Err(failure), printed)),
            Some((Ok(_), printed)) => match items[count - 1].kind {
                ItemKind::Statement(statement) => match statement.kind {
                    StatementKind::Expression(e) => match eval_expression(table, file, bindings, e.expression, fuel) {
                        None => None,
                        Some((Ok(_), more)) => Some((Ok(RuntimeValueView::Unit), printed + more)),
                        Some((Err(failure), more)) => Some((Err(failure), printed + more)),
                    },
                },
                _ => Some((Ok(RuntimeValueView::Unit), printed)),
            },
        }
    }
}

proof fn lemma_arguments_prefix(
    table: SymbolTable,
    file: SourceFile,
    bindings: Map<Seq<char>, RuntimeValueView>,
    arguments: Seq<Expression>,
    count: int,
    fuel: nat,
    j: int,
)
    requires
        0 <= j <= count <= arguments.len(),
        eval_arguments(table, file, bindings, arguments, count, fuel) is Some,
    ensures
        eval_arguments(table, file, bindings, arguments, j, fuel) is Some,
        eval_arguments(table, file, bindings, arguments, j, fuel) matches Some((Err(_), _))
            ==> eval_arguments(table, file, bindings, arguments, count, fuel) == eval_arguments(table, file, bindings, arguments, j, fuel),
    decreases count - j,
{
    if j < count {
        lemma_arguments_prefix(table, file, bindings, arguments, count, fuel, j + 1);
    }
}

proof fn lemma_statements_prefix(
    table: SymbolTable,
    file: SourceFile,
    bindings: Map<Seq<char>, RuntimeValueView>,
    expressions: Seq<Expression>,
    count: int,
    fuel: nat,
    j: int,
)
    requires
        0 <= j <= count <= expressions.len(),
        run_statements(table, file, bindings, expressions, count, fuel) is Some,
    ensures
        run_statements(table, file, bindings, expressions, j, fuel) is Some,
        run_statements(table, file, bindings, expressions, j, fuel) matches Some((Err(_), _))
            ==> run_statements(table, file, bindings, expressions, count, fuel) == run_statements(table, file, bindings, expressions, j, fuel),
    decreases count - j,
{
    if j < count {
        lemma_statements_prefix(table, file, bindings, expressions, count, fuel, j + 1);
    }
}

/// The map that binds names in order: a later binding of a name wins.
pub open spec fn bindings_map(entries: Seq<(String, RuntimeValue)>) -> Map<Seq<char>, RuntimeValueView>
    decreases entries.len(),
{
    if entries.len() == 0 {
        Map::empty()
    } else {
        bindings_map(entries.drop_last()).insert(entries.last().0@, entries.last().1@)
    }
}

/// Local variable bindings of one function call.
pub struct Bindings {
    entries: Vec<(String, RuntimeValue)>,
}

impl View for Bindings {
    type V = Map<Seq<char>, RuntimeValueView>;

    closed spec fn view(&self) -> Map<Seq<char>, RuntimeValueView> {
        bindings_map(self.entries@)
    }
}

impl Bindings {
    /// No bindings.
    pub fn new() -> (bindings: Bindings)
        ensures
            bindings@ == Map::<Seq<char>, RuntimeValueView>::empty(),
    {
        Bindings { entries: Vec::new() }
    }

    /// Binds `name` to `value`, replacing an earlier binding of the name.
    pub fn insert(&mut self, name: String, value: RuntimeValue)
        ensures
            final(self)@ == old(self)@.insert(name@, value@),
    {
        let ghost before = self.entries@;
        self.entries.push((name, value));
        assert(self.entries@.drop_last() =~= before);
    }

    /// The value bound to `name`, if any.
    pub fn lookup(&self, name: &str) -> (value: Option<RuntimeValue>)
        ensures
            match value {
                Some(v) => self@.contains_key(name@) && v@ == self@[name@],
                None => !self@.contains_key(name@),
            },
    {
        let mut index = self.entries.len();
        assert(self.entries@.subrange(0, index as int) =~= self.entries@);
        while index > 0
            invariant
                index <= self.entries@.len(),
                bindings_map(self.entries@.subrange(0, index as int)).contains_key(name@) == self@.contains_key(name@),
                bindings_map(self.entries@.subrange(0, index as int)).contains_key(name@)
                    ==> bindings_map(self.entries@.subrange(0, index as int))[name@] == self@[name@],
            decreases index,
        {
            let ghost prefix = self.entries@.subrange(0, index as int);
            assert(prefix.drop_last() =~= self.entries@.subrange(0, index - 1));
            assert(prefix.last() == self.entries@[index - 1]);
            if crate::text::same_text(self.entries[index - 1].0.as_str(), name) {
                return Some(self.entries[index - 1].1.duplicate());
            }
            index = index - 1;
        }
        assert(bindings_map(self.entries@.subrange(0, 0)) =~= Map::<Seq<char>, RuntimeValueView>::empty());
        None
    }
}

/// `result` reports `run`, and `after` is `before` followed by what `run` printed.
pub open spec fn reports_run<T>(result: OcelotResult<T>, value: spec_fn(T) -> RuntimeValueView, run: Run, before: Seq<char>, after: Seq<char>) -> bool {
    &&& result is Ok <==> run.0 is Ok
    &&& result matches Ok(v) ==> value(v) == run.0->Ok_0
    &&& result matches Err(e) ==> error_view(e) == run.0->Err_0
    &&& after == before + run.1
}

fn unresolved_identifier_error(file: &SourceFile, span: Span, name: &str) -> (error: OcelotError)
    requires
        addressable(*file),
    ensures
        error_view(error) == FailureView::Runtime(unresolved_identifier(*file, span, name@)),
{
    let message = concat3("unresolved identifier `", name, "`");
    let diagnostic = source_diagnostic_for_span(file, message, span, String::from_str("not found"));
    OcelotError::runtime_error(diagnostic)
}

/// Evaluates one expression.
fn evaluate_expression(
    table: &SymbolTable,
    file: &SourceFile,
    bindings: &Bindings,
    expression: &Expression,
    output: &mut String,
    Ghost(fuel): Ghost<nat>,
) -> (result: OcelotResult<RuntimeValue>)
    requires
        eval_expression(*table, *file, bindings@, *expression, fuel) is Some,
        addressable(*file),
        user_sources_addressable(*table),
    ensures
        reports_run(result, |v: RuntimeValue| v@, eval_expression(*table, *file, bindings@, *expression, fuel)->Some_0,
            old(output)@, final(output)@),
    decreases fuel, *expression, 2nat,
{
    match &expression.kind {
        ExpressionKind::BooleanLiteral(literal) => {
            assert(old(output)@ + Seq::<char>::empty() =~= old(output)@);
            Ok(RuntimeValue::boolean(literal.value))
        },
        ExpressionKind::StringLiteral(literal) => {
            assert(old(output)@ + Seq::<char>::empty() =~= old(output)@);
            Ok(RuntimeValue::from_string(literal.value.clone()))
        },
        ExpressionKind::Identifier(identifier) => {
            assert(old(output)@ + Seq::<char>::empty() =~= old(output)@);
            match bindings.lookup(identifier.name.as_str()) {
                Some(value) => Ok(value),
                None => Err(unresolved_identifier_error(file, expression.span, identifier.name.as_str())),
            }
        },
        ExpressionKind::QualifiedIdentifier(path) => {
            assert(old(output)@ + Seq::<char>::empty() =~= old(output)@);
            let name = path.render();
            Err(unresolved_identifier_error(file, expression.span, name.as_str()))
        },
        ExpressionKind::Not(not) => {
            let operand = evaluate_expression(table, file, bindings, &not.operand, output, Ghost(fuel))?;
            let value = operand.expect_boolean("type error: `not` expects a bool operand")?;
            Ok(RuntimeValue::boolean(!value))
        },
        ExpressionKind::Call(call) => evaluate_call(table, file, bindings, expression, output, Ghost(fuel)),
    }
}


fn evaluate_arguments(
    table: &SymbolTable,
    file: &SourceFile,
    bindings: &Bindings,
    expression: &Expression,
    count: usize,
    output: &mut String,
    Ghost(fuel): Ghost<nat>,
) -> (result: OcelotResult<Vec<RuntimeValue>>)
    requires
        expression.kind is Call,
        count <= expression.kind->Call_0.arguments@.len(),
        eval_arguments(*table, *file, bindings@, expression.kind->Call_0.arguments@, count as int, fuel) is Some,
        addressable(*file),
        user_sources_addressable(*table),
    ensures
        ({
            let run = eval_arguments(*table, *file, bindings@, expression.kind->Call_0.arguments@, count as int, fuel)->Some_0;
            &&& result is Ok <==> run.0 is Ok
            &&& result matches Ok(values) ==> values@.map_values(|v: RuntimeValue| v@) == run.0->Ok_0 && values@.len() == count
            &&& result matches Err(e) ==> error_view(e) == run.0->Err_0
            &&& final(output)@ == old(output)@ + run.1
        }),
    decreases fuel, *expression, 0nat,
{
    let call = match &expression.kind {
        ExpressionKind::Call(call) => call,
        _ => {
            return Ok(Vec::new());
        },
    };
    let ghost arguments = call.arguments@;
    let mut values: Vec<RuntimeValue> = Vec::new();
    let ghost mut printed: Seq<char> = Seq::empty();
    let mut index: usize = 0;
    assert(values@.map_values(|v: RuntimeValue| v@) =~= Seq::<RuntimeValueView>::empty());
    assert(old(output)@ + Seq::<char>::empty() =~= old(output)@);
    while index < count
        invariant
            index <= count,
            count <= arguments.len(),
            arguments == call.arguments@,
            expression.kind == ExpressionKind::Call(*call),
            eval_arguments(*table, *file, bindings@, arguments, count as int, fuel) is Some,
            eval_arguments(*table, *file, bindings@, arguments, index as int, fuel)
                == Some::<ArgumentsRun>((Ok(values@.map_values(|v: RuntimeValue| v@)), printed)),
            values@.len() == index,
            output@ == old(output)@ + printed,
            addressable(*file),
            user_sources_addressable(*table),
        decreases count - index,
    {
        proof {
            lemma_arguments_prefix(*table, *file, bindings@, arguments, count as int, fuel, index + 1);
            let kind = expression.kind;
            assert(decreases_to!(*expression => kind));
            assert(decreases_to!(kind => kind->Call_0));
            assert(decreases_to!(*call => call.arguments));
            assert(decreases_to!(call.arguments => call.arguments@));
            assert(decreases_to!(call.arguments@ => call.arguments@[index as int]));
        }
        let ghost before = output@;
        let value = match evaluate_expression(table, file, bindings, &call.arguments[index], output, Ghost(fuel)) {
            Ok(value) => value,
            Err(e) => {
                proof {
                    lemma_arguments_prefix(*table, *file, bindings@, arguments, count as int, fuel, index + 1);
                    let more = eval_expression(*table, *file, bindings@, arguments[index as int], fuel)->Some_0.1;
                    assert(output@ =~= old(output)@ + (printed + more));
                }
                return Err(e);
            },
        };
        let ghost more = eval_expression(*table, *file, bindings@, arguments[index as int], fuel)->Some_0.1;
        let ghost old_views = values@.map_values(|v: RuntimeValue| v@);
        values.push(value);
        proof {
            printed = printed + more;
            assert(output@ =~= old(output)@ + printed);
            assert(values@.map_values(|v: RuntimeValue| v@) =~= old_views.push(value@));
        }
        index = index + 1;
    }
    Ok(values)
}

fn evaluate_call(
    table: &SymbolTable,
    file: &SourceFile,
    bindings: &Bindings,
    expression: &Expression,
    output: &mut String,
    Ghost(fuel): Ghost<nat>,
) -> (result: OcelotResult<RuntimeValue>)
    requires
        expression.kind is Call,
        eval_expression(*table, *file, bindings@, *expression, fuel) is Some,
        addressable(*file),
        user_sources_addressable(*table),
    ensures
        reports_run(result, |v: RuntimeValue| v@, eval_expression(*table, *file, bindings@, *expression, fuel)->Some_0,
            old(output)@, final(output)@),
    decreases fuel, *expression, 1nat,
{
    let call = match &expression.kind {
        ExpressionKind::Call(call) => call,
        _ => {
            return Ok(RuntimeValue::unit());
        },
    };
    assert(old(output)@ + Seq::<char>::empty() =~= old(output)@);
    let function_index = call.function_index()?;
    let definition = table.function_definition(function_index)?;
    match &definition.kind {
        FunctionKind::NativeFunction { native_function } => {
            let values = evaluate_arguments(table, file, bindings, expression, call.arguments.len(), output, Ghost(fuel))?;
            let context = NativeFunctionContext::new(file, expression.span);
            let ghost printed = output@;
            let result = native_function.apply(values.as_slice(), &context, output);
            proof {
                let arguments_run = eval_arguments(*table, *file, bindings@, call.arguments@, call.arguments@.len() as int, fuel)->Some_0;
                assert(output@ =~= old(output)@ + (arguments_run.1 + native_run(*native_function, values@.map_values(|v: RuntimeValue| v@),
                    file.path@, file.source@, expression.span).1));
            }
            result
        },
        FunctionKind::UserDefined { function, source_file } => {
            let count = if function.parameters.len() < call.arguments.len() {
                function.parameters.len()
            } else {
                call.arguments.len()
            };
            let values = evaluate_arguments(table, file, bindings, expression, count, output, Ghost(fuel))?;
            let ghost views = values@.map_values(|v: RuntimeValue| v@);
            let mut local_bindings = Bindings::new();
            let mut index: usize = 0;
            while index < values.len()
                invariant
                    index <= values@.len(),
                    values@.len() <= function.parameters@.len(),
                    views == values@.map_values(|v: RuntimeValue| v@),
                    local_bindings@ == bind_parameters(function.parameters@, views.subrange(0, index as int)),
                decreases values@.len() - index,
            {
                local_bindings.insert(function.parameters[index].identifier.name.clone(), values[index].duplicate());
                index = index + 1;
                proof {
                    let prefix = views.subrange(0, index as int);
                    assert(prefix.drop_last() =~= views.subrange(0, index - 1));
                }
            }
            assert(views.subrange(0, index as int) =~= views);
            let ghost printed = output@;
            proof {
                assert(table.functions@[function_index.0 as int] == Some(*definition));
            }
            let ran = interpret_statements(table, &**source_file, &local_bindings, &function.body, output, Ghost((fuel - 1) as nat));
            proof {
                let arguments_run = eval_arguments(*table, *file, bindings@, call.arguments@, count as int, fuel)->Some_0;
                let body_run = run_statements(*table, **source_file, local_bindings@, statement_expressions(function.body@),
                    function.body@.len() as int, (fuel - 1) as nat)->Some_0;
                assert(output@ =~= old(output)@ + (arguments_run.1 + body_run.1));
            }
            ran?;
            Ok(RuntimeValue::unit())
        },
    }
}

/// Runs statements in order, stopping at the first failure.
fn interpret_statements(
    table: &SymbolTable,
    file: &SourceFile,
    bindings: &Bindings,
    statements: &Vec<Statement>,
    output: &mut String,
    Ghost(fuel): Ghost<nat>,
) -> (result: OcelotResult<()>)
    requires
        run_statements(*table, *file, bindings@, statement_expressions(statements@), statements@.len() as int, fuel) is Some,
        addressable(*file),
        user_sources_addressable(*table),
    ensures
        reports_run(result, |u: ()| RuntimeValueView::Unit,
            run_statements(*table, *file, bindings@, statement_expressions(statements@), statements@.len() as int, fuel)->Some_0,
            old(output)@, final(output)@),
    decreases fuel, statement_expressions(statements@), 3nat,
{
    let ghost expressions = statement_expressions(statements@);
    let ghost count = statements@.len() as int;
    let ghost mut printed: Seq<char> = Seq::empty();
    let mut index: usize = 0;
    assert(old(output)@ + Seq::<char>::empty() =~= old(output)@);
    while index < statements.len()
        invariant
            index <= statements@.len(),
            expressions == statement_expressions(statements@),
            count == statements@.len(),
            run_statements(*table, *file, bindings@, expressions, count, fuel) is Some,
            run_statements(*table, *file, bindings@, expressions, index as int, fuel)
                == Some::<Run>((Ok(RuntimeValueView::Unit), printed)),
            output@ == old(output)@ + printed,
            addressable(*file),
            user_sources_addressable(*table),
        decreases statements@.len() - index,
    {
        proof {
            lemma_statements_prefix(*table, *file, bindings@, expressions, count, fuel, index + 1);
        }
        let expression = match &statements[index].kind {
            StatementKind::Expression(e) => &e.expression,
        };
        proof {
            assert(*expression == expressions[index as int]);
            assert(decreases_to!(expressions => expressions[index as int]));
        }
        match evaluate_expression(table, file, bindings, expression, output, Ghost(fuel)) {
            Ok(_) => {},
            Err(e) => {
                proof {
                    let more = eval_expression(*table, *file, bindings@, expressions[index as int], fuel)->Some_0.1;
                    assert(output@ =~= old(output)@ + (printed + more));
                }
                return Err(e);
            },
        }
        proof {
            let more = eval_expression(*table, *file, bindings@, expressions[index as int], fuel)->Some_0.1;
            printed = printed + more;
            assert(output@ =~= old(output)@ + printed);
        }
        index = index + 1;
    }
    Ok(())
}

proof fn lemma_eval_fuel(
    table: SymbolTable,
    file: SourceFile,
    bindings: Map<Seq<char>, RuntimeValueView>,
    expression: Expression,
    fuel: nat,
    more_fuel: nat,
)
    requires
        fuel <= more_fuel,
        eval_expression(table, file, bindings, expression, fuel) is Some,
    ensures
        eval_expression(table, file, bindings, expression, more_fuel) == eval_expression(table, file, bindings, expression, fuel),
    decreases fuel, expression, 1nat,
{
    match expression.kind {
        ExpressionKind::Not(not) => {
            lemma_eval_fuel(table, file, bindings, *not.operand, fuel, more_fuel);
        },
        ExpressionKind::Call(call) => {
            if let Some(index) = call.function_index {
                if let Some(definition) = table.definition_at(index) {
                    let arguments = call.arguments@;
                    match definition.kind {
                        FunctionKind::NativeFunction { .. } => {
                            lemma_arguments_fuel(table, file, bindings, arguments, arguments.len() as int, fuel, more_fuel);
                        },
                        FunctionKind::UserDefined { function, source_file } => {
                            let count = if function.parameters@.len() < arguments.len() {
                                function.parameters@.len() as int
                            } else {
                                arguments.len() as int
                            };
                            lemma_arguments_fuel(table, file, bindings, arguments, count, fuel, more_fuel);
                            if let Some((Ok(values), _)) = eval_arguments(table, file, bindings, arguments, count, fuel) {
                                let body = statement_expressions(function.body@);
                                lemma_statements_fuel(table, *source_file, bind_parameters(function.parameters@, values),
                                    body, body.len() as int, (fuel - 1) as nat, (more_fuel - 1) as nat);
                            }
                        },
                    }
                }
            }
        },
        _ => {},
    }
}

proof fn lemma_arguments_fuel(
    table: SymbolTable,
    file: SourceFile,
    bindings: Map<Seq<char>, RuntimeValueView>,
    arguments: Seq<Expression>,
    count: int,
    fuel: nat,
    more_fuel: nat,
)
    requires
        fuel <= more_fuel,
        eval_arguments(table, file, bindings, arguments, count, fuel) is Some,
    ensures
        eval_arguments(table, file, bindings, arguments, count, more_fuel) == eval_arguments(table, file, bindings, arguments, count, fuel),
    decreases fuel, arguments, count,
{
    if 0 < count <= arguments.len() {
        lemma_arguments_fuel(table, file, bindings, arguments, count - 1, fuel, more_fuel);
        if let Some((Ok(_), _)) = eval_arguments(table, file, bindings, arguments, count - 1, fuel) {
            lemma_eval_fuel(table, file, bindings, arguments[count - 1], fuel, more_fuel);
        }
    }
}

proof fn lemma_statements_fuel(
    table: SymbolTable,
    file: SourceFile,
    bindings: Map<Seq<char>, RuntimeValueView>,
    expressions: Seq<Expression>,
    count: int,
    fuel: nat,
    more_fuel: nat,
)
    requires
        fuel <= more_fuel,
        run_statements(table, file, bindings, expressions, count, fuel) is Some,
    ensures
        run_statements(table, file, bindings, expressions, count, more_fuel) == run_statements(table, file, bindings, expressions, count, fuel),
    decreases fuel, expressions, count,
{
    if 0 < count <= expressions.len() {
        lemma_statements_fuel(table, file, bindings, expressions, count - 1, fuel, more_fuel);
        if let Some((Ok(_), _)) = run_statements(table, file, bindings, expressions, count - 1, fuel) {
            lemma_eval_fuel(table, file, bindings, expressions[count - 1], fuel, more_fuel);
        }
    }
}

proof fn lemma_items_fuel(
    table: SymbolTable,
    file: SourceFile,
    bindings: Map<Seq<char>, RuntimeValueView>,
    items: Seq<Item>,
    count: int,
    fuel: nat,
    more_fuel: nat,
)
    requires
        fuel <= more_fuel,
        run_items(table, file, bindings, items, count, fuel) is Some,
    ensures
        run_items(table, file, bindings, items, count, more_fuel) == run_items(table, file, bindings, items, count, fuel),
    decreases count,
{
    if 0 < count <= items.len() {
        lemma_items_fuel(table, file, bindings, items, count - 1, fuel, more_fuel);
        if let Some((Ok(_), _)) = run_items(table, file, bindings, items, count - 1, fuel) {
            if let ItemKind::Statement(statement) = items[count - 1].kind {
                lemma_eval_fuel(table, file, bindings, statement_expression(statement), fuel, more_fuel);
            }
        }
    }
}

proof fn lemma_items_prefix(
    table: SymbolTable,
    file: SourceFile,
    bindings: Map<Seq<char>, RuntimeValueView>,
    items: Seq<Item>,
    count: int,
    fuel: nat,
    j: int,
)
    requires
        0 <= j <= count <= items.len(),
        run_items(table, file, bindings, items, count, fuel) is Some,
    ensures
        run_items(table, file, bindings, items, j, fuel) is Some,
        run_items(table, file, bindings, items, j, fuel) matches Some((Err(_), _))
            ==> run_items(table, file, bindings, items, count, fuel) == run_items(table, file, bindings, items, j, fuel),
    decreases count - j,
{
    if j < count {
        lemma_items_prefix(table, file, bindings, items, count, fuel, j + 1);
    }
}

/// Running the items of `unit` with `bindings` completes: no call recursion without end
/// and no native function called with fewer arguments than it takes.
pub open spec fn items_complete(table: SymbolTable, file: SourceFile, bindings: Map<Seq<char>, RuntimeValueView>, items: Seq<Item>) -> bool {
    exists|fuel: nat| #[trigger] run_items(table, file, bindings, items, items.len() as int, fuel) is Some
}

/// Running `statements` with `bindings` completes.
pub open spec fn statements_complete(table: SymbolTable, file: SourceFile, bindings: Map<Seq<char>, RuntimeValueView>, statements: Seq<Statement>) -> bool {
    exists|fuel: nat| #[trigger] run_statements(table, file, bindings, statement_expressions(statements), statements.len() as int, fuel) is Some
}

/// Stateful AST-walking interpreter context: the program's symbol table, the file whose
/// code runs and the local bindings of the running call.
pub struct Interpreter<'a> {
    environment: &'a SymbolTable,
    local_bindings: Bindings,
    source_file: &'a SourceFile,
}

impl<'a> Interpreter<'a> {
    pub closed spec fn table(&self) -> SymbolTable {
        *self.environment
    }

    pub closed spec fn file(&self) -> SourceFile {
        *self.source_file
    }

    pub closed spec fn bindings(&self) -> Map<Seq<char>, RuntimeValueView> {
        self.local_bindings@
    }

    /// Creates an interpreter without local bindings.
    pub fn new(source_file: &'a SourceFile, environment: &'a SymbolTable) -> (interpreter: Interpreter<'a>)
        ensures
            interpreter.table() == *environment,
            interpreter.file() == *source_file,
            interpreter.bindings() == Map::<Seq<char>, RuntimeValueView>::empty(),
    {
        Interpreter::new_with_bindings(source_file, environment, Bindings::new())
    }

    /// Creates an interpreter with explicit local bindings.
    pub fn new_with_bindings(source_file: &'a SourceFile, environment: &'a SymbolTable, local_bindings: Bindings) -> (interpreter: Interpreter<'a>)
        ensures
            interpreter.table() == *environment,
            interpreter.file() == *source_file,
            interpreter.bindings() == local_bindings@,
    {
        Interpreter { environment, local_bindings, source_file }
    }

    /// Executes the top-level statements of a compilation unit in order, appending what
    /// they print to `output`; the first failure stops execution.
    pub fn interpret_script(&self, script: &CompilationUnit, output: &mut String) -> (result: OcelotResult<()>)
        requires
            items_complete(self.table(), self.file(), self.bindings(), script.items@),
            addressable(self.file()),
            user_sources_addressable(self.table()),
        ensures
            forall|fuel: nat| #[trigger] run_items(self.table(), self.file(), self.bindings(), script.items@, script.items@.len() as int, fuel) is Some
                ==> reports_run(result, |u: ()| RuntimeValueView::Unit,
                    run_items(self.table(), self.file(), self.bindings(), script.items@, script.items@.len() as int, fuel)->Some_0,
                    old(output)@, final(output)@),
    {
        let ghost table = *self.environment;
        let ghost file = *self.source_file;
        let ghost bindings = self.local_bindings@;
        let ghost items = script.items@;
        let ghost count = items.len() as int;
        let ghost fuel = choose|fuel: nat| #[trigger] run_items(table, file, bindings, items, count, fuel) is Some;
        proof {
            assert forall|other: nat| #[trigger] run_items(table, file, bindings, items, count, other) is Some
                implies run_items(table, file, bindings, items, count, other) == run_items(table, file, bindings, items, count, fuel) by {
                if other <= fuel {
                    lemma_items_fuel(table, file, bindings, items, count, other, fuel);
                } else {
                    lemma_items_fuel(table, file, bindings, items, count, fuel, other);
                }
            }
        }
        let ghost mut printed: Seq<char> = Seq::empty();
        let mut index: usize = 0;
        assert(old(output)@ + Seq::<char>::empty() =~= old(output)@);
        while index < script.items.len()
            invariant
                index <= items.len(),
                items == script.items@,
                count == items.len(),
                table == *self.environment,
                file == *self.source_file,
                bindings == self.local_bindings@,
                run_items(table, file, bindings, items, count, fuel) is Some,
                forall|other: nat| #[trigger] run_items(table, file, bindings, items, count, other) is Some
                    ==> run_items(table, file, bindings, items, count, other) == run_items(table, file, bindings, items, count, fuel),
                run_items(table, file, bindings, items, index as int, fuel) == Some::<Run>((Ok(RuntimeValueView::Unit), printed)),
                output@ == old(output)@ + printed,
                addressable(file),
                user_sources_addressable(table),
            decreases items.len() - index,
        {
            proof {
                lemma_items_prefix(table, file, bindings, items, count, fuel, index + 1);
            }
            match &script.items[index].kind {
                ItemKind::Statement(statement) => {
                    let expression = match &statement.kind {
                        StatementKind::Expression(e) => &e.expression,
                    };
                    match evaluate_expression(self.environment, self.source_file, &self.local_bindings, expression, output, Ghost(fuel)) {
                        Ok(_) => {
                            proof {
                                let more = eval_expression(table, file, bindings, *expression, fuel)->Some_0.1;
                                printed = printed + more;
                                assert(output@ =~= old(output)@ + printed);
                            }
                        },
                        Err(e) => {
                            proof {
                                let more = eval_expression(table, file, bindings, *expression, fuel)->Some_0.1;
                                assert(output@ =~= old(output)@ + (printed + more));
                            }
                            return Err(e);
                        },
                    }
                },
                _ => {},
            }
            index = index + 1;
        }
        Ok(())
    }

    /// Executes statements in order with this interpreter's bindings, appending what they
    /// print to `output`; the first failure stops execution.
    pub fn interpret_statements(&self, statements: &Vec<Statement>, output: &mut String) -> (result: OcelotResult<()>)
        requires
            statements_complete(self.table(), self.file(), self.bindings(), statements@),
            addressable(self.file()),
            user_sources_addressable(self.table()),
        ensures
            forall|fuel: nat| #[trigger] run_statements(self.table(), self.file(), self.bindings(), statement_expressions(statements@), statements@.len() as int, fuel) is Some
                ==> reports_run(result, |u: ()| RuntimeValueView::Unit,
                    run_statements(self.table(), self.file(), self.bindings(), statement_expressions(statements@), statements@.len() as int, fuel)->Some_0,
                    old(output)@, final(output)@),
    {
        let ghost table = *self.environment;
        let ghost file = *self.source_file;
        let ghost bindings = self.local_bindings@;
        let ghost expressions = statement_expressions(statements@);
        let ghost count = statements@.len() as int;
        let ghost fuel = choose|fuel: nat| #[trigger] run_statements(table, file, bindings, expressions, count, fuel) is Some;
        let result = interpret_statements(self.environment, self.source_file, &self.local_bindings, statements, output, Ghost(fuel));
        proof {
            assert forall|other: nat| #[trigger] run_statements(table, file, bindings, expressions, count, other) is Some
                implies run_statements(table, file, bindings, expressions, count, other) == run_statements(table, file, bindings, expressions, count, fuel) by {
                if other <= fuel {
                    lemma_statements_fuel(table, file, bindings, expressions, count, other, fuel);
                } else {
                    lemma_statements_fuel(table, file, bindings, expressions, count, fuel, other);
                }
            }
        }
        result
    }
}

/// Executes a parsed and resolved script, appending what it prints to `output`.
pub fn interpret_script(script: &CompilationUnit, source_file: &SourceFile, environment: &SymbolTable, output: &mut String) -> (result: OcelotResult<()>)
    requires
        items_complete(*environment, *source_file, Map::empty(), script.items@),
        addressable(*source_file),
        user_sources_addressable(*environment),
    ensures
        forall|fuel: nat| #[trigger] run_items(*environment, *source_file, Map::empty(), script.items@, script.items@.len() as int, fuel) is Some
            ==> reports_run(result, |u: ()| RuntimeValueView::Unit,
                run_items(*environment, *source_file, Map::empty(), script.items@, script.items@.len() as int, fuel)->Some_0,
                old(output)@, final(output)@),
{
    Interpreter::new(source_file, environment).interpret_script(script, output)
}

} // verus!

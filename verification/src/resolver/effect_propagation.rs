use vstd::prelude::*;
use vstd::set_lib::lemma_len_subset;
use crate::types::FunctionIndex;
use crate::index_set::{IndexSet, strictly_increasing, lemma_increasing_len};
use crate::span::Span;
use crate::source_file::SourceFile;
use crate::diagnostic::{DiagnosticView, SourceDiagnostic};
use crate::compilation_context::CompilationContext;
use crate::resolver::diagnostics::{
    addressable, source_diagnostic_for_span, source_excerpt_for_span, span_diagnostic, span_excerpt,
};
use crate::text::{concat3, concat5};
use crate::symbol_table::{FunctionDefinition, FunctionKind, ResolvedFunction, SymbolTable};
use crate::error::{OcelotError, OcelotResult, is_message_error};

verus! {

/// The effect-relevant content of one resolved function.
pub struct EffectNode {
    pub index: u32,
    pub direct: Set<u32>,
    pub inferred: Set<u32>,
    pub callees: Seq<u32>,
}

pub open spec fn effect_node(function: ResolvedFunction) -> EffectNode {
    EffectNode {
        index: function.function_index.0,
        direct: function.direct_effects@,
        inferred: function.inferred_effects@,
        callees: function.called_functions.keys(),
    }
}

pub open spec fn function_at(functions: Seq<ResolvedFunction>, k: int) -> ResolvedFunction {
    functions[k]
}

pub open spec fn effect_nodes(functions: Seq<ResolvedFunction>) -> Seq<EffectNode> {
    functions.map_values(|f: ResolvedFunction| effect_node(f))
}

/// Position of the last node for function `g`, or -1.
pub open spec fn node_position(nodes: Seq<EffectNode>, g: u32) -> int
    decreases nodes.len(),
{
    if nodes.len() == 0 {
        -1
    } else if nodes.last().index == g {
        nodes.len() - 1
    } else {
        node_position(nodes.drop_last(), g)
    }
}

/// The inferred effects of a function defined outside the resolved set.
pub open spec fn external_effects(table: SymbolTable, g: u32) -> Option<Set<u32>> {
    match table.definition_at(FunctionIndex(g)) {
        Some(d) => Some(d.inferred_effects@),
        None => None,
    }
}

/// The inferred effects of function `g`: those of its node when it is being resolved,
/// else those recorded in the table.
pub open spec fn callee_effects(nodes: Seq<EffectNode>, table: SymbolTable, g: u32) -> Set<u32> {
    if node_position(nodes, g) >= 0 {
        nodes[node_position(nodes, g)].inferred
    } else {
        match external_effects(table, g) {
            Some(s) => s,
            None => Set::empty(),
        }
    }
}

/// A callee is known when it is resolved or recorded in the table.
pub open spec fn callee_known(nodes: Seq<EffectNode>, table: SymbolTable, g: u32) -> bool {
    node_position(nodes, g) >= 0 || external_effects(table, g) is Some
}

/// Union of the effects of the given callees.
pub open spec fn gathered(nodes: Seq<EffectNode>, table: SymbolTable, callees: Seq<u32>) -> Set<u32>
    decreases callees.len(),
{
    if callees.len() == 0 {
        Set::empty()
    } else {
        gathered(nodes, table, callees.drop_last()).union(callee_effects(nodes, table, callees.last()))
    }
}

/// What function `i` performs: its direct effects and everything its callees perform.
pub open spec fn propagated(nodes: Seq<EffectNode>, table: SymbolTable, i: int) -> Set<u32> {
    nodes[i].direct.union(gathered(nodes, table, nodes[i].callees))
}

/// Every function's inferred effects are exactly its direct effects plus its callees'.
pub open spec fn is_fixed_point(nodes: Seq<EffectNode>, table: SymbolTable) -> bool {
    forall|i: int| 0 <= i < nodes.len() ==> (#[trigger] nodes[i]).inferred == propagated(nodes, table, i)
}

/// Every callee of every function is known.
pub open spec fn all_callees_known(nodes: Seq<EffectNode>, table: SymbolTable) -> bool {
    forall|i: int, k: int| 0 <= i < nodes.len() && 0 <= k < nodes[i].callees.len() ==> callee_known(nodes, table, #[trigger] nodes[i].callees[k])
}

/// The same functions, calls and direct effects, with other inferred effects.
pub open spec fn same_structure(a: Seq<EffectNode>, b: Seq<EffectNode>) -> bool {
    &&& a.len() == b.len()
    &&& forall|i: int| 0 <= i < a.len() ==> (#[trigger] a[i]).index == b[i].index && a[i].direct == b[i].direct && a[i].callees == b[i].callees
}

/// `bound` assigns each function a set that already contains what it and its callees
/// perform, reading callee effects from `bound`.
pub open spec fn is_closed_bound(nodes: Seq<EffectNode>, table: SymbolTable, bound: Seq<Set<u32>>) -> bool {
    let assigned = with_inferred(nodes, bound);
    &&& bound.len() == nodes.len()
    &&& forall|i: int| 0 <= i < nodes.len() ==> propagated(assigned, table, i).subset_of(#[trigger] bound[i])
}

/// The nodes with their inferred effects replaced by `sets`.
pub open spec fn with_inferred(nodes: Seq<EffectNode>, sets: Seq<Set<u32>>) -> Seq<EffectNode> {
    Seq::new(nodes.len(), |i: int| EffectNode { inferred: sets[i], ..nodes[i] })
}

/// What one round of propagation assigns to every function.
pub open spec fn propagation_step(nodes: Seq<EffectNode>, table: SymbolTable) -> Seq<Set<u32>> {
    Seq::new(nodes.len(), |i: int| propagated(nodes, table, i))
}

/// No function's inferred effects exceed what its direct effects and callees give it.
pub open spec fn below_propagation(nodes: Seq<EffectNode>, table: SymbolTable) -> bool {
    forall|i: int| 0 <= i < nodes.len() ==> (#[trigger] nodes[i]).inferred.subset_of(propagated(nodes, table, i))
}

/// Every function's inferred effects are among its direct effects (as on creation).
pub open spec fn inferred_within_direct(nodes: Seq<EffectNode>) -> bool {
    forall|i: int| 0 <= i < nodes.len() ==> (#[trigger] nodes[i]).inferred.subset_of(nodes[i].direct)
}

/// Pointwise inclusion of inferred effects.
pub open spec fn inferred_below(a: Seq<EffectNode>, b: Seq<EffectNode>) -> bool {
    forall|p: int| 0 <= p < a.len() ==> (#[trigger] a[p]).inferred.subset_of(b[p].inferred)
}

/// Sum of the sizes of all inferred effect sets.
pub open spec fn total_inferred(nodes: Seq<EffectNode>) -> nat
    decreases nodes.len(),
{
    if nodes.len() == 0 {
        0
    } else {
        total_inferred(nodes.drop_last()) + nodes.last().inferred.len()
    }
}

proof fn lemma_same_structure_drop_last(a: Seq<EffectNode>, b: Seq<EffectNode>)
    requires
        same_structure(a, b),
        a.len() > 0,
    ensures
        same_structure(a.drop_last(), b.drop_last()),
{
    assert forall|i: int| 0 <= i < a.drop_last().len() implies (#[trigger] a.drop_last()[i]).index == b.drop_last()[i].index
        && a.drop_last()[i].direct == b.drop_last()[i].direct && a.drop_last()[i].callees == b.drop_last()[i].callees by {
        assert(a.drop_last()[i] == a[i]);
        assert(b.drop_last()[i] == b[i]);
    }
}

/// The last node of a function depends on the functions' order only.
proof fn lemma_node_position(a: Seq<EffectNode>, b: Seq<EffectNode>, g: u32)
    requires
        same_structure(a, b),
    ensures
        node_position(a, g) == node_position(b, g),
        -1 <= node_position(a, g) < a.len(),
        node_position(a, g) >= 0 ==> a[node_position(a, g)].index == g,
    decreases a.len(),
{
    if a.len() > 0 {
        lemma_same_structure_drop_last(a, b);
        lemma_node_position(a.drop_last(), b.drop_last(), g);
        if a.last().index != g {
            let p = node_position(a.drop_last(), g);
            if p >= 0 {
                assert(a.drop_last()[p] == a[p]);
            }
        }
    }
}

proof fn lemma_callee_effects_monotone(a: Seq<EffectNode>, b: Seq<EffectNode>, table: SymbolTable, g: u32)
    requires
        same_structure(a, b),
        inferred_below(a, b),
    ensures
        callee_effects(a, table, g).subset_of(callee_effects(b, table, g)),
        callee_known(a, table, g) == callee_known(b, table, g),
{
    lemma_node_position(a, b, g);
    let p = node_position(a, g);
    if p >= 0 {
        assert(a[p].inferred.subset_of(b[p].inferred));
    }
}

proof fn lemma_gathered_monotone(a: Seq<EffectNode>, b: Seq<EffectNode>, table: SymbolTable, callees: Seq<u32>)
    requires
        same_structure(a, b),
        inferred_below(a, b),
    ensures
        gathered(a, table, callees).subset_of(gathered(b, table, callees)),
    decreases callees.len(),
{
    if callees.len() > 0 {
        lemma_gathered_monotone(a, b, table, callees.drop_last());
        lemma_callee_effects_monotone(a, b, table, callees.last());
    }
}

/// Propagation is monotone: larger callee effects give larger results.
proof fn lemma_propagated_monotone(a: Seq<EffectNode>, b: Seq<EffectNode>, table: SymbolTable, i: int)
    requires
        same_structure(a, b),
        inferred_below(a, b),
        0 <= i < a.len(),
    ensures
        propagated(a, table, i).subset_of(propagated(b, table, i)),
{
    lemma_gathered_monotone(a, b, table, a[i].callees);
    assert(a[i].callees == b[i].callees);
    assert(a[i].direct == b[i].direct);
}

proof fn lemma_propagated_equal(a: Seq<EffectNode>, b: Seq<EffectNode>, table: SymbolTable, i: int)
    requires
        same_structure(a, b),
        inferred_below(a, b),
        inferred_below(b, a),
        0 <= i < a.len(),
    ensures
        propagated(a, table, i) == propagated(b, table, i),
{
    assert(same_structure(b, a));
    lemma_propagated_monotone(a, b, table, i);
    lemma_propagated_monotone(b, a, table, i);
    assert(propagated(a, table, i) =~= propagated(b, table, i));
}

/// Sizes of finite sets that grow pointwise grow in total, strictly when one grows.
proof fn lemma_total_grows(a: Seq<EffectNode>, b: Seq<EffectNode>)
    requires
        a.len() == b.len(),
        inferred_below(a, b),
        forall|p: int| 0 <= p < b.len() ==> (#[trigger] b[p]).inferred.finite(),
    ensures
        total_inferred(a) <= total_inferred(b),
        (exists|p: int| 0 <= p < a.len() && (#[trigger] a[p]).inferred != b[p].inferred) ==> total_inferred(a) < total_inferred(b),
    decreases a.len(),
{
    if a.len() > 0 {
        let ar = a.drop_last();
        let br = b.drop_last();
        assert forall|p: int| 0 <= p < ar.len() implies (#[trigger] ar[p]).inferred.subset_of(br[p].inferred) by {
            assert(ar[p] == a[p]);
            assert(br[p] == b[p]);
        }
        assert forall|p: int| 0 <= p < br.len() implies (#[trigger] br[p]).inferred.finite() by {
            assert(br[p] == b[p]);
        }
        lemma_total_grows(ar, br);
        let last = a.len() - 1;
        assert(a[last].inferred.subset_of(b[last].inferred));
        assert(b[last].inferred.finite());
        lemma_len_subset(a[last].inferred, b[last].inferred);
        if exists|p: int| 0 <= p < a.len() && (#[trigger] a[p]).inferred != b[p].inferred {
            let p = choose|p: int| 0 <= p < a.len() && (#[trigger] a[p]).inferred != b[p].inferred;
            if p == last {
                assert(exists|x: u32| b[last].inferred.contains(x) && !a[last].inferred.contains(x)) by {
                    if !(exists|x: u32| b[last].inferred.contains(x) && !a[last].inferred.contains(x)) {
                        assert(a[last].inferred =~= b[last].inferred);
                    }
                }
                let x = choose|x: u32| b[last].inferred.contains(x) && !a[last].inferred.contains(x);
                assert(a[last].inferred.subset_of(b[last].inferred.remove(x)));
                lemma_len_subset(a[last].inferred, b[last].inferred.remove(x));
            } else {
                assert(ar[p] == a[p]);
                assert(br[p] == b[p]);
            }
        }
    }
}

/// Each inferred set of a `u32` universe holds at most 2^32 members.
proof fn lemma_total_bound(nodes: Seq<EffectNode>)
    requires
        forall|p: int| 0 <= p < nodes.len() ==> (#[trigger] nodes[p]).inferred.len() <= 0x1_0000_0000,
    ensures
        total_inferred(nodes) <= nodes.len() * 0x1_0000_0000,
    decreases nodes.len(),
{
    if nodes.len() > 0 {
        let rest = nodes.drop_last();
        assert forall|p: int| 0 <= p < rest.len() implies (#[trigger] rest[p]).inferred.len() <= 0x1_0000_0000 by {
            assert(rest[p] == nodes[p]);
        }
        lemma_total_bound(rest);
        assert(nodes.last() == nodes[nodes.len() - 1]);
    }
}

/// Inferred effects of every function, each kept in ascending order.
pub open spec fn inferred_sorted(functions: Seq<ResolvedFunction>) -> bool {
    forall|p: int| 0 <= p < functions.len() ==> strictly_increasing(#[trigger] functions[p].inferred_effects.elements())
}

/// Position of the last resolved function with handle `g`.
fn last_position(functions: &Vec<ResolvedFunction>, g: u32) -> (position: Option<usize>)
    ensures
        match position {
            Some(p) => p == node_position(effect_nodes(functions@), g) && p < functions@.len(),
            None => node_position(effect_nodes(functions@), g) == -1,
        },
{
    let ghost nodes = effect_nodes(functions@);
    let mut k = functions.len();
    assert(nodes.subrange(0, k as int) =~= nodes);
    while k > 0
        invariant
            k <= functions@.len(),
            nodes == effect_nodes(functions@),
            node_position(nodes, g) == node_position(nodes.subrange(0, k as int), g),
        decreases k,
    {
        let ghost prefix = nodes.subrange(0, k as int);
        assert(prefix.last() == nodes[k - 1]);
        if functions[k - 1].function_index.0 == g {
            return Some(k - 1);
        }
        assert(prefix.drop_last() =~= nodes.subrange(0, k - 1));
        k = k - 1;
    }
    None
}

/// The effects one round assigns to function `k`: its direct effects and those of its
/// callees, read from `snapshot` for resolved callees and from the table otherwise.
fn next_effects(
    functions: &Vec<ResolvedFunction>,
    snapshot: &Vec<IndexSet>,
    table: &SymbolTable,
    k: usize,
    Ghost(current): Ghost<Seq<EffectNode>>,
) -> (result: OcelotResult<IndexSet>)
    requires
        k < functions@.len(),
        snapshot@.len() == functions@.len(),
        same_structure(current, effect_nodes(functions@)),
        forall|p: int| 0 <= p < snapshot@.len() ==> (#[trigger] snapshot@[p])@ == current[p].inferred,
    ensures
        match result {
            Ok(next) => next@ == propagated(current, *table, k as int)
                && strictly_increasing(next.elements())
                && forall|j: int| 0 <= j < current[k as int].callees.len() ==> callee_known(current, *table, #[trigger] current[k as int].callees[j]),
            Err(e) => is_message_error(e, "internal error: function index points outside the function table"@)
                && exists|j: int| 0 <= j < current[k as int].callees.len() && !callee_known(current, *table, #[trigger] current[k as int].callees[j]),
        },
{
    let ghost nodes = effect_nodes(functions@);
    let function = &functions[k];
    assert(nodes[k as int] == effect_node(function_at(functions@, k as int)));
    let ghost callees = current[k as int].callees;
    assert(callees == function.called_functions.keys());
    let mut next = function.direct_effects.copy();
    let count = function.called_functions.len();
    let mut j: usize = 0;
    while j < count
        invariant
            j <= count,
            count == callees.len(),
            callees == current[k as int].callees,
            callees == function.called_functions.keys(),
            same_structure(current, nodes),
            nodes == effect_nodes(functions@),
            k < functions@.len(),
            snapshot@.len() == functions@.len(),
            forall|p: int| 0 <= p < snapshot@.len() ==> (#[trigger] snapshot@[p])@ == current[p].inferred,
            next@ == current[k as int].direct.union(gathered(current, *table, callees.subrange(0, j as int))),
            forall|i: int| 0 <= i < j ==> callee_known(current, *table, #[trigger] callees[i]),
        decreases count - j,
    {
        let (g, _) = function.called_functions.entry_at(j);
        assert(g == callees[j as int]);
        proof {
            lemma_node_position(current, nodes, g);
        }
        match last_position(functions, g) {
            Some(p) => {
                next.extend(&snapshot[p]);
            },
            None => {
                match table.function_definition(FunctionIndex(g)) {
                    Ok(definition) => {
                        next.extend(&definition.inferred_effects);
                    },
                    Err(e) => {
                        assert(!callee_known(current, *table, current[k as int].callees[j as int]));
                        return Err(e);
                    },
                }
            },
        }
        proof {
            let s = callees.subrange(0, j + 1);
            assert(s.drop_last() =~= callees.subrange(0, j as int));
            assert(s.last() == g);
        }
        j = j + 1;
    }
    assert(callees.subrange(0, j as int) =~= callees);
    let _ = next.len();
    Ok(next)
}

/// `after` differs from `before` at most in inferred effects.
pub open spec fn only_inferred_changed(before: Seq<ResolvedFunction>, after: Seq<ResolvedFunction>) -> bool {
    &&& before.len() == after.len()
    &&& forall|p: int| 0 <= p < before.len() ==> (#[trigger] after[p]) == (ResolvedFunction {
        inferred_effects: after[p].inferred_effects,
        ..before[p]
    })
}

proof fn lemma_only_inferred_structure(a: Seq<ResolvedFunction>, b: Seq<ResolvedFunction>)
    requires
        only_inferred_changed(a, b),
    ensures
        same_structure(effect_nodes(a), effect_nodes(b)),
        only_inferred_changed(b, a),
{
    assert forall|i: int| 0 <= i < a.len() implies (#[trigger] effect_nodes(a)[i]).index == effect_nodes(b)[i].index
        && effect_nodes(a)[i].direct == effect_nodes(b)[i].direct && effect_nodes(a)[i].callees == effect_nodes(b)[i].callees by {
        assert(b[i] == ResolvedFunction { inferred_effects: b[i].inferred_effects, ..a[i] });
    }
    assert forall|p: int| 0 <= p < b.len() implies (#[trigger] a[p]) == (ResolvedFunction {
        inferred_effects: a[p].inferred_effects,
        ..b[p]
    }) by {
        assert(b[p] == ResolvedFunction { inferred_effects: b[p].inferred_effects, ..a[p] });
    }
}

proof fn lemma_only_inferred_transitive(a: Seq<ResolvedFunction>, b: Seq<ResolvedFunction>, c: Seq<ResolvedFunction>)
    requires
        only_inferred_changed(a, b),
        only_inferred_changed(b, c),
    ensures
        only_inferred_changed(a, c),
{
    assert forall|p: int| 0 <= p < a.len() implies (#[trigger] c[p]) == (ResolvedFunction {
        inferred_effects: c[p].inferred_effects,
        ..a[p]
    }) by {
        assert(b[p] == ResolvedFunction { inferred_effects: b[p].inferred_effects, ..a[p] });
        assert(c[p] == ResolvedFunction { inferred_effects: c[p].inferred_effects, ..b[p] });
    }
}

/// One round: every function gets the effects `propagation_step` computes from the
/// effects all functions had when the round began.
fn propagation_round(functions: &mut Vec<ResolvedFunction>, table: &SymbolTable) -> (result: OcelotResult<bool>)
    ensures
        only_inferred_changed(old(functions)@, final(functions)@),
        match result {
            Ok(changed) => {
                &&& forall|p: int| 0 <= p < final(functions)@.len() ==> (#[trigger] final(functions)@[p]).inferred_effects@
                    == propagated(effect_nodes(old(functions)@), *table, p)
                &&& inferred_sorted(final(functions)@)
                &&& changed == exists|p: int| 0 <= p < old(functions)@.len()
                    && propagated(effect_nodes(old(functions)@), *table, p) != (#[trigger] old(functions)@[p]).inferred_effects@
                &&& all_callees_known(effect_nodes(old(functions)@), *table)
            },
            Err(e) => is_message_error(e, "internal error: function index points outside the function table"@)
                && !all_callees_known(effect_nodes(old(functions)@), *table),
        },
{
    let ghost start = functions@;
    let ghost current = effect_nodes(start);
    let count = functions.len();
    let mut snapshot: Vec<IndexSet> = Vec::new();
    let mut p: usize = 0;
    while p < count
        invariant
            count == functions@.len(),
            functions@ == start,
            start == old(functions)@,
            current == effect_nodes(start),
            p <= count,
            snapshot@.len() == p,
            forall|q: int| 0 <= q < p ==> (#[trigger] snapshot@[q])@ == current[q].inferred,
            forall|q: int| 0 <= q < p ==> strictly_increasing(#[trigger] start[q].inferred_effects.elements()),
        decreases count - p,
    {
        let copy = functions[p].inferred_effects.copy();
        snapshot.push(copy);
        p = p + 1;
    }
    let mut changed = false;
    let mut k: usize = 0;
    proof {
        lemma_only_inferred_structure(start, functions@);
    }
    while k < count
        invariant
            count == functions@.len(),
            count == start.len(),
            start == old(functions)@,
            current == effect_nodes(start),
            k <= count,
            snapshot@.len() == count,
            forall|q: int| 0 <= q < count ==> (#[trigger] snapshot@[q])@ == current[q].inferred,
            forall|q: int| 0 <= q < count ==> strictly_increasing(#[trigger] start[q].inferred_effects.elements()),
            only_inferred_changed(start, functions@),
            forall|q: int| 0 <= q < k ==> (#[trigger] functions@[q]).inferred_effects@ == propagated(current, *table, q)
                && strictly_increasing(functions@[q].inferred_effects.elements()),
            forall|q: int| k <= q < count ==> (#[trigger] functions@[q]) == start[q],
            changed == exists|q: int| 0 <= q < k && propagated(current, *table, q) != (#[trigger] start[q]).inferred_effects@,
            forall|q: int, j: int| 0 <= q < k && 0 <= j < current[q].callees.len()
                ==> callee_known(current, *table, #[trigger] current[q].callees[j]),
        decreases count - k,
    {
        proof {
            lemma_only_inferred_structure(start, functions@);
        }
        let next = match next_effects(functions, &snapshot, table, k, Ghost(current)) {
            Ok(next) => next,
            Err(e) => {
                proof {
                    let j = choose|j: int| 0 <= j < current[k as int].callees.len()
                        && !callee_known(current, *table, #[trigger] current[k as int].callees[j]);
                    assert(!callee_known(current, *table, current[k as int].callees[j]));
                }
                return Err(e);
            },
        };
        let ghost before = functions@;
        if !next.same_members(&functions[k].inferred_effects) {
            functions[k].inferred_effects = next;
            changed = true;
        }
        proof {
            assert(start[k as int] == before[k as int]);
            assert(only_inferred_changed(before, functions@)) by {
                assert forall|q: int| 0 <= q < before.len() implies (#[trigger] functions@[q]) == (ResolvedFunction {
                    inferred_effects: functions@[q].inferred_effects,
                    ..before[q]
                }) by {
                    if q != k {
                        assert(functions@[q] == before[q]);
                    }
                }
            }
            lemma_only_inferred_transitive(start, before, functions@);
            assert(functions@[k as int].inferred_effects@ == propagated(current, *table, k as int));
            if changed {
                if propagated(current, *table, k as int) != start[k as int].inferred_effects@ {
                    assert(exists|q: int| 0 <= q < k + 1 && propagated(current, *table, q) != (#[trigger] start[q]).inferred_effects@);
                }
            }
            if exists|q: int| 0 <= q < k + 1 && propagated(current, *table, q) != (#[trigger] start[q]).inferred_effects@ {
                let q = choose|q: int| 0 <= q < k + 1 && propagated(current, *table, q) != (#[trigger] start[q]).inferred_effects@;
                if q == k {
                    assert(changed);
                }
            }
        }
        k = k + 1;
    }
    Ok(changed)
}

/// Every function's inferred effects lie within the set `bound` assigns it.
pub open spec fn inferred_within(nodes: Seq<EffectNode>, bound: Seq<Set<u32>>) -> bool {
    forall|p: int| 0 <= p < nodes.len() ==> (#[trigger] nodes[p]).inferred.subset_of(bound[p])
}

/// What one propagation round keeps: starting below the propagation, the new sets
/// contain the old, stay below the propagation, stay within every closed bound, and
/// form a fixed point when nothing changed.
proof fn lemma_round_step(start: Seq<EffectNode>, current: Seq<EffectNode>, next: Seq<EffectNode>, table: SymbolTable)
    requires
        same_structure(start, current),
        same_structure(current, next),
        below_propagation(current, table),
        forall|p: int| 0 <= p < next.len() ==> (#[trigger] next[p]).inferred == propagated(current, table, p),
    ensures
        inferred_below(current, next),
        below_propagation(next, table),
        (forall|p: int| 0 <= p < next.len() ==> (#[trigger] next[p]).inferred == current[p].inferred)
            ==> is_fixed_point(next, table),
        forall|bound: Seq<Set<u32>>| is_closed_bound(start, table, bound) && inferred_within(current, bound)
            ==> inferred_within(next, bound),
{
    assert forall|p: int| 0 <= p < current.len() implies (#[trigger] current[p]).inferred.subset_of(next[p].inferred) by {
        assert(next[p].inferred == propagated(current, table, p));
    }
    assert forall|i: int| 0 <= i < next.len() implies (#[trigger] next[i]).inferred.subset_of(propagated(next, table, i)) by {
        lemma_propagated_monotone(current, next, table, i);
    }
    if forall|p: int| 0 <= p < next.len() ==> (#[trigger] next[p]).inferred == current[p].inferred {
        assert(inferred_below(next, current));
        assert(same_structure(next, current));
        assert forall|i: int| 0 <= i < next.len() implies (#[trigger] next[i]).inferred == propagated(next, table, i) by {
            lemma_propagated_equal(current, next, table, i);
        }
    }
    assert forall|bound: Seq<Set<u32>>| is_closed_bound(start, table, bound) && inferred_within(current, bound)
        implies inferred_within(next, bound) by {
        let assigned = with_inferred(start, bound);
        assert(same_structure(current, assigned));
        assert(inferred_below(current, assigned)) by {
            assert forall|p: int| 0 <= p < current.len() implies (#[trigger] current[p]).inferred.subset_of(assigned[p].inferred) by {
                assert(assigned[p].inferred == bound[p]);
            }
        }
        assert forall|p: int| 0 <= p < next.len() implies (#[trigger] next[p]).inferred.subset_of(bound[p]) by {
            lemma_propagated_monotone(current, assigned, table, p);
            assert(propagated(assigned, table, p).subset_of(bound[p]));
        }
    }
}

/// Starting from direct effects only, every closed bound contains the inferred effects.
proof fn lemma_start_within_bounds(start: Seq<EffectNode>, table: SymbolTable)
    requires
        inferred_within_direct(start),
    ensures
        forall|bound: Seq<Set<u32>>| is_closed_bound(start, table, bound) ==> inferred_within(start, bound),
{
    assert forall|bound: Seq<Set<u32>>| is_closed_bound(start, table, bound) implies inferred_within(start, bound) by {
        let assigned = with_inferred(start, bound);
        assert forall|p: int| 0 <= p < start.len() implies (#[trigger] start[p]).inferred.subset_of(bound[p]) by {
            assert(propagated(assigned, table, p).subset_of(bound[p]));
            assert(assigned[p].direct == start[p].direct);
        }
    }
}

/// Propagates effects through calls until no function's inferred effects change.
fn propagate_to_fixed_point(functions: &mut Vec<ResolvedFunction>, table: &SymbolTable) -> (result: OcelotResult<()>)
    requires
        below_propagation(effect_nodes(old(functions)@), *table),
    ensures
        only_inferred_changed(old(functions)@, final(functions)@),
        result is Ok <==> all_callees_known(effect_nodes(old(functions)@), *table),
        result matches Err(e) ==> is_message_error(e, "internal error: function index points outside the function table"@),
        result is Ok ==> is_fixed_point(effect_nodes(final(functions)@), *table),
        result is Ok ==> inferred_sorted(final(functions)@),
        result is Ok && inferred_within_direct(effect_nodes(old(functions)@)) ==>
            forall|bound: Seq<Set<u32>>| is_closed_bound(effect_nodes(old(functions)@), *table, bound)
                ==> inferred_within(effect_nodes(final(functions)@), bound),
{
    let ghost start = functions@;
    let ghost n0 = effect_nodes(start);
    let ghost count = start.len();
    let mut changed = true;
    let ghost mut rounds: nat = 0;
    proof {
        if inferred_within_direct(n0) {
            lemma_start_within_bounds(n0, *table);
        }
    }
    while changed
        invariant
            start == old(functions)@,
            n0 == effect_nodes(start),
            count == start.len(),
            only_inferred_changed(start, functions@),
            below_propagation(effect_nodes(functions@), *table),
            rounds > 0 ==> all_callees_known(n0, *table),
            rounds > 0 ==> inferred_sorted(functions@),
            !changed ==> rounds > 0 && is_fixed_point(effect_nodes(functions@), *table),
            inferred_within_direct(n0) ==> forall|bound: Seq<Set<u32>>| is_closed_bound(n0, *table, bound)
                ==> inferred_within(effect_nodes(functions@), bound),
        decreases (count * 0x1_0000_0000 - total_inferred(effect_nodes(functions@))) * 2 + if changed { 1int } else { 0int },
    {
        let ghost before = functions@;
        let ghost current = effect_nodes(before);
        proof {
            lemma_only_inferred_structure(start, before);
        }
        let round = propagation_round(functions, table);
        proof {
            lemma_only_inferred_transitive(start, before, functions@);
            lemma_only_inferred_structure(before, functions@);
            lemma_only_inferred_structure(start, functions@);
        }
        match round {
            Ok(round_changed) => {
                proof {
                    let next = effect_nodes(functions@);
                    assert(same_structure(n0, current));
                    assert forall|p: int| 0 <= p < next.len() implies (#[trigger] next[p]).inferred == propagated(current, *table, p) by {
                        assert(next[p].inferred == functions@[p].inferred_effects@);
                    }
                    lemma_round_step(n0, current, next, *table);
                    assert(all_callees_known(n0, *table)) by {
                        assert forall|i: int, j: int| 0 <= i < n0.len() && 0 <= j < n0[i].callees.len()
                            implies callee_known(n0, *table, #[trigger] n0[i].callees[j]) by {
                            assert(n0[i].callees == current[i].callees);
                            lemma_node_position(n0, current, n0[i].callees[j]);
                        }
                    }
                    assert forall|p: int| 0 <= p < next.len() implies (#[trigger] next[p]).inferred.finite()
                        && next[p].inferred.len() <= 0x1_0000_0000 by {
                        assert(strictly_increasing(functions@[p].inferred_effects.elements()));
                        lemma_increasing_len(functions@[p].inferred_effects.elements());
                    }
                    lemma_total_grows(current, next);
                    lemma_total_bound(next);
                    if !round_changed {
                        assert forall|p: int| 0 <= p < next.len() implies (#[trigger] next[p]).inferred == current[p].inferred by {
                            assert(before[p].inferred_effects@ == current[p].inferred);
                        }
                    } else {
                        let p = choose|p: int| 0 <= p < before.len()
                            && propagated(current, *table, p) != (#[trigger] before[p]).inferred_effects@;
                        assert(current[p].inferred != next[p].inferred);
                    }
                    rounds = rounds + 1;
                }
                changed = round_changed;
            },
            Err(e) => {
                proof {
                    assert(!all_callees_known(n0, *table)) by {
                        if all_callees_known(n0, *table) {
                            assert forall|i: int, j: int| 0 <= i < current.len() && 0 <= j < current[i].callees.len()
                                implies callee_known(current, *table, #[trigger] current[i].callees[j]) by {
                                assert(n0[i].callees == current[i].callees);
                                lemma_node_position(n0, current, current[i].callees[j]);
                                assert(callee_known(n0, *table, n0[i].callees[j]));
                            }
                        }
                    }
                }
                return Err(e);
            },
        }
    }
    Ok(())
}

/// The first call, in ascending callee order, to a function that performs `effect`.
pub open spec fn effect_call_site(entries: Seq<(u32, Span)>, nodes: Seq<EffectNode>, table: SymbolTable, effect: u32) -> Option<Span>
    decreases entries.len(),
{
    if entries.len() == 0 {
        None
    } else if callee_effects(nodes, table, entries[0].0).contains(effect) {
        Some(entries[0].1)
    } else {
        effect_call_site(entries.drop_first(), nodes, table, effect)
    }
}

/// Name of effect `effect` in the table.
pub open spec fn effect_name(table: SymbolTable, effect: u32) -> Seq<char> {
    table.effects@[effect as int].name@
}

/// Where a forbidden effect comes from, with the annotation that points there: the
/// `can` clause that declares it, else the first call that performs it, else the
/// expression that performs it directly, else the `cannot` clause.
pub open spec fn violation_site(
    table: SymbolTable,
    definition: FunctionDefinition,
    function: ResolvedFunction,
    nodes: Seq<EffectNode>,
    effect: u32,
) -> Option<(Span, Seq<char>)> {
    let label = "this has a `"@ + effect_name(table, effect) + "` effect"@;
    if definition.can_effects@.contains(effect) && definition.can_clause_span is Some {
        Some((definition.can_clause_span->0, "effect declared here"@))
    } else {
        match effect_call_site(function.called_functions.entries(), nodes, table, effect) {
            Some(span) => Some((span, label)),
            None => match function.direct_effect_sources.get(effect) {
                Some(span) => Some((span, label)),
                None => match definition.cannot_clause_span {
                    Some(span) => Some((span, "forbidden effect"@)),
                    None => None,
                },
            },
        }
    }
}

/// The error reported for a function that performs a forbidden effect.
pub open spec fn violation_diagnostic(
    table: SymbolTable,
    definition: FunctionDefinition,
    source_file: SourceFile,
    span: Span,
    annotation: Seq<char>,
    effect: u32,
) -> DiagnosticView {
    let message = "effect error: function `"@ + definition.name@ + "` cannot perform effect `"@ + effect_name(table, effect) + "`"@;
    let base = span_diagnostic(source_file.path@, source_file.bytes(), message, span, annotation);
    match definition.cannot_clause_span {
        Some(clause) => DiagnosticView {
            excerpts: base.excerpts.push(span_excerpt(source_file.path@, source_file.bytes(), clause, "forbidden here"@)),
            ..base
        },
        None => base,
    }
}

/// The diagnostic for one forbidden effect that a function performs, if it has a
/// source to point at and the function is user-defined.
pub open spec fn effect_violation(
    table: SymbolTable,
    definition: FunctionDefinition,
    function: ResolvedFunction,
    nodes: Seq<EffectNode>,
    effect: u32,
) -> Option<DiagnosticView> {
    match violation_site(table, definition, function, nodes, effect) {
        None => None,
        Some((span, annotation)) => match definition.kind {
            FunctionKind::UserDefined { source_file, .. } => Some(
                violation_diagnostic(table, definition, *source_file, span, annotation, effect),
            ),
            FunctionKind::NativeFunction { .. } => None,
        },
    }
}

/// The diagnostics for the forbidden `effects` (in order) that one function performs,
/// and the error that stops the check, if any.
pub open spec fn forbidden_report(
    table: SymbolTable,
    definition: FunctionDefinition,
    function: ResolvedFunction,
    nodes: Seq<EffectNode>,
    effects: Seq<u32>,
) -> (Seq<DiagnosticView>, Option<Seq<char>>)
    decreases effects.len(),
{
    if effects.len() == 0 {
        (Seq::empty(), None)
    } else {
        let effect = effects[0];
        let rest = forbidden_report(table, definition, function, nodes, effects.drop_first());
        if !function.inferred_effects@.contains(effect) {
            rest
        } else if effect >= table.effects@.len() {
            (Seq::empty(), Some("internal error: effect index points outside the effect table"@))
        } else {
            match effect_violation(table, definition, function, nodes, effect) {
                Some(diagnostic) => (seq![diagnostic] + rest.0, rest.1),
                None => rest,
            }
        }
    }
}

/// The diagnostics for every forbidden effect performed by the given functions, in
/// order, and the error that stops the check, if any.
pub open spec fn effect_report(table: SymbolTable, functions: Seq<ResolvedFunction>, nodes: Seq<EffectNode>) -> (Seq<DiagnosticView>, Option<Seq<char>>)
    decreases functions.len(),
{
    if functions.len() == 0 {
        (Seq::empty(), None)
    } else {
        match table.definition_at(functions[0].function_index) {
            None => (Seq::empty(), Some("internal error: function index points outside the function table"@)),
            Some(definition) => {
                let report = forbidden_report(table, definition, functions[0], nodes, definition.cannot_effects.elements());
                if report.1 is Some {
                    report
                } else {
                    let rest = effect_report(table, functions.drop_first(), nodes);
                    (report.0 + rest.0, rest.1)
                }
            },
        }
    }
}

/// Every user-defined function's source file can be measured in `usize` offsets.
pub open spec fn user_sources_addressable(table: SymbolTable) -> bool {
    forall|p: int| 0 <= p < table.functions@.len() ==> match #[trigger] table.functions@[p] {
        Some(definition) => match definition.kind {
            FunctionKind::UserDefined { source_file, .. } => addressable(*source_file),
            FunctionKind::NativeFunction { .. } => true,
        },
        None => true,
    }
}

fn find_effect_call_site(
    functions: &Vec<ResolvedFunction>,
    table: &SymbolTable,
    function: &ResolvedFunction,
    effect: u32,
) -> (result: OcelotResult<Option<Span>>)
    requires
        forall|j: int| 0 <= j < function.called_functions.keys().len()
            ==> callee_known(effect_nodes(functions@), *table, #[trigger] function.called_functions.keys()[j]),
    ensures
        result == Ok::<Option<Span>, OcelotError>(effect_call_site(function.called_functions.entries(), effect_nodes(functions@), *table, effect)),
{
    let ghost nodes = effect_nodes(functions@);
    let ghost entries = function.called_functions.entries();
    let count = function.called_functions.len();
    let mut j: usize = 0;
    assert(entries.subrange(0, count as int) =~= entries);
    while j < count
        invariant
            j <= count,
            count == entries.len(),
            entries == function.called_functions.entries(),
            nodes == effect_nodes(functions@),
            forall|i: int| 0 <= i < function.called_functions.keys().len()
                ==> callee_known(nodes, *table, #[trigger] function.called_functions.keys()[i]),
            effect_call_site(entries, nodes, *table, effect) == effect_call_site(entries.subrange(j as int, count as int), nodes, *table, effect),
        decreases count - j,
    {
        let (g, span) = function.called_functions.entry_at(j);
        let ghost rest = entries.subrange(j as int, count as int);
        assert(rest[0] == (g, span));
        assert(rest.drop_first() =~= entries.subrange(j + 1, count as int));
        assert(function.called_functions.keys()[j as int] == g);
        assert(callee_known(nodes, *table, g));
        proof {
            lemma_node_position(nodes, nodes, g);
        }
        let has_effect = match last_position(functions, g) {
            Some(p) => functions[p].inferred_effects.contains(effect),
            None => match table.function_definition(FunctionIndex(g)) {
                Ok(definition) => definition.inferred_effects.contains(effect),
                Err(e) => {
                    return Err(e);
                },
            },
        };
        if has_effect {
            return Ok(Some(span));
        }
        j = j + 1;
    }
    Ok(None)
}

fn find_violation_site(
    functions: &Vec<ResolvedFunction>,
    table: &SymbolTable,
    definition: &FunctionDefinition,
    function: &ResolvedFunction,
    effect: u32,
) -> (result: OcelotResult<Option<(Span, String)>>)
    requires
        effect < table.effects@.len(),
        forall|j: int| 0 <= j < function.called_functions.keys().len()
            ==> callee_known(effect_nodes(functions@), *table, #[trigger] function.called_functions.keys()[j]),
    ensures
        match violation_site(*table, *definition, *function, effect_nodes(functions@), effect) {
            Some((span, annotation)) => result matches Ok(Some((s, a))) && s == span && a@ == annotation,
            None => result matches Ok(None),
        },
{
    if definition.can_effects.contains(effect) {
        match definition.can_clause_span {
            Some(span) => {
                return Ok(Some((span, String::from_str("effect declared here"))));
            },
            None => {},
        }
    }
    let call_site = find_effect_call_site(functions, table, function, effect)?;
    let name = table.effects[effect as usize].name.as_str();
    match call_site {
        Some(span) => {
            return Ok(Some((span, concat3("this has a `", name, "` effect"))));
        },
        None => {},
    }
    match function.direct_effect_sources.get_value(effect) {
        Some(span) => {
            return Ok(Some((span, concat3("this has a `", name, "` effect"))));
        },
        None => {},
    }
    match definition.cannot_clause_span {
        Some(span) => Ok(Some((span, String::from_str("forbidden effect")))),
        None => Ok(None),
    }
}

fn check_forbidden_effects(
    context: &mut CompilationContext,
    table: &SymbolTable,
    functions: &Vec<ResolvedFunction>,
    definition: &FunctionDefinition,
    function: &ResolvedFunction,
) -> (result: OcelotResult<()>)
    requires
        forall|j: int| 0 <= j < function.called_functions.keys().len()
            ==> callee_known(effect_nodes(functions@), *table, #[trigger] function.called_functions.keys()[j]),
        definition.kind matches FunctionKind::UserDefined { source_file, .. } ==> addressable(*source_file),
    ensures
        ({
            let report = forbidden_report(*table, *definition, *function, effect_nodes(functions@), definition.cannot_effects.elements());
            &&& final(context)@ == old(context)@ + report.0
            &&& result is Err <==> report.1 is Some
            &&& result matches Err(e) ==> is_message_error(e, report.1->0)
        }),
{
    let ghost nodes = effect_nodes(functions@);
    let ghost effects = definition.cannot_effects.elements();
    let ghost report = forbidden_report(*table, *definition, *function, nodes, effects);
    let ghost mut produced: Seq<DiagnosticView> = Seq::empty();
    let count = definition.cannot_effects.len();
    let mut j: usize = 0;
    assert(effects.subrange(0, count as int) =~= effects);
    while j < count
        invariant
            j <= count,
            count == effects.len(),
            effects == definition.cannot_effects.elements(),
            nodes == effect_nodes(functions@),
            report == forbidden_report(*table, *definition, *function, nodes, effects),
            forall|i: int| 0 <= i < function.called_functions.keys().len()
                ==> callee_known(nodes, *table, #[trigger] function.called_functions.keys()[i]),
            definition.kind matches FunctionKind::UserDefined { source_file, .. } ==> addressable(*source_file),
            context@ == old(context)@ + produced,
            report.0 == produced + forbidden_report(*table, *definition, *function, nodes, effects.subrange(j as int, count as int)).0,
            report.1 == forbidden_report(*table, *definition, *function, nodes, effects.subrange(j as int, count as int)).1,
        decreases count - j,
    {
        let effect = definition.cannot_effects.get(j);
        let ghost suffix = effects.subrange(j as int, count as int);
        assert(suffix[0] == effect);
        assert(suffix.drop_first() =~= effects.subrange(j + 1, count as int));
        let ghost rest = forbidden_report(*table, *definition, *function, nodes, suffix.drop_first());
        if function.inferred_effects.contains(effect) {
            if effect as usize >= table.effects.len() {
                return Err(OcelotError::message_str("internal error: effect index points outside the effect table"));
            }
            let site = find_violation_site(functions, table, definition, function, effect)?;
            match site {
                Some((span, annotation)) => {
                    match &definition.kind {
                        FunctionKind::UserDefined { source_file, .. } => {
                            let message = concat5(
                                "effect error: function `",
                                definition.name.as_str(),
                                "` cannot perform effect `",
                                table.effects[effect as usize].name.as_str(),
                                "`",
                            );
                            let mut diagnostic = source_diagnostic_for_span(source_file, message, span, annotation);
                            match definition.cannot_clause_span {
                                Some(clause) => {
                                    diagnostic = diagnostic.with_excerpt(
                                        source_excerpt_for_span(source_file, clause, String::from_str("forbidden here")),
                                    );
                                },
                                None => {},
                            }
                            assert(diagnostic@ == violation_diagnostic(*table, *definition, **source_file, span, annotation@, effect));
                            context.add_diagnostic(diagnostic);
                            proof {
                                assert(produced.push(diagnostic@) + rest.0 =~= produced + (seq![diagnostic@] + rest.0));
                                produced = produced.push(diagnostic@);
                            }
                        },
                        FunctionKind::NativeFunction { .. } => {},
                    }
                },
                None => {},
            }
        }
        j = j + 1;
    }
    assert(effects.subrange(count as int, count as int) =~= Seq::<u32>::empty());
    assert(produced + Seq::<DiagnosticView>::empty() =~= produced);
    Ok(())
}

fn report_effect_violations(context: &mut CompilationContext, table: &SymbolTable, functions: &Vec<ResolvedFunction>) -> (result: OcelotResult<()>)
    requires
        all_callees_known(effect_nodes(functions@), *table),
        user_sources_addressable(*table),
    ensures
        ({
            let report = effect_report(*table, functions@, effect_nodes(functions@));
            &&& final(context)@ == old(context)@ + report.0
            &&& result is Err <==> report.1 is Some
            &&& result matches Err(e) ==> is_message_error(e, report.1->0)
        }),
{
    let ghost nodes = effect_nodes(functions@);
    let ghost report = effect_report(*table, functions@, nodes);
    let ghost mut produced: Seq<DiagnosticView> = Seq::empty();
    let count = functions.len();
    let mut i: usize = 0;
    assert(functions@.subrange(0, count as int) =~= functions@);
    while i < count
        invariant
            i <= count,
            count == functions@.len(),
            nodes == effect_nodes(functions@),
            report == effect_report(*table, functions@, nodes),
            all_callees_known(nodes, *table),
            user_sources_addressable(*table),
            context@ == old(context)@ + produced,
            report.0 == produced + effect_report(*table, functions@.subrange(i as int, count as int), nodes).0,
            report.1 == effect_report(*table, functions@.subrange(i as int, count as int), nodes).1,
        decreases count - i,
    {
        let function = &functions[i];
        let ghost suffix = functions@.subrange(i as int, count as int);
        assert(suffix[0] == functions@[i as int]);
        assert(suffix.drop_first() =~= functions@.subrange(i + 1, count as int));
        let definition = table.function_definition(function.function_index)?;
        proof {
            let index = function.function_index.0 as int;
            assert(table.functions@[index] == Some(*definition));
            assert(nodes[i as int].callees == function.called_functions.keys());
            assert forall|j: int| 0 <= j < function.called_functions.keys().len()
                implies callee_known(nodes, *table, #[trigger] function.called_functions.keys()[j]) by {
                assert(nodes[i as int].callees[j] == function.called_functions.keys()[j]);
            }
        }
        let ghost before = context@;
        let checked = check_forbidden_effects(context, table, functions, definition, function);
        proof {
            let part = forbidden_report(*table, *definition, *function, nodes, definition.cannot_effects.elements());
            let rest = effect_report(*table, suffix.drop_first(), nodes);
            assert(produced + part.0 + rest.0 =~= produced + (part.0 + rest.0));
            produced = produced + part.0;
        }
        checked?;
        i = i + 1;
    }
    assert(produced + Seq::<DiagnosticView>::empty() =~= produced);
    Ok(())
}

/// Infers every resolved function's effects from its direct effects and its calls,
/// then reports each forbidden effect that a function performs.
///
/// Inference repeats rounds, each reading the effects of the previous round, until
/// nothing changes: the result is a fixed point of propagation, and when the functions
/// start from their direct effects it is the least one. Resolved callees are read from
/// `functions` (the last entry for a handle), others from `table`.
pub fn propagate_function_effects(
    context: &mut CompilationContext,
    table: &SymbolTable,
    functions: &mut Vec<ResolvedFunction>,
) -> (result: OcelotResult<()>)
    requires
        below_propagation(effect_nodes(old(functions)@), *table),
        user_sources_addressable(*table),
    ensures
        only_inferred_changed(old(functions)@, final(functions)@),
        !all_callees_known(effect_nodes(old(functions)@), *table) ==> {
            &&& result matches Err(e) && is_message_error(e, "internal error: function index points outside the function table"@)
            &&& final(context)@ == old(context)@
        },
        all_callees_known(effect_nodes(old(functions)@), *table) ==> {
            let report = effect_report(*table, final(functions)@, effect_nodes(final(functions)@));
            &&& is_fixed_point(effect_nodes(final(functions)@), *table)
            &&& inferred_within_direct(effect_nodes(old(functions)@)) ==>
                forall|bound: Seq<Set<u32>>| is_closed_bound(effect_nodes(old(functions)@), *table, bound)
                    ==> inferred_within(effect_nodes(final(functions)@), bound)
            &&& final(context)@ == old(context)@ + report.0
            &&& result is Err <==> report.1 is Some
            &&& result matches Err(e) ==> is_message_error(e, report.1->0)
        },
{
    propagate_to_fixed_point(functions, table)?;
    proof {
        let nodes = effect_nodes(functions@);
        lemma_only_inferred_structure(old(functions)@, functions@);
        assert(all_callees_known(nodes, *table)) by {
            let n0 = effect_nodes(old(functions)@);
            assert forall|i: int, j: int| 0 <= i < nodes.len() && 0 <= j < nodes[i].callees.len()
                implies callee_known(nodes, *table, #[trigger] nodes[i].callees[j]) by {
                assert(n0[i].callees == nodes[i].callees);
                lemma_node_position(n0, nodes, nodes[i].callees[j]);
                assert(callee_known(n0, *table, n0[i].callees[j]));
            }
        }
    }
    report_effect_violations(context, table, functions)
}

/// After inference, a function performs every effect that each of its callees performs.
pub proof fn law_callers_inherit_callee_effects(nodes: Seq<EffectNode>, table: SymbolTable, i: int, j: int)
    requires
        is_fixed_point(nodes, table),
        0 <= i < nodes.len(),
        0 <= j < nodes[i].callees.len(),
    ensures
        callee_effects(nodes, table, nodes[i].callees[j]).subset_of(nodes[i].inferred),
        nodes[i].direct.subset_of(nodes[i].inferred),
{
    lemma_gathered_contains(nodes, table, nodes[i].callees, j);
    assert(nodes[i].inferred == propagated(nodes, table, i));
}

proof fn lemma_gathered_contains(nodes: Seq<EffectNode>, table: SymbolTable, callees: Seq<u32>, j: int)
    requires
        0 <= j < callees.len(),
    ensures
        callee_effects(nodes, table, callees[j]).subset_of(gathered(nodes, table, callees)),
    decreases callees.len(),
{
    if j < callees.len() - 1 {
        lemma_gathered_contains(nodes, table, callees.drop_last(), j);
    }
}

} // verus!

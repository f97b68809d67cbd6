//! Graph surgery keeps what a graph computes.
use vstd::prelude::*;

use crate::domain::Domain;
use crate::eval::{eval_graph, eval_nodes, leaf_error, leaf_errors, node_value, EvalErrorView};
use crate::graph::{ordered, well_formed, GraphView};
use crate::infer::{infer_graph, infer_nodes, lemma_infer_prefix, node_type, TypeErrorView};
use crate::op::{NodeId, OpView};
use crate::seqs::lemma_first_some_none;
use crate::soundness::lemma_eval_prefix;
use crate::surgery::{
    build_from, has_rank, keep_flags, kept, lemma_build_from, lemma_kept_operands,
    lemma_map_operands, lemma_pruned_ops, lemma_rank, lemma_rebuilt, listed, pruned, pruned_ops,
    pruning_succeeds, rank, reached, redefined, renamed, replaced, swap_id, swapped_ops, uses,
};
use crate::tensor::TensorView;
use crate::tensor_type::TypeView;

verus! {

/// The values of the nodes of an evaluated graph.
pub open spec fn graph_values<D: Domain>(
    g: GraphView,
    inputs: Map<Seq<char>, TensorView<D::V>>,
) -> Seq<TensorView<D::V>> {
    eval_nodes::<D>(g.nodes, inputs, g.nodes.len())->Ok_0
}

/// Renamed operands with the same values give the same value.
pub proof fn lemma_mapped_value<D: Domain>(
    op: OpView,
    f: spec_fn(NodeId) -> NodeId,
    inputs: Map<Seq<char>, TensorView<D::V>>,
    a: Seq<TensorView<D::V>>,
    b: Seq<TensorView<D::V>>,
)
    requires
        forall|k: int|
            0 <= k < op.operands().len() ==> b[f(#[trigger] op.operands()[k]).0 as int]
                == a[op.operands()[k].0 as int],
    ensures
        node_value::<D>(op.map(f), inputs, b) == node_value::<D>(op, inputs, a),
        leaf_error(op.map(f), inputs) == leaf_error(op, inputs),
{
    let operands = op.operands();
    if operands.len() > 0 {
        assert(b[f(operands[0]).0 as int] == a[operands[0].0 as int]);
    }
    if operands.len() > 1 {
        assert(b[f(operands[1]).0 as int] == a[operands[1].0 as int]);
    }
}

/// Renamed operands with the same types give the same type.
pub proof fn lemma_mapped_type(
    op: OpView,
    f: spec_fn(NodeId) -> NodeId,
    a: Seq<TypeView>,
    b: Seq<TypeView>,
)
    requires
        forall|k: int|
            0 <= k < op.operands().len() ==> (#[trigger] op.operands()[k]).0 < a.len() && f(
                op.operands()[k],
            ).0 < b.len() && b[f(op.operands()[k]).0 as int] == a[op.operands()[k].0 as int],
    ensures
        node_type(op.map(f), b) == node_type(op, a),
{
    let operands = op.operands();
    if operands.len() > 0 {
        assert(b[f(operands[0]).0 as int] == a[operands[0].0 as int]);
    }
    if operands.len() > 1 {
        assert(b[f(operands[1]).0 as int] == a[operands[1].0 as int]);
    }
}

/// Nodes that keep the value at every place keep all values.
pub proof fn lemma_same_values<D: Domain>(
    nodes: Seq<OpView>,
    inputs: Map<Seq<char>, TensorView<D::V>>,
    values: Seq<TensorView<D::V>>,
    n: nat,
)
    requires
        n <= values.len(),
        forall|i: int|
            0 <= i < n ==> node_value::<D>(#[trigger] nodes[i], inputs, values.take(i)) == Ok::<
                TensorView<D::V>,
                EvalErrorView,
            >(values[i]),
    ensures
        eval_nodes::<D>(nodes, inputs, n) == Ok::<Seq<TensorView<D::V>>, EvalErrorView>(
            values.take(n as int),
        ),
    decreases n,
{
    if n > 0 {
        lemma_same_values::<D>(nodes, inputs, values, (n - 1) as nat);
        assert(node_value::<D>(nodes[n - 1], inputs, values.take(n - 1)) is Ok);
        assert(values.take(n as int) =~= values.take(n - 1).push(values[n - 1]));
    } else {
        assert(values.take(0) =~= Seq::empty());
    }
}

/// Nodes that keep the type at every place keep all types.
pub proof fn lemma_same_types(nodes: Seq<OpView>, types: Seq<TypeView>, n: nat)
    requires
        n <= types.len(),
        forall|i: int|
            0 <= i < n ==> node_type(#[trigger] nodes[i], types.take(i)) == Ok::<
                TypeView,
                TypeErrorView,
            >(types[i]),
    ensures
        infer_nodes(nodes, n) == Ok::<Seq<TypeView>, TypeErrorView>(types.take(n as int)),
    decreases n,
{
    if n > 0 {
        lemma_same_types(nodes, types, (n - 1) as nat);
        assert(node_type(nodes[n - 1], types.take(n - 1)) is Ok);
        assert(types.take(n as int) =~= types.take(n - 1).push(types[n - 1]));
    } else {
        assert(types.take(0) =~= Seq::empty());
    }
}

/// A graph that keeps the type and the value at every place keeps its types, and its outputs
/// where their values are kept.
pub proof fn lemma_same_graph<D: Domain>(
    g: GraphView,
    after: GraphView,
    inputs: Map<Seq<char>, TensorView<D::V>>,
)
    requires
        eval_graph::<D>(g, inputs) is Ok,
        well_formed(after),
        after.nodes.len() == g.nodes.len(),
        forall|i: int|
            0 <= i < g.nodes.len() ==> node_type(
                #[trigger] after.nodes[i],
                infer_graph(g)->Ok_0.take(i),
            ) == Ok::<TypeView, TypeErrorView>(infer_graph(g)->Ok_0[i]),
        forall|i: int|
            0 <= i < g.nodes.len() ==> node_value::<D>(
                #[trigger] after.nodes[i],
                inputs,
                graph_values::<D>(g, inputs).take(i),
            ) == Ok::<TensorView<D::V>, EvalErrorView>(graph_values::<D>(g, inputs)[i]),
        after.outputs.len() == g.outputs.len(),
        forall|k: int|
            0 <= k < g.outputs.len() ==> graph_values::<D>(g, inputs)[(
            #[trigger] after.outputs[k]).0 as int] == graph_values::<D>(
                g,
                inputs,
            )[g.outputs[k].0 as int],
    ensures
        infer_graph(after) == infer_graph(g),
        eval_graph::<D>(after, inputs) == eval_graph::<D>(g, inputs),
{
    let n = g.nodes.len();
    let types = infer_graph(g)->Ok_0;
    let values = graph_values::<D>(g, inputs);
    crate::graph::validation_accepts_exactly_well_formed(after);
    lemma_infer_prefix(g.nodes, n);
    lemma_eval_prefix::<D>(g.nodes, inputs, n);
    lemma_same_types(after.nodes, types, n);
    lemma_same_values::<D>(after.nodes, inputs, values, n);
    assert(types.take(n as int) =~= types);
    assert(values.take(n as int) =~= values);
    assert forall|i: int| 0 <= i < n implies (#[trigger] leaf_errors(after.nodes, inputs)[i])
        is None by {
        assert(node_value::<D>(after.nodes[i], inputs, values.take(i)) is Ok);
    }
    lemma_first_some_none(leaf_errors(after.nodes, inputs));
    assert(after.outputs.map_values(|id: NodeId| values[id.0 as int]) =~= g.outputs.map_values(
        |id: NodeId| values[id.0 as int],
    ));
}

/// Replacing all uses of a node by a node of the same type and value keeps types and outputs.
pub proof fn replacing_equals_preserves_evaluation<D: Domain>(
    g: GraphView,
    target: NodeId,
    replacement: NodeId,
    inputs: Map<Seq<char>, TensorView<D::V>>,
)
    requires
        g.nodes.len() <= usize::MAX,
        replaced(g, target, replacement) is Ok,
        eval_graph::<D>(g, inputs) is Ok,
        infer_graph(g)->Ok_0[target.0 as int] == infer_graph(g)->Ok_0[replacement.0 as int],
        graph_values::<D>(g, inputs)[target.0 as int] == graph_values::<D>(
            g,
            inputs,
        )[replacement.0 as int],
    ensures
        infer_graph(replaced(g, target, replacement)->Ok_0) == infer_graph(g),
        eval_graph::<D>(replaced(g, target, replacement)->Ok_0, inputs) == eval_graph::<D>(
            g,
            inputs,
        ),
{
    let after = replaced(g, target, replacement)->Ok_0;
    let swap = swap_id(target, replacement);
    let ops = swapped_ops(g.nodes, target, replacement);
    let outputs = g.outputs.map_values(swap);
    let n = g.nodes.len();
    let types = infer_graph(g)->Ok_0;
    let values = graph_values::<D>(g, inputs);
    crate::graph::validation_accepts_exactly_well_formed(g);
    assert forall|k: int| 0 <= k < outputs.len() implies (#[trigger] outputs[k]).0 < ops.len() by {
        assert(g.outputs[k].0 < n);
    }
    lemma_rebuilt(ops, outputs);
    lemma_infer_prefix(g.nodes, n);
    lemma_eval_prefix::<D>(g.nodes, inputs, n);
    assert forall|i: int| 0 <= i < n implies node_type(#[trigger] after.nodes[i], types.take(i))
        == Ok::<TypeView, TypeErrorView>(types[i]) && node_value::<D>(
        after.nodes[i],
        inputs,
        values.take(i),
    ) == Ok::<TensorView<D::V>, EvalErrorView>(values[i]) by {
        assert(node_type(g.nodes[i], types.take(i)) == Ok::<TypeView, TypeErrorView>(types[i]));
        assert(node_value::<D>(g.nodes[i], inputs, values.take(i)) == Ok::<
            TensorView<D::V>,
            EvalErrorView,
        >(values[i]));
        if i != target.0 {
            lemma_map_operands(g.nodes[i], swap);
            assert forall|k: int| 0 <= k < g.nodes[i].operands().len() implies (
            #[trigger] g.nodes[i].operands()[k]).0 < i && swap(g.nodes[i].operands()[k]).0 < i by {
                assert(ordered(g.nodes));
                assert(ordered(after.nodes));
                assert(after.nodes[i].operands()[k].0 < i);
            }
            lemma_mapped_type(g.nodes[i], swap, types.take(i), types.take(i));
            lemma_mapped_value::<D>(g.nodes[i], swap, inputs, values.take(i), values.take(i));
        }
    }
    lemma_same_graph::<D>(g, after, inputs);
}

/// Redefining a node with an operation of the same type and value keeps types and outputs.
pub proof fn redefining_equal_preserves_evaluation<D: Domain>(
    g: GraphView,
    node: NodeId,
    op: OpView,
    inputs: Map<Seq<char>, TensorView<D::V>>,
)
    requires
        g.nodes.len() <= usize::MAX,
        redefined(g, node, op) is Ok,
        eval_graph::<D>(g, inputs) is Ok,
        node_type(op, infer_graph(g)->Ok_0.take(node.0 as int)) == Ok::<TypeView, TypeErrorView>(
            infer_graph(g)->Ok_0[node.0 as int],
        ),
        node_value::<D>(op, inputs, graph_values::<D>(g, inputs).take(node.0 as int)) == Ok::<
            TensorView<D::V>,
            EvalErrorView,
        >(graph_values::<D>(g, inputs)[node.0 as int]),
    ensures
        infer_graph(redefined(g, node, op)->Ok_0) == infer_graph(g),
        eval_graph::<D>(redefined(g, node, op)->Ok_0, inputs) == eval_graph::<D>(g, inputs),
{
    let after = redefined(g, node, op)->Ok_0;
    let n = g.nodes.len();
    let types = infer_graph(g)->Ok_0;
    let values = graph_values::<D>(g, inputs);
    crate::graph::validation_accepts_exactly_well_formed(g);
    lemma_rebuilt(g.nodes.update(node.0 as int, op), g.outputs);
    lemma_infer_prefix(g.nodes, n);
    lemma_eval_prefix::<D>(g.nodes, inputs, n);
    assert forall|i: int| 0 <= i < n implies node_type(#[trigger] after.nodes[i], types.take(i))
        == Ok::<TypeView, TypeErrorView>(types[i]) && node_value::<D>(
        after.nodes[i],
        inputs,
        values.take(i),
    ) == Ok::<TensorView<D::V>, EvalErrorView>(values[i]) by {
        if i != node.0 {
            assert(after.nodes[i] == g.nodes[i]);
            assert(node_type(g.nodes[i], types.take(i)) == Ok::<TypeView, TypeErrorView>(
                types[i],
            ));
        }
    }
    lemma_same_graph::<D>(g, after, inputs);
}

/// The kept items among the first `n`.
pub open spec fn kept_items<T>(items: Seq<T>, keep: Seq<bool>, n: nat) -> Seq<T>
    decreases n,
{
    if n == 0 {
        Seq::empty()
    } else {
        let before = kept_items(items, keep, (n - 1) as nat);
        if keep[n - 1] {
            before.push(items[n - 1])
        } else {
            before
        }
    }
}

/// Where each kept item comes to stand.
pub proof fn lemma_kept_items<T>(items: Seq<T>, keep: Seq<bool>, n: nat)
    requires
        n <= items.len(),
        keep.len() == items.len(),
    ensures
        kept_items(items, keep, n).len() == rank(keep, n),
        forall|v: int|
            0 <= v < n && #[trigger] keep[v] ==> rank(keep, v as nat) < rank(keep, n)
                && kept_items(items, keep, n)[rank(keep, v as nat) as int] == items[v],
    decreases n,
{
    if n > 0 {
        let m = (n - 1) as nat;
        lemma_kept_items(items, keep, m);
        assert forall|v: int| 0 <= v < n && #[trigger] keep[v] implies rank(keep, v as nat) < rank(
            keep,
            n,
        ) && kept_items(items, keep, n)[rank(keep, v as nat) as int] == items[v] by {
            lemma_rank(keep, v as nat, n);
        }
    }
}

/// The types and values of the kept nodes among the first `n`.
proof fn lemma_pruned_prefix<D: Domain>(
    g: GraphView,
    inputs: Map<Seq<char>, TensorView<D::V>>,
    n: nat,
)
    requires
        g.nodes.len() <= usize::MAX,
        well_formed(g),
        eval_graph::<D>(g, inputs) is Ok,
        n <= g.nodes.len(),
    ensures
        ({
            let keep = keep_flags(g);
            let ops = pruned_ops(g.nodes, keep, g.nodes.len());
            &&& infer_nodes(ops, rank(keep, n)) == Ok::<Seq<TypeView>, TypeErrorView>(
                kept_items(infer_graph(g)->Ok_0, keep, n),
            )
            &&& eval_nodes::<D>(ops, inputs, rank(keep, n)) == Ok::<
                Seq<TensorView<D::V>>,
                EvalErrorView,
            >(kept_items(graph_values::<D>(g, inputs), keep, n))
            &&& forall|j: int|
                0 <= j < rank(keep, n) ==> leaf_error(#[trigger] ops[j], inputs) is None
        }),
    decreases n,
{
    let keep = keep_flags(g);
    let ops = pruned_ops(g.nodes, keep, g.nodes.len());
    let types = infer_graph(g)->Ok_0;
    let values = graph_values::<D>(g, inputs);
    if n > 0 {
        let m = (n - 1) as nat;
        let mi = m as int;
        lemma_pruned_prefix::<D>(g, inputs, m);
        lemma_infer_prefix(g.nodes, g.nodes.len());
        lemma_eval_prefix::<D>(g.nodes, inputs, g.nodes.len());
        lemma_kept_items(types, keep, m);
        lemma_kept_items(values, keep, m);
        lemma_pruned_ops(g.nodes, keep, g.nodes.len());
        let rename = renamed(keep);
        if keep[mi] {
            let op = g.nodes[mi];
            assert(ops[rank(keep, m) as int] == op.map(rename));
            let small_types = kept_items(types, keep, m);
            let small_values = kept_items(values, keep, m);
            assert forall|k: int| 0 <= k < op.operands().len() implies (
            #[trigger] op.operands()[k]).0 < m && rename(op.operands()[k]).0 < small_types.len()
                && small_types[rename(op.operands()[k]).0 as int] == types[op.operands()[k].0 as int]
                && small_values[rename(op.operands()[k]).0 as int]
                == values[op.operands()[k].0 as int] by {
                lemma_kept_operands(g, mi, k);
                let o = op.operands()[k];
                assert(keep[o.0 as int]);
                lemma_rank(keep, o.0 as nat, m);
            }
            assert forall|k: int| 0 <= k < op.operands().len() implies (
            #[trigger] op.operands()[k]).0 < types.take(mi).len() && rename(op.operands()[k]).0
                < small_types.len() && small_types[rename(op.operands()[k]).0 as int]
                == types.take(mi)[op.operands()[k].0 as int] by {}
            assert forall|k: int| 0 <= k < op.operands().len() implies small_values[rename(
                #[trigger] op.operands()[k],
            ).0 as int] == values.take(mi)[op.operands()[k].0 as int] by {}
            lemma_mapped_type(op, rename, types.take(mi), small_types);
            lemma_mapped_value::<D>(op, rename, inputs, values.take(mi), small_values);
            assert(node_type(g.nodes[mi], types.take(mi)) == Ok::<TypeView, TypeErrorView>(
                types[mi],
            ));
            assert(node_value::<D>(g.nodes[mi], inputs, values.take(mi)) == Ok::<
                TensorView<D::V>,
                EvalErrorView,
            >(values[mi]));
            assert(rank(keep, n) == rank(keep, m) + 1);
            assert(leaf_error(ops[rank(keep, m) as int], inputs) is None);
        }
    }
}

/// Pruning keeps the types of the outputs and what the graph computes.
pub proof fn pruning_preserves_evaluation<D: Domain>(
    g: GraphView,
    inputs: Map<Seq<char>, TensorView<D::V>>,
)
    requires
        g.nodes.len() <= usize::MAX,
        eval_graph::<D>(g, inputs) is Ok,
    ensures
        pruned(g) is Ok,
        infer_graph(pruned(g)->Ok_0) is Ok,
        eval_graph::<D>(pruned(g)->Ok_0, inputs) == eval_graph::<D>(g, inputs),
{
    crate::graph::validation_accepts_exactly_well_formed(g);
    pruning_succeeds(g);
    let after = pruned(g)->Ok_0;
    crate::graph::validation_accepts_exactly_well_formed(after);
    let n = g.nodes.len();
    let keep = keep_flags(g);
    let ops = pruned_ops(g.nodes, keep, n);
    let values = graph_values::<D>(g, inputs);
    lemma_pruned_prefix::<D>(g, inputs, n);
    lemma_pruned_ops(g.nodes, keep, n);
    lemma_eval_prefix::<D>(g.nodes, inputs, n);
    lemma_kept_items(values, keep, n);
    assert forall|j: int| 0 <= j < ops.len() implies (#[trigger] leaf_errors(ops, inputs)[j])
        is None by {
        assert(leaf_error(ops[j], inputs) is None);
    }
    lemma_first_some_none(leaf_errors(ops, inputs));
    let small = kept_items(values, keep, n);
    assert forall|k: int| 0 <= k < g.outputs.len() implies small[(
    #[trigger] after.outputs[k]).0 as int] == values[g.outputs[k].0 as int] by {
        let o = g.outputs[k];
        assert(o.0 < n);
        assert(listed(g.outputs, o.0 as int));
        assert(keep[o.0 as int]);
        lemma_rank(keep, o.0 as nat, n);
    }
    assert(after.outputs.map_values(|id: NodeId| small[id.0 as int]) =~= g.outputs.map_values(
        |id: NodeId| values[id.0 as int],
    ));
}

/// Every listed input is still listed after pruning, with its name and type.
pub proof fn pruning_keeps_inputs(g: GraphView, k: int)
    requires
        g.nodes.len() <= usize::MAX,
        well_formed(g),
        0 <= k < g.inputs.len(),
    ensures
        pruned(g) is Ok,
        exists|j: int|
            0 <= j < pruned(g)->Ok_0.inputs.len() && pruned(g)->Ok_0.nodes[(
            #[trigger] pruned(g)->Ok_0.inputs[j]).0 as int] == g.nodes[g.inputs[k].0 as int],
{
    pruning_succeeds(g);
    let after = pruned(g)->Ok_0;
    let keep = keep_flags(g);
    let n = g.nodes.len();
    let v = g.inputs[k].0 as int;
    assert(g.inputs[k].0 < n && g.nodes[v] is Input);
    assert(listed(g.inputs, v));
    assert(keep[v]);
    lemma_pruned_ops(g.nodes, keep, n);
    lemma_rank(keep, n, n);
    let r = rank(keep, v as nat);
    let ops = pruned_ops(g.nodes, keep, n);
    assert(ops[r as int] == g.nodes[v]);
    lemma_inputs_of(ops, ops.len(), r as int);
    let base = build_from(ops, ops.len())->Ok_0;
    let j = choose|j: int| 0 <= j < base.inputs.len() && (#[trigger] base.inputs[j]).0 == r;
    assert(after.inputs[j].0 == r);
}

/// A pruned graph holds no dead node: each is an input, an output, or used by another node.
pub proof fn pruned_graphs_hold_no_dead_nodes(g: GraphView, j: int)
    requires
        g.nodes.len() <= usize::MAX,
        well_formed(g),
        pruned(g) is Ok,
        0 <= j < pruned(g)->Ok_0.nodes.len(),
    ensures
        ({
            let after = pruned(g)->Ok_0;
            ||| after.nodes[j] is Input
            ||| listed(after.outputs, j)
            ||| exists|u: int|
                j < u < after.nodes.len() && #[trigger] uses(after.nodes[u], j)
        }),
{
    pruning_succeeds(g);
    let after = pruned(g)->Ok_0;
    let keep = keep_flags(g);
    let n = g.nodes.len();
    let f = renamed(keep);
    lemma_pruned_ops(g.nodes, keep, n);
    assert(has_rank(keep, n, j));
    let v = choose|v: int| 0 <= v < n && #[trigger] keep[v] && rank(keep, v as nat) == j;
    assert(after.nodes[j] == g.nodes[v].map(f));
    if listed(g.inputs, v) {
        let i = choose|i: int| 0 <= i < g.inputs.len() && (#[trigger] g.inputs[i]).0 == v;
        assert(g.nodes[g.inputs[i].0 as int] is Input);
    } else if listed(g.outputs, v) {
        let i = choose|i: int| 0 <= i < g.outputs.len() && (#[trigger] g.outputs[i]).0 == v;
        lemma_rank(keep, v as nat, n);
        assert(after.outputs[i] == f(g.outputs[i]));
        assert(after.outputs[i].0 == j);
    } else {
        assert(reached(g, v));
        let u = choose|u: int|
            v < u < g.nodes.len() && uses(#[trigger] g.nodes[u], v) && reached(g, u);
        assert(keep[u]);
        let w = rank(keep, u as nat) as int;
        lemma_rank(keep, v as nat, u as nat);
        lemma_rank(keep, u as nat, n);
        let op = g.nodes[u];
        lemma_map_operands(op, f);
        let k = choose|k: int| 0 <= k < op.operands().len() && (#[trigger] op.operands()[k]).0 == v;
        assert(after.nodes[w] == op.map(f));
        assert(after.nodes[w].operands()[k] == f(op.operands()[k]));
        assert(after.nodes[w].operands()[k].0 == j);
        assert(uses(after.nodes[w], j));
    }
}

/// A built graph lists all its input nodes.
proof fn lemma_inputs_of(ops: Seq<OpView>, n: nat, v: int)
    requires
        build_from(ops, n) is Ok,
        n <= ops.len() <= usize::MAX,
        0 <= v < n,
        ops[v] is Input,
    ensures
        exists|j: int|
            0 <= j < build_from(ops, n)->Ok_0.inputs.len() && (
            #[trigger] build_from(ops, n)->Ok_0.inputs[j]).0 == v,
    decreases n,
{
    let m = (n - 1) as nat;
    let g = build_from(ops, m)->Ok_0;
    lemma_build_from(ops, m);
    let after = build_from(ops, n)->Ok_0;
    if v == m {
        assert(after.inputs[g.inputs.len() as int].0 == v);
    } else {
        lemma_inputs_of(ops, m, v);
        let j = choose|j: int| 0 <= j < g.inputs.len() && (#[trigger] g.inputs[j]).0 == v;
        assert(after.inputs[j].0 == v);
    }
}

/// What an output depends on, it still depends on after pruning.
proof fn lemma_reached_after(g: GraphView, v: int)
    requires
        g.nodes.len() <= usize::MAX,
        well_formed(g),
        0 <= v < g.nodes.len(),
        reached(g, v),
    ensures
        reached(pruned(g)->Ok_0, rank(keep_flags(g), v as nat) as int),
    decreases g.nodes.len() - v,
{
    pruning_succeeds(g);
    let after = pruned(g)->Ok_0;
    let keep = keep_flags(g);
    let n = g.nodes.len();
    let rename = renamed(keep);
    let r = rank(keep, v as nat) as int;
    lemma_rank(keep, v as nat, n);
    if listed(g.outputs, v) {
        let k = choose|k: int| 0 <= k < g.outputs.len() && (#[trigger] g.outputs[k]).0 == v;
        assert(after.outputs[k].0 == r);
        assert(listed(after.outputs, r));
    } else {
        let u = choose|u: int|
            v < u < g.nodes.len() && uses(#[trigger] g.nodes[u], v) && reached(g, u);
        lemma_reached_after(g, u);
        lemma_pruned_ops(g.nodes, keep, n);
        assert(keep[u]);
        assert(keep[v]);
        let s = rank(keep, u as nat) as int;
        assert(after.nodes[s] == g.nodes[u].map(rename));
        lemma_map_operands(g.nodes[u], rename);
        let k = choose|k: int|
            0 <= k < g.nodes[u].operands().len() && (#[trigger] g.nodes[u].operands()[k]).0 == v;
        assert(after.nodes[s].operands()[k].0 == r);
        assert(uses(after.nodes[s], r));
        lemma_rank(keep, v as nat, u as nat);
        lemma_rank(keep, u as nat, n);
    }
}

/// With every node kept, ranks are places.
proof fn lemma_all_kept(nodes: Seq<OpView>, keep: Seq<bool>, n: nat)
    requires
        keep.len() == nodes.len(),
        n <= nodes.len() <= usize::MAX,
        ordered(nodes),
        forall|v: int| 0 <= v < keep.len() ==> keep[v],
    ensures
        rank(keep, n) == n,
        pruned_ops(nodes, keep, n) == nodes.take(n as int),
    decreases n,
{
    if n > 0 {
        let m = (n - 1) as nat;
        lemma_all_kept(nodes, keep, m);
        let op = nodes[n - 1];
        let rename = renamed(keep);
        assert forall|k: int| 0 <= k < op.operands().len() implies rename(
            #[trigger] op.operands()[k],
        ) == op.operands()[k] by {
            let o = op.operands()[k];
            assert(nodes[n - 1].operands()[k].0 < n - 1);
            lemma_all_kept(nodes, keep, o.0 as nat);
        }
        let operands = op.operands();
        if operands.len() > 0 {
            assert(rename(operands[0]) == operands[0]);
        }
        if operands.len() > 1 {
            assert(rename(operands[1]) == operands[1]);
        }
        assert(op.map(rename) == op);
        assert(nodes.take(n as int) =~= nodes.take(m as int).push(op));
    } else {
        assert(nodes.take(0) =~= Seq::empty());
    }
}

/// Pruning twice is pruning once.
pub proof fn pruning_is_idempotent(g: GraphView)
    requires
        g.nodes.len() <= usize::MAX,
        well_formed(g),
    ensures
        pruned(g) is Ok,
        pruned(pruned(g)->Ok_0) == pruned(g),
{
    pruning_succeeds(g);
    let after = pruned(g)->Ok_0;
    crate::graph::validation_accepts_exactly_well_formed(after);
    let keep = keep_flags(g);
    let n = g.nodes.len();
    lemma_pruned_ops(g.nodes, keep, n);
    let again = keep_flags(after);
    let ops = pruned_ops(g.nodes, keep, n);
    assert forall|j: int| 0 <= j < again.len() implies again[j] by {
        assert(has_rank(keep, n, j));
        let v = choose|v: int| 0 <= v < n && #[trigger] keep[v] && rank(keep, v as nat) == j;
        if reached(g, v) {
            lemma_reached_after(g, v);
        } else {
            let i = choose|i: int| 0 <= i < g.inputs.len() && (#[trigger] g.inputs[i]).0 == v;
            assert(g.nodes[g.inputs[i].0 as int] is Input);
            assert(ops[j] == g.nodes[v].map(renamed(keep)));
            lemma_inputs_of(ops, ops.len(), j);
            let base = build_from(ops, ops.len())->Ok_0;
            let k = choose|k: int| 0 <= k < base.inputs.len() && (#[trigger] base.inputs[k]).0 == j;
            assert(after.inputs[k].0 == j);
            assert(listed(after.inputs, j));
        }
    }
    lemma_all_kept(after.nodes, again, after.nodes.len());
    assert(after.nodes.take(after.nodes.len() as int) =~= after.nodes);
    let rename = renamed(again);
    assert forall|k: int| 0 <= k < after.outputs.len() implies rename(#[trigger] after.outputs[k])
        == after.outputs[k] by {
        lemma_all_kept(after.nodes, again, after.outputs[k].0 as nat);
    }
    assert(after.outputs.map_values(rename) =~= after.outputs);
}

} // verus!

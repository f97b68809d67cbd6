//! Conversion to expressions and back keeps what a graph computes.
use vstd::prelude::*;

use crate::builder::{
    append_error, appending_keeps_construction, lemma_append_error, under_construction,
};
use crate::domain::Domain;
use crate::egg_graph::{
    copy_node, copy_of, graph_of, made_op, make_all, make_node, next_id, none_made, with_made,
    BuildState,
};
use crate::egg_lang::{
    emit, enode, is_scalar_op, lemma_emit, memo_within, recexpr_of, EggErrorView, EggLang,
    EmitState,
};
use crate::eval::{
    eval_graph, eval_nodes, leaf_error, leaf_errors, map1, map2, matmul_value, node_value, BinaryOp,
    EvalErrorView, UnaryOp,
};
use crate::graph::{consts_fill, ordered, well_formed, GraphView};
use crate::infer::{
    binary_type, infer_graph, infer_nodes, lemma_infer_prefix, matmul_type, node_type, unary_type,
    TypeErrorView,
};
use crate::op::{NodeId, OpView};
use crate::preservation::{graph_values, lemma_mapped_type, lemma_mapped_value};
use crate::safety::{law_holds, Law};
use crate::seqs::{lemma_first_some_all, lemma_first_some_none};
use crate::soundness::lemma_eval_prefix;
use crate::tensor::TensorView;
use crate::tensor_type::TypeView;

verus! {

/// A type and a value.
pub struct Typed<V> {
    pub ty: TypeView,
    pub value: TensorView<V>,
}

/// The result of a unary operation, where it is well-typed.
pub open spec fn typed_unary<D: Domain>(name: Seq<char>, op: UnaryOp, x: Option<Typed<D::V>>) -> Option<
    Typed<D::V>,
> {
    match x {
        None => None,
        Some(x) => match unary_type(name, x.ty) {
            Err(_) => None,
            Ok(ty) => Some(Typed { ty, value: map1::<D>(op, x.value) }),
        },
    }
}

/// The result of a binary operation, where it is well-typed.
pub open spec fn typed_binary<D: Domain>(
    name: Seq<char>,
    op: BinaryOp,
    l: Option<Typed<D::V>>,
    r: Option<Typed<D::V>>,
) -> Option<Typed<D::V>> {
    if l is Some && r is Some {
        match binary_type(name, l->Some_0.ty, r->Some_0.ty) {
            Err(_) => None,
            Ok(ty) => Some(
                Typed { ty, value: map2::<D>(op, l->Some_0.value, r->Some_0.value) },
            ),
        }
    } else {
        None
    }
}

/// The result of a matrix product, where it is well-typed and its size fits.
pub open spec fn typed_matmul<D: Domain>(l: Option<Typed<D::V>>, r: Option<Typed<D::V>>) -> Option<
    Typed<D::V>,
> {
    if l is Some && r is Some {
        match matmul_type(l->Some_0.ty, r->Some_0.ty) {
            Err(_) => None,
            Ok(ty) => match matmul_value::<D>(l->Some_0.value, r->Some_0.value) {
                Err(_) => None,
                Ok(value) => Some(Typed { ty, value }),
            },
        }
    } else {
        None
    }
}

/// What the expression node at `i` computes over atoms with the given types and values.
pub open spec fn expr_result<D: Domain>(
    expr: Seq<EggLang>,
    i: nat,
    atoms: Seq<NodeId>,
    types: Seq<TypeView>,
    values: Seq<TensorView<D::V>>,
) -> Option<Typed<D::V>>
    decreases i,
{
    match expr[i as int] {
        EggLang::Atom(a) => if a < atoms.len() && atoms[a as int].0 < types.len() {
            Some(
                Typed {
                    ty: types[atoms[a as int].0 as int],
                    value: values[atoms[a as int].0 as int],
                },
            )
        } else {
            None
        },
        EggLang::Neg(x) => if x < i {
            typed_unary::<D>(
                "neg"@,
                UnaryOp::Neg,
                expr_result::<D>(expr, x as nat, atoms, types, values),
            )
        } else {
            None
        },
        EggLang::Relu(x) => if x < i {
            typed_unary::<D>(
                "relu"@,
                UnaryOp::Relu,
                expr_result::<D>(expr, x as nat, atoms, types, values),
            )
        } else {
            None
        },
        EggLang::Add(l, r) => if l < i && r < i {
            typed_binary::<D>(
                "add"@,
                BinaryOp::Add,
                expr_result::<D>(expr, l as nat, atoms, types, values),
                expr_result::<D>(expr, r as nat, atoms, types, values),
            )
        } else {
            None
        },
        EggLang::Sub(l, r) => if l < i && r < i {
            typed_binary::<D>(
                "sub"@,
                BinaryOp::Sub,
                expr_result::<D>(expr, l as nat, atoms, types, values),
                expr_result::<D>(expr, r as nat, atoms, types, values),
            )
        } else {
            None
        },
        EggLang::Mul(l, r) => if l < i && r < i {
            typed_binary::<D>(
                "mul"@,
                BinaryOp::Mul,
                expr_result::<D>(expr, l as nat, atoms, types, values),
                expr_result::<D>(expr, r as nat, atoms, types, values),
            )
        } else {
            None
        },
        EggLang::Matmul(l, r) => if l < i && r < i {
            typed_matmul::<D>(
                expr_result::<D>(expr, l as nat, atoms, types, values),
                expr_result::<D>(expr, r as nat, atoms, types, values),
            )
        } else {
            None
        },
    }
}

/// Results within a prefix do not depend on what follows it.
proof fn lemma_result_prefix<D: Domain>(
    a: Seq<EggLang>,
    b: Seq<EggLang>,
    i: nat,
    atoms_a: Seq<NodeId>,
    atoms_b: Seq<NodeId>,
    types: Seq<TypeView>,
    values: Seq<TensorView<D::V>>,
)
    requires
        a.is_prefix_of(b),
        atoms_a.is_prefix_of(atoms_b),
        i < a.len(),
        expr_result::<D>(a, i, atoms_a, types, values) is Some,
    ensures
        expr_result::<D>(b, i, atoms_b, types, values) == expr_result::<D>(
            a,
            i,
            atoms_a,
            types,
            values,
        ),
    decreases i,
{
    assert(a[i as int] == b[i as int]);
    let children = a[i as int].children();
    if children.len() > 0 && children[0] < i {
        if expr_result::<D>(a, children[0] as nat, atoms_a, types, values) is Some {
            lemma_result_prefix::<D>(a, b, children[0] as nat, atoms_a, atoms_b, types, values);
        }
    }
    if children.len() > 1 && children[1] < i {
        if expr_result::<D>(a, children[1] as nat, atoms_a, types, values) is Some {
            lemma_result_prefix::<D>(a, b, children[1] as nat, atoms_a, atoms_b, types, values);
        }
    }
    match a[i as int] {
        EggLang::Atom(x) => {
            assert(atoms_a[x as int] == atoms_b[x as int]);
        },
        _ => {},
    }
}

/// Every remembered node has its own type and value in the expression.
pub open spec fn faithful<D: Domain>(
    st: EmitState,
    types: Seq<TypeView>,
    values: Seq<TensorView<D::V>>,
) -> bool {
    forall|v: int|
        0 <= v < st.memo.len() && (#[trigger] st.memo[v]) is Some ==> expr_result::<D>(
            st.expr,
            st.memo[v]->Some_0 as nat,
            st.atoms,
            types,
            values,
        ) == Some(Typed { ty: types[v], value: values[v] })
}

/// The types and values of a graph, node by node.
pub open spec fn annotated<D: Domain>(
    nodes: Seq<OpView>,
    inputs: Map<Seq<char>, TensorView<D::V>>,
    types: Seq<TypeView>,
    values: Seq<TensorView<D::V>>,
) -> bool {
    &&& ordered(nodes)
    &&& consts_fill(nodes)
    &&& types.len() == nodes.len()
    &&& values.len() == nodes.len()
    &&& forall|i: int|
        0 <= i < nodes.len() ==> node_type(#[trigger] nodes[i], types.take(i)) == Ok::<
            TypeView,
            TypeErrorView,
        >(types[i])
    &&& forall|i: int|
        0 <= i < nodes.len() ==> node_value::<D>(#[trigger] nodes[i], inputs, values.take(i))
            == Ok::<TensorView<D::V>, EvalErrorView>(values[i])
    &&& forall|i: int| 0 <= i < nodes.len() ==> leaf_error(#[trigger] nodes[i], inputs) is None
}

/// An evaluated graph has types and values node by node.
proof fn lemma_annotated<D: Domain>(g: GraphView, inputs: Map<Seq<char>, TensorView<D::V>>)
    requires
        eval_graph::<D>(g, inputs) is Ok,
    ensures
        well_formed(g),
        annotated::<D>(g.nodes, inputs, infer_graph(g)->Ok_0, graph_values::<D>(g, inputs)),
{
    crate::graph::validation_accepts_exactly_well_formed(g);
    lemma_infer_prefix(g.nodes, g.nodes.len());
    lemma_eval_prefix::<D>(g.nodes, inputs, g.nodes.len());
    lemma_first_some_all(leaf_errors(g.nodes, inputs));
    assert forall|i: int| 0 <= i < g.nodes.len() implies leaf_error(
        #[trigger] g.nodes[i],
        inputs,
    ) is None by {
        assert(leaf_errors(g.nodes, inputs)[i] is None);
    }
}

/// One more node with the result of the graph node it stands for.
proof fn lemma_push_faithful<D: Domain>(
    mid: EmitState,
    after: EmitState,
    v: int,
    types: Seq<TypeView>,
    values: Seq<TensorView<D::V>>,
)
    requires
        memo_within(mid),
        faithful::<D>(mid, types, values),
        0 <= v < mid.memo.len(),
        mid.expr.is_prefix_of(after.expr),
        mid.atoms.is_prefix_of(after.atoms),
        after.expr.len() == mid.expr.len() + 1,
        mid.expr.len() <= usize::MAX,
        after.memo == mid.memo.update(v, Some(mid.expr.len() as usize)),
        expr_result::<D>(after.expr, mid.expr.len(), after.atoms, types, values) == Some(
            Typed { ty: types[v], value: values[v] },
        ),
    ensures
        faithful::<D>(after, types, values),
{
    assert forall|u: int| 0 <= u < after.memo.len() && (#[trigger] after.memo[u]) is Some implies
        expr_result::<D>(after.expr, after.memo[u]->Some_0 as nat, after.atoms, types, values)
        == Some(Typed { ty: types[u], value: values[u] }) by {
        if u != v {
            assert(after.memo[u] == mid.memo[u]);
            lemma_result_prefix::<D>(
                mid.expr,
                after.expr,
                mid.memo[u]->Some_0 as nat,
                mid.atoms,
                after.atoms,
                types,
                values,
            );
        }
    }
}

/// The expression node of an operation has the result of the operation.
proof fn lemma_enode_result<D: Domain>(
    op: OpView,
    mid: EmitState,
    v: int,
    inputs: Map<Seq<char>, TensorView<D::V>>,
    types: Seq<TypeView>,
    values: Seq<TensorView<D::V>>,
)
    requires
        is_scalar_op(op),
        memo_within(mid),
        faithful::<D>(mid, types, values),
        0 <= v < types.len(),
        types.len() == values.len(),
        mid.memo.len() == types.len(),
        forall|k: int|
            0 <= k < op.operands().len() ==> (#[trigger] op.operands()[k]).0 < v
                && mid.memo[op.operands()[k].0 as int] is Some,
        node_type(op, types.take(v)) == Ok::<TypeView, TypeErrorView>(types[v]),
        node_value::<D>(op, inputs, values.take(v)) == Ok::<TensorView<D::V>, EvalErrorView>(
            values[v],
        ),
    ensures
        expr_result::<D>(
            mid.expr.push(enode(op, mid)),
            mid.expr.len(),
            mid.atoms,
            types,
            values,
        ) == Some(Typed { ty: types[v], value: values[v] }),
{
    let longer = mid.expr.push(enode(op, mid));
    let operands = op.operands();
    assert(mid.expr.is_prefix_of(longer));
    let a = operands[0];
    assert(a == op.operands()[0]);
    assert(mid.memo[a.0 as int] is Some);
    assert(types.take(v)[a.0 as int] == types[a.0 as int]);
    assert(values.take(v)[a.0 as int] == values[a.0 as int]);
    lemma_result_prefix::<D>(
        mid.expr,
        longer,
        mid.at(a) as nat,
        mid.atoms,
        mid.atoms,
        types,
        values,
    );
    if operands.len() > 1 {
        let b = operands[1];
        assert(b == op.operands()[1]);
        assert(mid.memo[b.0 as int] is Some);
        assert(types.take(v)[b.0 as int] == types[b.0 as int]);
        assert(values.take(v)[b.0 as int] == values[b.0 as int]);
        lemma_result_prefix::<D>(
            mid.expr,
            longer,
            mid.at(b) as nat,
            mid.atoms,
            mid.atoms,
            types,
            values,
        );
    }
    assert(longer[mid.expr.len() as int] == enode(op, mid));
}

/// Emission keeps the expression faithful.
#[verifier::rlimit(60)]
#[verifier::spinoff_prover]
proof fn lemma_emit_faithful<D: Domain>(
    nodes: Seq<OpView>,
    v: nat,
    st: EmitState,
    inputs: Map<Seq<char>, TensorView<D::V>>,
    types: Seq<TypeView>,
    values: Seq<TensorView<D::V>>,
)
    requires
        nodes.len() <= usize::MAX,
        annotated::<D>(nodes, inputs, types, values),
        v < nodes.len(),
        st.memo.len() == nodes.len(),
        memo_within(st),
        faithful::<D>(st, types, values),
        emit(nodes, v, st) is Ok,
        emit(nodes, v, st)->Ok_0.expr.len() <= usize::MAX,
    ensures
        faithful::<D>(emit(nodes, v, st)->Ok_0, types, values),
        st.memo[v as int] is None ==> emit(nodes, v, st)->Ok_0.memo[v as int] == Some(
            (emit(nodes, v, st)->Ok_0.expr.len() - 1) as usize,
        ) && emit(nodes, v, st)->Ok_0.expr.len() > 0,
    decreases v,
{
    let op = nodes[v as int];
    let operands = op.operands();
    let after = emit(nodes, v, st)->Ok_0;
    if st.memo[v as int] is None {
        assert(node_type(op, types.take(v as int)) == Ok::<TypeView, TypeErrorView>(
            types[v as int],
        ));
        assert(node_value::<D>(op, inputs, values.take(v as int)) == Ok::<
            TensorView<D::V>,
            EvalErrorView,
        >(values[v as int]));
        if !is_scalar_op(op) {
            assert(after.expr[st.expr.len() as int] == EggLang::Atom(st.atoms.len() as u32));
            assert(after.atoms[st.atoms.len() as int] == NodeId(v as usize));
            lemma_push_faithful::<D>(st, after, v as int, types, values);
        } else {
            assert(nodes[v as int].operands()[0].0 < v);
            let first = emit(nodes, operands[0].0 as nat, st)->Ok_0;
            if operands.len() == 1 {
                lemma_emit(nodes, operands[0].0 as nat, st);
                lemma_emit_faithful::<D>(nodes, operands[0].0 as nat, st, inputs, types, values);
                lemma_enode_result::<D>(op, first, v as int, inputs, types, values);
                lemma_push_faithful::<D>(first, after, v as int, types, values);
            } else {
                assert(nodes[v as int].operands()[1].0 < v);
                let second = emit(nodes, operands[1].0 as nat, first)->Ok_0;
                lemma_first_bound(nodes, operands[1].0 as nat, first);
                lemma_emit(nodes, operands[0].0 as nat, st);
                lemma_emit_faithful::<D>(nodes, operands[0].0 as nat, st, inputs, types, values);
                lemma_emit(nodes, operands[1].0 as nat, first);
                lemma_emit_faithful::<D>(
                    nodes,
                    operands[1].0 as nat,
                    first,
                    inputs,
                    types,
                    values,
                );
                assert(first.memo[operands[0].0 as int] is Some);
                assert(second.memo[operands[0].0 as int] is Some);
                lemma_enode_result::<D>(op, second, v as int, inputs, types, values);
                lemma_push_faithful::<D>(second, after, v as int, types, values);
            }
        }
    }
}

/// An expression is no longer than what it grows to.
proof fn lemma_first_bound(nodes: Seq<OpView>, v: nat, st: EmitState)
    requires
        emit(nodes, v, st) is Ok,
    ensures
        st.expr.len() <= emit(nodes, v, st)->Ok_0.expr.len(),
    decreases v,
{
    let op = nodes[v as int];
    let operands = op.operands();
    if st.memo[v as int] is None && is_scalar_op(op) && operands[0].0 < v && (operands.len() == 1
        || operands[1].0 < v) {
        lemma_first_bound(nodes, operands[0].0 as nat, st);
        if operands.len() > 1 {
            lemma_first_bound(
                nodes,
                operands[1].0 as nat,
                emit(nodes, operands[0].0 as nat, st)->Ok_0,
            );
        }
    }
}

/// The expression of a graph value computes that value, with its type, at its root.
pub proof fn expressions_denote_their_values<D: Domain>(
    g: GraphView,
    output: NodeId,
    inputs: Map<Seq<char>, TensorView<D::V>>,
)
    requires
        g.nodes.len() <= usize::MAX,
        eval_graph::<D>(g, inputs) is Ok,
        recexpr_of(g, output) is Ok,
        recexpr_of(g, output)->Ok_0.0.len() <= usize::MAX,
    ensures
        ({
            let (expr, atoms) = recexpr_of(g, output)->Ok_0;
            &&& expr.len() > 0
            &&& expr_result::<D>(
                expr,
                (expr.len() - 1) as nat,
                atoms,
                infer_graph(g)->Ok_0,
                graph_values::<D>(g, inputs),
            ) == Some(
                Typed {
                    ty: infer_graph(g)->Ok_0[output.0 as int],
                    value: graph_values::<D>(g, inputs)[output.0 as int],
                },
            )
        }),
{
    lemma_annotated::<D>(g, inputs);
    let st = EmitState::empty(g.nodes.len());
    lemma_emit(g.nodes, output.0 as nat, st);
    lemma_emit_faithful::<D>(
        g.nodes,
        output.0 as nat,
        st,
        inputs,
        infer_graph(g)->Ok_0,
        graph_values::<D>(g, inputs),
    );
    let after = emit(g.nodes, output.0 as nat, st)->Ok_0;
    assert(after.memo[output.0 as int] is Some);
}

/// The types of the nodes of a graph under construction.
pub open spec fn types_of(g: GraphView) -> Seq<TypeView> {
    infer_nodes(g.nodes, g.nodes.len())->Ok_0
}

/// The graph so far is well-typed and evaluates.
pub open spec fn running<D: Domain>(
    g: GraphView,
    inputs: Map<Seq<char>, TensorView<D::V>>,
) -> bool {
    &&& under_construction(g)
    &&& infer_nodes(g.nodes, g.nodes.len()) is Ok
    &&& eval_nodes::<D>(g.nodes, inputs, g.nodes.len()) is Ok
    &&& types_of(g).len() == g.nodes.len()
    &&& graph_values::<D>(g, inputs).len() == g.nodes.len()
    &&& forall|i: int| 0 <= i < g.nodes.len() ==> leaf_error(#[trigger] g.nodes[i], inputs) is None
}

/// The first nodes have the same types and values in a longer sequence.
proof fn lemma_more_nodes<D: Domain>(
    nodes: Seq<OpView>,
    op: OpView,
    inputs: Map<Seq<char>, TensorView<D::V>>,
    n: nat,
)
    requires
        n <= nodes.len(),
    ensures
        infer_nodes(nodes.push(op), n) == infer_nodes(nodes, n),
        eval_nodes::<D>(nodes.push(op), inputs, n) == eval_nodes::<D>(nodes, inputs, n),
    decreases n,
{
    if n > 0 {
        lemma_more_nodes::<D>(nodes, op, inputs, (n - 1) as nat);
        assert(nodes.push(op)[n - 1] == nodes[n - 1]);
    }
}

/// One more node that is well-typed and has a value.
proof fn lemma_running_append<D: Domain>(
    g: GraphView,
    op: OpView,
    inputs: Map<Seq<char>, TensorView<D::V>>,
    ty: TypeView,
    value: TensorView<D::V>,
)
    requires
        running::<D>(g, inputs),
        g.nodes.len() <= usize::MAX,
        append_error(g.nodes.len(), op) is None,
        node_type(op, types_of(g)) == Ok::<TypeView, TypeErrorView>(ty),
        node_value::<D>(op, inputs, graph_values::<D>(g, inputs)) == Ok::<
            TensorView<D::V>,
            EvalErrorView,
        >(value),
        leaf_error(op, inputs) is None,
    ensures
        running::<D>(g.with_node(op), inputs),
        types_of(g.with_node(op)) == types_of(g).push(ty),
        graph_values::<D>(g.with_node(op), inputs) == graph_values::<D>(g, inputs).push(value),
{
    let after = g.with_node(op);
    appending_keeps_construction(g, op);
    lemma_more_nodes::<D>(g.nodes, op, inputs, g.nodes.len());
    assert(after.nodes[g.nodes.len() as int] == op);
    assert forall|i: int| 0 <= i < after.nodes.len() implies leaf_error(
        #[trigger] after.nodes[i],
        inputs,
    ) is None by {
        if i < g.nodes.len() {
            assert(after.nodes[i] == g.nodes[i]);
            assert(leaf_error(g.nodes[i], inputs) is None);
        }
    }
}

/// Copies have the types and values of what they copy.
pub open spec fn copies<D: Domain>(
    g: GraphView,
    copied: Seq<Option<NodeId>>,
    inputs: Map<Seq<char>, TensorView<D::V>>,
    types: Seq<TypeView>,
    values: Seq<TensorView<D::V>>,
) -> bool {
    forall|v: int|
        0 <= v < copied.len() && (#[trigger] copied[v]) is Some ==> copied[v]->Some_0.0
            < g.nodes.len() && types_of(g)[copied[v]->Some_0.0 as int] == types[v] && graph_values::<
            D,
        >(g, inputs)[copied[v]->Some_0.0 as int] == values[v]
}

/// The later graph extends the earlier one.
pub open spec fn extends<D: Domain>(
    g: GraphView,
    after: GraphView,
    inputs: Map<Seq<char>, TensorView<D::V>>,
) -> bool {
    &&& g.nodes.len() <= after.nodes.len()
    &&& forall|i: int|
        0 <= i < g.nodes.len() ==> #[trigger] types_of(after)[i] == types_of(g)[i]
    &&& forall|i: int|
        0 <= i < g.nodes.len() ==> #[trigger] graph_values::<D>(after, inputs)[i] == graph_values::<
            D,
        >(g, inputs)[i]
}

/// Copying only appends.
proof fn lemma_copy_grows(nodes: Seq<OpView>, v: nat, g: GraphView, copied: Seq<Option<NodeId>>)
    ensures
        copy_node(nodes, v, g, copied).0.nodes.len() >= g.nodes.len(),
    decreases v,
{
    let op = nodes[v as int];
    let operands = op.operands();
    if !(copied[v as int] is Some || (operands.len() > 0 && operands[0].0 >= v) || (operands.len()
        > 1 && operands[1].0 >= v)) {
        let (g1, c1) = if operands.len() > 0 {
            copy_node(nodes, operands[0].0 as nat, g, copied)
        } else {
            (g, copied)
        };
        if operands.len() > 0 {
            lemma_copy_grows(nodes, operands[0].0 as nat, g, copied);
        }
        if operands.len() > 1 {
            lemma_copy_grows(nodes, operands[1].0 as nat, g1, c1);
        }
    }
}

/// Copying a node keeps copies faithful and remembers the node.
proof fn lemma_copy<D: Domain>(
    nodes: Seq<OpView>,
    v: nat,
    g: GraphView,
    copied: Seq<Option<NodeId>>,
    inputs: Map<Seq<char>, TensorView<D::V>>,
    types: Seq<TypeView>,
    values: Seq<TensorView<D::V>>,
)
    requires
        annotated::<D>(nodes, inputs, types, values),
        v < nodes.len(),
        copied.len() == nodes.len(),
        running::<D>(g, inputs),
        copies::<D>(g, copied, inputs, types, values),
        copy_node(nodes, v, g, copied).0.nodes.len() <= usize::MAX,
    ensures
        ({
            let (after, c) = copy_node(nodes, v, g, copied);
            &&& running::<D>(after, inputs)
            &&& copies::<D>(after, c, inputs, types, values)
            &&& extends::<D>(g, after, inputs)
            &&& c.len() == nodes.len()
            &&& c[v as int] is Some
            &&& forall|u: int|
                0 <= u < copied.len() && (#[trigger] copied[u]) is Some ==> c[u] == copied[u]
        }),
    decreases v,
{
    let op = nodes[v as int];
    let operands = op.operands();
    if copied[v as int] is None {
        if operands.len() > 0 {
            assert(nodes[v as int].operands()[0].0 < v);
        }
        if operands.len() > 1 {
            assert(nodes[v as int].operands()[1].0 < v);
        }
        let (g1, c1) = if operands.len() > 0 {
            copy_node(nodes, operands[0].0 as nat, g, copied)
        } else {
            (g, copied)
        };
        let (g2, c2) = if operands.len() > 1 {
            copy_node(nodes, operands[1].0 as nat, g1, c1)
        } else {
            (g1, c1)
        };
        if operands.len() > 1 {
            lemma_copy_grows(nodes, operands[1].0 as nat, g1, c1);
        }
        if operands.len() > 0 {
            lemma_copy::<D>(nodes, operands[0].0 as nat, g, copied, inputs, types, values);
        }
        if operands.len() > 1 {
            lemma_copy::<D>(nodes, operands[1].0 as nat, g1, c1, inputs, types, values);
        }
        assert forall|k: int| 0 <= k < operands.len() implies (#[trigger] operands[k]).0 < v
            && c2[operands[k].0 as int] is Some by {
            assert(nodes[v as int].operands()[k].0 < v);
            if k == 0 {
                assert(c1[operands[0].0 as int] is Some);
            }
        }
        lemma_copy_append::<D>(nodes, v, g2, c2, inputs, types, values);
        let (after, c) = copy_node(nodes, v, g, copied);
        assert forall|u: int| 0 <= u < copied.len() && (#[trigger] copied[u]) is Some implies c[u]
            == copied[u] by {
            assert(c1[u] == copied[u]);
            assert(c2[u] == c1[u]);
        }
        lemma_extends::<D>(g, g1, g2, inputs);
        lemma_extends::<D>(g, g2, after, inputs);
    }
}

/// Extension carries over.
proof fn lemma_extends<D: Domain>(
    a: GraphView,
    b: GraphView,
    c: GraphView,
    inputs: Map<Seq<char>, TensorView<D::V>>,
)
    requires
        extends::<D>(a, b, inputs),
        extends::<D>(b, c, inputs),
    ensures
        extends::<D>(a, c, inputs),
{
    assert forall|i: int| 0 <= i < a.nodes.len() implies #[trigger] types_of(c)[i] == types_of(
        a,
    )[i] by {
        assert(types_of(b)[i] == types_of(a)[i]);
    }
    assert forall|i: int| 0 <= i < a.nodes.len() implies #[trigger] graph_values::<D>(
        c,
        inputs,
    )[i] == graph_values::<D>(a, inputs)[i] by {
        assert(graph_values::<D>(b, inputs)[i] == graph_values::<D>(a, inputs)[i]);
    }
}

/// One more copy, over copied operands.
proof fn lemma_copy_append<D: Domain>(
    nodes: Seq<OpView>,
    v: nat,
    g: GraphView,
    copied: Seq<Option<NodeId>>,
    inputs: Map<Seq<char>, TensorView<D::V>>,
    types: Seq<TypeView>,
    values: Seq<TensorView<D::V>>,
)
    requires
        annotated::<D>(nodes, inputs, types, values),
        v < nodes.len(),
        copied.len() == nodes.len(),
        running::<D>(g, inputs),
        copies::<D>(g, copied, inputs, types, values),
        g.nodes.len() < usize::MAX,
        forall|k: int|
            0 <= k < nodes[v as int].operands().len() ==> (
            #[trigger] nodes[v as int].operands()[k]).0 < v
                && copied[nodes[v as int].operands()[k].0 as int] is Some,
    ensures
        ({
            let after = g.with_node(nodes[v as int].map(copy_of(copied)));
            let c = copied.update(v as int, Some(next_id(g)));
            &&& running::<D>(after, inputs)
            &&& copies::<D>(after, c, inputs, types, values)
            &&& extends::<D>(g, after, inputs)
        }),
{
    let op = nodes[v as int];
    let f = copy_of(copied);
    let moved = op.map(f);
    assert forall|k: int| 0 <= k < op.operands().len() implies (#[trigger] op.operands()[k]).0
        < types.take(v as int).len() && f(op.operands()[k]).0 < types_of(g).len() && types_of(
        g,
    )[f(op.operands()[k]).0 as int] == types.take(v as int)[op.operands()[k].0 as int] by {
        assert(copied[op.operands()[k].0 as int] is Some);
    }
    assert forall|k: int| 0 <= k < op.operands().len() implies graph_values::<D>(g, inputs)[f(
        #[trigger] op.operands()[k],
    ).0 as int] == values.take(v as int)[op.operands()[k].0 as int] by {
        assert(copied[op.operands()[k].0 as int] is Some);
    }
    lemma_mapped_type(op, f, types.take(v as int), types_of(g));
    lemma_mapped_value::<D>(op, f, inputs, values.take(v as int), graph_values::<D>(g, inputs));
    assert(node_type(op, types.take(v as int)) == Ok::<TypeView, TypeErrorView>(types[v as int]));
    assert(leaf_error(op, inputs) is None);
    crate::surgery::lemma_map_operands(op, f);
    assert forall|k: int| 0 <= k < moved.operands().len() implies (
    #[trigger] moved.operands()[k]).0 < g.nodes.len() by {
        assert(copied[op.operands()[k].0 as int] is Some);
    }
    if let OpView::Const { data, shape } = op {
        crate::shape::lemma_numel_fits_prefix(shape, 0);
    }
    lemma_append_error(g.nodes.len(), moved);
    lemma_running_append::<D>(g, moved, inputs, types[v as int], values[v as int]);
    let after = g.with_node(moved);
    let c = copied.update(v as int, Some(next_id(g)));
    assert forall|u: int| 0 <= u < c.len() && (#[trigger] c[u]) is Some implies c[u]->Some_0.0
        < after.nodes.len() && types_of(after)[c[u]->Some_0.0 as int] == types[u] && graph_values::<
        D,
    >(after, inputs)[c[u]->Some_0.0 as int] == values[u] by {
        if u != v {
            assert(c[u] == copied[u]);
        }
    }
}

/// What is made has the results of the expression.
pub open spec fn makes<D: Domain>(
    expr: Seq<EggLang>,
    atoms: Seq<NodeId>,
    st: BuildState,
    inputs: Map<Seq<char>, TensorView<D::V>>,
    types: Seq<TypeView>,
    values: Seq<TensorView<D::V>>,
) -> bool {
    forall|i: int|
        0 <= i < st.made.len() && (#[trigger] st.made[i]) is Some ==> st.made[i]->Some_0.0
            < st.g.nodes.len() && expr_result::<D>(expr, i as nat, atoms, types, values) == Some(
            Typed {
                ty: types_of(st.g)[st.made[i]->Some_0.0 as int],
                value: graph_values::<D>(st.g, inputs)[st.made[i]->Some_0.0 as int],
            },
        )
}

/// Making only appends.
proof fn lemma_make_grows(
    expr: Seq<EggLang>,
    atoms: Seq<NodeId>,
    nodes: Seq<OpView>,
    i: nat,
    st: BuildState,
)
    requires
        make_node(expr, atoms, nodes, i, st) is Ok,
    ensures
        make_node(expr, atoms, nodes, i, st)->Ok_0.g.nodes.len() >= st.g.nodes.len(),
    decreases i,
{
    let node = expr[i as int];
    let children = node.children();
    if st.made[i as int] is None {
        match node {
            EggLang::Atom(a) => {
                lemma_copy_grows(nodes, atoms[a as int].0 as nat, st.g, st.copied);
            },
            _ => {
                if !(children[0] >= i || (children.len() > 1 && children[1] >= i)) {
                    lemma_make_grows(expr, atoms, nodes, children[0] as nat, st);
                    if children.len() > 1 {
                        lemma_make_grows(
                            expr,
                            atoms,
                            nodes,
                            children[1] as nat,
                            make_node(expr, atoms, nodes, children[0] as nat, st)->Ok_0,
                        );
                    }
                }
            },
        }
    }
}

/// Operands of an expression node with a result have results.
proof fn lemma_children_results<D: Domain>(
    expr: Seq<EggLang>,
    i: nat,
    atoms: Seq<NodeId>,
    types: Seq<TypeView>,
    values: Seq<TensorView<D::V>>,
)
    requires
        expr_result::<D>(expr, i, atoms, types, values) is Some,
    ensures
        forall|k: int|
            0 <= k < expr[i as int].children().len() ==> (#[trigger] expr[i as int].children()[k])
                < i && expr_result::<D>(
                expr,
                expr[i as int].children()[k] as nat,
                atoms,
                types,
                values,
            ) is Some,
{
}

/// An expression node with a result can be made.
proof fn lemma_make_ok<D: Domain>(
    expr: Seq<EggLang>,
    atoms: Seq<NodeId>,
    nodes: Seq<OpView>,
    i: nat,
    st: BuildState,
    types: Seq<TypeView>,
    values: Seq<TensorView<D::V>>,
)
    requires
        types.len() == nodes.len(),
        expr_result::<D>(expr, i, atoms, types, values) is Some,
    ensures
        make_node(expr, atoms, nodes, i, st) is Ok,
    decreases i,
{
    let node = expr[i as int];
    let children = node.children();
    lemma_children_results::<D>(expr, i, atoms, types, values);
    if st.made[i as int] is None && children.len() > 0 {
        let x = expr[i as int].children()[0] as nat;
        lemma_make_ok::<D>(expr, atoms, nodes, x, st, types, values);
        if children.len() > 1 {
            let y = expr[i as int].children()[1] as nat;
            lemma_make_ok::<D>(
                expr,
                atoms,
                nodes,
                y,
                make_node(expr, atoms, nodes, x, st)->Ok_0,
                types,
                values,
            );
        }
    }
}

/// What holds while the nodes of an expression are made.
pub open spec fn making<D: Domain>(
    expr: Seq<EggLang>,
    atoms: Seq<NodeId>,
    nodes: Seq<OpView>,
    st: BuildState,
    inputs: Map<Seq<char>, TensorView<D::V>>,
    types: Seq<TypeView>,
    values: Seq<TensorView<D::V>>,
) -> bool {
    &&& st.made.len() == expr.len()
    &&& st.copied.len() == nodes.len()
    &&& running::<D>(st.g, inputs)
    &&& copies::<D>(st.g, st.copied, inputs, types, values)
    &&& makes::<D>(expr, atoms, st, inputs, types, values)
}

/// Later states remember what earlier ones made.
pub open spec fn remembers(st: BuildState, after: BuildState) -> bool {
    forall|j: int|
        0 <= j < st.made.len() && (#[trigger] st.made[j]) is Some ==> after.made[j] == st.made[j]
}

/// One more operation over made operands.
proof fn lemma_made<D: Domain>(
    expr: Seq<EggLang>,
    atoms: Seq<NodeId>,
    nodes: Seq<OpView>,
    i: nat,
    st: BuildState,
    inputs: Map<Seq<char>, TensorView<D::V>>,
    types: Seq<TypeView>,
    values: Seq<TensorView<D::V>>,
)
    requires
        i < expr.len(),
        !(expr[i as int] is Atom),
        st.made[i as int] is None,
        making::<D>(expr, atoms, nodes, st, inputs, types, values),
        expr_result::<D>(expr, i, atoms, types, values) is Some,
        forall|k: int|
            0 <= k < expr[i as int].children().len() ==> st.made[(
            #[trigger] expr[i as int].children()[k]) as int] is Some && expr[i as int].children()[k]
                < expr.len(),
        st.g.nodes.len() < usize::MAX,
    ensures
        making::<D>(
            expr,
            atoms,
            nodes,
            with_made(st, i as int, expr[i as int]),
            inputs,
            types,
            values,
        ),
        extends::<D>(st.g, with_made(st, i as int, expr[i as int]).g, inputs),
        remembers(st, with_made(st, i as int, expr[i as int])),
{
    let node = expr[i as int];
    let after = with_made(st, i as int, node);
    let op = made_op(node, st.made);
    let result = expr_result::<D>(expr, i, atoms, types, values)->Some_0;
    let children = node.children();
    assert(st.made[expr[i as int].children()[0] as int] is Some);
    if children.len() > 1 {
        assert(st.made[expr[i as int].children()[1] as int] is Some);
    }
    assert(node_type(op, types_of(st.g)) == Ok::<TypeView, TypeErrorView>(result.ty));
    assert(node_value::<D>(op, inputs, graph_values::<D>(st.g, inputs)) == Ok::<
        TensorView<D::V>,
        EvalErrorView,
    >(result.value));
    assert forall|k: int| 0 <= k < op.operands().len() implies (#[trigger] op.operands()[k]).0
        < st.g.nodes.len() by {
        assert(st.made[expr[i as int].children()[k] as int] is Some);
    }
    lemma_append_error(st.g.nodes.len(), op);
    lemma_running_append::<D>(st.g, op, inputs, result.ty, result.value);
    assert forall|j: int| 0 <= j < after.made.len() && (#[trigger] after.made[j]) is Some implies
        after.made[j]->Some_0.0 < after.g.nodes.len() && expr_result::<D>(
        expr,
        j as nat,
        atoms,
        types,
        values,
    ) == Some(
        Typed {
            ty: types_of(after.g)[after.made[j]->Some_0.0 as int],
            value: graph_values::<D>(after.g, inputs)[after.made[j]->Some_0.0 as int],
        },
    ) by {
        if j != i {
            assert(after.made[j] == st.made[j]);
        }
    }
    assert forall|v: int| 0 <= v < after.copied.len() && (#[trigger] after.copied[v]) is Some implies
        after.copied[v]->Some_0.0 < after.g.nodes.len() && types_of(
        after.g,
    )[after.copied[v]->Some_0.0 as int] == types[v] && graph_values::<D>(
        after.g,
        inputs,
    )[after.copied[v]->Some_0.0 as int] == values[v] by {
        assert(st.copied[v] is Some);
    }
}

/// An expression node with a result is made with that result.
proof fn lemma_make<D: Domain>(
    expr: Seq<EggLang>,
    atoms: Seq<NodeId>,
    nodes: Seq<OpView>,
    i: nat,
    st: BuildState,
    inputs: Map<Seq<char>, TensorView<D::V>>,
    types: Seq<TypeView>,
    values: Seq<TensorView<D::V>>,
)
    requires
        i < expr.len(),
        annotated::<D>(nodes, inputs, types, values),
        making::<D>(expr, atoms, nodes, st, inputs, types, values),
        expr_result::<D>(expr, i, atoms, types, values) is Some,
        make_node(expr, atoms, nodes, i, st) is Ok,
        make_node(expr, atoms, nodes, i, st)->Ok_0.g.nodes.len() <= usize::MAX,
    ensures
        ({
            let after = make_node(expr, atoms, nodes, i, st)->Ok_0;
            &&& making::<D>(expr, atoms, nodes, after, inputs, types, values)
            &&& after.made[i as int] is Some
            &&& extends::<D>(st.g, after.g, inputs)
            &&& remembers(st, after)
        }),
    decreases i,
{
    let node = expr[i as int];
    let children = node.children();
    lemma_children_results::<D>(expr, i, atoms, types, values);
    if st.made[i as int] is None {
        match node {
            EggLang::Atom(a) => {
                let v = atoms[a as int].0 as nat;
                lemma_copy::<D>(nodes, v, st.g, st.copied, inputs, types, values);
                let after = make_node(expr, atoms, nodes, i, st)->Ok_0;
                assert(after.copied[v as int] is Some);
                assert forall|j: int|
                    0 <= j < after.made.len() && (#[trigger] after.made[j]) is Some implies
                    after.made[j]->Some_0.0 < after.g.nodes.len() && expr_result::<D>(
                    expr,
                    j as nat,
                    atoms,
                    types,
                    values,
                ) == Some(
                    Typed {
                        ty: types_of(after.g)[after.made[j]->Some_0.0 as int],
                        value: graph_values::<D>(after.g, inputs)[after.made[j]->Some_0.0 as int],
                    },
                ) by {
                    if j != i {
                        assert(after.made[j] == st.made[j]);
                    }
                }
            },
            _ => {
                let x = expr[i as int].children()[0] as nat;
                assert(x < i);
                let first = make_node(expr, atoms, nodes, x, st)->Ok_0;
                if children.len() > 1 {
                    let y = expr[i as int].children()[1] as nat;
                    assert(y < i);
                    let second = make_node(expr, atoms, nodes, y, first)->Ok_0;
                    assert(second.g.nodes.len() < usize::MAX);
                    lemma_make_grows(expr, atoms, nodes, y, first);
                    lemma_make::<D>(expr, atoms, nodes, x, st, inputs, types, values);
                    lemma_make::<D>(expr, atoms, nodes, y, first, inputs, types, values);
                    assert(first.made[x as int] is Some);
                    lemma_unmade(expr, atoms, nodes, x, st, i as int);
                    lemma_unmade(expr, atoms, nodes, y, first, i as int);
                    lemma_made::<D>(expr, atoms, nodes, i, second, inputs, types, values);
                    assert(remembers(st, with_made(second, i as int, node))) by {
                        assert forall|j: int|
                            0 <= j < st.made.len() && (#[trigger] st.made[j]) is Some implies
                            with_made(second, i as int, node).made[j] == st.made[j] by {
                            assert(first.made[j] == st.made[j]);
                            assert(second.made[j] == st.made[j]);
                        }
                    }
                } else {
                    assert(first.g.nodes.len() < usize::MAX);
                    lemma_make::<D>(expr, atoms, nodes, x, st, inputs, types, values);
                    lemma_unmade(expr, atoms, nodes, x, st, i as int);
                    lemma_made::<D>(expr, atoms, nodes, i, first, inputs, types, values);
                    assert(remembers(st, with_made(first, i as int, node))) by {
                        assert forall|j: int|
                            0 <= j < st.made.len() && (#[trigger] st.made[j]) is Some implies
                            with_made(first, i as int, node).made[j] == st.made[j] by {
                            assert(first.made[j] == st.made[j]);
                        }
                    }
                }
            },
        }
    }
}

/// Making a node leaves later places alone.
proof fn lemma_unmade(
    expr: Seq<EggLang>,
    atoms: Seq<NodeId>,
    nodes: Seq<OpView>,
    i: nat,
    st: BuildState,
    j: int,
)
    requires
        make_node(expr, atoms, nodes, i, st) is Ok,
        i < j < st.made.len(),
    ensures
        make_node(expr, atoms, nodes, i, st)->Ok_0.made.len() == st.made.len(),
        make_node(expr, atoms, nodes, i, st)->Ok_0.made[j] == st.made[j],
    decreases i,
{
    let node = expr[i as int];
    let children = node.children();
    if st.made[i as int] is None && !(node is Atom) && !(children[0] >= i || (children.len() > 1
        && children[1] >= i)) {
        let first = make_node(expr, atoms, nodes, children[0] as nat, st)->Ok_0;
        lemma_unmade(expr, atoms, nodes, children[0] as nat, st, j);
        if children.len() > 1 {
            lemma_unmade(expr, atoms, nodes, children[1] as nat, first, j);
        }
    }
}

/// The result at the root of an expression.
pub open spec fn root_result<D: Domain>(
    pair: (Seq<EggLang>, Seq<NodeId>),
    types: Seq<TypeView>,
    values: Seq<TensorView<D::V>>,
) -> Option<Typed<D::V>> {
    if pair.0.len() == 0 {
        None
    } else {
        expr_result::<D>(pair.0, (pair.0.len() - 1) as nat, pair.1, types, values)
    }
}

/// Expressions whose roots have results can be made.
proof fn lemma_make_all_ok<D: Domain>(
    exprs: Seq<(Seq<EggLang>, Seq<NodeId>)>,
    nodes: Seq<OpView>,
    n: nat,
    types: Seq<TypeView>,
    values: Seq<TensorView<D::V>>,
)
    requires
        n <= exprs.len(),
        types.len() == nodes.len(),
        forall|k: int|
            0 <= k < exprs.len() ==> root_result::<D>(#[trigger] exprs[k], types, values) is Some,
    ensures
        make_all(exprs, nodes, n) is Ok,
    decreases n,
{
    if n > 0 {
        lemma_make_all_ok::<D>(exprs, nodes, (n - 1) as nat, types, values);
        let (g, copied, roots) = make_all(exprs, nodes, (n - 1) as nat)->Ok_0;
        let (expr, atoms) = exprs[n - 1];
        assert(root_result::<D>(exprs[n - 1], types, values) is Some);
        lemma_make_ok::<D>(
            expr,
            atoms,
            nodes,
            (expr.len() - 1) as nat,
            BuildState { g, copied, made: none_made(expr.len()) },
            types,
            values,
        );
    }
}

/// The roots made so far have the results of their expressions.
proof fn lemma_make_all<D: Domain>(
    exprs: Seq<(Seq<EggLang>, Seq<NodeId>)>,
    nodes: Seq<OpView>,
    n: nat,
    inputs: Map<Seq<char>, TensorView<D::V>>,
    types: Seq<TypeView>,
    values: Seq<TensorView<D::V>>,
)
    requires
        n <= exprs.len(),
        annotated::<D>(nodes, inputs, types, values),
        forall|k: int|
            0 <= k < exprs.len() ==> root_result::<D>(#[trigger] exprs[k], types, values) is Some,
        make_all(exprs, nodes, n) is Ok,
        make_all(exprs, nodes, n)->Ok_0.0.nodes.len() <= usize::MAX,
    ensures
        ({
            let (g, copied, roots) = make_all(exprs, nodes, n)->Ok_0;
            &&& running::<D>(g, inputs)
            &&& copied.len() == nodes.len()
            &&& copies::<D>(g, copied, inputs, types, values)
            &&& roots.len() == n
            &&& forall|k: int|
                0 <= k < n ==> (#[trigger] roots[k]).0 < g.nodes.len() && root_result::<D>(
                    exprs[k],
                    types,
                    values,
                ) == Some(
                    Typed {
                        ty: types_of(g)[roots[k].0 as int],
                        value: graph_values::<D>(g, inputs)[roots[k].0 as int],
                    },
                )
        }),
    decreases n,
{
    if n > 0 {
        let (g0, copied0, roots0) = make_all(exprs, nodes, (n - 1) as nat)->Ok_0;
        let (g, copied, roots) = make_all(exprs, nodes, n)->Ok_0;
        let (expr, atoms) = exprs[n - 1];
        let root = (expr.len() - 1) as nat;
        let st = BuildState { g: g0, copied: copied0, made: none_made(expr.len()) };
        assert(root_result::<D>(exprs[n - 1], types, values) is Some);
        lemma_make_grows(expr, atoms, nodes, root, st);
        lemma_make_all::<D>(exprs, nodes, (n - 1) as nat, inputs, types, values);
        lemma_make::<D>(expr, atoms, nodes, root, st, inputs, types, values);
        let after = make_node(expr, atoms, nodes, root, st)->Ok_0;
        assert forall|k: int| 0 <= k < n implies (#[trigger] roots[k]).0 < g.nodes.len()
            && root_result::<D>(exprs[k], types, values) == Some(
            Typed {
                ty: types_of(g)[roots[k].0 as int],
                value: graph_values::<D>(g, inputs)[roots[k].0 as int],
            },
        ) by {
            if k < n - 1 {
                assert(roots[k] == roots0[k]);
            } else {
                assert(after.made[root as int] is Some);
            }
        }
    }
}

/// Expressions whose roots have results over an evaluated graph convert back to a graph that
/// evaluates to those results.
pub proof fn back_conversion_preserves_results<D: Domain>(
    exprs: Seq<(Seq<EggLang>, Seq<NodeId>)>,
    original: GraphView,
    inputs: Map<Seq<char>, TensorView<D::V>>,
)
    requires
        exprs.len() > 0,
        original.nodes.len() <= usize::MAX,
        eval_graph::<D>(original, inputs) is Ok,
        forall|k: int|
            0 <= k < exprs.len() ==> root_result::<D>(
                #[trigger] exprs[k],
                infer_graph(original)->Ok_0,
                graph_values::<D>(original, inputs),
            ) is Some,
        make_all(exprs, original.nodes, exprs.len()) is Ok ==> make_all(
            exprs,
            original.nodes,
            exprs.len(),
        )->Ok_0.0.nodes.len() <= usize::MAX,
    ensures
        graph_of(exprs, original) is Ok,
        eval_graph::<D>(graph_of(exprs, original)->Ok_0, inputs) is Ok,
        eval_graph::<D>(graph_of(exprs, original)->Ok_0, inputs)->Ok_0.len() == exprs.len(),
        forall|k: int|
            0 <= k < exprs.len() ==> (#[trigger] eval_graph::<D>(
                graph_of(exprs, original)->Ok_0,
                inputs,
            )->Ok_0[k]) == root_result::<D>(
                exprs[k],
                infer_graph(original)->Ok_0,
                graph_values::<D>(original, inputs),
            )->Some_0.value,
{
    let nodes = original.nodes;
    let types = infer_graph(original)->Ok_0;
    let values = graph_values::<D>(original, inputs);
    lemma_annotated::<D>(original, inputs);
    crate::graph::validation_accepts_exactly_well_formed(original);
    lemma_make_all_ok::<D>(exprs, nodes, exprs.len(), types, values);
    lemma_make_all::<D>(exprs, nodes, exprs.len(), inputs, types, values);
    let (g, copied, roots) = make_all(exprs, nodes, exprs.len())->Ok_0;
    let whole = GraphView { outputs: roots, ..g };
    assert(well_formed(whole)) by {
        assert forall|k: int| 0 <= k < whole.outputs.len() implies (#[trigger] whole.outputs[k]).0
            < whole.nodes.len() by {
            assert(roots[k].0 < g.nodes.len());
        }
    }
    crate::graph::validation_accepts_exactly_well_formed(whole);
    assert(infer_graph(whole) == Ok::<Seq<TypeView>, TypeErrorView>(types_of(g)));
    assert forall|i: int| 0 <= i < whole.nodes.len() implies (
    #[trigger] leaf_errors(whole.nodes, inputs)[i]) is None by {
        assert(leaf_error(g.nodes[i], inputs) is None);
    }
    lemma_first_some_none(leaf_errors(whole.nodes, inputs));
    let outs = eval_graph::<D>(whole, inputs)->Ok_0;
    assert forall|k: int| 0 <= k < exprs.len() implies (#[trigger] outs[k]) == root_result::<D>(
        exprs[k],
        types,
        values,
    )->Some_0.value by {
        assert(roots[k].0 < g.nodes.len());
        assert(outs[k] == graph_values::<D>(g, inputs)[roots[k].0 as int]);
    }
}

/// Converting every output of a graph to an expression and back gives a graph that computes the
/// same outputs.
pub proof fn round_trip_preserves_evaluation<D: Domain>(
    g: GraphView,
    exprs: Seq<(Seq<EggLang>, Seq<NodeId>)>,
    inputs: Map<Seq<char>, TensorView<D::V>>,
)
    requires
        g.nodes.len() <= usize::MAX,
        eval_graph::<D>(g, inputs) is Ok,
        exprs.len() == g.outputs.len(),
        forall|k: int|
            0 <= k < exprs.len() ==> recexpr_of(g, #[trigger] g.outputs[k]) == Ok::<
                (Seq<EggLang>, Seq<NodeId>),
                EggErrorView,
            >(exprs[k]) && exprs[k].0.len() <= usize::MAX,
        make_all(exprs, g.nodes, exprs.len()) is Ok ==> make_all(
            exprs,
            g.nodes,
            exprs.len(),
        )->Ok_0.0.nodes.len() <= usize::MAX,
    ensures
        graph_of(exprs, g) is Ok,
        eval_graph::<D>(graph_of(exprs, g)->Ok_0, inputs) == eval_graph::<D>(g, inputs),
{
    let types = infer_graph(g)->Ok_0;
    let values = graph_values::<D>(g, inputs);
    lemma_annotated::<D>(g, inputs);
    assert forall|k: int| 0 <= k < exprs.len() implies root_result::<D>(
        #[trigger] exprs[k],
        types,
        values,
    ) == Some(
        Typed {
            ty: types[g.outputs[k].0 as int],
            value: values[g.outputs[k].0 as int],
        },
    ) by {
        assert(recexpr_of(g, g.outputs[k]) is Ok);
        expressions_denote_their_values::<D>(g, g.outputs[k], inputs);
    }
    back_conversion_preserves_results::<D>(exprs, g, inputs);
    let outs = eval_graph::<D>(graph_of(exprs, g)->Ok_0, inputs)->Ok_0;
    let want = eval_graph::<D>(g, inputs)->Ok_0;
    assert forall|k: int| 0 <= k < outs.len() implies #[trigger] outs[k] == want[k] by {
        assert(root_result::<D>(exprs[k], types, values) is Some);
        assert(want[k] == values[g.outputs[k].0 as int]);
    }
    assert(outs =~= want);
}

/// Where addition commutes, so does the result of an addition.
pub proof fn add_comm_preserves_results<D: Domain>(
    a: Option<Typed<D::V>>,
    b: Option<Typed<D::V>>,
)
    requires
        law_holds::<D>(Law::FloatAddComm),
        typed_binary::<D>("add"@, BinaryOp::Add, a, b) is Some,
        a->Some_0.value.data.len() == b->Some_0.value.data.len(),
        a->Some_0.value.shape == b->Some_0.value.shape,
    ensures
        typed_binary::<D>("add"@, BinaryOp::Add, b, a) == typed_binary::<D>(
            "add"@,
            BinaryOp::Add,
            a,
            b,
        ),
{
    let l = typed_binary::<D>("add"@, BinaryOp::Add, a, b)->Some_0.value;
    let r = typed_binary::<D>("add"@, BinaryOp::Add, b, a)->Some_0.value;
    assert(l.data =~= r.data);
}

/// Where multiplication commutes, so does the result of a multiplication.
pub proof fn mul_comm_preserves_results<D: Domain>(
    a: Option<Typed<D::V>>,
    b: Option<Typed<D::V>>,
)
    requires
        law_holds::<D>(Law::FloatMulComm),
        typed_binary::<D>("mul"@, BinaryOp::Mul, a, b) is Some,
        a->Some_0.value.data.len() == b->Some_0.value.data.len(),
        a->Some_0.value.shape == b->Some_0.value.shape,
    ensures
        typed_binary::<D>("mul"@, BinaryOp::Mul, b, a) == typed_binary::<D>(
            "mul"@,
            BinaryOp::Mul,
            a,
            b,
        ),
{
    let l = typed_binary::<D>("mul"@, BinaryOp::Mul, a, b)->Some_0.value;
    let r = typed_binary::<D>("mul"@, BinaryOp::Mul, b, a)->Some_0.value;
    assert(l.data =~= r.data);
}

/// Where negation is an involution, so is it on results.
pub proof fn neg_neg_preserves_results<D: Domain>(x: Option<Typed<D::V>>)
    requires
        law_holds::<D>(Law::NegInvolutive),
        x is Some,
        x->Some_0.ty.dtype.numeric(),
    ensures
        typed_unary::<D>(
            "neg"@,
            UnaryOp::Neg,
            typed_unary::<D>("neg"@, UnaryOp::Neg, x),
        ) == x,
{
    let r = typed_unary::<D>("neg"@, UnaryOp::Neg, typed_unary::<D>("neg"@, UnaryOp::Neg, x));
    assert(r->Some_0.value.data =~= x->Some_0.value.data);
}

/// Where the rectifier is idempotent, so is it on results.
pub proof fn relu_relu_preserves_results<D: Domain>(x: Option<Typed<D::V>>)
    requires
        law_holds::<D>(Law::ReluIdempotent),
    ensures
        typed_unary::<D>(
            "relu"@,
            UnaryOp::Relu,
            typed_unary::<D>("relu"@, UnaryOp::Relu, x),
        ) == typed_unary::<D>("relu"@, UnaryOp::Relu, x),
{
    let once = typed_unary::<D>("relu"@, UnaryOp::Relu, x);
    let twice = typed_unary::<D>("relu"@, UnaryOp::Relu, once);
    if once is Some {
        assert(twice->Some_0.value.data =~= once->Some_0.value.data);
    }
}

/// Where addition associates, so does it on results.
pub proof fn add_assoc_preserves_results<D: Domain>(
    a: Option<Typed<D::V>>,
    b: Option<Typed<D::V>>,
    c: Option<Typed<D::V>>,
)
    requires
        law_holds::<D>(Law::FloatAddAssoc),
        typed_binary::<D>(
            "add"@,
            BinaryOp::Add,
            typed_binary::<D>("add"@, BinaryOp::Add, a, b),
            c,
        ) is Some,
        a->Some_0.value.data.len() == b->Some_0.value.data.len(),
        b->Some_0.value.data.len() == c->Some_0.value.data.len(),
        b->Some_0.value.shape == a->Some_0.value.shape,
    ensures
        typed_binary::<D>(
            "add"@,
            BinaryOp::Add,
            a,
            typed_binary::<D>("add"@, BinaryOp::Add, b, c),
        ) == typed_binary::<D>(
            "add"@,
            BinaryOp::Add,
            typed_binary::<D>("add"@, BinaryOp::Add, a, b),
            c,
        ),
{
    let l = typed_binary::<D>(
        "add"@,
        BinaryOp::Add,
        typed_binary::<D>("add"@, BinaryOp::Add, a, b),
        c,
    )->Some_0.value;
    let r = typed_binary::<D>(
        "add"@,
        BinaryOp::Add,
        a,
        typed_binary::<D>("add"@, BinaryOp::Add, b, c),
    )->Some_0.value;
    assert(l.data =~= r.data);
}

} // verus!

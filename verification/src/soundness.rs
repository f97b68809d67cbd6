//! Well-typed graphs evaluate to tensors of their inferred types.
use vstd::prelude::*;

use crate::domain::Domain;
use crate::eval::{
    eval_graph, eval_nodes, leaf_error, leaf_errors, lemma_eval_error, node_value, overflow,
    EvalErrorView,
};
use crate::graph::{consts_fill, ordered, GraphView};
use crate::infer::{infer_graph, infer_nodes, lemma_infer_prefix, node_type, TypeErrorView};
use crate::op::OpView;
use crate::seqs::{first_some, lemma_first_some_all};
use crate::shape::{numel, numel_fits};
use crate::tensor::{lifted, TensorView};
use crate::tensor_type::TypeView;

verus! {

/// Every bound tensor fills its shape.
pub open spec fn inputs_filled<V>(inputs: Map<Seq<char>, TensorView<V>>) -> bool {
    forall|name: Seq<char>| inputs.dom().contains(name) ==> (#[trigger] inputs[name]).filled()
}

/// Every element count fits.
pub open spec fn counts_fit(types: Seq<TypeView>) -> bool {
    forall|i: int| 0 <= i < types.len() ==> numel_fits((#[trigger] types[i]).shape)
}

/// The values of the nodes, one by one.
pub proof fn lemma_eval_prefix<D: Domain>(
    nodes: Seq<OpView>,
    inputs: Map<Seq<char>, TensorView<D::V>>,
    n: nat,
)
    requires
        eval_nodes::<D>(nodes, inputs, n) is Ok,
    ensures
        eval_nodes::<D>(nodes, inputs, n)->Ok_0.len() == n,
        forall|i: int|
            0 <= i < n ==> node_value::<D>(
                #[trigger] nodes[i],
                inputs,
                eval_nodes::<D>(nodes, inputs, n)->Ok_0.take(i),
            ) == Ok::<TensorView<D::V>, EvalErrorView>(
                eval_nodes::<D>(nodes, inputs, n)->Ok_0[i],
            ),
    decreases n,
{
    let values = eval_nodes::<D>(nodes, inputs, n)->Ok_0;
    if n > 0 {
        let m = (n - 1) as nat;
        if eval_nodes::<D>(nodes, inputs, m) is Err {
            lemma_eval_error::<D>(nodes, inputs, m, n);
        }
        lemma_eval_prefix::<D>(nodes, inputs, m);
        let shorter = eval_nodes::<D>(nodes, inputs, m)->Ok_0;
        assert(values.take(m as int) =~= shorter);
        assert forall|i: int| 0 <= i < n implies node_value::<D>(
            #[trigger] nodes[i],
            inputs,
            values.take(i),
        ) == Ok::<TensorView<D::V>, EvalErrorView>(values[i]) by {
            if i < m {
                assert(values.take(i) =~= shorter.take(i));
            }
        }
    }
}

/// A node over typed values has a value of its own type, or its element count overflows.
pub proof fn lemma_node_typed<D: Domain>(
    op: OpView,
    inputs: Map<Seq<char>, TensorView<D::V>>,
    values: Seq<TensorView<D::V>>,
    types: Seq<TypeView>,
)
    requires
        values.len() == types.len(),
        forall|i: int|
            0 <= i < values.len() ==> (#[trigger] values[i]).shape == types[i].shape
                && values[i].filled(),
        forall|k: int|
            0 <= k < op.operands().len() ==> (#[trigger] op.operands()[k]).0 < values.len(),
        node_type(op, types) is Ok,
        leaf_error(op, inputs) is None,
        inputs_filled(inputs),
        match op {
            OpView::Const { data, shape } => numel_fits(shape) && data.len() == numel(shape),
            _ => true,
        },
    ensures
        match node_value::<D>(op, inputs, values) {
            Ok(v) => v.shape == node_type(op, types)->Ok_0.shape && v.filled(),
            Err(e) => e == overflow() && !numel_fits(node_type(op, types)->Ok_0.shape),
        },
{
    let operands = op.operands();
    if operands.len() > 0 {
        assert(operands[0].0 < values.len());
        assert(values[operands[0].0 as int].filled());
    }
    if operands.len() > 1 {
        assert(operands[1].0 < values.len());
        assert(values[operands[1].0 as int].filled());
    }
    match op {
        OpView::Input { name, ty } => {
            assert(inputs[name].filled());
        },
        OpView::Const { data, shape } => {
            assert(lifted::<D>(data).len() == data.len());
        },
        OpView::Reshape { input, new_shape } => {
            crate::shape::lemma_numel_fits_prefix(new_shape, 0);
            crate::shape::lemma_numel_fits_prefix(types[input.0 as int].shape, 0);
        },
        _ => {},
    }
}

/// The first `n` values have the inferred shapes and fill them.
pub proof fn lemma_values_typed<D: Domain>(
    nodes: Seq<OpView>,
    inputs: Map<Seq<char>, TensorView<D::V>>,
    n: nat,
)
    requires
        n <= nodes.len(),
        ordered(nodes),
        consts_fill(nodes),
        inputs_filled(inputs),
        infer_nodes(nodes, n) is Ok,
        forall|i: int| 0 <= i < n ==> leaf_error(#[trigger] nodes[i], inputs) is None,
    ensures
        match eval_nodes::<D>(nodes, inputs, n) {
            Ok(values) => values.len() == n && forall|i: int|
                0 <= i < n ==> (#[trigger] values[i]).shape == infer_nodes(nodes, n)->Ok_0[i].shape
                    && values[i].filled(),
            Err(e) => e == overflow() && !counts_fit(infer_nodes(nodes, n)->Ok_0),
        },
    decreases n,
{
    if n > 0 {
        let m = (n - 1) as nat;
        lemma_infer_prefix(nodes, n);
        let types = infer_nodes(nodes, n)->Ok_0;
        assert(infer_nodes(nodes, m) == Ok::<Seq<TypeView>, TypeErrorView>(types.take(m as int)));
        lemma_values_typed::<D>(nodes, inputs, m);
        if eval_nodes::<D>(nodes, inputs, m) is Err && counts_fit(types) {
            assert forall|i: int| 0 <= i < m implies numel_fits(
                (#[trigger] types.take(m as int)[i]).shape,
            ) by {
                assert(numel_fits(types[i].shape));
            }
        }
        if eval_nodes::<D>(nodes, inputs, m) is Ok {
            let values = eval_nodes::<D>(nodes, inputs, m)->Ok_0;
            assert(leaf_error(nodes[m as int], inputs) is None);
            assert forall|k: int| 0 <= k < nodes[m as int].operands().len() implies (
            #[trigger] nodes[m as int].operands()[k]).0 < values.len() by {}
            lemma_node_typed::<D>(nodes[m as int], inputs, values, types.take(m as int));
            assert(node_type(nodes[m as int], types.take(m as int)) == Ok::<
                TypeView,
                TypeErrorView,
            >(types[m as int]));
        }
    }
}

/// Evaluation of a well-typed graph whose leaves have values fails only where the element count
/// of some node leaves `usize`; otherwise every output has its inferred shape and fills it.
pub proof fn well_typed_graphs_evaluate<D: Domain>(
    g: GraphView,
    inputs: Map<Seq<char>, TensorView<D::V>>,
)
    requires
        infer_graph(g) is Ok,
        inputs_filled(inputs),
        first_some(leaf_errors(g.nodes, inputs)) is None,
    ensures
        match eval_graph::<D>(g, inputs) {
            Ok(outputs) => {
                &&& outputs.len() == g.outputs.len()
                &&& forall|k: int|
                    0 <= k < outputs.len() ==> (#[trigger] outputs[k]).shape == infer_graph(
                        g,
                    )->Ok_0[g.outputs[k].0 as int].shape && outputs[k].filled()
            },
            Err(e) => e == overflow() && !counts_fit(infer_graph(g)->Ok_0),
        },
{
    crate::graph::validation_accepts_exactly_well_formed(g);
    lemma_first_some_all(leaf_errors(g.nodes, inputs));
    assert forall|i: int| 0 <= i < g.nodes.len() implies leaf_error(
        #[trigger] g.nodes[i],
        inputs,
    ) is None by {
        assert(leaf_errors(g.nodes, inputs)[i] is None);
    }
    lemma_values_typed::<D>(g.nodes, inputs, g.nodes.len());
    if eval_nodes::<D>(g.nodes, inputs, g.nodes.len()) is Ok {
        let values = eval_nodes::<D>(g.nodes, inputs, g.nodes.len())->Ok_0;
        let outputs = eval_graph::<D>(g, inputs)->Ok_0;
        assert forall|k: int| 0 <= k < outputs.len() implies (#[trigger] outputs[k]).shape
            == infer_graph(g)->Ok_0[g.outputs[k].0 as int].shape && outputs[k].filled() by {
            assert(g.outputs[k].0 < g.nodes.len());
            assert(outputs[k] == values[g.outputs[k].0 as int]);
        }
    }
}

} // verus!

//! What the example programs compute.
use vstd::prelude::*;

use crate::bindings::Bindings;
use crate::domain::Domain;
use crate::eval::{
    eval_graph, eval_nodes, map1, matmul_value, node_value, sum_value, EvalErrorView, UnaryOp,
};
use crate::examples::example_graph;
use crate::graph::GraphView;
use crate::soundness::lemma_eval_prefix;
use crate::tensor::TensorView;

verus! {

/// The values of the nodes of an evaluated graph.
spec fn values_of<D: Domain>(
    g: GraphView,
    inputs: Map<Seq<char>, TensorView<D::V>>,
) -> Seq<TensorView<D::V>> {
    eval_nodes::<D>(g.nodes, inputs, g.nodes.len())->Ok_0
}

proof fn lemma_value<D: Domain>(
    g: GraphView,
    inputs: Map<Seq<char>, TensorView<D::V>>,
    i: int,
)
    requires
        eval_graph::<D>(g, inputs) is Ok,
        0 <= i < g.nodes.len(),
    ensures
        values_of::<D>(g, inputs).len() == g.nodes.len(),
        node_value::<D>(g.nodes[i], inputs, values_of::<D>(g, inputs).take(i)) == Ok::<
            TensorView<D::V>,
            EvalErrorView,
        >(values_of::<D>(g, inputs)[i]),
{
    lemma_eval_prefix::<D>(g.nodes, inputs, g.nodes.len());
}

/// The example `matmul` computes the matrix product of `A` and `B`.
pub proof fn matmul_example_computes_a_product<D: Domain>(
    shapes: Bindings<usize>,
    inputs: Map<Seq<char>, TensorView<D::V>>,
)
    requires
        example_graph("matmul"@, shapes) is Ok,
        eval_graph::<D>(example_graph("matmul"@, shapes)->Ok_0.0, inputs) is Ok,
    ensures
        ({
            let outputs = eval_graph::<D>(example_graph("matmul"@, shapes)->Ok_0.0, inputs)->Ok_0;
            &&& outputs.len() == 1
            &&& matmul_value::<D>(inputs["A"@], inputs["B"@]) is Ok
            &&& outputs[0] == matmul_value::<D>(inputs["A"@], inputs["B"@])->Ok_0
        }),
{
    let g = example_graph("matmul"@, shapes)->Ok_0.0;
    assert(g.nodes.len() == 3 && g.outputs.len() == 1 && g.outputs[0].0 == 2);
    lemma_value::<D>(g, inputs, 0);
    lemma_value::<D>(g, inputs, 1);
    lemma_value::<D>(g, inputs, 2);
}

/// The example `add-relu` adds `X` and `Y` and then clamps each element at zero.
pub proof fn add_relu_example_clamps_a_sum<D: Domain>(
    shapes: Bindings<usize>,
    inputs: Map<Seq<char>, TensorView<D::V>>,
)
    requires
        example_graph("add-relu"@, shapes) is Ok,
        eval_graph::<D>(example_graph("add-relu"@, shapes)->Ok_0.0, inputs) is Ok,
    ensures
        ({
            let outputs = eval_graph::<D>(
                example_graph("add-relu"@, shapes)->Ok_0.0,
                inputs,
            )->Ok_0;
            &&& outputs.len() == 1
            &&& outputs[0].shape == inputs["X"@].shape
            &&& outputs[0].data.len() == inputs["X"@].data.len()
            &&& forall|i: int|
                0 <= i < outputs[0].data.len() ==> #[trigger] outputs[0].data[i] == D::relu_value(
                    D::plus_value(inputs["X"@].data[i], inputs["Y"@].data[i]),
                )
        }),
{
    lemma_names();
    let g = example_graph("add-relu"@, shapes)->Ok_0.0;
    assert(g.nodes.len() == 4 && g.outputs.len() == 1 && g.outputs[0].0 == 3);
    lemma_value::<D>(g, inputs, 0);
    lemma_value::<D>(g, inputs, 1);
    lemma_value::<D>(g, inputs, 2);
    lemma_value::<D>(g, inputs, 3);
}

/// The example `matmul-relu-sum` multiplies `A` and `B`, clamps each element at zero and sums the
/// rows.
pub proof fn matmul_relu_sum_example_sums_rows<D: Domain>(
    shapes: Bindings<usize>,
    inputs: Map<Seq<char>, TensorView<D::V>>,
)
    requires
        example_graph("matmul-relu-sum"@, shapes) is Ok,
        eval_graph::<D>(example_graph("matmul-relu-sum"@, shapes)->Ok_0.0, inputs) is Ok,
    ensures
        ({
            let outputs = eval_graph::<D>(
                example_graph("matmul-relu-sum"@, shapes)->Ok_0.0,
                inputs,
            )->Ok_0;
            let product = matmul_value::<D>(inputs["A"@], inputs["B"@]);
            &&& outputs.len() == 1
            &&& product is Ok
            &&& {
                let rows = sum_value::<D>(
                    map1::<D>(UnaryOp::Relu, product->Ok_0),
                    seq![1usize],
                    false,
                );
                rows is Ok && outputs[0] == rows->Ok_0
            }
        }),
{
    lemma_names();
    let g = example_graph("matmul-relu-sum"@, shapes)->Ok_0.0;
    assert(g.nodes.len() == 5 && g.outputs.len() == 1 && g.outputs[0].0 == 4);
    lemma_value::<D>(g, inputs, 0);
    lemma_value::<D>(g, inputs, 1);
    lemma_value::<D>(g, inputs, 2);
    lemma_value::<D>(g, inputs, 3);
    lemma_value::<D>(g, inputs, 4);
}

/// The example `two-matmul` multiplies `X` and `W1`, clamps each element at zero and multiplies by
/// `W2`.
pub proof fn two_matmul_example_multiplies_twice<D: Domain>(
    shapes: Bindings<usize>,
    inputs: Map<Seq<char>, TensorView<D::V>>,
)
    requires
        example_graph("two-matmul"@, shapes) is Ok,
        eval_graph::<D>(example_graph("two-matmul"@, shapes)->Ok_0.0, inputs) is Ok,
    ensures
        ({
            let outputs = eval_graph::<D>(
                example_graph("two-matmul"@, shapes)->Ok_0.0,
                inputs,
            )->Ok_0;
            let hidden = matmul_value::<D>(inputs["X"@], inputs["W1"@]);
            &&& outputs.len() == 1
            &&& hidden is Ok
            &&& {
                let product = matmul_value::<D>(
                    map1::<D>(UnaryOp::Relu, hidden->Ok_0),
                    inputs["W2"@],
                );
                product is Ok && outputs[0] == product->Ok_0
            }
        }),
{
    lemma_names();
    let g = example_graph("two-matmul"@, shapes)->Ok_0.0;
    assert(g.nodes.len() == 6 && g.outputs.len() == 1 && g.outputs[0].0 == 5);
    lemma_value::<D>(g, inputs, 0);
    lemma_value::<D>(g, inputs, 1);
    lemma_value::<D>(g, inputs, 2);
    lemma_value::<D>(g, inputs, 3);
    lemma_value::<D>(g, inputs, 4);
    lemma_value::<D>(g, inputs, 5);
}

/// The names of the examples differ.
proof fn lemma_names()
    ensures
        "add-relu"@ != "matmul"@,
        "matmul-relu-sum"@ != "matmul"@,
        "matmul-relu-sum"@ != "add-relu"@,
        "two-matmul"@ != "matmul"@,
        "two-matmul"@ != "add-relu"@,
        "two-matmul"@ != "matmul-relu-sum"@,
{
    reveal_strlit("matmul");
    reveal_strlit("add-relu");
    reveal_strlit("matmul-relu-sum");
    reveal_strlit("two-matmul");
    assert("add-relu"@[0] != "matmul"@[0]);
    assert("matmul-relu-sum"@.len() != "matmul"@.len());
    assert("two-matmul"@[0] != "matmul"@[0]);
    assert("two-matmul"@[0] != "add-relu"@[0]);
}

} // verus!

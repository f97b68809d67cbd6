//! Bit-exact rewrite rules.
use vstd::prelude::*;

use crate::domain::Domain;
use crate::eval::{eval_graph, map1, node_value, EvalErrorView, UnaryOp};
use crate::graph::{ordered, Graph, GraphView};
use crate::infer::{infer_graph, lemma_infer_prefix, node_type, TypeErrorView};
use crate::op::{NodeId, Op, OpView};
use crate::preservation::{
    graph_values, redefining_equal_preserves_evaluation, replacing_equals_preserves_evaluation,
};
use crate::rule::Rewrite;
use crate::safety::{law_holds, Law};
use crate::soundness::lemma_eval_prefix;
use crate::surgery::{redefine_node, redefined, replace_all_uses, replaced, SurgeryError};
use crate::tensor::TensorView;
use crate::tensor_type::TypeView;

verus! {

/// Rewrites `neg(neg(x))` to `x`.
#[derive(Debug, Clone, Copy)]
pub struct NegNegElim;

/// Rewrites `relu(relu(x))` to `relu(x)`.
#[derive(Debug, Clone, Copy)]
pub struct ReluIdempotentElim;

/// Rewrites `reshape(reshape(x))` to one reshape of `x`.
#[derive(Debug, Clone, Copy)]
pub struct ReshapeReshapeFuse;

/// A result, without its error.
pub open spec fn succeeded(r: Result<GraphView, SurgeryError>) -> Option<GraphView> {
    match r {
        Ok(g) => Some(g),
        Err(_) => None,
    }
}

/// The operation at a node, where there is one.
pub open spec fn op_at(g: GraphView, node: NodeId) -> Option<OpView> {
    if node.0 < g.nodes.len() {
        Some(g.nodes[node.0 as int])
    } else {
        None
    }
}

impl Rewrite for NegNegElim {
    open spec fn label(&self) -> Seq<char> {
        "neg-neg-elim"@
    }

    open spec fn law_list(&self) -> Seq<Law> {
        seq![Law::NegInvolutive]
    }

    open spec fn outcome(&self, g: GraphView, node: NodeId) -> Option<GraphView> {
        match op_at(g, node) {
            Some(OpView::Neg(inner)) => match op_at(g, inner) {
                Some(OpView::Neg(input)) => succeeded(replaced(g, node, input)),
                _ => None,
            },
            _ => None,
        }
    }

    fn name(&self) -> (r: &'static str) {
        "neg-neg-elim"
    }

    fn laws(&self) -> (r: &'static [Law]) {
        &[Law::NegInvolutive]
    }

    fn try_at(&self, graph: &Graph, node: NodeId) -> (r: Option<Graph>) {
        let inner: NodeId = match graph.node(node) {
            Ok(n) => match n.op {
                Op::Neg(inner) => inner,
                _ => {
                    return None;
                }
            },
            Err(_) => {
                return None;
            }
        };
        let input: NodeId = match graph.node(inner) {
            Ok(n) => match n.op {
                Op::Neg(input) => input,
                _ => {
                    return None;
                }
            },
            Err(_) => {
                return None;
            }
        };
        match replace_all_uses(graph, node, input) {
            Ok(after) => Some(after),
            Err(_) => None,
        }
    }
}

impl Rewrite for ReluIdempotentElim {
    open spec fn label(&self) -> Seq<char> {
        "relu-idempotent-elim"@
    }

    open spec fn law_list(&self) -> Seq<Law> {
        seq![Law::ReluIdempotent]
    }

    open spec fn outcome(&self, g: GraphView, node: NodeId) -> Option<GraphView> {
        match op_at(g, node) {
            Some(OpView::Relu(inner)) => match op_at(g, inner) {
                Some(OpView::Relu(_)) => succeeded(replaced(g, node, inner)),
                _ => None,
            },
            _ => None,
        }
    }

    fn name(&self) -> (r: &'static str) {
        "relu-idempotent-elim"
    }

    fn laws(&self) -> (r: &'static [Law]) {
        &[Law::ReluIdempotent]
    }

    fn try_at(&self, graph: &Graph, node: NodeId) -> (r: Option<Graph>) {
        let inner: NodeId = match graph.node(node) {
            Ok(n) => match n.op {
                Op::Relu(inner) => inner,
                _ => {
                    return None;
                }
            },
            Err(_) => {
                return None;
            }
        };
        match graph.node(inner) {
            Ok(n) => match n.op {
                Op::Relu(_) => {}
                _ => {
                    return None;
                }
            },
            Err(_) => {
                return None;
            }
        }
        match replace_all_uses(graph, node, inner) {
            Ok(after) => Some(after),
            Err(_) => None,
        }
    }
}

impl Rewrite for ReshapeReshapeFuse {
    open spec fn label(&self) -> Seq<char> {
        "reshape-reshape-fuse"@
    }

    open spec fn law_list(&self) -> Seq<Law> {
        seq![Law::StructuralOnly]
    }

    open spec fn outcome(&self, g: GraphView, node: NodeId) -> Option<GraphView> {
        match op_at(g, node) {
            Some(OpView::Reshape { input: inner, new_shape }) => match op_at(g, inner) {
                Some(OpView::Reshape { input, .. }) => succeeded(
                    redefined(g, node, OpView::Reshape { input, new_shape }),
                ),
                _ => None,
            },
            _ => None,
        }
    }

    fn name(&self) -> (r: &'static str) {
        "reshape-reshape-fuse"
    }

    fn laws(&self) -> (r: &'static [Law]) {
        &[Law::StructuralOnly]
    }

    fn try_at(&self, graph: &Graph, node: NodeId) -> (r: Option<Graph>) {
        match graph.node(node) {
            Ok(n) => match &n.op {
                Op::Reshape { input: inner, new_shape } => match graph.node(*inner) {
                    Ok(m) => match &m.op {
                        Op::Reshape { input, .. } => {
                            let op = Op::Reshape { input: *input, new_shape: new_shape.clone() };
                            match redefine_node(graph, node, op) {
                                Ok(after) => Some(after),
                                Err(_) => None,
                            }
                        }
                        _ => None,
                    },
                    Err(_) => None,
                },
                _ => None,
            },
            Err(_) => None,
        }
    }
}

/// On inputs on which the first graph evaluates, the second evaluates to the same outputs.
pub open spec fn preserves<D: Domain>(before: GraphView, after: GraphView) -> bool {
    forall|inputs: Map<Seq<char>, TensorView<D::V>>|
        eval_graph::<D>(before, inputs) is Ok ==> #[trigger] eval_graph::<D>(after, inputs)
            == eval_graph::<D>(before, inputs)
}

/// Removing a double negation keeps what a graph computes, where negation is an involution.
pub proof fn neg_neg_elim_preserves_evaluation<D: Domain>(g: GraphView, node: NodeId)
    requires
        g.nodes.len() <= usize::MAX,
        law_holds::<D>(Law::NegInvolutive),
        NegNegElim.outcome(g, node) is Some,
    ensures
        preserves::<D>(g, NegNegElim.outcome(g, node)->Some_0),
{
    let after = NegNegElim.outcome(g, node)->Some_0;
    let n = g.nodes.len();
    assert forall|inputs: Map<Seq<char>, TensorView<D::V>>|
        eval_graph::<D>(g, inputs) is Ok implies #[trigger] eval_graph::<D>(after, inputs)
        == eval_graph::<D>(g, inputs) by {
        let inner = g.nodes[node.0 as int]->Neg_0;
        let input = g.nodes[inner.0 as int]->Neg_0;
        crate::graph::validation_accepts_exactly_well_formed(g);
        lemma_infer_prefix(g.nodes, n);
        lemma_eval_prefix::<D>(g.nodes, inputs, n);
        let types = infer_graph(g)->Ok_0;
        let values = graph_values::<D>(g, inputs);
        assert(ordered(g.nodes));
        assert(g.nodes[node.0 as int].operands()[0].0 < node.0);
        assert(g.nodes[inner.0 as int].operands()[0].0 < inner.0);
        assert(node_type(g.nodes[node.0 as int], types.take(node.0 as int)) is Ok);
        assert(node_type(g.nodes[inner.0 as int], types.take(inner.0 as int)) is Ok);
        assert(values[node.0 as int] == map1::<D>(UnaryOp::Neg, values[inner.0 as int]));
        assert(values[inner.0 as int] == map1::<D>(UnaryOp::Neg, values[input.0 as int]));
        assert(values[node.0 as int].data =~= values[input.0 as int].data);
        replacing_equals_preserves_evaluation::<D>(g, node, input, inputs);
    }
}

/// Removing a repeated rectifier keeps what a graph computes, where the rectifier is idempotent.
pub proof fn relu_idempotent_elim_preserves_evaluation<D: Domain>(g: GraphView, node: NodeId)
    requires
        g.nodes.len() <= usize::MAX,
        law_holds::<D>(Law::ReluIdempotent),
        ReluIdempotentElim.outcome(g, node) is Some,
    ensures
        preserves::<D>(g, ReluIdempotentElim.outcome(g, node)->Some_0),
{
    let after = ReluIdempotentElim.outcome(g, node)->Some_0;
    let n = g.nodes.len();
    assert forall|inputs: Map<Seq<char>, TensorView<D::V>>|
        eval_graph::<D>(g, inputs) is Ok implies #[trigger] eval_graph::<D>(after, inputs)
        == eval_graph::<D>(g, inputs) by {
        let inner = g.nodes[node.0 as int]->Relu_0;
        let input = g.nodes[inner.0 as int]->Relu_0;
        crate::graph::validation_accepts_exactly_well_formed(g);
        lemma_infer_prefix(g.nodes, n);
        lemma_eval_prefix::<D>(g.nodes, inputs, n);
        let types = infer_graph(g)->Ok_0;
        let values = graph_values::<D>(g, inputs);
        assert(ordered(g.nodes));
        assert(g.nodes[node.0 as int].operands()[0].0 < node.0);
        assert(g.nodes[inner.0 as int].operands()[0].0 < inner.0);
        assert(node_type(g.nodes[node.0 as int], types.take(node.0 as int)) is Ok);
        assert(values[node.0 as int] == map1::<D>(UnaryOp::Relu, values[inner.0 as int]));
        assert(values[inner.0 as int] == map1::<D>(UnaryOp::Relu, values[input.0 as int]));
        assert(values[node.0 as int].data =~= values[inner.0 as int].data);
        replacing_equals_preserves_evaluation::<D>(g, node, inner, inputs);
    }
}

/// Fusing two reshapes keeps what a graph computes, whatever the arithmetic.
pub proof fn reshape_reshape_fuse_preserves_evaluation<D: Domain>(g: GraphView, node: NodeId)
    requires
        g.nodes.len() <= usize::MAX,
        ReshapeReshapeFuse.outcome(g, node) is Some,
    ensures
        preserves::<D>(g, ReshapeReshapeFuse.outcome(g, node)->Some_0),
{
    let after = ReshapeReshapeFuse.outcome(g, node)->Some_0;
    let n = g.nodes.len();
    assert forall|inputs: Map<Seq<char>, TensorView<D::V>>|
        eval_graph::<D>(g, inputs) is Ok implies #[trigger] eval_graph::<D>(after, inputs)
        == eval_graph::<D>(g, inputs) by {
        let inner = g.nodes[node.0 as int]->Reshape_input;
        let new_shape = g.nodes[node.0 as int]->Reshape_new_shape;
        let input = g.nodes[inner.0 as int]->Reshape_input;
        let op = OpView::Reshape { input, new_shape };
        crate::graph::validation_accepts_exactly_well_formed(g);
        lemma_infer_prefix(g.nodes, n);
        lemma_eval_prefix::<D>(g.nodes, inputs, n);
        let types = infer_graph(g)->Ok_0;
        let values = graph_values::<D>(g, inputs);
        assert(ordered(g.nodes));
        assert(g.nodes[node.0 as int].operands()[0].0 < node.0);
        assert(g.nodes[inner.0 as int].operands()[0].0 < inner.0);
        assert(node_type(g.nodes[node.0 as int], types.take(node.0 as int)) == Ok::<
            TypeView,
            TypeErrorView,
        >(types[node.0 as int]));
        assert(node_type(g.nodes[inner.0 as int], types.take(inner.0 as int)) == Ok::<
            TypeView,
            TypeErrorView,
        >(types[inner.0 as int]));
        assert(node_value::<D>(g.nodes[node.0 as int], inputs, values.take(node.0 as int)) == Ok::<
            TensorView<D::V>,
            EvalErrorView,
        >(values[node.0 as int]));
        assert(node_value::<D>(g.nodes[inner.0 as int], inputs, values.take(inner.0 as int))
            == Ok::<TensorView<D::V>, EvalErrorView>(values[inner.0 as int]));
        redefining_equal_preserves_evaluation::<D>(g, node, op, inputs);
    }
}

} // verus!

//! Fail-closed builder for graphs.
use vstd::prelude::*;

use crate::data::TensorData;
use crate::dtype::DType;
use crate::error::IrError;
use crate::graph::{
    const_error, consts_fill, inputs_listed, node_views, ordered, output_error, outputs_listed,
    structure_error, well_formed, Graph, GraphView, Node,
};
use crate::op::{NodeId, Op, OpView};
use crate::seqs::{first_some, lemma_first_some_all, lemma_first_some_at, lemma_first_some_none};
use crate::shape::Shape;
use crate::tensor_type::TensorType;

verus! {

/// Builder for an arena-backed graph.
#[derive(Debug, Clone)]
pub struct GraphBuilder {
    pub nodes: Vec<Node>,
    pub inputs: Vec<NodeId>,
    pub outputs: Vec<NodeId>,
}

impl View for GraphBuilder {
    type V = GraphView;

    /// The graph built so far.
    open spec fn view(&self) -> GraphView {
        GraphView {
            nodes: node_views(self.nodes@),
            inputs: self.inputs@,
            outputs: self.outputs@,
        }
    }
}

impl GraphView {
    /// The graph with one more node; an input node is listed as an input too.
    pub open spec fn with_node(self, op: OpView) -> GraphView {
        GraphView {
            nodes: self.nodes.push(op),
            inputs: if op is Input {
                self.inputs.push(NodeId(self.nodes.len() as usize))
            } else {
                self.inputs
            },
            outputs: self.outputs,
        }
    }

    /// The graph with one more output.
    pub open spec fn with_output(self, id: NodeId) -> GraphView {
        GraphView { outputs: self.outputs.push(id), ..self }
    }

    /// A graph without nodes.
    pub open spec fn empty() -> GraphView {
        GraphView { nodes: Seq::empty(), inputs: Seq::empty(), outputs: Seq::empty() }
    }
}

/// Why `op` cannot be appended to an arena of `n` nodes: its first unknown operand, or a payload
/// that does not fill its shape.
pub open spec fn append_error(n: nat, op: OpView) -> Option<IrError> {
    match op {
        OpView::Const { .. } => const_error(op),
        _ => first_some(op.operands().map_values(|o: NodeId| output_error(n, o))),
    }
}

/// What appending `op` does: the id of the new node, or the error and no change.
pub open spec fn appended(
    before: GraphView,
    op: OpView,
    r: Result<NodeId, IrError>,
    after: GraphView,
) -> bool {
    match append_error(before.nodes.len(), op) {
        Some(e) => r == Err::<NodeId, IrError>(e) && after == before,
        None => r == Ok::<NodeId, IrError>(NodeId(before.nodes.len() as usize)) && after
            == before.with_node(op),
    }
}

/// What holds of every graph under construction.
pub open spec fn under_construction(g: GraphView) -> bool {
    &&& ordered(g.nodes)
    &&& inputs_listed(g)
    &&& outputs_listed(g)
    &&& consts_fill(g.nodes)
}

/// An operation can be appended when its operands exist and its payload fills its shape.
pub proof fn lemma_append_error(n: nat, op: OpView)
    ensures
        append_error(n, op) is None <==> (forall|k: int|
            0 <= k < op.operands().len() ==> (#[trigger] op.operands()[k]).0 < n) && const_error(op)
            is None,
{
    let errors = op.operands().map_values(|o: NodeId| output_error(n, o));
    if append_error(n, op) is None {
        if !(op is Const) {
            lemma_first_some_all(errors);
            assert forall|k: int| 0 <= k < op.operands().len() implies (
            #[trigger] op.operands()[k]).0 < n by {
                assert(errors[k] is None);
            }
        }
    }
    if forall|k: int| 0 <= k < op.operands().len() ==> (#[trigger] op.operands()[k]).0 < n {
        lemma_first_some_none(errors);
    }
}

/// Appending what can be appended keeps a graph under construction.
pub proof fn appending_keeps_construction(g: GraphView, op: OpView)
    requires
        under_construction(g),
        append_error(g.nodes.len(), op) is None,
        g.nodes.len() <= usize::MAX,
    ensures
        under_construction(g.with_node(op)),
{
    lemma_append_error(g.nodes.len(), op);
    let after = g.with_node(op);
    assert forall|i: int, k: int|
        0 <= i < after.nodes.len() && 0 <= k < after.nodes[i].operands().len() implies (
    #[trigger] after.nodes[i].operands()[k]).0 < i by {
        if i < g.nodes.len() {
            assert(after.nodes[i] == g.nodes[i]);
            assert(g.nodes[i].operands()[k].0 < i);
        }
    }
    assert forall|k: int| 0 <= k < after.inputs.len() implies (#[trigger] after.inputs[k]).0
        < after.nodes.len() && after.nodes[after.inputs[k].0 as int] is Input by {
        if k < g.inputs.len() {
            assert(after.inputs[k] == g.inputs[k]);
        }
    }
    assert forall|i: int| 0 <= i < after.nodes.len() implies match #[trigger] after.nodes[i] {
        OpView::Const { data, shape } => crate::shape::numel_fits(shape) && data.len()
            == crate::shape::numel(shape),
        _ => true,
    } by {
        if i < g.nodes.len() {
            assert(after.nodes[i] == g.nodes[i]);
        } else if let OpView::Const { data, shape } = op {
            if crate::shape::numel_fits(shape) {
                crate::shape::lemma_numel_fits_prefix(shape, 0);
            }
        }
    }
}

impl Default for GraphBuilder {
    fn default() -> (r: Self)
        ensures
            r@ == GraphView::empty(),
    {
        GraphBuilder::new()
    }
}

impl GraphBuilder {
    /// Creates an empty graph builder.
    #[must_use]
    pub fn new() -> (r: Self)
        ensures
            r@ == GraphView::empty(),
    {
        let r = GraphBuilder { nodes: Vec::new(), inputs: Vec::new(), outputs: Vec::new() };
        proof {
            assert(r@.nodes =~= GraphView::empty().nodes);
        }
        r
    }

    /// Appends an operation after checking its operands and payload.
    pub(crate) fn append(&mut self, op: Op) -> (r: Result<NodeId, IrError>)
        ensures
            appended(old(self)@, op@, r, final(self)@),
    {
        let n: usize = self.nodes.len();
        let mut listed = false;
        match &op {
            Op::Const { data, shape } => {
                let expected: usize = match shape.numel() {
                    Ok(expected) => expected,
                    Err(e) => {
                        return Err(e);
                    }
                };
                let got: usize = data.len();
                if got != expected {
                    return Err(IrError::ConstDataShapeMismatch { expected, got });
                }
            }
            Op::Input { .. } => {
                listed = true;
                proof {
                    lemma_append_error(n as nat, op@);
                }
            }
            _ => {
                let operands = op.operands();
                let ghost errors = op@.operands().map_values(|o: NodeId| output_error(n as nat, o));
                let mut k: usize = 0;
                while k < operands.len()
                    invariant
                        k <= operands@.len(),
                        n == self.nodes@.len(),
                        self@ == old(self)@,
                        !(op@ is Const),
                        operands@ == op@.operands(),
                        errors == op@.operands().map_values(
                            |o: NodeId| output_error(n as nat, o),
                        ),
                        forall|j: int| 0 <= j < k ==> errors[j] is None,
                    decreases operands@.len() - k,
                {
                    let operand: NodeId = operands[k];
                    if operand.0 >= n {
                        proof {
                            lemma_first_some_at(errors, k as int);
                        }
                        return Err(IrError::InvalidNodeId { id: operand, num_nodes: n });
                    }
                    k += 1;
                }
                proof {
                    lemma_first_some_none(errors);
                }
            }
        }
        let id = NodeId(n);
        if listed {
            self.inputs.push(id);
        }
        self.nodes.push(Node::new(op));
        proof {
            assert(self@.nodes =~= old(self)@.nodes.push(op@));
        }
        Ok(id)
    }

    /// Appends an input node and returns its id.
    ///
    /// # Errors
    ///
    /// There is no failing case.
    pub fn input(&mut self, name: &str, dtype: DType, shape: Shape) -> (r: Result<NodeId, IrError>)
        ensures
            appended(
                old(self)@,
                (OpView::Input {
                    name: name@,
                    ty: crate::tensor_type::TypeView { dtype, shape: shape@ },
                }),
                r,
                final(self)@,
            ),
            r is Ok,
    {
        let op = Op::Input { name: String::from_str(name), ty: TensorType::new(dtype, shape) };
        proof {
            lemma_append_error(self@.nodes.len(), op@);
        }
        self.append(op)
    }

    /// Appends a constant node and returns its id.
    ///
    /// # Errors
    ///
    /// Returns [`IrError::ShapeOverflow`] if the shape element count overflows,
    /// or [`IrError::ConstDataShapeMismatch`] if the payload length does not
    /// match the shape.
    pub fn constant(&mut self, data: TensorData, shape: Shape) -> (r: Result<NodeId, IrError>)
        ensures
            appended(
                old(self)@,
                (OpView::Const { data: data@, shape: shape@ }),
                r,
                final(self)@,
            ),
    {
        self.append(Op::Const { data, shape })
    }

    /// Appends an elementwise add node and returns its id.
    ///
    /// # Errors
    ///
    /// Returns [`IrError::InvalidNodeId`] if either operand is outside this
    /// builder's current arena.
    pub fn add(&mut self, left: NodeId, right: NodeId) -> (r: Result<NodeId, IrError>)
        ensures
            appended(old(self)@, OpView::Add(left, right), r, final(self)@),
    {
        self.append(Op::Add(left, right))
    }

    /// Appends an elementwise subtract node and returns its id.
    ///
    /// # Errors
    ///
    /// Returns [`IrError::InvalidNodeId`] if either operand is outside this
    /// builder's current arena.
    pub fn sub(&mut self, left: NodeId, right: NodeId) -> (r: Result<NodeId, IrError>)
        ensures
            appended(old(self)@, OpView::Sub(left, right), r, final(self)@),
    {
        self.append(Op::Sub(left, right))
    }

    /// Appends an elementwise multiply node and returns its id.
    ///
    /// # Errors
    ///
    /// Returns [`IrError::InvalidNodeId`] if either operand is outside this
    /// builder's current arena.
    pub fn mul(&mut self, left: NodeId, right: NodeId) -> (r: Result<NodeId, IrError>)
        ensures
            appended(old(self)@, OpView::Mul(left, right), r, final(self)@),
    {
        self.append(Op::Mul(left, right))
    }

    /// Appends an elementwise negate node and returns its id.
    ///
    /// # Errors
    ///
    /// Returns [`IrError::InvalidNodeId`] if `input` is outside this builder's
    /// current arena.
    pub fn neg(&mut self, input: NodeId) -> (r: Result<NodeId, IrError>)
        ensures
            appended(old(self)@, OpView::Neg(input), r, final(self)@),
    {
        self.append(Op::Neg(input))
    }

    /// Appends an elementwise rectifier node and returns its id.
    ///
    /// # Errors
    ///
    /// Returns [`IrError::InvalidNodeId`] if `input` is outside this builder's
    /// current arena.
    pub fn relu(&mut self, input: NodeId) -> (r: Result<NodeId, IrError>)
        ensures
            appended(old(self)@, OpView::Relu(input), r, final(self)@),
    {
        self.append(Op::Relu(input))
    }

    /// Appends a two-dimensional matmul node and returns its id.
    ///
    /// # Errors
    ///
    /// Returns [`IrError::InvalidNodeId`] if either operand is outside this
    /// builder's current arena.
    pub fn matmul(&mut self, left: NodeId, right: NodeId) -> (r: Result<NodeId, IrError>)
        ensures
            appended(old(self)@, OpView::Matmul(left, right), r, final(self)@),
    {
        self.append(Op::Matmul(left, right))
    }

    /// Appends a sum-reduction node and returns its id.
    ///
    /// # Errors
    ///
    /// Returns [`IrError::InvalidNodeId`] if `input` is outside this builder's
    /// current arena.
    pub fn sum(&mut self, input: NodeId, axes: Vec<usize>, keepdim: bool) -> (r: Result<
        NodeId,
        IrError,
    >)
        ensures
            appended(
                old(self)@,
                (OpView::Sum { input, axes: axes@, keepdim }),
                r,
                final(self)@,
            ),
    {
        self.append(Op::Sum { input, axes, keepdim })
    }

    /// Appends a reshape node and returns its id.
    ///
    /// # Errors
    ///
    /// Returns [`IrError::InvalidNodeId`] if `input` is outside this builder's
    /// current arena.
    pub fn reshape(&mut self, input: NodeId, new_shape: Shape) -> (r: Result<NodeId, IrError>)
        ensures
            appended(
                old(self)@,
                (OpView::Reshape { input, new_shape: new_shape@ }),
                r,
                final(self)@,
            ),
    {
        self.append(Op::Reshape { input, new_shape })
    }

    /// Marks a node as a graph output.
    ///
    /// # Errors
    ///
    /// Returns [`IrError::InvalidNodeId`] if `id` is outside this builder's
    /// current arena.
    pub fn mark_output(&mut self, id: NodeId) -> (r: Result<(), IrError>)
        ensures
            match output_error(old(self)@.nodes.len(), id) {
                Some(e) => r == Err::<(), IrError>(e) && final(self)@ == old(self)@,
                None => r == Ok::<(), IrError>(()) && final(self)@ == old(self)@.with_output(id),
            },
    {
        if id.0 < self.nodes.len() {
            self.outputs.push(id);
            Ok(())
        } else {
            Err(IrError::InvalidNodeId { id, num_nodes: self.nodes.len() })
        }
    }

    /// Builds a validated graph.
    ///
    /// # Errors
    ///
    /// Returns the first structural validation error from
    /// [`Graph::validate_structure`].
    pub fn build(self) -> (r: Result<Graph, IrError>)
        ensures
            match r {
                Ok(graph) => graph@ == self@ && well_formed(self@),
                Err(e) => structure_error(self@) == Some(e),
            },
            under_construction(self@) ==> (match r {
                Ok(_) => self@.outputs.len() > 0,
                Err(e) => self@.outputs.len() == 0 && e == IrError::NoOutputs,
            }),
    {
        let graph = Graph::new(self.nodes, self.inputs, self.outputs);
        proof {
            if under_construction(self@) && self@.outputs.len() == 0 {
                let g = self@;
                assert forall|i: int| 0 <= i < g.nodes.len() implies crate::graph::node_errors(
                    g.nodes,
                )[i] is None by {
                    crate::graph::lemma_node_error(g.nodes, i);
                }
                lemma_first_some_none(crate::graph::node_errors(g.nodes));
                lemma_first_some_none(crate::graph::input_errors(g));
            }
        }
        match graph.validate_structure() {
            Ok(()) => Ok(graph),
            Err(e) => {
                proof {
                    crate::graph::validation_accepts_exactly_well_formed(self@);
                }
                Err(e)
            }
        }
    }
}

} // verus!

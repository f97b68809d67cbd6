//! Arena-backed graph storage and structural validation.
use vstd::prelude::*;

use crate::error::IrError;
use crate::op::{NodeId, Op, OpView};
use crate::seqs::{first_some, lemma_first_some_all, lemma_first_some_at, lemma_first_some_none};
use crate::shape::{checked_numel, numel, numel_fits};

verus! {

/// One operation of a graph.
#[derive(Debug)]
pub struct Node {
    pub op: Op,
}

/// A graph of tensor operations.
#[derive(Debug)]
pub struct Graph {
    pub nodes: Vec<Node>,
    pub inputs: Vec<NodeId>,
    pub outputs: Vec<NodeId>,
}

/// The contents of a [`Graph`].
pub struct GraphView {
    pub nodes: Seq<OpView>,
    pub inputs: Seq<NodeId>,
    pub outputs: Seq<NodeId>,
}

/// The operations that the nodes hold.
pub open spec fn node_views(nodes: Seq<Node>) -> Seq<OpView> {
    nodes.map_values(|n: Node| n.op@)
}

impl View for Graph {
    type V = GraphView;

    open spec fn view(&self) -> GraphView {
        GraphView {
            nodes: node_views(self.nodes@),
            inputs: self.inputs@,
            outputs: self.outputs@,
        }
    }
}

/// The error of one operand of the node at `node`, in an arena of `n` nodes.
pub open spec fn operand_error(n: nat, node: int, operand: NodeId) -> Option<IrError> {
    if operand.0 >= n {
        Some(IrError::InvalidNodeId { id: operand, num_nodes: n as usize })
    } else if operand.0 >= node {
        Some(IrError::ForwardReference { node: NodeId(node as usize), operand })
    } else {
        None
    }
}

/// The first operand error of the node at `i`.
pub open spec fn node_error(nodes: Seq<OpView>, i: int) -> Option<IrError> {
    first_some(nodes[i].operands().map_values(|o: NodeId| operand_error(nodes.len(), i, o)))
}

/// The error of one entry of the output list.
pub open spec fn output_error(n: nat, id: NodeId) -> Option<IrError> {
    if id.0 >= n {
        Some(IrError::InvalidNodeId { id, num_nodes: n as usize })
    } else {
        None
    }
}

/// The error of one entry of the input list.
pub open spec fn input_error(nodes: Seq<OpView>, id: NodeId) -> Option<IrError> {
    if id.0 >= nodes.len() {
        Some(IrError::InvalidNodeId { id, num_nodes: nodes.len() as usize })
    } else if nodes[id.0 as int] is Input {
        None
    } else {
        Some(IrError::NotAnInput(id))
    }
}

/// The error of a constant whose payload does not fill its shape.
pub open spec fn const_error(op: OpView) -> Option<IrError> {
    match op {
        OpView::Const { data, shape } => match checked_numel(shape) {
            Err(e) => Some(e),
            Ok(expected) => if data.len() == expected {
                None
            } else {
                Some(IrError::ConstDataShapeMismatch { expected, got: data.len() as usize })
            },
        },
        _ => None,
    }
}

pub open spec fn node_errors(nodes: Seq<OpView>) -> Seq<Option<IrError>> {
    Seq::new(nodes.len(), |i: int| node_error(nodes, i))
}

pub open spec fn input_errors(g: GraphView) -> Seq<Option<IrError>> {
    g.inputs.map_values(|id: NodeId| input_error(g.nodes, id))
}

pub open spec fn output_errors(g: GraphView) -> Seq<Option<IrError>> {
    g.outputs.map_values(|id: NodeId| output_error(g.nodes.len(), id))
}

pub open spec fn const_errors(nodes: Seq<OpView>) -> Seq<Option<IrError>> {
    nodes.map_values(|op: OpView| const_error(op))
}

/// The first structural error of a graph: operands, then the input list, then the output list,
/// then constant payloads.
pub open spec fn structure_error(g: GraphView) -> Option<IrError> {
    match first_some(node_errors(g.nodes)) {
        Some(e) => Some(e),
        None => match first_some(input_errors(g)) {
            Some(e) => Some(e),
            None => if g.outputs.len() == 0 {
                Some(IrError::NoOutputs)
            } else {
                match first_some(output_errors(g)) {
                    Some(e) => Some(e),
                    None => first_some(const_errors(g.nodes)),
                }
            },
        },
    }
}

/// Every operand precedes its user.
pub open spec fn ordered(nodes: Seq<OpView>) -> bool {
    forall|i: int, k: int|
        0 <= i < nodes.len() && 0 <= k < nodes[i].operands().len() ==> (
        #[trigger] nodes[i].operands()[k]).0 < i
}

/// Every constant payload fills its shape.
pub open spec fn consts_fill(nodes: Seq<OpView>) -> bool {
    forall|i: int|
        0 <= i < nodes.len() ==> match #[trigger] nodes[i] {
            OpView::Const { data, shape } => numel_fits(shape) && data.len() == numel(shape),
            _ => true,
        }
}

/// Every listed input is an input node.
pub open spec fn inputs_listed(g: GraphView) -> bool {
    forall|k: int|
        0 <= k < g.inputs.len() ==> (#[trigger] g.inputs[k]).0 < g.nodes.len()
            && g.nodes[g.inputs[k].0 as int] is Input
}

/// Every output is a node.
pub open spec fn outputs_listed(g: GraphView) -> bool {
    forall|k: int| 0 <= k < g.outputs.len() ==> (#[trigger] g.outputs[k]).0 < g.nodes.len()
}

/// What structural validation accepts.
pub open spec fn well_formed(g: GraphView) -> bool {
    &&& ordered(g.nodes)
    &&& inputs_listed(g)
    &&& g.outputs.len() > 0
    &&& outputs_listed(g)
    &&& consts_fill(g.nodes)
}

/// A node has no operand error exactly if all its operands precede it.
pub proof fn lemma_node_error(nodes: Seq<OpView>, i: int)
    requires
        0 <= i < nodes.len(),
    ensures
        node_error(nodes, i) is None <==> (forall|k: int|
            0 <= k < nodes[i].operands().len() ==> (#[trigger] nodes[i].operands()[k]).0 < i),
{
    let errors = nodes[i].operands().map_values(|o: NodeId| operand_error(nodes.len(), i, o));
    if node_error(nodes, i) is None {
        lemma_first_some_all(errors);
        assert forall|k: int| 0 <= k < nodes[i].operands().len() implies (
        #[trigger] nodes[i].operands()[k]).0 < i by {
            assert(errors[k] is None);
        }
    } else if forall|k: int|
        0 <= k < nodes[i].operands().len() ==> (#[trigger] nodes[i].operands()[k]).0 < i {
        lemma_first_some_none(errors);
    }
}

/// Validation finds no error exactly in the well-formed graphs.
pub proof fn validation_accepts_exactly_well_formed(g: GraphView)
    ensures
        structure_error(g) is None <==> well_formed(g),
{
    if structure_error(g) is None {
        lemma_first_some_all(node_errors(g.nodes));
        lemma_first_some_all(input_errors(g));
        lemma_first_some_all(output_errors(g));
        lemma_first_some_all(const_errors(g.nodes));
        assert forall|i: int, k: int|
            0 <= i < g.nodes.len() && 0 <= k < g.nodes[i].operands().len() implies (
        #[trigger] g.nodes[i].operands()[k]).0 < i by {
            assert(node_errors(g.nodes)[i] is None);
            lemma_node_error(g.nodes, i);
        }
        assert forall|k: int| 0 <= k < g.inputs.len() implies (#[trigger] g.inputs[k]).0
            < g.nodes.len() && g.nodes[g.inputs[k].0 as int] is Input by {
            assert(input_errors(g)[k] is None);
        }
        assert forall|k: int| 0 <= k < g.outputs.len() implies (#[trigger] g.outputs[k]).0
            < g.nodes.len() by {
            assert(output_errors(g)[k] is None);
        }
        assert forall|i: int| 0 <= i < g.nodes.len() implies match #[trigger] g.nodes[i] {
            OpView::Const { data, shape } => numel_fits(shape) && data.len() == numel(shape),
            _ => true,
        } by {
            assert(const_errors(g.nodes)[i] is None);
            if let OpView::Const { data, shape } = g.nodes[i] {
                crate::shape::lemma_numel_fits_prefix(shape, 0);
            }
        }
    }
    if well_formed(g) {
        assert forall|i: int| 0 <= i < g.nodes.len() implies node_errors(g.nodes)[i] is None by {
            lemma_node_error(g.nodes, i);
        }
        lemma_first_some_none(node_errors(g.nodes));
        lemma_first_some_none(input_errors(g));
        lemma_first_some_none(output_errors(g));
        assert forall|i: int| 0 <= i < g.nodes.len() implies const_errors(g.nodes)[i] is None by {
            if let OpView::Const { data, shape } = g.nodes[i] {
                crate::shape::lemma_numel_fits_prefix(shape, 0);
            }
        }
        lemma_first_some_none(const_errors(g.nodes));
    }
}

impl Clone for Node {
    fn clone(&self) -> (r: Self)
        ensures
            r.op@ == self.op@,
    {
        Node { op: self.op.clone() }
    }
}

impl Node {
    /// Creates a node.
    pub fn new(op: Op) -> (r: Self)
        ensures
            r.op == op,
    {
        Node { op }
    }

    /// Returns this node's operation.
    #[must_use]
    pub fn op(&self) -> (r: &Op)
        ensures
            *r == self.op,
    {
        &self.op
    }
}

impl Clone for Graph {
    fn clone(&self) -> (r: Self)
        ensures
            r@ == self@,
    {
        let mut nodes: Vec<Node> = Vec::new();
        let mut i: usize = 0;
        while i < self.nodes.len()
            invariant
                i <= self.nodes@.len(),
                nodes@.len() == i,
                forall|j: int| 0 <= j < i ==> (#[trigger] nodes@[j]).op@ == self.nodes@[j].op@,
            decreases self.nodes@.len() - i,
        {
            nodes.push(self.nodes[i].clone());
            i += 1;
        }
        proof {
            assert(node_views(nodes@) =~= node_views(self.nodes@));
        }
        Graph {
            nodes,
            inputs: crate::data::copied(&self.inputs),
            outputs: crate::data::copied(&self.outputs),
        }
    }
}

impl Graph {
    /// Creates a graph from its parts, without validating them.
    pub fn new(nodes: Vec<Node>, inputs: Vec<NodeId>, outputs: Vec<NodeId>) -> (r: Self)
        ensures
            r.nodes == nodes,
            r.inputs == inputs,
            r.outputs == outputs,
    {
        Graph { nodes, inputs, outputs }
    }

    /// Returns a node by id.
    ///
    /// # Errors
    ///
    /// Returns [`IrError::InvalidNodeId`] if `id` is outside the arena.
    pub fn node(&self, id: NodeId) -> (r: Result<&Node, IrError>)
        ensures
            match r {
                Ok(node) => id.0 < self@.nodes.len() && *node == self.nodes@[id.0 as int]
                    && node.op@ == self@.nodes[id.0 as int],
                Err(e) => id.0 >= self@.nodes.len() && e == (IrError::InvalidNodeId {
                    id,
                    num_nodes: self@.nodes.len() as usize,
                }),
            },
    {
        if id.0 < self.nodes.len() {
            Ok(&self.nodes[id.0])
        } else {
            Err(IrError::InvalidNodeId { id, num_nodes: self.nodes.len() })
        }
    }

    /// Returns the number of nodes.
    #[must_use]
    pub fn num_nodes(&self) -> (r: usize)
        ensures
            r == self@.nodes.len(),
    {
        self.nodes.len()
    }

    /// Returns graph input ids in declaration order.
    #[must_use]
    pub fn inputs(&self) -> (r: &[NodeId])
        ensures
            r@ == self@.inputs,
    {
        self.inputs.as_slice()
    }

    /// Returns graph output ids in declaration order.
    #[must_use]
    pub fn outputs(&self) -> (r: &[NodeId])
        ensures
            r@ == self@.outputs,
    {
        self.outputs.as_slice()
    }

    /// Validates operand order, the input and output lists, and constant payloads.
    ///
    /// # Errors
    ///
    /// Returns the first structural error, in the order of [`structure_error`].
    pub fn validate_structure(&self) -> (r: Result<(), IrError>)
        ensures
            match r {
                Ok(_) => structure_error(self@) is None && well_formed(self@),
                Err(e) => structure_error(self@) == Some(e),
            },
    {
        let ghost g = self@;
        let n: usize = self.nodes.len();
        let mut i: usize = 0;
        while i < n
            invariant
                g == self@,
                n == g.nodes.len(),
                i <= n,
                forall|j: int| 0 <= j < i ==> node_errors(g.nodes)[j] is None,
            decreases n - i,
        {
            let operands = self.nodes[i].op.operands();
            let ghost errors = g.nodes[i as int].operands().map_values(
                |o: NodeId| operand_error(g.nodes.len(), i as int, o),
            );
            let mut k: usize = 0;
            while k < operands.len()
                invariant
                    g == self@,
                    n == g.nodes.len(),
                    i < n,
                    k <= operands@.len(),
                    operands@ == g.nodes[i as int].operands(),
                    errors == g.nodes[i as int].operands().map_values(
                        |o: NodeId| operand_error(g.nodes.len(), i as int, o),
                    ),
                    forall|j: int| 0 <= j < i ==> node_errors(g.nodes)[j] is None,
                    forall|j: int| 0 <= j < k ==> errors[j] is None,
                decreases operands@.len() - k,
            {
                let operand: NodeId = operands[k];
                if operand.0 >= n {
                    proof {
                        lemma_first_some_at(errors, k as int);
                        lemma_first_some_at(node_errors(g.nodes), i as int);
                    }
                    return Err(IrError::InvalidNodeId { id: operand, num_nodes: n });
                }
                if operand.0 >= i {
                    proof {
                        lemma_first_some_at(errors, k as int);
                        lemma_first_some_at(node_errors(g.nodes), i as int);
                    }
                    return Err(IrError::ForwardReference { node: NodeId(i), operand });
                }
                k += 1;
            }
            proof {
                lemma_first_some_none(errors);
            }
            i += 1;
        }
        proof {
            lemma_first_some_none(node_errors(g.nodes));
        }

        let mut i: usize = 0;
        while i < self.inputs.len()
            invariant
                g == self@,
                n == g.nodes.len(),
                i <= g.inputs.len(),
                first_some(node_errors(g.nodes)) is None,
                forall|j: int| 0 <= j < i ==> input_errors(g)[j] is None,
            decreases g.inputs.len() - i,
        {
            let input: NodeId = self.inputs[i];
            if input.0 >= n {
                proof {
                    lemma_first_some_at(input_errors(g), i as int);
                }
                return Err(IrError::InvalidNodeId { id: input, num_nodes: n });
            }
            match self.nodes[input.0].op {
                Op::Input { .. } => {}
                _ => {
                    proof {
                        lemma_first_some_at(input_errors(g), i as int);
                    }
                    return Err(IrError::NotAnInput(input));
                }
            }
            i += 1;
        }
        proof {
            lemma_first_some_none(input_errors(g));
        }

        if self.outputs.len() == 0 {
            return Err(IrError::NoOutputs);
        }
        let mut i: usize = 0;
        while i < self.outputs.len()
            invariant
                g == self@,
                n == g.nodes.len(),
                i <= g.outputs.len(),
                g.outputs.len() > 0,
                first_some(node_errors(g.nodes)) is None,
                first_some(input_errors(g)) is None,
                forall|j: int| 0 <= j < i ==> output_errors(g)[j] is None,
            decreases g.outputs.len() - i,
        {
            let output: NodeId = self.outputs[i];
            if output.0 >= n {
                proof {
                    lemma_first_some_at(output_errors(g), i as int);
                }
                return Err(IrError::InvalidNodeId { id: output, num_nodes: n });
            }
            i += 1;
        }
        proof {
            lemma_first_some_none(output_errors(g));
        }

        let mut i: usize = 0;
        while i < n
            invariant
                g == self@,
                n == g.nodes.len(),
                i <= n,
                g.outputs.len() > 0,
                first_some(node_errors(g.nodes)) is None,
                first_some(input_errors(g)) is None,
                first_some(output_errors(g)) is None,
                forall|j: int| 0 <= j < i ==> const_errors(g.nodes)[j] is None,
            decreases n - i,
        {
            assert(g.nodes[i as int] == self.nodes@[i as int].op@);
            if let Op::Const { data, shape } = &self.nodes[i].op {
                let error: Option<IrError> = match shape.numel() {
                    Err(e) => Some(e),
                    Ok(expected) => {
                        let got: usize = data.len();
                        if got == expected {
                            None
                        } else {
                            Some(IrError::ConstDataShapeMismatch { expected, got })
                        }
                    }
                };
                assert(const_errors(g.nodes)[i as int] == error);
                if let Some(e) = error {
                    proof {
                        lemma_first_some_at(const_errors(g.nodes), i as int);
                    }
                    return Err(e);
                }
            }
            i += 1;
        }
        proof {
            lemma_first_some_none(const_errors(g.nodes));
            validation_accepts_exactly_well_formed(g);
        }
        Ok(())
    }
}

} // verus!

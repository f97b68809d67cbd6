//! Errors of graph construction and structural validation.
use vstd::prelude::*;

use crate::op::NodeId;
use crate::text::{decimal, index_text};

verus! {

/// Errors produced by graph construction and structural validation.
#[derive(Debug, Clone, Copy, PartialEq, Eq, Structural)]
pub enum IrError {
    /// A node id is outside the graph's node arena.
    InvalidNodeId {
        /// The invalid id.
        id: NodeId,
        /// The current number of nodes in the graph.
        num_nodes: usize,
    },
    /// A node references itself or a node later in build order.
    ForwardReference {
        /// The node containing the bad operand reference.
        node: NodeId,
        /// The operand that is not earlier in build order.
        operand: NodeId,
    },
    /// A graph input list entry does not point to an input node.
    NotAnInput(NodeId),
    /// The graph has no marked outputs.
    NoOutputs,
    /// A constant payload length does not match its shape element count.
    ConstDataShapeMismatch {
        /// Expected element count from the constant shape.
        expected: usize,
        /// Actual payload element count.
        got: usize,
    },
    /// Shape element-count multiplication overflowed.
    ShapeOverflow,
    /// The graph contains a cycle.
    Cycle,
}

impl IrError {
    /// The message of this error.
    pub open spec fn text(self) -> Seq<char> {
        match self {
            IrError::InvalidNodeId { id, num_nodes } => "invalid node id "@ + id.text()
                + "; graph has "@ + decimal(num_nodes as nat) + " nodes"@,
            IrError::ForwardReference { node, operand } => "node "@ + node.text()
                + " has forward or self reference to operand "@ + operand.text(),
            IrError::NotAnInput(id) => "node "@ + id.text() + " is not an input"@,
            IrError::NoOutputs => "graph has no outputs"@,
            IrError::ConstDataShapeMismatch { expected, got } =>
                "constant data length mismatch: expected "@ + decimal(expected as nat) + ", got "@
                + decimal(got as nat),
            IrError::ShapeOverflow => "shape element count overflow"@,
            IrError::Cycle => "graph contains a cycle"@,
        }
    }

    /// Renders the message of this error.
    pub fn to_text(&self) -> (r: String)
        ensures
            r@ == self.text(),
    {
        match *self {
            IrError::InvalidNodeId { id, num_nodes } => String::from_str("invalid node id ")
                .concat(id.to_text().as_str())
                .concat("; graph has ")
                .concat(index_text(num_nodes).as_str())
                .concat(" nodes"),
            IrError::ForwardReference { node, operand } => String::from_str("node ")
                .concat(node.to_text().as_str())
                .concat(" has forward or self reference to operand ")
                .concat(operand.to_text().as_str()),
            IrError::NotAnInput(id) => String::from_str("node ")
                .concat(id.to_text().as_str())
                .concat(" is not an input"),
            IrError::NoOutputs => String::from_str("graph has no outputs"),
            IrError::ConstDataShapeMismatch { expected, got } => String::from_str(
                "constant data length mismatch: expected ",
            )
                .concat(index_text(expected).as_str())
                .concat(", got ")
                .concat(index_text(got).as_str()),
            IrError::ShapeOverflow => String::from_str("shape element count overflow"),
            IrError::Cycle => String::from_str("graph contains a cycle"),
        }
    }
}

} // verus!

//! Graph operation kinds.
use vstd::prelude::*;

use crate::data::{DataView, TensorData};
use crate::shape::Shape;
use crate::tensor_type::{TensorType, TypeView};
use crate::text::{decimal, index_text};

verus! {

/// Stable arena-local node identifier.
#[derive(Debug, Clone, Copy, PartialEq, Eq, Hash, PartialOrd, Ord, Structural)]
pub struct NodeId(pub usize);

impl NodeId {
    /// Creates a node id from an arena index.
    pub fn new(index: usize) -> (r: Self)
        ensures
            r == NodeId(index),
    {
        NodeId(index)
    }

    /// Returns the raw arena index.
    #[must_use]
    pub fn index(self) -> (r: usize)
        ensures
            r == self.0,
    {
        self.0
    }

    /// The text of this id.
    pub open spec fn text(self) -> Seq<char> {
        "%"@ + decimal(self.0 as nat)
    }

    /// Renders this id.
    pub fn to_text(self) -> (r: String)
        ensures
            r@ == self.text(),
    {
        String::from_str("%").concat(index_text(self.0).as_str())
    }
}

/// Operation performed by a graph node.
#[derive(Debug)]
pub enum Op {
    /// Named graph input.
    Input {
        /// Input name.
        name: String,
        /// Declared input type.
        ty: TensorType,
    },
    /// Literal tensor data.
    Const {
        /// Row-major literal payload.
        data: TensorData,
        /// Logical shape.
        shape: Shape,
    },
    /// Elementwise addition.
    Add(NodeId, NodeId),
    /// Elementwise subtraction.
    Sub(NodeId, NodeId),
    /// Elementwise multiplication.
    Mul(NodeId, NodeId),
    /// Elementwise negation.
    Neg(NodeId),
    /// Elementwise rectifier.
    Relu(NodeId),
    /// Two-dimensional matrix multiplication.
    Matmul(NodeId, NodeId),
    /// Sum reduction over explicit axes.
    Sum {
        /// Input node.
        input: NodeId,
        /// Reduced axes.
        axes: Vec<usize>,
        /// Whether reduced axes are kept with extent one.
        keepdim: bool,
    },
    /// Logical reshape.
    Reshape {
        /// Input node.
        input: NodeId,
        /// New logical shape.
        new_shape: Shape,
    },
}

/// The contents of an [`Op`].
pub enum OpView {
    Input { name: Seq<char>, ty: TypeView },
    Const { data: DataView, shape: Seq<nat> },
    Add(NodeId, NodeId),
    Sub(NodeId, NodeId),
    Mul(NodeId, NodeId),
    Neg(NodeId),
    Relu(NodeId),
    Matmul(NodeId, NodeId),
    Sum { input: NodeId, axes: Seq<usize>, keepdim: bool },
    Reshape { input: NodeId, new_shape: Seq<nat> },
}

impl View for Op {
    type V = OpView;

    open spec fn view(&self) -> OpView {
        match *self {
            Op::Input { name, ty } => OpView::Input { name: name@, ty: ty@ },
            Op::Const { data, shape } => OpView::Const { data: data@, shape: shape@ },
            Op::Add(l, r) => OpView::Add(l, r),
            Op::Sub(l, r) => OpView::Sub(l, r),
            Op::Mul(l, r) => OpView::Mul(l, r),
            Op::Neg(x) => OpView::Neg(x),
            Op::Relu(x) => OpView::Relu(x),
            Op::Matmul(l, r) => OpView::Matmul(l, r),
            Op::Sum { input, axes, keepdim } => OpView::Sum { input, axes: axes@, keepdim },
            Op::Reshape { input, new_shape } => OpView::Reshape { input, new_shape: new_shape@ },
        }
    }
}

impl OpView {
    /// The operands in semantic order.
    pub open spec fn operands(self) -> Seq<NodeId> {
        match self {
            OpView::Input { .. } | OpView::Const { .. } => Seq::empty(),
            OpView::Add(l, r) | OpView::Sub(l, r) | OpView::Mul(l, r) | OpView::Matmul(l, r) => seq![
                l,
                r,
            ],
            OpView::Neg(input) | OpView::Relu(input) | OpView::Sum { input, .. }
            | OpView::Reshape { input, .. } => seq![input],
        }
    }

    /// The same operation with every operand replaced through `f`.
    pub open spec fn map(self, f: spec_fn(NodeId) -> NodeId) -> OpView {
        match self {
            OpView::Input { .. } | OpView::Const { .. } => self,
            OpView::Add(l, r) => OpView::Add(f(l), f(r)),
            OpView::Sub(l, r) => OpView::Sub(f(l), f(r)),
            OpView::Mul(l, r) => OpView::Mul(f(l), f(r)),
            OpView::Neg(x) => OpView::Neg(f(x)),
            OpView::Relu(x) => OpView::Relu(f(x)),
            OpView::Matmul(l, r) => OpView::Matmul(f(l), f(r)),
            OpView::Sum { input, axes, keepdim } => OpView::Sum { input: f(input), axes, keepdim },
            OpView::Reshape { input, new_shape } => OpView::Reshape { input: f(input), new_shape },
        }
    }

    /// The lower-case name of the operation.
    pub open spec fn name(self) -> Seq<char> {
        match self {
            OpView::Input { .. } => "input"@,
            OpView::Const { .. } => "const"@,
            OpView::Add(_, _) => "add"@,
            OpView::Sub(_, _) => "sub"@,
            OpView::Mul(_, _) => "mul"@,
            OpView::Neg(_) => "neg"@,
            OpView::Relu(_) => "relu"@,
            OpView::Matmul(_, _) => "matmul"@,
            OpView::Sum { .. } => "sum"@,
            OpView::Reshape { .. } => "reshape"@,
        }
    }
}

impl Clone for Op {
    fn clone(&self) -> (r: Self)
        ensures
            r@ == self@,
    {
        match self {
            Op::Input { name, ty } => Op::Input { name: name.clone(), ty: ty.clone() },
            Op::Const { data, shape } => Op::Const { data: data.clone(), shape: shape.clone() },
            Op::Add(l, r) => Op::Add(*l, *r),
            Op::Sub(l, r) => Op::Sub(*l, *r),
            Op::Mul(l, r) => Op::Mul(*l, *r),
            Op::Neg(x) => Op::Neg(*x),
            Op::Relu(x) => Op::Relu(*x),
            Op::Matmul(l, r) => Op::Matmul(*l, *r),
            Op::Sum { input, axes, keepdim } => Op::Sum {
                input: *input,
                axes: crate::data::copied(axes),
                keepdim: *keepdim,
            },
            Op::Reshape { input, new_shape } => Op::Reshape {
                input: *input,
                new_shape: new_shape.clone(),
            },
        }
    }
}

impl Op {
    /// Returns all operand node ids in semantic order.
    #[must_use]
    pub fn operands(&self) -> (r: Vec<NodeId>)
        ensures
            r@ == self@.operands(),
    {
        match self {
            Op::Input { .. } | Op::Const { .. } => Vec::new(),
            Op::Add(left, right) | Op::Sub(left, right) | Op::Mul(left, right) | Op::Matmul(
                left,
                right,
            ) => vec![*left, *right],
            Op::Neg(input) | Op::Relu(input) | Op::Sum { input, .. } | Op::Reshape {
                input,
                ..
            } => vec![*input],
        }
    }

    /// Returns a copy with every operand id rewritten through `f`.
    ///
    /// Input and const operations have no operands and are copied unchanged.
    /// Non-operand data is preserved.
    #[must_use]
    pub fn map_operands<F: Fn(NodeId) -> NodeId>(&self, f: F) -> (r: Self)
        requires
            forall|id: NodeId| #[trigger] f.requires((id,)),
        ensures
            forall|g: spec_fn(NodeId) -> NodeId|
                (forall|a: NodeId, b: NodeId| #[trigger] f.ensures((a,), b) ==> b == g(a))
                    ==> r@ == #[trigger] self@.map(g),
    {
        match self {
            Op::Input { name, ty } => Op::Input { name: name.clone(), ty: ty.clone() },
            Op::Const { data, shape } => Op::Const { data: data.clone(), shape: shape.clone() },
            Op::Add(left, right) => Op::Add(f(*left), f(*right)),
            Op::Sub(left, right) => Op::Sub(f(*left), f(*right)),
            Op::Mul(left, right) => Op::Mul(f(*left), f(*right)),
            Op::Neg(input) => Op::Neg(f(*input)),
            Op::Relu(input) => Op::Relu(f(*input)),
            Op::Matmul(left, right) => Op::Matmul(f(*left), f(*right)),
            Op::Sum { input, axes, keepdim } => Op::Sum {
                input: f(*input),
                axes: crate::data::copied(axes),
                keepdim: *keepdim,
            },
            Op::Reshape { input, new_shape } => Op::Reshape {
                input: f(*input),
                new_shape: new_shape.clone(),
            },
        }
    }

    /// Returns the lower-case operation name.
    #[must_use]
    pub fn op_name(&self) -> (r: &'static str)
        ensures
            r@ == self@.name(),
    {
        match self {
            Op::Input { .. } => "input",
            Op::Const { .. } => "const",
            Op::Add(_, _) => "add",
            Op::Sub(_, _) => "sub",
            Op::Mul(_, _) => "mul",
            Op::Neg(_) => "neg",
            Op::Relu(_) => "relu",
            Op::Matmul(_, _) => "matmul",
            Op::Sum { .. } => "sum",
            Op::Reshape { .. } => "reshape",
        }
    }
}

} // verus!

//! Graph type inference and per-operation shape validation.
use vstd::prelude::*;

use crate::dtype::DType;
use crate::error::IrError;
use crate::graph::{structure_error, well_formed, Graph, GraphView};
use crate::op::{NodeId, Op, OpView};
use crate::shape::{checked_numel, shape_text, Dim, Shape};
use crate::tensor_type::{TensorType, TypeView};
use crate::text::{decimal, index_text};

verus! {

/// Errors produced by type inference.
#[allow(inconsistent_fields)]
#[derive(Debug, PartialEq)]
pub enum TypeError {
    /// Two operands have different shapes.
    ShapeMismatch {
        /// Operation name.
        op: &'static str,
        /// Left operand shape.
        lhs: Shape,
        /// Right operand shape.
        rhs: Shape,
    },
    /// Two operands have different dtypes.
    DTypeMismatch {
        /// Operation name.
        op: &'static str,
        /// Left operand dtype.
        lhs: DType,
        /// Right operand dtype.
        rhs: DType,
    },
    /// A numeric operation received a non-numeric dtype.
    NonNumericDType {
        /// Operation name.
        op: &'static str,
        /// Rejected dtype.
        dtype: DType,
    },
    /// Matmul operands are not both rank two.
    MatmulRank {
        /// Left operand rank.
        lhs_rank: usize,
        /// Right operand rank.
        rhs_rank: usize,
    },
    /// Matmul contraction dimensions differ.
    MatmulContraction {
        /// Left operand shape.
        lhs: Shape,
        /// Right operand shape.
        rhs: Shape,
    },
    /// A reduced axis is outside the input rank.
    SumAxisOutOfRange {
        /// Rejected axis.
        axis: usize,
        /// Input rank.
        rank: usize,
    },
    /// A reduced axis is listed twice.
    SumDuplicateAxis {
        /// Repeated axis.
        axis: usize,
    },
    /// A reshape changes the element count.
    ReshapeNumelMismatch {
        /// Input element count.
        from: usize,
        /// Requested element count.
        to: usize,
    },
    /// Structure validation failed.
    Structure(IrError),
}

/// The contents of a [`TypeError`].
#[allow(inconsistent_fields)]
pub enum TypeErrorView {
    ShapeMismatch { op: Seq<char>, lhs: Seq<nat>, rhs: Seq<nat> },
    DTypeMismatch { op: Seq<char>, lhs: DType, rhs: DType },
    NonNumericDType { op: Seq<char>, dtype: DType },
    MatmulRank { lhs_rank: nat, rhs_rank: nat },
    MatmulContraction { lhs: Seq<nat>, rhs: Seq<nat> },
    SumAxisOutOfRange { axis: usize, rank: nat },
    SumDuplicateAxis { axis: usize },
    ReshapeNumelMismatch { from: usize, to: usize },
    Structure(IrError),
}

impl View for TypeError {
    type V = TypeErrorView;

    open spec fn view(&self) -> TypeErrorView {
        match *self {
            TypeError::ShapeMismatch { op, lhs, rhs } => TypeErrorView::ShapeMismatch {
                op: op@,
                lhs: lhs@,
                rhs: rhs@,
            },
            TypeError::DTypeMismatch { op, lhs, rhs } => TypeErrorView::DTypeMismatch {
                op: op@,
                lhs,
                rhs,
            },
            TypeError::NonNumericDType { op, dtype } => TypeErrorView::NonNumericDType {
                op: op@,
                dtype,
            },
            TypeError::MatmulRank { lhs_rank, rhs_rank } => TypeErrorView::MatmulRank {
                lhs_rank: lhs_rank as nat,
                rhs_rank: rhs_rank as nat,
            },
            TypeError::MatmulContraction { lhs, rhs } => TypeErrorView::MatmulContraction {
                lhs: lhs@,
                rhs: rhs@,
            },
            TypeError::SumAxisOutOfRange { axis, rank } => TypeErrorView::SumAxisOutOfRange {
                axis,
                rank: rank as nat,
            },
            TypeError::SumDuplicateAxis { axis } => TypeErrorView::SumDuplicateAxis { axis },
            TypeError::ReshapeNumelMismatch { from, to } => TypeErrorView::ReshapeNumelMismatch {
                from,
                to,
            },
            TypeError::Structure(e) => TypeErrorView::Structure(e),
        }
    }
}

impl TypeErrorView {
    /// The message of this error.
    pub open spec fn text(self) -> Seq<char> {
        match self {
            TypeErrorView::ShapeMismatch { op, lhs, rhs } => op + " shape mismatch: lhs "@
                + shape_text(lhs) + ", rhs "@ + shape_text(rhs),
            TypeErrorView::DTypeMismatch { op, lhs, rhs } => op + " dtype mismatch: lhs "@
                + lhs.text() + ", rhs "@ + rhs.text(),
            TypeErrorView::NonNumericDType { op, dtype } => op + " requires numeric dtype, got "@
                + dtype.text(),
            TypeErrorView::MatmulRank { lhs_rank, rhs_rank } =>
                "matmul requires rank-2 operands, got lhs rank "@ + decimal(lhs_rank)
                + ", rhs rank "@ + decimal(rhs_rank),
            TypeErrorView::MatmulContraction { lhs, rhs } => "matmul contraction mismatch: lhs "@
                + shape_text(lhs) + ", rhs "@ + shape_text(rhs),
            TypeErrorView::SumAxisOutOfRange { axis, rank } => "sum axis "@ + decimal(axis as nat)
                + " is out of range for rank "@ + decimal(rank),
            TypeErrorView::SumDuplicateAxis { axis } => "sum axis "@ + decimal(axis as nat)
                + " appears more than once"@,
            TypeErrorView::ReshapeNumelMismatch { from, to } =>
                "reshape changes element count from "@ + decimal(from as nat) + " to "@ + decimal(
                to as nat,
            ),
            TypeErrorView::Structure(e) => e.text(),
        }
    }
}

/// The type of each node of a graph.
#[derive(Debug, Clone)]
pub struct GraphTypes {
    pub types: Vec<TensorType>,
}

/// The contents of the types.
pub open spec fn type_views(types: Seq<TensorType>) -> Seq<TypeView> {
    types.map_values(|t: TensorType| t@)
}

impl View for GraphTypes {
    type V = Seq<TypeView>;

    open spec fn view(&self) -> Seq<TypeView> {
        type_views(self.types@)
    }
}

/// The type of an operand, or the error that it has none yet.
pub open spec fn operand_type(types: Seq<TypeView>, id: NodeId) -> Result<TypeView, TypeErrorView> {
    if id.0 < types.len() {
        Ok(types[id.0 as int])
    } else {
        Err(
            TypeErrorView::Structure(
                IrError::InvalidNodeId { id, num_nodes: types.len() as usize },
            ),
        )
    }
}

/// Elementwise operations need equal shapes, then equal dtypes, then a numeric dtype.
pub open spec fn binary_type(op: Seq<char>, l: TypeView, r: TypeView) -> Result<
    TypeView,
    TypeErrorView,
> {
    if l.shape != r.shape {
        Err(TypeErrorView::ShapeMismatch { op, lhs: l.shape, rhs: r.shape })
    } else if l.dtype != r.dtype {
        Err(TypeErrorView::DTypeMismatch { op, lhs: l.dtype, rhs: r.dtype })
    } else if !l.dtype.numeric() {
        Err(TypeErrorView::NonNumericDType { op, dtype: l.dtype })
    } else {
        Ok(l)
    }
}

/// Unary operations keep a numeric type.
pub open spec fn unary_type(op: Seq<char>, x: TypeView) -> Result<TypeView, TypeErrorView> {
    if x.dtype.numeric() {
        Ok(x)
    } else {
        Err(TypeErrorView::NonNumericDType { op, dtype: x.dtype })
    }
}

/// A matrix product of `[m, k]` and `[k, n]` has the shape `[m, n]`.
pub open spec fn matmul_type(l: TypeView, r: TypeView) -> Result<TypeView, TypeErrorView> {
    if l.shape.len() != 2 || r.shape.len() != 2 {
        Err(TypeErrorView::MatmulRank { lhs_rank: l.shape.len(), rhs_rank: r.shape.len() })
    } else if l.dtype != r.dtype {
        Err(TypeErrorView::DTypeMismatch { op: "matmul"@, lhs: l.dtype, rhs: r.dtype })
    } else if !l.dtype.numeric() {
        Err(TypeErrorView::NonNumericDType { op: "matmul"@, dtype: l.dtype })
    } else if l.shape[1] != r.shape[0] {
        Err(TypeErrorView::MatmulContraction { lhs: l.shape, rhs: r.shape })
    } else {
        Ok(TypeView { dtype: l.dtype, shape: seq![l.shape[0], r.shape[1]] })
    }
}

/// The error of the axis at `i`: out of range, or listed before.
pub open spec fn axis_error(axes: Seq<usize>, rank: nat, i: int) -> Option<TypeErrorView> {
    if axes[i] >= rank {
        Some(TypeErrorView::SumAxisOutOfRange { axis: axes[i], rank })
    } else if axes.take(i).contains(axes[i]) {
        Some(TypeErrorView::SumDuplicateAxis { axis: axes[i] })
    } else {
        None
    }
}

/// Whether an axis is listed.
pub open spec fn reduces(axes: Seq<usize>, axis: int) -> bool {
    exists|i: int| 0 <= i < axes.len() && #[trigger] axes[i] == axis
}

/// The shape after reducing the listed axes: extent one where they are kept, left out otherwise.
pub open spec fn reduced_shape(shape: Seq<nat>, axes: Seq<usize>, keepdim: bool) -> Seq<nat>
    decreases shape.len(),
{
    if shape.len() == 0 {
        Seq::empty()
    } else {
        let rest = reduced_shape(shape.drop_last(), axes, keepdim);
        if !reduces(axes, shape.len() - 1) {
            rest.push(shape.last())
        } else if keepdim {
            rest.push(1)
        } else {
            rest
        }
    }
}

/// Sums keep a numeric dtype and reduce distinct axes within the rank.
pub open spec fn sum_type(x: TypeView, axes: Seq<usize>, keepdim: bool) -> Result<
    TypeView,
    TypeErrorView,
> {
    if !x.dtype.numeric() {
        Err(TypeErrorView::NonNumericDType { op: "sum"@, dtype: x.dtype })
    } else {
        match crate::seqs::first_some(
            Seq::new(axes.len(), |i: int| axis_error(axes, x.shape.len(), i)),
        ) {
            Some(e) => Err(e),
            None => Ok(
                TypeView { dtype: x.dtype, shape: reduced_shape(x.shape, axes, keepdim) },
            ),
        }
    }
}

/// A reshape keeps the dtype and the element count.
pub open spec fn reshape_type(x: TypeView, new_shape: Seq<nat>) -> Result<TypeView, TypeErrorView> {
    match checked_numel(x.shape) {
        Err(e) => Err(TypeErrorView::Structure(e)),
        Ok(from) => match checked_numel(new_shape) {
            Err(e) => Err(TypeErrorView::Structure(e)),
            Ok(to) => if from == to {
                Ok(TypeView { dtype: x.dtype, shape: new_shape })
            } else {
                Err(TypeErrorView::ReshapeNumelMismatch { from, to })
            },
        },
    }
}

/// The type of an operation over operands of the given types.
pub open spec fn node_type(op: OpView, types: Seq<TypeView>) -> Result<TypeView, TypeErrorView> {
    match op {
        OpView::Input { name, ty } => Ok(ty),
        OpView::Const { data, shape } => Ok(TypeView { dtype: data.dtype(), shape }),
        OpView::Add(l, r) | OpView::Sub(l, r) | OpView::Mul(l, r) => match operand_type(types, l) {
            Err(e) => Err(e),
            Ok(lt) => match operand_type(types, r) {
                Err(e) => Err(e),
                Ok(rt) => binary_type(op.name(), lt, rt),
            },
        },
        OpView::Neg(x) | OpView::Relu(x) => match operand_type(types, x) {
            Err(e) => Err(e),
            Ok(xt) => unary_type(op.name(), xt),
        },
        OpView::Matmul(l, r) => match operand_type(types, l) {
            Err(e) => Err(e),
            Ok(lt) => match operand_type(types, r) {
                Err(e) => Err(e),
                Ok(rt) => matmul_type(lt, rt),
            },
        },
        OpView::Sum { input, axes, keepdim } => match operand_type(types, input) {
            Err(e) => Err(e),
            Ok(xt) => sum_type(xt, axes, keepdim),
        },
        OpView::Reshape { input, new_shape } => match operand_type(types, input) {
            Err(e) => Err(e),
            Ok(xt) => reshape_type(xt, new_shape),
        },
    }
}

/// The types of the first `n` nodes, or the first type error among them.
pub open spec fn infer_nodes(nodes: Seq<OpView>, n: nat) -> Result<Seq<TypeView>, TypeErrorView>
    decreases n,
{
    if n == 0 {
        Ok(Seq::empty())
    } else {
        match infer_nodes(nodes, (n - 1) as nat) {
            Err(e) => Err(e),
            Ok(types) => match node_type(nodes[n - 1], types) {
                Err(e) => Err(e),
                Ok(ty) => Ok(types.push(ty)),
            },
        }
    }
}

/// The types of a graph: structural errors come first, then type errors in node order.
pub open spec fn infer_graph(g: GraphView) -> Result<Seq<TypeView>, TypeErrorView> {
    match structure_error(g) {
        Some(e) => Err(TypeErrorView::Structure(e)),
        None => infer_nodes(g.nodes, g.nodes.len()),
    }
}

/// An error among the first nodes is the error of the whole.
pub proof fn lemma_infer_error(nodes: Seq<OpView>, m: nat, n: nat)
    requires
        m <= n,
        infer_nodes(nodes, m) is Err,
    ensures
        infer_nodes(nodes, n) == infer_nodes(nodes, m),
    decreases n,
{
    if m < n {
        lemma_infer_error(nodes, m, (n - 1) as nat);
    }
}

/// The types of the first nodes of a well-typed sequence, one by one.
pub proof fn lemma_infer_prefix(nodes: Seq<OpView>, n: nat)
    requires
        infer_nodes(nodes, n) is Ok,
    ensures
        infer_nodes(nodes, n)->Ok_0.len() == n,
        forall|i: int|
            0 <= i < n ==> node_type(
                #[trigger] nodes[i],
                infer_nodes(nodes, n)->Ok_0.take(i),
            ) == Ok::<TypeView, TypeErrorView>(infer_nodes(nodes, n)->Ok_0[i]),
        forall|i: nat|
            i <= n ==> #[trigger] infer_nodes(nodes, i) == Ok::<Seq<TypeView>, TypeErrorView>(
                infer_nodes(nodes, n)->Ok_0.take(i as int),
            ),
    decreases n,
{
    let types = infer_nodes(nodes, n)->Ok_0;
    if n > 0 {
        let m = (n - 1) as nat;
        if infer_nodes(nodes, m) is Err {
            lemma_infer_error(nodes, m, n);
        }
        lemma_infer_prefix(nodes, m);
        let shorter = infer_nodes(nodes, m)->Ok_0;
        assert(types.take(m as int) =~= shorter);
        assert forall|i: int| 0 <= i < n implies node_type(#[trigger] nodes[i], types.take(i))
            == Ok::<TypeView, TypeErrorView>(types[i]) by {
            if i < m {
                assert(types.take(i) =~= shorter.take(i));
            }
        }
        assert forall|i: nat| i <= n implies #[trigger] infer_nodes(nodes, i) == Ok::<
            Seq<TypeView>,
            TypeErrorView,
        >(types.take(i as int)) by {
            if i <= m {
                assert(types.take(i as int) =~= shorter.take(i as int));
            } else {
                assert(types.take(i as int) =~= types);
            }
        }
    } else {
        assert forall|i: nat| i <= n implies #[trigger] infer_nodes(nodes, i) == Ok::<
            Seq<TypeView>,
            TypeErrorView,
        >(types.take(i as int)) by {
            assert(types.take(0) =~= types);
        }
    }
}

impl Clone for TypeError {
    fn clone(&self) -> (r: Self)
        ensures
            r@ == self@,
    {
        match self {
            TypeError::ShapeMismatch { op, lhs, rhs } => TypeError::ShapeMismatch {
                op: *op,
                lhs: lhs.clone(),
                rhs: rhs.clone(),
            },
            TypeError::DTypeMismatch { op, lhs, rhs } => TypeError::DTypeMismatch {
                op: *op,
                lhs: *lhs,
                rhs: *rhs,
            },
            TypeError::NonNumericDType { op, dtype } => TypeError::NonNumericDType {
                op: *op,
                dtype: *dtype,
            },
            TypeError::MatmulRank { lhs_rank, rhs_rank } => TypeError::MatmulRank {
                lhs_rank: *lhs_rank,
                rhs_rank: *rhs_rank,
            },
            TypeError::MatmulContraction { lhs, rhs } => TypeError::MatmulContraction {
                lhs: lhs.clone(),
                rhs: rhs.clone(),
            },
            TypeError::SumAxisOutOfRange { axis, rank } => TypeError::SumAxisOutOfRange {
                axis: *axis,
                rank: *rank,
            },
            TypeError::SumDuplicateAxis { axis } => TypeError::SumDuplicateAxis { axis: *axis },
            TypeError::ReshapeNumelMismatch { from, to } => TypeError::ReshapeNumelMismatch {
                from: *from,
                to: *to,
            },
            TypeError::Structure(e) => TypeError::Structure(*e),
        }
    }
}

impl TypeError {
    /// Renders the message of this error.
    pub fn to_text(&self) -> (r: String)
        ensures
            r@ == self@.text(),
    {
        match self {
            TypeError::ShapeMismatch { op, lhs, rhs } => String::from_str(op)
                .concat(" shape mismatch: lhs ")
                .concat(lhs.to_text().as_str())
                .concat(", rhs ")
                .concat(rhs.to_text().as_str()),
            TypeError::DTypeMismatch { op, lhs, rhs } => String::from_str(op)
                .concat(" dtype mismatch: lhs ")
                .concat(lhs.to_text())
                .concat(", rhs ")
                .concat(rhs.to_text()),
            TypeError::NonNumericDType { op, dtype } => String::from_str(op)
                .concat(" requires numeric dtype, got ")
                .concat(dtype.to_text()),
            TypeError::MatmulRank { lhs_rank, rhs_rank } => String::from_str(
                "matmul requires rank-2 operands, got lhs rank ",
            )
                .concat(index_text(*lhs_rank).as_str())
                .concat(", rhs rank ")
                .concat(index_text(*rhs_rank).as_str()),
            TypeError::MatmulContraction { lhs, rhs } => String::from_str(
                "matmul contraction mismatch: lhs ",
            )
                .concat(lhs.to_text().as_str())
                .concat(", rhs ")
                .concat(rhs.to_text().as_str()),
            TypeError::SumAxisOutOfRange { axis, rank } => String::from_str("sum axis ")
                .concat(index_text(*axis).as_str())
                .concat(" is out of range for rank ")
                .concat(index_text(*rank).as_str()),
            TypeError::SumDuplicateAxis { axis } => String::from_str("sum axis ")
                .concat(index_text(*axis).as_str())
                .concat(" appears more than once"),
            TypeError::ReshapeNumelMismatch { from, to } => String::from_str(
                "reshape changes element count from ",
            )
                .concat(index_text(*from).as_str())
                .concat(" to ")
                .concat(index_text(*to).as_str()),
            TypeError::Structure(e) => e.to_text(),
        }
    }
}

impl GraphTypes {
    /// Returns the inferred type of a node.
    #[must_use]
    pub fn type_of(&self, id: NodeId) -> (r: Option<&TensorType>)
        ensures
            match r {
                Some(ty) => id.0 < self@.len() && *ty == self.types@[id.0 as int] && ty@
                    == self@[id.0 as int],
                None => id.0 >= self@.len(),
            },
    {
        if id.0 < self.types.len() {
            Some(&self.types[id.0])
        } else {
            None
        }
    }

    /// Returns the types of the outputs of `graph`, in output order.
    ///
    /// # Errors
    ///
    /// Returns the first output that has no type.
    pub fn output_types<'a>(&'a self, graph: &Graph) -> (r: Result<Vec<&'a TensorType>, TypeError>)
        ensures
            match r {
                Ok(list) => {
                    &&& list@.len() == graph@.outputs.len()
                    &&& forall|k: int|
                        0 <= k < list@.len() ==> (#[trigger] graph@.outputs[k]).0 < self@.len()
                            && list@[k]@ == self@[graph@.outputs[k].0 as int]
                },
                Err(e) => exists|k: int|
                    0 <= k < graph@.outputs.len() && (forall|j: int|
                        0 <= j < k ==> (#[trigger] graph@.outputs[j]).0 < self@.len()) && (
                    #[trigger] graph@.outputs[k]).0 >= self@.len() && e@
                        == TypeErrorView::Structure(
                        IrError::InvalidNodeId {
                            id: graph@.outputs[k],
                            num_nodes: self@.len() as usize,
                        },
                    ),
            },
    {
        let mut list: Vec<&'a TensorType> = Vec::new();
        let mut k: usize = 0;
        while k < graph.outputs.len()
            invariant
                k <= graph@.outputs.len(),
                list@.len() == k,
                forall|j: int|
                    0 <= j < k ==> (#[trigger] graph@.outputs[j]).0 < self@.len() && list@[j]@
                        == self@[graph@.outputs[j].0 as int],
            decreases graph@.outputs.len() - k,
        {
            let output: NodeId = graph.outputs[k];
            assert(output == graph@.outputs[k as int]);
            match self.type_of(output) {
                Some(ty) => {
                    list.push(ty);
                }
                None => {
                    return Err(
                        TypeError::Structure(
                            IrError::InvalidNodeId { id: output, num_nodes: self.types.len() },
                        ),
                    );
                }
            }
            k += 1;
        }
        Ok(list)
    }
}

/// Infers the type of every node.
///
/// # Errors
///
/// Returns the first structural error, or else the first type error in node order.
pub fn infer_types(graph: &Graph) -> (r: Result<GraphTypes, TypeError>)
    ensures
        match r {
            Ok(types) => infer_graph(graph@) == Ok::<Seq<TypeView>, TypeErrorView>(types@)
                && types@.len() == graph@.nodes.len() && well_formed(graph@),
            Err(e) => infer_graph(graph@) == Err::<Seq<TypeView>, TypeErrorView>(e@),
        },
{
    match graph.validate_structure() {
        Ok(()) => {}
        Err(e) => {
            return Err(TypeError::Structure(e));
        }
    }
    let ghost nodes = graph@.nodes;
    let mut types: Vec<TensorType> = Vec::new();
    assert(type_views(types@) =~= Seq::empty());
    let mut i: usize = 0;
    while i < graph.nodes.len()
        invariant
            nodes == graph@.nodes,
            i <= nodes.len(),
            types@.len() == i,
            structure_error(graph@) is None,
            infer_nodes(nodes, i as nat) == Ok::<Seq<TypeView>, TypeErrorView>(type_views(types@)),
        decreases nodes.len() - i,
    {
        assert(nodes[i as int] == graph.nodes@[i as int].op@);
        match infer_node_type(&graph.nodes[i].op, &types) {
            Ok(ty) => {
                let ghost before = types@;
                types.push(ty);
                proof {
                    assert(type_views(types@) =~= type_views(before).push(ty@));
                }
            }
            Err(e) => {
                proof {
                    lemma_infer_error(nodes, (i + 1) as nat, nodes.len());
                }
                return Err(e);
            }
        }
        i += 1;
    }
    Ok(GraphTypes { types })
}

fn infer_node_type(op: &Op, types: &Vec<TensorType>) -> (r: Result<TensorType, TypeError>)
    ensures
        match r {
            Ok(ty) => node_type(op@, type_views(types@)) == Ok::<TypeView, TypeErrorView>(ty@),
            Err(e) => node_type(op@, type_views(types@)) == Err::<TypeView, TypeErrorView>(e@),
        },
{
    match op {
        // Input nodes trust the declared tensor type.
        Op::Input { ty, .. } => Ok(ty.clone()),
        // Const nodes use payload dtype and declared logical shape.
        Op::Const { data, shape } => Ok(TensorType::new(data.dtype(), shape.clone())),
        Op::Add(left, right) | Op::Sub(left, right) | Op::Mul(left, right) => {
            infer_elementwise_binary(op.op_name(), *left, *right, types)
        }
        Op::Neg(input) | Op::Relu(input) => infer_numeric_unary(op.op_name(), *input, types),
        Op::Matmul(left, right) => infer_matmul(*left, *right, types),
        Op::Sum { input, axes, keepdim } => infer_sum(*input, axes, *keepdim, types),
        Op::Reshape { input, new_shape } => infer_reshape(*input, new_shape, types),
    }
}

fn operand(types: &Vec<TensorType>, id: NodeId) -> (r: Result<&TensorType, TypeError>)
    ensures
        match r {
            Ok(ty) => operand_type(type_views(types@), id) == Ok::<TypeView, TypeErrorView>(ty@),
            Err(e) => operand_type(type_views(types@), id) == Err::<TypeView, TypeErrorView>(e@),
        },
{
    if id.0 < types.len() {
        Ok(&types[id.0])
    } else {
        Err(TypeError::Structure(IrError::InvalidNodeId { id, num_nodes: types.len() }))
    }
}

fn infer_elementwise_binary(
    op: &'static str,
    left: NodeId,
    right: NodeId,
    types: &Vec<TensorType>,
) -> (r: Result<TensorType, TypeError>)
    ensures
        ({
            let want = match operand_type(type_views(types@), left) {
                Err(e) => Err(e),
                Ok(lt) => match operand_type(type_views(types@), right) {
                    Err(e) => Err(e),
                    Ok(rt) => binary_type(op@, lt, rt),
                },
            };
            match r {
                Ok(ty) => want == Ok::<TypeView, TypeErrorView>(ty@),
                Err(e) => want == Err::<TypeView, TypeErrorView>(e@),
            }
        }),
{
    let left_ty = match operand(types, left) {
        Ok(ty) => ty,
        Err(e) => {
            return Err(e);
        }
    };
    let right_ty = match operand(types, right) {
        Ok(ty) => ty,
        Err(e) => {
            return Err(e);
        }
    };
    if !left_ty.shape.same(&right_ty.shape) {
        return Err(
            TypeError::ShapeMismatch {
                op,
                lhs: left_ty.shape.clone(),
                rhs: right_ty.shape.clone(),
            },
        );
    }
    if left_ty.dtype != right_ty.dtype {
        return Err(TypeError::DTypeMismatch { op, lhs: left_ty.dtype, rhs: right_ty.dtype });
    }
    if !left_ty.dtype.is_numeric() {
        return Err(TypeError::NonNumericDType { op, dtype: left_ty.dtype });
    }
    Ok(left_ty.clone())
}

fn infer_numeric_unary(op: &'static str, input: NodeId, types: &Vec<TensorType>) -> (r: Result<
    TensorType,
    TypeError,
>)
    ensures
        ({
            let want = match operand_type(type_views(types@), input) {
                Err(e) => Err(e),
                Ok(xt) => unary_type(op@, xt),
            };
            match r {
                Ok(ty) => want == Ok::<TypeView, TypeErrorView>(ty@),
                Err(e) => want == Err::<TypeView, TypeErrorView>(e@),
            }
        }),
{
    let input_ty = match operand(types, input) {
        Ok(ty) => ty,
        Err(e) => {
            return Err(e);
        }
    };
    if !input_ty.dtype.is_numeric() {
        return Err(TypeError::NonNumericDType { op, dtype: input_ty.dtype });
    }
    Ok(input_ty.clone())
}

fn infer_matmul(left: NodeId, right: NodeId, types: &Vec<TensorType>) -> (r: Result<
    TensorType,
    TypeError,
>)
    ensures
        match r {
            Ok(ty) => node_type(OpView::Matmul(left, right), type_views(types@)) == Ok::<
                TypeView,
                TypeErrorView,
            >(ty@),
            Err(e) => node_type(OpView::Matmul(left, right), type_views(types@)) == Err::<
                TypeView,
                TypeErrorView,
            >(e@),
        },
{
    let left_ty = match operand(types, left) {
        Ok(ty) => ty,
        Err(e) => {
            return Err(e);
        }
    };
    let right_ty = match operand(types, right) {
        Ok(ty) => ty,
        Err(e) => {
            return Err(e);
        }
    };
    let lhs_rank: usize = left_ty.shape.rank();
    let rhs_rank: usize = right_ty.shape.rank();
    if lhs_rank != 2 || rhs_rank != 2 {
        return Err(TypeError::MatmulRank { lhs_rank, rhs_rank });
    }
    if left_ty.dtype != right_ty.dtype {
        return Err(
            TypeError::DTypeMismatch { op: "matmul", lhs: left_ty.dtype, rhs: right_ty.dtype },
        );
    }
    if !left_ty.dtype.is_numeric() {
        return Err(TypeError::NonNumericDType { op: "matmul", dtype: left_ty.dtype });
    }
    let m: usize = left_ty.shape.dim(0);
    let n: usize = right_ty.shape.dim(1);
    if left_ty.shape.dim(1) != right_ty.shape.dim(0) {
        return Err(
            TypeError::MatmulContraction {
                lhs: left_ty.shape.clone(),
                rhs: right_ty.shape.clone(),
            },
        );
    }
    let shape = Shape::new(vec![Dim(m), Dim(n)]);
    proof {
        assert(shape@ =~= seq![left_ty@.shape[0], right_ty@.shape[1]]);
    }
    Ok(TensorType::new(left_ty.dtype, shape))
}

/// Returns whether an axis is listed.
pub(crate) fn lists(axes: &Vec<usize>, axis: usize) -> (r: bool)
    ensures
        r == reduces(axes@, axis as int),
{
    let mut i: usize = 0;
    while i < axes.len()
        invariant
            i <= axes@.len(),
            forall|j: int| 0 <= j < i ==> #[trigger] axes@[j] != axis,
        decreases axes@.len() - i,
    {
        if axes[i] == axis {
            assert(axes@[i as int] == axis as int);
            return true;
        }
        i += 1;
    }
    false
}

/// Returns the shape after reducing the listed axes.
pub(crate) fn sum_output_shape(shape: &Shape, axes: &Vec<usize>, keepdim: bool) -> (r: Shape)
    ensures
        r@ == reduced_shape(shape@, axes@, keepdim),
{
    let mut dims: Vec<Dim> = Vec::new();
    let mut axis: usize = 0;
    while axis < shape.dims.len()
        invariant
            axis <= shape@.len(),
            dims@.map_values(|d: Dim| d.0 as nat) == reduced_shape(
                shape@.take(axis as int),
                axes@,
                keepdim,
            ),
        decreases shape@.len() - axis,
    {
        let ghost before = dims@;
        proof {
            assert(shape@.take(axis as int + 1).drop_last() =~= shape@.take(axis as int));
            assert(shape@.take(axis as int + 1).last() == shape@[axis as int]);
        }
        if !lists(axes, axis) {
            dims.push(shape.dims[axis]);
            proof {
                assert(dims@.map_values(|d: Dim| d.0 as nat) =~= before.map_values(
                    |d: Dim| d.0 as nat,
                ).push(shape@[axis as int]));
            }
        } else if keepdim {
            dims.push(Dim(1));
            proof {
                assert(dims@.map_values(|d: Dim| d.0 as nat) =~= before.map_values(
                    |d: Dim| d.0 as nat,
                ).push(1));
            }
        }
        axis += 1;
    }
    proof {
        assert(shape@.take(axis as int) =~= shape@);
    }
    Shape::new(dims)
}

fn infer_sum(input: NodeId, axes: &Vec<usize>, keepdim: bool, types: &Vec<TensorType>) -> (r:
    Result<TensorType, TypeError>)
    ensures
        ({
            let want = match operand_type(type_views(types@), input) {
                Err(e) => Err(e),
                Ok(xt) => sum_type(xt, axes@, keepdim),
            };
            match r {
                Ok(ty) => want == Ok::<TypeView, TypeErrorView>(ty@),
                Err(e) => want == Err::<TypeView, TypeErrorView>(e@),
            }
        }),
{
    let input_ty = match operand(types, input) {
        Ok(ty) => ty,
        Err(e) => {
            return Err(e);
        }
    };
    if !input_ty.dtype.is_numeric() {
        return Err(TypeError::NonNumericDType { op: "sum", dtype: input_ty.dtype });
    }
    let rank: usize = input_ty.shape.rank();
    let ghost errors = Seq::new(axes@.len(), |i: int| axis_error(axes@, rank as nat, i));
    let mut reduced: Vec<bool> = Vec::new();
    let mut i: usize = 0;
    while i < rank
        invariant
            i <= rank,
            reduced@.len() == i,
            forall|a: int| 0 <= a < i ==> reduced@[a] == false,
        decreases rank - i,
    {
        reduced.push(false);
        i += 1;
    }
    let mut i: usize = 0;
    while i < axes.len()
        invariant
            i <= axes@.len(),
            reduced@.len() == rank,
            rank == input_ty@.shape.len(),
            errors == Seq::new(axes@.len(), |i: int| axis_error(axes@, rank as nat, i)),
            forall|j: int| 0 <= j < i ==> errors[j] is None,
            forall|a: int|
                0 <= a < rank ==> (#[trigger] reduced@[a] <==> axes@.take(i as int).contains(
                    a as usize,
                )),
            input_ty@.dtype.numeric(),
            operand_type(type_views(types@), input) == Ok::<TypeView, TypeErrorView>(input_ty@),
        decreases axes@.len() - i,
    {
        let axis: usize = axes[i];
        if axis >= rank {
            proof {
                crate::seqs::lemma_first_some_at(errors, i as int);
            }
            return Err(TypeError::SumAxisOutOfRange { axis, rank });
        }
        if reduced[axis] {
            proof {
                crate::seqs::lemma_first_some_at(errors, i as int);
            }
            return Err(TypeError::SumDuplicateAxis { axis });
        }
        reduced.set(axis, true);
        proof {
            let shorter = axes@.take(i as int);
            let longer = axes@.take(i as int + 1);
            assert(longer =~= shorter.push(axis));
            assert forall|a: int| 0 <= a < rank implies (#[trigger] reduced@[a]
                <==> longer.contains(a as usize)) by {
                if a == axis {
                    assert(longer[i as int] == axis);
                } else {
                    if shorter.contains(a as usize) {
                        let p = shorter.index_of(a as usize);
                        assert(longer[p] == a as usize);
                    }
                    if longer.contains(a as usize) {
                        let p = longer.index_of(a as usize);
                        assert(shorter[p] == a as usize);
                    }
                }
            }
        }
        i += 1;
    }
    proof {
        crate::seqs::lemma_first_some_none(errors);
    }
    Ok(TensorType::new(input_ty.dtype, sum_output_shape(&input_ty.shape, axes, keepdim)))
}

fn infer_reshape(input: NodeId, new_shape: &Shape, types: &Vec<TensorType>) -> (r: Result<
    TensorType,
    TypeError,
>)
    ensures
        ({
            let want = match operand_type(type_views(types@), input) {
                Err(e) => Err(e),
                Ok(xt) => reshape_type(xt, new_shape@),
            };
            match r {
                Ok(ty) => want == Ok::<TypeView, TypeErrorView>(ty@),
                Err(e) => want == Err::<TypeView, TypeErrorView>(e@),
            }
        }),
{
    let input_ty = match operand(types, input) {
        Ok(ty) => ty,
        Err(e) => {
            return Err(e);
        }
    };
    let from: usize = match input_ty.shape.numel() {
        Ok(count) => count,
        Err(e) => {
            return Err(TypeError::Structure(e));
        }
    };
    let to: usize = match new_shape.numel() {
        Ok(count) => count,
        Err(e) => {
            return Err(TypeError::Structure(e));
        }
    };
    if from != to {
        return Err(TypeError::ReshapeNumelMismatch { from, to });
    }
    Ok(TensorType::new(input_ty.dtype, new_shape.clone()))
}

} // verus!

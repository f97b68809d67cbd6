//! What inferred types say of operands and results.
use vstd::prelude::*;

use crate::dtype::DType;
use crate::infer::node_type;
use crate::op::{NodeId, OpView};
use crate::shape::numel;
use crate::tensor_type::TypeView;

verus! {

/// Elementwise operations on two tensors are typed exactly where both have the same type, of
/// numbers, and the result has that type too.
pub proof fn elementwise_operands_agree(l: NodeId, r: NodeId, types: Seq<TypeView>)
    requires
        l.0 < types.len(),
        r.0 < types.len(),
    ensures
        forall|op: OpView|
            op == OpView::Add(l, r) || op == OpView::Sub(l, r) || op == OpView::Mul(l, r) ==> {
                &&& #[trigger] node_type(op, types) is Ok <==> {
                    &&& types[l.0 as int].shape == types[r.0 as int].shape
                    &&& types[l.0 as int].dtype == types[r.0 as int].dtype
                    &&& types[l.0 as int].dtype != DType::Bool
                }
                &&& node_type(op, types) is Ok ==> node_type(op, types)->Ok_0
                    == types[l.0 as int] && node_type(op, types)->Ok_0.shape
                    == types[r.0 as int].shape
            },
{
}

/// Elementwise operations on one tensor are typed exactly where it holds numbers, and keep its
/// type.
pub proof fn unary_operations_keep_the_type(x: NodeId, types: Seq<TypeView>)
    requires
        x.0 < types.len(),
    ensures
        forall|op: OpView|
            op == OpView::Neg(x) || op == OpView::Relu(x) ==> {
                &&& #[trigger] node_type(op, types) is Ok <==> types[x.0 as int].dtype
                    != DType::Bool
                &&& node_type(op, types) is Ok ==> node_type(op, types)->Ok_0 == types[x.0 as int]
            },
{
}

/// A matrix product is typed exactly for matrices of one numeric type whose inner extents agree;
/// it has the outer extents.
pub proof fn products_contract_the_inner_extent(l: NodeId, r: NodeId, types: Seq<TypeView>)
    requires
        l.0 < types.len(),
        r.0 < types.len(),
    ensures
        ({
            let (x, y) = (types[l.0 as int], types[r.0 as int]);
            let typed = node_type(OpView::Matmul(l, r), types);
            &&& typed is Ok <==> {
                &&& x.shape.len() == 2 && y.shape.len() == 2
                &&& x.dtype == y.dtype && x.dtype != DType::Bool
                &&& x.shape[1] == y.shape[0]
            }
            &&& typed is Ok ==> {
                &&& typed->Ok_0.dtype == x.dtype
                &&& typed->Ok_0.shape.len() == 2
                &&& typed->Ok_0.shape[0] == x.shape[0]
                &&& typed->Ok_0.shape[1] == y.shape[1]
            }
        }),
{
}

/// A reshape that is typed keeps the element type and the number of elements.
pub proof fn reshapes_keep_the_count(x: NodeId, new_shape: Seq<nat>, types: Seq<TypeView>)
    requires
        x.0 < types.len(),
        node_type(OpView::Reshape { input: x, new_shape }, types) is Ok,
    ensures
        ({
            let typed = node_type(OpView::Reshape { input: x, new_shape }, types)->Ok_0;
            &&& typed.dtype == types[x.0 as int].dtype
            &&& typed.shape == new_shape
            &&& numel(new_shape) == numel(types[x.0 as int].shape)
        }),
{
    crate::shape::lemma_numel_fits_prefix(new_shape, 0);
    crate::shape::lemma_numel_fits_prefix(types[x.0 as int].shape, 0);
}

/// A sum that is typed keeps the element type, lists each axis once and within the rank, and with
/// `keepdim` keeps the rank.
pub proof fn sums_reduce_listed_axes(
    x: NodeId,
    axes: Seq<usize>,
    keepdim: bool,
    types: Seq<TypeView>,
)
    requires
        x.0 < types.len(),
        node_type(OpView::Sum { input: x, axes, keepdim }, types) is Ok,
    ensures
        ({
            let from = types[x.0 as int];
            let typed = node_type(OpView::Sum { input: x, axes, keepdim }, types)->Ok_0;
            &&& typed.dtype == from.dtype
            &&& forall|i: int| 0 <= i < axes.len() ==> #[trigger] axes[i] < from.shape.len()
            &&& axes.no_duplicates()
            &&& keepdim ==> typed.shape.len() == from.shape.len()
        }),
{
    let from = types[x.0 as int];
    let errors = Seq::new(
        axes.len(),
        |i: int| crate::infer::axis_error(axes, from.shape.len(), i),
    );
    crate::seqs::lemma_first_some_all(errors);
    assert forall|i: int| 0 <= i < axes.len() implies #[trigger] axes[i] < from.shape.len() by {
        assert(errors[i] is None);
    }
    assert forall|i: int, j: int| 0 <= i < axes.len() && 0 <= j < axes.len() && i != j implies
        axes[i] != axes[j] by {
        assert(errors[i] is None && errors[j] is None);
        if i < j {
            assert(axes.take(j)[i] == axes[i]);
        } else {
            assert(axes.take(i)[j] == axes[j]);
        }
    }
    if keepdim {
        lemma_kept_rank(from.shape, axes);
    }
}

proof fn lemma_kept_rank(shape: Seq<nat>, axes: Seq<usize>)
    ensures
        crate::infer::reduced_shape(shape, axes, true).len() == shape.len(),
    decreases shape.len(),
{
    if shape.len() > 0 {
        lemma_kept_rank(shape.drop_last(), axes);
    }
}

} // verus!

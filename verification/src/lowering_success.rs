//! When graphs can be lowered.
use vstd::prelude::*;

use crate::domain::{literal_zero, Domain};
use crate::draws::{lemma_positive, positive};
use crate::eval::{eval_graph, eval_nodes, leaf_error, leaf_errors};
use crate::graph::{validation_accepts_exactly_well_formed, GraphView};
use crate::index_laws::{count_fits, lemma_strided_exists, strides_fit};
use crate::infer::{infer_graph, lemma_infer_prefix, node_type, reduced_shape, TypeErrorView};
use crate::interp_loops::{eval_kernel, LoopErrorView};
use crate::loop_ir::BufferId;
use crate::lower::{
    all_some, extents_fit, lemma_reduced_vars_rank, lower_along, lower_graph, lower_node,
    none_placed, reduced_vars, vars_from, LowerState,
};
use crate::lowering::{lowering_preserves_evaluation, sizes_fit};
use crate::op::{NodeId, OpView};
use crate::seqs::lemma_first_some_all;
use crate::shape::numel;
use crate::soundness::{inputs_filled, lemma_eval_prefix, lemma_values_typed};
use crate::tensor::TensorView;
use crate::tensor_type::TypeView;
use crate::topo::{ordered_graphs_have_a_schedule, schedule, topo};

verus! {

/// The loops of the nests that a node is lowered to.
pub open spec fn loop_count(op: OpView, ty: TypeView, types: Seq<TypeView>) -> nat {
    match op {
        OpView::Input { .. } | OpView::Const { .. } | OpView::Reshape { .. } => 0,
        OpView::Matmul(_, _) => 3,
        OpView::Sum { input, .. } => ty.shape.len() + types[input.0 as int].shape.len(),
        _ => ty.shape.len(),
    }
}

/// The buffers that a node is lowered to.
pub open spec fn buffer_count(op: OpView) -> nat {
    if op is Reshape {
        0
    } else {
        1
    }
}

pub open spec fn loop_counts(nodes: Seq<OpView>, types: Seq<TypeView>) -> Seq<nat> {
    Seq::new(nodes.len(), |i: int| loop_count(nodes[i], types[i], types))
}

pub open spec fn buffer_counts(nodes: Seq<OpView>) -> Seq<nat> {
    nodes.map_values(|op: OpView| buffer_count(op))
}

/// The sum of the first `n` counts.
pub open spec fn count_sum(counts: Seq<nat>, n: nat) -> nat
    decreases n,
{
    if n == 0 {
        0
    } else {
        count_sum(counts, (n - 1) as nat) + counts[n - 1]
    }
}

/// Every loop variable and every buffer has an id.
pub open spec fn ids_fit(nodes: Seq<OpView>, types: Seq<TypeView>) -> bool {
    &&& count_sum(loop_counts(nodes, types), nodes.len()) <= u32::MAX
    &&& count_sum(buffer_counts(nodes), nodes.len()) <= u32::MAX + 1
}

/// Every shape can be indexed: its extents and strides can be expressed.
pub open spec fn shapes_indexable(types: Seq<TypeView>) -> bool {
    forall|i: int|
        0 <= i < types.len() ==> extents_fit((#[trigger] types[i]).shape) && strides_fit(
            types[i].shape,
        )
}

/// Every extent is at least one.
pub open spec fn extents_positive(types: Seq<TypeView>) -> bool {
    forall|i: int| 0 <= i < types.len() ==> positive((#[trigger] types[i]).shape)
}

/// The sum of the counts of the placed nodes among the first `n`.
spec fn placed_sum(counts: Seq<nat>, placed: Seq<Option<BufferId>>, n: nat) -> nat
    decreases n,
{
    if n == 0 {
        0
    } else {
        placed_sum(counts, placed, (n - 1) as nat) + (if placed[n - 1] is Some {
            counts[n - 1]
        } else {
            0
        })
    }
}

/// Placing a node adds its count.
proof fn lemma_place_adds(
    counts: Seq<nat>,
    placed: Seq<Option<BufferId>>,
    i: int,
    id: BufferId,
    n: nat,
)
    requires
        0 <= i < placed.len(),
        n <= placed.len(),
        placed[i] is None,
    ensures
        placed_sum(counts, placed.update(i, Some(id)), n) == placed_sum(counts, placed, n) + (if i
            < n {
            counts[i]
        } else {
            0
        }),
    decreases n,
{
    if n > 0 {
        lemma_place_adds(counts, placed, i, id, (n - 1) as nat);
    }
}

/// The placed nodes have no more than all.
proof fn lemma_placed_within(counts: Seq<nat>, placed: Seq<Option<BufferId>>, n: nat)
    ensures
        placed_sum(counts, placed, n) <= count_sum(counts, n),
    decreases n,
{
    if n > 0 {
        lemma_placed_within(counts, placed, (n - 1) as nat);
    }
}

/// Nothing placed counts nothing.
proof fn lemma_none_placed(counts: Seq<nat>, m: nat, n: nat)
    requires
        n <= m,
    ensures
        placed_sum(counts, none_placed(m), n) == 0,
    decreases n,
{
    if n > 0 {
        lemma_none_placed(counts, m, (n - 1) as nat);
    }
}

/// A node is lowered where its shapes can be indexed and ids are left.
proof fn lemma_node_lowers(
    st: LowerState,
    nodes: Seq<OpView>,
    types: Seq<TypeView>,
    i: int,
    placed: Seq<Option<BufferId>>,
)
    requires
        0 <= i < nodes.len(),
        types.len() == nodes.len(),
        shapes_indexable(types),
        node_type(nodes[i], types.take(i)) == Ok::<TypeView, TypeErrorView>(types[i]),
        match nodes[i] {
            OpView::Input { name, ty } => ty.dtype.numeric(),
            OpView::Const { data, shape } => data.dtype().numeric(),
            _ => true,
        },
        st.next + loop_count(nodes[i], types[i], types) <= u32::MAX,
        st.buffers.len() + buffer_count(nodes[i]) <= u32::MAX + 1,
    ensures
        lower_node(st, nodes[i], types[i], types, placed) is Ok,
        ({
            let st1 = lower_node(st, nodes[i], types[i], types, placed)->Ok_0.0;
            &&& st1.next == st.next + loop_count(nodes[i], types[i], types)
            &&& st1.buffers.len() == st.buffers.len() + buffer_count(nodes[i])
        }),
{
    let ty = types[i];
    let shape = ty.shape;
    assert(extents_fit(shape) && strides_fit(shape));
    let vars = vars_from(st.next, shape.len());
    assert(all_some(vars).len() == shape.len());
    lemma_strided_exists(all_some(vars), shape, "row-major stride overflow"@);
    match nodes[i] {
        OpView::Matmul(l, r) => {
            let a = types[l.0 as int].shape;
            let b = types[r.0 as int].shape;
            assert(types.take(i)[l.0 as int] == types[l.0 as int]);
            assert(types.take(i)[r.0 as int] == types[r.0 as int]);
            assert(extents_fit(a));
            assert(extents_fit(b));
            assert(a[0] <= i64::MAX && a[1] <= i64::MAX && b[1] <= i64::MAX);
            let dims = seq![a[0], b[1], a[1]];
            assert(extents_fit(dims));
        },
        OpView::Sum { input, axes, keepdim } => {
            let wide = types[input.0 as int].shape;
            assert(types.take(i)[input.0 as int] == types[input.0 as int]);
            assert(shape == reduced_shape(wide, axes, keepdim));
            assert(extents_fit(wide) && strides_fit(wide));
            let inner = vars_from(st.next + shape.len(), wide.len());
            lemma_strided_exists(all_some(inner), wide, "row-major stride overflow"@);
            lemma_reduced_vars_rank(inner, wide, axes, keepdim);
            lemma_strided_exists(
                reduced_vars(inner, axes, keepdim),
                shape,
                "sum output stride overflow"@,
            );
        },
        _ => {},
    }
}

/// The nodes of a schedule are lowered one by one.
proof fn lemma_along_lowers(
    nodes: Seq<OpView>,
    types: Seq<TypeView>,
    order: Seq<NodeId>,
    n: nat,
)
    requires
        schedule(nodes, order),
        n <= order.len(),
        types.len() == nodes.len(),
        shapes_indexable(types),
        ids_fit(nodes, types),
        forall|i: int|
            0 <= i < nodes.len() ==> node_type(#[trigger] nodes[i], types.take(i)) == Ok::<
                TypeView,
                TypeErrorView,
            >(types[i]),
        forall|i: int|
            0 <= i < nodes.len() ==> match #[trigger] nodes[i] {
                OpView::Input { name, ty } => ty.dtype.numeric(),
                OpView::Const { data, shape } => data.dtype().numeric(),
                _ => true,
            },
    ensures
        lower_along(nodes, types, order, n) is Ok,
        ({
            let (st, placed) = lower_along(nodes, types, order, n)->Ok_0;
            let all = nodes.len();
            &&& placed.len() == all
            &&& forall|k: int| n <= k < order.len() ==> placed[(#[trigger] order[k]).0 as int] is None
            &&& st.next == placed_sum(loop_counts(nodes, types), placed, all)
            &&& st.buffers.len() == placed_sum(buffer_counts(nodes), placed, all)
        }),
    decreases n,
{
    let all = nodes.len();
    let loops = loop_counts(nodes, types);
    let buffers = buffer_counts(nodes);
    if n == 0 {
        lemma_none_placed(loops, all, all);
        lemma_none_placed(buffers, all, all);
        assert forall|k: int| 0 <= k < order.len() implies none_placed(all)[(
        #[trigger] order[k]).0 as int] is None by {}
    } else {
        lemma_along_lowers(nodes, types, order, (n - 1) as nat);
        let (st, placed) = lower_along(nodes, types, order, (n - 1) as nat)->Ok_0;
        let i = order[n - 1].0 as int;
        assert(placed[i] is None);
        let trial = placed.update(i, Some(BufferId(0)));
        lemma_place_adds(loops, placed, i, BufferId(0), all);
        lemma_place_adds(buffers, placed, i, BufferId(0), all);
        lemma_placed_within(loops, trial, all);
        lemma_placed_within(buffers, trial, all);
        assert(node_type(nodes[i], types.take(i)) == Ok::<TypeView, TypeErrorView>(types[i]));
        lemma_node_lowers(st, nodes, types, i, placed);
        let (st1, id) = lower_node(st, nodes[i], types[i], types, placed)->Ok_0;
        lemma_place_adds(loops, placed, i, id, all);
        lemma_place_adds(buffers, placed, i, id, all);
        let after = placed.update(i, Some(id));
        assert forall|k: int| n <= k < order.len() implies after[(
        #[trigger] order[k]).0 as int] is None by {
            assert(order[k] != order[n - 1]);
            assert(order[k] == NodeId(order[k].0));
        }
    }
}

/// A positive shape whose elements can be counted can be indexed.
proof fn lemma_positive_indexable(shape: Seq<nat>, k: int)
    requires
        positive(shape),
        count_fits(numel(shape)),
        0 <= k <= shape.len(),
    ensures
        count_fits(numel(shape.skip(k))),
        numel(shape.skip(k)) >= 1,
        k < shape.len() ==> shape[k] <= numel(shape.skip(k)),
    decreases k,
{
    if k == 0 {
        assert(shape.skip(0) =~= shape);
    } else {
        lemma_positive_indexable(shape, k - 1);
    }
    let rest = shape.skip(k);
    assert(positive(rest)) by {
        assert forall|i: int| 0 <= i < rest.len() implies #[trigger] rest[i] >= 1 by {
            assert(shape[k + i] >= 1);
        }
    }
    lemma_positive(rest);
    if k > 0 {
        let outer = shape.skip(k - 1);
        crate::nests::lemma_numel_front(outer);
        assert(outer.drop_first() =~= rest);
        assert(outer[0] == shape[k - 1] && shape[k - 1] >= 1);
        let a = outer[0];
        let b = numel(rest);
        assert(a * b >= b) by (nonlinear_arith)
            requires
                a >= 1,
        ;
    }
    if k < shape.len() {
        crate::nests::lemma_numel_front(rest);
        let inner = rest.drop_first();
        assert(positive(inner)) by {
            assert forall|i: int| 0 <= i < inner.len() implies #[trigger] inner[i] >= 1 by {
                assert(rest[i + 1] >= 1);
            }
        }
        lemma_positive(inner);
        assert(rest[0] == shape[k]);
        let a = rest[0];
        let b = numel(inner);
        assert(a * b >= a) by (nonlinear_arith)
            requires
                b >= 1,
        ;
    }
}

/// A graph that evaluates and whose shapes can be indexed is lowered, where ids are left. The
/// output shapes of its kernel are the inferred ones.
pub proof fn indexable_graphs_lower<D: Domain>(
    g: GraphView,
    inputs: Map<Seq<char>, TensorView<D::V>>,
)
    requires
        g.nodes.len() <= usize::MAX,
        eval_graph::<D>(g, inputs) is Ok,
        shapes_indexable(infer_graph(g)->Ok_0),
        ids_fit(g.nodes, infer_graph(g)->Ok_0),
    ensures
        lower_graph(g) is Ok,
        lower_graph(g)->Ok_0.output_shapes == g.outputs.map_values(
            |id: NodeId| infer_graph(g)->Ok_0[id.0 as int].shape,
        ),
{
    let types = infer_graph(g)->Ok_0;
    validation_accepts_exactly_well_formed(g);
    lemma_infer_prefix(g.nodes, g.nodes.len());
    lemma_first_some_all(leaf_errors(g.nodes, inputs));
    ordered_graphs_have_a_schedule(g.nodes);
    let order = topo(g.nodes)->Ok_0;
    assert forall|i: int| 0 <= i < g.nodes.len() implies match #[trigger] g.nodes[i] {
        OpView::Input { name, ty } => ty.dtype.numeric(),
        OpView::Const { data, shape } => data.dtype().numeric(),
        _ => true,
    } by {
        assert(leaf_errors(g.nodes, inputs)[i] is None);
    }
    lemma_along_lowers(g.nodes, types, order, order.len());
}

/// A graph that evaluates, whose extents are all positive, is lowered, and its kernel evaluates
/// to the same outputs, in the same shapes. Element counts must be within `i64`, and ids must be
/// left for the buffers and loops.
pub proof fn evaluated_graphs_lower<D: Domain>(
    g: GraphView,
    inputs: Map<Seq<char>, TensorView<D::V>>,
)
    requires
        literal_zero::<D>(),
        g.nodes.len() <= usize::MAX,
        eval_graph::<D>(g, inputs) is Ok,
        inputs_filled(inputs),
        extents_positive(infer_graph(g)->Ok_0),
        sizes_fit(infer_graph(g)->Ok_0),
        ids_fit(g.nodes, infer_graph(g)->Ok_0),
    ensures
        lower_graph(g) is Ok,
        lower_graph(g)->Ok_0.output_shapes == g.outputs.map_values(
            |id: NodeId| infer_graph(g)->Ok_0[id.0 as int].shape,
        ),
        eval_kernel::<D>(lower_graph(g)->Ok_0, inputs) == Ok::<
            Seq<TensorView<D::V>>,
            LoopErrorView,
        >(eval_graph::<D>(g, inputs)->Ok_0),
{
    let types = infer_graph(g)->Ok_0;
    let n = g.nodes.len();
    validation_accepts_exactly_well_formed(g);
    lemma_infer_prefix(g.nodes, n);
    lemma_eval_prefix::<D>(g.nodes, inputs, n);
    lemma_first_some_all(leaf_errors(g.nodes, inputs));
    assert forall|i: int| 0 <= i < n implies leaf_error(#[trigger] g.nodes[i], inputs) is None by {
        assert(leaf_errors(g.nodes, inputs)[i] is None);
    }
    lemma_values_typed::<D>(g.nodes, inputs, n);
    let values = eval_nodes::<D>(g.nodes, inputs, n)->Ok_0;
    assert forall|i: int| 0 <= i < types.len() implies extents_fit((#[trigger] types[i]).shape)
        && strides_fit(types[i].shape) by {
        let shape = types[i].shape;
        assert(values[i].shape == shape && values[i].filled());
        crate::shape::lemma_numel_fits_prefix(shape, 0);
        assert(numel(types[i].shape) <= i64::MAX);
        assert forall|k: int| 0 <= k <= shape.len() implies count_fits(
            numel(#[trigger] shape.skip(k)),
        ) by {
            lemma_positive_indexable(shape, k);
        }
        assert forall|k: int| 0 <= k < shape.len() implies #[trigger] shape[k] <= i64::MAX by {
            lemma_positive_indexable(shape, k);
        }
    }
    indexable_graphs_lower::<D>(g, inputs);
    lowering_preserves_evaluation::<D>(g, inputs);
}

} // verus!

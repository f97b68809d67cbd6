//! From graphs to C: the emitted statements of a lowered graph compute the graph's outputs.
use vstd::prelude::*;

use crate::affine::{AffineView, LoopVar};
use crate::c_expressions::{negates_literals, plain_scalar};
use crate::c_laws::{emitted_kernels_leave_their_outputs, mentions, plain_stmt, plain_stmts};
use crate::c_meaning::{
    closed_affine, closed_scalar, closed_stmt, closed_stmts,
    emitted_statements_run_to_the_same_buffers, indexable,
};
use crate::c_reader::{run_c_block, statements_in};
use crate::domain::{literal_zero, Domain};
use crate::emit_c::stmts_c;
use crate::eval::{eval_graph, BinaryOp, UnaryOp};
use crate::graph::GraphView;
use crate::infer::infer_graph;
use crate::interp_loops::{allocated, initial, LoopState};
use crate::loop_ir::{BufferId, BufferView, KernelView, RoleView, ScalarView, StmtView};
use crate::lower::{
    all_some, assign, binary_expr, buffer_of, extents_fit, fixed, linear, load, lower_accumulate,
    lower_along, lower_binary, lower_elementwise, lower_graph, lower_matmul, lower_node, lower_sum,
    lower_unary, matrix_index, multiply_add, nest, reduced_vars, row_major, strided,
    sum_output_index, unary_expr, vars_from, zero_literal, LowerState,
};
use crate::lowering::{lowering_preserves_evaluation, sizes_fit};
use crate::op::{NodeId, OpView};
use crate::seqs::lemma_collect_ok;
use crate::shape::{lemma_numel_fits_prefix, numel};
use crate::soundness::inputs_filled;
use crate::tensor::TensorView;
use crate::tensor_type::TypeView;
use crate::topo::topo;

verus! {

/// The variables as a scope.
spec fn scope_of(vars: Seq<LoopVar>) -> Set<u32> {
    Set::new(|v: u32| exists|i: int| 0 <= i < vars.len() && #[trigger] vars[i].0 == v)
}

/// No variable is listed twice.
spec fn all_different(vars: Seq<LoopVar>) -> bool {
    forall|i: int, j: int| 0 <= i < j < vars.len() ==> #[trigger] vars[i].0 != #[trigger] vars[j].0
}

/// The statement is plain and closed.
spec fn tidy_stmt(s: StmtView, scope: Set<u32>) -> bool {
    plain_stmt(s, scope) && closed_stmt(s, scope)
}

/// The statements are plain and closed.
spec fn tidy(body: Seq<StmtView>) -> bool {
    plain_stmts(body, Set::empty()) && closed_stmts(body, Set::empty())
}

/// A row-major index has no negative strides, and no variables but its own.
proof fn lemma_strided_closed(
    vars: Seq<Option<LoopVar>>,
    shape: Seq<nat>,
    overflow: Seq<char>,
    scope: Set<u32>,
)
    requires
        strided(vars, shape, overflow) is Ok,
        vars.len() == shape.len(),
        forall|i: int|
            0 <= i < vars.len() && (#[trigger] vars[i]) is Some ==> scope.contains(
                vars[i]->Some_0.0,
            ),
    ensures
        closed_affine(linear(strided(vars, shape, overflow)->Ok_0.0), scope),
    decreases shape.len(),
{
    if shape.len() > 0 {
        let fewer = vars.drop_first();
        assert forall|i: int| 0 <= i < fewer.len() && (#[trigger] fewer[i]) is Some implies
            scope.contains(fewer[i]->Some_0.0) by {
            assert(fewer[i] == vars[i + 1]);
        }
        lemma_strided_closed(fewer, shape.drop_first(), overflow, scope);
        let terms = strided(fewer, shape.drop_first(), overflow)->Ok_0.0;
        let e = linear(strided(vars, shape, overflow)->Ok_0.0);
        let shift: int = if vars[0] is Some {
            1
        } else {
            0
        };
        assert forall|i: int| 0 <= i < e.terms.len() implies (#[trigger] e.terms[i]).1 >= 0 && (
        e.terms[i].1 != 0 ==> scope.contains(e.terms[i].0.0)) by {
            if i >= shift {
                assert(linear(terms).terms[i - shift] == e.terms[i]);
            } else {
                assert(vars[0] is Some);
            }
        }
    }
}

proof fn lemma_own_scope(vars: Seq<LoopVar>, i: int)
    requires
        0 <= i < vars.len(),
    ensures
        scope_of(vars).contains(vars[i].0),
{
}

/// The row-major index over loop variables is closed in their scope.
proof fn lemma_row_major_closed(vars: Seq<LoopVar>, shape: Seq<nat>)
    requires
        row_major(vars, shape) is Ok,
    ensures
        closed_affine(row_major(vars, shape)->Ok_0, scope_of(vars)),
{
    let some = all_some(vars);
    assert forall|i: int| 0 <= i < some.len() && (#[trigger] some[i]) is Some implies scope_of(
        vars,
    ).contains(some[i]->Some_0.0) by {
        lemma_own_scope(vars, i);
    }
    lemma_strided_closed(some, shape, "row-major stride overflow"@, scope_of(vars));
}

/// The variables of a reduced index are among those of the nest.
proof fn lemma_reduced_vars_own(
    vars: Seq<LoopVar>,
    axes: Seq<usize>,
    keepdim: bool,
    scope: Set<u32>,
)
    requires
        forall|i: int| 0 <= i < vars.len() ==> scope.contains((#[trigger] vars[i]).0),
    ensures
        forall|i: int|
            0 <= i < reduced_vars(vars, axes, keepdim).len() && (#[trigger] reduced_vars(
                vars,
                axes,
                keepdim,
            )[i]) is Some ==> scope.contains(reduced_vars(vars, axes, keepdim)[i]->Some_0.0),
    decreases vars.len(),
{
    if vars.len() > 0 {
        let before = vars.drop_last();
        assert forall|i: int| 0 <= i < before.len() implies scope.contains(
            (#[trigger] before[i]).0,
        ) by {
            assert(before[i] == vars[i]);
        }
        lemma_reduced_vars_own(before, axes, keepdim, scope);
        let rest = reduced_vars(before, axes, keepdim);
        let all = reduced_vars(vars, axes, keepdim);
        assert forall|i: int| 0 <= i < all.len() && (#[trigger] all[i]) is Some implies
            scope.contains(all[i]->Some_0.0) by {
            if i < rest.len() {
                assert(all[i] == rest[i]);
            } else {
                assert(scope.contains(vars[vars.len() - 1].0));
            }
        }
    }
}

/// A nest of loops over different variables around a tidy statement is tidy.
proof fn lemma_nest_plain(vars: Seq<LoopVar>, extents: Seq<nat>, inner: StmtView)
    requires
        vars.len() == extents.len(),
        extents_fit(extents),
        all_different(vars),
        tidy_stmt(inner, scope_of(vars)),
    ensures
        tidy_stmt(nest(vars, extents, inner), Set::empty()),
    decreases extents.len(),
{
    if extents.len() == 0 {
        assert(scope_of(vars) =~= Set::<u32>::empty());
    } else {
        let (before, var) = (vars.drop_last(), vars.last());
        let body = seq![inner];
        let hi = fixed(extents.last() as int);
        let around = StmtView::For { var, lo: fixed(0), hi, body };
        assert forall|v: u32| scope_of(vars).contains(v) implies #[trigger] scope_of(before).insert(
            var.0,
        ).contains(v) by {
            let i = choose|i: int| 0 <= i < vars.len() && #[trigger] vars[i].0 == v;
            if i < before.len() {
                assert(before[i].0 == v);
            }
        }
        assert forall|v: u32| #[trigger] scope_of(before).insert(var.0).contains(v) implies scope_of(
            vars,
        ).contains(v) by {
            if v == var.0 {
                assert(vars[vars.len() - 1].0 == v);
            } else {
                let i = choose|i: int| 0 <= i < before.len() && #[trigger] before[i].0 == v;
                assert(vars[i].0 == v);
            }
        }
        assert(scope_of(before).insert(var.0) =~= scope_of(vars));
        assert(!scope_of(before).contains(var.0)) by {
            if scope_of(before).contains(var.0) {
                let i = choose|i: int| 0 <= i < before.len() && #[trigger] before[i].0 == var.0;
                assert(vars[i].0 == vars[vars.len() - 1].0);
            }
        }
        assert(!mentions(hi, var));
        assert(body.drop_last() =~= Seq::<StmtView>::empty());
        assert(plain_stmts(body.drop_last(), scope_of(vars)));
        assert(closed_stmts(body.drop_last(), scope_of(vars)));
        assert(plain_stmts(body, scope_of(vars)));
        assert(closed_stmts(body, scope_of(vars)));
        assert(extents[extents.len() - 1] <= i64::MAX);
        assert(closed_stmt(around, scope_of(before)));
        assert forall|i: int| 0 <= i < extents.drop_last().len() implies #[trigger] extents.drop_last()[i]
            <= i64::MAX by {
            assert(extents[i] <= i64::MAX);
        }
        assert(all_different(before));
        lemma_nest_plain(before, extents.drop_last(), around);
    }
}

proof fn lemma_fresh_vars(next: nat, n: nat)
    requires
        next + n <= u32::MAX,
    ensures
        all_different(vars_from(next, n)),
        vars_from(next, n).len() == n,
{
}

proof fn lemma_push_plain(body: Seq<StmtView>, s: StmtView)
    requires
        tidy(body),
        tidy_stmt(s, Set::empty()),
    ensures
        tidy(body.push(s)),
{
    assert(body.push(s).drop_last() =~= body);
}

proof fn lemma_elementwise_plain(
    st: LowerState,
    shape: Seq<nat>,
    value: spec_fn(AffineView) -> ScalarView,
)
    requires
        tidy(st.body),
        lower_elementwise(st, shape, value) is Ok,
        forall|flat: AffineView| plain_scalar(#[trigger] value(flat)),
        forall|flat: AffineView, scope: Set<u32>|
            closed_affine(flat, scope) ==> #[trigger] closed_scalar(value(flat), scope),
    ensures
        tidy(lower_elementwise(st, shape, value)->Ok_0.0.body),
{
    let (st1, out) = st.with_buffer("tmp"@, shape, RoleView::Temp)->Ok_0;
    let vars = vars_from(st1.next, shape.len());
    lemma_fresh_vars(st1.next, shape.len());
    let flat = row_major(vars, shape)->Ok_0;
    let inner = assign(out, flat, value(flat));
    lemma_row_major_closed(vars, shape);
    assert(closed_scalar(value(flat), scope_of(vars)));
    lemma_nest_plain(vars, shape, inner);
    lemma_push_plain(st.body, nest(vars, shape, inner));
}

proof fn lemma_matmul_plain(
    st: LowerState,
    shape: Seq<nat>,
    left: BufferId,
    left_shape: Seq<nat>,
    right: BufferId,
    right_shape: Seq<nat>,
)
    requires
        tidy(st.body),
        lower_matmul(st, shape, left, left_shape, right, right_shape) is Ok,
    ensures
        tidy(lower_matmul(st, shape, left, left_shape, right, right_shape)->Ok_0.0.body),
{
    let (m, k, n) = (left_shape[0], left_shape[1], right_shape[1]);
    let (st1, out) = st.with_buffer("tmp"@, shape, RoleView::Temp)->Ok_0;
    let vars = vars_from(st1.next, 3);
    lemma_fresh_vars(st1.next, 3);
    let zero = assign(
        out,
        matrix_index(vars[0], n, vars[1]),
        zero_literal(),
    );
    let step = multiply_add(out, left, right, vars, k, n);
    assert(all_different(vars.take(2)));
    lemma_own_scope(vars, 0);
    lemma_own_scope(vars, 1);
    lemma_own_scope(vars, 2);
    lemma_own_scope(vars.take(2), 0);
    lemma_own_scope(vars.take(2), 1);
    let extents = seq![m, n, k];
    assert(extents[0] <= i64::MAX && extents[1] <= i64::MAX && extents[2] <= i64::MAX);
    assert(extents_fit(seq![m, n]));
    assert(closed_affine(matrix_index(vars[0], n, vars[1]), scope_of(vars.take(2))));
    assert(closed_affine(matrix_index(vars[0], n, vars[1]), scope_of(vars)));
    assert(closed_affine(matrix_index(vars[0], k, vars[2]), scope_of(vars)));
    assert(closed_affine(matrix_index(vars[2], n, vars[1]), scope_of(vars)));
    lemma_nest_plain(vars.take(2), seq![m, n], zero);
    lemma_push_plain(st.body, nest(vars.take(2), seq![m, n], zero));
    assert(tidy_stmt(step, scope_of(vars))) by {
        reveal_with_fuel(plain_scalar, 4);
        reveal_with_fuel(closed_scalar, 4);
    }
    lemma_nest_plain(vars, seq![m, n, k], step);
    lemma_push_plain(
        st.body.push(nest(vars.take(2), seq![m, n], zero)),
        nest(vars, seq![m, n, k], step),
    );
}

proof fn lemma_accumulate_plain(
    st: LowerState,
    out: BufferId,
    shape: Seq<nat>,
    input: BufferId,
    input_shape: Seq<nat>,
    axes: Seq<usize>,
    keepdim: bool,
)
    requires
        tidy(st.body),
        lower_accumulate(st, out, shape, input, input_shape, axes, keepdim) is Ok,
    ensures
        tidy(lower_accumulate(st, out, shape, input, input_shape, axes, keepdim)->Ok_0.0.body),
{
    let vars = vars_from(st.next, input_shape.len());
    lemma_fresh_vars(st.next, input_shape.len());
    let in_flat = row_major(vars, input_shape)->Ok_0;
    let out_flat = sum_output_index(vars, input_shape, shape, axes, keepdim)->Ok_0;
    let inner = assign(
        out,
        out_flat,
        ScalarView::Add(
            Box::new(load(out, out_flat)),
            Box::new(load(input, in_flat)),
        ),
    );
    lemma_row_major_closed(vars, input_shape);
    assert forall|i: int| 0 <= i < vars.len() implies scope_of(vars).contains(
        (#[trigger] vars[i]).0,
    ) by {
        lemma_own_scope(vars, i);
    }
    lemma_reduced_vars_own(vars, axes, keepdim, scope_of(vars));
    lemma_strided_closed(
        reduced_vars(vars, axes, keepdim),
        shape,
        "sum output stride overflow"@,
        scope_of(vars),
    );
    assert(tidy_stmt(inner, scope_of(vars))) by {
        reveal_with_fuel(plain_scalar, 3);
        reveal_with_fuel(closed_scalar, 3);
    }
    lemma_nest_plain(vars, input_shape, inner);
    lemma_push_plain(st.body, nest(vars, input_shape, inner));
}

proof fn lemma_sum_plain(
    st: LowerState,
    shape: Seq<nat>,
    input: BufferId,
    input_shape: Seq<nat>,
    axes: Seq<usize>,
    keepdim: bool,
)
    requires
        tidy(st.body),
        lower_sum(st, shape, input, input_shape, axes, keepdim) is Ok,
    ensures
        tidy(lower_sum(st, shape, input, input_shape, axes, keepdim)->Ok_0.0.body),
{
    let (st1, out) = st.with_buffer("tmp"@, shape, RoleView::Temp)->Ok_0;
    let (st2, vars) = st1.with_vars(shape.len())->Ok_0;
    lemma_fresh_vars(st1.next, shape.len());
    let flat = row_major(vars, shape)->Ok_0;
    let zero = assign(out, flat, zero_literal());
    lemma_row_major_closed(vars, shape);
    lemma_nest_plain(vars, shape, zero);
    let init = nest(vars, shape, zero);
    lemma_push_plain(st.body, init);
    lemma_accumulate_plain(st2.with_stmt(init), out, shape, input, input_shape, axes, keepdim);
}

proof fn lemma_node_plain(
    st: LowerState,
    op: OpView,
    ty: TypeView,
    types: Seq<TypeView>,
    placed: Seq<Option<BufferId>>,
)
    requires
        tidy(st.body),
        lower_node(st, op, ty, types, placed) is Ok,
    ensures
        tidy(lower_node(st, op, ty, types, placed)->Ok_0.0.body),
{
    reveal_with_fuel(plain_scalar, 3);
    match op {
        OpView::Add(l, r) => {
            lemma_binary_plain(st, ty.shape, l, r, placed, BinaryOp::Add);
        },
        OpView::Sub(l, r) => {
            lemma_binary_plain(st, ty.shape, l, r, placed, BinaryOp::Sub);
        },
        OpView::Mul(l, r) => {
            lemma_binary_plain(st, ty.shape, l, r, placed, BinaryOp::Mul);
        },
        OpView::Neg(x) => {
            lemma_unary_plain(st, ty.shape, x, placed, UnaryOp::Neg);
        },
        OpView::Relu(x) => {
            lemma_unary_plain(st, ty.shape, x, placed, UnaryOp::Relu);
        },
        OpView::Matmul(l, r) => {
            lemma_matmul_plain(
                st,
                ty.shape,
                buffer_of(placed, l),
                types[l.0 as int].shape,
                buffer_of(placed, r),
                types[r.0 as int].shape,
            );
        },
        OpView::Sum { input, axes, keepdim } => {
            lemma_sum_plain(
                st,
                ty.shape,
                buffer_of(placed, input),
                types[input.0 as int].shape,
                axes,
                keepdim,
            );
        },
        _ => {},
    }
}

proof fn lemma_binary_plain(
    st: LowerState,
    shape: Seq<nat>,
    l: NodeId,
    r: NodeId,
    placed: Seq<Option<BufferId>>,
    op: BinaryOp,
)
    requires
        tidy(st.body),
        lower_binary(st, shape, buffer_of(placed, l), buffer_of(placed, r), op) is Ok,
    ensures
        tidy(
            lower_binary(st, shape, buffer_of(placed, l), buffer_of(placed, r), op)->Ok_0.0.body,
        ),
{
    reveal_with_fuel(plain_scalar, 3);
    reveal_with_fuel(closed_scalar, 3);
    let (a, b) = (buffer_of(placed, l), buffer_of(placed, r));
    let value = |flat: AffineView|
        binary_expr(op, load(a, flat), load(b, flat));
    lemma_elementwise_plain(st, shape, value);
}

proof fn lemma_unary_plain(
    st: LowerState,
    shape: Seq<nat>,
    x: NodeId,
    placed: Seq<Option<BufferId>>,
    op: UnaryOp,
)
    requires
        tidy(st.body),
        lower_unary(st, shape, buffer_of(placed, x), op) is Ok,
    ensures
        tidy(lower_unary(st, shape, buffer_of(placed, x), op)->Ok_0.0.body),
{
    reveal_with_fuel(plain_scalar, 3);
    reveal_with_fuel(closed_scalar, 3);
    let a = buffer_of(placed, x);
    let value = |flat: AffineView|
        unary_expr(op, load(a, flat));
    lemma_elementwise_plain(st, shape, value);
}

proof fn lemma_along_plain(
    nodes: Seq<OpView>,
    types: Seq<TypeView>,
    order: Seq<NodeId>,
    n: nat,
)
    requires
        lower_along(nodes, types, order, n) is Ok,
    ensures
        tidy(lower_along(nodes, types, order, n)->Ok_0.0.body),
    decreases n,
{
    if n > 0 {
        lemma_along_plain(nodes, types, order, (n - 1) as nat);
        let (st, placed) = lower_along(nodes, types, order, (n - 1) as nat)->Ok_0;
        let i = order[n - 1].0 as int;
        lemma_node_plain(st, nodes[i], types[i], types, placed);
    }
}

/// The statements of every lowered graph are plain and closed: C reads their text as what they are,
/// and gives their run a meaning.
pub proof fn lowered_graphs_are_plain(g: GraphView)
    requires
        lower_graph(g) is Ok,
    ensures
        plain_stmts(lower_graph(g)->Ok_0.body, Set::empty()),
        closed_stmts(lower_graph(g)->Ok_0.body, Set::empty()),
{
    let types = infer_graph(g)->Ok_0;
    let order = topo(g.nodes)->Ok_0;
    lemma_along_plain(g.nodes, types, order, order.len());
}

/// Every buffer of the kernel can be indexed by a `long`.
pub open spec fn buffers_indexable(k: KernelView) -> bool {
    forall|b: int|
        0 <= b < k.buffers.len() ==> numel((#[trigger] k.buffers[b]).shape) <= i64::MAX
}

proof fn lemma_allocated_indexable<D: Domain>(
    k: KernelView,
    inputs: Map<Seq<char>, TensorView<D::V>>,
)
    requires
        allocated::<D>(k.buffers, inputs) is Ok,
        inputs_filled(inputs),
        buffers_indexable(k),
    ensures
        indexable(allocated::<D>(k.buffers, inputs)->Ok_0),
{
    let results = k.buffers.map_values(|b: BufferView| initial::<D>(b, inputs));
    lemma_collect_ok(results);
    let buffers = allocated::<D>(k.buffers, inputs)->Ok_0;
    assert forall|b: int| 0 <= b < buffers.len() implies (#[trigger] buffers[b]).len()
        <= i64::MAX by {
        assert(results[b] == initial::<D>(k.buffers[b], inputs));
        assert(numel(k.buffers[b].shape) <= i64::MAX);
        lemma_numel_fits_prefix(k.buffers[b].shape, 0);
    }
}

/// A graph, lowered and emitted as C: run from the buffers that the kernel starts from, the emitted
/// statements have a meaning in C, and leave each output of the graph in its buffer.
pub proof fn emitted_graphs_compute_their_outputs<D: Domain>(
    g: GraphView,
    inputs: Map<Seq<char>, TensorView<D::V>>,
    i: int,
)
    requires
        literal_zero::<D>(),
        negates_literals::<D>(),
        lower_graph(g) is Ok,
        eval_graph::<D>(g, inputs) is Ok,
        inputs_filled(inputs),
        sizes_fit(infer_graph(g)->Ok_0),
        buffers_indexable(lower_graph(g)->Ok_0),
        0 <= i < g.outputs.len(),
    ensures
        ({
            let k = lower_graph(g)->Ok_0;
            let text = stmts_c(k.body, 1);
            &&& text is Ok
            &&& statements_in(text->Ok_0) is Some
            &&& allocated::<D>(k.buffers, inputs) is Ok
            &&& {
                let run = run_c_block::<D>(
                    statements_in(text->Ok_0)->Some_0,
                    Map::empty(),
                    allocated::<D>(k.buffers, inputs)->Ok_0,
                );
                &&& run is Some
                &&& run->Some_0 is Ok
                &&& run->Some_0->Ok_0[k.outputs[i].0 as int] == eval_graph::<D>(
                    g,
                    inputs,
                )->Ok_0[i].data
            }
        }),
{
    let k = lower_graph(g)->Ok_0;
    lowered_graphs_are_plain(g);
    lowering_preserves_evaluation::<D>(g, inputs);
    emitted_kernels_leave_their_outputs::<D>(k, inputs, i);
    lemma_allocated_indexable::<D>(k, inputs);
    let st = LoopState { buffers: allocated::<D>(k.buffers, inputs)->Ok_0, env: Map::empty() };
    assert(st.env.dom() =~= Set::<u32>::empty());
    emitted_statements_run_to_the_same_buffers::<D>(k.body, 1, st);
}

} // verus!

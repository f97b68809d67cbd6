//! Lowering keeps what a graph computes.
use vstd::prelude::*;

use crate::affine::{saturated, terms_value, var_value, AffineView, LoopVar};
use crate::domain::{literal_zero, Domain};
use crate::eval::{
    binary_value, dot, eval_graph, eval_nodes, leaf_error, leaf_errors, lemma_matrix_numel,
    matmul_value, node_value, product_at, sum_at, sum_value, unary_value, BinaryOp, EvalErrorView,
    UnaryOp,
};
use crate::graph::{ordered, GraphView};
use crate::index::{lemma_sum_place, reduced_index, sum_place, unravel, unravel_then_ravel};
use crate::infer::{infer_graph, lemma_infer_prefix, node_type, reduced_shape, TypeErrorView};
use crate::interp_loops::{
    allocated, eval_kernel, initial, output_tensor, place, run_stmt, run_stmts, scalar_value,
    LoopErrorView, LoopState,
};
use crate::loop_ir::{BufferId, BufferView, RoleView, ScalarView, StmtView};
use crate::lower::{
    all_some, assign, binary_expr, buffer_of, extents_fit, linear, load, lower_along, lower_binary,
    lower_elementwise, lower_graph, lower_matmul, lower_node, lower_sum, lower_unary, matrix_index,
    multiply_add, nest, reduced_vars, row_major, strided, unary_expr, vars_from, zero_literal,
    LowerErrorView, LowerState,
};
use crate::nests::{
    agree_except, bind_all, coordinates, distinct, keeps_env, lemma_assign_keeps_env,
    lemma_bind_all, lemma_fill, lemma_nest, lemma_row_major_value, lemma_strided_value, run_flat,
    unbound,
};
use crate::op::{NodeId, OpView};
use crate::rational::lemma_is_quotient;
use crate::seqs::{collect, lemma_collect_ok, lemma_first_some_all};
use crate::shape::{numel, numel_fits};
use crate::soundness::{inputs_filled, lemma_eval_prefix, lemma_values_typed};
use crate::tensor::TensorView;
use crate::tensor_type::TypeView;
use crate::topo::{operands_within, schedule, topo};

verus! {

/// New loop variables are distinct.
proof fn lemma_fresh(next: nat, n: nat)
    requires
        next + n <= u32::MAX,
    ensures
        distinct(vars_from(next, n)),
        vars_from(next, n).len() == n,
        unbound(Map::empty(), vars_from(next, n)),
{
    let vars = vars_from(next, n);
    assert forall|i: int, j: int| 0 <= i < j < vars.len() implies #[trigger] vars[i]
        != #[trigger] vars[j] by {
        assert(vars[i].0 == next + i && vars[j].0 == next + j);
    }
}

/// A load at a row-major index gives the element at that place.
proof fn lemma_load<D: Domain>(
    buffer: BufferId,
    vars: Seq<LoopVar>,
    shape: Seq<nat>,
    flat: AffineView,
    n: nat,
    b: Seq<Seq<D::V>>,
)
    requires
        vars.len() == shape.len(),
        distinct(vars),
        extents_fit(shape),
        numel(shape) <= i64::MAX,
        row_major(vars, shape) == Ok::<AffineView, LowerErrorView>(flat),
        n < numel(shape),
        buffer.0 < b.len(),
        b[buffer.0 as int].len() == numel(shape),
    ensures
        scalar_value::<D>(
            load(buffer, flat),
            LoopState { buffers: b, env: bind_all(Map::empty(), vars, unravel(n, shape)) },
        ) == Ok::<D::V, LoopErrorView>(b[buffer.0 as int][n as int]),
{
    let env = bind_all(Map::empty(), vars, unravel(n, shape));
    unravel_then_ravel(n, shape);
    lemma_bind_all(Map::empty(), vars, unravel(n, shape));
    lemma_row_major_value(vars, shape, unravel(n, shape), env, flat);
}

/// The literal zero evaluates to the domain's zero.
proof fn lemma_zero_literal<D: Domain>(st: LoopState<D::V>)
    requires
        literal_zero::<D>(),
    ensures
        scalar_value::<D>(zero_literal(), st) == Ok::<D::V, LoopErrorView>(D::zero_value()),
{
    lemma_is_quotient(0, 1, 0real);
}

/// An elementwise nest leaves its target in a new buffer.
proof fn lemma_elementwise<D: Domain>(
    st: LowerState,
    shape: Seq<nat>,
    value: spec_fn(AffineView) -> ScalarView,
    start: LoopState<D::V>,
    bufs: Seq<Seq<D::V>>,
    target: Seq<D::V>,
)
    requires
        lower_elementwise(st, shape, value) is Ok,
        run_stmts::<D>(st.body, start) == Ok::<LoopState<D::V>, LoopErrorView>(
            LoopState { buffers: bufs, env: Map::empty() },
        ),
        numel(shape) <= i64::MAX,
        st.buffers.len() < bufs.len(),
        bufs[st.buffers.len() as int].len() == numel(shape),
        target.len() == numel(shape),
        forall|b: Seq<Seq<D::V>>, n: nat, flat: AffineView|
            agree_except(b, bufs, st.buffers.len() as int) && n < numel(shape) && row_major(
                vars_from(st.next, shape.len()),
                shape,
            ) == Ok::<AffineView, LowerErrorView>(flat) ==> #[trigger] scalar_value::<D>(
                value(flat),
                LoopState {
                    buffers: b,
                    env: bind_all(
                        Map::empty(),
                        vars_from(st.next, shape.len()),
                        unravel(n, shape),
                    ),
                },
            ) == Ok::<D::V, LoopErrorView>(target[n as int]),
    ensures
        ({
            let (st1, out) = lower_elementwise(st, shape, value)->Ok_0;
            &&& out.0 == st.buffers.len()
            &&& st1.buffers == st.buffers.push(
                BufferView { id: out, name: "tmp"@, shape, role: RoleView::Temp },
            )
            &&& run_stmts::<D>(st1.body, start) == Ok::<LoopState<D::V>, LoopErrorView>(
                LoopState { buffers: bufs.update(out.0 as int, target), env: Map::empty() },
            )
        }),
{
    let (st1, out) = lower_elementwise(st, shape, value)->Ok_0;
    let vars = vars_from(st.next, shape.len());
    lemma_fresh(st.next, shape.len());
    let flat = row_major(vars, shape)->Ok_0;
    assert forall|b: Seq<Seq<D::V>>, n: nat|
        agree_except(b, bufs, out.0 as int) && n < numel(shape) implies #[trigger] scalar_value::<
        D,
    >(
        value(flat),
        LoopState { buffers: b, env: bind_all(Map::empty(), vars, unravel(n, shape)) },
    ) == Ok::<D::V, LoopErrorView>(target[n as int]) by {}
    lemma_fill::<D>(vars, shape, out, flat, value(flat), bufs, target);
    assert(st1.body.drop_last() =~= st.body);
}

/// The sizes that lowering relies on.
pub open spec fn sizes_fit(types: Seq<TypeView>) -> bool {
    forall|i: int| 0 <= i < types.len() ==> numel((#[trigger] types[i]).shape) <= i64::MAX
}

/// A two-term index evaluates to row times width plus column.
proof fn lemma_matrix_index(row: LoopVar, width: nat, col: LoopVar, env: Map<u32, i64>)
    requires
        width <= i64::MAX,
        var_value(env, row) >= 0,
        var_value(env, col) >= 0,
        var_value(env, row) * width + var_value(env, col) <= i64::MAX,
    ensures
        matrix_index(row, width, col).value(env) == var_value(env, row) * width + var_value(
            env,
            col,
        ),
{
    let e = matrix_index(row, width, col);
    let r = var_value(env, row) as int;
    let c = var_value(env, col) as int;
    let w = width as int;
    assert(e.terms.len() == 2);
    assert(e.terms[0] == (row, width as i64));
    assert(e.terms[1] == (col, 1i64));
    assert(w * r == r * w && r * w >= 0) by (nonlinear_arith)
        requires
            r >= 0,
            w >= 0,
    ;
    assert(1 * c == c);
    assert(terms_value(e, env, 0) == 0);
    assert(terms_value(e, env, 1) == r * w);
    assert(saturated(e.terms[1].1 * var_value(env, e.terms[1].0)) == c);
    assert(terms_value(e, env, 2) == r * w + c);
}

/// The multi-index of a place in a box of three extents.
proof fn lemma_unravel3(t: nat, m: nat, n: nat, k: nat)
    requires
        k > 0,
        n > 0,
        m > 0,
    ensures
        unravel(t, seq![m, n, k]) =~= seq![(t / k / n) % m, (t / k) % n, t % k],
        numel(seq![m, n, k]) == m * n * k,
        numel(seq![m, n]) == m * n,
{
    let s3 = seq![m, n, k];
    let s2 = seq![m, n];
    let s1 = seq![m];
    assert(s3.drop_last() =~= s2);
    assert(s2.drop_last() =~= s1);
    assert(s1.drop_last() =~= Seq::<nat>::empty());
    let rest = t / k / n / m;
    assert(unravel(rest, Seq::<nat>::empty()) == Seq::<nat>::empty());
    assert(unravel(t / k / n, s1) =~= seq![(t / k / n) % m]);
    assert(unravel(t / k, s2) =~= seq![(t / k / n) % m, (t / k) % n]);
    assert(numel(Seq::<nat>::empty()) == 1);
    assert(numel(s1) == 1 * m);
    assert(numel(s2) == numel(s1) * n);
}

/// How far the dot product at place `i` has come after `t` accumulations of `k` each.
pub open spec fn progress(i: int, t: nat, k: nat) -> nat {
    if i < t / k {
        k
    } else if i == t / k {
        t % k
    } else {
        0
    }
}

/// The output of a matrix product after `t` accumulations.
pub open spec fn partial_product<D: Domain>(
    l: Seq<D::V>,
    r: Seq<D::V>,
    k: nat,
    n: nat,
    len: nat,
    t: nat,
) -> Seq<D::V> {
    Seq::new(
        len,
        |i: int| dot::<D>(l, r, k, n, i as nat / n, i as nat % n, progress(i, t, k)),
    )
}

/// The accumulation of a matrix product, one step at a time.
proof fn lemma_accumulate_product<D: Domain>(
    out: BufferId,
    left: BufferId,
    right: BufferId,
    vars: Seq<LoopVar>,
    m: nat,
    n: nat,
    k: nat,
    bufs: Seq<Seq<D::V>>,
    t: nat,
)
    requires
        vars.len() == 3,
        distinct(vars),
        k > 0,
        n > 0,
        m > 0,
        m <= i64::MAX,
        n <= i64::MAX,
        k <= i64::MAX,
        m * n <= i64::MAX,
        m * k <= i64::MAX,
        k * n <= i64::MAX,
        t <= m * n * k,
        out.0 < bufs.len(),
        left.0 < bufs.len(),
        right.0 < bufs.len(),
        left != out,
        right != out,
        bufs[left.0 as int].len() == m * k,
        bufs[right.0 as int].len() == k * n,
        bufs[out.0 as int] == Seq::new(m * n, |i: int| D::zero_value()),
    ensures
        run_flat::<D>(
            multiply_add(out, left, right, vars, k, n),
            vars,
            seq![m, n, k],
            Map::empty(),
            t,
            bufs,
        ) == Ok::<Seq<Seq<D::V>>, LoopErrorView>(
            bufs.update(
                out.0 as int,
                partial_product::<D>(
                    bufs[left.0 as int],
                    bufs[right.0 as int],
                    k,
                    n,
                    m * n,
                    t,
                ),
            ),
        ),
    decreases t,
{
    let o = out.0 as int;
    let l = bufs[left.0 as int];
    let r = bufs[right.0 as int];
    let len = m * n;
    if t == 0 {
        assert(0nat / k == 0 && 0nat % k == 0) by (nonlinear_arith)
            requires
                k > 0,
        ;
        let start = partial_product::<D>(l, r, k, n, len, 0);
        assert forall|i: int| 0 <= i < len implies #[trigger] start[i] == bufs[o][i] by {
            assert(progress(i, 0, k) == 0);
        }
        assert(start =~= bufs[o]);
        assert(bufs.update(o, start) =~= bufs);
    } else {
        let u = (t - 1) as nat;
        lemma_accumulate_product::<D>(out, left, right, vars, m, n, k, bufs, u);
        let q = u / k;
        let p = u % k;
        let row = q / n;
        let col = q % n;
        vstd::arithmetic::div_mod::lemma_fundamental_div_mod(u as int, k as int);
        vstd::arithmetic::div_mod::lemma_fundamental_div_mod(q as int, n as int);
        assert(q < m * n) by (nonlinear_arith)
            requires
                u == k * q + p,
                u < m * n * k,
                p >= 0,
                k > 0,
        ;
        assert(row < m) by (nonlinear_arith)
            requires
                q == n * row + col,
                q < m * n,
                col >= 0,
                n > 0,
        ;
        vstd::arithmetic::div_mod::lemma_small_mod(row, m);
        lemma_unravel3(u, m, n, k);
        let index = unravel(u, seq![m, n, k]);
        assert(index =~= seq![row, col, p]);
        let env = bind_all(Map::empty(), vars, index);
        lemma_bind_all(Map::empty(), vars, index);
        assert(env.dom().contains(vars[0].0) && env.dom().contains(vars[1].0)
            && env.dom().contains(vars[2].0));
        assert(var_value(env, vars[0]) == row);
        assert(var_value(env, vars[1]) == col);
        assert(var_value(env, vars[2]) == p);
        assert(row * n + col == q) by (nonlinear_arith)
            requires
                q == n * row + col,
        ;
        assert(row * k + p < m * k) by (nonlinear_arith)
            requires
                row < m,
                p < k,
        ;
        assert(p * n + col < k * n) by (nonlinear_arith)
            requires
                p < k,
                col < n,
        ;
        lemma_matrix_index(vars[0], n, vars[1], env);
        lemma_matrix_index(vars[0], k, vars[2], env);
        lemma_matrix_index(vars[2], n, vars[1], env);
        let before = partial_product::<D>(l, r, k, n, len, u);
        let b = bufs.update(o, before);
        let st = LoopState { buffers: b, env };
        let out_load = load(out, matrix_index(vars[0], n, vars[1]));
        let l_load = load(left, matrix_index(vars[0], k, vars[2]));
        let r_load = load(right, matrix_index(vars[2], n, vars[1]));
        assert(scalar_value::<D>(out_load, st) == Ok::<D::V, LoopErrorView>(before[q as int]));
        assert(scalar_value::<D>(l_load, st) == Ok::<D::V, LoopErrorView>(
            l[(row * k + p) as int],
        ));
        assert(scalar_value::<D>(r_load, st) == Ok::<D::V, LoopErrorView>(
            r[(p * n + col) as int],
        ));
        let product = ScalarView::Mul(Box::new(l_load), Box::new(r_load));
        assert(scalar_value::<D>(product, st) == Ok::<D::V, LoopErrorView>(
            D::times_value(l[(row * k + p) as int], r[(p * n + col) as int]),
        ));
        let acc = ScalarView::Add(Box::new(out_load), Box::new(product));
        assert(before[q as int] == dot::<D>(l, r, k, n, row, col, p));
        assert(scalar_value::<D>(acc, st) == Ok::<D::V, LoopErrorView>(
            dot::<D>(l, r, k, n, row, col, p + 1),
        ));
        let after = partial_product::<D>(l, r, k, n, len, t);
        lemma_progress(u, k);
        assert(before.update(q as int, dot::<D>(l, r, k, n, row, col, p + 1)) =~= after) by {
            assert forall|i: int| 0 <= i < len implies #[trigger] after[i] == before.update(
                q as int,
                dot::<D>(l, r, k, n, row, col, p + 1),
            )[i] by {
                if i != q {
                    assert(progress(i, t, k) == progress(i, u, k));
                } else {
                    assert(progress(i, t, k) == p + 1);
                }
            }
        }
        assert(b.update(o, b[o].update(q as int, dot::<D>(l, r, k, n, row, col, p + 1)))
            =~= bufs.update(o, after));
    }
}

/// One more accumulation moves one place on by one.
proof fn lemma_progress(u: nat, k: nat)
    requires
        k > 0,
    ensures
        forall|i: int| i != u / k && i >= 0 ==> #[trigger] progress(i, u + 1, k) == progress(i, u, k),
        progress((u / k) as int, u + 1, k) == u % k + 1,
{
    let q = u / k;
    let p = u % k;
    vstd::arithmetic::div_mod::lemma_fundamental_div_mod(u as int, k as int);
    if p + 1 < k {
        vstd::arithmetic::div_mod::lemma_fundamental_div_mod_converse(
            (u + 1) as int,
            k as int,
            q as int,
            (p + 1) as int,
        );
    } else {
        assert(u + 1 == (q + 1) * k) by (nonlinear_arith)
            requires
                u == k * q + p,
                p + 1 == k,
        ;
        vstd::arithmetic::div_mod::lemma_fundamental_div_mod_converse(
            (u + 1) as int,
            k as int,
            (q + 1) as int,
            0,
        );
    }
}

/// A nest of zero assignments leaves zeros.
proof fn lemma_zero_fill<D: Domain>(
    vars: Seq<LoopVar>,
    shape: Seq<nat>,
    out: BufferId,
    flat: AffineView,
    bufs: Seq<Seq<D::V>>,
)
    requires
        literal_zero::<D>(),
        vars.len() == shape.len(),
        distinct(vars),
        extents_fit(shape),
        numel(shape) <= i64::MAX,
        row_major(vars, shape) == Ok::<AffineView, LowerErrorView>(flat),
        out.0 < bufs.len(),
        bufs[out.0 as int] == Seq::new(numel(shape), |i: int| D::zero_value()),
    ensures
        run_stmt::<D>(
            nest(vars, shape, assign(out, flat, zero_literal())),
            LoopState { buffers: bufs, env: Map::empty() },
        ) == Ok::<LoopState<D::V>, LoopErrorView>(
            LoopState { buffers: bufs, env: Map::empty() },
        ),
{
    let target = Seq::new(numel(shape), |i: int| D::zero_value());
    assert forall|b: Seq<Seq<D::V>>, n: nat|
        agree_except(b, bufs, out.0 as int) && n < numel(shape) implies #[trigger] scalar_value::<
        D,
    >(
        zero_literal(),
        LoopState { buffers: b, env: bind_all(Map::empty(), vars, unravel(n, shape)) },
    ) == Ok::<D::V, LoopErrorView>(target[n as int]) by {
        lemma_zero_literal::<D>(
            LoopState { buffers: b, env: bind_all(Map::empty(), vars, unravel(n, shape)) },
        );
    }
    lemma_fill::<D>(vars, shape, out, flat, zero_literal(), bufs, target);
    assert(bufs.update(out.0 as int, target) =~= bufs);
}

/// The row-major index of a matrix is its two-term index.
proof fn lemma_matrix_row_major(row: LoopVar, col: LoopVar, m: nat, n: nat)
    requires
        n <= i64::MAX,
        n <= usize::MAX,
        m * n <= usize::MAX,
    ensures
        row_major(seq![row, col], seq![m, n]) == Ok::<AffineView, LowerErrorView>(
            matrix_index(row, n, col),
        ),
{
    let vars = all_some(seq![row, col]);
    let shape = seq![m, n];
    let text = "row-major stride overflow"@;
    assert(vars.drop_first() =~= seq![Some(col)]);
    assert(shape.drop_first() =~= seq![n]);
    assert(vars.drop_first().drop_first() =~= Seq::<Option<LoopVar>>::empty());
    assert(shape.drop_first().drop_first() =~= Seq::<nat>::empty());
    assert(strided(vars.drop_first().drop_first(), shape.drop_first().drop_first(), text) == Ok::<
        (Seq<(LoopVar, i64)>, nat),
        LowerErrorView,
    >((Seq::empty(), 1)));
    assert(1 * n == n);
    let one = seq![(col, 1i64)];
    assert(seq![(col, 1i64)] + Seq::<(LoopVar, i64)>::empty() =~= one);
    assert(vars.drop_first()[0] == Some(col));
    assert(shape.drop_first()[0] == n);
    assert(strided(vars.drop_first(), shape.drop_first(), text) == Ok::<
        (Seq<(LoopVar, i64)>, nat),
        LowerErrorView,
    >((one, n)));
    assert(n * m == m * n) by (nonlinear_arith);
    assert(vars[0] == Some(row));
    assert(shape[0] == m);
    assert(seq![(row, n as i64)] + one =~= matrix_index(row, n, col).terms);
}

/// A lowered matrix product computes the matrix product.
proof fn lemma_matmul<D: Domain>(
    st: LowerState,
    shape: Seq<nat>,
    left: BufferId,
    l: TensorView<D::V>,
    right: BufferId,
    r: TensorView<D::V>,
    start: LoopState<D::V>,
    bufs: Seq<Seq<D::V>>,
)
    requires
        literal_zero::<D>(),
        lower_matmul(st, shape, left, l.shape, right, r.shape) is Ok,
        run_stmts::<D>(st.body, start) == Ok::<LoopState<D::V>, LoopErrorView>(
            LoopState { buffers: bufs, env: Map::empty() },
        ),
        l.shape.len() == 2,
        r.shape.len() == 2,
        l.shape[1] == r.shape[0],
        shape == seq![l.shape[0], r.shape[1]],
        numel(shape) <= i64::MAX,
        numel(l.shape) <= i64::MAX,
        numel(r.shape) <= i64::MAX,
        l.filled(),
        r.filled(),
        numel_fits(shape),
        st.buffers.len() < bufs.len(),
        left.0 < st.buffers.len(),
        right.0 < st.buffers.len(),
        bufs[left.0 as int] == l.data,
        bufs[right.0 as int] == r.data,
        bufs[st.buffers.len() as int] == Seq::new(numel(shape), |i: int| D::zero_value()),
    ensures
        matmul_value::<D>(l, r) is Ok,
        ({
            let (st1, out) = lower_matmul(st, shape, left, l.shape, right, r.shape)->Ok_0;
            &&& out.0 == st.buffers.len()
            &&& st1.buffers == st.buffers.push(
                BufferView { id: out, name: "tmp"@, shape, role: RoleView::Temp },
            )
            &&& run_stmts::<D>(st1.body, start) == Ok::<LoopState<D::V>, LoopErrorView>(
                LoopState {
                    buffers: bufs.update(out.0 as int, matmul_value::<D>(l, r)->Ok_0.data),
                    env: Map::empty(),
                },
            )
        }),
{
    let (st1, out) = lower_matmul(st, shape, left, l.shape, right, r.shape)->Ok_0;
    let m = l.shape[0];
    let k = l.shape[1];
    let n = r.shape[1];
    let o = out.0 as int;
    let vars = vars_from(st.next, 3);
    lemma_fresh(st.next, 3);
    let dims = seq![m, n, k];
    assert(dims[0] <= i64::MAX && dims[1] <= i64::MAX && dims[2] <= i64::MAX);
    assert(l.shape =~= seq![m, k]);
    assert(r.shape =~= seq![k, n]);
    lemma_matrix_numel(m, k);
    lemma_matrix_numel(k, n);
    lemma_matrix_numel(m, n);
    let target = matmul_value::<D>(l, r)->Ok_0.data;
    assert(matmul_value::<D>(l, r) is Ok);
    // The output is zeroed first.
    let pair = seq![vars[0], vars[1]];
    assert(vars.take(2) =~= pair);
    assert(distinct(pair)) by {
        assert forall|i: int, j: int| 0 <= i < j < pair.len() implies #[trigger] pair[i]
            != #[trigger] pair[j] by {
            assert(vars[i] != vars[j]);
        }
    }
    assert(extents_fit(seq![m, n]));
    let out_index = matrix_index(vars[0], n, vars[1]);
    let init = nest(vars.take(2), seq![m, n], assign(out, out_index, zero_literal()));
    if m > 0 {
        assert(n <= m * n) by (nonlinear_arith)
            requires
                m > 0,
        ;
        lemma_matrix_row_major(vars[0], vars[1], m, n);
        lemma_zero_fill::<D>(pair, seq![m, n], out, out_index, bufs);
    } else {
        assert(numel(seq![m, n]) == 0) by (nonlinear_arith)
            requires
                numel(seq![m, n]) == m * n,
                m == 0,
        ;
        let zero = assign(out, out_index, zero_literal());
        lemma_assign_keeps_env::<D>(
            out,
            out_index,
            zero_literal(),
            pair,
            seq![m, n],
            Map::empty(),
        );
        lemma_nest::<D>(pair, seq![m, n], zero, Map::empty(), bufs);
    }
    // Then the products are accumulated.
    let s = multiply_add(out, left, right, vars, k, n);
    let step = nest(vars, dims, s);
    let env = Map::<u32, i64>::empty();
    assert(keeps_env::<D>(s, vars, dims, env));
    lemma_nest::<D>(vars, dims, s, env, bufs);
    if m > 0 && n > 0 && k > 0 {
        let total = m * n * k;
        lemma_accumulate_product::<D>(out, left, right, vars, m, n, k, bufs, total);
        lemma_unravel3(0, m, n, k);
        let done = partial_product::<D>(l.data, r.data, k, n, m * n, total);
        assert(total / k == m * n && total % k == 0) by {
            vstd::arithmetic::div_mod::lemma_fundamental_div_mod_converse(
                total as int,
                k as int,
                (m * n) as int,
                0,
            );
        }
        assert forall|i: int| 0 <= i < m * n implies #[trigger] done[i] == target[i] by {
            assert(progress(i, total, k) == k);
            assert(target[i] == product_at::<D>(l, r, i as nat));
        }
        assert(done =~= target);
    } else {
        assert(numel(dims) == 0) by {
            assert(dims.drop_last() =~= seq![m, n]);
            assert(numel(dims) == numel(seq![m, n]) * k);
            assert(m * n * k == 0) by (nonlinear_arith)
                requires
                    m == 0 || n == 0 || k == 0,
            ;
        }
        assert forall|i: int| 0 <= i < m * n implies #[trigger] target[i] == D::zero_value() by {
            assert(target[i] == product_at::<D>(l, r, i as nat));
            assert(k == 0) by (nonlinear_arith)
                requires
                    m == 0 || n == 0 || k == 0,
                    0 <= i < m * n,
            ;
        }
        assert(target =~= bufs[o]);
        assert(bufs.update(o, target) =~= bufs);
    }
    let mid = st.body.push(init);
    assert(st1.body =~= mid.push(step));
    assert(st1.body.drop_last() =~= mid);
    assert(mid.drop_last() =~= st.body);
    assert(run_stmts::<D>(mid, start) == Ok::<LoopState<D::V>, LoopErrorView>(
        LoopState { buffers: bufs, env: Map::empty() },
    ));
}

/// The variables of the reduced tensor stand for the reduced index.
pub proof fn lemma_reduced_coordinates(
    vars: Seq<LoopVar>,
    index: Seq<nat>,
    axes: Seq<usize>,
    keepdim: bool,
    env: Map<u32, i64>,
)
    requires
        vars.len() == index.len(),
        forall|k: int| 0 <= k < vars.len() ==> var_value(env, #[trigger] vars[k]) == index[k],
    ensures
        coordinates(
            reduced_vars(vars, axes, keepdim),
            reduced_index(index, axes, keepdim),
            env,
        ),
    decreases vars.len(),
{
    if vars.len() > 0 {
        let vs = vars.drop_last();
        let ix = index.drop_last();
        assert forall|k: int| 0 <= k < vs.len() implies var_value(env, #[trigger] vs[k])
            == ix[k] by {
            assert(var_value(env, vars[k]) == index[k]);
        }
        lemma_reduced_coordinates(vs, ix, axes, keepdim, env);
        let rv = reduced_vars(vars, axes, keepdim);
        let ri = reduced_index(index, axes, keepdim);
        let rv0 = reduced_vars(vs, axes, keepdim);
        assert(var_value(env, vars[vars.len() - 1]) == index[index.len() - 1]);
        assert forall|k: int| 0 <= k < rv.len() implies match #[trigger] rv[k] {
            Some(v) => var_value(env, v) == ri[k],
            None => ri[k] == 0,
        } by {
            if k < rv0.len() {
                assert(rv[k] == rv0[k]);
            }
        }
    }
}

/// The output of a sum after the first `n` elements.
pub open spec fn partial_sums<D: Domain>(
    data: Seq<D::V>,
    shape: Seq<nat>,
    axes: Seq<usize>,
    keepdim: bool,
    len: nat,
    n: nat,
) -> Seq<D::V> {
    Seq::new(len, |i: int| sum_at::<D>(data, shape, axes, keepdim, i as nat, n))
}

/// The accumulation of a sum, one element at a time.
proof fn lemma_accumulate_sum<D: Domain>(
    out: BufferId,
    input: BufferId,
    vars: Seq<LoopVar>,
    shape: Seq<nat>,
    axes: Seq<usize>,
    keepdim: bool,
    flat: AffineView,
    bufs: Seq<Seq<D::V>>,
    n: nat,
)
    requires
        vars.len() == shape.len(),
        distinct(vars),
        extents_fit(shape),
        numel(shape) <= i64::MAX,
        numel(reduced_shape(shape, axes, keepdim)) <= i64::MAX,
        row_major(vars, shape) == Ok::<AffineView, LowerErrorView>(flat),
        strided(
            reduced_vars(vars, axes, keepdim),
            reduced_shape(shape, axes, keepdim),
            "sum output stride overflow"@,
        ) is Ok,
        out.0 < bufs.len(),
        input.0 < bufs.len(),
        input != out,
        bufs[input.0 as int].len() == numel(shape),
        bufs[out.0 as int] == Seq::new(
            numel(reduced_shape(shape, axes, keepdim)),
            |i: int| D::zero_value(),
        ),
        n <= numel(shape),
    ensures
        ({
            let terms = strided(
                reduced_vars(vars, axes, keepdim),
                reduced_shape(shape, axes, keepdim),
                "sum output stride overflow"@,
            )->Ok_0.0;
            let s = assign(
                out,
                linear(terms),
                ScalarView::Add(
                    Box::new(load(out, linear(terms))),
                    Box::new(load(input, flat)),
                ),
            );
            run_flat::<D>(s, vars, shape, Map::empty(), n, bufs) == Ok::<
                Seq<Seq<D::V>>,
                LoopErrorView,
            >(
                bufs.update(
                    out.0 as int,
                    partial_sums::<D>(
                        bufs[input.0 as int],
                        shape,
                        axes,
                        keepdim,
                        numel(reduced_shape(shape, axes, keepdim)),
                        n,
                    ),
                ),
            )
        }),
    decreases n,
{
    let o = out.0 as int;
    let data = bufs[input.0 as int];
    let small = reduced_shape(shape, axes, keepdim);
    let len = numel(small);
    let rv = reduced_vars(vars, axes, keepdim);
    let text = "sum output stride overflow"@;
    let terms = strided(rv, small, text)->Ok_0.0;
    if n == 0 {
        let start = partial_sums::<D>(data, shape, axes, keepdim, len, 0);
        assert(start =~= bufs[o]);
        assert(bufs.update(o, start) =~= bufs);
    } else {
        let u = (n - 1) as nat;
        lemma_accumulate_sum::<D>(out, input, vars, shape, axes, keepdim, flat, bufs, u);
        let index = unravel(u, shape);
        let env = bind_all(Map::empty(), vars, index);
        unravel_then_ravel(u, shape);
        lemma_bind_all(Map::empty(), vars, index);
        assert forall|k: int| 0 <= k < vars.len() implies var_value(env, #[trigger] vars[k])
            == index[k] by {
            assert(env.dom().contains(vars[k].0));
            assert(index[k] < shape[k]);
            assert(shape[k] <= i64::MAX);
        }
        lemma_reduced_coordinates(vars, index, axes, keepdim, env);
        lemma_sum_place(u, shape, axes, keepdim);
        crate::lower::lemma_reduced_vars_rank(vars, shape, axes, keepdim);
        let ri = reduced_index(index, axes, keepdim);
        let q = sum_place(u, shape, axes, keepdim);
        lemma_strided_value(rv, small, text, ri, env);
        let before = partial_sums::<D>(data, shape, axes, keepdim, len, u);
        let b = bufs.update(o, before);
        let st = LoopState { buffers: b, env };
        lemma_load::<D>(input, vars, shape, flat, u, b);
        let out_load = load(out, linear(terms));
        let in_load = load(input, flat);
        assert(scalar_value::<D>(out_load, st) == Ok::<D::V, LoopErrorView>(before[q as int]));
        assert(scalar_value::<D>(in_load, st) == Ok::<D::V, LoopErrorView>(data[u as int]));
        let acc = ScalarView::Add(Box::new(out_load), Box::new(in_load));
        let sum = D::plus_value(before[q as int], data[u as int]);
        assert(scalar_value::<D>(acc, st) == Ok::<D::V, LoopErrorView>(sum));
        let after = partial_sums::<D>(data, shape, axes, keepdim, len, n);
        assert(before.update(q as int, sum) =~= after);
        assert(b.update(o, b[o].update(q as int, sum)) =~= bufs.update(o, after));
    }
}

/// A lowered sum computes the sum.
proof fn lemma_sum<D: Domain>(
    st: LowerState,
    shape: Seq<nat>,
    input: BufferId,
    x: TensorView<D::V>,
    axes: Seq<usize>,
    keepdim: bool,
    start: LoopState<D::V>,
    bufs: Seq<Seq<D::V>>,
)
    requires
        literal_zero::<D>(),
        lower_sum(st, shape, input, x.shape, axes, keepdim) is Ok,
        run_stmts::<D>(st.body, start) == Ok::<LoopState<D::V>, LoopErrorView>(
            LoopState { buffers: bufs, env: Map::empty() },
        ),
        shape == reduced_shape(x.shape, axes, keepdim),
        numel(shape) <= i64::MAX,
        numel(x.shape) <= i64::MAX,
        x.filled(),
        numel_fits(shape),
        st.buffers.len() < bufs.len(),
        input.0 < st.buffers.len(),
        bufs[input.0 as int] == x.data,
        bufs[st.buffers.len() as int] == Seq::new(numel(shape), |i: int| D::zero_value()),
    ensures
        sum_value::<D>(x, axes, keepdim) is Ok,
        ({
            let (st1, out) = lower_sum(st, shape, input, x.shape, axes, keepdim)->Ok_0;
            &&& out.0 == st.buffers.len()
            &&& st1.buffers == st.buffers.push(
                BufferView { id: out, name: "tmp"@, shape, role: RoleView::Temp },
            )
            &&& run_stmts::<D>(st1.body, start) == Ok::<LoopState<D::V>, LoopErrorView>(
                LoopState {
                    buffers: bufs.update(
                        out.0 as int,
                        sum_value::<D>(x, axes, keepdim)->Ok_0.data,
                    ),
                    env: Map::empty(),
                },
            )
        }),
{
    let (st1, out) = lower_sum(st, shape, input, x.shape, axes, keepdim)->Ok_0;
    let o = out.0 as int;
    let out_vars = vars_from(st.next, shape.len());
    lemma_fresh(st.next, shape.len());
    let out_flat = row_major(out_vars, shape)->Ok_0;
    let init = nest(out_vars, shape, assign(out, out_flat, zero_literal()));
    lemma_zero_fill::<D>(out_vars, shape, out, out_flat, bufs);
    let next = st.next + shape.len();
    let vars = vars_from(next, x.shape.len());
    lemma_fresh(next, x.shape.len());
    let in_flat = row_major(vars, x.shape)->Ok_0;
    let terms = strided(
        reduced_vars(vars, axes, keepdim),
        shape,
        "sum output stride overflow"@,
    )->Ok_0.0;
    let s = assign(
        out,
        linear(terms),
        ScalarView::Add(Box::new(load(out, linear(terms))), Box::new(load(input, in_flat))),
    );
    let step = nest(vars, x.shape, s);
    let env = Map::<u32, i64>::empty();
    assert(keeps_env::<D>(s, vars, x.shape, env));
    lemma_nest::<D>(vars, x.shape, s, env, bufs);
    lemma_accumulate_sum::<D>(
        out,
        input,
        vars,
        x.shape,
        axes,
        keepdim,
        in_flat,
        bufs,
        numel(x.shape),
    );
    let target = sum_value::<D>(x, axes, keepdim)->Ok_0.data;
    assert(partial_sums::<D>(x.data, x.shape, axes, keepdim, numel(shape), numel(x.shape))
        =~= target);
    let mid = st.body.push(init);
    assert(st1.body =~= mid.push(step));
    assert(st1.body.drop_last() =~= mid);
    assert(mid.drop_last() =~= st.body);
    assert(run_stmts::<D>(mid, start) == Ok::<LoopState<D::V>, LoopErrorView>(
        LoopState { buffers: bufs, env: Map::empty() },
    ));
}

/// The nodes of a well-typed graph with their values.
pub open spec fn evaluated<D: Domain>(
    nodes: Seq<OpView>,
    types: Seq<TypeView>,
    inputs: Map<Seq<char>, TensorView<D::V>>,
    values: Seq<TensorView<D::V>>,
) -> bool {
    &&& ordered(nodes)
    &&& crate::graph::consts_fill(nodes)
    &&& types.len() == nodes.len()
    &&& values.len() == nodes.len()
    &&& forall|i: int|
        0 <= i < nodes.len() ==> (#[trigger] values[i]).shape == types[i].shape
            && values[i].filled()
    &&& forall|i: int|
        0 <= i < nodes.len() ==> node_type(#[trigger] nodes[i], types.take(i)) == Ok::<
            TypeView,
            TypeErrorView,
        >(types[i])
    &&& forall|i: int|
        0 <= i < nodes.len() ==> node_value::<D>(#[trigger] nodes[i], inputs, values.take(i))
            == Ok::<TensorView<D::V>, EvalErrorView>(values[i])
    &&& forall|i: int| 0 <= i < nodes.len() ==> leaf_error(#[trigger] nodes[i], inputs) is None
}

/// The buffer that lowering a node adds.
pub open spec fn added_buffer(op: OpView, ty: TypeView, id: BufferId) -> Option<BufferView> {
    match op {
        OpView::Input { name, .. } => Some(
            BufferView { id, name, shape: ty.shape, role: RoleView::Input(name) },
        ),
        OpView::Const { data, shape } => Some(
            BufferView { id, name: "const"@, shape, role: RoleView::Const(data) },
        ),
        OpView::Reshape { .. } => None,
        _ => Some(BufferView { id, name: "tmp"@, shape: ty.shape, role: RoleView::Temp }),
    }
}

/// Lowering a node adds its buffer and no other.
proof fn lemma_added_buffer(
    st: LowerState,
    op: OpView,
    ty: TypeView,
    types: Seq<TypeView>,
    placed: Seq<Option<BufferId>>,
)
    requires
        lower_node(st, op, ty, types, placed) is Ok,
    ensures
        ({
            let (st1, id) = lower_node(st, op, ty, types, placed)->Ok_0;
            st1.buffers == match added_buffer(op, ty, BufferId(st.buffers.len() as u32)) {
                Some(b) => st.buffers.push(b),
                None => st.buffers,
            }
        }),
{
}

/// The buffer of a node with a value can be allocated.
proof fn lemma_added_initial<D: Domain>(
    nodes: Seq<OpView>,
    types: Seq<TypeView>,
    inputs: Map<Seq<char>, TensorView<D::V>>,
    values: Seq<TensorView<D::V>>,
    i: int,
    id: BufferId,
)
    requires
        evaluated::<D>(nodes, types, inputs, values),
        0 <= i < nodes.len(),
    ensures
        match added_buffer(nodes[i], types[i], id) {
            None => true,
            Some(b) => initial::<D>(b, inputs) == Ok::<Seq<D::V>, LoopErrorView>(
                if nodes[i].operands().len() == 0 {
                    values[i].data
                } else {
                    Seq::new(numel(types[i].shape), |j: int| D::zero_value())
                },
            ),
        },
{
    assert(values[i].filled());
    assert(leaf_error(nodes[i], inputs) is None);
    assert(node_value::<D>(nodes[i], inputs, values.take(i)) is Ok);
    assert(node_type(nodes[i], types.take(i)) is Ok);
    match nodes[i] {
        OpView::Const { data, shape } => {
            assert(crate::graph::consts_fill(nodes));
            crate::shape::lemma_numel_fits_prefix(shape, 0);
        },
        _ => {},
    }
}

/// Each placed node's value is in its buffer, and later buffers are as allocated.
pub open spec fn in_step<V>(
    count: nat,
    placed: Seq<Option<BufferId>>,
    values: Seq<TensorView<V>>,
    bufs: Seq<Seq<V>>,
    fresh: Seq<Seq<V>>,
) -> bool {
    &&& bufs.len() == fresh.len()
    &&& forall|v: int|
        0 <= v < placed.len() && (#[trigger] placed[v]) is Some ==> placed[v]->Some_0.0 < count
            && bufs[placed[v]->Some_0.0 as int] == values[v].data
    &&& forall|j: int| count <= j < bufs.len() ==> #[trigger] bufs[j] == fresh[j]
}

/// The statements of one node put its value into its buffer.
proof fn lemma_node_step<D: Domain>(
    nodes: Seq<OpView>,
    types: Seq<TypeView>,
    inputs: Map<Seq<char>, TensorView<D::V>>,
    values: Seq<TensorView<D::V>>,
    i: int,
    st: LowerState,
    placed: Seq<Option<BufferId>>,
    all: Seq<BufferView>,
    start: LoopState<D::V>,
    bufs: Seq<Seq<D::V>>,
    fresh: Seq<Seq<D::V>>,
)
    requires
        literal_zero::<D>(),
        evaluated::<D>(nodes, types, inputs, values),
        sizes_fit(types),
        0 <= i < nodes.len(),
        placed.len() == nodes.len(),
        lower_node(st, nodes[i], types[i], types, placed) is Ok,
        forall|k: int|
            0 <= k < nodes[i].operands().len() ==> placed[(
            #[trigger] nodes[i].operands()[k]).0 as int] is Some,
        run_stmts::<D>(st.body, start) == Ok::<LoopState<D::V>, LoopErrorView>(
            LoopState { buffers: bufs, env: Map::empty() },
        ),
        in_step(st.buffers.len(), placed, values, bufs, fresh),
        lower_node(st, nodes[i], types[i], types, placed)->Ok_0.0.buffers.is_prefix_of(all),
        fresh.len() == all.len(),
        forall|j: int|
            0 <= j < all.len() ==> initial::<D>(#[trigger] all[j], inputs) == Ok::<
                Seq<D::V>,
                LoopErrorView,
            >(fresh[j]),
    ensures
        ({
            let (st1, id) = lower_node(st, nodes[i], types[i], types, placed)->Ok_0;
            let after = run_stmts::<D>(st1.body, start);
            &&& after is Ok
            &&& after->Ok_0.env == Map::<u32, i64>::empty()
            &&& in_step(
                st1.buffers.len(),
                placed.update(i, Some(id)),
                values,
                after->Ok_0.buffers,
                fresh,
            )
        }),
{
    let op = nodes[i];
    let ty = types[i];
    let (st1, id) = lower_node(st, op, ty, types, placed)->Ok_0;
    let count = st.buffers.len() as int;
    lemma_added_buffer(st, op, ty, types, placed);
    lemma_added_initial::<D>(nodes, types, inputs, values, i, BufferId(count as u32));
    if added_buffer(op, ty, BufferId(count as u32)) is Some {
        assert(st1.buffers[count] == all[count]);
        assert(initial::<D>(all[count], inputs) == Ok::<Seq<D::V>, LoopErrorView>(fresh[count]));
        assert(bufs[count] == fresh[count]);
    }
    assert(values[i].filled());
    assert(node_value::<D>(op, inputs, values.take(i)) == Ok::<TensorView<D::V>, EvalErrorView>(
        values[i],
    ));
    assert(node_type(op, types.take(i)) == Ok::<TypeView, TypeErrorView>(types[i]));
    assert(numel(types[i].shape) <= i64::MAX);
    let operands = op.operands();
    if operands.len() > 0 {
        let o = operands[0];
        assert(o == nodes[i].operands()[0]);
        assert(o.0 < i);
        assert(placed[o.0 as int] is Some);
        assert(values[o.0 as int].filled());
        assert(values.take(i)[o.0 as int] == values[o.0 as int]);
        assert(types.take(i)[o.0 as int] == types[o.0 as int]);
        assert(numel(types[o.0 as int].shape) <= i64::MAX);
    }
    if operands.len() > 1 {
        let o = operands[1];
        assert(o == nodes[i].operands()[1]);
        assert(o.0 < i);
        assert(placed[o.0 as int] is Some);
        assert(values[o.0 as int].filled());
        assert(values.take(i)[o.0 as int] == values[o.0 as int]);
        assert(types.take(i)[o.0 as int] == types[o.0 as int]);
        assert(numel(types[o.0 as int].shape) <= i64::MAX);
    }
    let target = values[i].data;
    match op {
        OpView::Input { .. } | OpView::Const { .. } => {
            assert(st1.body == st.body);
        },
        OpView::Add(l, r) => {
            lemma_binary_step::<D>(
                st,
                ty.shape,
                buffer_of(placed, l),
                buffer_of(placed, r),
                BinaryOp::Add,
                start,
                bufs,
                target,
            );
        },
        OpView::Sub(l, r) => {
            lemma_binary_step::<D>(
                st,
                ty.shape,
                buffer_of(placed, l),
                buffer_of(placed, r),
                BinaryOp::Sub,
                start,
                bufs,
                target,
            );
        },
        OpView::Mul(l, r) => {
            lemma_binary_step::<D>(
                st,
                ty.shape,
                buffer_of(placed, l),
                buffer_of(placed, r),
                BinaryOp::Mul,
                start,
                bufs,
                target,
            );
        },
        OpView::Neg(x) => {
            lemma_unary_step::<D>(
                st,
                ty.shape,
                buffer_of(placed, x),
                UnaryOp::Neg,
                start,
                bufs,
                target,
            );
        },
        OpView::Relu(x) => {
            lemma_unary_step::<D>(
                st,
                ty.shape,
                buffer_of(placed, x),
                UnaryOp::Relu,
                start,
                bufs,
                target,
            );
        },
        OpView::Matmul(l, r) => {
            lemma_matmul::<D>(
                st,
                ty.shape,
                buffer_of(placed, l),
                values[l.0 as int],
                buffer_of(placed, r),
                values[r.0 as int],
                start,
                bufs,
            );
        },
        OpView::Sum { input, axes, keepdim } => {
            lemma_sum::<D>(
                st,
                ty.shape,
                buffer_of(placed, input),
                values[input.0 as int],
                axes,
                keepdim,
                start,
                bufs,
            );
        },
        OpView::Reshape { input, .. } => {
            assert(st1 == st);
        },
    }
}

/// A lowered binary operation computes the operation.
proof fn lemma_binary_step<D: Domain>(
    st: LowerState,
    shape: Seq<nat>,
    left: BufferId,
    right: BufferId,
    op: BinaryOp,
    start: LoopState<D::V>,
    bufs: Seq<Seq<D::V>>,
    target: Seq<D::V>,
)
    requires
        lower_binary(st, shape, left, right, op) is Ok,
        run_stmts::<D>(st.body, start) == Ok::<LoopState<D::V>, LoopErrorView>(
            LoopState { buffers: bufs, env: Map::empty() },
        ),
        numel(shape) <= i64::MAX,
        left.0 < st.buffers.len(),
        right.0 < st.buffers.len(),
        st.buffers.len() < bufs.len(),
        bufs[st.buffers.len() as int].len() == numel(shape),
        bufs[left.0 as int].len() == numel(shape),
        bufs[right.0 as int].len() == numel(shape),
        target == Seq::new(
            numel(shape),
            |i: int| binary_value::<D>(op, bufs[left.0 as int][i], bufs[right.0 as int][i]),
        ),
    ensures
        ({
            let (st1, out) = lower_binary(st, shape, left, right, op)->Ok_0;
            &&& out.0 == st.buffers.len()
            &&& run_stmts::<D>(st1.body, start) == Ok::<LoopState<D::V>, LoopErrorView>(
                LoopState { buffers: bufs.update(out.0 as int, target), env: Map::empty() },
            )
        }),
{
    let value = |flat: AffineView| binary_expr(op, load(left, flat), load(right, flat));
    let vars = vars_from(st.next, shape.len());
    lemma_fresh(st.next, shape.len());
    let out = st.buffers.len() as int;
    assert forall|b: Seq<Seq<D::V>>, n: nat, flat: AffineView|
        agree_except(b, bufs, out) && n < numel(shape) && row_major(vars, shape) == Ok::<
            AffineView,
            LowerErrorView,
        >(flat) implies #[trigger] scalar_value::<D>(
        value(flat),
        LoopState { buffers: b, env: bind_all(Map::empty(), vars, unravel(n, shape)) },
    ) == Ok::<D::V, LoopErrorView>(target[n as int]) by {
        assert(b[left.0 as int] == bufs[left.0 as int]);
        assert(b[right.0 as int] == bufs[right.0 as int]);
        lemma_load::<D>(left, vars, shape, flat, n, b);
        lemma_load::<D>(right, vars, shape, flat, n, b);
    }
    lemma_elementwise::<D>(st, shape, value, start, bufs, target);
}

/// A lowered unary operation computes the operation.
proof fn lemma_unary_step<D: Domain>(
    st: LowerState,
    shape: Seq<nat>,
    input: BufferId,
    op: UnaryOp,
    start: LoopState<D::V>,
    bufs: Seq<Seq<D::V>>,
    target: Seq<D::V>,
)
    requires
        lower_unary(st, shape, input, op) is Ok,
        run_stmts::<D>(st.body, start) == Ok::<LoopState<D::V>, LoopErrorView>(
            LoopState { buffers: bufs, env: Map::empty() },
        ),
        numel(shape) <= i64::MAX,
        input.0 < st.buffers.len(),
        st.buffers.len() < bufs.len(),
        bufs[st.buffers.len() as int].len() == numel(shape),
        bufs[input.0 as int].len() == numel(shape),
        target == bufs[input.0 as int].map_values(|a: D::V| unary_value::<D>(op, a)),
    ensures
        ({
            let (st1, out) = lower_unary(st, shape, input, op)->Ok_0;
            &&& out.0 == st.buffers.len()
            &&& run_stmts::<D>(st1.body, start) == Ok::<LoopState<D::V>, LoopErrorView>(
                LoopState { buffers: bufs.update(out.0 as int, target), env: Map::empty() },
            )
        }),
{
    let value = |flat: AffineView| unary_expr(op, load(input, flat));
    let vars = vars_from(st.next, shape.len());
    lemma_fresh(st.next, shape.len());
    let out = st.buffers.len() as int;
    assert forall|b: Seq<Seq<D::V>>, n: nat, flat: AffineView|
        agree_except(b, bufs, out) && n < numel(shape) && row_major(vars, shape) == Ok::<
            AffineView,
            LowerErrorView,
        >(flat) implies #[trigger] scalar_value::<D>(
        value(flat),
        LoopState { buffers: b, env: bind_all(Map::empty(), vars, unravel(n, shape)) },
    ) == Ok::<D::V, LoopErrorView>(target[n as int]) by {
        assert(b[input.0 as int] == bufs[input.0 as int]);
        lemma_load::<D>(input, vars, shape, flat, n, b);
    }
    lemma_elementwise::<D>(st, shape, value, start, bufs, target);
}

/// The buffers after lowering more nodes extend those after fewer, and can all be allocated.
proof fn lemma_along_buffers<D: Domain>(
    nodes: Seq<OpView>,
    types: Seq<TypeView>,
    inputs: Map<Seq<char>, TensorView<D::V>>,
    values: Seq<TensorView<D::V>>,
    order: Seq<NodeId>,
    n: nat,
)
    requires
        evaluated::<D>(nodes, types, inputs, values),
        schedule(nodes, order),
        n <= order.len(),
        lower_along(nodes, types, order, n) is Ok,
    ensures
        lower_along(nodes, types, order, n)->Ok_0.1.len() == nodes.len(),
        forall|j: int|
            0 <= j < lower_along(nodes, types, order, n)->Ok_0.0.buffers.len() ==> initial::<D>(
                #[trigger] lower_along(nodes, types, order, n)->Ok_0.0.buffers[j],
                inputs,
            ) is Ok,
        n > 0 ==> lower_along(nodes, types, order, (n - 1) as nat) is Ok && lower_along(
            nodes,
            types,
            order,
            (n - 1) as nat,
        )->Ok_0.0.buffers.is_prefix_of(lower_along(nodes, types, order, n)->Ok_0.0.buffers),
    decreases n,
{
    if n > 0 {
        let m = (n - 1) as nat;
        lemma_along_buffers::<D>(nodes, types, inputs, values, order, m);
        let (st, placed) = lower_along(nodes, types, order, m)->Ok_0;
        let i = order[n - 1].0 as int;
        assert(i < nodes.len());
        lemma_added_buffer(st, nodes[i], types[i], types, placed);
        lemma_added_initial::<D>(
            nodes,
            types,
            inputs,
            values,
            i,
            BufferId(st.buffers.len() as u32),
        );
        let (st1, id) = lower_node(st, nodes[i], types[i], types, placed)->Ok_0;
        assert forall|j: int| 0 <= j < st1.buffers.len() implies initial::<D>(
            #[trigger] st1.buffers[j],
            inputs,
        ) is Ok by {
            if j < st.buffers.len() {
                assert(st1.buffers[j] == st.buffers[j]);
                assert(initial::<D>(st.buffers[j], inputs) is Ok);
            }
        }
    }
}

/// Running the statements of the first `n` nodes puts their values into their buffers.
proof fn lemma_along_step<D: Domain>(
    nodes: Seq<OpView>,
    types: Seq<TypeView>,
    inputs: Map<Seq<char>, TensorView<D::V>>,
    values: Seq<TensorView<D::V>>,
    order: Seq<NodeId>,
    n: nat,
    all: Seq<BufferView>,
    fresh: Seq<Seq<D::V>>,
)
    requires
        literal_zero::<D>(),
        evaluated::<D>(nodes, types, inputs, values),
        sizes_fit(types),
        schedule(nodes, order),
        n <= order.len(),
        lower_along(nodes, types, order, n) is Ok,
        lower_along(nodes, types, order, n)->Ok_0.0.buffers.is_prefix_of(all),
        fresh.len() == all.len(),
        forall|j: int|
            0 <= j < all.len() ==> initial::<D>(#[trigger] all[j], inputs) == Ok::<
                Seq<D::V>,
                LoopErrorView,
            >(fresh[j]),
    ensures
        ({
            let (st, placed) = lower_along(nodes, types, order, n)->Ok_0;
            let after = run_stmts::<D>(
                st.body,
                LoopState { buffers: fresh, env: Map::empty() },
            );
            &&& after is Ok
            &&& after->Ok_0.env == Map::<u32, i64>::empty()
            &&& placed.len() == nodes.len()
            &&& in_step(st.buffers.len(), placed, values, after->Ok_0.buffers, fresh)
            &&& forall|p: int| 0 <= p < n ==> placed[(#[trigger] order[p]).0 as int] is Some
        }),
    decreases n,
{
    let start = LoopState { buffers: fresh, env: Map::<u32, i64>::empty() };
    if n == 0 {
        assert(run_stmts::<D>(Seq::<StmtView>::empty(), start) == Ok::<
            LoopState<D::V>,
            LoopErrorView,
        >(start));
    } else {
        let m = (n - 1) as nat;
        lemma_along_buffers::<D>(nodes, types, inputs, values, order, n);
        let (st, placed) = lower_along(nodes, types, order, m)->Ok_0;
        let i = order[n - 1].0 as int;
        let (st1, id) = lower_node(st, nodes[i], types[i], types, placed)->Ok_0;
        assert(st.buffers.is_prefix_of(all)) by {
            assert(st.buffers =~= all.subrange(0, st.buffers.len() as int));
        }
        lemma_along_step::<D>(nodes, types, inputs, values, order, m, all, fresh);
        let bufs = run_stmts::<D>(st.body, start)->Ok_0.buffers;
        assert(operands_within(nodes, order, order[n - 1], n - 1));
        reveal(operands_within);
        assert forall|k: int| 0 <= k < nodes[i].operands().len() implies placed[(
        #[trigger] nodes[i].operands()[k]).0 as int] is Some by {
            let o = nodes[i].operands()[k];
            assert(order.take(n - 1).contains(o));
            let q = order.take(n - 1).index_of(o);
            assert(order.take(n - 1)[q] == o);
            assert(order[q] == o);
        }
        lemma_node_step::<D>(
            nodes,
            types,
            inputs,
            values,
            i,
            st,
            placed,
            all,
            start,
            bufs,
            fresh,
        );
    }
}

/// A lowered graph computes what the graph computes: whatever the domain of scalars, if the graph
/// evaluates on some inputs, so does its kernel, to the same outputs.
pub proof fn lowering_preserves_evaluation<D: Domain>(
    g: GraphView,
    inputs: Map<Seq<char>, TensorView<D::V>>,
)
    requires
        literal_zero::<D>(),
        lower_graph(g) is Ok,
        eval_graph::<D>(g, inputs) is Ok,
        inputs_filled(inputs),
        sizes_fit(infer_graph(g)->Ok_0),
    ensures
        eval_kernel::<D>(lower_graph(g)->Ok_0, inputs) == Ok::<
            Seq<TensorView<D::V>>,
            LoopErrorView,
        >(eval_graph::<D>(g, inputs)->Ok_0),
{
    let nodes = g.nodes;
    let types = infer_graph(g)->Ok_0;
    let kernel = lower_graph(g)->Ok_0;
    crate::graph::validation_accepts_exactly_well_formed(g);
    let values = eval_nodes::<D>(nodes, inputs, nodes.len())->Ok_0;
    lemma_infer_prefix(nodes, nodes.len());
    lemma_eval_prefix::<D>(nodes, inputs, nodes.len());
    lemma_first_some_all(leaf_errors(nodes, inputs));
    assert forall|i: int| 0 <= i < nodes.len() implies leaf_error(#[trigger] nodes[i], inputs)
        is None by {
        assert(leaf_errors(nodes, inputs)[i] is None);
    }
    lemma_values_typed::<D>(nodes, inputs, nodes.len());
    assert(evaluated::<D>(nodes, types, inputs, values));
    let order = topo(nodes)->Ok_0;
    assert(schedule(nodes, order));
    let (st, placed) = lower_along(nodes, types, order, order.len())->Ok_0;
    lemma_along_buffers::<D>(nodes, types, inputs, values, order, order.len());
    lemma_kernel_runs::<D>(g, inputs, types, values, order);
}

/// The kernel of an evaluated graph runs to the values of its outputs.
proof fn lemma_kernel_runs<D: Domain>(
    g: GraphView,
    inputs: Map<Seq<char>, TensorView<D::V>>,
    types: Seq<TypeView>,
    values: Seq<TensorView<D::V>>,
    order: Seq<NodeId>,
)
    requires
        literal_zero::<D>(),
        evaluated::<D>(g.nodes, types, inputs, values),
        sizes_fit(types),
        schedule(g.nodes, order),
        crate::graph::outputs_listed(g),
        infer_graph(g) == Ok::<Seq<TypeView>, TypeErrorView>(types),
        topo(g.nodes) == Ok::<Seq<NodeId>, crate::error::IrError>(order),
        lower_graph(g) is Ok,
    ensures
        eval_kernel::<D>(lower_graph(g)->Ok_0, inputs) == Ok::<
            Seq<TensorView<D::V>>,
            LoopErrorView,
        >(g.outputs.map_values(|id: NodeId| values[id.0 as int])),
{
    let nodes = g.nodes;
    let kernel = lower_graph(g)->Ok_0;
    let (st, placed) = lower_along(nodes, types, order, order.len())->Ok_0;
    lemma_along_buffers::<D>(nodes, types, inputs, values, order, order.len());
    let results = kernel.buffers.map_values(|b: BufferView| initial::<D>(b, inputs));
    assert forall|j: int| 0 <= j < results.len() implies (#[trigger] results[j]) is Ok by {
        assert(initial::<D>(st.buffers[j], inputs) is Ok);
    }
    lemma_collect_ok(results);
    let fresh = collect(results)->Ok_0;
    assert forall|j: int| 0 <= j < st.buffers.len() implies initial::<D>(
        #[trigger] st.buffers[j],
        inputs,
    ) == Ok::<Seq<D::V>, LoopErrorView>(fresh[j]) by {
        assert(results[j] == initial::<D>(st.buffers[j], inputs));
    }
    lemma_along_step::<D>(
        nodes,
        types,
        inputs,
        values,
        order,
        order.len(),
        st.buffers,
        fresh,
    );
    let after = run_stmts::<D>(
        st.body,
        LoopState { buffers: fresh, env: Map::<u32, i64>::empty() },
    )->Ok_0;
    crate::topo::lemma_pigeonhole(order, nodes.len());
    let outs = Seq::new(
        kernel.outputs.len(),
        |i: int|
            output_tensor(kernel, after.buffers, kernel.outputs[i], kernel.output_shapes[i]),
    );
    let want = g.outputs.map_values(|id: NodeId| values[id.0 as int]);
    assert forall|k: int| 0 <= k < outs.len() implies #[trigger] outs[k] == Ok::<
        TensorView<D::V>,
        LoopErrorView,
    >(want[k]) by {
        let id = g.outputs[k];
        assert(id.0 < nodes.len());
        assert(order.contains(NodeId(id.0)));
        let q = order.index_of(NodeId(id.0));
        assert(order[q] == id);
        assert(placed[id.0 as int] is Some);
        assert(values[id.0 as int].filled());
        crate::shape::lemma_numel_fits_prefix(values[id.0 as int].shape, 0);
    }
    crate::seqs::lemma_collect_all(outs, want);
}

} // verus!

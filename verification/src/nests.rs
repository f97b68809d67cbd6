//! What loop nests compute.
use vstd::prelude::*;

use crate::affine::{terms_value, var_value, AffineView, LoopVar};
use crate::domain::Domain;
use crate::index::{
    in_range, lemma_unravel_push, ravel, ravel_then_unravel, unravel, unravel_then_ravel,
};
use crate::interp_loops::{
    bind, place, run_for, run_stmt, run_stmts, scalar_value, LoopErrorView, LoopState,
};
use crate::loop_ir::{BufferId, ScalarView, StmtView};
use crate::lower::{
    all_some, assign, extents_fit, fixed, linear, nest, row_major, strided, LowerErrorView,
};
use crate::shape::numel;

verus! {

/// The variables bound to the coordinates.
pub open spec fn bind_all(env: Map<u32, i64>, vars: Seq<LoopVar>, index: Seq<nat>) -> Map<u32, i64>
    decreases vars.len(),
{
    if vars.len() == 0 {
        env
    } else {
        bind_all(env, vars.drop_last(), index.drop_last()).insert(
            vars.last().0,
            index.last() as i64,
        )
    }
}

/// The variables are distinct.
pub open spec fn distinct(vars: Seq<LoopVar>) -> bool {
    forall|i: int, j: int| 0 <= i < j < vars.len() ==> #[trigger] vars[i] != #[trigger] vars[j]
}

/// None of the variables is bound.
pub open spec fn unbound(env: Map<u32, i64>, vars: Seq<LoopVar>) -> bool {
    forall|k: int| 0 <= k < vars.len() ==> !env.dom().contains((#[trigger] vars[k]).0)
}

/// What is bound after binding all variables, and to what.
pub proof fn lemma_bind_all(env: Map<u32, i64>, vars: Seq<LoopVar>, index: Seq<nat>)
    requires
        distinct(vars),
        vars.len() == index.len(),
    ensures
        forall|k: int|
            0 <= k < vars.len() ==> bind_all(env, vars, index).dom().contains((#[trigger] vars[k]).0)
                && bind_all(env, vars, index)[vars[k].0] == index[k] as i64,
        forall|v: u32|
            (forall|k: int| 0 <= k < vars.len() ==> (#[trigger] vars[k]).0 != v) ==> (
            #[trigger] bind_all(env, vars, index).dom().contains(v) <==> env.dom().contains(v)),
    decreases vars.len(),
{
    if vars.len() > 0 {
        let vs = vars.drop_last();
        let ix = index.drop_last();
        lemma_bind_all(env, vs, ix);
        let all = bind_all(env, vars, index);
        assert forall|k: int| 0 <= k < vars.len() implies all.dom().contains(
            (#[trigger] vars[k]).0,
        ) && all[vars[k].0] == index[k] as i64 by {
            if k < vs.len() {
                assert(vs[k] == vars[k]);
                assert(vars[k] != vars[vars.len() - 1]);
            }
        }
        assert forall|v: u32|
            (forall|k: int| 0 <= k < vars.len() ==> (#[trigger] vars[k]).0 != v) implies (
        #[trigger] all.dom().contains(v) <==> env.dom().contains(v)) by {
            assert(vars[vars.len() - 1].0 != v);
            assert forall|k: int| 0 <= k < vs.len() implies (#[trigger] vs[k]).0 != v by {
                assert(vars[k].0 != v);
            }
            assert(bind_all(env, vs, ix).dom().contains(v) <==> env.dom().contains(v));
        }
    }
}

/// The buffers after a statement.
pub open spec fn buffers_after<D: Domain>(
    s: StmtView,
    buffers: Seq<Seq<D::V>>,
    env: Map<u32, i64>,
) -> Result<Seq<Seq<D::V>>, LoopErrorView> {
    match run_stmt::<D>(s, LoopState { buffers, env }) {
        Err(e) => Err(e),
        Ok(after) => Ok(after.buffers),
    }
}

/// The buffers after running a statement at the first `n` multi-indices in row-major order.
pub open spec fn run_flat<D: Domain>(
    s: StmtView,
    vars: Seq<LoopVar>,
    shape: Seq<nat>,
    env: Map<u32, i64>,
    n: nat,
    buffers: Seq<Seq<D::V>>,
) -> Result<Seq<Seq<D::V>>, LoopErrorView>
    decreases n,
{
    if n == 0 {
        Ok(buffers)
    } else {
        match run_flat::<D>(s, vars, shape, env, (n - 1) as nat, buffers) {
            Err(e) => Err(e),
            Ok(before) => buffers_after::<D>(
                s,
                before,
                bind_all(env, vars, unravel((n - 1) as nat, shape)),
            ),
        }
    }
}

/// The statement leaves the environment as it was, at every multi-index.
pub open spec fn keeps_env<D: Domain>(
    s: StmtView,
    vars: Seq<LoopVar>,
    shape: Seq<nat>,
    env: Map<u32, i64>,
) -> bool {
    forall|index: Seq<nat>, buffers: Seq<Seq<D::V>>|
        in_range(index, shape) && (#[trigger] run_stmt::<D>(
            s,
            LoopState { buffers, env: bind_all(env, vars, index) },
        )) is Ok ==> run_stmt::<D>(
            s,
            LoopState { buffers, env: bind_all(env, vars, index) },
        )->Ok_0.env == bind_all(env, vars, index)
}

/// The buffers after running a statement for the first `n` values of the innermost variable.
pub open spec fn run_inner<D: Domain>(
    s: StmtView,
    vars: Seq<LoopVar>,
    env: Map<u32, i64>,
    index: Seq<nat>,
    n: nat,
    buffers: Seq<Seq<D::V>>,
) -> Result<Seq<Seq<D::V>>, LoopErrorView>
    decreases n,
{
    if n == 0 {
        Ok(buffers)
    } else {
        match run_inner::<D>(s, vars, env, index, (n - 1) as nat, buffers) {
            Err(e) => Err(e),
            Ok(before) => buffers_after::<D>(
                s,
                before,
                bind_all(env, vars, index.push((n - 1) as nat)),
            ),
        }
    }
}

/// One loop runs its body for each value of its variable.
proof fn lemma_inner_loop<D: Domain>(
    s: StmtView,
    vars: Seq<LoopVar>,
    shape: Seq<nat>,
    env: Map<u32, i64>,
    index: Seq<nat>,
    n: nat,
    buffers: Seq<Seq<D::V>>,
)
    requires
        shape.len() > 0,
        vars.len() == shape.len(),
        in_range(index, shape.drop_last()),
        n <= shape.last() <= i64::MAX,
        keeps_env::<D>(s, vars, shape, env),
    ensures
        ({
            let outer = bind_all(env, vars.drop_last(), index);
            let got = run_for::<D>(
                vars.last(),
                seq![s],
                0,
                n as int,
                LoopState { buffers, env: outer },
            );
            match run_inner::<D>(s, vars, env, index, n, buffers) {
                Err(e) => got == Err::<LoopState<D::V>, LoopErrorView>(e),
                Ok(b) => got == Ok::<LoopState<D::V>, LoopErrorView>(
                    LoopState {
                        buffers: b,
                        env: if n == 0 {
                            outer
                        } else {
                            outer.insert(vars.last().0, (n - 1) as i64)
                        },
                    },
                ),
            }
        }),
    decreases n,
{
    if n > 0 {
        let m = (n - 1) as nat;
        lemma_inner_loop::<D>(s, vars, shape, env, index, m, buffers);
        let outer = bind_all(env, vars.drop_last(), index);
        if run_inner::<D>(s, vars, env, index, m, buffers) is Ok {
            let b = run_inner::<D>(s, vars, env, index, m, buffers)->Ok_0;
            let before = run_for::<D>(
                vars.last(),
                seq![s],
                0,
                m as int,
                LoopState { buffers, env: outer },
            )->Ok_0;
            let here = index.push(m);
            assert(here.drop_last() =~= index);
            assert(bind(before, vars.last(), m as i64).env =~= bind_all(env, vars, here));
            assert(in_range(here, shape)) by {
                assert forall|k: int| 0 <= k < here.len() implies #[trigger] here[k] < shape[k] by {
                    if k < index.len() {
                        assert(index[k] < shape.drop_last()[k]);
                    }
                }
            }
            let st = LoopState { buffers: b, env: bind_all(env, vars, here) };
            assert(seq![s].drop_last() =~= Seq::empty());
            assert(run_stmts::<D>(Seq::<StmtView>::empty(), st) == Ok::<
                LoopState<D::V>,
                LoopErrorView,
            >(st));
            assert(run_stmts::<D>(seq![s], st) == run_stmt::<D>(s, st));
        }
    }
}

/// Rows of the innermost loop, one after the other, are the flat run.
proof fn lemma_flat_rows<D: Domain>(
    s: StmtView,
    vars: Seq<LoopVar>,
    shape: Seq<nat>,
    d: nat,
    env: Map<u32, i64>,
    q: nat,
    j: nat,
    buffers: Seq<Seq<D::V>>,
)
    requires
        j <= d,
    ensures
        run_flat::<D>(s, vars, shape.push(d), env, q * d + j, buffers) == match run_flat::<D>(
            s,
            vars,
            shape.push(d),
            env,
            q * d,
            buffers,
        ) {
            Err(e) => Err(e),
            Ok(b) => run_inner::<D>(s, vars, env, unravel(q, shape), j, b),
        },
    decreases j,
{
    if j > 0 {
        let i = (j - 1) as nat;
        lemma_flat_rows::<D>(s, vars, shape, d, env, q, i, buffers);
        lemma_unravel_push(q, shape, d, i);
        assert((q * d + j - 1) as nat == q * d + i);
    }
}

/// A nest runs its statement at every multi-index in row-major order and leaves the environment
/// as it was.
pub proof fn lemma_nest<D: Domain>(
    vars: Seq<LoopVar>,
    shape: Seq<nat>,
    s: StmtView,
    env: Map<u32, i64>,
    buffers: Seq<Seq<D::V>>,
)
    requires
        vars.len() == shape.len(),
        distinct(vars),
        unbound(env, vars),
        extents_fit(shape),
        keeps_env::<D>(s, vars, shape, env),
    ensures
        match run_flat::<D>(s, vars, shape, env, numel(shape), buffers) {
            Err(e) => run_stmt::<D>(nest(vars, shape, s), LoopState { buffers, env }) == Err::<
                LoopState<D::V>,
                LoopErrorView,
            >(e),
            Ok(b) => run_stmt::<D>(nest(vars, shape, s), LoopState { buffers, env }) == Ok::<
                LoopState<D::V>,
                LoopErrorView,
            >(LoopState { buffers: b, env }),
        },
    decreases shape.len(),
{
    if shape.len() == 0 {
        let index = Seq::<nat>::empty();
        assert(in_range(index, shape));
        assert(bind_all(env, vars, index) == env);
        assert(unravel(0, shape) == index);
        assert(run_flat::<D>(s, vars, shape, env, 0, buffers) == Ok::<
            Seq<Seq<D::V>>,
            LoopErrorView,
        >(buffers));
        assert(run_flat::<D>(s, vars, shape, env, 1, buffers) == buffers_after::<D>(
            s,
            buffers,
            env,
        ));
    } else {
        let vs = vars.drop_last();
        let es = shape.drop_last();
        let d = shape.last();
        let v = vars.last();
        let row = StmtView::For { var: v, lo: fixed(0), hi: fixed(d as int), body: seq![s] };
        assert(shape[shape.len() - 1] <= i64::MAX);
        assert forall|i: int, j: int| 0 <= i < j < vs.len() implies #[trigger] vs[i]
            != #[trigger] vs[j] by {
            assert(vars[i] != vars[j]);
        }
        assert forall|k: int| 0 <= k < vs.len() implies !env.dom().contains(
            (#[trigger] vs[k]).0,
        ) by {
            assert(!env.dom().contains(vars[k].0));
        }
        assert forall|i: int| 0 <= i < es.len() implies #[trigger] es[i] <= i64::MAX by {
            assert(shape[i] <= i64::MAX);
        }
        assert forall|index: Seq<nat>, b: Seq<Seq<D::V>>| in_range(index, es) implies (
        match run_inner::<D>(s, vars, env, index, d, b) {
            Err(e) => #[trigger] run_stmt::<D>(
                row,
                LoopState { buffers: b, env: bind_all(env, vs, index) },
            ) == Err::<LoopState<D::V>, LoopErrorView>(e),
            Ok(b2) => run_stmt::<D>(
                row,
                LoopState { buffers: b, env: bind_all(env, vs, index) },
            ) == Ok::<LoopState<D::V>, LoopErrorView>(
                LoopState { buffers: b2, env: bind_all(env, vs, index) },
            ),
        }) by {
            let outer = bind_all(env, vs, index);
            lemma_inner_loop::<D>(s, vars, shape, env, index, d, b);
            lemma_bind_all(env, vs, index);
            assert(!outer.dom().contains(v.0)) by {
                assert forall|k: int| 0 <= k < vs.len() implies (#[trigger] vs[k]).0 != v.0 by {
                    assert(vars[k] != vars[vars.len() - 1]);
                }
                assert(vars[vars.len() - 1] == v);
                assert(!env.dom().contains(v.0));
            }
            assert(fixed(0).value(outer) == 0);
            assert(fixed(d as int).value(outer) == d);
            if d == 0 {
                assert(outer.remove(v.0) =~= outer);
            } else {
                assert(outer.insert(v.0, (d - 1) as i64).remove(v.0) =~= outer);
            }
        }
        assert(keeps_env::<D>(row, vs, es, env));
        lemma_nest::<D>(vs, es, row, env, buffers);
        lemma_nest_rows::<D>(s, vars, shape, env, row, numel(es), buffers);
    }
}

/// Running the rows is running the flat sequence.
proof fn lemma_nest_rows<D: Domain>(
    s: StmtView,
    vars: Seq<LoopVar>,
    shape: Seq<nat>,
    env: Map<u32, i64>,
    row: StmtView,
    q: nat,
    buffers: Seq<Seq<D::V>>,
)
    requires
        shape.len() > 0,
        vars.len() == shape.len(),
        q <= numel(shape.drop_last()),
        forall|index: Seq<nat>, b: Seq<Seq<D::V>>|
            in_range(index, shape.drop_last()) ==> (match run_inner::<D>(
                s,
                vars,
                env,
                index,
                shape.last(),
                b,
            ) {
                Err(e) => #[trigger] run_stmt::<D>(
                    row,
                    LoopState { buffers: b, env: bind_all(env, vars.drop_last(), index) },
                ) == Err::<LoopState<D::V>, LoopErrorView>(e),
                Ok(b2) => run_stmt::<D>(
                    row,
                    LoopState { buffers: b, env: bind_all(env, vars.drop_last(), index) },
                ) == Ok::<LoopState<D::V>, LoopErrorView>(
                    LoopState { buffers: b2, env: bind_all(env, vars.drop_last(), index) },
                ),
            }),
    ensures
        run_flat::<D>(row, vars.drop_last(), shape.drop_last(), env, q, buffers) == run_flat::<D>(
            s,
            vars,
            shape,
            env,
            q * shape.last(),
            buffers,
        ),
    decreases q,
{
    let d = shape.last();
    let es = shape.drop_last();
    let vs = vars.drop_last();
    assert(es.push(d) =~= shape);
    if q > 0 {
        let p = (q - 1) as nat;
        lemma_nest_rows::<D>(s, vars, shape, env, row, p, buffers);
        assert(p * d + d == q * d) by (nonlinear_arith)
            requires
                p == q - 1,
        ;
        lemma_flat_rows::<D>(s, vars, es, d, env, p, d, buffers);
        unravel_then_ravel(p, es);
        if run_flat::<D>(row, vs, es, env, p, buffers) is Ok {
            let b = run_flat::<D>(row, vs, es, env, p, buffers)->Ok_0;
            let st = LoopState { buffers: b, env: bind_all(env, vs, unravel(p, es)) };
            assert(run_stmt::<D>(row, st) == run_stmt::<D>(row, st));
        }
    } else {
        assert(0 * d == 0) by (nonlinear_arith);
    }
}

/// An assignment leaves the environment as it was.
pub proof fn lemma_assign_keeps_env<D: Domain>(
    buffer: BufferId,
    index: AffineView,
    value: ScalarView,
    vars: Seq<LoopVar>,
    shape: Seq<nat>,
    env: Map<u32, i64>,
)
    ensures
        keeps_env::<D>(assign(buffer, index, value), vars, shape, env),
{
}

/// The buffers agree but for one.
pub open spec fn agree_except<V>(a: Seq<Seq<V>>, b: Seq<Seq<V>>, out: int) -> bool {
    &&& a.len() == b.len()
    &&& forall|i: int| 0 <= i < a.len() && i != out ==> #[trigger] a[i] == b[i]
}

/// The buffers with the first `n` elements of one replaced.
pub open spec fn filled_upto<V>(buffers: Seq<Seq<V>>, out: int, target: Seq<V>, n: nat) -> Seq<
    Seq<V>,
> {
    buffers.update(
        out,
        Seq::new(target.len(), |i: int| if i < n { target[i] } else { buffers[out][i] }),
    )
}

/// A nest of assignments at the row-major index fills a buffer with its target.
pub proof fn lemma_fill<D: Domain>(
    vars: Seq<LoopVar>,
    shape: Seq<nat>,
    out: BufferId,
    flat: AffineView,
    value: ScalarView,
    buffers: Seq<Seq<D::V>>,
    target: Seq<D::V>,
)
    requires
        vars.len() == shape.len(),
        distinct(vars),
        extents_fit(shape),
        numel(shape) <= i64::MAX,
        row_major(vars, shape) == Ok::<AffineView, LowerErrorView>(flat),
        out.0 < buffers.len(),
        buffers[out.0 as int].len() == numel(shape),
        target.len() == numel(shape),
        forall|b: Seq<Seq<D::V>>, n: nat|
            agree_except(b, buffers, out.0 as int) && n < numel(shape)
                ==> #[trigger] scalar_value::<D>(
                value,
                LoopState { buffers: b, env: bind_all(Map::empty(), vars, unravel(n, shape)) },
            ) == Ok::<D::V, LoopErrorView>(target[n as int]),
    ensures
        run_stmt::<D>(
            nest(vars, shape, assign(out, flat, value)),
            LoopState { buffers, env: Map::empty() },
        ) == Ok::<LoopState<D::V>, LoopErrorView>(
            LoopState { buffers: buffers.update(out.0 as int, target), env: Map::empty() },
        ),
{
    let env = Map::<u32, i64>::empty();
    let s = assign(out, flat, value);
    lemma_assign_keeps_env::<D>(out, flat, value, vars, shape, env);
    lemma_nest::<D>(vars, shape, s, env, buffers);
    lemma_fill_flat::<D>(vars, shape, out, flat, value, buffers, target, numel(shape));
    assert(filled_upto(buffers, out.0 as int, target, numel(shape)) =~= buffers.update(
        out.0 as int,
        target,
    )) by {
        assert(Seq::new(
            target.len(),
            |i: int| if i < numel(shape) { target[i] } else { buffers[out.0 as int][i] },
        ) =~= target);
    }
}

proof fn lemma_fill_flat<D: Domain>(
    vars: Seq<LoopVar>,
    shape: Seq<nat>,
    out: BufferId,
    flat: AffineView,
    value: ScalarView,
    buffers: Seq<Seq<D::V>>,
    target: Seq<D::V>,
    n: nat,
)
    requires
        vars.len() == shape.len(),
        distinct(vars),
        extents_fit(shape),
        numel(shape) <= i64::MAX,
        row_major(vars, shape) == Ok::<AffineView, LowerErrorView>(flat),
        out.0 < buffers.len(),
        buffers[out.0 as int].len() == numel(shape),
        target.len() == numel(shape),
        n <= numel(shape),
        forall|b: Seq<Seq<D::V>>, n: nat|
            agree_except(b, buffers, out.0 as int) && n < numel(shape)
                ==> #[trigger] scalar_value::<D>(
                value,
                LoopState { buffers: b, env: bind_all(Map::empty(), vars, unravel(n, shape)) },
            ) == Ok::<D::V, LoopErrorView>(target[n as int]),
    ensures
        run_flat::<D>(assign(out, flat, value), vars, shape, Map::empty(), n, buffers) == Ok::<
            Seq<Seq<D::V>>,
            LoopErrorView,
        >(filled_upto(buffers, out.0 as int, target, n)),
    decreases n,
{
    let o = out.0 as int;
    if n == 0 {
        assert(filled_upto(buffers, o, target, 0) =~= buffers) by {
            assert(Seq::new(
                target.len(),
                |i: int| if i < 0 { target[i] } else { buffers[o][i] },
            ) =~= buffers[o]);
        }
    } else {
        let m = (n - 1) as nat;
        lemma_fill_flat::<D>(vars, shape, out, flat, value, buffers, target, m);
        let b = filled_upto(buffers, o, target, m);
        let env = bind_all(Map::empty(), vars, unravel(m, shape));
        let st = LoopState { buffers: b, env };
        assert(agree_except(b, buffers, o));
        assert(scalar_value::<D>(value, st) == Ok::<D::V, LoopErrorView>(target[m as int]));
        unravel_then_ravel(m, shape);
        lemma_bind_all(Map::empty(), vars, unravel(m, shape));
        lemma_row_major_value(vars, shape, unravel(m, shape), env, flat);
        assert(b.update(o, b[o].update(m as int, target[m as int])) =~= filled_upto(
            buffers,
            o,
            target,
            n,
        )) by {
            assert(b[o].update(m as int, target[m as int]) =~= filled_upto(
                buffers,
                o,
                target,
                n,
            )[o]);
        }
    }
}

/// The exact sum of the first `n` terms.
pub open spec fn exact_sum(terms: Seq<(LoopVar, i64)>, env: Map<u32, i64>, n: nat) -> int
    decreases n,
{
    if n == 0 {
        0
    } else {
        exact_sum(terms, env, (n - 1) as nat) + terms[n - 1].1 * var_value(env, terms[n - 1].0)
    }
}

/// No term is negative.
pub open spec fn nonnegative(terms: Seq<(LoopVar, i64)>, env: Map<u32, i64>) -> bool {
    forall|i: int|
        0 <= i < terms.len() ==> (#[trigger] terms[i]).1 >= 0 && var_value(env, terms[i].0) >= 0
}

/// Partial sums of nonnegative terms only grow.
proof fn lemma_sum_grows(terms: Seq<(LoopVar, i64)>, env: Map<u32, i64>, m: nat, n: nat)
    requires
        nonnegative(terms, env),
        m <= n <= terms.len(),
    ensures
        0 <= exact_sum(terms, env, m) <= exact_sum(terms, env, n),
    decreases n,
{
    if n > 0 {
        let c = terms[n - 1].1 as int;
        let x = var_value(env, terms[n - 1].0) as int;
        assert(c * x >= 0) by (nonlinear_arith)
            requires
                c >= 0,
                x >= 0,
        ;
        if m < n {
            lemma_sum_grows(terms, env, m, (n - 1) as nat);
        } else {
            lemma_sum_grows(terms, env, (m - 1) as nat, (n - 1) as nat);
        }
    }
}

/// Saturation does not show where the exact sum of nonnegative terms fits.
pub proof fn lemma_unsaturated(terms: Seq<(LoopVar, i64)>, env: Map<u32, i64>, n: nat)
    requires
        nonnegative(terms, env),
        n <= terms.len(),
        exact_sum(terms, env, terms.len()) <= i64::MAX,
    ensures
        terms_value(linear(terms), env, n) == exact_sum(terms, env, n),
    decreases n,
{
    if n > 0 {
        let m = (n - 1) as nat;
        lemma_unsaturated(terms, env, m);
        lemma_sum_grows(terms, env, m, n);
        lemma_sum_grows(terms, env, n, terms.len());
        let c = terms[n - 1].1 as int;
        let x = var_value(env, terms[n - 1].0) as int;
        assert(c * x >= 0) by (nonlinear_arith)
            requires
                c >= 0,
                x >= 0,
        ;
    }
}

/// One term in front.
proof fn lemma_sum_front(
    head: (LoopVar, i64),
    terms: Seq<(LoopVar, i64)>,
    env: Map<u32, i64>,
    n: nat,
)
    requires
        n <= terms.len(),
    ensures
        exact_sum(seq![head] + terms, env, n + 1) == head.1 * var_value(env, head.0) + exact_sum(
            terms,
            env,
            n,
        ),
    decreases n,
{
    let all = seq![head] + terms;
    if n == 0 {
        assert(all[0] == head);
        assert(exact_sum(all, env, 0) == 0);
    } else {
        lemma_sum_front(head, terms, env, (n - 1) as nat);
        assert(all[n as int] == terms[n - 1]);
    }
}

/// The element count from the outermost extent.
pub proof fn lemma_numel_front(shape: Seq<nat>)
    requires
        shape.len() > 0,
    ensures
        numel(shape) == shape[0] * numel(shape.drop_first()),
    decreases shape.len(),
{
    if shape.len() == 1 {
        assert(shape.drop_last() =~= Seq::<nat>::empty());
        assert(shape.drop_first() =~= Seq::<nat>::empty());
        assert(numel(Seq::<nat>::empty()) == 1);
        assert(numel(shape) == numel(shape.drop_last()) * shape.last());
        assert(shape.last() == shape[0]);
        assert(1 * shape[0] == shape[0] * 1);
    } else {
        lemma_numel_front(shape.drop_last());
        assert(numel(shape) == numel(shape.drop_last()) * shape.last());
        assert(shape.drop_first().last() == shape.last());
        assert(numel(shape.drop_first()) == numel(shape.drop_first().drop_last()) * shape.last());
        assert(shape.drop_last().drop_first() =~= shape.drop_first().drop_last());
        let a = shape[0];
        let b = numel(shape.drop_first().drop_last());
        let c = shape.last();
        assert((a * b) * c == a * (b * c)) by (nonlinear_arith);
    }
}

/// The place of a multi-index from the outermost coordinate.
pub proof fn lemma_ravel_front(index: Seq<nat>, shape: Seq<nat>)
    requires
        shape.len() > 0,
        index.len() == shape.len(),
    ensures
        ravel(index, shape) == index[0] * numel(shape.drop_first()) + ravel(
            index.drop_first(),
            shape.drop_first(),
        ),
    decreases shape.len(),
{
    if shape.len() == 1 {
        assert(shape.drop_last() =~= Seq::<nat>::empty());
        assert(shape.drop_first() =~= Seq::<nat>::empty());
        assert(numel(Seq::<nat>::empty()) == 1);
        assert(ravel(index.drop_last(), Seq::<nat>::empty()) == 0);
        assert(ravel(index.drop_first(), Seq::<nat>::empty()) == 0);
        assert(index.last() == index[0]);
        assert(ravel(index, shape) == 0 * shape.last() + index[0]);
        assert(index[0] * 1 == index[0]);
    } else {
        lemma_ravel_front(index.drop_last(), shape.drop_last());
        assert(shape.drop_last().drop_first() =~= shape.drop_first().drop_last());
        assert(index.drop_last().drop_first() =~= index.drop_first().drop_last());
        let a = index[0];
        let b = numel(shape.drop_first().drop_last());
        let r = ravel(index.drop_first().drop_last(), shape.drop_first().drop_last());
        let c = shape.last();
        assert((a * b + r) * c == a * (b * c) + r * c) by (nonlinear_arith);
    }
}

/// The coordinates that the variables stand for.
pub open spec fn coordinates(
    vars: Seq<Option<LoopVar>>,
    index: Seq<nat>,
    env: Map<u32, i64>,
) -> bool {
    &&& vars.len() == index.len()
    &&& forall|k: int|
        0 <= k < vars.len() ==> match #[trigger] vars[k] {
            Some(v) => var_value(env, v) == index[k],
            None => index[k] == 0,
        }
}

/// The strided terms sum to the row-major place.
proof fn lemma_strided_sum(
    vars: Seq<Option<LoopVar>>,
    shape: Seq<nat>,
    overflow: Seq<char>,
    index: Seq<nat>,
    env: Map<u32, i64>,
)
    requires
        vars.len() == shape.len(),
        coordinates(vars, index, env),
        strided(vars, shape, overflow) is Ok,
    ensures
        strided(vars, shape, overflow)->Ok_0.1 == numel(shape),
        ({
            let terms = strided(vars, shape, overflow)->Ok_0.0;
            exact_sum(terms, env, terms.len()) == ravel(index, shape) && nonnegative(terms, env)
        }),
    decreases shape.len(),
{
    if shape.len() > 0 {
        let vs = vars.drop_first();
        let es = shape.drop_first();
        let ix = index.drop_first();
        assert(coordinates(vs, ix, env)) by {
            assert forall|k: int| 0 <= k < vs.len() implies match #[trigger] vs[k] {
                Some(v) => var_value(env, v) == ix[k],
                None => ix[k] == 0,
            } by {
                assert(vs[k] == vars[k + 1]);
            }
        }
        lemma_strided_sum(vs, es, overflow, ix, env);
        lemma_numel_front(shape);
        lemma_ravel_front(index, shape);
        let (rest, stride) = strided(vs, es, overflow)->Ok_0;
        let terms = strided(vars, shape, overflow)->Ok_0.0;
        assert(stride * shape[0] == shape[0] * stride) by (nonlinear_arith);
        match vars[0] {
            Some(v) => {
                let head = (v, stride as i64);
                lemma_sum_front(head, rest, env, rest.len());
                assert(terms.len() == rest.len() + 1);
                assert(index[0] * stride == stride * index[0]) by (nonlinear_arith);
                assert forall|i: int| 0 <= i < terms.len() implies (#[trigger] terms[i]).1 >= 0
                    && var_value(env, terms[i].0) >= 0 by {
                    if i > 0 {
                        assert(terms[i] == rest[i - 1]);
                    } else {
                        assert(terms[0] == head);
                    }
                }
            },
            None => {
                assert(index[0] * numel(es) == 0) by (nonlinear_arith)
                    requires
                        index[0] == 0,
                ;
            },
        }
    }
}

/// A strided index evaluates to the row-major place.
pub proof fn lemma_strided_value(
    vars: Seq<Option<LoopVar>>,
    shape: Seq<nat>,
    overflow: Seq<char>,
    index: Seq<nat>,
    env: Map<u32, i64>,
)
    requires
        vars.len() == shape.len(),
        coordinates(vars, index, env),
        strided(vars, shape, overflow) is Ok,
        ravel(index, shape) <= i64::MAX,
    ensures
        linear(strided(vars, shape, overflow)->Ok_0.0).value(env) == ravel(index, shape),
{
    let terms = strided(vars, shape, overflow)->Ok_0.0;
    lemma_strided_sum(vars, shape, overflow, index, env);
    lemma_unsaturated(terms, env, terms.len());
}

/// A row-major index evaluates to the row-major place.
pub proof fn lemma_row_major_value(
    vars: Seq<LoopVar>,
    shape: Seq<nat>,
    index: Seq<nat>,
    env: Map<u32, i64>,
    flat: AffineView,
)
    requires
        vars.len() == shape.len(),
        in_range(index, shape),
        extents_fit(shape),
        numel(shape) <= i64::MAX,
        row_major(vars, shape) == Ok::<AffineView, LowerErrorView>(flat),
        forall|k: int|
            0 <= k < vars.len() ==> env.dom().contains((#[trigger] vars[k]).0) && env[vars[k].0]
                == index[k] as i64,
    ensures
        flat.value(env) == ravel(index, shape),
        ravel(index, shape) < numel(shape),
{
    let some = all_some(vars);
    ravel_then_unravel(index, shape);
    assert(coordinates(some, index, env)) by {
        assert forall|k: int| 0 <= k < some.len() implies match #[trigger] some[k] {
            Some(v) => var_value(env, v) == index[k],
            None => index[k] == 0,
        } by {
            assert(env.dom().contains(vars[k].0));
            assert(index[k] < shape[k]);
            assert(shape[k] <= i64::MAX);
        }
    }
    lemma_strided_value(some, shape, "row-major stride overflow"@, index, env);
}

} // verus!

//! Emitted statements that have a meaning in C whenever the kernel runs.
use vstd::prelude::*;

use crate::affine::{terms_value, var_value, AffineView, LoopVar};
use crate::c_expressions::{indices_fit, lemma_place, lemma_scalar_value, negates_literals};
use crate::c_laws::{
    c_stmt, c_stmts, lemma_read_block, lemma_run_stmts, plain_stmt, plain_stmts,
};
use crate::c_numbers::{c_terms, kept_terms, lemma_affine_value, long_fits, weight};
use crate::c_reader::{
    run_c, run_c_block, run_c_from, statements_in, sum_of, term_value, total_size,
};
use crate::domain::Domain;
use crate::emit_c::stmts_c;
use crate::interp_loops::{
    bind, lemma_stmts_sizes, run_stmt, run_stmts, same_sizes, scalar_value, LoopErrorView,
    LoopState,
};
use crate::loop_ir::{ScalarView, StmtView};
use crate::loop_laws::{a_loop_is_its_iterations, count_up, run_each};

verus! {

/// No coefficient is negative, and every variable that counts is in scope.
pub open spec fn closed_affine(e: AffineView, scope: Set<u32>) -> bool {
    &&& e.constant >= 0
    &&& forall|i: int|
        0 <= i < e.terms.len() ==> (#[trigger] e.terms[i]).1 >= 0 && (e.terms[i].1 != 0
            ==> scope.contains(e.terms[i].0.0))
}

/// The indices of the expression are closed.
pub open spec fn closed_scalar(e: ScalarView, scope: Set<u32>) -> bool
    decreases e,
{
    match e {
        ScalarView::Load(r) => closed_affine(r.index, scope),
        ScalarView::ConstScalar { numer, denom } => true,
        ScalarView::Add(l, r) => closed_scalar(*l, scope) && closed_scalar(*r, scope),
        ScalarView::Sub(l, r) => closed_scalar(*l, scope) && closed_scalar(*r, scope),
        ScalarView::Mul(l, r) => closed_scalar(*l, scope) && closed_scalar(*r, scope),
        ScalarView::Neg(x) => closed_scalar(*x, scope),
        ScalarView::Relu(x) => closed_scalar(*x, scope),
    }
}

/// The bounds of loops are numbers that are not negative, and indices are closed.
pub open spec fn closed_stmt(s: StmtView, scope: Set<u32>) -> bool
    decreases s, 0nat,
{
    match s {
        StmtView::Assign { target, value } => closed_affine(target.index, scope) && closed_scalar(
            value,
            scope,
        ),
        StmtView::For { var, lo, hi, body } => {
            &&& lo.terms.len() == 0 && lo.constant >= 0
            &&& hi.terms.len() == 0 && hi.constant >= 0
            &&& closed_stmts(body, scope.insert(var.0))
        },
    }
}

/// Every statement is closed.
pub open spec fn closed_stmts(body: Seq<StmtView>, scope: Set<u32>) -> bool
    decreases body, body.len(),
{
    body.len() == 0 || (closed_stmts(body.drop_last(), scope) && closed_stmt(body.last(), scope))
}

/// No variable is negative.
pub open spec fn counting(env: Map<u32, i64>) -> bool {
    forall|v: u32| env.dom().contains(v) ==> #[trigger] env[v] >= 0
}

/// Every buffer can be indexed by a `long`.
pub open spec fn indexable<V>(buffers: Seq<Seq<V>>) -> bool {
    forall|b: int| 0 <= b < buffers.len() ==> (#[trigger] buffers[b]).len() <= i64::MAX
}

/// A sum without negative terms that comes out below the largest number did not saturate.
proof fn lemma_unsaturated_weight(e: AffineView, env: Map<u32, i64>, n: nat)
    requires
        n <= e.terms.len(),
        closed_affine(e, env.dom()),
        counting(env),
    ensures
        terms_value(e, env, n) >= 0,
        terms_value(e, env, n) < i64::MAX ==> terms_value(e, env, n) == e.constant + weight(
            e.terms,
            env,
            n,
        ),
    decreases n,
{
    if n > 0 {
        lemma_unsaturated_weight(e, env, (n - 1) as nat);
        let (var, coeff) = e.terms[n - 1];
        assert(e.terms[n - 1].1 >= 0);
        let x = var_value(env, var) as int;
        assert(x >= 0) by {
            if env.dom().contains(var.0) {
                assert(env[var.0] >= 0);
            }
        }
        assert(coeff * x >= 0) by (nonlinear_arith)
            requires
                coeff >= 0,
                x >= 0,
        ;
    }
}

/// A closed index that comes out below the largest number fits.
proof fn lemma_closed_fits(e: AffineView, env: Map<u32, i64>)
    requires
        closed_affine(e, env.dom()),
        counting(env),
        e.value(env) < i64::MAX,
    ensures
        long_fits(e, env),
{
    lemma_unsaturated_weight(e, env, e.terms.len());
}

/// The indices of a closed expression that has a value fit.
proof fn lemma_scalar_fits<D: Domain>(e: ScalarView, st: LoopState<D::V>)
    requires
        closed_scalar(e, st.env.dom()),
        counting(st.env),
        indexable(st.buffers),
        scalar_value::<D>(e, st) is Ok,
    ensures
        indices_fit(e, st.env),
    decreases e,
{
    match e {
        ScalarView::Load(r) => {
            assert(st.buffers[r.buffer.0 as int].len() <= i64::MAX);
            lemma_closed_fits(r.index, st.env);
        },
        ScalarView::ConstScalar { numer, denom } => {},
        ScalarView::Add(l, r) => {
            lemma_scalar_fits::<D>(*l, st);
            lemma_scalar_fits::<D>(*r, st);
        },
        ScalarView::Sub(l, r) => {
            lemma_scalar_fits::<D>(*l, st);
            lemma_scalar_fits::<D>(*r, st);
        },
        ScalarView::Mul(l, r) => {
            lemma_scalar_fits::<D>(*l, st);
            lemma_scalar_fits::<D>(*r, st);
        },
        ScalarView::Neg(x) => {
            lemma_scalar_fits::<D>(*x, st);
        },
        ScalarView::Relu(x) => {
            lemma_scalar_fits::<D>(*x, st);
        },
    }
}

/// A number that is not negative has its value in C.
proof fn lemma_number_value(e: AffineView, env: Map<u32, i64>)
    requires
        e.terms.len() == 0,
        e.constant >= 0,
    ensures
        sum_of(c_terms(e), env) == Some(e.constant as int),
        e.value(env) == e.constant,
{
    let terms = c_terms(e);
    assert(kept_terms(e.terms, 0).len() == 0);
    assert(terms.len() == 1);
    assert(terms.drop_last() =~= kept_terms(e.terms, 0));
    assert(total_size(terms.drop_last(), env) == 0);
    assert(term_value(terms[0], env) == Some(e.constant as int));
    lemma_affine_value(e, env);
}

proof fn lemma_stmt_defined<D: Domain>(s: StmtView, st: LoopState<D::V>)
    requires
        plain_stmt(s, st.env.dom()),
        closed_stmt(s, st.env.dom()),
        negates_literals::<D>(),
        counting(st.env),
        indexable(st.buffers),
        run_stmt::<D>(s, st) is Ok,
    ensures
        run_c::<D>(c_stmt(s), st.env, st.buffers) is Some,
    decreases s, 0nat, 0int,
{
    match s {
        StmtView::Assign { target, value } => {
            lemma_scalar_fits::<D>(value, st);
            lemma_scalar_value::<D>(value, st);
            assert(st.buffers[target.buffer.0 as int].len() <= i64::MAX);
            lemma_closed_fits(target.index, st.env);
            lemma_place(target, st);
        },
        StmtView::For { var, lo, hi, body } => {
            lemma_number_value(lo, st.env);
            lemma_number_value(hi, st.env);
            assert(st.env.remove(var.0) =~= st.env);
            a_loop_is_its_iterations::<D>(var, lo, hi, body, st);
            lemma_from_defined::<D>(var, hi, body, lo.constant, st.env, st);
        },
    }
}

proof fn lemma_from_defined<D: Domain>(
    var: LoopVar,
    hi: AffineView,
    body: Seq<StmtView>,
    at: i64,
    env: Map<u32, i64>,
    st: LoopState<D::V>,
)
    requires
        !env.dom().contains(var.0),
        hi.terms.len() == 0 && hi.constant >= 0,
        plain_stmts(body, env.dom().insert(var.0)),
        closed_stmts(body, env.dom().insert(var.0)),
        negates_literals::<D>(),
        counting(env),
        at >= 0,
        indexable(st.buffers),
        st.env.remove(var.0) == env,
        run_each::<D>(var, body, count_up(at, hi.constant), st) is Ok,
    ensures
        run_c_from::<D>(
            var.0,
            c_terms(hi),
            c_stmts(body),
            at as int,
            env,
            st.buffers,
        ) is Some,
    decreases body, 1nat, hi.constant - at,
{
    let end = hi.constant;
    let inner = env.insert(var.0, at);
    lemma_number_value(hi, inner);
    if at < end {
        let now = bind(st, var, at);
        assert(now.env =~= inner);
        assert(inner.dom() =~= env.dom().insert(var.0));
        let values = count_up(at, end);
        assert(values[0] == at);
        assert(values.skip(1) =~= count_up((at + 1) as i64, end));
        let next = run_stmts::<D>(body, now)->Ok_0;
        lemma_stmts_defined::<D>(body, now);
        lemma_run_stmts::<D>(body, now);
        lemma_stmts_sizes::<D>(body, now);
        lemma_still_indexable(next.buffers, st.buffers);
        assert(next.env.remove(var.0) =~= env);
        lemma_from_defined::<D>(var, hi, body, (at + 1) as i64, env, next);
    }
}

proof fn lemma_still_indexable<V>(after: Seq<Seq<V>>, before: Seq<Seq<V>>)
    requires
        same_sizes(after, before),
        indexable(before),
    ensures
        indexable(after),
{
    assert forall|b: int| 0 <= b < after.len() implies (#[trigger] after[b]).len() <= i64::MAX by {
        assert(before[b].len() <= i64::MAX);
    }
}

proof fn lemma_stmts_defined<D: Domain>(body: Seq<StmtView>, st: LoopState<D::V>)
    requires
        plain_stmts(body, st.env.dom()),
        closed_stmts(body, st.env.dom()),
        negates_literals::<D>(),
        counting(st.env),
        indexable(st.buffers),
        run_stmts::<D>(body, st) is Ok,
    ensures
        run_c_block::<D>(c_stmts(body), st.env, st.buffers) is Some,
    decreases body, 0nat, body.len() as int,
{
    if body.len() > 0 {
        let rest = body.drop_last();
        lemma_stmts_defined::<D>(rest, st);
        lemma_run_stmts::<D>(rest, st);
        assert(c_stmts(body).drop_last() =~= c_stmts(rest));
        let before = run_stmts::<D>(rest, st)->Ok_0;
        lemma_stmts_sizes::<D>(rest, st);
        lemma_still_indexable(before.buffers, st.buffers);
        lemma_stmt_defined::<D>(body.last(), before);
    }
}

/// Closed statements that run to their end in a state of indexable buffers have a meaning in C, and
/// leave the same buffers there.
pub proof fn emitted_statements_run_to_the_same_buffers<D: Domain>(
    body: Seq<StmtView>,
    level: nat,
    st: LoopState<D::V>,
)
    requires
        plain_stmts(body, st.env.dom()),
        closed_stmts(body, st.env.dom()),
        negates_literals::<D>(),
        counting(st.env),
        indexable(st.buffers),
        run_stmts::<D>(body, st) is Ok,
    ensures
        stmts_c(body, level) is Ok,
        statements_in(stmts_c(body, level)->Ok_0) is Some,
        run_c_block::<D>(
            statements_in(stmts_c(body, level)->Ok_0)->Some_0,
            st.env,
            st.buffers,
        ) == Some(
            Ok::<Seq<Seq<D::V>>, LoopErrorView>(run_stmts::<D>(body, st)->Ok_0.buffers),
        ),
{
    let none = Seq::<char>::empty();
    lemma_read_block(body, level, st.env.dom(), none);
    assert(stmts_c(body, level)->Ok_0 + none =~= stmts_c(body, level)->Ok_0);
    lemma_stmts_defined::<D>(body, st);
    lemma_run_stmts::<D>(body, st);
}

} // verus!

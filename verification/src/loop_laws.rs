//! What loops and assignments do to the buffers.
use vstd::prelude::*;

use crate::affine::{AffineView, LoopVar};
use crate::domain::Domain;
use crate::interp_loops::{
    bind, run_for, run_stmt, run_stmts, scalar_value, LoopErrorView, LoopState,
};
use crate::loop_ir::{RefView, ScalarView, StmtView};

verus! {

/// The affine expression of a number.
pub open spec fn number(v: i64) -> AffineView {
    AffineView { terms: Seq::empty(), constant: v }
}

/// The state with a variable out of scope.
pub open spec fn unbind<V>(st: LoopState<V>, var: LoopVar) -> LoopState<V> {
    LoopState { buffers: st.buffers, env: st.env.remove(var.0) }
}

/// The state after running statements once for each of the values, in order, with the variable
/// bound to it.
pub open spec fn run_each<D: Domain>(
    var: LoopVar,
    body: Seq<StmtView>,
    values: Seq<i64>,
    st: LoopState<D::V>,
) -> Result<LoopState<D::V>, LoopErrorView>
    decreases values.len(),
{
    if values.len() == 0 {
        Ok(st)
    } else {
        match run_stmts::<D>(body, bind(st, var, values[0])) {
            Err(e) => Err(e),
            Ok(next) => run_each::<D>(var, body, values.skip(1), next),
        }
    }
}

/// The numbers from `lo` up to `hi`, without `hi`.
pub open spec fn count_up(lo: i64, hi: i64) -> Seq<i64> {
    if lo < hi {
        Seq::new((hi - lo) as nat, |k: int| (lo + k) as i64)
    } else {
        Seq::empty()
    }
}

/// Running the body on values and then on more values is running it on all of them.
pub proof fn lemma_run_each_split<D: Domain>(
    var: LoopVar,
    body: Seq<StmtView>,
    first: Seq<i64>,
    second: Seq<i64>,
    st: LoopState<D::V>,
)
    ensures
        run_each::<D>(var, body, first + second, st) == match run_each::<D>(var, body, first, st) {
            Err(e) => Err(e),
            Ok(middle) => run_each::<D>(var, body, second, middle),
        },
    decreases first.len(),
{
    if first.len() == 0 {
        assert(first + second =~= second);
    } else {
        assert((first + second)[0] == first[0]);
        assert((first + second).skip(1) =~= first.skip(1) + second);
        match run_stmts::<D>(body, bind(st, var, first[0])) {
            Err(e) => {},
            Ok(next) => {
                lemma_run_each_split::<D>(var, body, first.skip(1), second, next);
            },
        }
    }
}

proof fn lemma_for_runs_each<D: Domain>(
    var: LoopVar,
    body: Seq<StmtView>,
    lo: i64,
    hi: i64,
    st: LoopState<D::V>,
)
    ensures
        run_for::<D>(var, body, lo as int, hi as int, st) == run_each::<D>(
            var,
            body,
            count_up(lo, hi),
            st,
        ),
    decreases hi - lo,
{
    if lo < hi {
        let before = (hi - 1) as i64;
        lemma_for_runs_each::<D>(var, body, lo, before, st);
        let last = seq![before];
        assert(count_up(lo, hi) =~= count_up(lo, before) + last);
        lemma_run_each_split::<D>(var, body, count_up(lo, before), last, st);
        match run_each::<D>(var, body, count_up(lo, before), st) {
            Err(e) => {},
            Ok(middle) => {
                let after = run_stmts::<D>(body, bind(middle, var, before));
                assert(last.skip(1) =~= Seq::<i64>::empty());
                if after is Ok {
                    assert(run_each::<D>(var, body, last.skip(1), after->Ok_0) == after);
                }
                assert(run_each::<D>(var, body, last, middle) == after);
            },
        }
    }
}

/// A loop is its iterations: the body runs with the variable bound to the value of the lower
/// bound, then to each number after it up to the value of the upper bound, which is left out; then
/// the variable goes out of scope. The bounds are taken once, before the loop.
pub proof fn a_loop_is_its_iterations<D: Domain>(
    var: LoopVar,
    lo: AffineView,
    hi: AffineView,
    body: Seq<StmtView>,
    st: LoopState<D::V>,
)
    ensures
        run_stmt::<D>(StmtView::For { var, lo, hi, body }, st) == match run_each::<D>(
            var,
            body,
            count_up(lo.value(st.env), hi.value(st.env)),
            st,
        ) {
            Err(e) => Err(e),
            Ok(after) => Ok(unbind(after, var)),
        },
{
    lemma_for_runs_each::<D>(var, body, lo.value(st.env), hi.value(st.env), st);
}

/// A loop whose lower bound is not below its upper bound changes no buffer.
pub proof fn an_empty_loop_changes_nothing<D: Domain>(
    var: LoopVar,
    lo: AffineView,
    hi: AffineView,
    body: Seq<StmtView>,
    st: LoopState<D::V>,
)
    requires
        lo.value(st.env) >= hi.value(st.env),
    ensures
        run_stmt::<D>(StmtView::For { var, lo, hi, body }, st) == Ok::<
            LoopState<D::V>,
            LoopErrorView,
        >(unbind(st, var)),
{
}

/// The first iteration of a loop can be taken out: the body runs with the variable bound to the
/// value of the lower bound, and the loop goes on from the next number.
pub proof fn the_first_iteration_peels_off<D: Domain>(
    var: LoopVar,
    lo: AffineView,
    hi: AffineView,
    body: Seq<StmtView>,
    st: LoopState<D::V>,
)
    requires
        lo.value(st.env) < hi.value(st.env),
    ensures
        run_stmt::<D>(StmtView::For { var, lo, hi, body }, st) == match run_stmts::<D>(
            body,
            bind(st, var, lo.value(st.env)),
        ) {
            Err(e) => Err(e),
            Ok(next) => run_stmt::<D>(
                StmtView::For {
                    var,
                    lo: number((lo.value(st.env) + 1) as i64),
                    hi: number(hi.value(st.env)),
                    body,
                },
                next,
            ),
        },
{
    let (a, b) = (lo.value(st.env), hi.value(st.env));
    let rest = count_up((a + 1) as i64, b);
    a_loop_is_its_iterations::<D>(var, lo, hi, body, st);
    assert(count_up(a, b)[0] == a);
    assert(count_up(a, b).skip(1) =~= rest);
    match run_stmts::<D>(body, bind(st, var, a)) {
        Err(e) => {},
        Ok(next) => {
            a_loop_is_its_iterations::<D>(var, number((a + 1) as i64), number(b), body, next);
            assert(number((a + 1) as i64).value(next.env) == a + 1);
            assert(number(b).value(next.env) == b);
        },
    }
}

/// A loop over one number is its body, once.
pub proof fn a_loop_over_one_number_is_its_body<D: Domain>(
    var: LoopVar,
    lo: AffineView,
    hi: AffineView,
    body: Seq<StmtView>,
    st: LoopState<D::V>,
)
    requires
        hi.value(st.env) == lo.value(st.env) + 1,
    ensures
        run_stmt::<D>(StmtView::For { var, lo, hi, body }, st) == match run_stmts::<D>(
            body,
            bind(st, var, lo.value(st.env)),
        ) {
            Err(e) => Err(e),
            Ok(after) => Ok(unbind(after, var)),
        },
{
    the_first_iteration_peels_off::<D>(var, lo, hi, body, st);
    match run_stmts::<D>(body, bind(st, var, lo.value(st.env))) {
        Err(e) => {},
        Ok(next) => {
            let from = number((lo.value(st.env) + 1) as i64);
            let to = number(hi.value(st.env));
            assert(from.value(next.env) == to.value(next.env));
            an_empty_loop_changes_nothing::<D>(var, from, to, body, next);
        },
    }
}

/// A loop can be cut at any number between its bounds.
pub proof fn a_loop_can_be_cut<D: Domain>(
    var: LoopVar,
    lo: i64,
    middle: i64,
    hi: i64,
    body: Seq<StmtView>,
    st: LoopState<D::V>,
)
    requires
        lo <= middle <= hi,
    ensures
        run_each::<D>(var, body, count_up(lo, hi), st) == match run_each::<D>(
            var,
            body,
            count_up(lo, middle),
            st,
        ) {
            Err(e) => Err(e),
            Ok(between) => run_each::<D>(var, body, count_up(middle, hi), between),
        },
{
    assert(count_up(lo, hi) =~= count_up(lo, middle) + count_up(middle, hi));
    lemma_run_each_split::<D>(var, body, count_up(lo, middle), count_up(middle, hi), st);
}

/// Statements run in order: the first, then the rest.
pub proof fn statements_run_in_order<D: Domain>(
    first: Seq<StmtView>,
    second: Seq<StmtView>,
    st: LoopState<D::V>,
)
    ensures
        run_stmts::<D>(first + second, st) == match run_stmts::<D>(first, st) {
            Err(e) => Err(e),
            Ok(middle) => run_stmts::<D>(second, middle),
        },
    decreases second.len(),
{
    if second.len() == 0 {
        assert(first + second =~= first);
    } else {
        assert((first + second).drop_last() =~= first + second.drop_last());
        statements_run_in_order::<D>(first, second.drop_last(), st);
    }
}

/// An assignment that succeeds puts the value of its expression, taken before, at the element that
/// its target names, and changes no other element, no other buffer and no variable.
pub proof fn an_assignment_changes_one_element<D: Domain>(
    target: RefView,
    value: ScalarView,
    st: LoopState<D::V>,
    b: int,
    i: int,
)
    requires
        run_stmt::<D>(StmtView::Assign { target, value }, st) is Ok,
        0 <= b < st.buffers.len(),
        0 <= i < st.buffers[b].len(),
    ensures
        ({
            let after = run_stmt::<D>(StmtView::Assign { target, value }, st)->Ok_0;
            &&& after.env == st.env
            &&& after.buffers.len() == st.buffers.len()
            &&& after.buffers[b].len() == st.buffers[b].len()
            &&& after.buffers[b][i] == if b == target.buffer.0 && i == target.index.value(st.env) {
                scalar_value::<D>(value, st)->Ok_0
            } else {
                st.buffers[b][i]
            }
        }),
        scalar_value::<D>(value, st) is Ok,
{
}

/// An assignment fails exactly where its expression fails or its target is outside its buffer.
pub proof fn an_assignment_fails_outside_its_buffer<D: Domain>(
    target: RefView,
    value: ScalarView,
    st: LoopState<D::V>,
)
    ensures
        run_stmt::<D>(StmtView::Assign { target, value }, st) is Ok <==> {
            &&& scalar_value::<D>(value, st) is Ok
            &&& target.buffer.0 < st.buffers.len()
            &&& 0 <= target.index.value(st.env)
            &&& target.index.value(st.env) < st.buffers[target.buffer.0 as int].len()
        },
{
}

/// A load reads the element that it names.
pub proof fn a_load_reads_its_element<D: Domain>(r: RefView, st: LoopState<D::V>)
    requires
        r.buffer.0 < st.buffers.len(),
        0 <= r.index.value(st.env) < st.buffers[r.buffer.0 as int].len(),
    ensures
        scalar_value::<D>(ScalarView::Load(r), st) == Ok::<D::V, LoopErrorView>(
            st.buffers[r.buffer.0 as int][r.index.value(st.env) as int],
        ),
{
}

} // verus!

//! Affine indices into tensors.
use vstd::prelude::*;

use crate::affine::{var_value, LoopVar};
use crate::index::{
    in_range, lemma_prefix_in_range, lemma_reduced_in_range, ravel, ravel_then_unravel,
    reduced_index, unravel, unravel_then_ravel,
};
use crate::infer::{reduced_shape, reduces};
use crate::lower::{
    all_some, lemma_reduced_vars_rank, reduced_vars, row_major, strided, sum_output_index,
};
use crate::lowering::lemma_reduced_coordinates;
use crate::nests::{
    bind_all, coordinates, distinct, lemma_bind_all, lemma_numel_front, lemma_strided_value,
};
use crate::shape::numel;

verus! {

/// An element count that indices can express.
pub open spec fn count_fits(n: nat) -> bool {
    n <= i64::MAX && n <= usize::MAX
}

/// The element counts of the inner axes can all be expressed.
pub open spec fn strides_fit(shape: Seq<nat>) -> bool {
    forall|k: int| 0 <= k <= shape.len() ==> count_fits(numel(#[trigger] shape.skip(k)))
}

/// Each variable has the value of its coordinate.
pub open spec fn binds(vars: Seq<LoopVar>, index: Seq<nat>, env: Map<u32, i64>) -> bool {
    &&& vars.len() == index.len()
    &&& forall|k: int| 0 <= k < vars.len() ==> var_value(env, #[trigger] vars[k]) == index[k]
}

/// The strides of the inner axes fit too.
proof fn lemma_inner_strides(shape: Seq<nat>)
    requires
        shape.len() > 0,
        strides_fit(shape),
    ensures
        strides_fit(shape.drop_first()),
        count_fits(numel(shape)),
{
    let inner = shape.drop_first();
    assert forall|k: int| 0 <= k <= inner.len() implies count_fits(
        numel(#[trigger] inner.skip(k)),
    ) by {
        assert(inner.skip(k) =~= shape.skip(k + 1));
    }
    assert(shape.skip(0) =~= shape);
}

/// Where the strides fit, a strided index exists, and covers the element count.
pub proof fn lemma_strided_exists(
    vars: Seq<Option<LoopVar>>,
    shape: Seq<nat>,
    overflow: Seq<char>,
)
    requires
        vars.len() == shape.len(),
        strides_fit(shape),
    ensures
        strided(vars, shape, overflow) is Ok,
        strided(vars, shape, overflow)->Ok_0.1 == numel(shape),
    decreases shape.len(),
{
    if shape.len() > 0 {
        lemma_inner_strides(shape);
        lemma_strided_exists(vars.drop_first(), shape.drop_first(), overflow);
        lemma_numel_front(shape);
        let inner = shape.drop_first();
        assert(inner.skip(0) =~= inner);
        let a = shape[0];
        let b = numel(inner);
        assert(count_fits(b));
        assert(a * b == b * a) by (nonlinear_arith);
        let stride = strided(vars.drop_first(), inner, overflow)->Ok_0.1;
        assert(stride * shape[0] == numel(shape));
    } else {
        assert(numel(shape) == 1);
    }
}

/// The strides are the element counts of the inner axes.
proof fn lemma_strided_terms(vars: Seq<LoopVar>, shape: Seq<nat>, overflow: Seq<char>)
    requires
        vars.len() == shape.len(),
        strides_fit(shape),
    ensures
        ({
            let terms = strided(all_some(vars), shape, overflow)->Ok_0.0;
            &&& terms.len() == shape.len()
            &&& forall|i: int|
                0 <= i < shape.len() ==> #[trigger] terms[i] == (
                    vars[i],
                    numel(shape.skip(i + 1)) as i64,
                )
        }),
    decreases shape.len(),
{
    lemma_strided_exists(all_some(vars), shape, overflow);
    if shape.len() > 0 {
        let vs = vars.drop_first();
        let es = shape.drop_first();
        lemma_inner_strides(shape);
        lemma_strided_exists(all_some(vs), es, overflow);
        lemma_strided_terms(vs, es, overflow);
        assert(all_some(vars).drop_first() =~= all_some(vs));
        let rest = strided(all_some(vs), es, overflow)->Ok_0.0;
        let terms = strided(all_some(vars), shape, overflow)->Ok_0.0;
        assert(shape.skip(1) =~= es);
        assert forall|i: int| 0 <= i < shape.len() implies #[trigger] terms[i] == (
            vars[i],
            numel(shape.skip(i + 1)) as i64,
        ) by {
            if i > 0 {
                assert(terms[i] == rest[i - 1]);
                assert(es.skip(i) =~= shape.skip(i + 1));
            }
        }
    }
}

/// Where the strides fit, a row-major index exists exactly if there is one variable for each
/// axis. Its terms are the variables in axis order, each with the element count of the axes
/// inside it.
pub proof fn row_major_terms_are_strides(vars: Seq<LoopVar>, shape: Seq<nat>)
    requires
        strides_fit(shape),
    ensures
        row_major(vars, shape) is Ok <==> vars.len() == shape.len(),
        row_major(vars, shape) is Err ==> row_major(vars, shape)->Err_0 is Internal,
        vars.len() == shape.len() ==> {
            let e = row_major(vars, shape)->Ok_0;
            &&& e.constant == 0
            &&& e.terms.len() == shape.len()
            &&& forall|i: int|
                0 <= i < shape.len() ==> #[trigger] e.terms[i] == (
                    vars[i],
                    numel(shape.skip(i + 1)) as i64,
                )
        },
{
    if vars.len() == shape.len() {
        lemma_strided_exists(all_some(vars), shape, "row-major stride overflow"@);
        lemma_strided_terms(vars, shape, "row-major stride overflow"@);
    }
}

/// A row-major index evaluates to the row-major place of the coordinates.
pub proof fn row_major_indices_are_places(
    vars: Seq<LoopVar>,
    shape: Seq<nat>,
    index: Seq<nat>,
    env: Map<u32, i64>,
)
    requires
        strides_fit(shape),
        in_range(index, shape),
        binds(vars, index, env),
    ensures
        row_major(vars, shape) is Ok,
        row_major(vars, shape)->Ok_0.value(env) == ravel(index, shape),
        ravel(index, shape) < numel(shape),
{
    row_major_terms_are_strides(vars, shape);
    ravel_then_unravel(index, shape);
    assert(shape.skip(0) =~= shape);
    let some = all_some(vars);
    assert(coordinates(some, index, env)) by {
        assert forall|k: int| 0 <= k < some.len() implies match #[trigger] some[k] {
            Some(v) => var_value(env, v) == index[k],
            None => index[k] == 0,
        } by {
            assert(var_value(env, vars[k]) == index[k]);
        }
    }
    lemma_strided_value(some, shape, "row-major stride overflow"@, index, env);
}

/// Row-major indices of different coordinates are different.
pub proof fn row_major_indices_are_one_to_one(
    vars: Seq<LoopVar>,
    shape: Seq<nat>,
    a: Seq<nat>,
    env_a: Map<u32, i64>,
    b: Seq<nat>,
    env_b: Map<u32, i64>,
)
    requires
        strides_fit(shape),
        in_range(a, shape),
        in_range(b, shape),
        binds(vars, a, env_a),
        binds(vars, b, env_b),
        row_major(vars, shape)->Ok_0.value(env_a) == row_major(vars, shape)->Ok_0.value(env_b),
    ensures
        a == b,
{
    row_major_indices_are_places(vars, shape, a, env_a);
    row_major_indices_are_places(vars, shape, b, env_b);
    ravel_then_unravel(a, shape);
    ravel_then_unravel(b, shape);
}

/// A coordinate within a shape is below its element count.
proof fn lemma_coordinate_small(index: Seq<nat>, shape: Seq<nat>, k: int)
    requires
        in_range(index, shape),
        0 <= k < shape.len(),
    ensures
        index[k] < numel(shape),
{
    lemma_prefix_in_range(index, shape, k + 1);
    lemma_prefix_in_range(index, shape, k);
    let inner = shape.take(k + 1);
    assert(inner.drop_last() =~= shape.take(k));
    ravel_then_unravel(index.take(k), shape.take(k));
    let a = numel(shape.take(k));
    let b = shape[k];
    assert(numel(inner) == a * b);
    assert(a * b >= b) by (nonlinear_arith)
        requires
            a >= 1,
    ;
    assert(index[k] < shape[k]);
}

/// Every place below the element count is the row-major index of some coordinates.
pub proof fn row_major_indices_reach_every_place(
    vars: Seq<LoopVar>,
    shape: Seq<nat>,
    place: nat,
)
    requires
        strides_fit(shape),
        vars.len() == shape.len(),
        distinct(vars),
        place < numel(shape),
    ensures
        exists|index: Seq<nat>, env: Map<u32, i64>|
            in_range(index, shape) && #[trigger] binds(vars, index, env) && row_major(
                vars,
                shape,
            )->Ok_0.value(env) == place,
{
    let index = unravel(place, shape);
    unravel_then_ravel(place, shape);
    assert(shape.skip(0) =~= shape);
    assert forall|k: int| 0 <= k < index.len() implies #[trigger] index[k] <= i64::MAX by {
        lemma_coordinate_small(index, shape, k);
    }
    let env = bind_all(Map::empty(), vars, index);
    lemma_bind_all(Map::empty(), vars, index);
    assert forall|k: int| 0 <= k < vars.len() implies var_value(env, #[trigger] vars[k])
        == index[k] by {
        assert(index[k] <= i64::MAX);
        assert(env.dom().contains(vars[k].0));
    }
    row_major_indices_are_places(vars, shape, index, env);
    assert(binds(vars, index, env));
}

/// A strided index covers no more than `usize`, and holds only the given variables.
proof fn lemma_strided_holds(vars: Seq<Option<LoopVar>>, shape: Seq<nat>, overflow: Seq<char>)
    requires
        vars.len() == shape.len(),
        strided(vars, shape, overflow) is Ok,
    ensures
        strided(vars, shape, overflow)->Ok_0.1 <= usize::MAX,
        forall|i: int|
            0 <= i < strided(vars, shape, overflow)->Ok_0.0.len() ==> vars.contains(
                Some((#[trigger] strided(vars, shape, overflow)->Ok_0.0[i]).0),
            ),
    decreases shape.len(),
{
    if shape.len() > 0 {
        let vs = vars.drop_first();
        lemma_strided_holds(vs, shape.drop_first(), overflow);
        let rest = strided(vs, shape.drop_first(), overflow)->Ok_0.0;
        let terms = strided(vars, shape, overflow)->Ok_0.0;
        assert forall|i: int| 0 <= i < terms.len() implies vars.contains(
            Some((#[trigger] terms[i]).0),
        ) by {
            if vars[0] is Some && i == 0 {
                assert(vars[0] == Some(terms[0].0));
            } else {
                let j = if vars[0] is Some {
                    i - 1
                } else {
                    i
                };
                assert(terms[i] == rest[j]);
                let k = choose|k: int| 0 <= k < vs.len() && vs[k] == Some(rest[j].0);
                assert(vars[k + 1] == Some(terms[i].0));
            }
        }
    }
}

/// An axis of extent one without a variable changes nothing.
proof fn lemma_unit_axis(
    a: Seq<Option<LoopVar>>,
    b: Seq<nat>,
    vars: Seq<Option<LoopVar>>,
    shape: Seq<nat>,
    overflow: Seq<char>,
)
    requires
        a.len() == b.len(),
        vars.len() == shape.len(),
    ensures
        strided(a + seq![None] + vars, b + seq![1nat] + shape, overflow) == strided(
            a + vars,
            b + shape,
            overflow,
        ),
    decreases a.len(),
{
    let long_v = a + seq![None::<LoopVar>] + vars;
    let long_s = b + seq![1nat] + shape;
    if a.len() == 0 {
        assert(long_v.drop_first() =~= vars);
        assert(long_s.drop_first() =~= shape);
        assert(a + vars =~= vars);
        assert(b + shape =~= shape);
        if strided(vars, shape, overflow) is Ok {
            lemma_strided_holds(vars, shape, overflow);
            let stride = strided(vars, shape, overflow)->Ok_0.1;
            assert(stride * 1 == stride);
        }
    } else {
        lemma_unit_axis(a.drop_first(), b.drop_first(), vars, shape, overflow);
        assert(long_v.drop_first() =~= a.drop_first() + seq![None::<LoopVar>] + vars);
        assert(long_s.drop_first() =~= b.drop_first() + seq![1nat] + shape);
        assert((a + vars).drop_first() =~= a.drop_first() + vars);
        assert((b + shape).drop_first() =~= b.drop_first() + shape);
    }
}

/// Keeping reduced axes changes no strided index, whatever axes stand inside.
proof fn lemma_keepdim(
    vars: Seq<LoopVar>,
    shape: Seq<nat>,
    axes: Seq<usize>,
    inner_vars: Seq<Option<LoopVar>>,
    inner: Seq<nat>,
    overflow: Seq<char>,
)
    requires
        vars.len() == shape.len(),
        inner_vars.len() == inner.len(),
    ensures
        strided(
            reduced_vars(vars, axes, true) + inner_vars,
            reduced_shape(shape, axes, true) + inner,
            overflow,
        ) == strided(
            reduced_vars(vars, axes, false) + inner_vars,
            reduced_shape(shape, axes, false) + inner,
            overflow,
        ),
    decreases vars.len(),
{
    if vars.len() > 0 {
        let vs = vars.drop_last();
        let es = shape.drop_last();
        let kept = reduced_vars(vs, axes, true);
        let left = reduced_vars(vs, axes, false);
        let kept_s = reduced_shape(es, axes, true);
        let left_s = reduced_shape(es, axes, false);
        lemma_reduced_vars_rank(vs, es, axes, false);
        if reduces(axes, vars.len() - 1) {
            let iv = seq![None::<LoopVar>] + inner_vars;
            let is = seq![1nat] + inner;
            lemma_keepdim(vs, es, axes, iv, is, overflow);
            assert(kept.push(None) + inner_vars =~= kept + iv);
            assert(kept_s.push(1) + inner =~= kept_s + is);
            lemma_unit_axis(left, left_s, inner_vars, inner, overflow);
            assert(left + seq![None::<LoopVar>] + inner_vars =~= left + iv);
            assert(left_s + seq![1nat] + inner =~= left_s + is);
        } else {
            let iv = seq![Some(vars.last())] + inner_vars;
            let is = seq![shape.last()] + inner;
            lemma_keepdim(vs, es, axes, iv, is, overflow);
            assert(kept.push(Some(vars.last())) + inner_vars =~= kept + iv);
            assert(left.push(Some(vars.last())) + inner_vars =~= left + iv);
            assert(kept_s.push(shape.last()) + inner =~= kept_s + is);
            assert(left_s.push(shape.last()) + inner =~= left_s + is);
        }
    }
}

/// Whether reduced axes are kept changes nothing in the output index of a sum.
pub proof fn sum_indices_ignore_keepdim(vars: Seq<LoopVar>, shape: Seq<nat>, axes: Seq<usize>)
    requires
        vars.len() == shape.len(),
    ensures
        sum_output_index(vars, shape, reduced_shape(shape, axes, true), axes, true)
            == sum_output_index(vars, shape, reduced_shape(shape, axes, false), axes, false),
{
    let none: Seq<Option<LoopVar>> = Seq::empty();
    let unit: Seq<nat> = Seq::empty();
    lemma_keepdim(vars, shape, axes, none, unit, "sum output stride overflow"@);
    lemma_reduced_vars_rank(vars, shape, axes, true);
    lemma_reduced_vars_rank(vars, shape, axes, false);
    assert(reduced_vars(vars, axes, true) + none =~= reduced_vars(vars, axes, true));
    assert(reduced_vars(vars, axes, false) + none =~= reduced_vars(vars, axes, false));
    assert(reduced_shape(shape, axes, true) + unit =~= reduced_shape(shape, axes, true));
    assert(reduced_shape(shape, axes, false) + unit =~= reduced_shape(shape, axes, false));
}

/// The variables of a reduced tensor are those of the axes that are not reduced.
proof fn lemma_reduced_vars_source(
    vars: Seq<LoopVar>,
    axes: Seq<usize>,
    keepdim: bool,
    v: LoopVar,
)
    requires
        reduced_vars(vars, axes, keepdim).contains(Some(v)),
    ensures
        exists|a: int| 0 <= a < vars.len() && #[trigger] vars[a] == v && !reduces(axes, a),
    decreases vars.len(),
{
    if vars.len() > 0 {
        let all = reduced_vars(vars, axes, keepdim);
        let before = reduced_vars(vars.drop_last(), axes, keepdim);
        let k = choose|k: int| 0 <= k < all.len() && all[k] == Some(v);
        if k < before.len() {
            assert(before[k] == Some(v));
            lemma_reduced_vars_source(vars.drop_last(), axes, keepdim, v);
            let a = choose|a: int|
                0 <= a < vars.drop_last().len() && #[trigger] vars.drop_last()[a] == v && !reduces(
                    axes,
                    a,
                );
            assert(vars[a] == v);
        } else {
            assert(vars[vars.len() - 1] == v);
        }
    }
}

/// The output index of a sum holds no variable of a reduced axis.
pub proof fn sum_indices_hold_no_reduced_variable(
    vars: Seq<LoopVar>,
    input_shape: Seq<nat>,
    shape: Seq<nat>,
    axes: Seq<usize>,
    keepdim: bool,
    axis: int,
    i: int,
)
    requires
        distinct(vars),
        sum_output_index(vars, input_shape, shape, axes, keepdim) is Ok,
        0 <= axis < vars.len(),
        reduces(axes, axis),
        0 <= i < sum_output_index(vars, input_shape, shape, axes, keepdim)->Ok_0.terms.len(),
    ensures
        sum_output_index(vars, input_shape, shape, axes, keepdim)->Ok_0.terms[i].0 != vars[axis],
{
    let rv = reduced_vars(vars, axes, keepdim);
    let text = "sum output stride overflow"@;
    lemma_strided_holds(rv, shape, text);
    let term = strided(rv, shape, text)->Ok_0.0[i];
    assert(rv.contains(Some(term.0)));
    lemma_reduced_vars_source(vars, axes, keepdim, term.0);
    let a = choose|a: int| 0 <= a < vars.len() && #[trigger] vars[a] == term.0 && !reduces(axes, a);
    if a < axis {
        assert(vars[a] != vars[axis]);
    } else if axis < a {
        assert(vars[axis] != vars[a]);
    }
}

/// The output index of a sum evaluates to the place that the element at the coordinates is added
/// to: the row-major place of the coordinates without the reduced ones, or with zeros for them.
pub proof fn sum_indices_are_places(
    vars: Seq<LoopVar>,
    shape: Seq<nat>,
    axes: Seq<usize>,
    keepdim: bool,
    index: Seq<nat>,
    env: Map<u32, i64>,
)
    requires
        in_range(index, shape),
        binds(vars, index, env),
        strides_fit(reduced_shape(shape, axes, keepdim)),
    ensures
        ({
            let small = reduced_shape(shape, axes, keepdim);
            let place = ravel(reduced_index(index, axes, keepdim), small);
            &&& sum_output_index(vars, shape, small, axes, keepdim) is Ok
            &&& sum_output_index(vars, shape, small, axes, keepdim)->Ok_0.value(env) == place
            &&& place < numel(small)
        }),
{
    let small = reduced_shape(shape, axes, keepdim);
    let rv = reduced_vars(vars, axes, keepdim);
    let ri = reduced_index(index, axes, keepdim);
    let text = "sum output stride overflow"@;
    lemma_reduced_vars_rank(vars, shape, axes, keepdim);
    lemma_strided_exists(rv, small, text);
    lemma_reduced_coordinates(vars, index, axes, keepdim, env);
    lemma_reduced_in_range(index, shape, axes, keepdim);
    ravel_then_unravel(ri, small);
    assert(small.skip(0) =~= small);
    lemma_strided_value(rv, small, text, ri, env);
}

} // verus!

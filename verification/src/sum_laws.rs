//! What sums over axes keep.
use vstd::prelude::*;

use crate::domain::{Domain, Exact};
use crate::eval::{sum_at, sum_value, EvalErrorView};
use crate::index::{
    lemma_reduced_in_range, lemma_reduced_rank, lemma_sum_place, ravel, ravel_then_unravel, reduced_index, sum_place,
    unravel, unravel_then_ravel,
};
use crate::infer::{reduced_shape, reduces};
use crate::shape::numel;
use crate::tensor::TensorView;

verus! {

/// Reducing no axes keeps shapes and indices.
proof fn lemma_nothing_reduced(shape: Seq<nat>, keepdim: bool)
    ensures
        reduced_shape(shape, Seq::empty(), keepdim) == shape,
        reduced_index(shape, Seq::empty(), keepdim) == shape,
    decreases shape.len(),
{
    if shape.len() > 0 {
        lemma_nothing_reduced(shape.drop_last(), keepdim);
        assert(shape.drop_last().push(shape.last()) =~= shape);
    } else {
        assert(shape =~= Seq::empty());
    }
}

/// Over no axes, one element is added at each place: its own.
proof fn lemma_sum_at_own<D: Domain>(
    data: Seq<D::V>,
    shape: Seq<nat>,
    keepdim: bool,
    place: nat,
    n: nat,
)
    requires
        n <= data.len(),
        data.len() == numel(shape),
    ensures
        sum_at::<D>(data, shape, Seq::empty(), keepdim, place, n) == (if place < n {
            D::plus_value(D::zero_value(), data[place as int])
        } else {
            D::zero_value()
        }),
    decreases n,
{
    if n > 0 {
        let i = (n - 1) as nat;
        lemma_sum_at_own::<D>(data, shape, keepdim, place, i);
        lemma_nothing_reduced(shape, keepdim);
        lemma_nothing_reduced(unravel(i, shape), keepdim);
        unravel_then_ravel(i, shape);
        assert(sum_place(i, shape, Seq::empty(), keepdim) == i);
    }
}

/// A sum over no axes is the tensor itself, where adding to zero changes nothing.
pub proof fn sums_over_no_axes_are_identities<D: Domain>(x: TensorView<D::V>, keepdim: bool)
    requires
        x.filled(),
        forall|v: D::V| #[trigger] D::plus_value(D::zero_value(), v) == v,
    ensures
        sum_value::<D>(x, Seq::empty(), keepdim) == Ok::<TensorView<D::V>, EvalErrorView>(x),
{
    lemma_nothing_reduced(x.shape, keepdim);
    let sum = sum_value::<D>(x, Seq::empty(), keepdim)->Ok_0;
    assert forall|i: int| 0 <= i < x.data.len() implies sum.data[i] == x.data[i] by {
        lemma_sum_at_own::<D>(x.data, x.shape, keepdim, i as nat, x.data.len());
    }
    assert(sum.data =~= x.data);
}

/// An exact sum over no axes is the tensor itself.
pub proof fn exact_sums_over_no_axes_are_identities(x: TensorView<real>, keepdim: bool)
    requires
        x.filled(),
    ensures
        sum_value::<Exact>(x, Seq::empty(), keepdim) == Ok::<TensorView<real>, EvalErrorView>(x),
{
    sums_over_no_axes_are_identities::<Exact>(x, keepdim);
}

/// The sum of all numbers.
pub open spec fn total(data: Seq<real>) -> real
    decreases data.len(),
{
    if data.len() == 0 {
        0real
    } else {
        total(data.drop_last()) + data.last()
    }
}

/// Adding to one number adds to the total.
proof fn lemma_total_update(data: Seq<real>, i: int, v: real)
    requires
        0 <= i < data.len(),
    ensures
        total(data.update(i, data[i] + v)) == total(data) + v,
    decreases data.len(),
{
    let after = data.update(i, data[i] + v);
    if i == data.len() - 1 {
        assert(after.drop_last() =~= data.drop_last());
    } else {
        lemma_total_update(data.drop_last(), i, v);
        assert(after.drop_last() =~= data.drop_last().update(i, data[i] + v));
    }
}

/// The sums of the first `n` elements at each of the places.
spec fn partial_sums(x: TensorView<real>, axes: Seq<usize>, keepdim: bool, n: nat) -> Seq<real> {
    Seq::new(
        numel(reduced_shape(x.shape, axes, keepdim)),
        |i: int| sum_at::<Exact>(x.data, x.shape, axes, keepdim, i as nat, n),
    )
}

proof fn lemma_zero_total(data: Seq<real>)
    requires
        forall|i: int| 0 <= i < data.len() ==> #[trigger] data[i] == 0real,
    ensures
        total(data) == 0real,
    decreases data.len(),
{
    if data.len() > 0 {
        lemma_zero_total(data.drop_last());
    }
}

proof fn lemma_partial_total(x: TensorView<real>, axes: Seq<usize>, keepdim: bool, n: nat)
    requires
        x.filled(),
        n <= x.data.len(),
    ensures
        total(partial_sums(x, axes, keepdim, n)) == total(x.data.take(n as int)),
    decreases n,
{
    let now = partial_sums(x, axes, keepdim, n);
    if n == 0 {
        lemma_zero_total(now);
        assert(x.data.take(0) =~= Seq::<real>::empty());
    } else {
        let m = (n - 1) as nat;
        lemma_partial_total(x, axes, keepdim, m);
        lemma_sum_place(m, x.shape, axes, keepdim);
        let before = partial_sums(x, axes, keepdim, m);
        let p = sum_place(m, x.shape, axes, keepdim) as int;
        assert(now =~= before.update(p, before[p] + x.data[m as int]));
        lemma_total_update(before, p, x.data[m as int]);
        assert(x.data.take(n as int).drop_last() =~= x.data.take(m as int));
    }
}

/// An exact sum over any axes keeps the total: the results add up to what the elements add up to.
pub proof fn exact_sums_keep_the_total(x: TensorView<real>, axes: Seq<usize>, keepdim: bool)
    requires
        x.filled(),
        sum_value::<Exact>(x, axes, keepdim) is Ok,
    ensures
        total(sum_value::<Exact>(x, axes, keepdim)->Ok_0.data) == total(x.data),
{
    lemma_partial_total(x, axes, keepdim, x.data.len());
    assert(x.data.take(x.data.len() as int) =~= x.data);
    assert(sum_value::<Exact>(x, axes, keepdim)->Ok_0.data =~= partial_sums(
        x,
        axes,
        keepdim,
        x.data.len(),
    ));
}

proof fn lemma_kept_coordinate(index: Seq<nat>, axes: Seq<usize>, k: int)
    requires
        0 <= k < index.len(),
    ensures
        reduced_index(index, axes, true).len() == index.len(),
        reduced_index(index, axes, true)[k] == if reduces(axes, k) {
            0
        } else {
            index[k]
        },
    decreases index.len(),
{
    let before = index.drop_last();
    if before.len() > 0 {
        if k < before.len() {
            lemma_kept_coordinate(before, axes, k);
        } else {
            lemma_kept_coordinate(before, axes, 0);
        }
    } else {
        assert(reduced_index(before, axes, true) =~= Seq::<nat>::empty());
    }
}

/// An element is added where the coordinates on the summed axes are zero and the others are its
/// own.
pub proof fn sums_keep_the_other_coordinates(
    flat: nat,
    shape: Seq<nat>,
    axes: Seq<usize>,
    k: int,
)
    requires
        flat < numel(shape),
        0 <= k < shape.len(),
    ensures
        ({
            let place = sum_place(flat, shape, axes, true);
            let there = unravel(place, reduced_shape(shape, axes, true));
            &&& there.len() == shape.len()
            &&& (exists|i: int| 0 <= i < axes.len() && #[trigger] axes[i] == k) ==> there[k] == 0
            &&& (forall|i: int| 0 <= i < axes.len() ==> #[trigger] axes[i] != k) ==> there[k]
                == unravel(flat, shape)[k]
        }),
{
    let index = unravel(flat, shape);
    unravel_then_ravel(flat, shape);
    lemma_reduced_in_range(index, shape, axes, true);
    ravel_then_unravel(reduced_index(index, axes, true), reduced_shape(shape, axes, true));
    lemma_kept_coordinate(index, axes, k);
}

/// Keeping a summed axis with extent one does not move the elements.
pub proof fn keeping_axes_keeps_the_places(flat: nat, shape: Seq<nat>, axes: Seq<usize>)
    requires
        flat < numel(shape),
    ensures
        sum_place(flat, shape, axes, true) == sum_place(flat, shape, axes, false),
        numel(reduced_shape(shape, axes, true)) == numel(reduced_shape(shape, axes, false)),
{
    unravel_then_ravel(flat, shape);
    lemma_same_place(unravel(flat, shape), shape, axes);
}

proof fn lemma_same_place(index: Seq<nat>, shape: Seq<nat>, axes: Seq<usize>)
    requires
        index.len() == shape.len(),
    ensures
        ravel(reduced_index(index, axes, true), reduced_shape(shape, axes, true)) == ravel(
            reduced_index(index, axes, false),
            reduced_shape(shape, axes, false),
        ),
        numel(reduced_shape(shape, axes, true)) == numel(reduced_shape(shape, axes, false)),
    decreases shape.len(),
{
    if shape.len() == 0 {
        assert(reduced_index(index, axes, true) =~= reduced_index(index, axes, false));
    } else {
        let (i, s) = (index.drop_last(), shape.drop_last());
        lemma_same_place(i, s, axes);
        lemma_reduced_rank(i, s, axes, true);
        lemma_reduced_rank(i, s, axes, false);
        let (ti, ts) = (reduced_index(index, axes, true), reduced_shape(shape, axes, true));
        let (fi, fs) = (reduced_index(index, axes, false), reduced_shape(shape, axes, false));
        assert(ti.drop_last() =~= reduced_index(i, axes, true));
        assert(ts.drop_last() =~= reduced_shape(s, axes, true));
        if !reduces(axes, shape.len() - 1) {
            assert(fi.drop_last() =~= reduced_index(i, axes, false));
            assert(fs.drop_last() =~= reduced_shape(s, axes, false));
            assert(ravel(ti, ts) == ravel(ti.drop_last(), ts.drop_last()) * ts.last() + ti.last());
            assert(ravel(fi, fs) == ravel(fi.drop_last(), fs.drop_last()) * fs.last() + fi.last());
        } else {
            assert(ravel(ti, ts) == ravel(ti.drop_last(), ts.drop_last()) * 1 + 0);
            assert(numel(ts) == numel(ts.drop_last()) * 1);
            assert(fi == reduced_index(i, axes, false));
            assert(fs == reduced_shape(s, axes, false));
        }
    }
}

} // verus!

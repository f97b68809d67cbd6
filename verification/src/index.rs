//! Row-major index arithmetic.
use vstd::arithmetic::div_mod::{lemma_fundamental_div_mod, lemma_fundamental_div_mod_converse};
use vstd::prelude::*;

use crate::infer::{reduced_shape, reduces};
use crate::shape::{numel, Shape};

verus! {

/// Every coordinate is within its extent.
pub open spec fn in_range(index: Seq<nat>, shape: Seq<nat>) -> bool {
    &&& index.len() == shape.len()
    &&& forall|k: int| 0 <= k < index.len() ==> #[trigger] index[k] < shape[k]
}

/// The row-major place of a multi-index.
pub open spec fn ravel(index: Seq<nat>, shape: Seq<nat>) -> nat
    decreases shape.len(),
{
    if shape.len() == 0 {
        0
    } else {
        ravel(index.drop_last(), shape.drop_last()) * shape.last() + index.last()
    }
}

/// The multi-index at a row-major place.
pub open spec fn unravel(flat: nat, shape: Seq<nat>) -> Seq<nat>
    decreases shape.len(),
{
    if shape.len() == 0 {
        Seq::empty()
    } else {
        unravel(flat / shape.last(), shape.drop_last()).push(flat % shape.last())
    }
}

/// The index into the reduced tensor: reduced coordinates are zero where they are kept, left out
/// otherwise.
pub open spec fn reduced_index(index: Seq<nat>, axes: Seq<usize>, keepdim: bool) -> Seq<nat>
    decreases index.len(),
{
    if index.len() == 0 {
        Seq::empty()
    } else {
        let rest = reduced_index(index.drop_last(), axes, keepdim);
        if !reduces(axes, index.len() - 1) {
            rest.push(index.last())
        } else if keepdim {
            rest.push(0)
        } else {
            rest
        }
    }
}

/// The place in the reduced tensor that the element at `flat` is added to.
pub open spec fn sum_place(flat: nat, shape: Seq<nat>, axes: Seq<usize>, keepdim: bool) -> nat {
    ravel(reduced_index(unravel(flat, shape), axes, keepdim), reduced_shape(shape, axes, keepdim))
}

/// A place below the element count has a multi-index within the shape, and comes back from it.
pub proof fn unravel_then_ravel(flat: nat, shape: Seq<nat>)
    requires
        flat < numel(shape),
    ensures
        in_range(unravel(flat, shape), shape),
        ravel(unravel(flat, shape), shape) == flat,
    decreases shape.len(),
{
    if shape.len() > 0 {
        let d = shape.last();
        let rest = shape.drop_last();
        let n = numel(rest);
        assert(d > 0) by (nonlinear_arith)
            requires
                n * d > flat,
        ;
        lemma_fundamental_div_mod(flat as int, d as int);
        let q = flat / d;
        assert(q < n) by (nonlinear_arith)
            requires
                flat < n * d,
                flat == d * q + flat % d,
                flat % d >= 0,
                d > 0,
        ;
        unravel_then_ravel(q, rest);
        let u = unravel(flat, shape);
        assert(u.drop_last() =~= unravel(q, rest));
        assert forall|k: int| 0 <= k < u.len() implies #[trigger] u[k] < shape[k] by {
            if k < u.len() - 1 {
                assert(unravel(q, rest)[k] < rest[k]);
            }
        }
        assert(q * d == d * q) by (nonlinear_arith);
    }
}

/// A multi-index within the shape has a place below the element count, and comes back from it.
pub proof fn ravel_then_unravel(index: Seq<nat>, shape: Seq<nat>)
    requires
        in_range(index, shape),
    ensures
        ravel(index, shape) < numel(shape),
        unravel(ravel(index, shape), shape) == index,
    decreases shape.len(),
{
    if shape.len() > 0 {
        let d = shape.last();
        let rest = shape.drop_last();
        let n = numel(rest);
        assert(in_range(index.drop_last(), rest)) by {
            assert forall|k: int| 0 <= k < index.drop_last().len() implies #[trigger] index.drop_last()[k]
                < rest[k] by {
                assert(index[k] < shape[k]);
            }
        }
        ravel_then_unravel(index.drop_last(), rest);
        let q = ravel(index.drop_last(), rest);
        let r = index.last();
        assert(index[index.len() - 1] < shape[shape.len() - 1]);
        assert(q * d + r < n * d) by (nonlinear_arith)
            requires
                q < n,
                r < d,
        ;
        lemma_fundamental_div_mod_converse((q * d + r) as int, d as int, q as int, r as int);
        assert(unravel(ravel(index, shape), shape) =~= index.drop_last().push(r));
        assert(index.drop_last().push(r) =~= index);
    } else {
        assert(unravel(ravel(index, shape), shape) =~= index);
    }
}

/// One more coordinate.
pub proof fn lemma_unravel_push(flat: nat, shape: Seq<nat>, d: nat, j: nat)
    requires
        j < d,
    ensures
        unravel(flat * d + j, shape.push(d)) == unravel(flat, shape).push(j),
        numel(shape.push(d)) == numel(shape) * d,
{
    lemma_fundamental_div_mod_converse((flat * d + j) as int, d as int, flat as int, j as int);
    assert(shape.push(d).drop_last() =~= shape);
}

/// The rank of a reduced index is the rank of the reduced shape.
pub proof fn lemma_reduced_rank(index: Seq<nat>, shape: Seq<nat>, axes: Seq<usize>, keepdim: bool)
    requires
        index.len() == shape.len(),
    ensures
        reduced_index(index, axes, keepdim).len() == reduced_shape(shape, axes, keepdim).len(),
    decreases shape.len(),
{
    if shape.len() > 0 {
        lemma_reduced_rank(index.drop_last(), shape.drop_last(), axes, keepdim);
    }
}

/// A reduced index is within the reduced shape.
pub proof fn lemma_reduced_in_range(
    index: Seq<nat>,
    shape: Seq<nat>,
    axes: Seq<usize>,
    keepdim: bool,
)
    requires
        in_range(index, shape),
    ensures
        in_range(reduced_index(index, axes, keepdim), reduced_shape(shape, axes, keepdim)),
        numel(reduced_shape(shape, axes, keepdim)) <= numel(shape),
        numel(shape) > 0,
    decreases shape.len(),
{
    if shape.len() > 0 {
        let rest_i = index.drop_last();
        let rest_s = shape.drop_last();
        assert forall|k: int| 0 <= k < rest_i.len() implies #[trigger] rest_i[k] < rest_s[k] by {
            assert(index[k] < shape[k]);
        }
        lemma_reduced_in_range(rest_i, rest_s, axes, keepdim);
        let ri = reduced_index(rest_i, axes, keepdim);
        let rs = reduced_shape(rest_s, axes, keepdim);
        let fi = reduced_index(index, axes, keepdim);
        let fs = reduced_shape(shape, axes, keepdim);
        assert(index[index.len() - 1] < shape[shape.len() - 1]);
        assert forall|k: int| 0 <= k < fi.len() implies #[trigger] fi[k] < fs[k] by {
            if k < ri.len() {
                assert(ri[k] < rs[k]);
            }
        }
        let d = shape.last();
        if !reduces(axes, shape.len() - 1) {
            assert(fs.drop_last() =~= rs);
            assert(fs.last() == d);
            assert(numel(fs) == numel(rs) * d);
            assert(numel(rs) * d <= numel(rest_s) * d) by (nonlinear_arith)
                requires
                    numel(rs) <= numel(rest_s),
            ;
        } else {
            if keepdim {
                assert(fs.drop_last() =~= rs);
                assert(fs.last() == 1);
                assert(numel(fs) == numel(rs) * 1);
            }
            assert(numel(rs) <= numel(rest_s) * d) by (nonlinear_arith)
                requires
                    numel(rs) <= numel(rest_s),
                    d >= 1,
            ;
        }
        assert(numel(rest_s) * d > 0) by (nonlinear_arith)
            requires
                numel(rest_s) > 0,
                d >= 1,
        ;
    }
}

/// Every element is added within the reduced tensor.
pub proof fn lemma_sum_place(flat: nat, shape: Seq<nat>, axes: Seq<usize>, keepdim: bool)
    requires
        flat < numel(shape),
    ensures
        sum_place(flat, shape, axes, keepdim) < numel(reduced_shape(shape, axes, keepdim)),
{
    unravel_then_ravel(flat, shape);
    let index = unravel(flat, shape);
    lemma_reduced_in_range(index, shape, axes, keepdim);
    ravel_then_unravel(
        reduced_index(index, axes, keepdim),
        reduced_shape(shape, axes, keepdim),
    );
}

/// The prefix of an index within a shape is within the prefix of the shape, whose element count is
/// no larger.
pub proof fn lemma_prefix_in_range(index: Seq<nat>, shape: Seq<nat>, n: int)
    requires
        in_range(index, shape),
        0 <= n <= shape.len(),
    ensures
        in_range(index.take(n), shape.take(n)),
        numel(shape.take(n)) <= numel(shape),
    decreases shape.len() - n,
{
    assert forall|k: int| 0 <= k < n implies #[trigger] index.take(n)[k] < shape.take(n)[k] by {
        assert(index[k] < shape[k]);
    }
    if n == shape.len() {
        assert(shape.take(n) =~= shape);
    } else {
        lemma_prefix_in_range(index, shape, n + 1);
        assert(shape.take(n + 1).drop_last() =~= shape.take(n));
        assert(index[n] < shape[n]);
        let a = numel(shape.take(n));
        let d = shape[n];
        assert(a <= a * d) by (nonlinear_arith)
            requires
                d >= 1,
        ;
    }
}

/// Returns the multi-index at a row-major place.
pub(crate) fn flat_to_multi(flat: usize, shape: &Shape) -> (r: Vec<usize>)
    requires
        flat < numel(shape@),
    ensures
        r@.map_values(|x: usize| x as nat) == unravel(flat as nat, shape@),
{
    let rank: usize = shape.rank();
    let mut reversed: Vec<usize> = Vec::new();
    let mut rest: usize = flat;
    let mut axis: usize = rank;
    proof {
        assert(shape@.take(rank as int) =~= shape@);
        assert(unravel(rest as nat, shape@.take(axis as int)) + reversed@.map_values(
            |x: usize| x as nat,
        ).reverse() =~= unravel(flat as nat, shape@));
    }
    while axis > 0
        invariant
            axis <= rank,
            rank == shape@.len(),
            reversed@.len() == rank - axis,
            rest < numel(shape@.take(axis as int)),
            unravel(rest as nat, shape@.take(axis as int)) + reversed@.map_values(
                |x: usize| x as nat,
            ).reverse() == unravel(flat as nat, shape@),
        decreases axis,
    {
        let d: usize = shape.dims[axis - 1].0;
        let ghost before = reversed@;
        proof {
            let s = shape@.take(axis as int);
            assert(s.drop_last() =~= shape@.take(axis - 1));
            assert(s.last() == d);
            unravel_then_ravel(rest as nat, s);
            let n = numel(s.drop_last());
            assert(d > 0) by (nonlinear_arith)
                requires
                    n * d > rest,
            ;
            lemma_fundamental_div_mod(rest as int, d as int);
            let q = rest as int / d as int;
            let m = rest as int % d as int;
            assert(q < n) by (nonlinear_arith)
                requires
                    rest < n * d,
                    rest == d * q + m,
                    m >= 0,
                    d > 0,
            ;
        }
        reversed.push(rest % d);
        proof {
            let f = |x: usize| x as nat;
            let s = shape@.take(axis as int);
            let u = unravel((rest / d) as nat, s.drop_last());
            assert(unravel(rest as nat, s) == u.push((rest % d) as nat));
            assert(reversed@.map_values(f).reverse() =~= seq![(rest % d) as nat]
                + before.map_values(f).reverse());
            assert(u + reversed@.map_values(f).reverse() =~= u.push((rest % d) as nat)
                + before.map_values(f).reverse());
        }
        rest = rest / d;
        axis = axis - 1;
    }
    let mut index: Vec<usize> = Vec::new();
    let mut k: usize = 0;
    while k < rank
        invariant
            k <= rank,
            reversed@.len() == rank,
            index@.len() == k,
            forall|j: int| 0 <= j < k ==> index@[j] == reversed@[rank - 1 - j],
        decreases rank - k,
    {
        index.push(reversed[rank - 1 - k]);
        k += 1;
    }
    proof {
        let f = |x: usize| x as nat;
        assert(shape@.take(0) =~= Seq::empty());
        assert(unravel(rest as nat, shape@.take(0)) =~= Seq::empty());
        assert(index@.map_values(f) =~= Seq::<nat>::empty() + reversed@.map_values(f).reverse());
    }
    index
}

/// Returns the place in the reduced tensor that the element at `flat` is added to.
pub(crate) fn sum_index(flat: usize, shape: &Shape, axes: &Vec<usize>, keepdim: bool) -> (r: usize)
    requires
        flat < numel(shape@),
        numel(shape@) <= usize::MAX,
    ensures
        r == sum_place(flat as nat, shape@, axes@, keepdim),
{
    let index = flat_to_multi(flat, shape);
    let ghost u = unravel(flat as nat, shape@);
    proof {
        unravel_then_ravel(flat as nat, shape@);
    }
    let mut place: usize = 0;
    let mut axis: usize = 0;
    while axis < index.len()
        invariant
            axis <= index@.len(),
            index@.map_values(|x: usize| x as nat) == u,
            in_range(u, shape@),
            numel(shape@) <= usize::MAX,
            place == ravel(
                reduced_index(u.take(axis as int), axes@, keepdim),
                reduced_shape(shape@.take(axis as int), axes@, keepdim),
            ),
        decreases index@.len() - axis,
    {
        proof {
            let a = axis as int;
            let ui = u.take(a + 1);
            let si = shape@.take(a + 1);
            assert(ui.drop_last() =~= u.take(a));
            assert(si.drop_last() =~= shape@.take(a));
            lemma_prefix_in_range(u, shape@, a + 1);
            lemma_reduced_in_range(ui, si, axes@, keepdim);
            let ri = reduced_index(ui, axes@, keepdim);
            let rs = reduced_shape(si, axes@, keepdim);
            ravel_then_unravel(ri, rs);
            lemma_reduced_rank(u.take(a), shape@.take(a), axes@, keepdim);
            let ri0 = reduced_index(u.take(a), axes@, keepdim);
            let rs0 = reduced_shape(shape@.take(a), axes@, keepdim);
            assert(u[a] == index@[a]);
            if !reduces(axes@, a) {
                assert(ri.drop_last() =~= ri0);
                assert(rs.drop_last() =~= rs0);
                assert(rs.last() == shape@[a] && ri.last() == u[a]);
                assert(ravel(ri, rs) == place * shape@[a] + u[a]);
                assert(place * shape@[a] >= 0) by (nonlinear_arith)
                    requires
                        place >= 0,
                        shape@[a] >= 0,
                ;
            } else if keepdim {
                assert(ri.drop_last() =~= ri0);
                assert(rs.drop_last() =~= rs0);
                assert(rs.last() == 1 && ri.last() == 0);
                assert(ravel(ri, rs) == place * 1 + 0);
            }
        }
        if !crate::infer::lists(axes, axis) {
            place = place * shape.dims[axis].0 + index[axis];
        }
        axis += 1;
    }
    proof {
        assert(u.take(axis as int) =~= u);
        assert(shape@.take(axis as int) =~= shape@);
    }
    place
}

} // verus!

//! Random values, shapes and payloads.
use rand::rngs::StdRng;
use vstd::arithmetic::power::pow;
use vstd::prelude::*;

use crate::data::{DataView, TensorData};
use crate::dtype::DType;
use crate::error::IrError;
use crate::float::{encode, encode32, finite32, finite64, negative32, negative64, value32, value64};
use crate::random::{draw_coin, draw_usize, pick_from, Draw};
use crate::rational::two_to;
use crate::shape::{checked_numel, numel, numel_fits, Dim, Shape};

verus! {

/// Configuration for random graph and input generation.
#[derive(Debug)]
pub struct GenConfig {
    /// Numeric dtype used for every generated graph value.
    pub dtype: DType,
    /// Approximate number of operation nodes to add after initial leaves.
    pub size: usize,
    /// Maximum generated dimension extent.
    pub max_dim: usize,
    /// Inclusive absolute bound for generated input and constant values.
    pub value_range: i64,
    /// Base seed used by deterministic test harnesses.
    pub seed: u64,
}

impl Clone for GenConfig {
    fn clone(&self) -> (r: Self)
        ensures
            r == *self,
    {
        GenConfig {
            dtype: self.dtype,
            size: self.size,
            max_dim: self.max_dim,
            value_range: self.value_range,
            seed: self.seed,
        }
    }
}

impl Default for GenConfig {
    fn default() -> (r: Self)
        ensures
            r == (GenConfig {
                dtype: DType::I64,
                size: 8,
                max_dim: 4,
                value_range: 8,
                seed: 0x9e37_79b9_7f4a_7c15,
            }),
    {
        GenConfig {
            dtype: DType::I64,
            size: 8,
            max_dim: 4,
            value_range: 8,
            seed: 0x9e37_79b9_7f4a_7c15,
        }
    }
}

/// The largest extent that is drawn.
pub open spec fn extent_limit(cfg: GenConfig) -> nat {
    if cfg.max_dim < 1 {
        1
    } else {
        cfg.max_dim as nat
    }
}

/// The dtype itself where it is numeric, 64-bit integers otherwise.
pub open spec fn numeric_of(dtype: DType) -> DType {
    if dtype.numeric() {
        dtype
    } else {
        DType::I64
    }
}

/// Returns the dtype itself where it is numeric, 64-bit integers otherwise.
pub fn numeric_dtype(dtype: DType) -> (r: DType)
    ensures
        r == numeric_of(dtype),
{
    if dtype.is_numeric() {
        dtype
    } else {
        DType::I64
    }
}

/// The integer nearest to `v` from `lo` to `hi`.
pub open spec fn clamped(v: int, lo: int, hi: int) -> int {
    if v < lo {
        lo
    } else if v > hi {
        hi
    } else {
        v
    }
}

/// Returns the 16-bit integer nearest to a value.
pub fn clamp_i16(value: i64) -> (r: i16)
    ensures
        r == clamped(value as int, i16::MIN as int, i16::MAX as int),
{
    if value < -32768 {
        i16::MIN
    } else if value > 32767 {
        i16::MAX
    } else {
        value as i16
    }
}

/// Returns the 32-bit integer nearest to a value.
pub fn clamp_i32(value: i64) -> (r: i32)
    ensures
        r == clamped(value as int, i32::MIN as int, i32::MAX as int),
{
    if value < -2147483648 {
        i32::MIN
    } else if value > 2147483647 {
        i32::MAX
    } else {
        value as i32
    }
}

/// Half an integer, as a double of the same sign.
pub open spec fn half_in_double(bits: u64, v: int) -> bool {
    finite64(bits) && value64(bits) == v as real * two_to(-1) && negative64(bits) == (v < 0)
}

/// Half an integer, as a single of the same sign.
pub open spec fn half_in_single(bits: u32, v: int) -> bool {
    finite32(bits) && value32(bits) == v as real * two_to(-1) && negative32(bits) == (v < 0)
}

/// Returns half of a value, which is clamped to 32 bits first.
pub fn half_double(value: i64) -> (r: u64)
    ensures
        half_in_double(r, clamped(value as int, i32::MIN as int, i32::MAX as int)),
{
    let v: i64 = clamp_i32(value) as i64;
    encode(if v < 0 { (-v) as u64 } else { v as u64 }, -1, v < 0)
}

/// Returns half of a value, which is clamped to 16 bits first.
pub fn half_single(value: i64) -> (r: u32)
    ensures
        half_in_single(r, clamped(value as int, i16::MIN as int, i16::MAX as int)),
{
    let v: i32 = clamp_i16(value) as i32;
    encode32(if v < 0 { (-v) as u32 } else { v as u32 }, -1, v < 0)
}

/// The largest magnitude that is drawn for a value range.
pub open spec fn magnitude(value_range: i64) -> int {
    if value_range == i64::MIN {
        i64::MAX as int
    } else if value_range < 0 {
        -value_range
    } else {
        value_range as int
    }
}

/// Returns the largest magnitude that is drawn for a value range.
pub fn largest_value(value_range: i64) -> (r: i64)
    ensures
        r == magnitude(value_range),
{
    if value_range == i64::MIN {
        i64::MAX
    } else if value_range < 0 {
        -value_range
    } else {
        value_range
    }
}

/// A number that a draw from the whole value range gave.
pub open spec fn drawn_integer(v: int, value_range: i64) -> bool {
    exists|d: Draw| #[trigger]
        d.spans(-magnitude(value_range), magnitude(value_range)) && d.number() == v
}

/// Draws an integer of at most the given magnitude. Which one is not stated.
pub fn bounded_i64(value_range: i64, rng: &mut StdRng) -> (r: i64)
    ensures
        -magnitude(value_range) <= r <= magnitude(value_range),
        drawn_integer(r as int, value_range),
{
    let limit: i64 = largest_value(value_range);
    let (number, draw) = pick_from(rng, -limit, limit);
    assert(draw@.spans(-magnitude(value_range), magnitude(value_range)));
    number
}

/// A double that is half of an integer of at most the given magnitude.
pub open spec fn drawn_double(bits: u64, value_range: i64) -> bool {
    exists|v: int|
        drawn_integer(v, value_range) && half_in_double(
            bits,
            #[trigger] clamped(v, i32::MIN as int, i32::MAX as int),
        )
}

/// A single that is half of an integer of at most the given magnitude.
pub open spec fn drawn_single(bits: u32, value_range: i64) -> bool {
    exists|v: int|
        drawn_integer(v, value_range) && half_in_single(
            bits,
            #[trigger] clamped(v, i16::MIN as int, i16::MAX as int),
        )
}

/// Draws a double that is half of a bounded integer.
pub fn bounded_dyadic(value_range: i64, rng: &mut StdRng) -> (r: u64)
    ensures
        drawn_double(r, value_range),
{
    let v: i64 = bounded_i64(value_range, rng);
    half_double(v)
}

/// Draws a single that is half of a bounded integer.
pub fn bounded_dyadic_f32(value_range: i64, rng: &mut StdRng) -> (r: u32)
    ensures
        drawn_single(r, value_range),
{
    let v: i64 = bounded_i64(value_range, rng);
    half_single(v)
}

/// Draws `count` doubles.
pub fn doubles(count: usize, value_range: i64, rng: &mut StdRng) -> (r: Vec<u64>)
    ensures
        r@.len() == count,
        forall|i: int| 0 <= i < count ==> drawn_double(#[trigger] r@[i], value_range),
{
    let mut out: Vec<u64> = Vec::new();
    let mut i: usize = 0;
    while i < count
        invariant
            i <= count,
            out@.len() == i,
            forall|j: int| 0 <= j < i ==> drawn_double(#[trigger] out@[j], value_range),
        decreases count - i,
    {
        out.push(bounded_dyadic(value_range, rng));
        i += 1;
    }
    out
}

/// Draws `count` integers.
pub fn integers(count: usize, value_range: i64, rng: &mut StdRng) -> (r: Vec<i64>)
    ensures
        r@.len() == count,
        forall|i: int|
            0 <= i < count ==> -magnitude(value_range) <= #[trigger] r@[i] <= magnitude(
                value_range,
            ) && drawn_integer(r@[i] as int, value_range),
{
    let mut out: Vec<i64> = Vec::new();
    let mut i: usize = 0;
    while i < count
        invariant
            i <= count,
            out@.len() == i,
            forall|j: int|
                0 <= j < i ==> -magnitude(value_range) <= #[trigger] out@[j] <= magnitude(
                    value_range,
                ) && drawn_integer(out@[j] as int, value_range),
        decreases count - i,
    {
        out.push(bounded_i64(value_range, rng));
        i += 1;
    }
    out
}

/// A drawn number, clamped to 32 bits.
pub open spec fn drawn_clamped(x: int, value_range: i64) -> bool {
    exists|v: int|
        drawn_integer(v, value_range) && x == #[trigger] clamped(
            v,
            i32::MIN as int,
            i32::MAX as int,
        )
}

/// A payload whose values are within the drawn range of its dtype.
pub open spec fn drawn_data(data: DataView, value_range: i64) -> bool {
    match data {
        DataView::F32(v) => forall|i: int|
            0 <= i < v.len() ==> drawn_single(#[trigger] v[i], value_range),
        DataView::F64(v) => forall|i: int|
            0 <= i < v.len() ==> drawn_double(#[trigger] v[i], value_range),
        DataView::I32(v) => forall|i: int|
            0 <= i < v.len() ==> -magnitude(value_range) <= #[trigger] v[i] <= magnitude(
                value_range,
            ) && drawn_clamped(v[i] as int, value_range),
        DataView::I64(v) => forall|i: int|
            0 <= i < v.len() ==> -magnitude(value_range) <= #[trigger] v[i] <= magnitude(
                value_range,
            ) && drawn_integer(v[i] as int, value_range),
        DataView::Bool(_) => false,
    }
}

/// Draws a payload that fills a shape.
///
/// # Errors
///
/// Returns [`IrError::ShapeOverflow`] exactly if the element count overflows.
pub fn tensor_data_for_shape(dtype: DType, shape: &Shape, value_range: i64, rng: &mut StdRng) -> (r:
    Result<TensorData, IrError>)
    ensures
        match r {
            Ok(data) => numel_fits(shape@) && data@.len() == numel(shape@) && data@.dtype()
                == numeric_of(dtype) && drawn_data(data@, value_range),
            Err(e) => e == IrError::ShapeOverflow && !numel_fits(shape@),
        },
{
    let count: usize = match shape.numel() {
        Ok(count) => count,
        Err(e) => {
            return Err(e);
        }
    };
    proof {
        crate::shape::lemma_numel_fits_prefix(shape@, 0);
    }
    let mut i: usize = 0;
    Ok(
        match numeric_dtype(dtype) {
            DType::F32 => {
                let mut out: Vec<u32> = Vec::new();
                while i < count
                    invariant
                        i <= count,
                        out@.len() == i,
                        forall|j: int| 0 <= j < i ==> drawn_single(#[trigger] out@[j], value_range),
                    decreases count - i,
                {
                    out.push(bounded_dyadic_f32(value_range, rng));
                    i += 1;
                }
                TensorData::F32(out)
            }
            DType::F64 => TensorData::F64(doubles(count, value_range, rng)),
            DType::I32 => {
                let mut out: Vec<i32> = Vec::new();
                while i < count
                    invariant
                        i <= count,
                        out@.len() == i,
                        forall|j: int|
                            0 <= j < i ==> -magnitude(value_range) <= #[trigger] out@[j]
                                <= magnitude(value_range) && drawn_clamped(
                                out@[j] as int,
                                value_range,
                            ),
                    decreases count - i,
                {
                    let v: i64 = bounded_i64(value_range, rng);
                    out.push(clamp_i32(v));
                    i += 1;
                }
                TensorData::I32(out)
            }
            DType::I64 | DType::Bool => TensorData::I64(integers(count, value_range, rng)),
        },
    )
}

/// Every extent is at least one.
pub open spec fn positive(shape: Seq<nat>) -> bool {
    forall|i: int| 0 <= i < shape.len() ==> #[trigger] shape[i] >= 1
}

/// No extent exceeds the limit.
pub open spec fn extents_within(shape: Seq<nat>, limit: nat) -> bool {
    forall|i: int| 0 <= i < shape.len() ==> #[trigger] shape[i] <= limit
}

/// Draws an index below `len`. Which one is not stated.
pub fn random_index(len: usize, rng: &mut StdRng) -> (r: usize)
    requires
        len > 0,
    ensures
        r < len,
{
    draw_usize(rng, 0, len - 1)
}

/// Returns the largest extent that is drawn.
pub fn largest_dim(cfg: &GenConfig) -> (r: usize)
    ensures
        r == extent_limit(*cfg),
{
    if cfg.max_dim < 1 {
        1
    } else {
        cfg.max_dim
    }
}

/// Draws an extent. Which one is not stated.
pub fn random_dim(cfg: &GenConfig, rng: &mut StdRng) -> (r: usize)
    ensures
        1 <= r <= extent_limit(*cfg),
{
    draw_usize(rng, 1, largest_dim(cfg))
}

/// A positive shape has at least one element, and its count does not overflow if the product of
/// all extents fits.
pub proof fn lemma_positive(shape: Seq<nat>)
    requires
        positive(shape),
    ensures
        numel(shape) >= 1,
        numel(shape) <= usize::MAX ==> numel_fits(shape),
    decreases shape.len(),
{
    if shape.len() > 0 {
        lemma_positive(shape.drop_last());
        let a = numel(shape.drop_last());
        let b = shape.last();
        assert(a * b >= a && a * b >= 1) by (nonlinear_arith)
            requires
                a >= 1,
                b >= 1,
        ;
    }
}

/// Draws a shape of rank one to three.
pub fn random_shape(cfg: &GenConfig, rng: &mut StdRng) -> (r: Shape)
    ensures
        1 <= r@.len() <= 3,
        positive(r@),
        extents_within(r@, extent_limit(*cfg)),
        numel(r@) <= pow(extent_limit(*cfg) as int, 3),
{
    let rank: usize = draw_usize(rng, 1, 3);
    let ghost m = extent_limit(*cfg) as int;
    let mut dims: Vec<Dim> = Vec::new();
    let ghost mut view: Seq<nat> = Seq::empty();
    let mut i: usize = 0;
    proof {
        vstd::arithmetic::power::lemma_pow0(m);
    }
    while i < rank
        invariant
            i <= rank <= 3,
            m == extent_limit(*cfg),
            view.len() == i,
            view == dims@.map_values(|d: Dim| d.0 as nat),
            positive(view),
            extents_within(view, m as nat),
            numel(view) <= pow(m, i as nat),
        decreases rank - i,
    {
        let d: usize = random_dim(cfg, rng);
        let ghost before = dims@;
        dims.push(Dim(d));
        proof {
            let longer = view.push(d as nat);
            assert(dims@.map_values(|d: Dim| d.0 as nat) =~= longer);
            assert(longer.drop_last() =~= view);
            vstd::arithmetic::power::lemma_pow1(m);
            vstd::arithmetic::power::lemma_pow_adds(m, i as nat, 1);
            let a = numel(view) as int;
            let p = pow(m, i as nat);
            assert(a * d <= p * m) by (nonlinear_arith)
                requires
                    0 <= a <= p,
                    1 <= d <= m,
            ;
            view = longer;
        }
        i += 1;
    }
    proof {
        vstd::arithmetic::power::lemma_pow_increases(m as nat, i as nat, 3);
    }
    Shape { dims }
}

/// Draws a shape of rank two.
pub fn random_matrix_shape(cfg: &GenConfig, rng: &mut StdRng) -> (r: Shape)
    ensures
        r@.len() == 2,
        positive(r@),
        r@[0] <= extent_limit(*cfg),
        r@[1] <= extent_limit(*cfg),
{
    let a: usize = random_dim(cfg, rng);
    let b: usize = random_dim(cfg, rng);
    let mut dims: Vec<Dim> = Vec::new();
    dims.push(Dim(a));
    dims.push(Dim(b));
    Shape { dims }
}

/// The axes below `n` whose coin shows heads, in ascending order.
pub open spec fn heads(coins: Seq<bool>, n: nat) -> Seq<usize>
    decreases n,
{
    if n == 0 {
        Seq::empty()
    } else {
        let before = heads(coins, (n - 1) as nat);
        if coins[n - 1] {
            before.push((n - 1) as usize)
        } else {
            before
        }
    }
}

/// The selected axes ascend and are below `n`.
proof fn lemma_heads(coins: Seq<bool>, n: nat)
    requires
        n <= coins.len(),
        n <= usize::MAX,
    ensures
        forall|i: int| 0 <= i < heads(coins, n).len() ==> #[trigger] heads(coins, n)[i] < n,
        forall|i: int, j: int|
            0 <= i < j < heads(coins, n).len() ==> heads(coins, n)[i] < heads(coins, n)[j],
    decreases n,
{
    if n > 0 {
        lemma_heads(coins, (n - 1) as nat);
        let before = heads(coins, (n - 1) as nat);
        let all = heads(coins, n);
        assert forall|i: int| 0 <= i < all.len() implies #[trigger] all[i] < n by {
            if i < before.len() {
                assert(all[i] == before[i]);
            }
        }
    }
}

/// Returns the axes whose coin shows heads.
pub fn selected_axes(coins: &Vec<bool>) -> (r: Vec<usize>)
    ensures
        r@ == heads(coins@, coins@.len()),
{
    let mut axes: Vec<usize> = Vec::new();
    let mut axis: usize = 0;
    while axis < coins.len()
        invariant
            axis <= coins@.len(),
            axes@ == heads(coins@, axis as nat),
        decreases coins@.len() - axis,
    {
        if coins[axis] {
            axes.push(axis);
        }
        axis += 1;
    }
    axes
}

/// Draws a selection of the axes below `rank`, in ascending order: one coin for each axis. How the
/// coins fall is not stated.
pub fn random_axes(rank: usize, rng: &mut StdRng) -> (r: Vec<usize>)
    ensures
        exists|coins: Seq<bool>| coins.len() == rank && r@ == #[trigger] heads(coins, rank as nat),
        forall|i: int| 0 <= i < r@.len() ==> #[trigger] r@[i] < rank,
        forall|i: int, j: int| 0 <= i < j < r@.len() ==> r@[i] < r@[j],
{
    let mut coins: Vec<bool> = Vec::new();
    let mut axis: usize = 0;
    while axis < rank
        invariant
            axis <= rank,
            coins@.len() == axis,
        decreases rank - axis,
    {
        coins.push(draw_coin(rng));
        axis += 1;
    }
    proof {
        lemma_heads(coins@, rank as nat);
    }
    selected_axes(&coins)
}

/// The pairs `[d, n / d]` for the divisors `d` of `n` up to `k`.
pub open spec fn factor_pairs(n: nat, k: nat) -> Seq<Seq<nat>>
    decreases k,
{
    if k == 0 {
        Seq::empty()
    } else if n % k == 0 {
        factor_pairs(n, (k - 1) as nat).push(seq![k, n / k])
    } else {
        factor_pairs(n, (k - 1) as nat)
    }
}

/// The element count that reshapes keep: one where it is zero or overflows.
pub open spec fn reshape_count(shape: Seq<nat>) -> nat {
    match checked_numel(shape) {
        Ok(n) => if n < 1 {
            1
        } else {
            n as nat
        },
        Err(_) => 1,
    }
}

/// The shapes that a value may be reshaped to.
pub open spec fn reshape_choices(shape: Seq<nat>) -> Seq<Seq<nat>> {
    let n = reshape_count(shape);
    seq![seq![n], seq![1nat, n], seq![n, 1nat]] + factor_pairs(n, n)
}

/// The contents of the shapes.
pub open spec fn shape_views(shapes: Seq<Shape>) -> Seq<Seq<nat>> {
    shapes.map_values(|s: Shape| s@)
}

fn pair_shape(a: usize, b: usize) -> (r: Shape)
    ensures
        r@ == seq![a as nat, b as nat],
{
    let mut dims: Vec<Dim> = Vec::new();
    dims.push(Dim(a));
    dims.push(Dim(b));
    let r = Shape { dims };
    proof {
        assert(r@ =~= seq![a as nat, b as nat]);
    }
    r
}

/// Lists the shapes that a value may be reshaped to.
pub fn reshape_candidates(shape: &Shape) -> (r: Vec<Shape>)
    ensures
        shape_views(r@) == reshape_choices(shape@),
        r@.len() >= 3,
{
    let n: usize = match shape.numel() {
        Ok(n) => if n < 1 {
            1
        } else {
            n
        },
        Err(_) => 1,
    };
    let mut candidates: Vec<Shape> = Vec::new();
    let mut dims: Vec<Dim> = Vec::new();
    dims.push(Dim(n));
    let single = Shape { dims };
    proof {
        assert(single@ =~= seq![n as nat]);
    }
    candidates.push(single);
    candidates.push(pair_shape(1, n));
    candidates.push(pair_shape(n, 1));
    let ghost base = seq![seq![n as nat], seq![1nat, n as nat], seq![n as nat, 1nat]];
    proof {
        assert(shape_views(candidates@) =~= base + factor_pairs(n as nat, 0));
    }
    let mut d: usize = 0;
    while d < n
        invariant
            d <= n,
            base.len() == 3,
            shape_views(candidates@) == base + factor_pairs(n as nat, d as nat),
        decreases n - d,
    {
        d += 1;
        if n % d == 0 {
            let ghost before = candidates@;
            candidates.push(pair_shape(d, n / d));
            proof {
                assert(shape_views(candidates@) =~= shape_views(before).push(
                    seq![d as nat, (n / d) as nat],
                ));
                assert((base + factor_pairs(n as nat, (d - 1) as nat)).push(
                    seq![d as nat, (n / d) as nat],
                ) =~= base + factor_pairs(n as nat, d as nat));
            }
        }
    }
    proof {
        assert(candidates@.len() == shape_views(candidates@).len());
    }
    candidates
}

/// Factor pairs keep the product.
proof fn lemma_factor_pairs(n: nat, k: nat, i: int)
    requires
        n >= 1,
        k <= n,
        0 <= i < factor_pairs(n, k).len(),
    ensures
        positive(factor_pairs(n, k)[i]),
        numel(factor_pairs(n, k)[i]) == n,
    decreases k,
{
    if k > 0 {
        let rest = factor_pairs(n, (k - 1) as nat);
        if i < rest.len() {
            lemma_factor_pairs(n, (k - 1) as nat, i);
        } else {
            let pair = seq![k, n / k];
            vstd::arithmetic::div_mod::lemma_fundamental_div_mod(n as int, k as int);
            lemma_numel_pair(k, n / k);
            assert(n / k >= 1) by (nonlinear_arith)
                requires
                    n == k * (n / k),
                    n >= 1,
                    k >= 1,
            ;
            assert(positive(pair));
        }
    }
}

/// The element count of a matrix.
pub proof fn lemma_numel_pair(a: nat, b: nat)
    ensures
        numel(seq![a, b]) == a * b,
        numel(seq![a]) == a,
{
    assert(seq![a, b].drop_last() =~= seq![a]);
    assert(seq![a].drop_last() =~= Seq::empty());
    assert(numel(Seq::<nat>::empty()) == 1);
    assert(numel(seq![a]) == 1 * a);
    assert(numel(seq![a, b]) == numel(seq![a]) * b);
}

/// Every choice of a reshape has extents of at least one.
pub proof fn reshape_choices_are_positive(shape: Seq<nat>, choice: Seq<nat>)
    requires
        reshape_choices(shape).contains(choice),
    ensures
        positive(choice),
{
    let n = reshape_count(shape);
    let i = choose|i: int|
        0 <= i < reshape_choices(shape).len() && reshape_choices(shape)[i] == choice;
    if i >= 3 {
        lemma_factor_pairs(n, n, i - 3);
    }
}

/// Every choice of a reshape of a positive shape keeps its element count.
pub proof fn reshape_choices_keep_the_count(shape: Seq<nat>, i: int)
    requires
        positive(shape),
        numel_fits(shape),
        0 <= i < reshape_choices(shape).len(),
    ensures
        positive(reshape_choices(shape)[i]),
        numel(reshape_choices(shape)[i]) == numel(shape),
{
    crate::shape::lemma_numel_fits_prefix(shape, 0);
    lemma_positive(shape);
    let n = reshape_count(shape);
    assert(n == numel(shape));
    lemma_numel_pair(1, n);
    lemma_numel_pair(n, 1);
    if i >= 3 {
        lemma_factor_pairs(n, n, i - 3);
    }
}

/// Draws a shape that a value may be reshaped to.
pub fn random_reshape_shape(shape: &Shape, rng: &mut StdRng) -> (r: Shape)
    ensures
        reshape_choices(shape@).contains(r@),
{
    let candidates = reshape_candidates(shape);
    let i: usize = random_index(candidates.len(), rng);
    proof {
        assert(shape_views(candidates@)[i as int] == candidates@[i as int]@);
        assert(reshape_choices(shape@)[i as int] == candidates@[i as int]@);
    }
    candidates[i].clone()
}

} // verus!

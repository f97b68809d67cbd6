//! Deterministic inputs of pipeline runs.
use vstd::prelude::*;

use crate::bindings::Bindings;
use crate::domain::{Domain, Exact};
use crate::egg_search::{element_count, integers_from_draws, numbers, wide_integers};
use crate::error::IrError;
use crate::float::{encode, negative64, value64};
use crate::graph::{Graph, GraphView};
use crate::op::{NodeId, Op, OpView};
use crate::pipeline_error::{PipelineError, PipelineErrorView};
use crate::random::{sensitive, signed_dyadic, Draw, Generator};
use crate::seqs::{
    collect, first_some, lemma_collect_error, lemma_collect_ok, lemma_collect_step,
    lemma_first_some_at, lemma_first_some_none,
};
use crate::shape::{numel_fits, Shape};
use crate::supply::{bound_for_all, lemma_bound_insert, lemma_served_insert, listed, served};
use crate::tensor::{meaning, Tensor, TensorF64};
use crate::tensor_type::TypeView;

verus! {

/// The name and shape of a declared input.
pub type InputView = (Seq<char>, Seq<nat>);

/// The declared input at `k`, or why there is none.
pub open spec fn signature_at(g: GraphView, k: int) -> Result<InputView, PipelineErrorView> {
    match listed(g, k) {
        None => Err(
            PipelineErrorView::Ir(
                IrError::InvalidNodeId { id: g.inputs[k], num_nodes: g.nodes.len() as usize },
            ),
        ),
        Some(OpView::Input { name, ty }) => Ok((name, ty.shape)),
        Some(_) => Err(
            PipelineErrorView::CheckFailed("graph input list contains non-input node"@),
        ),
    }
}

pub open spec fn signatures(g: GraphView) -> Seq<Result<InputView, PipelineErrorView>> {
    Seq::new(g.inputs.len(), |k: int| signature_at(g, k))
}

/// The declared inputs in order, or why there are none.
pub open spec fn signature(g: GraphView) -> Result<Seq<InputView>, PipelineErrorView> {
    collect(signatures(g))
}

/// The error of an input whose element count overflows.
pub open spec fn count_error(input: InputView) -> Option<PipelineErrorView> {
    if numel_fits(input.1) {
        None
    } else {
        Some(
            PipelineErrorView::InvalidShape {
                key: input.0,
                value: 0,
                reason: "shape element count overflow"@,
            },
        )
    }
}

pub open spec fn count_errors(inputs: Seq<InputView>) -> Seq<Option<PipelineErrorView>> {
    inputs.map_values(|input: InputView| count_error(input))
}

/// Why no inputs can be drawn for a graph.
pub open spec fn inputs_error(g: GraphView) -> Option<PipelineErrorView> {
    match signature(g) {
        Err(e) => Some(e),
        Ok(inputs) => first_some(count_errors(inputs)),
    }
}

/// The contents of a signature.
pub open spec fn input_views(inputs: Seq<(String, Shape)>) -> Seq<InputView> {
    inputs.map_values(|input: (String, Shape)| (input.0@, input.1@))
}

/// Lists the declared inputs with their shapes.
///
/// # Errors
///
/// Returns an error for a listed input that is no input node.
pub fn input_signature(graph: &Graph) -> (r: Result<Vec<(String, Shape)>, PipelineError>)
    ensures
        match r {
            Ok(inputs) => signature(graph@) == Ok::<Seq<InputView>, PipelineErrorView>(
                input_views(inputs@),
            ),
            Err(e) => signature(graph@) == Err::<Seq<InputView>, PipelineErrorView>(e@),
        },
{
    let ghost g = graph@;
    let ghost results = signatures(g);
    let mut inputs: Vec<(String, Shape)> = Vec::new();
    proof {
        assert(results.take(0) =~= Seq::empty());
        assert(input_views(inputs@) =~= Seq::empty());
    }
    let mut k: usize = 0;
    while k < graph.inputs.len()
        invariant
            k <= g.inputs.len(),
            g == graph@,
            results == signatures(g),
            collect(results.take(k as int)) == Ok::<Seq<InputView>, PipelineErrorView>(
                input_views(inputs@),
            ),
        decreases g.inputs.len() - k,
    {
        let id: NodeId = graph.inputs[k];
        proof {
            lemma_collect_step(results, k as int);
            assert(results[k as int] == signature_at(g, k as int));
        }
        if id.0 >= graph.nodes.len() {
            proof {
                lemma_collect_error(results, k as int + 1);
            }
            return Err(
                PipelineError::Ir(IrError::InvalidNodeId { id, num_nodes: graph.nodes.len() }),
            );
        }
        assert(listed(g, k as int) == Some(graph.nodes@[id.0 as int].op@));
        match &graph.nodes[id.0].op {
            Op::Input { name, ty } => {
                let ghost before = inputs@;
                inputs.push((name.clone(), ty.shape.clone()));
                proof {
                    assert(input_views(inputs@) =~= input_views(before).push(
                        (name@, ty@.shape),
                    ));
                }
            }
            _ => {
                proof {
                    lemma_collect_error(results, k as int + 1);
                }
                return Err(
                    PipelineError::CheckFailed(
                        String::from_str("graph input list contains non-input node"),
                    ),
                );
            }
        }
        k += 1;
    }
    proof {
        assert(results.take(k as int) =~= results);
    }
    Ok(inputs)
}

/// Counts the elements of an input.
fn count_of(name: &String, shape: &Shape) -> (r: Result<usize, PipelineError>)
    ensures
        match r {
            Ok(n) => count_error((name@, shape@)) is None && n == crate::shape::numel(shape@),
            Err(e) => count_error((name@, shape@)) == Some(e@),
        },
{
    match shape.numel() {
        Ok(n) => {
            proof {
                crate::shape::lemma_numel_fits_prefix(shape@, 0);
            }
            Ok(n)
        }
        Err(_) => Err(
            PipelineError::InvalidShape {
                key: name.clone(),
                value: 0,
                reason: String::from_str("shape element count overflow"),
            },
        ),
    }
}

/// The numbers are integers drawn one by one from a generator of the seed.
pub open spec fn numbers_drawn(data: Seq<real>, seed: u64) -> bool {
    exists|draws: Seq<Draw>, values: Seq<int>|
        #[trigger] integers_from_draws(draws, values, seed) && data == values.map_values(
            |v: int| v as real,
        )
}

/// Which exact tensors are drawn from a generator of the seed: integers from -8 to 8.
pub open spec fn small_integers(seed: u64) -> spec_fn(TypeView, Tensor) -> bool {
    |ty: TypeView, t: Tensor|
        t@.shape == ty.shape && numbers_drawn(numbers(t@.data), seed) && forall|i: int|
            0 <= i < t@.data.len() ==> small_integer((#[trigger] t@.data[i]).value())
}

/// An integer from -8 to 8.
pub open spec fn small_integer(x: real) -> bool {
    exists|v: int| -8 <= v <= 8 && x == #[trigger] Exact::int_value(v)
}

/// Draws an exact tensor.
fn integer_tensor(shape: &Shape, n: usize, rng: &mut Generator) -> (r: Option<Tensor>)
    requires
        numel_fits(shape@),
        n == crate::shape::numel(shape@),
    ensures
        r is Some,
        r->Some_0@.shape == shape@,
        forall|i: int|
            0 <= i < r->Some_0@.data.len() ==> small_integer(
                (#[trigger] r->Some_0@.data[i]).value(),
            ),
        numbers_drawn(numbers(r->Some_0@.data), old(rng).seed()),
        final(rng).seed() == old(rng).seed(),
        final(rng).turn() == old(rng).turn() + n,
{
    let ghost seed = rng.seed();
    let ghost start = rng.turn();
    let ghost mut draws: Seq<Draw> = Seq::empty();
    let mut values: Vec<i64> = Vec::new();
    let mut i: usize = 0;
    while i < n
        invariant
            i <= n,
            values@.len() == i,
            rng.seed() == seed,
            rng.turn() == start + i,
            forall|j: int| 0 <= j < i ==> -8 <= #[trigger] values@[j] <= 8,
            integers_from_draws(draws, wide_integers(values@), seed),
            forall|j: int| 0 <= j < i ==> (#[trigger] draws[j]).turn() < rng.turn(),
        decreases n - i,
    {
        let (value, draw) = rng.pick_i64(-8, 8);
        let ghost before = values@;
        values.push(value);
        proof {
            draws = draws.push(draw@);
            assert(wide_integers(values@) =~= wide_integers(before).push(value as int));
        }
        i += 1;
    }
    let ghost reals = values@.map_values(|v: i64| v as real);
    match Tensor::from_i64(shape.clone(), values.as_slice()) {
        Ok(t) => {
            proof {
                assert forall|i: int| 0 <= i < t@.data.len() implies small_integer(
                    (#[trigger] t@.data[i]).value(),
                ) by {
                    let m = meaning::<Exact>(t@);
                    assert(m.data == reals);
                    assert(m.data[i] == t@.data[i].value());
                    assert(reals[i] == values@[i] as real);
                    assert(t@.data[i].value() == Exact::int_value(values@[i] as int));
                }
                assert(meaning::<Exact>(t@).data =~= numbers(t@.data));
                assert(reals =~= wide_integers(values@).map_values(|v: int| v as real));
            }
            Some(t)
        }
        Err(_) => None,
    }
}

/// Draws exact inputs for a graph: integers from -8 to 8.
///
/// # Errors
///
/// Returns an error for a listed input that is no input node, or whose element
/// count overflows.
pub fn rational_inputs(graph: &Graph, seed: u64) -> (r: Result<Bindings<Tensor>, PipelineError>)
    ensures
        match r {
            Ok(inputs) => inputs_error(graph@) is None && served(
                graph@,
                graph@.inputs.len() as int,
                inputs,
                small_integers(seed),
            ) && bound_for_all(graph@, graph@.inputs.len() as int, inputs),
            Err(e) => inputs_error(graph@) == Some(e@),
        },
{
    let ghost g = graph@;
    let ghost suits = small_integers(seed);
    let mut rng = Generator::new(seed);
    let mut inputs: Bindings<Tensor> = Bindings::new();
    let wanted = input_signature(graph)?;
    let ghost sig = input_views(wanted@);
    let ghost errors = count_errors(sig);
    proof {
        lemma_collect_ok(signatures(g));
    }
    let mut k: usize = 0;
    while k < wanted.len()
        invariant
            k <= wanted@.len(),
            wanted@.len() == g.inputs.len(),
            g == graph@,
            suits == small_integers(seed),
            rng.seed() == seed,
            rng.turn() == element_count(g, k as int),
            sig == input_views(wanted@),
            signature(g) == Ok::<Seq<InputView>, PipelineErrorView>(sig),
            errors == count_errors(sig),
            forall|j: int|
                0 <= j < g.inputs.len() ==> #[trigger] signatures(g)[j] == Ok::<
                    InputView,
                    PipelineErrorView,
                >(sig[j]),
            forall|j: int| 0 <= j < k ==> errors[j] is None,
            served(g, k as int, inputs, suits),
            bound_for_all(g, k as int, inputs),
        decreases wanted@.len() - k,
    {
        let (name, shape) = &wanted[k];
        proof {
            assert(errors[k as int] == count_error((name@, shape@)));
            assert(signatures(g)[k as int] == signature_at(g, k as int));
        }
        let n: usize = match count_of(name, shape) {
            Ok(n) => n,
            Err(e) => {
                proof {
                    lemma_first_some_at(errors, k as int);
                }
                return Err(e);
            }
        };
        let ghost before = inputs;
        match integer_tensor(shape, n, &mut rng) {
            Some(tensor) => {
                inputs.insert(name.clone(), tensor);
                proof {
                    let ty = listed(g, k as int)->Some_0->Input_ty;
                    lemma_served_insert(g, k as int, before, inputs, suits, name@, ty, tensor);
                    lemma_bound_insert(g, k as int, before, inputs, name@);
                }
            }
            None => {}
        }
        k += 1;
    }
    proof {
        lemma_first_some_none(errors);
    }
    Ok(inputs)
}

/// The double at a place: zeros of both signs at regular places, small dyadics elsewhere.
pub open spec fn placed_double(index: int, bits: u64) -> bool {
    if index % 11 == 0 {
        value64(bits) == 0real && negative64(bits)
    } else if index % 17 == 0 {
        value64(bits) == 0real && !negative64(bits)
    } else {
        sensitive(bits, 31) && value64(bits) != 0real
    }
}

/// The draws behind one double: its sign, mantissa and exponent.
pub struct PlacedDraw {
    pub sign: Draw,
    pub mantissa: Draw,
    pub exponent: Draw,
}

impl PlacedDraw {
    /// A coin for the sign, a mantissa from 1 to 31 and an exponent from -4 to 4, one after the
    /// other, from a generator of the seed.
    pub open spec fn from_seed(self, seed: u64) -> bool {
        &&& self.sign.from_range(seed, 0, 1)
        &&& self.mantissa.from_range(seed, 1, 31)
        &&& self.mantissa.turn() == self.sign.turn() + 1
        &&& self.exponent.from_range(seed, -4, 4)
        &&& self.exponent.turn() == self.sign.turn() + 2
    }

    /// The double is the mantissa times two to the exponent, negative where the coin fell heads.
    pub open spec fn gives(self, bits: u64) -> bool {
        &&& negative64(bits) == (self.sign.number() == 1)
        &&& value64(bits) == signed_dyadic(
            negative64(bits),
            self.mantissa.number(),
            self.exponent.number(),
        )
    }
}

/// The places that hold a zero.
pub open spec fn holds_zero(index: int) -> bool {
    index % 11 == 0 || index % 17 == 0
}

/// The doubles at the places that hold no zero are drawn one by one from a generator of the seed,
/// each by draws of its own.
pub open spec fn placed_from_draws(draws: Seq<PlacedDraw>, data: Seq<u64>, seed: u64) -> bool {
    &&& draws.len() == data.len()
    &&& forall|i: int|
        0 <= i < draws.len() && !holds_zero(i) ==> (#[trigger] draws[i]).from_seed(seed)
            && draws[i].gives(data[i])
    &&& forall|i: int, j: int|
        0 <= i < j < draws.len() && !holds_zero(i) && !holds_zero(j) ==> (
        #[trigger] draws[i]).sign.turn() < (#[trigger] draws[j]).sign.turn()
}

/// Every eleventh double from the first on is a negative zero, and no other one is; every
/// seventeenth that is not among those is a positive zero, and no other one is.
pub proof fn zeros_stand_at_regular_places(k: int, index: int, bits: u64)
    requires
        placed_double(index, bits),
        0 <= index,
    ensures
        index == 11 * k ==> value64(bits) == 0real && negative64(bits),
        value64(bits) == 0real && negative64(bits) ==> index == 11 * (index / 11),
        index == 17 * k && index != 11 * (index / 11) ==> value64(bits) == 0real && !negative64(
            bits,
        ),
        value64(bits) == 0real && !negative64(bits) ==> index == 17 * (index / 17),
{
}

/// Draws the double at a place.
pub fn random_f64_value(index: usize, rng: &mut Generator) -> (r: (u64, Ghost<PlacedDraw>))
    ensures
        placed_double(index as int, r.0),
        final(rng).seed() == old(rng).seed(),
        final(rng).turn() >= old(rng).turn(),
        !holds_zero(index as int) ==> {
            &&& r.1@.from_seed(old(rng).seed())
            &&& r.1@.sign.turn() == old(rng).turn()
            &&& r.1@.gives(r.0)
            &&& final(rng).turn() == old(rng).turn() + 3
        },
{
    if index % 11 == 0 {
        return (zero_double(true), Ghost(arbitrary()));
    }
    if index % 17 == 0 {
        return (zero_double(false), Ghost(arbitrary()));
    }
    let (negative, sign_draw) = rng.toss();
    let (mantissa, mantissa_draw) = rng.pick_u16(1, 31);
    let (exponent, exponent_draw) = rng.pick_i32(-4, 4);
    let ghost draw = PlacedDraw {
        sign: sign_draw@,
        mantissa: mantissa_draw@,
        exponent: exponent_draw@,
    };
    (nonzero_double(mantissa as u64, exponent as i64, negative), Ghost(draw))
}

/// Returns a zero of the given sign.
fn zero_double(negative: bool) -> (r: u64)
    ensures
        value64(r) == 0real,
        negative64(r) == negative,
{
    let bits: u64 = encode(0, 0, negative);
    proof {
        let t = crate::rational::two_to(0);
        assert(0real * t == 0real) by (nonlinear_arith);
    }
    bits
}

/// Returns the bits of `m * 2^e` with the given sign.
fn nonzero_double(m: u64, e: i64, negative: bool) -> (r: u64)
    requires
        1 <= m <= 31,
        -4 <= e <= 4,
    ensures
        sensitive(r, 31),
        value64(r) != 0real,
        negative64(r) == negative,
        value64(r) == signed_dyadic(negative, m as int, e as int),
{
    let bits: u64 = encode(m, e, negative);
    proof {
        let x = if negative {
            -(m as int)
        } else {
            m as int
        };
        let t = crate::rational::two_to(e as int);
        crate::float::lemma_two_to_step(e as int);
        assert(value64(bits) == signed_dyadic(negative64(bits), m as int, e as int));
        let y = x as real;
        assert(y * t != 0real) by (nonlinear_arith)
            requires
                t > 0real,
                y != 0real,
        ;
    }
    bits
}

/// Some draws from a generator of the seed give the doubles.
pub open spec fn doubles_drawn(data: Seq<u64>, seed: u64) -> bool {
    exists|draws: Seq<PlacedDraw>| #[trigger] placed_from_draws(draws, data, seed)
}

/// Which tensors of doubles are drawn from a generator of the seed.
pub open spec fn placed_doubles(seed: u64) -> spec_fn(TypeView, TensorF64) -> bool {
    |ty: TypeView, t: TensorF64|
        t@.shape == ty.shape && doubles_drawn(t@.data, seed) && forall|i: int|
            0 <= i < t@.data.len() ==> placed_double(i, #[trigger] t@.data[i])
}

/// Draws a tensor of doubles.
fn double_tensor(shape: &Shape, n: usize, rng: &mut Generator) -> (r: Option<TensorF64>)
    requires
        numel_fits(shape@),
        n == crate::shape::numel(shape@),
    ensures
        r is Some,
        r->Some_0@.shape == shape@,
        forall|i: int|
            0 <= i < r->Some_0@.data.len() ==> placed_double(i, #[trigger] r->Some_0@.data[i]),
        doubles_drawn(r->Some_0@.data, old(rng).seed()),
        final(rng).seed() == old(rng).seed(),
{
    let ghost seed = rng.seed();
    let ghost mut draws: Seq<PlacedDraw> = Seq::empty();
    let mut values: Vec<u64> = Vec::new();
    let mut i: usize = 0;
    while i < n
        invariant
            i <= n,
            values@.len() == i,
            rng.seed() == seed,
            forall|j: int| 0 <= j < i ==> placed_double(j, #[trigger] values@[j]),
            placed_from_draws(draws, values@, seed),
            forall|j: int|
                0 <= j < i && !holds_zero(j) ==> (#[trigger] draws[j]).sign.turn() < rng.turn(),
        decreases n - i,
    {
        let (value, draw) = random_f64_value(i, rng);
        values.push(value);
        proof {
            draws = draws.push(draw@);
        }
        i += 1;
    }
    match TensorF64::from_f64(shape.clone(), values.as_slice()) {
        Ok(t) => Some(t),
        Err(_) => None,
    }
}

/// The seed that double inputs are drawn from.
pub open spec fn mixed_seed(seed: u64) -> u64 {
    seed ^ 0xf64f_64f6_4f64
}

/// Returns the seed that double inputs are drawn from.
pub fn f64_seed(seed: u64) -> (r: u64)
    ensures
        r == seed ^ 0xf64f_64f6_4f64,
        r == mixed_seed(seed),
{
    seed ^ 0xf64f_64f6_4f64
}

/// Draws double inputs for a graph: zeros of both signs and small dyadics.
///
/// # Errors
///
/// Returns an error for a listed input that is no input node, or whose element
/// count overflows.
pub fn f64_inputs(graph: &Graph, seed: u64) -> (r: Result<Bindings<TensorF64>, PipelineError>)
    ensures
        match r {
            Ok(inputs) => inputs_error(graph@) is None && served(
                graph@,
                graph@.inputs.len() as int,
                inputs,
                placed_doubles(mixed_seed(seed)),
            ) && bound_for_all(graph@, graph@.inputs.len() as int, inputs),
            Err(e) => inputs_error(graph@) == Some(e@),
        },
{
    let ghost g = graph@;
    let ghost suits = placed_doubles(mixed_seed(seed));
    let mut rng = Generator::new(f64_seed(seed));
    let mut inputs: Bindings<TensorF64> = Bindings::new();
    let wanted = input_signature(graph)?;
    let ghost sig = input_views(wanted@);
    let ghost errors = count_errors(sig);
    proof {
        lemma_collect_ok(signatures(g));
    }
    let mut k: usize = 0;
    while k < wanted.len()
        invariant
            k <= wanted@.len(),
            wanted@.len() == g.inputs.len(),
            g == graph@,
            suits == placed_doubles(mixed_seed(seed)),
            rng.seed() == mixed_seed(seed),
            sig == input_views(wanted@),
            signature(g) == Ok::<Seq<InputView>, PipelineErrorView>(sig),
            errors == count_errors(sig),
            forall|j: int|
                0 <= j < g.inputs.len() ==> #[trigger] signatures(g)[j] == Ok::<
                    InputView,
                    PipelineErrorView,
                >(sig[j]),
            forall|j: int| 0 <= j < k ==> errors[j] is None,
            served(g, k as int, inputs, suits),
            bound_for_all(g, k as int, inputs),
        decreases wanted@.len() - k,
    {
        let (name, shape) = &wanted[k];
        proof {
            assert(errors[k as int] == count_error((name@, shape@)));
            assert(signatures(g)[k as int] == signature_at(g, k as int));
        }
        let n: usize = match count_of(name, shape) {
            Ok(n) => n,
            Err(e) => {
                proof {
                    lemma_first_some_at(errors, k as int);
                }
                return Err(e);
            }
        };
        let ghost before = inputs;
        match double_tensor(shape, n, &mut rng) {
            Some(tensor) => {
                inputs.insert(name.clone(), tensor);
                proof {
                    let ty = listed(g, k as int)->Some_0->Input_ty;
                    lemma_served_insert(g, k as int, before, inputs, suits, name@, ty, tensor);
                    lemma_bound_insert(g, k as int, before, inputs, name@);
                }
            }
            None => {}
        }
        k += 1;
    }
    proof {
        lemma_first_some_none(errors);
    }
    Ok(inputs)
}

} // verus!

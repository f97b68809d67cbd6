//! Evaluation of affine loop kernels.
use std::collections::HashMap;
use vstd::prelude::*;

use crate::affine::LoopVar;
use crate::bindings::Bindings;
use crate::domain::{Domain, Exact};
use crate::dtype::DType;
use crate::eval::{bound, meanings, EvalError, EvalErrorView};
use crate::loop_ir::{
    lemma_for_view, stmt_views, Buffer, BufferId, BufferRef, BufferRole, BufferView, Kernel,
    KernelView, RefView, RoleView, ScalarExpr, ScalarView, Stmt, StmtView,
};
use crate::rational::quotient;
use crate::seqs::{collect, lemma_collect_error, lemma_collect_step};
use crate::shape::{numel, numel_fits, shape_text, Shape};
use crate::tensor::{
    copy_all, data_error, data_problem, lift, lifted, meaning, shaped, size_error, DenseTensor,
    Tensor, TensorF64, TensorView,
};
use crate::text::{decimal, index_text, quoted, quoted_text, signed_decimal, signed_text};

verus! {

/// Errors produced by loop-kernel evaluation.
#[derive(Debug, Clone, PartialEq)]
pub enum LoopError {
    /// A required named input was not supplied.
    MissingInput(String),
    /// A supplied input shape differs from the declared kernel input shape.
    InputShapeMismatch {
        /// Input name.
        name: String,
        /// Declared shape.
        expected: Shape,
        /// Supplied tensor shape.
        got: Shape,
    },
    /// A buffer access was outside the flat buffer.
    IndexOutOfBounds {
        /// Buffer being accessed.
        buffer: BufferId,
        /// Evaluated flat index.
        index: i64,
        /// Buffer element count.
        numel: usize,
    },
    /// Evaluation is not defined for this dtype.
    UnsupportedDtype {
        /// Unsupported dtype.
        dtype: DType,
    },
    /// A floating-point literal was NaN or infinity.
    NonFiniteFloat,
    /// The kernel is inconsistent, or an element count overflowed.
    Internal(String),
}

/// The contents of a [`LoopError`].
pub enum LoopErrorView {
    MissingInput(Seq<char>),
    InputShapeMismatch { name: Seq<char>, expected: Seq<nat>, got: Seq<nat> },
    IndexOutOfBounds { buffer: BufferId, index: i64, numel: nat },
    UnsupportedDtype { dtype: DType },
    NonFiniteFloat,
    Internal(Seq<char>),
}

impl View for LoopError {
    type V = LoopErrorView;

    open spec fn view(&self) -> LoopErrorView {
        match *self {
            LoopError::MissingInput(name) => LoopErrorView::MissingInput(name@),
            LoopError::InputShapeMismatch { name, expected, got } =>
                LoopErrorView::InputShapeMismatch { name: name@, expected: expected@, got: got@ },
            LoopError::IndexOutOfBounds { buffer, index, numel } =>
                LoopErrorView::IndexOutOfBounds { buffer, index, numel: numel as nat },
            LoopError::UnsupportedDtype { dtype } => LoopErrorView::UnsupportedDtype { dtype },
            LoopError::NonFiniteFloat => LoopErrorView::NonFiniteFloat,
            LoopError::Internal(message) => LoopErrorView::Internal(message@),
        }
    }
}

impl LoopErrorView {
    /// The message of this error.
    pub open spec fn text(self) -> Seq<char> {
        match self {
            LoopErrorView::MissingInput(name) => "missing input "@ + quoted_text(name),
            LoopErrorView::InputShapeMismatch { name, expected, got } => "input "@ + quoted_text(
                name,
            ) + " shape mismatch: expected "@ + shape_text(expected) + ", got "@ + shape_text(got),
            LoopErrorView::IndexOutOfBounds { buffer, index, numel } => "buffer "@ + buffer.text()
                + " index "@ + signed_decimal(index as int) + " is out of bounds for "@ + decimal(
                numel,
            ) + " elements"@,
            LoopErrorView::UnsupportedDtype { dtype } => "unsupported dtype "@ + dtype.text(),
            LoopErrorView::NonFiniteFloat => "non-finite floating-point value"@,
            LoopErrorView::Internal(message) => "internal loop interpreter error: "@ + message,
        }
    }
}

impl LoopError {
    /// Renders the message of this error.
    pub fn to_text(&self) -> (r: String)
        ensures
            r@ == self@.text(),
    {
        match self {
            LoopError::MissingInput(name) => String::from_str("missing input ").concat(
                quoted(name.as_str()).as_str(),
            ),
            LoopError::InputShapeMismatch { name, expected, got } => String::from_str("input ")
                .concat(quoted(name.as_str()).as_str())
                .concat(" shape mismatch: expected ")
                .concat(expected.to_text().as_str())
                .concat(", got ")
                .concat(got.to_text().as_str()),
            LoopError::IndexOutOfBounds { buffer, index, numel } => String::from_str("buffer ")
                .concat(buffer.to_text().as_str())
                .concat(" index ")
                .concat(signed_text(*index).as_str())
                .concat(" is out of bounds for ")
                .concat(index_text(*numel).as_str())
                .concat(" elements"),
            LoopError::UnsupportedDtype { dtype } => String::from_str("unsupported dtype ").concat(
                dtype.to_text(),
            ),
            LoopError::NonFiniteFloat => String::from_str("non-finite floating-point value"),
            LoopError::Internal(message) => String::from_str(
                "internal loop interpreter error: ",
            ).concat(message.as_str()),
        }
    }
}

/// The loop error of an evaluation error.
pub open spec fn from_eval(e: EvalErrorView) -> LoopErrorView {
    match e {
        EvalErrorView::MissingInput(name) => LoopErrorView::MissingInput(name),
        EvalErrorView::InputShapeMismatch { name, expected, got } =>
            LoopErrorView::InputShapeMismatch { name, expected, got },
        EvalErrorView::UnsupportedDtype { dtype } => LoopErrorView::UnsupportedDtype { dtype },
        EvalErrorView::NonFiniteFloat => LoopErrorView::NonFiniteFloat,
        EvalErrorView::DataShapeMismatch { expected, got } => LoopErrorView::Internal(
            "tensor data length mismatch: expected "@ + decimal(expected as nat) + ", got "@
                + decimal(got as nat),
        ),
        EvalErrorView::Type(e) => LoopErrorView::Internal(e.text()),
        EvalErrorView::Internal(message) => LoopErrorView::Internal(message),
    }
}

/// The buffers and the loop variables in scope.
pub struct LoopState<V> {
    pub buffers: Seq<Seq<V>>,
    pub env: Map<u32, i64>,
}

/// The place that a reference names, where it is within its buffer.
pub open spec fn place<V>(r: RefView, st: LoopState<V>) -> Result<int, LoopErrorView> {
    if r.buffer.0 >= st.buffers.len() {
        Err(LoopErrorView::Internal("missing buffer "@ + r.buffer.text()))
    } else {
        let index = r.index.value(st.env);
        let len = st.buffers[r.buffer.0 as int].len();
        if 0 <= index < len {
            Ok(index as int)
        } else {
            Err(LoopErrorView::IndexOutOfBounds { buffer: r.buffer, index, numel: len })
        }
    }
}

/// The value of a scalar expression; of two failing operands the left one is reported.
pub open spec fn scalar_value<D: Domain>(e: ScalarView, st: LoopState<D::V>) -> Result<
    D::V,
    LoopErrorView,
>
    decreases e,
{
    match e {
        ScalarView::Load(r) => match place(r, st) {
            Err(e) => Err(e),
            Ok(i) => Ok(st.buffers[r.buffer.0 as int][i]),
        },
        ScalarView::ConstScalar { numer, denom } => match D::literal_value(quotient(numer, denom)) {
            Some(v) => Ok(v),
            None => Err(
                LoopErrorView::Internal("rational scalar literal is not representable as f64"@),
            ),
        },
        ScalarView::Add(l, r) => match scalar_value::<D>(*l, st) {
            Err(e) => Err(e),
            Ok(a) => match scalar_value::<D>(*r, st) {
                Err(e) => Err(e),
                Ok(b) => Ok(D::plus_value(a, b)),
            },
        },
        ScalarView::Sub(l, r) => match scalar_value::<D>(*l, st) {
            Err(e) => Err(e),
            Ok(a) => match scalar_value::<D>(*r, st) {
                Err(e) => Err(e),
                Ok(b) => Ok(D::minus_value(a, b)),
            },
        },
        ScalarView::Mul(l, r) => match scalar_value::<D>(*l, st) {
            Err(e) => Err(e),
            Ok(a) => match scalar_value::<D>(*r, st) {
                Err(e) => Err(e),
                Ok(b) => Ok(D::times_value(a, b)),
            },
        },
        ScalarView::Neg(x) => match scalar_value::<D>(*x, st) {
            Err(e) => Err(e),
            Ok(a) => Ok(D::neg_value(a)),
        },
        ScalarView::Relu(x) => match scalar_value::<D>(*x, st) {
            Err(e) => Err(e),
            Ok(a) => Ok(D::relu_value(a)),
        },
    }
}

/// The state after storing a value.
pub open spec fn stored<V>(r: RefView, v: V, st: LoopState<V>) -> Result<
    LoopState<V>,
    LoopErrorView,
> {
    match place(r, st) {
        Err(e) => Err(e),
        Ok(i) => {
            let b = r.buffer.0 as int;
            Ok(
                LoopState {
                    buffers: st.buffers.update(b, st.buffers[b].update(i, v)),
                    env: st.env,
                },
            )
        },
    }
}

/// The state with a variable bound.
pub open spec fn bind<V>(st: LoopState<V>, var: LoopVar, value: i64) -> LoopState<V> {
    LoopState { buffers: st.buffers, env: st.env.insert(var.0, value) }
}

/// The state after a statement.
pub open spec fn run_stmt<D: Domain>(s: StmtView, st: LoopState<D::V>) -> Result<
    LoopState<D::V>,
    LoopErrorView,
>
    decreases s, 0nat, 0int,
{
    match s {
        StmtView::Assign { target, value } => match scalar_value::<D>(value, st) {
            Err(e) => Err(e),
            Ok(v) => stored(target, v, st),
        },
        StmtView::For { var, lo, hi, body } => match run_for::<D>(
            var,
            body,
            lo.value(st.env) as int,
            hi.value(st.env) as int,
            st,
        ) {
            Err(e) => Err(e),
            Ok(after) => Ok(
                LoopState { buffers: after.buffers, env: after.env.remove(var.0) },
            ),
        },
    }
}

/// The state after running the body for each value of the variable from `lo` up to `hi`.
pub open spec fn run_for<D: Domain>(
    var: LoopVar,
    body: Seq<StmtView>,
    lo: int,
    hi: int,
    st: LoopState<D::V>,
) -> Result<LoopState<D::V>, LoopErrorView>
    decreases body, 1nat, hi - lo,
{
    if hi <= lo {
        Ok(st)
    } else {
        match run_for::<D>(var, body, lo, hi - 1, st) {
            Err(e) => Err(e),
            Ok(before) => run_stmts::<D>(body, bind(before, var, (hi - 1) as i64)),
        }
    }
}

/// The state after statements in order.
pub open spec fn run_stmts<D: Domain>(body: Seq<StmtView>, st: LoopState<D::V>) -> Result<
    LoopState<D::V>,
    LoopErrorView,
>
    decreases body, 0nat, body.len() as int,
{
    if body.len() == 0 {
        Ok(st)
    } else {
        match run_stmts::<D>(body.drop_last(), st) {
            Err(e) => Err(e),
            Ok(before) => run_stmt::<D>(body.last(), before),
        }
    }
}

/// A failing iteration fails the loop.
pub proof fn lemma_for_error<D: Domain>(
    var: LoopVar,
    body: Seq<StmtView>,
    lo: int,
    m: int,
    hi: int,
    st: LoopState<D::V>,
)
    requires
        m <= hi,
        run_for::<D>(var, body, lo, m, st) is Err,
    ensures
        run_for::<D>(var, body, lo, hi, st) == run_for::<D>(var, body, lo, m, st),
    decreases hi - m,
{
    if m < hi {
        lemma_for_error::<D>(var, body, lo, m, hi - 1, st);
    }
}

/// A failing statement fails the sequence.
pub proof fn lemma_stmts_error<D: Domain>(body: Seq<StmtView>, n: int, st: LoopState<D::V>)
    requires
        0 <= n <= body.len(),
        run_stmts::<D>(body.take(n), st) is Err,
    ensures
        run_stmts::<D>(body, st) == run_stmts::<D>(body.take(n), st),
    decreases body.len() - n,
{
    if n < body.len() {
        assert(body.take(n + 1).drop_last() =~= body.take(n));
        lemma_stmts_error::<D>(body, n + 1, st);
    } else {
        assert(body.take(n) =~= body);
    }
}

/// The contents of a buffer before the kernel runs.
pub open spec fn initial<D: Domain>(b: BufferView, inputs: Map<Seq<char>, TensorView<D::V>>) -> Result<
    Seq<D::V>,
    LoopErrorView,
> {
    match b.role {
        RoleView::Input(name) => if !inputs.dom().contains(name) {
            Err(LoopErrorView::MissingInput(name))
        } else if inputs[name].shape != b.shape {
            Err(
                LoopErrorView::InputShapeMismatch {
                    name,
                    expected: b.shape,
                    got: inputs[name].shape,
                },
            )
        } else {
            Ok(inputs[name].data)
        },
        RoleView::Const(data) => match data_error(data) {
            Some(e) => Err(from_eval(e)),
            None => match size_error(b.shape, data.len()) {
                Some(e) => Err(from_eval(e)),
                None => Ok(lifted::<D>(data)),
            },
        },
        RoleView::Temp | RoleView::Output => if numel_fits(b.shape) {
            Ok(Seq::new(numel(b.shape), |i: int| D::zero_value()))
        } else {
            Err(LoopErrorView::Internal("shape element count overflow"@))
        },
    }
}

/// The contents of all buffers before the kernel runs.
pub open spec fn allocated<D: Domain>(
    buffers: Seq<BufferView>,
    inputs: Map<Seq<char>, TensorView<D::V>>,
) -> Result<Seq<Seq<D::V>>, LoopErrorView> {
    collect(buffers.map_values(|b: BufferView| initial::<D>(b, inputs)))
}

/// The tensor in an output buffer, under its logical shape.
pub open spec fn output_tensor<V>(
    k: KernelView,
    buffers: Seq<Seq<V>>,
    id: BufferId,
    shape: Seq<nat>,
) -> Result<TensorView<V>, LoopErrorView> {
    if id.0 >= k.buffers.len() {
        Err(LoopErrorView::Internal("missing output buffer "@ + id.text()))
    } else {
        match shaped(shape, buffers[id.0 as int]) {
            Err(e) => Err(from_eval(e)),
            Ok(t) => Ok(t),
        }
    }
}

/// The outputs of a kernel over named inputs.
pub open spec fn eval_kernel<D: Domain>(
    k: KernelView,
    inputs: Map<Seq<char>, TensorView<D::V>>,
) -> Result<Seq<TensorView<D::V>>, LoopErrorView> {
    match allocated::<D>(k.buffers, inputs) {
        Err(e) => Err(e),
        Ok(buffers) => match run_stmts::<D>(k.body, LoopState { buffers, env: Map::empty() }) {
            Err(e) => Err(e),
            Ok(after) => if k.outputs.len() != k.output_shapes.len() {
                Err(LoopErrorView::Internal("kernel output shape metadata length mismatch"@))
            } else {
                collect(
                    Seq::new(
                        k.outputs.len(),
                        |i: int|
                            output_tensor(k, after.buffers, k.outputs[i], k.output_shapes[i]),
                    ),
                )
            },
        },
    }
}

/// What the buffers stand for.
pub open spec fn buffer_values<D: Domain>(buffers: Seq<Vec<D::Elem>>) -> Seq<Seq<D::V>> {
    buffers.map_values(|b: Vec<D::Elem>| b@.map_values(|e: D::Elem| D::value(e)))
}

/// Assignments and loops leave the number of buffers and their sizes alone.
pub open spec fn same_sizes<V>(a: Seq<Seq<V>>, b: Seq<Seq<V>>) -> bool {
    &&& a.len() == b.len()
    &&& forall|i: int| 0 <= i < a.len() ==> (#[trigger] a[i]).len() == b[i].len()
}

/// No statement changes the number of buffers or their sizes.
pub proof fn running_keeps_sizes<D: Domain>(s: StmtView, st: LoopState<D::V>)
    requires
        run_stmt::<D>(s, st) is Ok,
    ensures
        same_sizes(run_stmt::<D>(s, st)->Ok_0.buffers, st.buffers),
    decreases s, 0nat, 0int,
{
    match s {
        StmtView::Assign { target, value } => {},
        StmtView::For { var, lo, hi, body } => {
            lemma_for_sizes::<D>(
                var,
                body,
                lo.value(st.env) as int,
                hi.value(st.env) as int,
                st,
            );
        },
    }
}

proof fn lemma_for_sizes<D: Domain>(
    var: LoopVar,
    body: Seq<StmtView>,
    lo: int,
    hi: int,
    st: LoopState<D::V>,
)
    requires
        run_for::<D>(var, body, lo, hi, st) is Ok,
    ensures
        same_sizes(run_for::<D>(var, body, lo, hi, st)->Ok_0.buffers, st.buffers),
    decreases body, 1nat, hi - lo,
{
    if hi > lo {
        lemma_for_sizes::<D>(var, body, lo, hi - 1, st);
        let before = run_for::<D>(var, body, lo, hi - 1, st)->Ok_0;
        lemma_stmts_sizes::<D>(body, bind(before, var, (hi - 1) as i64));
    }
}

/// No sequence of statements changes the number of buffers or their sizes.
pub proof fn lemma_stmts_sizes<D: Domain>(body: Seq<StmtView>, st: LoopState<D::V>)
    requires
        run_stmts::<D>(body, st) is Ok,
    ensures
        same_sizes(run_stmts::<D>(body, st)->Ok_0.buffers, st.buffers),
    decreases body, 0nat, body.len() as int,
{
    if body.len() > 0 {
        lemma_stmts_sizes::<D>(body.drop_last(), st);
        let before = run_stmts::<D>(body.drop_last(), st)->Ok_0;
        running_keeps_sizes::<D>(body.last(), before);
    }
}

fn loop_error_from_eval(error: EvalError) -> (r: LoopError)
    ensures
        r@ == from_eval(error@),
{
    match error {
        EvalError::MissingInput(name) => LoopError::MissingInput(name),
        EvalError::InputShapeMismatch { name, expected, got } => LoopError::InputShapeMismatch {
            name,
            expected,
            got,
        },
        EvalError::UnsupportedDtype { dtype } => LoopError::UnsupportedDtype { dtype },
        EvalError::NonFiniteFloat => LoopError::NonFiniteFloat,
        EvalError::DataShapeMismatch { expected, got } => LoopError::Internal(
            String::from_str("tensor data length mismatch: expected ")
                .concat(index_text(expected).as_str())
                .concat(", got ")
                .concat(index_text(got).as_str()),
        ),
        EvalError::Type(error) => LoopError::Internal(error.to_text()),
        EvalError::Internal(message) => LoopError::Internal(message),
    }
}

fn allocate_buffer<D: Domain>(buffer: &Buffer, inputs: &Bindings<DenseTensor<D::Elem>>) -> (r: Result<
    Vec<D::Elem>,
    LoopError,
>)
    ensures
        match r {
            Ok(data) => initial::<D>(buffer@, bound::<D>(*inputs)) == Ok::<
                Seq<D::V>,
                LoopErrorView,
            >(data@.map_values(|e: D::Elem| D::value(e))),
            Err(e) => initial::<D>(buffer@, bound::<D>(*inputs)) == Err::<Seq<D::V>, LoopErrorView>(
                e@,
            ),
        },
{
    match &buffer.role {
        BufferRole::Input(name) => match inputs.get(name.as_str()) {
            None => Err(LoopError::MissingInput(name.clone())),
            Some(input) => {
                if !input.shape.same(&buffer.shape) {
                    return Err(
                        LoopError::InputShapeMismatch {
                            name: name.clone(),
                            expected: buffer.shape.clone(),
                            got: input.shape.clone(),
                        },
                    );
                }
                Ok(copy_all::<D>(&input.data))
            }
        },
        BufferRole::Const(data) => {
            match data_problem(data) {
                Some(e) => {
                    return Err(loop_error_from_eval(e));
                }
                None => {}
            }
            match DenseTensor::new(buffer.shape.clone(), lift::<D>(data)) {
                Ok(t) => Ok(t.data),
                Err(e) => Err(loop_error_from_eval(e)),
            }
        }
        BufferRole::Temp | BufferRole::Output => {
            let count: usize = match buffer.shape.numel() {
                Ok(count) => count,
                Err(_) => {
                    return Err(
                        LoopError::Internal(String::from_str("shape element count overflow")),
                    );
                }
            };
            proof {
                crate::shape::lemma_numel_fits_prefix(buffer@.shape, 0);
            }
            let mut data: Vec<D::Elem> = Vec::new();
            let mut i: usize = 0;
            while i < count
                invariant
                    i <= count,
                    data@.len() == i,
                    forall|j: int| 0 <= j < i ==> D::value(#[trigger] data@[j]) == D::zero_value(),
                decreases count - i,
            {
                data.push(D::zero());
                i += 1;
            }
            proof {
                assert(data@.map_values(|e: D::Elem| D::value(e)) =~= Seq::new(
                    numel(buffer@.shape),
                    |i: int| D::zero_value(),
                ));
            }
            Ok(data)
        }
    }
}

fn allocate_buffers<D: Domain>(kernel: &Kernel, inputs: &Bindings<DenseTensor<D::Elem>>) -> (r:
    Result<Vec<Vec<D::Elem>>, LoopError>)
    ensures
        match r {
            Ok(buffers) => allocated::<D>(kernel@.buffers, bound::<D>(*inputs)) == Ok::<
                Seq<Seq<D::V>>,
                LoopErrorView,
            >(buffer_values::<D>(buffers@)) && buffers@.len() == kernel@.buffers.len(),
            Err(e) => allocated::<D>(kernel@.buffers, bound::<D>(*inputs)) == Err::<
                Seq<Seq<D::V>>,
                LoopErrorView,
            >(e@),
        },
{
    let ghost given = bound::<D>(*inputs);
    let ghost results = kernel@.buffers.map_values(|b: BufferView| initial::<D>(b, given));
    let mut buffers: Vec<Vec<D::Elem>> = Vec::new();
    proof {
        assert(buffer_values::<D>(buffers@) =~= Seq::empty());
        assert(results.take(0) =~= Seq::empty());
    }
    let mut i: usize = 0;
    while i < kernel.buffers.len()
        invariant
            i <= kernel@.buffers.len(),
            buffers@.len() == i,
            given == bound::<D>(*inputs),
            results == kernel@.buffers.map_values(|b: BufferView| initial::<D>(b, given)),
            collect(results.take(i as int)) == Ok::<Seq<Seq<D::V>>, LoopErrorView>(
                buffer_values::<D>(buffers@),
            ),
        decreases kernel@.buffers.len() - i,
    {
        proof {
            lemma_collect_step(results, i as int);
            assert(results[i as int] == initial::<D>(kernel.buffers@[i as int]@, given));
        }
        match allocate_buffer::<D>(&kernel.buffers[i], inputs) {
            Ok(data) => {
                let ghost before = buffers@;
                buffers.push(data);
                proof {
                    assert(buffer_values::<D>(buffers@) =~= buffer_values::<D>(before).push(
                        data@.map_values(|e: D::Elem| D::value(e)),
                    ));
                }
            }
            Err(e) => {
                proof {
                    lemma_collect_error(results, i as int + 1);
                }
                return Err(e);
            }
        }
        i += 1;
    }
    proof {
        assert(results.take(i as int) =~= results);
    }
    Ok(buffers)
}

fn checked_index<D: Domain>(
    reference: &BufferRef,
    buffers: &Vec<Vec<D::Elem>>,
    env: &HashMap<u32, i64>,
) -> (r: Result<usize, LoopError>)
    ensures
        ({
            let st = LoopState { buffers: buffer_values::<D>(buffers@), env: env@ };
            match r {
                Ok(i) => place(reference@, st) == Ok::<int, LoopErrorView>(i as int),
                Err(e) => place(reference@, st) == Err::<int, LoopErrorView>(e@),
            }
        }),
{
    let b: usize = reference.buffer.0 as usize;
    if b >= buffers.len() {
        return Err(
            LoopError::Internal(
                String::from_str("missing buffer ").concat(reference.buffer.to_text().as_str()),
            ),
        );
    }
    let index: i64 = reference.index.eval(env);
    let len: usize = buffers[b].len();
    if index < 0 || index as u64 >= len as u64 {
        return Err(
            LoopError::IndexOutOfBounds { buffer: reference.buffer, index, numel: len },
        );
    }
    Ok(index as usize)
}

fn eval_scalar<D: Domain>(
    expr: &ScalarExpr,
    buffers: &Vec<Vec<D::Elem>>,
    env: &HashMap<u32, i64>,
) -> (r: Result<D::Elem, LoopError>)
    ensures
        ({
            let st = LoopState { buffers: buffer_values::<D>(buffers@), env: env@ };
            match r {
                Ok(v) => scalar_value::<D>(expr@, st) == Ok::<D::V, LoopErrorView>(D::value(v)),
                Err(e) => scalar_value::<D>(expr@, st) == Err::<D::V, LoopErrorView>(e@),
            }
        }),
    decreases expr,
{
    match expr {
        ScalarExpr::Load(reference) => match checked_index::<D>(reference, buffers, env) {
            Ok(i) => Ok(D::copy(&buffers[reference.buffer.0 as usize][i])),
            Err(e) => Err(e),
        },
        ScalarExpr::ConstScalar(value) => match D::literal(value) {
            Some(v) => Ok(v),
            None => Err(
                LoopError::Internal(
                    String::from_str("rational scalar literal is not representable as f64"),
                ),
            ),
        },
        ScalarExpr::Add(left, right) => match eval_scalar::<D>(left, buffers, env) {
            Err(e) => Err(e),
            Ok(a) => match eval_scalar::<D>(right, buffers, env) {
                Err(e) => Err(e),
                Ok(b) => Ok(D::plus(&a, &b)),
            },
        },
        ScalarExpr::Sub(left, right) => match eval_scalar::<D>(left, buffers, env) {
            Err(e) => Err(e),
            Ok(a) => match eval_scalar::<D>(right, buffers, env) {
                Err(e) => Err(e),
                Ok(b) => Ok(D::minus(&a, &b)),
            },
        },
        ScalarExpr::Mul(left, right) => match eval_scalar::<D>(left, buffers, env) {
            Err(e) => Err(e),
            Ok(a) => match eval_scalar::<D>(right, buffers, env) {
                Err(e) => Err(e),
                Ok(b) => Ok(D::times(&a, &b)),
            },
        },
        ScalarExpr::Neg(input) => match eval_scalar::<D>(input, buffers, env) {
            Err(e) => Err(e),
            Ok(a) => Ok(D::neg(&a)),
        },
        ScalarExpr::Relu(input) => match eval_scalar::<D>(input, buffers, env) {
            Err(e) => Err(e),
            Ok(a) => Ok(D::relu(&a)),
        },
    }
}

fn store<D: Domain>(
    reference: &BufferRef,
    value: D::Elem,
    buffers: &mut Vec<Vec<D::Elem>>,
    env: &HashMap<u32, i64>,
) -> (r: Result<(), LoopError>)
    ensures
        ({
            let st = LoopState { buffers: buffer_values::<D>(old(buffers)@), env: env@ };
            match r {
                Ok(_) => stored(reference@, D::value(value), st) == Ok::<
                    LoopState<D::V>,
                    LoopErrorView,
                >(LoopState { buffers: buffer_values::<D>(final(buffers)@), env: env@ }),
                Err(e) => stored(reference@, D::value(value), st) == Err::<
                    LoopState<D::V>,
                    LoopErrorView,
                >(e@),
            }
        }),
{
    let ghost before = buffers@;
    let i: usize = match checked_index::<D>(reference, buffers, env) {
        Ok(i) => i,
        Err(e) => {
            return Err(e);
        }
    };
    let b: usize = reference.buffer.0 as usize;
    buffers[b].set(i, value);
    proof {
        let f = |e: D::Elem| D::value(e);
        let old_values = buffer_values::<D>(before);
        assert(buffers@[b as int]@ == before[b as int]@.update(i as int, value));
        assert(buffers@[b as int]@.map_values(f) =~= before[b as int]@.map_values(f).update(
            i as int,
            D::value(value),
        ));
        assert(buffer_values::<D>(buffers@) =~= old_values.update(
            b as int,
            old_values[b as int].update(i as int, D::value(value)),
        ));
    }
    Ok(())
}

fn exec_stmts<D: Domain>(
    stmts: &Vec<Stmt>,
    buffers: &mut Vec<Vec<D::Elem>>,
    env: &mut HashMap<u32, i64>,
) -> (r: Result<(), LoopError>)
    ensures
        ({
            let st = LoopState { buffers: buffer_values::<D>(old(buffers)@), env: old(env)@ };
            match r {
                Ok(_) => run_stmts::<D>(stmt_views(stmts@), st) == Ok::<
                    LoopState<D::V>,
                    LoopErrorView,
                >(LoopState { buffers: buffer_values::<D>(final(buffers)@), env: final(env)@ }),
                Err(e) => run_stmts::<D>(stmt_views(stmts@), st) == Err::<
                    LoopState<D::V>,
                    LoopErrorView,
                >(e@),
            }
        }),
    decreases stmts, 1nat,
{
    let ghost st = LoopState { buffers: buffer_values::<D>(buffers@), env: env@ };
    let ghost views = stmt_views(stmts@);
    proof {
        assert(views.take(0) =~= Seq::empty());
    }
    let mut i: usize = 0;
    while i < stmts.len()
        invariant
            i <= stmts@.len(),
            views == stmt_views(stmts@),
            st == (LoopState { buffers: buffer_values::<D>(old(buffers)@), env: old(env)@ }),
            run_stmts::<D>(views.take(i as int), st) == Ok::<LoopState<D::V>, LoopErrorView>(
                LoopState { buffers: buffer_values::<D>(buffers@), env: env@ },
            ),
        decreases stmts@.len() - i,
    {
        proof {
            assert(views.take(i as int + 1).drop_last() =~= views.take(i as int));
            assert(views.take(i as int + 1).last() == stmts@[i as int]@);
        }
        match exec_stmt::<D>(&stmts[i], buffers, env) {
            Ok(()) => {}
            Err(e) => {
                proof {
                    lemma_stmts_error::<D>(views, i as int + 1, st);
                }
                return Err(e);
            }
        }
        i += 1;
    }
    proof {
        assert(views.take(i as int) =~= views);
    }
    Ok(())
}

fn exec_for<D: Domain>(
    var: LoopVar,
    body: &Vec<Stmt>,
    lo: i64,
    hi: i64,
    buffers: &mut Vec<Vec<D::Elem>>,
    env: &mut HashMap<u32, i64>,
) -> (r: Result<(), LoopError>)
    ensures
        ({
            let st = LoopState { buffers: buffer_values::<D>(old(buffers)@), env: old(env)@ };
            match r {
                Ok(_) => run_for::<D>(var, stmt_views(body@), lo as int, hi as int, st) == Ok::<
                    LoopState<D::V>,
                    LoopErrorView,
                >(LoopState { buffers: buffer_values::<D>(final(buffers)@), env: final(env)@ }),
                Err(e) => run_for::<D>(var, stmt_views(body@), lo as int, hi as int, st) == Err::<
                    LoopState<D::V>,
                    LoopErrorView,
                >(e@),
            }
        }),
    decreases body, 2nat,
{
    let ghost st = LoopState { buffers: buffer_values::<D>(buffers@), env: env@ };
    let ghost views = stmt_views(body@);
    let mut value: i64 = lo;
    while value < hi
        invariant
            lo <= value,
            value <= hi || value == lo,
            views == stmt_views(body@),
            st == (LoopState { buffers: buffer_values::<D>(old(buffers)@), env: old(env)@ }),
            run_for::<D>(var, views, lo as int, value as int, st) == Ok::<
                LoopState<D::V>,
                LoopErrorView,
            >(LoopState { buffers: buffer_values::<D>(buffers@), env: env@ }),
        decreases hi - value,
    {
        broadcast use vstd::std_specs::hash::group_hash_axioms;

        env.insert(var.0, value);
        match exec_stmts::<D>(body, buffers, env) {
            Ok(()) => {}
            Err(e) => {
                proof {
                    lemma_for_error::<D>(var, views, lo as int, value + 1, hi as int, st);
                }
                return Err(e);
            }
        }
        value += 1;
    }
    Ok(())
}

fn exec_stmt<D: Domain>(
    stmt: &Stmt,
    buffers: &mut Vec<Vec<D::Elem>>,
    env: &mut HashMap<u32, i64>,
) -> (r: Result<(), LoopError>)
    ensures
        ({
            let st = LoopState { buffers: buffer_values::<D>(old(buffers)@), env: old(env)@ };
            match r {
                Ok(_) => run_stmt::<D>(stmt@, st) == Ok::<LoopState<D::V>, LoopErrorView>(
                    LoopState { buffers: buffer_values::<D>(final(buffers)@), env: final(env)@ },
                ),
                Err(e) => run_stmt::<D>(stmt@, st) == Err::<LoopState<D::V>, LoopErrorView>(e@),
            }
        }),
    decreases stmt, 0nat,
{
    broadcast use vstd::std_specs::hash::group_hash_axioms;

    let ghost st = LoopState { buffers: buffer_values::<D>(buffers@), env: env@ };
    match stmt {
        Stmt::For { var, lo, hi, body } => {
            proof {
                lemma_for_view(*var, *lo, *hi, *body);
            }
            let lo: i64 = lo.eval(env);
            let hi: i64 = hi.eval(env);
            match exec_for::<D>(*var, body, lo, hi, buffers, env) {
                Ok(()) => {}
                Err(e) => {
                    return Err(e);
                }
            }
            env.remove(&var.0);
            Ok(())
        }
        Stmt::Assign { target, value } => match eval_scalar::<D>(value, buffers, env) {
            Ok(v) => store::<D>(target, v, buffers, env),
            Err(e) => Err(e),
        },
    }
}

fn tensor_from_buffer<D: Domain>(
    kernel: &Kernel,
    buffers: &Vec<Vec<D::Elem>>,
    id: BufferId,
    shape: &Shape,
) -> (r: Result<DenseTensor<D::Elem>, LoopError>)
    requires
        buffers@.len() == kernel@.buffers.len(),
    ensures
        match r {
            Ok(t) => output_tensor(kernel@, buffer_values::<D>(buffers@), id, shape@) == Ok::<
                TensorView<D::V>,
                LoopErrorView,
            >(meaning::<D>(t@)),
            Err(e) => output_tensor(kernel@, buffer_values::<D>(buffers@), id, shape@) == Err::<
                TensorView<D::V>,
                LoopErrorView,
            >(e@),
        },
{
    let b: usize = id.0 as usize;
    if b >= kernel.buffers.len() {
        return Err(
            LoopError::Internal(
                String::from_str("missing output buffer ").concat(id.to_text().as_str()),
            ),
        );
    }
    match DenseTensor::new(shape.clone(), copy_all::<D>(&buffers[b])) {
        Ok(t) => Ok(t),
        Err(e) => Err(loop_error_from_eval(e)),
    }
}

/// Evaluates an affine loop kernel over the scalars of a domain.
///
/// Statements run in the order written, loops ascend over their bounds, and
/// every assignment stores immediately. Every load and store checks its
/// index.
///
/// # Errors
///
/// Returns [`LoopError`] for missing or mismatched inputs, unsupported
/// constants, accesses out of bounds, or an inconsistent kernel.
pub fn eval_loops_in<D: Domain>(kernel: &Kernel, inputs: &Bindings<DenseTensor<D::Elem>>) -> (r:
    Result<Vec<DenseTensor<D::Elem>>, LoopError>)
    ensures
        match r {
            Ok(outputs) => eval_kernel::<D>(kernel@, bound::<D>(*inputs)) == Ok::<
                Seq<TensorView<D::V>>,
                LoopErrorView,
            >(meanings::<D>(outputs@)),
            Err(e) => eval_kernel::<D>(kernel@, bound::<D>(*inputs)) == Err::<
                Seq<TensorView<D::V>>,
                LoopErrorView,
            >(e@),
        },
{
    broadcast use vstd::std_specs::hash::group_hash_axioms;

    let mut buffers = match allocate_buffers::<D>(kernel, inputs) {
        Ok(buffers) => buffers,
        Err(e) => {
            return Err(e);
        }
    };
    let ghost start = LoopState { buffers: buffer_values::<D>(buffers@), env: Map::empty() };
    let mut env: HashMap<u32, i64> = HashMap::new();
    match exec_stmts::<D>(&kernel.body, &mut buffers, &mut env) {
        Ok(()) => {}
        Err(e) => {
            return Err(e);
        }
    }
    proof {
        lemma_stmts_sizes::<D>(kernel@.body, start);
    }
    if kernel.outputs.len() != kernel.output_shapes.len() {
        return Err(
            LoopError::Internal(String::from_str("kernel output shape metadata length mismatch")),
        );
    }
    let ghost values = buffer_values::<D>(buffers@);
    let ghost results = Seq::new(
        kernel@.outputs.len(),
        |i: int| output_tensor(kernel@, values, kernel@.outputs[i], kernel@.output_shapes[i]),
    );
    let mut outputs: Vec<DenseTensor<D::Elem>> = Vec::new();
    proof {
        assert(meanings::<D>(outputs@) =~= Seq::empty());
        assert(results.take(0) =~= Seq::empty());
    }
    let mut i: usize = 0;
    while i < kernel.outputs.len()
        invariant
            i <= kernel@.outputs.len(),
            kernel@.outputs.len() == kernel@.output_shapes.len(),
            buffers@.len() == kernel@.buffers.len(),
            values == buffer_values::<D>(buffers@),
            eval_kernel::<D>(kernel@, bound::<D>(*inputs)) == collect(results),
            results == Seq::new(
                kernel@.outputs.len(),
                |i: int|
                    output_tensor(kernel@, values, kernel@.outputs[i], kernel@.output_shapes[i]),
            ),
            collect(results.take(i as int)) == Ok::<Seq<TensorView<D::V>>, LoopErrorView>(
                meanings::<D>(outputs@),
            ),
        decreases kernel@.outputs.len() - i,
    {
        proof {
            lemma_collect_step(results, i as int);
        }
        match tensor_from_buffer::<D>(
            kernel,
            &buffers,
            kernel.outputs[i],
            &kernel.output_shapes[i],
        ) {
            Ok(t) => {
                let ghost before = outputs@;
                outputs.push(t);
                proof {
                    assert(meanings::<D>(outputs@) =~= meanings::<D>(before).push(
                        meaning::<D>(t@),
                    ));
                }
            }
            Err(e) => {
                proof {
                    lemma_collect_error(results, i as int + 1);
                }
                return Err(e);
            }
        }
        i += 1;
    }
    proof {
        assert(results.take(i as int) =~= results);
    }
    Ok(outputs)
}

/// Evaluates an affine loop kernel over exact rationals.
///
/// # Errors
///
/// Returns [`LoopError`] as [`eval_loops_in`] does.
pub fn eval_loops(kernel: &Kernel, inputs: &Bindings<Tensor>) -> (r: Result<
    Vec<Tensor>,
    LoopError,
>)
    ensures
        match r {
            Ok(outputs) => eval_kernel::<Exact>(kernel@, bound::<Exact>(*inputs)) == Ok::<
                Seq<TensorView<real>>,
                LoopErrorView,
            >(meanings::<Exact>(outputs@)),
            Err(e) => eval_kernel::<Exact>(kernel@, bound::<Exact>(*inputs)) == Err::<
                Seq<TensorView<real>>,
                LoopErrorView,
            >(e@),
        },
{
    eval_loops_in::<Exact>(kernel, inputs)
}

/// Evaluates an affine loop kernel over IEEE doubles, with the arithmetic of the domain `D`.
///
/// # Errors
///
/// Returns [`LoopError`] as [`eval_loops_in`] does.
pub fn eval_loops_f64<D: Domain<Elem = u64>>(kernel: &Kernel, inputs: &Bindings<TensorF64>) -> (r:
    Result<Vec<TensorF64>, LoopError>)
    ensures
        match r {
            Ok(outputs) => eval_kernel::<D>(kernel@, bound::<D>(*inputs)) == Ok::<
                Seq<TensorView<D::V>>,
                LoopErrorView,
            >(meanings::<D>(outputs@)),
            Err(e) => eval_kernel::<D>(kernel@, bound::<D>(*inputs)) == Err::<
                Seq<TensorView<D::V>>,
                LoopErrorView,
            >(e@),
        },
{
    eval_loops_in::<D>(kernel, inputs)
}

} // verus!

//! Graph evaluation.
use vstd::prelude::*;

use crate::bindings::Bindings;
use crate::domain::{Domain, Exact};
use crate::dtype::DType;
use crate::graph::{well_formed, Graph, GraphView};
use crate::index::sum_place;
use crate::infer::{infer_graph, infer_types, node_type, reduced_shape, TypeError, TypeErrorView};
use crate::op::{NodeId, Op, OpView};
use crate::shape::{numel, numel_fits, shape_text, Dim, Shape};
use crate::tensor::{
    copy_all, copy_tensor, data_error, data_problem, lift, lifted, meaning, DenseTensor, Tensor,
    TensorF64, TensorView,
};
use crate::tensor_type::TypeView;
use crate::text::{decimal, index_text, quoted, quoted_text};

verus! {

/// Errors produced by graph evaluation.
#[allow(inconsistent_fields)]
#[derive(Debug, Clone, PartialEq)]
pub enum EvalError {
    /// Type inference rejected the graph before evaluation.
    Type(TypeError),
    /// A required named input was not supplied.
    MissingInput(String),
    /// A supplied input shape differs from the declared graph input shape.
    InputShapeMismatch {
        /// Input name.
        name: String,
        /// Declared shape.
        expected: Shape,
        /// Supplied tensor shape.
        got: Shape,
    },
    /// Evaluation is not defined for this dtype.
    UnsupportedDtype {
        /// Unsupported dtype.
        dtype: DType,
    },
    /// A floating-point literal was NaN or infinity.
    NonFiniteFloat,
    /// Tensor data length does not match its shape.
    DataShapeMismatch {
        /// Expected element count from the shape.
        expected: usize,
        /// Actual data element count.
        got: usize,
    },
    /// An element count overflowed.
    Internal(String),
}

/// The contents of an [`EvalError`].
#[allow(inconsistent_fields)]
pub enum EvalErrorView {
    Type(TypeErrorView),
    MissingInput(Seq<char>),
    InputShapeMismatch { name: Seq<char>, expected: Seq<nat>, got: Seq<nat> },
    UnsupportedDtype { dtype: DType },
    NonFiniteFloat,
    DataShapeMismatch { expected: usize, got: usize },
    Internal(Seq<char>),
}

impl View for EvalError {
    type V = EvalErrorView;

    open spec fn view(&self) -> EvalErrorView {
        match *self {
            EvalError::Type(e) => EvalErrorView::Type(e@),
            EvalError::MissingInput(name) => EvalErrorView::MissingInput(name@),
            EvalError::InputShapeMismatch { name, expected, got } =>
                EvalErrorView::InputShapeMismatch { name: name@, expected: expected@, got: got@ },
            EvalError::UnsupportedDtype { dtype } => EvalErrorView::UnsupportedDtype { dtype },
            EvalError::NonFiniteFloat => EvalErrorView::NonFiniteFloat,
            EvalError::DataShapeMismatch { expected, got } => EvalErrorView::DataShapeMismatch {
                expected,
                got,
            },
            EvalError::Internal(message) => EvalErrorView::Internal(message@),
        }
    }
}

impl EvalErrorView {
    /// The message of this error.
    pub open spec fn text(self) -> Seq<char> {
        match self {
            EvalErrorView::Type(e) => e.text(),
            EvalErrorView::MissingInput(name) => "missing input "@ + quoted_text(name),
            EvalErrorView::InputShapeMismatch { name, expected, got } => "input "@ + quoted_text(
                name,
            ) + " shape mismatch: expected "@ + shape_text(expected) + ", got "@ + shape_text(got),
            EvalErrorView::UnsupportedDtype { dtype } => "unsupported dtype "@ + dtype.text(),
            EvalErrorView::NonFiniteFloat => "non-finite floating-point value"@,
            EvalErrorView::DataShapeMismatch { expected, got } =>
                "tensor data length mismatch: expected "@ + decimal(expected as nat) + ", got "@
                + decimal(got as nat),
            EvalErrorView::Internal(message) => "internal interpreter error: "@ + message,
        }
    }
}

impl EvalError {
    /// Renders the message of this error.
    pub fn to_text(&self) -> (r: String)
        ensures
            r@ == self@.text(),
    {
        match self {
            EvalError::Type(e) => e.to_text(),
            EvalError::MissingInput(name) => String::from_str("missing input ").concat(
                quoted(name.as_str()).as_str(),
            ),
            EvalError::InputShapeMismatch { name, expected, got } => String::from_str("input ")
                .concat(quoted(name.as_str()).as_str())
                .concat(" shape mismatch: expected ")
                .concat(expected.to_text().as_str())
                .concat(", got ")
                .concat(got.to_text().as_str()),
            EvalError::UnsupportedDtype { dtype } => String::from_str("unsupported dtype ").concat(
                dtype.to_text(),
            ),
            EvalError::NonFiniteFloat => String::from_str("non-finite floating-point value"),
            EvalError::DataShapeMismatch { expected, got } => String::from_str(
                "tensor data length mismatch: expected ",
            )
                .concat(index_text(*expected).as_str())
                .concat(", got ")
                .concat(index_text(*got).as_str()),
            EvalError::Internal(message) => String::from_str("internal interpreter error: ").concat(
                message.as_str(),
            ),
        }
    }
}

/// The error of an element count beyond `usize`.
pub open spec fn overflow() -> EvalErrorView {
    EvalErrorView::Internal("shape element count overflow"@)
}

/// The tensors bound to names, by what they stand for.
pub open spec fn bound<D: Domain>(inputs: Bindings<DenseTensor<D::Elem>>) -> Map<
    Seq<char>,
    TensorView<D::V>,
> {
    Map::new(
        |name: Seq<char>| inputs.lookup(name) is Some,
        |name: Seq<char>| meaning::<D>(inputs.lookup(name)->Some_0@),
    )
}

/// Why an input has no value: it is missing, of another shape, or boolean.
pub open spec fn input_problem<V>(
    name: Seq<char>,
    ty: TypeView,
    inputs: Map<Seq<char>, TensorView<V>>,
) -> Option<EvalErrorView> {
    if !inputs.dom().contains(name) {
        Some(EvalErrorView::MissingInput(name))
    } else if inputs[name].shape != ty.shape {
        Some(
            EvalErrorView::InputShapeMismatch {
                name,
                expected: ty.shape,
                got: inputs[name].shape,
            },
        )
    } else if ty.dtype == DType::Bool {
        Some(EvalErrorView::UnsupportedDtype { dtype: DType::Bool })
    } else {
        None
    }
}

/// Why a leaf has no value. Other nodes have no such reason.
pub open spec fn leaf_error<V>(op: OpView, inputs: Map<Seq<char>, TensorView<V>>) -> Option<
    EvalErrorView,
> {
    match op {
        OpView::Input { name, ty } => input_problem(name, ty, inputs),
        OpView::Const { data, shape } => data_error(data),
        _ => None,
    }
}

pub open spec fn leaf_errors<V>(nodes: Seq<OpView>, inputs: Map<Seq<char>, TensorView<V>>) -> Seq<
    Option<EvalErrorView>,
> {
    nodes.map_values(|op: OpView| leaf_error(op, inputs))
}

/// The dot product of a row of `l` and a column of `r`, accumulated from zero over the first `k`
/// places in ascending order. The matrices have `width` and `n` columns.
pub open spec fn dot<D: Domain>(
    l: Seq<D::V>,
    r: Seq<D::V>,
    width: nat,
    n: nat,
    row: nat,
    col: nat,
    k: nat,
) -> D::V
    decreases k,
{
    if k == 0 {
        D::zero_value()
    } else {
        let p = (k - 1) as nat;
        D::plus_value(
            dot::<D>(l, r, width, n, row, col, p),
            D::times_value(l[(row * width + p) as int], r[(p * n + col) as int]),
        )
    }
}

/// The elements among the first `n` that are added at `place`, summed from zero in ascending
/// order.
pub open spec fn sum_at<D: Domain>(
    data: Seq<D::V>,
    shape: Seq<nat>,
    axes: Seq<usize>,
    keepdim: bool,
    place: nat,
    n: nat,
) -> D::V
    decreases n,
{
    if n == 0 {
        D::zero_value()
    } else {
        let before = sum_at::<D>(data, shape, axes, keepdim, place, (n - 1) as nat);
        if sum_place((n - 1) as nat, shape, axes, keepdim) == place {
            D::plus_value(before, data[n - 1])
        } else {
            before
        }
    }
}

/// Elementwise operations on two tensors.
#[derive(Debug, Clone, Copy, PartialEq, Eq, Structural)]
pub enum BinaryOp {
    Add,
    Sub,
    Mul,
}

/// Elementwise operations on one tensor.
#[derive(Debug, Clone, Copy, PartialEq, Eq, Structural)]
pub enum UnaryOp {
    Neg,
    Relu,
}

/// The result of a binary operation on two scalars.
pub open spec fn binary_value<D: Domain>(op: BinaryOp, a: D::V, b: D::V) -> D::V {
    match op {
        BinaryOp::Add => D::plus_value(a, b),
        BinaryOp::Sub => D::minus_value(a, b),
        BinaryOp::Mul => D::times_value(a, b),
    }
}

/// The result of a unary operation on a scalar.
pub open spec fn unary_value<D: Domain>(op: UnaryOp, a: D::V) -> D::V {
    match op {
        UnaryOp::Neg => D::neg_value(a),
        UnaryOp::Relu => D::relu_value(a),
    }
}

/// A unary operation on each element.
pub open spec fn map1<D: Domain>(op: UnaryOp, x: TensorView<D::V>) -> TensorView<D::V> {
    TensorView { shape: x.shape, data: x.data.map_values(|a: D::V| unary_value::<D>(op, a)) }
}

/// A binary operation on each pair of elements.
pub open spec fn map2<D: Domain>(
    op: BinaryOp,
    l: TensorView<D::V>,
    r: TensorView<D::V>,
) -> TensorView<D::V> {
    TensorView {
        shape: l.shape,
        data: Seq::new(l.data.len(), |i: int| binary_value::<D>(op, l.data[i], r.data[i])),
    }
}

/// The element of the matrix product at a row-major place.
pub open spec fn product_at<D: Domain>(l: TensorView<D::V>, r: TensorView<D::V>, i: nat) -> D::V {
    let k = l.shape[1];
    let n = r.shape[1];
    dot::<D>(l.data, r.data, k, n, i / n, i % n, k)
}

/// The matrix product.
pub open spec fn matmul_value<D: Domain>(l: TensorView<D::V>, r: TensorView<D::V>) -> Result<
    TensorView<D::V>,
    EvalErrorView,
> {
    let shape = seq![l.shape[0], r.shape[1]];
    if !numel_fits(shape) {
        Err(overflow())
    } else {
        Ok(
            TensorView {
                shape,
                data: Seq::new(numel(shape), |i: int| product_at::<D>(l, r, i as nat)),
            },
        )
    }
}

/// The sum over the listed axes.
pub open spec fn sum_value<D: Domain>(x: TensorView<D::V>, axes: Seq<usize>, keepdim: bool) -> Result<
    TensorView<D::V>,
    EvalErrorView,
> {
    let shape = reduced_shape(x.shape, axes, keepdim);
    if !numel_fits(shape) {
        Err(overflow())
    } else {
        Ok(
            TensorView {
                shape,
                data: Seq::new(
                    numel(shape),
                    |i: int|
                        sum_at::<D>(x.data, x.shape, axes, keepdim, i as nat, x.data.len()),
                ),
            },
        )
    }
}

/// The value of a node over the values of the nodes before it.
pub open spec fn node_value<D: Domain>(
    op: OpView,
    inputs: Map<Seq<char>, TensorView<D::V>>,
    values: Seq<TensorView<D::V>>,
) -> Result<TensorView<D::V>, EvalErrorView> {
    match op {
        OpView::Input { name, ty } => match leaf_error(op, inputs) {
            Some(e) => Err(e),
            None => Ok(inputs[name]),
        },
        OpView::Const { data, shape } => match leaf_error(op, inputs) {
            Some(e) => Err(e),
            None => Ok(TensorView { shape, data: lifted::<D>(data) }),
        },
        OpView::Add(l, r) => Ok(
            map2::<D>(BinaryOp::Add, values[l.0 as int], values[r.0 as int]),
        ),
        OpView::Sub(l, r) => Ok(
            map2::<D>(BinaryOp::Sub, values[l.0 as int], values[r.0 as int]),
        ),
        OpView::Mul(l, r) => Ok(
            map2::<D>(BinaryOp::Mul, values[l.0 as int], values[r.0 as int]),
        ),
        OpView::Neg(x) => Ok(map1::<D>(UnaryOp::Neg, values[x.0 as int])),
        OpView::Relu(x) => Ok(map1::<D>(UnaryOp::Relu, values[x.0 as int])),
        OpView::Matmul(l, r) => matmul_value::<D>(values[l.0 as int], values[r.0 as int]),
        OpView::Sum { input, axes, keepdim } => sum_value::<D>(
            values[input.0 as int],
            axes,
            keepdim,
        ),
        OpView::Reshape { input, new_shape } => Ok(
            TensorView { shape: new_shape, data: values[input.0 as int].data },
        ),
    }
}

/// The values of the first `n` nodes, or the first failure among them.
pub open spec fn eval_nodes<D: Domain>(
    nodes: Seq<OpView>,
    inputs: Map<Seq<char>, TensorView<D::V>>,
    n: nat,
) -> Result<Seq<TensorView<D::V>>, EvalErrorView>
    decreases n,
{
    if n == 0 {
        Ok(Seq::empty())
    } else {
        match eval_nodes::<D>(nodes, inputs, (n - 1) as nat) {
            Err(e) => Err(e),
            Ok(values) => match node_value::<D>(nodes[n - 1], inputs, values) {
                Err(e) => Err(e),
                Ok(v) => Ok(values.push(v)),
            },
        }
    }
}

/// The outputs of a graph over named inputs.
///
/// A type error comes first, then the first leaf without a value, then an element count beyond
/// `usize`.
pub open spec fn eval_graph<D: Domain>(
    g: GraphView,
    inputs: Map<Seq<char>, TensorView<D::V>>,
) -> Result<Seq<TensorView<D::V>>, EvalErrorView> {
    match infer_graph(g) {
        Err(e) => Err(EvalErrorView::Type(e)),
        Ok(_) => match crate::seqs::first_some(leaf_errors(g.nodes, inputs)) {
            Some(e) => Err(e),
            None => match eval_nodes::<D>(g.nodes, inputs, g.nodes.len()) {
                Err(e) => Err(e),
                Ok(values) => Ok(g.outputs.map_values(|id: NodeId| values[id.0 as int])),
            },
        },
    }
}

/// The contents of the tensors.
pub open spec fn meanings<D: Domain>(ts: Seq<DenseTensor<D::Elem>>) -> Seq<TensorView<D::V>> {
    ts.map_values(|t: DenseTensor<D::Elem>| meaning::<D>(t@))
}

/// A failure among the first nodes is the failure of the whole.
pub proof fn lemma_eval_error<D: Domain>(
    nodes: Seq<OpView>,
    inputs: Map<Seq<char>, TensorView<D::V>>,
    m: nat,
    n: nat,
)
    requires
        m <= n,
        eval_nodes::<D>(nodes, inputs, m) is Err,
    ensures
        eval_nodes::<D>(nodes, inputs, n) == eval_nodes::<D>(nodes, inputs, m),
    decreases n,
{
    if m < n {
        lemma_eval_error::<D>(nodes, inputs, m, (n - 1) as nat);
    }
}

/// Evaluates a graph over the scalars of a domain.
///
/// # Errors
///
/// Returns [`EvalError`] if the graph is ill-typed, required inputs are absent,
/// input tensors do not match declarations, unsupported dtypes appear, a
/// constant is not finite, or an element count overflows.
pub fn eval_in<D: Domain>(graph: &Graph, inputs: &Bindings<DenseTensor<D::Elem>>) -> (r: Result<
    Vec<DenseTensor<D::Elem>>,
    EvalError,
>)
    ensures
        match r {
            Ok(outputs) => eval_graph::<D>(graph@, bound::<D>(*inputs)) == Ok::<
                Seq<TensorView<D::V>>,
                EvalErrorView,
            >(meanings::<D>(outputs@)),
            Err(e) => eval_graph::<D>(graph@, bound::<D>(*inputs)) == Err::<
                Seq<TensorView<D::V>>,
                EvalErrorView,
            >(e@),
        },
{
    let types = match infer_types(graph) {
        Ok(types) => types,
        Err(e) => {
            return Err(EvalError::Type(e));
        }
    };
    let ghost nodes = graph@.nodes;
    let ghost given = bound::<D>(*inputs);
    let n: usize = graph.nodes.len();
    let mut i: usize = 0;
    while i < n
        invariant
            i <= n,
            n == nodes.len(),
            nodes == graph@.nodes,
            given == bound::<D>(*inputs),
            infer_graph(graph@) is Ok,
            forall|j: int| 0 <= j < i ==> leaf_errors(nodes, given)[j] is None,
        decreases n - i,
    {
        assert(nodes[i as int] == graph.nodes@[i as int].op@);
        match leaf_problem::<D>(&graph.nodes[i].op, inputs) {
            Some(e) => {
                proof {
                    crate::seqs::lemma_first_some_at(leaf_errors(nodes, given), i as int);
                }
                return Err(e);
            }
            None => {}
        }
        i += 1;
    }
    proof {
        crate::seqs::lemma_first_some_none(leaf_errors(nodes, given));
        crate::infer::lemma_infer_prefix(nodes, nodes.len());
    }
    let mut values: Vec<DenseTensor<D::Elem>> = Vec::new();
    proof {
        assert(meanings::<D>(values@) =~= Seq::empty());
    }
    let mut i: usize = 0;
    while i < n
        invariant
            i <= n,
            n == nodes.len(),
            nodes == graph@.nodes,
            given == bound::<D>(*inputs),
            well_formed(graph@),
            infer_graph(graph@) is Ok,
            types@.len() == n,
            crate::seqs::first_some(leaf_errors(nodes, given)) is None,
            forall|j: int| 0 <= j < n ==> leaf_errors(nodes, given)[j] is None,
            forall|j: int|
                0 <= j < n ==> node_type(#[trigger] nodes[j], types@.take(j)) == Ok::<
                    TypeView,
                    TypeErrorView,
                >(types@[j]),
            values@.len() == i,
            eval_nodes::<D>(nodes, given, i as nat) == Ok::<
                Seq<TensorView<D::V>>,
                EvalErrorView,
            >(meanings::<D>(values@)),
            forall|j: int| 0 <= j < i ==> (#[trigger] values@[j])@.shape == types@[j].shape,
        decreases n - i,
    {
        assert(nodes[i as int] == graph.nodes@[i as int].op@);
        proof {
            assert(leaf_errors(nodes, given)[i as int] is None);
            assert(node_type(nodes[i as int], types@.take(i as int)) is Ok);
            assert forall|k: int| 0 <= k < nodes[i as int].operands().len() implies (
            #[trigger] nodes[i as int].operands()[k]).0 < i by {
                assert(crate::graph::ordered(nodes));
            }
        }
        match eval_node::<D>(&graph.nodes[i].op, inputs, &values, Ghost(types@.take(i as int))) {
            Ok(value) => {
                let ghost before = values@;
                proof {
                    assert(meaning::<D>(value@).shape == types@[i as int].shape);
                }
                values.push(value);
                proof {
                    assert(meanings::<D>(values@) =~= meanings::<D>(before).push(
                        meaning::<D>(value@),
                    ));
                }
            }
            Err(e) => {
                proof {
                    lemma_eval_error::<D>(nodes, given, (i + 1) as nat, nodes.len());
                }
                return Err(e);
            }
        }
        i += 1;
    }
    let mut outputs: Vec<DenseTensor<D::Elem>> = Vec::new();
    let mut k: usize = 0;
    while k < graph.outputs.len()
        invariant
            k <= graph@.outputs.len(),
            well_formed(graph@),
            values@.len() == graph@.nodes.len(),
            outputs@.len() == k,
            forall|j: int|
                0 <= j < k ==> meaning::<D>((#[trigger] outputs@[j])@) == meaning::<D>(
                    values@[graph@.outputs[j].0 as int]@,
                ),
        decreases graph@.outputs.len() - k,
    {
        assert(graph@.outputs[k as int].0 < graph@.nodes.len());
        outputs.push(copy_tensor::<D>(&values[graph.outputs[k].0]));
        k += 1;
    }
    proof {
        let all = meanings::<D>(values@);
        assert forall|j: int| 0 <= j < outputs@.len() implies #[trigger] meanings::<D>(
            outputs@,
        )[j] == all[graph@.outputs[j].0 as int] by {
            assert(graph@.outputs[j].0 < graph@.nodes.len());
        }
        assert(meanings::<D>(outputs@) =~= graph@.outputs.map_values(
            |id: NodeId| all[id.0 as int],
        ));
    }
    Ok(outputs)
}

/// Evaluates a graph over exact rationals.
///
/// # Errors
///
/// Returns [`EvalError`] as [`eval_in`] does.
pub fn eval(graph: &Graph, inputs: &Bindings<Tensor>) -> (r: Result<Vec<Tensor>, EvalError>)
    ensures
        match r {
            Ok(outputs) => eval_graph::<Exact>(graph@, bound::<Exact>(*inputs)) == Ok::<
                Seq<TensorView<real>>,
                EvalErrorView,
            >(meanings::<Exact>(outputs@)),
            Err(e) => eval_graph::<Exact>(graph@, bound::<Exact>(*inputs)) == Err::<
                Seq<TensorView<real>>,
                EvalErrorView,
            >(e@),
        },
{
    eval_in::<Exact>(graph, inputs)
}

/// Evaluates a graph over IEEE doubles, with the arithmetic of the domain `D`.
///
/// Matrix products accumulate in ascending order for each output element.
/// Sums visit the input in ascending row-major order.
///
/// # Errors
///
/// Returns [`EvalError`] as [`eval_in`] does.
pub fn eval_f64<D: Domain<Elem = u64>>(graph: &Graph, inputs: &Bindings<TensorF64>) -> (r: Result<
    Vec<TensorF64>,
    EvalError,
>)
    ensures
        match r {
            Ok(outputs) => eval_graph::<D>(graph@, bound::<D>(*inputs)) == Ok::<
                Seq<TensorView<D::V>>,
                EvalErrorView,
            >(meanings::<D>(outputs@)),
            Err(e) => eval_graph::<D>(graph@, bound::<D>(*inputs)) == Err::<
                Seq<TensorView<D::V>>,
                EvalErrorView,
            >(e@),
        },
{
    eval_in::<D>(graph, inputs)
}

/// Finds why a leaf has no value.
fn leaf_problem<D: Domain>(op: &Op, inputs: &Bindings<DenseTensor<D::Elem>>) -> (r: Option<
    EvalError,
>)
    ensures
        match r {
            Some(e) => leaf_error(op@, bound::<D>(*inputs)) == Some(e@),
            None => leaf_error(op@, bound::<D>(*inputs)) is None,
        },
{
    match op {
        Op::Input { name, ty } => match inputs.get(name.as_str()) {
            None => Some(EvalError::MissingInput(name.clone())),
            Some(input) => {
                if !input.shape.same(&ty.shape) {
                    return Some(
                        EvalError::InputShapeMismatch {
                            name: name.clone(),
                            expected: ty.shape.clone(),
                            got: input.shape.clone(),
                        },
                    );
                }
                if ty.dtype == DType::Bool {
                    return Some(EvalError::UnsupportedDtype { dtype: DType::Bool });
                }
                None
            }
        },
        Op::Const { data, .. } => data_problem(data),
        _ => None,
    }
}

/// Evaluates one node of a well-typed graph.
fn eval_node<D: Domain>(
    op: &Op,
    inputs: &Bindings<DenseTensor<D::Elem>>,
    values: &Vec<DenseTensor<D::Elem>>,
    Ghost(types): Ghost<Seq<TypeView>>,
) -> (r: Result<DenseTensor<D::Elem>, EvalError>)
    requires
        types.len() == values@.len(),
        node_type(op@, types) is Ok,
        leaf_error(op@, bound::<D>(*inputs)) is None,
        forall|k: int|
            0 <= k < op@.operands().len() ==> (#[trigger] op@.operands()[k]).0 < values@.len(),
        forall|j: int| 0 <= j < values@.len() ==> (#[trigger] values@[j])@.shape == types[j].shape,
        match op@ {
            OpView::Const { data, shape } => numel_fits(shape) && data.len() == numel(shape),
            _ => true,
        },
    ensures
        match r {
            Ok(value) => node_value::<D>(op@, bound::<D>(*inputs), meanings::<D>(values@)) == Ok::<
                TensorView<D::V>,
                EvalErrorView,
            >(meaning::<D>(value@)) && value@.shape == node_type(op@, types)->Ok_0.shape,
            Err(e) => node_value::<D>(op@, bound::<D>(*inputs), meanings::<D>(values@)) == Err::<
                TensorView<D::V>,
                EvalErrorView,
            >(e@),
        },
{
    proof {
        let operands = op@.operands();
        if operands.len() > 0 {
            assert(operands[0].0 < values@.len());
        }
        if operands.len() > 1 {
            assert(operands[1].0 < values@.len());
        }
    }
    match op {
        Op::Input { name, .. } => match inputs.get(name.as_str()) {
            Some(input) => Ok(copy_tensor::<D>(input)),
            None => Err(EvalError::MissingInput(name.clone())),
        },
        Op::Const { data, shape } => Ok(
            DenseTensor { shape: shape.clone(), data: lift::<D>(data) },
        ),
        Op::Add(left, right) => Ok(
            elementwise_binary::<D>(BinaryOp::Add, &values[left.0], &values[right.0]),
        ),
        Op::Sub(left, right) => Ok(
            elementwise_binary::<D>(BinaryOp::Sub, &values[left.0], &values[right.0]),
        ),
        Op::Mul(left, right) => Ok(
            elementwise_binary::<D>(BinaryOp::Mul, &values[left.0], &values[right.0]),
        ),
        Op::Neg(input) => Ok(elementwise_unary::<D>(UnaryOp::Neg, &values[input.0])),
        Op::Relu(input) => Ok(elementwise_unary::<D>(UnaryOp::Relu, &values[input.0])),
        Op::Matmul(left, right) => eval_matmul::<D>(&values[left.0], &values[right.0]),
        Op::Sum { input, axes, keepdim } => eval_sum::<D>(&values[input.0], axes, *keepdim),
        Op::Reshape { input, new_shape } => Ok(eval_reshape::<D>(&values[input.0], new_shape)),
    }
}

fn elementwise_binary<D: Domain>(
    op: BinaryOp,
    left: &DenseTensor<D::Elem>,
    right: &DenseTensor<D::Elem>,
) -> (r: DenseTensor<D::Elem>)
    requires
        left@.shape == right@.shape,
    ensures
        meaning::<D>(r@) == map2::<D>(op, meaning::<D>(left@), meaning::<D>(right@)),
{
    proof {
        use_type_invariant(left);
        use_type_invariant(right);
    }
    let mut data: Vec<D::Elem> = Vec::new();
    let mut i: usize = 0;
    while i < left.data.len()
        invariant
            i <= left@.data.len(),
            left@.data.len() == right@.data.len(),
            data@.len() == i,
            forall|j: int|
                0 <= j < i ==> D::value(#[trigger] data@[j]) == binary_value::<D>(
                    op,
                    D::value(left@.data[j]),
                    D::value(right@.data[j]),
                ),
        decreases left@.data.len() - i,
    {
        let a = &left.data[i];
        let b = &right.data[i];
        let value = match op {
            BinaryOp::Add => D::plus(a, b),
            BinaryOp::Sub => D::minus(a, b),
            BinaryOp::Mul => D::times(a, b),
        };
        data.push(value);
        i += 1;
    }
    let r = DenseTensor { shape: left.shape.clone(), data };
    proof {
        assert(meaning::<D>(r@).data =~= map2::<D>(
            op,
            meaning::<D>(left@),
            meaning::<D>(right@),
        ).data);
    }
    r
}

fn elementwise_unary<D: Domain>(op: UnaryOp, input: &DenseTensor<D::Elem>) -> (r: DenseTensor<
    D::Elem,
>)
    ensures
        meaning::<D>(r@) == map1::<D>(op, meaning::<D>(input@)),
{
    proof {
        use_type_invariant(input);
    }
    let mut data: Vec<D::Elem> = Vec::new();
    let mut i: usize = 0;
    while i < input.data.len()
        invariant
            i <= input@.data.len(),
            data@.len() == i,
            forall|j: int|
                0 <= j < i ==> D::value(#[trigger] data@[j]) == unary_value::<D>(
                    op,
                    D::value(input@.data[j]),
                ),
        decreases input@.data.len() - i,
    {
        let a = &input.data[i];
        let value = match op {
            UnaryOp::Neg => D::neg(a),
            UnaryOp::Relu => D::relu(a),
        };
        data.push(value);
        i += 1;
    }
    let r = DenseTensor { shape: input.shape.clone(), data };
    proof {
        assert(meaning::<D>(r@).data =~= map1::<D>(op, meaning::<D>(input@)).data);
    }
    r
}

/// The element count of a matrix.
pub proof fn lemma_matrix_numel(m: nat, n: nat)
    ensures
        numel(seq![m, n]) == m * n,
        numel_fits(seq![m, n]) <==> m <= usize::MAX && m * n <= usize::MAX,
{
    let s = seq![m, n];
    assert(s.drop_last() =~= seq![m]);
    assert(s.drop_last().drop_last() =~= Seq::<nat>::empty());
    reveal_with_fuel(numel, 3);
    reveal_with_fuel(numel_fits, 3);
    assert(numel(seq![m]) == 1 * m);
}

fn eval_matmul<D: Domain>(left: &DenseTensor<D::Elem>, right: &DenseTensor<D::Elem>) -> (r: Result<
    DenseTensor<D::Elem>,
    EvalError,
>)
    requires
        left@.shape.len() == 2,
        right@.shape.len() == 2,
        left@.shape[1] == right@.shape[0],
    ensures
        match r {
            Ok(value) => matmul_value::<D>(meaning::<D>(left@), meaning::<D>(right@)) == Ok::<
                TensorView<D::V>,
                EvalErrorView,
            >(meaning::<D>(value@)),
            Err(e) => matmul_value::<D>(meaning::<D>(left@), meaning::<D>(right@)) == Err::<
                TensorView<D::V>,
                EvalErrorView,
            >(e@),
        },
{
    proof {
        use_type_invariant(left);
        use_type_invariant(right);
    }
    let m: usize = left.shape.dim(0);
    let k: usize = left.shape.dim(1);
    let n: usize = right.shape.dim(1);
    let shape = Shape::new(vec![Dim(m), Dim(n)]);
    let ghost l = meaning::<D>(left@).data;
    let ghost rr = meaning::<D>(right@).data;
    proof {
        assert(shape@ =~= seq![m as nat, n as nat]);
        assert(left@.shape =~= seq![m as nat, k as nat]);
        assert(right@.shape =~= seq![k as nat, n as nat]);
        lemma_matrix_numel(m as nat, n as nat);
        lemma_matrix_numel(m as nat, k as nat);
        lemma_matrix_numel(k as nat, n as nat);
    }
    let count: usize = match shape.numel() {
        Ok(count) => count,
        Err(_) => {
            return Err(EvalError::Internal(String::from_str("shape element count overflow")));
        }
    };
    let left_len: usize = left.data.len();
    let right_len: usize = right.data.len();
    let mut data: Vec<D::Elem> = Vec::new();
    let mut row: usize = 0;
    while row < m
        invariant
            row <= m,
            count == m * n,
            left_len == left@.data.len() == m * k,
            right_len == right@.data.len() == k * n,
            l == meaning::<D>(left@).data,
            rr == meaning::<D>(right@).data,
            data@.len() == row * n,
            forall|i: int|
                0 <= i < data@.len() ==> D::value(#[trigger] data@[i]) == dot::<D>(
                    l,
                    rr,
                    k as nat,
                    n as nat,
                    (i as nat / n as nat),
                    (i as nat % n as nat),
                    k as nat,
                ),
        decreases m - row,
    {
        let mut col: usize = 0;
        while col < n
            invariant
                row < m,
                col <= n,
                count == m * n,
                left_len == left@.data.len() == m * k,
                right_len == right@.data.len() == k * n,
                l == meaning::<D>(left@).data,
                rr == meaning::<D>(right@).data,
                data@.len() == row * n + col,
                forall|i: int|
                    0 <= i < data@.len() ==> D::value(#[trigger] data@[i]) == dot::<D>(
                        l,
                        rr,
                        k as nat,
                        n as nat,
                        (i as nat / n as nat),
                        (i as nat % n as nat),
                        k as nat,
                    ),
            decreases n - col,
        {
            let mut acc = D::zero();
            let mut inner: usize = 0;
            while inner < k
                invariant
                    row < m,
                    col < n,
                    inner <= k,
                    left_len == left@.data.len() == m * k,
                    right_len == right@.data.len() == k * n,
                    l == meaning::<D>(left@).data,
                    rr == meaning::<D>(right@).data,
                    D::value(acc) == dot::<D>(
                        l,
                        rr,
                        k as nat,
                        n as nat,
                        row as nat,
                        col as nat,
                        inner as nat,
                    ),
                decreases k - inner,
            {
                proof {
                    let a = row as int;
                    let b = m as int;
                    let kk = k as int;
                    let p = inner as int;
                    let nn = n as int;
                    let c = col as int;
                    assert(0 <= a * kk && a * kk + p < b * kk) by (nonlinear_arith)
                        requires
                            0 <= a < b,
                            0 <= p < kk,
                    ;
                    assert(0 <= p * nn && p * nn + c < kk * nn) by (nonlinear_arith)
                        requires
                            0 <= p < kk,
                            0 <= c < nn,
                    ;
                }
                let lhs = &left.data[row * k + inner];
                let rhs = &right.data[inner * n + col];
                acc = D::plus(&acc, &D::times(lhs, rhs));
                inner += 1;
            }
            proof {
                let a = row as int;
                let nn = n as int;
                let c = col as int;
                vstd::arithmetic::div_mod::lemma_fundamental_div_mod_converse(
                    a * nn + c,
                    nn,
                    a,
                    c,
                );
            }
            data.push(acc);
            col += 1;
        }
        proof {
            let a = row as int;
            let nn = n as int;
            assert(a * nn + nn == (a + 1) * nn) by (nonlinear_arith);
        }
        row += 1;
    }
    proof {
        crate::shape::lemma_numel_fits_prefix(shape@, 0);
    }
    let value = DenseTensor { shape, data };
    proof {
        let want = matmul_value::<D>(meaning::<D>(left@), meaning::<D>(right@));
        let shape2 = seq![meaning::<D>(left@).shape[0], meaning::<D>(right@).shape[1]];
        assert(shape2 =~= value@.shape);
        assert(want is Ok);
        assert(want->Ok_0.shape == shape2);
        assert(want->Ok_0.data.len() == numel(shape2));
        assert(value@.shape =~= seq![m as nat, n as nat]);
        assert(numel(value@.shape) == m * n);
        assert(want->Ok_0.data.len() == m * n);
        assert(value@.data.len() == m * n);
        assert forall|i: int| 0 <= i < m * n implies #[trigger] meaning::<D>(value@).data[i]
            == want->Ok_0.data[i] by {
            assert(meaning::<D>(value@).data[i] == D::value(data@[i]));
        }
        assert(meaning::<D>(value@).data =~= want->Ok_0.data);
    }
    Ok(value)
}

fn eval_sum<D: Domain>(input: &DenseTensor<D::Elem>, axes: &Vec<usize>, keepdim: bool) -> (r: Result<
    DenseTensor<D::Elem>,
    EvalError,
>)
    ensures
        match r {
            Ok(value) => sum_value::<D>(meaning::<D>(input@), axes@, keepdim) == Ok::<
                TensorView<D::V>,
                EvalErrorView,
            >(meaning::<D>(value@)),
            Err(e) => sum_value::<D>(meaning::<D>(input@), axes@, keepdim) == Err::<
                TensorView<D::V>,
                EvalErrorView,
            >(e@),
        },
{
    proof {
        use_type_invariant(input);
        crate::shape::lemma_numel_fits_prefix(input@.shape, 0);
    }
    let shape = crate::infer::sum_output_shape(&input.shape, axes, keepdim);
    let count: usize = match shape.numel() {
        Ok(count) => count,
        Err(_) => {
            return Err(EvalError::Internal(String::from_str("shape element count overflow")));
        }
    };
    proof {
        crate::shape::lemma_numel_fits_prefix(shape@, 0);
    }
    let ghost x = meaning::<D>(input@);
    let mut data: Vec<D::Elem> = Vec::new();
    let mut i: usize = 0;
    while i < count
        invariant
            i <= count,
            data@.len() == i,
            forall|j: int|
                0 <= j < i ==> D::value(#[trigger] data@[j]) == sum_at::<D>(
                    x.data,
                    x.shape,
                    axes@,
                    keepdim,
                    j as nat,
                    0,
                ),
        decreases count - i,
    {
        data.push(D::zero());
        i += 1;
    }
    let mut flat: usize = 0;
    while flat < input.data.len()
        invariant
            flat <= input@.data.len(),
            input@.data.len() == numel(input@.shape),
            x == meaning::<D>(input@),
            shape@ == reduced_shape(input@.shape, axes@, keepdim),
            count == numel(shape@),
            data@.len() == count,
            forall|j: int|
                0 <= j < count ==> D::value(#[trigger] data@[j]) == sum_at::<D>(
                    x.data,
                    x.shape,
                    axes@,
                    keepdim,
                    j as nat,
                    flat as nat,
                ),
        decreases input@.data.len() - flat,
    {
        let place: usize = crate::index::sum_index(flat, &input.shape, axes, keepdim);
        proof {
            crate::index::lemma_sum_place(flat as nat, input@.shape, axes@, keepdim);
        }
        let ghost before = data@;
        let total = D::plus(&data[place], &input.data[flat]);
        data.set(place, total);
        proof {
            assert forall|j: int| 0 <= j < count implies D::value(#[trigger] data@[j])
                == sum_at::<D>(
                x.data,
                x.shape,
                axes@,
                keepdim,
                j as nat,
                (flat + 1) as nat,
            ) by {
                if j != place {
                    assert(data@[j] == before[j]);
                }
            }
        }
        flat += 1;
    }
    let value = DenseTensor { shape, data };
    proof {
        assert(meaning::<D>(value@).data =~= sum_value::<D>(x, axes@, keepdim)->Ok_0.data);
    }
    Ok(value)
}

fn eval_reshape<D: Domain>(input: &DenseTensor<D::Elem>, new_shape: &Shape) -> (r: DenseTensor<
    D::Elem,
>)
    requires
        numel_fits(new_shape@),
        numel(new_shape@) == numel(input@.shape),
    ensures
        meaning::<D>(r@) == (TensorView { shape: new_shape@, data: meaning::<D>(input@).data }),
{
    proof {
        use_type_invariant(input);
    }
    DenseTensor { shape: new_shape.clone(), data: copy_all::<D>(&input.data) }
}

} // verus!

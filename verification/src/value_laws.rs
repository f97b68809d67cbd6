//! The numbers that constants, elementwise operations and matrix products stand for.
use vstd::prelude::*;

use crate::data::DataView;
use crate::domain::{Domain, Exact};
use crate::eval::{dot, eval_graph, eval_nodes, matmul_value, node_value};
use crate::float::{negative32, negative64, rounded_int, value32, value64};
use crate::float_laws::{
    doubles_of_integers_are_rounded, doubles_of_singles_keep_the_number,
    doubles_of_small_integers_are_exact,
};
use crate::graph::GraphView;
use crate::interp_loops::initial;
use crate::loop_ir::{BufferView, RoleView};
use crate::op::{NodeId, OpView};
use crate::shape::{numel, numel_fits};
use crate::soundness::lemma_eval_prefix;
use crate::tensor::{data_error, doubles_of, lifted, TensorView};
use crate::tensor_type::TypeView;

verus! {

/// The exact value of a constant holds, at every place, the number of the payload's element:
/// integers as they are, floats as the number that their bits stand for.
pub proof fn constants_keep_their_numbers(
    data: DataView,
    shape: Seq<nat>,
    inputs: Map<Seq<char>, TensorView<real>>,
    values: Seq<TensorView<real>>,
    i: int,
)
    requires
        node_value::<Exact>(OpView::Const { data, shape }, inputs, values) is Ok,
        0 <= i < data.len(),
    ensures
        ({
            let t = node_value::<Exact>(OpView::Const { data, shape }, inputs, values)->Ok_0;
            &&& t.shape == shape
            &&& t.data.len() == data.len()
            &&& match data {
                DataView::I32(v) => t.data[i] == (v[i] as int) as real,
                DataView::I64(v) => t.data[i] == (v[i] as int) as real,
                DataView::F32(v) => t.data[i] == value32(v[i]),
                DataView::F64(v) => t.data[i] == value64(v[i]),
                DataView::Bool(_) => false,
            }
        }),
{
}

/// An output of a graph that is a constant holds the numbers of its payload, whatever the inputs.
pub proof fn constant_outputs_hold_their_numbers(
    g: GraphView,
    inputs: Map<Seq<char>, TensorView<real>>,
    k: int,
    data: DataView,
    shape: Seq<nat>,
    i: int,
)
    requires
        eval_graph::<Exact>(g, inputs) is Ok,
        0 <= k < g.outputs.len(),
        0 <= g.outputs[k].0 < g.nodes.len(),
        g.nodes[g.outputs[k].0 as int] == (OpView::Const { data, shape }),
        0 <= i < data.len(),
    ensures
        ({
            let t = eval_graph::<Exact>(g, inputs)->Ok_0[k];
            &&& t.shape == shape
            &&& t.data.len() == data.len()
            &&& match data {
                DataView::I32(v) => t.data[i] == (v[i] as int) as real,
                DataView::I64(v) => t.data[i] == (v[i] as int) as real,
                DataView::F32(v) => t.data[i] == value32(v[i]),
                DataView::F64(v) => t.data[i] == value64(v[i]),
                DataView::Bool(_) => false,
            }
        }),
{
    lemma_eval_prefix::<Exact>(g.nodes, inputs, g.nodes.len());
    let id = g.outputs[k].0 as int;
    let values = eval_nodes::<Exact>(g.nodes, inputs, g.nodes.len())->Ok_0;
    assert(node_value::<Exact>(g.nodes[id], inputs, values.take(id)) is Ok);
    constants_keep_their_numbers(data, shape, inputs, values.take(id), i);
}

/// An output of a graph that is an input node is the tensor bound to its name, as it was given.
pub proof fn input_outputs_are_the_inputs<D: Domain>(
    g: GraphView,
    inputs: Map<Seq<char>, TensorView<D::V>>,
    k: int,
    name: Seq<char>,
    ty: TypeView,
)
    requires
        eval_graph::<D>(g, inputs) is Ok,
        0 <= k < g.outputs.len(),
        0 <= g.outputs[k].0 < g.nodes.len(),
        g.nodes[g.outputs[k].0 as int] == (OpView::Input { name, ty }),
    ensures
        inputs.dom().contains(name),
        inputs[name].shape == ty.shape,
        eval_graph::<D>(g, inputs)->Ok_0[k] == inputs[name],
{
    lemma_eval_prefix::<D>(g.nodes, inputs, g.nodes.len());
    let id = g.outputs[k].0 as int;
    let values = eval_nodes::<D>(g.nodes, inputs, g.nodes.len())->Ok_0;
    assert(node_value::<D>(g.nodes[id], inputs, values.take(id)) is Ok);
}

/// A kernel's constant buffer starts with the numbers of its payload.
pub proof fn constant_buffers_hold_their_numbers(
    b: BufferView,
    inputs: Map<Seq<char>, TensorView<real>>,
    data: DataView,
    i: int,
)
    requires
        b.role == RoleView::Const(data),
        initial::<Exact>(b, inputs) is Ok,
        0 <= i < data.len(),
    ensures
        ({
            let contents = initial::<Exact>(b, inputs)->Ok_0;
            &&& contents.len() == data.len()
            &&& contents.len() == numel(b.shape)
            &&& match data {
                DataView::I32(v) => contents[i] == (v[i] as int) as real,
                DataView::I64(v) => contents[i] == (v[i] as int) as real,
                DataView::F32(v) => contents[i] == value32(v[i]),
                DataView::F64(v) => contents[i] == value64(v[i]),
                DataView::Bool(_) => false,
            }
        }),
{
}

/// An input buffer starts with the input's data, and every other buffer that is not constant with
/// zeros.
pub proof fn buffers_start_from_inputs_or_zeros<D: Domain>(
    b: BufferView,
    inputs: Map<Seq<char>, TensorView<D::V>>,
)
    requires
        initial::<D>(b, inputs) is Ok,
    ensures
        b.role is Input ==> inputs.dom().contains(b.role->Input_0) && inputs[b.role->Input_0].shape
            == b.shape && initial::<D>(b, inputs)->Ok_0 == inputs[b.role->Input_0].data,
        b.role is Temp || b.role is Output ==> {
            &&& initial::<D>(b, inputs)->Ok_0.len() == numel(b.shape)
            &&& forall|i: int|
                0 <= i < numel(b.shape) ==> #[trigger] initial::<D>(b, inputs)->Ok_0[i]
                    == D::zero_value()
        },
{
}

/// In every domain, payloads of equal integers lift to the same scalars, whatever their width.
pub proof fn integer_payloads_lift_alike<D: Domain>(narrow: Seq<i32>, wide: Seq<i64>)
    requires
        narrow.len() == wide.len(),
        forall|i: int| 0 <= i < narrow.len() ==> #[trigger] narrow[i] as int == wide[i] as int,
    ensures
        lifted::<D>(DataView::I32(narrow)) == lifted::<D>(DataView::I64(wide)),
{
    assert(lifted::<D>(DataView::I32(narrow)) =~= lifted::<D>(DataView::I64(wide)));
}

/// The doubles of a numeric payload keep its numbers and signs: floats and 32-bit integers exactly,
/// 64-bit integers rounded to 53 bits, which changes none up to 2^53 in magnitude.
pub proof fn doubles_keep_the_numbers(data: DataView, i: int)
    requires
        data_error(data) is None,
        0 <= i < data.len(),
    ensures
        doubles_of(data).len() == data.len(),
        match data {
            DataView::I32(v) => value64(doubles_of(data)[i]) == (v[i] as int) as real
                && negative64(doubles_of(data)[i]) == (v[i] < 0),
            DataView::I64(v) => {
                &&& value64(doubles_of(data)[i]) == rounded_int(v[i] as int) as real
                &&& -0x20_0000_0000_0000 <= v[i] <= 0x20_0000_0000_0000 ==> value64(
                    doubles_of(data)[i],
                ) == (v[i] as int) as real
                &&& negative64(doubles_of(data)[i]) == (v[i] < 0)
            },
            DataView::F32(v) => value64(doubles_of(data)[i]) == value32(v[i]) && negative64(
                doubles_of(data)[i],
            ) == negative32(v[i]),
            DataView::F64(v) => doubles_of(data)[i] == v[i],
            DataView::Bool(_) => false,
        },
{
    match data {
        DataView::I32(v) => {
            doubles_of_small_integers_are_exact(v[i] as int);
        },
        DataView::I64(v) => {
            doubles_of_integers_are_rounded(v[i] as int);
            if -0x20_0000_0000_0000 <= v[i] <= 0x20_0000_0000_0000 {
                doubles_of_small_integers_are_exact(v[i] as int);
            }
        },
        DataView::F32(v) => {
            doubles_of_singles_keep_the_number(v[i]);
        },
        _ => {},
    }
}

/// Elementwise operations work on the numbers at each place: sums, differences left minus right,
/// products, negatives, and the larger of the number and zero.
pub proof fn elementwise_operations_are_arithmetic(
    l: NodeId,
    r: NodeId,
    inputs: Map<Seq<char>, TensorView<real>>,
    values: Seq<TensorView<real>>,
    i: int,
)
    requires
        l.0 < values.len(),
        r.0 < values.len(),
        values[l.0 as int].data.len() == values[r.0 as int].data.len(),
        0 <= i < values[l.0 as int].data.len(),
    ensures
        ({
            let (x, y) = (values[l.0 as int], values[r.0 as int]);
            let (a, b) = (x.data[i], y.data[i]);
            let sum = node_value::<Exact>(OpView::Add(l, r), inputs, values)->Ok_0;
            let difference = node_value::<Exact>(OpView::Sub(l, r), inputs, values)->Ok_0;
            let product = node_value::<Exact>(OpView::Mul(l, r), inputs, values)->Ok_0;
            let negative = node_value::<Exact>(OpView::Neg(l), inputs, values)->Ok_0;
            let positive = node_value::<Exact>(OpView::Relu(l), inputs, values)->Ok_0;
            &&& sum.shape == x.shape && sum.data.len() == x.data.len() && sum.data[i] == a + b
            &&& difference.shape == x.shape && difference.data.len() == x.data.len()
                && difference.data[i] == a - b
            &&& product.shape == x.shape && product.data.len() == x.data.len() && product.data[i]
                == a * b
            &&& negative.shape == x.shape && negative.data.len() == x.data.len()
                && negative.data[i] == -a
            &&& positive.shape == x.shape && positive.data.len() == x.data.len()
            &&& a > 0real ==> positive.data[i] == a
            &&& a <= 0real ==> positive.data[i] == 0real
        }),
{
}

/// A reshape keeps the elements in row-major order.
pub proof fn reshapes_keep_the_elements<D: Domain>(
    input: NodeId,
    new_shape: Seq<nat>,
    inputs: Map<Seq<char>, TensorView<D::V>>,
    values: Seq<TensorView<D::V>>,
)
    requires
        input.0 < values.len(),
    ensures
        ({
            let t = node_value::<D>(OpView::Reshape { input, new_shape }, inputs, values)->Ok_0;
            t.shape == new_shape && t.data == values[input.0 as int].data
        }),
{
}

proof fn lemma_dot_unit(
    l: Seq<real>,
    r: Seq<real>,
    width: nat,
    n: nat,
    row: nat,
    col: nat,
    p: nat,
    q: nat,
    k: nat,
)
    requires
        k <= width,
        p < width,
        q < n,
        col < n,
        forall|a: nat, b: nat|
            a < width && b < n ==> #[trigger] r[(a * n + b) as int] == if a == p && b == q {
                1real
            } else {
                0real
            },
    ensures
        dot::<Exact>(l, r, width, n, row, col, k) == if p < k && col == q {
            l[(row * width + p) as int]
        } else {
            0real
        },
    decreases k,
{
    if k > 0 {
        let a = (k - 1) as nat;
        lemma_dot_unit(l, r, width, n, row, col, p, q, a);
        let x = l[(row * width + a) as int];
        assert(x * 0real == 0real && x * 1real == x);
        assert(r[(a * n + col) as int] == if a == p && col == q {
            1real
        } else {
            0real
        });
    }
}

/// Multiplying by a matrix with a single one, in row `p` and column `q`, moves column `p` of the
/// left matrix to column `q` and leaves zeros elsewhere.
pub proof fn products_with_a_unit_pick_a_column(
    l: TensorView<real>,
    r: TensorView<real>,
    p: nat,
    q: nat,
    row: nat,
    col: nat,
)
    requires
        l.shape.len() == 2,
        r.shape.len() == 2,
        l.shape[1] == r.shape[0],
        numel_fits(seq![l.shape[0], r.shape[1]]),
        p < r.shape[0],
        q < r.shape[1],
        row < l.shape[0],
        col < r.shape[1],
        forall|a: nat, b: nat|
            a < r.shape[0] && b < r.shape[1] ==> #[trigger] r.data[(a * r.shape[1] + b) as int]
                == if a == p && b == q {
                1real
            } else {
                0real
            },
    ensures
        ({
            let t = matmul_value::<Exact>(l, r)->Ok_0;
            &&& t.shape == seq![l.shape[0], r.shape[1]]
            &&& t.data[(row * r.shape[1] + col) as int] == if col == q {
                l.data[(row * l.shape[1] + p) as int]
            } else {
                0real
            }
        }),
{
    let n = r.shape[1];
    let place = row * n + col;
    crate::eval::lemma_matrix_numel(l.shape[0], n);
    lemma_place_of(row, col, l.shape[0], n);
    lemma_dot_unit(l.data, r.data, l.shape[1], n, row, col, p, q, l.shape[1]);
}

/// The row and the column come back from the row-major place.
proof fn lemma_place_of(row: nat, col: nat, m: nat, n: nat)
    requires
        row < m,
        col < n,
    ensures
        (row * n + col) / n == row as int,
        (row * n + col) % n == col as int,
        row * n + col < m * n,
{
    vstd::arithmetic::div_mod::lemma_fundamental_div_mod_converse(
        (row * n + col) as int,
        n as int,
        row as int,
        col as int,
    );
    assert(row * n + n <= m * n) by (nonlinear_arith)
        requires
            row + 1 <= m,
    ;
}

proof fn lemma_dot_linear(
    l: Seq<real>,
    r: Seq<real>,
    s: Seq<real>,
    t: Seq<real>,
    c: real,
    width: nat,
    n: nat,
    row: nat,
    col: nat,
    k: nat,
)
    requires
        k <= width,
        col < n,
        forall|a: nat, b: nat|
            a < width && b < n ==> #[trigger] t[(a * n + b) as int] == r[(a * n + b) as int] + c
                * s[(a * n + b) as int],
    ensures
        dot::<Exact>(l, t, width, n, row, col, k) == dot::<Exact>(l, r, width, n, row, col, k) + c
            * dot::<Exact>(l, s, width, n, row, col, k),
    decreases k,
{
    if k > 0 {
        let a = (k - 1) as nat;
        lemma_dot_linear(l, r, s, t, c, width, n, row, col, a);
        let x = l[(row * width + a) as int];
        let i = (a * n + col) as int;
        let (y, z) = (r[i], s[i]);
        let before = dot::<Exact>(l, s, width, n, row, col, a);
        assert(t[(a * n + col) as int] == y + c * z);
        assert(x * (y + c * z) == x * y + c * (x * z)) by (nonlinear_arith);
        assert(c * (before + x * z) == c * before + c * (x * z)) by (nonlinear_arith);
    } else {
        assert(c * 0real == 0real);
    }
}

/// The matrix product is linear in its right operand: with `t = r + c * s`, the product with `t`
/// is the product with `r` plus `c` times the product with `s`.
pub proof fn products_are_linear(
    l: TensorView<real>,
    r: TensorView<real>,
    s: TensorView<real>,
    t: TensorView<real>,
    c: real,
    row: nat,
    col: nat,
)
    requires
        l.shape.len() == 2,
        r.shape.len() == 2,
        l.shape[1] == r.shape[0],
        s.shape == r.shape,
        t.shape == r.shape,
        numel_fits(seq![l.shape[0], r.shape[1]]),
        row < l.shape[0],
        col < r.shape[1],
        forall|a: nat, b: nat|
            a < r.shape[0] && b < r.shape[1] ==> #[trigger] t.data[(a * r.shape[1] + b) as int]
                == r.data[(a * r.shape[1] + b) as int] + c * s.data[(a * r.shape[1] + b) as int],
    ensures
        ({
            let i = (row * r.shape[1] + col) as int;
            matmul_value::<Exact>(l, t)->Ok_0.data[i] == matmul_value::<Exact>(l, r)->Ok_0.data[i]
                + c * matmul_value::<Exact>(l, s)->Ok_0.data[i]
        }),
{
    let n = r.shape[1];
    crate::eval::lemma_matrix_numel(l.shape[0], n);
    lemma_place_of(row, col, l.shape[0], n);
    lemma_dot_linear(l.data, r.data, s.data, t.data, c, l.shape[1], n, row, col, l.shape[1]);
}

} // verus!

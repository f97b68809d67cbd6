//! What a passed self-check shows, and what makes a check fail.
use vstd::prelude::*;

use crate::domain::{Domain, Exact};
use crate::egg_search::bit_meanings;
use crate::eval::eval_graph;
use crate::float::nan64;
use crate::graph::GraphView;
use crate::interp_loops::eval_kernel;
use crate::loop_ir::KernelView;
use crate::options::Mode;
use crate::pipeline_error::PipelineErrorView;
use crate::self_check::{checked, CheckResult};
use crate::tensor::{all_bit_equal, tensors_bit_equal, TensorView};

verus! {

/// Tensors that compare equal to the bit have the same shapes and, element by element, the same
/// bits, but for two elements that are both no number.
pub proof fn bit_equality_compares_every_element(
    a: Seq<TensorView<u64>>,
    b: Seq<TensorView<u64>>,
    i: int,
    j: int,
)
    requires
        all_bit_equal(a, b),
        0 <= i < a.len(),
        0 <= j < a[i].data.len(),
    ensures
        a.len() == b.len(),
        a[i].shape == b[i].shape,
        a[i].data.len() == b[i].data.len(),
        a[i].data[j] == b[i].data[j] || (nan64(a[i].data[j]) && nan64(b[i].data[j])),
{
    assert(tensors_bit_equal(a[i], b[i]));
}

/// Tensors that differ in one element, of which at least one is a number, do not compare equal to
/// the bit.
pub proof fn one_different_element_is_seen(
    a: Seq<TensorView<u64>>,
    b: Seq<TensorView<u64>>,
    i: int,
    j: int,
)
    requires
        a.len() == b.len(),
        0 <= i < a.len(),
        a[i].data.len() == b[i].data.len(),
        0 <= j < a[i].data.len(),
        a[i].data[j] != b[i].data[j],
        !nan64(a[i].data[j]) || !nan64(b[i].data[j]),
    ensures
        !all_bit_equal(a, b),
        !all_bit_equal(b, a),
{
    if all_bit_equal(a, b) {
        bit_equality_compares_every_element(a, b, i, j);
    }
    if all_bit_equal(b, a) {
        bit_equality_compares_every_element(b, a, i, j);
    }
}

/// A check that passes, in any mode, has evaluated graph and kernel exactly, to the same outputs.
pub proof fn a_passed_check_shows_exact_equality<D: Domain<Elem = u64>>(
    graph: GraphView,
    kernel: KernelView,
    mode: Mode,
    rational_inputs: Map<Seq<char>, TensorView<real>>,
    f64_inputs: Map<Seq<char>, TensorView<D::V>>,
    compiled: Option<Seq<TensorView<u64>>>,
    r: CheckResult,
)
    requires
        checked::<D>(graph, kernel, mode, rational_inputs, f64_inputs, compiled, r),
        r is Ok,
    ensures
        eval_graph::<Exact>(graph, rational_inputs) is Ok,
        eval_kernel::<Exact>(kernel, rational_inputs) is Ok,
        eval_graph::<Exact>(graph, rational_inputs)->Ok_0 == eval_kernel::<Exact>(
            kernel,
            rational_inputs,
        )->Ok_0,
        r->Ok_0 is Passed,
{
}

/// A strict check that passes shows that graph and kernel give the same doubles, to the bit: both
/// evaluate over the double inputs, to outputs with bits that agree throughout.
pub proof fn a_passed_strict_check_shows_bit_equality<D: Domain<Elem = u64>>(
    graph: GraphView,
    kernel: KernelView,
    rational_inputs: Map<Seq<char>, TensorView<real>>,
    f64_inputs: Map<Seq<char>, TensorView<D::V>>,
    compiled: Option<Seq<TensorView<u64>>>,
    r: CheckResult,
)
    requires
        checked::<D>(graph, kernel, Mode::Strict, rational_inputs, f64_inputs, compiled, r),
        r is Ok,
    ensures
        eval_graph::<D>(graph, f64_inputs) is Ok,
        eval_kernel::<D>(kernel, f64_inputs) is Ok,
        exists|x: Seq<TensorView<u64>>, y: Seq<TensorView<u64>>|
            {
                &&& #[trigger] bit_meanings::<D>(x) == eval_graph::<D>(graph, f64_inputs)->Ok_0
                &&& #[trigger] bit_meanings::<D>(y) == eval_kernel::<D>(kernel, f64_inputs)->Ok_0
                &&& all_bit_equal(x, y)
            },
{
}

/// A check that passes with compiled outputs, in any mode, shows that they agree to the bit with
/// what the kernel gives over the double inputs.
pub proof fn a_passed_check_vouches_for_compiled_outputs<D: Domain<Elem = u64>>(
    graph: GraphView,
    kernel: KernelView,
    mode: Mode,
    rational_inputs: Map<Seq<char>, TensorView<real>>,
    f64_inputs: Map<Seq<char>, TensorView<D::V>>,
    compiled: Seq<TensorView<u64>>,
    r: CheckResult,
)
    requires
        checked::<D>(graph, kernel, mode, rational_inputs, f64_inputs, Some(compiled), r),
        r is Ok,
    ensures
        eval_kernel::<D>(kernel, f64_inputs) is Ok,
        exists|y: Seq<TensorView<u64>>| #[trigger]
            bit_meanings::<D>(y) == eval_kernel::<D>(kernel, f64_inputs)->Ok_0 && all_bit_equal(
                compiled,
                y,
            ),
{
}

/// Exact outputs that differ fail the check in every mode, whatever the doubles are.
pub proof fn exact_differences_fail_the_check<D: Domain<Elem = u64>>(
    graph: GraphView,
    kernel: KernelView,
    mode: Mode,
    rational_inputs: Map<Seq<char>, TensorView<real>>,
    f64_inputs: Map<Seq<char>, TensorView<D::V>>,
    compiled: Option<Seq<TensorView<u64>>>,
    r: CheckResult,
)
    requires
        checked::<D>(graph, kernel, mode, rational_inputs, f64_inputs, compiled, r),
        eval_graph::<Exact>(graph, rational_inputs) is Ok,
        eval_kernel::<Exact>(kernel, rational_inputs) is Ok,
        eval_graph::<Exact>(graph, rational_inputs)->Ok_0 != eval_kernel::<Exact>(
            kernel,
            rational_inputs,
        )->Ok_0,
    ensures
        r == CheckResult::Err(
            PipelineErrorView::CheckFailed("graph rational output differs from loop output"@),
        ),
{
}

/// Where no bits of the graph's doubles agree with bits of the kernel's, a strict check fails and
/// says so.
pub proof fn double_differences_fail_a_strict_check<D: Domain<Elem = u64>>(
    graph: GraphView,
    kernel: KernelView,
    rational_inputs: Map<Seq<char>, TensorView<real>>,
    f64_inputs: Map<Seq<char>, TensorView<D::V>>,
    compiled: Option<Seq<TensorView<u64>>>,
    r: CheckResult,
)
    requires
        checked::<D>(graph, kernel, Mode::Strict, rational_inputs, f64_inputs, compiled, r),
        eval_graph::<Exact>(graph, rational_inputs) is Ok,
        eval_kernel::<Exact>(kernel, rational_inputs) is Ok,
        eval_graph::<Exact>(graph, rational_inputs)->Ok_0 == eval_kernel::<Exact>(
            kernel,
            rational_inputs,
        )->Ok_0,
        eval_graph::<D>(graph, f64_inputs) is Ok,
        eval_kernel::<D>(kernel, f64_inputs) is Ok,
        forall|x: Seq<TensorView<u64>>, y: Seq<TensorView<u64>>|
            #[trigger] bit_meanings::<D>(x) == eval_graph::<D>(graph, f64_inputs)->Ok_0
                && #[trigger] bit_meanings::<D>(y) == eval_kernel::<D>(kernel, f64_inputs)->Ok_0
                ==> !all_bit_equal(x, y),
    ensures
        r == CheckResult::Err(
            PipelineErrorView::CheckFailed("graph f64 output differs from tuned loop output"@),
        ),
{
}

/// Graph and kernel that agree, exactly and to the bit, and compiled outputs that agree with
/// every rendering of the kernel's, pass a strict check, which lists what was compared.
pub proof fn agreement_passes_a_strict_check<D: Domain<Elem = u64>>(
    graph: GraphView,
    kernel: KernelView,
    rational_inputs: Map<Seq<char>, TensorView<real>>,
    f64_inputs: Map<Seq<char>, TensorView<D::V>>,
    compiled: Option<Seq<TensorView<u64>>>,
    r: CheckResult,
)
    requires
        checked::<D>(graph, kernel, Mode::Strict, rational_inputs, f64_inputs, compiled, r),
        eval_graph::<Exact>(graph, rational_inputs) is Ok,
        eval_kernel::<Exact>(kernel, rational_inputs) is Ok,
        eval_graph::<Exact>(graph, rational_inputs)->Ok_0 == eval_kernel::<Exact>(
            kernel,
            rational_inputs,
        )->Ok_0,
        eval_graph::<D>(graph, f64_inputs) is Ok,
        eval_kernel::<D>(kernel, f64_inputs) is Ok,
        forall|x: Seq<TensorView<u64>>, y: Seq<TensorView<u64>>|
            #[trigger] bit_meanings::<D>(x) == eval_graph::<D>(graph, f64_inputs)->Ok_0
                && #[trigger] bit_meanings::<D>(y) == eval_kernel::<D>(kernel, f64_inputs)->Ok_0
                ==> all_bit_equal(x, y) && (compiled is Some ==> all_bit_equal(compiled->0, y)),
    ensures
        r is Ok,
        r->Ok_0 is Passed,
        r->Ok_0->Passed_0.len() == if compiled is Some {
            3int
        } else {
            2
        },
{
}

} // verus!

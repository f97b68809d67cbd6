//! Self-checks of pipeline runs.
use vstd::prelude::*;

use crate::bindings::Bindings;
use crate::domain::{Domain, Exact};
use crate::egg_search::bit_meanings;
use crate::eval::{bound, eval, eval_f64, eval_graph, meanings, EvalErrorView};
use crate::graph::{Graph, GraphView};
use crate::interp_loops::{eval_kernel, eval_loops, eval_loops_f64, LoopErrorView};
use crate::loop_ir::{Kernel, KernelView};
use crate::options::Mode;
use crate::pipeline_error::{PipelineError, PipelineErrorView};
use crate::report::{CheckStatus, CheckView};
use crate::tensor::{
    all_bit_equal, bit_views, same_tensors, tensors_bit_eq, Tensor, TensorF64, TensorView,
};
use crate::text::string_views;

verus! {

/// The outcome of a check.
pub type CheckResult = Result<CheckView, PipelineErrorView>;

/// The outcome of comparing the bits of compiled outputs `c` with those of the kernel, after
/// the checks that passed before.
pub open spec fn compiled_verdict(
    passed: Seq<Seq<char>>,
    kernel_bits: Seq<TensorView<u64>>,
    c: Seq<TensorView<u64>>,
) -> CheckResult {
    if all_bit_equal(c, kernel_bits) {
        Ok(CheckView::Passed(passed.push("compiled C == tuned loop f64"@)))
    } else {
        Err(
            PipelineErrorView::CheckFailed(
                "compiled C output differs from tuned loop f64 output"@,
            ),
        )
    }
}

/// The outcome of a strict check on the bits of the outputs.
pub open spec fn strict_verdict(
    graph_bits: Seq<TensorView<u64>>,
    kernel_bits: Seq<TensorView<u64>>,
    compiled: Option<Seq<TensorView<u64>>>,
) -> CheckResult {
    if !all_bit_equal(graph_bits, kernel_bits) {
        Err(PipelineErrorView::CheckFailed("graph f64 output differs from tuned loop output"@))
    } else {
        let passed = seq!["rational graph == tuned loop"@, "strict f64 graph == tuned loop"@];
        match compiled {
            None => Ok(CheckView::Passed(passed)),
            Some(c) => compiled_verdict(passed, kernel_bits, c),
        }
    }
}

/// The outcome of a check outside strict mode: only compiled outputs are compared to the bit.
pub open spec fn fast_verdict<D: Domain<Elem = u64>>(
    kernel: KernelView,
    f64_inputs: Map<Seq<char>, TensorView<D::V>>,
    compiled: Option<Seq<TensorView<u64>>>,
    r: CheckResult,
) -> bool {
    let passed = seq!["rational graph == tuned loop"@];
    match compiled {
        None => r == Ok::<CheckView, PipelineErrorView>(CheckView::Passed(passed)),
        Some(c) => match eval_kernel::<D>(kernel, f64_inputs) {
            Err(e) => r == Err::<CheckView, PipelineErrorView>(PipelineErrorView::Loop(e)),
            Ok(values) => exists|bits: Seq<TensorView<u64>>| #[trigger]
                bit_meanings::<D>(bits) == values && r == compiled_verdict(passed, bits, c),
        },
    }
}

/// The outcome of the floating-point part of a strict check.
pub open spec fn strict_check<D: Domain<Elem = u64>>(
    graph: GraphView,
    kernel: KernelView,
    f64_inputs: Map<Seq<char>, TensorView<D::V>>,
    compiled: Option<Seq<TensorView<u64>>>,
    r: CheckResult,
) -> bool {
    match eval_graph::<D>(graph, f64_inputs) {
        Err(e) => r == Err::<CheckView, PipelineErrorView>(PipelineErrorView::Eval(e)),
        Ok(graph_values) => match eval_kernel::<D>(kernel, f64_inputs) {
            Err(e) => r == Err::<CheckView, PipelineErrorView>(PipelineErrorView::Loop(e)),
            Ok(kernel_values) => exists|x: Seq<TensorView<u64>>, y: Seq<TensorView<u64>>|
                #[trigger] bit_meanings::<D>(x) == graph_values && #[trigger] bit_meanings::<D>(y)
                    == kernel_values && r == strict_verdict(x, y, compiled),
        },
    }
}

/// The outcome of a check: the exact outputs of graph and kernel are compared first, then the
/// floating-point outputs to the bit.
pub open spec fn checked<D: Domain<Elem = u64>>(
    graph: GraphView,
    kernel: KernelView,
    mode: Mode,
    rational_inputs: Map<Seq<char>, TensorView<real>>,
    f64_inputs: Map<Seq<char>, TensorView<D::V>>,
    compiled: Option<Seq<TensorView<u64>>>,
    r: CheckResult,
) -> bool {
    match eval_graph::<Exact>(graph, rational_inputs) {
        Err(e) => r == Err::<CheckView, PipelineErrorView>(PipelineErrorView::Eval(e)),
        Ok(graph_exact) => match eval_kernel::<Exact>(kernel, rational_inputs) {
            Err(e) => r == Err::<CheckView, PipelineErrorView>(PipelineErrorView::Loop(e)),
            Ok(loop_exact) => if graph_exact != loop_exact {
                r == Err::<CheckView, PipelineErrorView>(
                    PipelineErrorView::CheckFailed(
                        "graph rational output differs from loop output"@,
                    ),
                )
            } else if mode == Mode::Strict {
                strict_check::<D>(graph, kernel, f64_inputs, compiled, r)
            } else {
                fast_verdict::<D>(kernel, f64_inputs, compiled, r)
            },
        },
    }
}

/// Both evaluations succeed, with bits that agree throughout.
pub open spec fn same_doubles<D: Domain<Elem = u64>>(
    graph_values: Result<Seq<TensorView<D::V>>, EvalErrorView>,
    kernel_values: Result<Seq<TensorView<D::V>>, LoopErrorView>,
) -> bool {
    &&& graph_values is Ok
    &&& kernel_values is Ok
    &&& exists|x: Seq<TensorView<u64>>, y: Seq<TensorView<u64>>|
        #[trigger] bit_meanings::<D>(x) == graph_values->Ok_0 && #[trigger] bit_meanings::<D>(y)
            == kernel_values->Ok_0 && all_bit_equal(x, y)
}

/// The kernel evaluates, with bits that agree with compiled outputs.
pub open spec fn renders<D: Domain<Elem = u64>>(
    compiled: Seq<TensorView<u64>>,
    kernel_values: Result<Seq<TensorView<D::V>>, LoopErrorView>,
) -> bool {
    &&& kernel_values is Ok
    &&& exists|y: Seq<TensorView<u64>>| #[trigger]
        bit_meanings::<D>(y) == kernel_values->Ok_0 && all_bit_equal(compiled, y)
}

/// The contents of a result.
pub open spec fn check_view(r: Result<CheckStatus, PipelineError>) -> CheckResult {
    match r {
        Ok(status) => Ok(status@),
        Err(e) => Err(e@),
    }
}

/// The bits of compiled outputs.
pub open spec fn compiled_view(compiled: Option<&Vec<TensorF64>>) -> Option<
    Seq<TensorView<u64>>,
> {
    match compiled {
        Some(c) => Some(bit_views(c@)),
        None => None,
    }
}

/// Compares compiled outputs with those of the kernel to the bit.
pub fn compare_compiled(
    checks: Vec<String>,
    kernel_outputs: &Vec<TensorF64>,
    compiled: &Vec<TensorF64>,
) -> (r: Result<CheckStatus, PipelineError>)
    ensures
        check_view(r) == compiled_verdict(
            string_views(checks@),
            bit_views(kernel_outputs@),
            bit_views(compiled@),
        ),
        r is Ok <==> all_bit_equal(bit_views(compiled@), bit_views(kernel_outputs@)),
{
    if !tensors_bit_eq(compiled, kernel_outputs) {
        return Err(
            PipelineError::CheckFailed(
                String::from_str("compiled C output differs from tuned loop f64 output"),
            ),
        );
    }
    let mut checks = checks;
    let ghost before = checks@;
    checks.push(String::from_str("compiled C == tuned loop f64"));
    proof {
        assert(string_views(checks@) =~= string_views(before).push(
            "compiled C == tuned loop f64"@,
        ));
    }
    Ok(CheckStatus::Passed(checks))
}

/// Compares outputs of graph, kernel and compiled kernel to the bit.
pub fn compare_strictly(
    graph_outputs: &Vec<TensorF64>,
    kernel_outputs: &Vec<TensorF64>,
    compiled: Option<&Vec<TensorF64>>,
) -> (r: Result<CheckStatus, PipelineError>)
    ensures
        check_view(r) == strict_verdict(
            bit_views(graph_outputs@),
            bit_views(kernel_outputs@),
            compiled_view(compiled),
        ),
        r is Ok <==> {
            &&& all_bit_equal(bit_views(graph_outputs@), bit_views(kernel_outputs@))
            &&& compiled is Some ==> all_bit_equal(
                bit_views(compiled->0@),
                bit_views(kernel_outputs@),
            )
        },
{
    if !tensors_bit_eq(graph_outputs, kernel_outputs) {
        return Err(
            PipelineError::CheckFailed(
                String::from_str("graph f64 output differs from tuned loop output"),
            ),
        );
    }
    let mut checks: Vec<String> = Vec::new();
    checks.push(String::from_str("rational graph == tuned loop"));
    checks.push(String::from_str("strict f64 graph == tuned loop"));
    proof {
        assert(string_views(checks@) =~= seq![
            "rational graph == tuned loop"@,
            "strict f64 graph == tuned loop"@,
        ]);
    }
    match compiled {
        None => Ok(CheckStatus::Passed(checks)),
        Some(outputs) => compare_compiled(checks, kernel_outputs, outputs),
    }
}

/// Checks a kernel, and what it was compiled to, against the graph that it came from.
///
/// # Errors
///
/// Returns the error of a failed evaluation, or [`PipelineError::CheckFailed`]
/// for outputs that differ.
pub fn check_pipeline<D: Domain<Elem = u64>>(
    graph: &Graph,
    kernel: &Kernel,
    mode: Mode,
    rational_inputs: &Bindings<Tensor>,
    f64_inputs: &Bindings<TensorF64>,
    compiled_outputs: Option<&Vec<TensorF64>>,
) -> (r: Result<CheckStatus, PipelineError>)
    ensures
        checked::<D>(
            graph@,
            kernel@,
            mode,
            bound::<Exact>(*rational_inputs),
            bound::<D>(*f64_inputs),
            compiled_view(compiled_outputs),
            check_view(r),
        ),
        r is Ok ==> eval_graph::<Exact>(graph@, bound::<Exact>(*rational_inputs)) is Ok
            && eval_kernel::<Exact>(kernel@, bound::<Exact>(*rational_inputs)) is Ok
            && eval_graph::<Exact>(graph@, bound::<Exact>(*rational_inputs))->Ok_0
            == eval_kernel::<Exact>(kernel@, bound::<Exact>(*rational_inputs))->Ok_0,
        r is Ok && mode == Mode::Strict ==> same_doubles::<D>(
            eval_graph::<D>(graph@, bound::<D>(*f64_inputs)),
            eval_kernel::<D>(kernel@, bound::<D>(*f64_inputs)),
        ),
        r is Ok && compiled_outputs is Some ==> renders::<D>(
            bit_views(compiled_outputs->0@),
            eval_kernel::<D>(kernel@, bound::<D>(*f64_inputs)),
        ),
{
    let graph_exact = match eval(graph, rational_inputs) {
        Ok(outputs) => outputs,
        Err(e) => {
            return Err(PipelineError::Eval(e));
        }
    };
    let loop_exact = match eval_loops(kernel, rational_inputs) {
        Ok(outputs) => outputs,
        Err(e) => {
            return Err(PipelineError::Loop(e));
        }
    };
    if !same_tensors(&graph_exact, &loop_exact) {
        return Err(
            PipelineError::CheckFailed(
                String::from_str("graph rational output differs from loop output"),
            ),
        );
    }
    if mode == Mode::Strict {
        let graph_f64 = match eval_f64::<D>(graph, f64_inputs) {
            Ok(outputs) => outputs,
            Err(e) => {
                return Err(PipelineError::Eval(e));
            }
        };
        let loop_f64 = match eval_loops_f64::<D>(kernel, f64_inputs) {
            Ok(outputs) => outputs,
            Err(e) => {
                return Err(PipelineError::Loop(e));
            }
        };
        proof {
            assert(bit_meanings::<D>(bit_views(graph_f64@)) =~= meanings::<D>(graph_f64@));
            assert(bit_meanings::<D>(bit_views(loop_f64@)) =~= meanings::<D>(loop_f64@));
        }
        return compare_strictly(&graph_f64, &loop_f64, compiled_outputs);
    }
    let mut checks: Vec<String> = Vec::new();
    checks.push(String::from_str("rational graph == tuned loop"));
    proof {
        assert(string_views(checks@) =~= seq!["rational graph == tuned loop"@]);
    }
    match compiled_outputs {
        None => Ok(CheckStatus::Passed(checks)),
        Some(outputs) => {
            let loop_f64 = match eval_loops_f64::<D>(kernel, f64_inputs) {
                Ok(outputs) => outputs,
                Err(e) => {
                    return Err(PipelineError::Loop(e));
                }
            };
            proof {
                assert(bit_meanings::<D>(bit_views(loop_f64@)) =~= meanings::<D>(loop_f64@));
            }
            compare_compiled(checks, &loop_f64, outputs)
        }
    }
}

} // verus!

//! Integration tests for the pipeline stages, without scheduling and compilation.

use num_bigint::BigInt;
use num_rational::BigRational;
use num_traits::ToPrimitive;
use vtc::options::{format_move, parse_shapes};
use vtc::pipeline::{
    adopt_search, check_run, choose_cost, emit_run, finish_run, lower_run, plan_compile,
    search_config, start, tune_config, TuneResult,
};
use vtc::report::preview_tensor;
use vtc::run_inputs::{f64_inputs, f64_seed, rational_inputs};
use vtc::self_check::check_pipeline;
use vtc::{
    build_example, eval, infer_types, list_examples, lower, parse_shape_spec, Bindings,
    CheckStatus, CostKind, DType, Dim, Domain, EggResult, GraphBuilder, IrError, Mode, MoveDesc,
    PipelineError, Rational, RewriteMode, RunOpts, RunReport, RunStatus, Shape, TensorF64,
};

/// The arithmetic of the host's doubles.
struct HostF64;

impl Domain for HostF64 {
    type Elem = u64;
    type V = u64;

    fn zero() -> u64 {
        0.0_f64.to_bits()
    }

    fn copy(a: &u64) -> u64 {
        *a
    }

    fn plus(a: &u64, b: &u64) -> u64 {
        (f64::from_bits(*a) + f64::from_bits(*b)).to_bits()
    }

    fn minus(a: &u64, b: &u64) -> u64 {
        (f64::from_bits(*a) - f64::from_bits(*b)).to_bits()
    }

    fn times(a: &u64, b: &u64) -> u64 {
        (f64::from_bits(*a) * f64::from_bits(*b)).to_bits()
    }

    fn neg(a: &u64) -> u64 {
        (-f64::from_bits(*a)).to_bits()
    }

    fn relu(a: &u64) -> u64 {
        let value = f64::from_bits(*a);
        if value > 0.0 {
            *a
        } else {
            0.0_f64.to_bits()
        }
    }

    fn from_int(v: i64) -> u64 {
        (v as f64).to_bits()
    }

    fn from_single(bits: u32) -> u64 {
        f64::from(f32::from_bits(bits)).to_bits()
    }

    fn from_double(bits: u64) -> u64 {
        bits
    }

    fn literal(v: &Rational) -> Option<u64> {
        let numer = BigInt::from_signed_bytes_le(v.numer_bytes());
        let denom = BigInt::from_signed_bytes_le(v.denom_bytes());
        BigRational::new(numer, denom).to_f64().map(f64::to_bits)
    }
}

fn opts(example: &str) -> RunOpts {
    RunOpts {
        example: example.to_owned(),
        shapes: Bindings::new(),
        mode: Mode::Strict,
        egg: false,
        cost: CostKind::Static,
        reps: 1,
        seed: 0x1800,
        check: false,
        emit: None,
        no_compile: true,
        verbose: false,
    }
}

/// Runs all stages with the kernel as it was lowered.
fn run_unscheduled(
    opts: RunOpts,
    compiler_available: bool,
    compiled: Option<&Vec<TensorF64>>,
) -> Result<RunReport, PipelineError> {
    let run = start(opts)?;
    let (run, kernel) = lower_run(run)?;
    let (run, used_cost) = choose_cost(run, compiler_available);
    let tuned = TuneResult {
        kernel,
        moves: vec![MoveDesc::Tile {
            nest: 0,
            level: 1,
            size: 2,
        }],
        cost_before: 20,
        cost_after: 10,
        candidates_evaluated: 3,
    };
    let emitted = emit_run(run, used_cost, tuned)?;
    let (emitted, should_compile) = plan_compile(emitted, compiler_available);
    let check = check_run::<HostF64>(&emitted, compiled)?;
    Ok(finish_run(emitted, should_compile, Vec::new(), check))
}

#[test]
fn list_examples_are_buildable_and_typed() {
    let examples = list_examples();
    assert!(!examples.is_empty());

    for (name, _) in examples {
        let (graph, inputs) = build_example(name, &Bindings::new()).expect("example builds");
        assert!(!inputs.is_empty());
        infer_types(&graph).expect("example type-checks");
    }
}

#[test]
fn matmul_pipeline_reaches_c_emission_without_compiler() {
    let report = run_unscheduled(opts("matmul"), false, None).expect("pipeline succeeds");

    assert!(!report.compiled);
    assert!(report.emitted_c.contains("#pragma STDC FP_CONTRACT OFF"));
    assert_eq!(report.example, "matmul");
}

#[test]
fn add_relu_self_check_passes() {
    for mode in [Mode::Strict, Mode::FastMath] {
        let mut run_opts = opts("add-relu");
        run_opts.check = true;
        run_opts.mode = mode;

        let report = run_unscheduled(run_opts, false, None).expect("pipeline succeeds");

        let CheckStatus::Passed(checks) = report.check else {
            panic!("self-check should pass");
        };
        assert!(checks.iter().any(|check| check.contains("rational")));
        assert_eq!(checks.len(), if mode == Mode::Strict { 2 } else { 1 });
    }
}

#[test]
fn same_seed_is_deterministic() {
    let run_opts = || {
        let mut run_opts = opts("add-relu");
        run_opts.check = true;
        run_opts.shapes.insert("D0".to_owned(), 4);
        run_opts.shapes.insert("D1".to_owned(), 4);
        run_opts
    };

    let first = run_unscheduled(run_opts(), false, None).expect("first run succeeds");
    let second = run_unscheduled(run_opts(), false, None).expect("second run succeeds");

    assert_eq!(first, second);
    assert_eq!(first.emitted_c, second.emitted_c);
}

#[test]
fn invalid_shape_and_unknown_example_fail_closed() {
    let mut bad_shape = Bindings::new();
    bad_shape.insert("M".to_owned(), 0);
    assert!(matches!(
        build_example("matmul", &bad_shape),
        Err(PipelineError::InvalidShape { .. })
    ));

    assert!(matches!(
        build_example("missing", &Bindings::new()),
        Err(PipelineError::UnknownExample(_))
    ));
}

#[test]
fn example_errors_have_their_messages() {
    let mut unused = Bindings::new();
    unused.insert("D0".to_owned(), 3);
    assert_eq!(
        build_example("matmul", &unused).expect_err("D0 is not used").to_text(),
        "invalid shape D0=3: shape parameter is not used by this example"
    );
    let mut zero = Bindings::new();
    zero.insert("K".to_owned(), 0);
    assert_eq!(
        build_example("two-matmul", &zero).expect_err("K is zero").to_text(),
        "invalid shape K=0: dimension must be positive"
    );
    assert_eq!(
        build_example("nope", &zero).expect_err("unknown").to_text(),
        "unknown example \"nope\""
    );
}

#[test]
fn examples_take_their_parameters() {
    let mut shapes = Bindings::new();
    shapes.insert("M".to_owned(), 2);
    shapes.insert("K".to_owned(), 3);
    let (graph, names) = build_example("matmul-relu-sum", &shapes).expect("example builds");
    assert_eq!(names, ["A", "B"]);
    assert_eq!(
        graph.to_text(),
        "graph {
  %0 = input \"A\" : f64[2, 3]
  %1 = input \"B\" : f64[3, 8]
  %2 = matmul(%0, %1)
  %3 = relu(%2)
  %4 = sum(%3, axes=[1], keepdim=false)
  outputs: %4
}"
    );
    let (graph, names) = build_example("two-matmul", &Bindings::new()).expect("example builds");
    assert_eq!(names, ["X", "W1", "W2"]);
    assert_eq!(graph.num_nodes(), 6);
    assert!(graph.to_text().contains("%5 = matmul(%4, %2)"));
}

#[test]
fn shape_assignments_parse() {
    assert_eq!(parse_shape_spec("M=8").expect("valid"), ("M".to_owned(), 8));
    assert_eq!(parse_shape_spec("D0=+12").expect("valid"), ("D0".to_owned(), 12));
    assert_eq!(parse_shape_spec("a b=007").expect("valid"), ("a b".to_owned(), 7));
    assert_eq!(
        parse_shape_spec("K=18446744073709551615").expect("valid"),
        ("K".to_owned(), usize::MAX)
    );
    for bad in ["", "M", "=3", "M=", "M=+", "M=-1", "M=1x", "M=1=2", "M=18446744073709551616", "M= 1"] {
        let error = parse_shape_spec(bad).expect_err("malformed");
        assert!(matches!(error, PipelineError::InvalidShapeSpec(spec) if spec == bad));
    }
    assert_eq!(
        parse_shape_spec("oops").expect_err("malformed").to_text(),
        "invalid shape flag \"oops\"; expected K=V"
    );
}

#[test]
fn later_assignments_replace_earlier_ones() {
    let shapes = parse_shapes(&vec!["M=8".to_owned(), "K=2".to_owned(), "M=3".to_owned()])
        .expect("assignments parse");
    assert_eq!(shapes.len(), 2);
    assert_eq!(shapes.get("M"), Some(&3));
    assert_eq!(shapes.get("K"), Some(&2));
    assert_eq!(shapes.get("N"), None);
    let error = parse_shapes(&vec!["M=8".to_owned(), "K".to_owned(), "N".to_owned()]);
    assert!(matches!(error, Err(PipelineError::InvalidShapeSpec(spec)) if spec == "K"));
}

#[test]
fn reports_render_every_line() {
    let mut run_opts = opts("add-relu");
    run_opts.check = true;
    run_opts.cost = CostKind::Measured;
    run_opts.emit = Some("out.c".to_owned());
    let report = run_unscheduled(run_opts, false, None).expect("pipeline succeeds");
    assert_eq!(
        report.to_text(),
        "example: add-relu
inputs: X, Y
mode: strict
graph: nodes 4 -> 4 after driver -> 4 after egg
rewrites: none (fixpoint: true)
egg: requested=false, adopted=false
schedule: tile(nest=0,level=1,size=2) cost 20 -> 10 (3 candidates)
cost model: requested=measured, used=static
emit: out.c
compiled: false
check: self-check passed (rational graph == tuned loop, strict f64 graph == tuned loop)
note: measured cost requested but no C compiler found; using static cost
note: C compilation skipped by --no-compile
"
    );
}

#[test]
fn verbose_runs_keep_snapshots_and_name_missing_compilers() {
    let mut run_opts = opts("matmul");
    run_opts.verbose = true;
    run_opts.no_compile = false;
    let report = run_unscheduled(run_opts, false, None).expect("pipeline succeeds");
    assert_eq!(report.verbose.len(), 4);
    assert!(report.verbose[0].starts_with("graph before optimization:\ngraph {\n"));
    assert!(report.verbose[1].starts_with("graph after optimization:\ngraph {\n"));
    assert!(report.verbose[2].starts_with("kernel before scheduling:\nkernel {\n"));
    assert!(report.verbose[3].starts_with("kernel after scheduling:\nkernel {\n"));
    assert_eq!(
        report.notes,
        ["C compilation skipped because no C compiler was found"]
    );
    assert_eq!(report.check, CheckStatus::NotRequested);
    assert_eq!(report.check.to_text(), "not requested");
    assert!(report.to_text().contains("emit: not written\n"));
    assert_eq!(RunStatus::Success, RunStatus::Success);
}

#[test]
fn compiled_outputs_are_checked_to_the_bit() {
    let (graph, _) = build_example("add-relu", &Bindings::new()).expect("example builds");
    let kernel = lower(&graph).expect("graph lowers");
    let exact = rational_inputs(&graph, 7).expect("inputs are drawn");
    let doubles = f64_inputs(&graph, 7).expect("inputs are drawn");
    let right = vtc::eval_loops_f64::<HostF64>(&kernel, &doubles).expect("kernel runs");
    let mut bits = right[0].data().to_vec();
    bits[3] ^= 1;
    let wrong = vec![TensorF64::from_f64(right[0].shape().clone(), &bits).expect("same size")];

    for mode in [Mode::Strict, Mode::FastMath] {
        let passed =
            check_pipeline::<HostF64>(&graph, &kernel, mode, &exact, &doubles, Some(&right))
                .expect("check passes");
        assert!(passed.to_text().contains("compiled C == tuned loop f64"));
        let failed =
            check_pipeline::<HostF64>(&graph, &kernel, mode, &exact, &doubles, Some(&wrong))
                .expect_err("check fails");
        assert_eq!(
            failed.to_text(),
            "self-check failed: compiled C output differs from tuned loop f64 output"
        );
    }
}

#[test]
fn a_kernel_of_another_graph_fails_the_check() {
    let (graph, _) = build_example("add-relu", &Bindings::new()).expect("example builds");
    let mut builder = GraphBuilder::new();
    let dims = || Shape::new(vec![Dim::new(8), Dim::new(8)]);
    let x = builder.input("X", DType::F64, dims()).expect("input is valid");
    let y = builder.input("Y", DType::F64, dims()).expect("input is valid");
    let sub = builder.sub(x, y).expect("sub is valid");
    builder.mark_output(sub).expect("output is valid");
    let other = builder.build().expect("graph is valid");
    let kernel = lower(&other).expect("graph lowers");
    let exact = rational_inputs(&graph, 7).expect("inputs are drawn");
    let doubles = f64_inputs(&graph, 7).expect("inputs are drawn");
    let failed =
        check_pipeline::<HostF64>(&graph, &kernel, Mode::Strict, &exact, &doubles, None)
            .expect_err("check fails");
    assert_eq!(
        failed.to_text(),
        "self-check failed: graph rational output differs from loop output"
    );
    let unbound = check_pipeline::<HostF64>(
        &graph,
        &kernel,
        Mode::Strict,
        &Bindings::new(),
        &doubles,
        None,
    );
    assert!(matches!(unbound, Err(PipelineError::Eval(_))));
}

#[test]
fn search_results_are_adopted_only_when_smaller() {
    let result = |accepted: bool, result_nodes: usize| {
        let (graph, _) = build_example("matmul", &Bindings::new()).expect("example builds");
        EggResult {
            graph,
            accepted,
            original_nodes: 4,
            result_nodes,
            validation_trials: 0,
        }
    };
    let run = start(opts("add-relu")).expect("run starts");
    let adopted = adopt_search(run, result(true, 3));
    assert!(adopted.egg_adopted);
    assert_eq!(adopted.optimized.num_nodes(), 3);
    assert!(adopted.notes.is_empty());
    for (accepted, nodes) in [(true, 4), (false, 3)] {
        let run = start(opts("add-relu")).expect("run starts");
        let kept = adopt_search(run, result(accepted, nodes));
        assert!(!kept.egg_adopted);
        assert_eq!(kept.optimized.num_nodes(), 4);
        assert_eq!(
            kept.notes,
            [format!("egg returned accepted={accepted} nodes 4 -> {nodes}; not adopted")]
        );
    }
}

#[test]
fn stages_are_configured_by_the_options() {
    let mut run_opts = opts("matmul");
    assert!(search_config(&run_opts).is_none());
    run_opts.egg = true;
    run_opts.mode = Mode::FastMath;
    run_opts.reps = 0;
    let search = search_config(&run_opts).expect("search is asked for");
    assert_eq!(search.mode, RewriteMode::FastMath);
    assert_eq!(search.validation_trials, 32);
    assert_eq!(search.seed, 0x1800);
    let (tune, reps) = tune_config(&run_opts);
    assert_eq!(tune.tile_sizes, [2, 4]);
    assert_eq!((tune.max_rounds, tune.validation_trials, tune.restarts), (4, 8, 0));
    assert_eq!(reps, 1);
}

#[test]
fn compilation_needs_a_compiler_and_permission() {
    for (no_compile, available, want) in
        [(false, true, true), (false, false, false), (true, true, false), (true, false, false)]
    {
        let mut run_opts = opts("matmul");
        run_opts.no_compile = no_compile;
        let report = run_unscheduled(run_opts, available, None).expect("pipeline succeeds");
        assert_eq!(report.compiled, want);
        assert_eq!(report.notes.len(), usize::from(!want));
    }
}

#[test]
fn inputs_are_drawn_by_place() {
    assert_eq!(f64_seed(0), 0xf64f_64f6_4f64);
    assert_eq!(f64_seed(0xf64f_64f6_4f64), 0);
    let mut shapes = Bindings::new();
    shapes.insert("D0".to_owned(), 5);
    shapes.insert("D1".to_owned(), 7);
    let (graph, _) = build_example("add-relu", &shapes).expect("example builds");
    let doubles = f64_inputs(&graph, 3).expect("inputs are drawn");
    let x = doubles.get("X").expect("X is bound");
    assert_eq!(x.data().len(), 35);
    for (index, &bits) in x.data().iter().enumerate() {
        let value = f64::from_bits(bits);
        if index % 11 == 0 {
            assert_eq!(bits, (-0.0_f64).to_bits());
        } else if index % 17 == 0 {
            assert_eq!(bits, 0.0_f64.to_bits());
        } else {
            assert!(value != 0.0 && value.abs() <= 496.0 && (value * 16.0).fract() == 0.0);
        }
    }
    let exact = rational_inputs(&graph, 3).expect("inputs are drawn");
    let y = exact.get("Y").expect("Y is bound");
    for value in y.data() {
        let value = value.to_i64().expect("an integer");
        assert!((-8..=8).contains(&value));
    }
    assert!(eval(&graph, &exact).is_ok());
}

#[test]
fn oversized_examples_are_refused() {
    let mut shapes = Bindings::new();
    shapes.insert("D0".to_owned(), usize::MAX);
    shapes.insert("D1".to_owned(), 2);
    let mut run_opts = opts("add-relu");
    run_opts.shapes = shapes;
    let Err(error) = start(run_opts) else {
        panic!("the element count overflows");
    };
    assert_eq!(
        error.to_text(),
        "invalid shape X=0: shape element count overflow"
    );
}

#[test]
fn moves_and_previews_render() {
    assert_eq!(
        format_move(&MoveDesc::Interchange { nest: 1, level: 0 }),
        "interchange(nest=1,level=0)"
    );
    assert_eq!(format_move(&MoveDesc::Fuse { a: 0, b: 12 }), "fuse(0,12)");
    let shape = Shape::new(vec![Dim::new(9)]);
    let long = TensorF64::from_f64(shape, &[0; 9]).expect("tensor is valid");
    let shown = vec!["0.0".to_owned(), "1.5".to_owned()];
    assert_eq!(
        preview_tensor(1, &long, &shown),
        "out1 shape=[9] data=[0.0, 1.5, ...]"
    );
    let short = TensorF64::from_f64(Shape::new(Vec::new()), &[0]).expect("tensor is valid");
    assert_eq!(preview_tensor(0, &short, &shown), "out0 shape=[] data=[0.0, 1.5]");
}

#[test]
fn pipeline_errors_render_their_causes() {
    assert_eq!(
        PipelineError::Ir(IrError::NoOutputs).to_text(),
        IrError::NoOutputs.to_text()
    );
    assert_eq!(PipelineError::Tune("no moves".to_owned()).to_text(), "no moves");
    assert_eq!(PipelineError::Legality("not legal".to_owned()).to_text(), "not legal");
    assert_eq!(PipelineError::Io("denied".to_owned()).to_text(), "denied");
    assert_eq!(
        PipelineError::CheckFailed("differs".to_owned()).to_text(),
        "self-check failed: differs"
    );
}

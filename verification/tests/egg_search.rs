//! Integration tests for untrusted egg search behind oracle validation.

use std::time::Duration;

use egg::{CostFunction, Extractor, FromOp, FromOpError, Id, Language, Pattern, Rewrite, Runner};
use num_bigint::BigInt;
use num_rational::BigRational;
use num_traits::ToPrimitive;
use rand::rngs::StdRng;
use rand::{Rng, SeedableRng};
use vtc::egg_search::{conclude_search, node_cost, prepare_search};
use vtc::pipeline::{
    adopt_search, check_run, choose_cost, emit_run, finish_run, lower_run, plan_compile,
    search_config, start, TuneResult,
};
use vtc::{
    egg_rules_for_mode, eval, eval_f64, graph_to_recexpr, random_graph, random_inputs,
    recexpr_to_graph, Bindings, CheckStatus, CostKind, DType, Dim, Domain, EggConfig, EggError, EggLang, EggResult,
    EggRule, GenConfig, Graph, GraphBuilder, Mode, NodeId, Op, PipelineError, Rational, RecExpr, RewriteMode,
    RunOpts, RunReport, Shape,
    Tensor, TensorData, TensorF64,
};

/// The arithmetic of the host's doubles.
struct HostF64;

impl Domain for HostF64 {
    type Elem = u64;
    type V = u64;

    fn zero() -> u64 {
        0.0_f64.to_bits()
    }

    fn copy(a: &u64) -> u64 {
        *a
    }

    fn plus(a: &u64, b: &u64) -> u64 {
        (f64::from_bits(*a) + f64::from_bits(*b)).to_bits()
    }

    fn minus(a: &u64, b: &u64) -> u64 {
        (f64::from_bits(*a) - f64::from_bits(*b)).to_bits()
    }

    fn times(a: &u64, b: &u64) -> u64 {
        (f64::from_bits(*a) * f64::from_bits(*b)).to_bits()
    }

    fn neg(a: &u64) -> u64 {
        (-f64::from_bits(*a)).to_bits()
    }

    fn relu(a: &u64) -> u64 {
        let value = f64::from_bits(*a);
        if value > 0.0 {
            *a
        } else {
            0.0_f64.to_bits()
        }
    }

    fn from_int(v: i64) -> u64 {
        (v as f64).to_bits()
    }

    fn from_single(bits: u32) -> u64 {
        f64::from(f32::from_bits(bits)).to_bits()
    }

    fn from_double(bits: u64) -> u64 {
        bits
    }

    fn literal(v: &Rational) -> Option<u64> {
        let numer = BigInt::from_signed_bytes_le(v.numer_bytes());
        let denom = BigInt::from_signed_bytes_le(v.denom_bytes());
        BigRational::new(numer, denom).to_f64().map(f64::to_bits)
    }
}

/// The terms that the search works on.
#[derive(Debug, Clone, PartialEq, Eq, PartialOrd, Ord, Hash)]
enum Term {
    Atom(u32),
    Neg([Id; 1]),
    Relu([Id; 1]),
    Add([Id; 2]),
    Sub([Id; 2]),
    Mul([Id; 2]),
    Matmul([Id; 2]),
}

impl Language for Term {
    type Discriminant = std::mem::Discriminant<Term>;

    fn discriminant(&self) -> Self::Discriminant {
        std::mem::discriminant(self)
    }

    fn matches(&self, other: &Self) -> bool {
        match (self, other) {
            (Term::Atom(left), Term::Atom(right)) => left == right,
            _ => self.discriminant() == other.discriminant(),
        }
    }

    fn children(&self) -> &[Id] {
        match self {
            Term::Atom(_) => &[],
            Term::Neg(ids) | Term::Relu(ids) => ids,
            Term::Add(ids) | Term::Sub(ids) | Term::Mul(ids) | Term::Matmul(ids) => ids,
        }
    }

    fn children_mut(&mut self) -> &mut [Id] {
        match self {
            Term::Atom(_) => &mut [],
            Term::Neg(ids) | Term::Relu(ids) => ids,
            Term::Add(ids) | Term::Sub(ids) | Term::Mul(ids) | Term::Matmul(ids) => ids,
        }
    }
}

impl FromOp for Term {
    type Error = FromOpError;

    fn from_op(op: &str, children: Vec<Id>) -> Result<Self, Self::Error> {
        match (op, children.as_slice()) {
            ("neg", &[x]) => Ok(Term::Neg([x])),
            ("relu", &[x]) => Ok(Term::Relu([x])),
            ("add", &[l, r]) => Ok(Term::Add([l, r])),
            ("sub", &[l, r]) => Ok(Term::Sub([l, r])),
            ("mul", &[l, r]) => Ok(Term::Mul([l, r])),
            ("matmul", &[l, r]) => Ok(Term::Matmul([l, r])),
            (_, &[]) if op.parse::<u32>().is_ok() => {
                Ok(Term::Atom(op.parse().expect("checked above")))
            }
            _ => Err(FromOpError::new(op, children)),
        }
    }
}

impl Term {
    fn of(node: EggLang) -> Self {
        let id = |place: usize| Id::from(place);
        match node {
            EggLang::Atom(atom) => Term::Atom(atom),
            EggLang::Neg(x) => Term::Neg([id(x)]),
            EggLang::Relu(x) => Term::Relu([id(x)]),
            EggLang::Add(l, r) => Term::Add([id(l), id(r)]),
            EggLang::Sub(l, r) => Term::Sub([id(l), id(r)]),
            EggLang::Mul(l, r) => Term::Mul([id(l), id(r)]),
            EggLang::Matmul(l, r) => Term::Matmul([id(l), id(r)]),
        }
    }

    fn node(&self) -> EggLang {
        match *self {
            Term::Atom(atom) => EggLang::Atom(atom),
            Term::Neg([x]) => EggLang::Neg(x.into()),
            Term::Relu([x]) => EggLang::Relu(x.into()),
            Term::Add([l, r]) => EggLang::Add(l.into(), r.into()),
            Term::Sub([l, r]) => EggLang::Sub(l.into(), r.into()),
            Term::Mul([l, r]) => EggLang::Mul(l.into(), r.into()),
            Term::Matmul([l, r]) => EggLang::Matmul(l.into(), r.into()),
        }
    }
}

/// The cost of extraction.
struct RightAssocCost;

impl CostFunction<Term> for RightAssocCost {
    type Cost = usize;

    fn cost<C>(&mut self, enode: &Term, mut costs: C) -> Self::Cost
    where
        C: FnMut(Id) -> Self::Cost,
    {
        let children = enode.children();
        let left = children.first().map_or(0, |&id| costs(id));
        let right = children.get(1).map_or(0, |&id| costs(id));
        node_cost(enode.node(), left, right).expect("costs fit")
    }
}

fn make_egg_rule(rule: &EggRule) -> Rewrite<Term, ()> {
    let searcher: Pattern<Term> = rule.searcher.parse().expect("searcher is a pattern");
    let applier: Pattern<Term> = rule.applier.parse().expect("applier is a pattern");
    Rewrite::new(rule.name, searcher, applier).expect("rule is valid")
}

fn extract_one(expr: &RecExpr, cfg: &EggConfig, rules: &[Rewrite<Term, ()>]) -> RecExpr {
    let mut start = egg::RecExpr::<Term>::default();
    for &node in expr.nodes() {
        start.add(Term::of(node));
    }
    let runner = Runner::<Term, ()>::default()
        .with_expr(&start)
        .with_node_limit(cfg.node_limit)
        .with_iter_limit(cfg.iter_limit)
        .with_time_limit(Duration::from_millis(cfg.time_limit_ms))
        .run(rules);
    let extractor = Extractor::new(&runner.egraph, RightAssocCost);
    let (_, best) = extractor.find_best(runner.roots[0]);
    let nodes = best.as_ref().iter().map(Term::node).collect::<Vec<_>>();
    RecExpr::from_nodes(nodes).expect("operands stand before their users")
}

fn optimize_with_egg_rules(
    graph: &Graph,
    cfg: &EggConfig,
    rules: &[EggRule],
) -> Result<EggResult, EggError> {
    let rules = rules.iter().map(make_egg_rule).collect::<Vec<_>>();
    let (_, exprs) = prepare_search(graph)?;
    let extracted = exprs
        .into_iter()
        .map(|(expr, atoms)| (extract_one(&expr, cfg, &rules), atoms))
        .collect::<Vec<_>>();
    Ok(conclude_search::<HostF64>(graph, &extracted, cfg))
}

fn optimize_with_egg(graph: &Graph, cfg: &EggConfig) -> Result<EggResult, EggError> {
    optimize_with_egg_rules(graph, cfg, &egg_rules_for_mode(cfg.mode))
}

fn bind<T, const N: usize>(entries: [(String, T); N]) -> Bindings<T> {
    let mut bindings = Bindings::new();
    for (name, value) in entries {
        bindings.insert(name, value);
    }
    bindings
}

fn bits(values: &[f64]) -> Vec<u64> {
    values.iter().map(|value| value.to_bits()).collect()
}

const RANDOM_GRAPHS: usize = 32;
const F64_INPUT_SETS: usize = 4;

fn shape(dims: &[usize]) -> Shape {
    Shape::new(dims.iter().copied().map(Dim::new).collect())
}

fn finish(builder: GraphBuilder, output: NodeId) -> Graph {
    let mut builder = builder;
    builder.mark_output(output).expect("output id is valid");
    builder.build().expect("graph is structurally valid")
}

#[test]
fn conversion_round_trip_preserves_semantics_for_algebraic_and_atom_ops() {
    for graph in [algebraic_graph(), atom_heavy_graph()] {
        let output = graph.outputs()[0];
        let (expr, atoms) = graph_to_recexpr(&graph, output).expect("conversion succeeds");
        let round_trip = recexpr_to_graph(&expr, &atoms, &graph).expect("back-conversion succeeds");
        round_trip
            .validate_structure()
            .expect("round-trip graph is structurally valid");
        let exact_inputs = exact_inputs_for_graph(&graph);
        assert_exact_eval_eq(&graph, &round_trip, &exact_inputs);
    }
}

#[test]
fn strict_egg_simplifies_and_preserves_oracles() {
    let graph = algebraic_graph();
    let cfg = EggConfig {
        mode: RewriteMode::Strict,
        seed: 0xd00,
        ..EggConfig::default()
    };
    let result = optimize_with_egg(&graph, &cfg).expect("egg optimization succeeds");
    let exact_inputs = exact_inputs_for_graph(&graph);
    let f64_inputs = f64_inputs_for_graph(&graph);

    assert!(result.accepted);
    assert!(result.result_nodes <= result.original_nodes);
    assert_exact_eval_eq(&graph, &result.graph, &exact_inputs);
    assert_f64_eval_bit_eq(&graph, &result.graph, &f64_inputs);
}

#[test]
fn validation_gate_rejects_unsound_egg_rule() {
    let graph = add_const_graph();
    let cfg = EggConfig {
        mode: RewriteMode::Strict,
        seed: 0xe00,
        validation_trials: 16,
        ..EggConfig::default()
    };
    let unsound = EggRule {
        name: "unsound-add-left",
        searcher: "(add ?a ?b)",
        applier: "?a",
    };
    let result = optimize_with_egg_rules(&graph, &cfg, &[unsound])
        .expect("egg optimization returns fallback");

    assert!(!result.accepted);
    assert_eq!(result.graph.to_text(), graph.to_text());
    assert_eq!(result.original_nodes, graph.num_nodes());
    assert_eq!(result.result_nodes, graph.num_nodes());
}

#[test]
fn strict_excludes_and_fast_math_accepts_reassociation() {
    let graph = add_assoc_graph();
    let strict_cfg = EggConfig {
        mode: RewriteMode::Strict,
        seed: 0xf00,
        ..EggConfig::default()
    };
    let fast_cfg = EggConfig {
        mode: RewriteMode::FastMath,
        seed: 0xf00,
        ..EggConfig::default()
    };
    let inputs = assoc_sensitive_inputs();

    let strict = optimize_with_egg(&graph, &strict_cfg).expect("strict egg succeeds");
    assert_f64_eval_bit_eq(&graph, &strict.graph, &inputs);

    let fast = optimize_with_egg(&graph, &fast_cfg).expect("fast-math egg succeeds");
    assert!(fast.accepted);
    assert_exact_eval_eq(&graph, &fast.graph, &assoc_exact_inputs());
    assert!(
        !eval_f64::<HostF64>(&graph, &inputs).expect("original evaluates")[0]
            .bit_eq(&eval_f64::<HostF64>(&fast.graph, &inputs).expect("optimized evaluates")[0])
    );
}

#[test]
fn strict_random_graph_outputs_clear_rational_and_f64_oracles() {
    let cfg = GenConfig {
        dtype: DType::F64,
        seed: 0x1000,
        ..GenConfig::default()
    };
    let egg_cfg = EggConfig {
        mode: RewriteMode::Strict,
        seed: 0x1100,
        validation_trials: 32,
        ..EggConfig::default()
    };

    for iteration in 0..RANDOM_GRAPHS {
        let mut rng = StdRng::seed_from_u64(cfg.seed.wrapping_add(iteration as u64));
        let (graph, _) = random_graph(&cfg, &mut rng).expect("generation succeeds");
        let result = optimize_with_egg(&graph, &egg_cfg).expect("egg optimization succeeds");
        let exact_inputs = random_inputs(&graph, cfg.value_range, &mut rng);
        assert_exact_eval_eq(&graph, &result.graph, &exact_inputs);
        for inputs in f64_input_sets(&graph, &mut rng) {
            assert_f64_eval_bit_eq(&graph, &result.graph, &inputs);
        }
    }
}

#[test]
fn egg_search_is_deterministic_for_same_input_and_config() {
    let graph = algebraic_graph();
    let cfg = EggConfig {
        mode: RewriteMode::Strict,
        seed: 0x1200,
        ..EggConfig::default()
    };
    let left = optimize_with_egg(&graph, &cfg).expect("left run succeeds");
    let right = optimize_with_egg(&graph, &cfg).expect("right run succeeds");

    assert_eq!(left.graph.to_text(), right.graph.to_text());
    assert_eq!(left.accepted, right.accepted);
    assert_eq!(left.original_nodes, right.original_nodes);
    assert_eq!(left.result_nodes, right.result_nodes);
}

fn algebraic_graph() -> Graph {
    let mut builder = GraphBuilder::new();
    let x = builder
        .input("x", DType::F64, shape(&[2]))
        .expect("input is valid");
    let y = builder
        .input("y", DType::F64, shape(&[2]))
        .expect("input is valid");
    let neg = builder.neg(x).expect("neg is valid");
    let neg_neg = builder.neg(neg).expect("neg is valid");
    let relu = builder.relu(y).expect("relu is valid");
    let relu_relu = builder.relu(relu).expect("relu is valid");
    let add = builder.add(neg_neg, relu_relu).expect("add is valid");
    finish(builder, add)
}

fn atom_heavy_graph() -> Graph {
    let mut builder = GraphBuilder::new();
    let x = builder
        .input("x", DType::F64, shape(&[2, 2]))
        .expect("input is valid");
    let reshaped = builder.reshape(x, shape(&[4])).expect("reshape is valid");
    let sum = builder.sum(reshaped, vec![0], false).expect("sum is valid");
    let neg = builder.neg(sum).expect("neg is valid");
    let neg_neg = builder.neg(neg).expect("neg is valid");
    finish(builder, neg_neg)
}

fn add_const_graph() -> Graph {
    let mut builder = GraphBuilder::new();
    let x = builder
        .input("x", DType::F64, shape(&[1]))
        .expect("input is valid");
    let one = builder
        .constant(TensorData::F64(bits(&[1.0])), shape(&[1]))
        .expect("const is valid");
    let add = builder.add(x, one).expect("add is valid");
    finish(builder, add)
}

fn add_assoc_graph() -> Graph {
    let mut builder = GraphBuilder::new();
    let a = builder
        .input("a", DType::F64, shape(&[1]))
        .expect("input is valid");
    let b = builder
        .input("b", DType::F64, shape(&[1]))
        .expect("input is valid");
    let c = builder
        .input("c", DType::F64, shape(&[1]))
        .expect("input is valid");
    let left = builder.add(a, b).expect("add is valid");
    let root = builder.add(left, c).expect("add is valid");
    finish(builder, root)
}

fn exact_inputs_for_graph(graph: &Graph) -> Bindings<Tensor> {
    let mut rng = StdRng::seed_from_u64(0x1300);
    random_inputs(graph, 8, &mut rng)
}

fn f64_inputs_for_graph(graph: &Graph) -> Bindings<TensorF64> {
    let mut rng = StdRng::seed_from_u64(0x1400);
    random_f64_inputs(graph, &mut rng)
}

fn assoc_exact_inputs() -> Bindings<Tensor> {
    bind([
        (
            "a".to_owned(),
            Tensor::from_f64(shape(&[1]), &bits(&[1.0e16])).expect("input is valid"),
        ),
        (
            "b".to_owned(),
            Tensor::from_f64(shape(&[1]), &bits(&[-1.0e16])).expect("input is valid"),
        ),
        (
            "c".to_owned(),
            Tensor::from_f64(shape(&[1]), &bits(&[1.0])).expect("input is valid"),
        ),
    ])
}

fn assoc_sensitive_inputs() -> Bindings<TensorF64> {
    bind([
        (
            "a".to_owned(),
            TensorF64::from_f64(shape(&[1]), &bits(&[1.0e16])).expect("input is valid"),
        ),
        (
            "b".to_owned(),
            TensorF64::from_f64(shape(&[1]), &bits(&[-1.0e16])).expect("input is valid"),
        ),
        (
            "c".to_owned(),
            TensorF64::from_f64(shape(&[1]), &bits(&[1.0])).expect("input is valid"),
        ),
    ])
}

fn assert_exact_eval_eq(original: &Graph, optimized: &Graph, inputs: &Bindings<Tensor>) {
    assert_eq!(
        eval(original, inputs).expect("original evaluates"),
        eval(optimized, inputs).expect("optimized evaluates"),
    );
}

fn assert_f64_eval_bit_eq(
    original: &Graph,
    optimized: &Graph,
    inputs: &Bindings<TensorF64>,
) {
    let original_outputs = eval_f64::<HostF64>(original, inputs).expect("original evaluates");
    let optimized_outputs = eval_f64::<HostF64>(optimized, inputs).expect("optimized evaluates");
    assert_eq!(original_outputs.len(), optimized_outputs.len());
    for (left, right) in original_outputs.iter().zip(optimized_outputs.iter()) {
        assert!(left.bit_eq(right));
    }
}

fn f64_input_sets(graph: &Graph, rng: &mut StdRng) -> Vec<Bindings<TensorF64>> {
    (0..F64_INPUT_SETS)
        .map(|_| random_f64_inputs(graph, rng))
        .collect()
}

fn random_f64_inputs(graph: &Graph, rng: &mut StdRng) -> Bindings<TensorF64> {
    let mut inputs = Bindings::new();
    for &input_id in graph.inputs() {
        let node = graph.node(input_id).expect("input id is valid");
        let Op::Input { name, ty } = node.op() else {
            continue;
        };
        let numel = ty.shape().numel().expect("shape is valid");
        let values = (0..numel)
            .map(|_| random_sensitive_f64(rng))
            .collect::<Vec<_>>();
        let tensor = TensorF64::from_f64(ty.shape().clone(), &bits(&values)).expect("input is valid");
        inputs.insert(name.clone(), tensor);
    }
    inputs
}

fn random_sensitive_f64(rng: &mut StdRng) -> f64 {
    match rng.gen_range(0..10) {
        0 => -0.0,
        1 => 0.0,
        _ => {
            let sign = if rng.gen_bool(0.5) { -1.0 } else { 1.0 };
            let mantissa: i32 = rng.gen_range(1..=16);
            let exponent: i32 = rng.gen_range(-4..=4);
            sign * f64::from(mantissa) * 2.0f64.powi(exponent)
        }
    }
}

fn run_with_search(opts: RunOpts) -> Result<RunReport, PipelineError> {
    let mut run = start(opts)?;
    if let Some(cfg) = search_config(&run.opts) {
        let egg = optimize_with_egg(&run.optimized, &cfg).map_err(PipelineError::Egg)?;
        run = adopt_search(run, egg);
    }
    let (run, kernel) = lower_run(run)?;
    let (run, used_cost) = choose_cost(run, false);
    let tuned = TuneResult {
        kernel,
        moves: Vec::new(),
        cost_before: 0,
        cost_after: 0,
        candidates_evaluated: 0,
    };
    let emitted = emit_run(run, used_cost, tuned)?;
    let (emitted, _) = plan_compile(emitted, false);
    let check = check_run::<HostF64>(&emitted, None)?;
    Ok(finish_run(emitted, false, Vec::new(), check))
}

#[test]
fn modes_and_egg_combinations_stay_rational_equivalent() {
    for mode in [Mode::Strict, Mode::FastMath] {
        for egg in [false, true] {
            let run_opts = RunOpts {
                example: "matmul-relu-sum".to_owned(),
                shapes: Bindings::new(),
                mode,
                egg,
                cost: CostKind::Static,
                reps: 1,
                seed: 0x1800,
                check: true,
                emit: None,
                no_compile: true,
                verbose: false,
            };

            let report = run_with_search(run_opts).expect("pipeline succeeds");
            assert!(matches!(report.check, CheckStatus::Passed(_)));
        }
    }
}

#[test]
fn a_rejected_search_returns_the_graph_handed_in() {
    let mut builder = GraphBuilder::new();
    let x = builder
        .input("x", DType::F64, shape(&[1]))
        .expect("input is valid");
    let one = builder
        .constant(TensorData::F64(bits(&[1.0])), shape(&[1]))
        .expect("const is valid");
    let _dead = builder.relu(x).expect("relu is valid");
    let add = builder.add(x, one).expect("add is valid");
    let graph = finish(builder, add);
    let cfg = EggConfig {
        mode: RewriteMode::Strict,
        seed: 0xe01,
        validation_trials: 16,
        ..EggConfig::default()
    };
    let unsound = EggRule {
        name: "unsound-add-left",
        searcher: "(add ?a ?b)",
        applier: "?a",
    };

    let rejected = optimize_with_egg_rules(&graph, &cfg, &[unsound]).expect("search runs");
    assert!(!rejected.accepted);
    assert_eq!(rejected.graph.to_text(), graph.to_text());
    assert_eq!((rejected.original_nodes, rejected.result_nodes), (4, 4));

    let accepted = optimize_with_egg(&graph, &cfg).expect("search runs");
    assert!(accepted.accepted);
    assert_eq!((accepted.original_nodes, accepted.result_nodes), (4, 3));
}

//! The library's laws on concrete values.

use std::collections::HashMap;

use rand::rngs::StdRng;
use rand::SeedableRng;
use vtc::egg_search::{adopt, conclude_search, prepare_search, trial_seed};
use vtc::generate::INITIAL_LEAVES;
use vtc::lower::{row_major_affine, sum_output_affine};
use vtc::options::parse_shapes;
use vtc::pipeline::bit_exact_ruleset;
use vtc::{
    build_example, eval, eval_loops, graph_to_recexpr, graph_with_pattern, infer_types,
    input_bits, list_examples, lower, parse_outputs, parse_shape_spec, prune_and_rebuild, random_graph, random_inputs,
    recexprs_to_graph, run, AffineExpr, Bindings, DType, Dim, DriverConfig, EggLang, GenConfig,
    Graph, GraphBuilder, Law, LoopVar, NodeId, NumericSafety, Pattern, RecExpr, RewriteMode, Rule,
    RuleSet, Shape, Tensor, TensorF64,
};

fn shape(dims: &[usize]) -> Shape {
    Shape::new(dims.iter().copied().map(Dim::new).collect())
}

fn finish(builder: GraphBuilder, outputs: &[NodeId]) -> Graph {
    let mut builder = builder;
    for &output in outputs {
        builder.mark_output(output).expect("output id is valid");
    }
    builder.build().expect("graph is structurally valid")
}

fn config(seed: u64) -> (GenConfig, StdRng) {
    let cfg = GenConfig {
        seed,
        ..GenConfig::default()
    };
    let rng = StdRng::seed_from_u64(seed);
    (cfg, rng)
}

#[test]
fn printed_bits_read_back() {
    let mut builder = GraphBuilder::new();
    let x = builder.input("x", DType::F64, shape(&[4])).expect("input is valid");
    let kernel = lower(&finish(builder, &[x])).expect("graph lowers");
    let bits = [0, 1, 0x8000_0000_0000_0000, 0x7ff8_0000_dead_beef];
    let tensor = TensorF64::from_f64(shape(&[4]), &bits).expect("tensor is valid");
    let mut inputs = Bindings::new();
    inputs.insert("x".to_owned(), tensor);

    let text = input_bits(&kernel, &inputs).expect("inputs match");
    let outputs = parse_outputs(&kernel, &text).expect("text parses");

    assert_eq!(outputs[0].data(), bits);
}

#[test]
fn assignments_read_back() {
    for (key, value) in [("M", 0usize), ("D0", 10), ("long key", 1234567890123)] {
        let spec = format!("{key}={value}");
        assert_eq!(parse_shape_spec(&spec).expect("valid"), (key.to_owned(), value));
    }
}

#[test]
fn substitution_commutes_with_evaluation() {
    let (i, io, ii) = (LoopVar::new(0), LoopVar::new(1), LoopVar::new(2));
    let expr = AffineExpr::new(vec![(i, 3), (io, -2), (i, 4)], 5);
    let replacement = AffineExpr::new(vec![(io, 8), (ii, 1)], -1);
    let result = expr.substitute(i, &replacement);
    let mut env = HashMap::from([(1u32, 2i64), (2, 3)]);
    let replaced = replacement.eval(&env);
    assert_eq!(replaced, 18);
    let after = result.eval(&env);
    env.insert(0, replaced);
    assert_eq!(after, expr.eval(&env));
    assert_eq!(after, 127);
}

#[test]
fn evaluation_saturates() {
    let big = AffineExpr::new(vec![(LoopVar::new(0), i64::MAX)], 1);
    assert_eq!(big.eval(&HashMap::from([(0u32, 2i64)])), i64::MAX);
    assert_eq!(big.eval(&HashMap::from([(0u32, -2i64)])), i64::MIN + 1);
    assert_eq!(big.eval(&HashMap::new()), 1);
}

#[test]
fn pruning_is_idempotent_and_keeps_inputs() {
    for seed in 0..20 {
        let (cfg, mut rng) = config(seed);
        let (graph, names) = random_graph(&cfg, &mut rng).expect("generation succeeds");
        let once = prune_and_rebuild(&graph).expect("pruning succeeds");
        let twice = prune_and_rebuild(&once).expect("pruning succeeds");
        assert_eq!(once.to_text(), twice.to_text());
        assert_eq!(once.inputs().len(), names.len());
        assert!(once.num_nodes() <= graph.num_nodes());
    }
}

#[test]
fn generated_graphs_hold_their_pattern_and_evaluate() {
    for (pattern, text) in [
        (Pattern::NegNeg, "neg("),
        (Pattern::ReluRelu, "relu("),
        (Pattern::ReshapeReshape, "reshape("),
    ] {
        for dtype in [DType::F32, DType::F64, DType::I32, DType::I64, DType::Bool] {
            let (cfg, mut rng) = config(77);
            let cfg = GenConfig { dtype, ..cfg };
            let (graph, names) =
                graph_with_pattern(&cfg, &mut rng, pattern).expect("generation succeeds");
            assert!(infer_types(&graph).is_ok());
            for (k, name) in names.iter().enumerate() {
                assert_eq!(name, &format!("x{k}"));
            }
            let rendered = graph.to_text();
            let output = graph.outputs()[0];
            let line = |id: NodeId| {
                rendered
                    .lines()
                    .find(|line| line.starts_with(&format!("  %{} = ", id.index())))
                    .expect("node is rendered")
                    .to_owned()
            };
            assert!(line(output).contains(text));
            let inner = graph.node(output).expect("output exists").op().operands()[0];
            assert!(line(inner).contains(text));
            let inputs = random_inputs(&graph, cfg.value_range, &mut rng);
            assert!(eval(&graph, &inputs).is_ok());
        }
    }
}

#[test]
fn rewriting_and_lowering_keep_what_graphs_compute() {
    let rules = bit_exact_ruleset();
    assert_eq!(
        rules.names(),
        ["neg-neg-elim", "relu-idempotent-elim", "reshape-reshape-fuse"]
    );
    for seed in 0..20 {
        let (cfg, mut rng) = config(0x2000 + seed);
        let (graph, _) =
            graph_with_pattern(&cfg, &mut rng, Pattern::ReluRelu).expect("generation succeeds");
        let inputs = random_inputs(&graph, 8, &mut rng);
        let driven = run(&graph, &rules, &DriverConfig::default()).expect("driver succeeds");
        assert!(driven.reached_fixpoint);
        assert!(driven.steps() > 0);
        let kernel = lower(&driven.graph).expect("graph lowers");
        assert_eq!(
            eval_loops(&kernel, &inputs).expect("kernel runs"),
            eval(&graph, &inputs).expect("graph evaluates"),
        );
    }
}

#[test]
fn more_laws_are_no_safer() {
    let exact = [Law::NegInvolutive, Law::FloatAddComm];
    let more = [Law::NegInvolutive, Law::FloatAddComm, Law::FloatMulAssoc];
    assert_eq!(NumericSafety::from_laws(&exact), NumericSafety::BitExact);
    assert_eq!(NumericSafety::from_laws(&more), NumericSafety::RealOnly);
}

#[test]
fn empty_rule_sets_change_nothing_but_dead_nodes() {
    let (cfg, mut rng) = config(5);
    let (graph, _) = random_graph(&cfg, &mut rng).expect("generation succeeds");
    let rules = RuleSet::new();
    assert!(rules.is_empty());
    let result = run(&graph, &rules, &DriverConfig::default()).expect("driver succeeds");
    assert!(result.reached_fixpoint);
    assert_eq!(result.steps(), 0);
    assert_eq!(
        result.graph.to_text(),
        prune_and_rebuild(&graph).expect("pruning succeeds").to_text()
    );
}

#[test]
fn expressions_round_trip_for_several_outputs() {
    let mut builder = GraphBuilder::new();
    let x = builder.input("x", DType::I64, shape(&[2])).expect("input is valid");
    let y = builder.input("y", DType::I64, shape(&[2])).expect("input is valid");
    let sum = builder.add(x, y).expect("add is valid");
    let product = builder.mul(sum, x).expect("mul is valid");
    let negated = builder.neg(sum).expect("neg is valid");
    let graph = finish(builder, &[product, negated]);
    let (first, first_atoms) = graph_to_recexpr(&graph, product).expect("converts");
    let (second, second_atoms) = graph_to_recexpr(&graph, negated).expect("converts");
    assert_eq!(
        first.nodes(),
        [
            EggLang::Atom(0),
            EggLang::Atom(1),
            EggLang::Add(0, 1),
            EggLang::Mul(2, 0),
        ]
    );
    let back = recexprs_to_graph(&vec![(&first, &first_atoms), (&second, &second_atoms)], &graph)
        .expect("converts back");
    let mut rng = StdRng::seed_from_u64(9);
    let inputs = random_inputs(&graph, 8, &mut rng);
    assert_eq!(
        eval(&back, &inputs).expect("evaluates"),
        eval(&graph, &inputs).expect("evaluates")
    );
}

#[test]
fn commuted_sums_give_the_same_outputs() {
    let mut builder = GraphBuilder::new();
    let x = builder.input("x", DType::I64, shape(&[2])).expect("input is valid");
    let y = builder.input("y", DType::I64, shape(&[2])).expect("input is valid");
    let sum = builder.add(x, y).expect("add is valid");
    let graph = finish(builder, &[sum]);
    let (_, atoms) = graph_to_recexpr(&graph, sum).expect("converts");
    let commuted = RecExpr::from_nodes(vec![EggLang::Atom(1), EggLang::Atom(0), EggLang::Add(0, 1)])
        .expect("in order");
    let back = recexprs_to_graph(&vec![(&commuted, &atoms)], &graph).expect("converts back");
    let mut inputs = Bindings::new();
    for (name, values) in [("x", [1, 2]), ("y", [30, -40])] {
        let tensor = Tensor::from_i64(shape(&[2]), &values).expect("tensor is valid");
        inputs.insert(name.to_owned(), tensor);
    }
    assert_eq!(
        eval(&back, &inputs).expect("evaluates"),
        eval(&graph, &inputs).expect("evaluates")
    );
}

#[test]
fn candidates_are_adopted_only_when_small_and_passed() {
    let graphs = || {
        let mut builder = GraphBuilder::new();
        let x = builder.input("x", DType::I64, shape(&[1])).expect("input is valid");
        let neg = builder.neg(x).expect("neg is valid");
        let small = finish(builder, &[neg]);
        let mut builder = GraphBuilder::new();
        let x = builder.input("x", DType::I64, shape(&[1])).expect("input is valid");
        let neg = builder.neg(x).expect("neg is valid");
        let neg = builder.neg(neg).expect("neg is valid");
        (small, finish(builder, &[neg]))
    };
    let (small, large) = graphs();
    let result = adopt(&large, 3, Some(small), true, 7);
    assert!(result.accepted);
    assert_eq!((result.original_nodes, result.result_nodes), (3, 2));
    assert_eq!(result.validation_trials, 7);
    let (small, large) = graphs();
    assert!(!adopt(&large, 3, Some(small), false, 7).accepted);
    let (small, large) = graphs();
    assert!(!adopt(&large, 1, Some(small), true, 7).accepted);
    let (small, large) = graphs();
    let result = adopt(&small, 2, Some(large), true, 7);
    assert!(!result.accepted);
    assert_eq!(result.graph.num_nodes(), 2);
    let (small, _) = graphs();
    assert!(!adopt(&small, 2, None, true, 7).accepted);
}

#[test]
fn searches_start_from_the_pruned_graph() {
    let mut builder = GraphBuilder::new();
    let x = builder.input("x", DType::I64, shape(&[1])).expect("input is valid");
    let _dead = builder.relu(x).expect("relu is valid");
    let neg = builder.neg(x).expect("neg is valid");
    let graph = finish(builder, &[neg]);
    let (original, exprs) = prepare_search(&graph).expect("search is prepared");
    assert_eq!(original.num_nodes(), 2);
    assert_eq!(exprs.len(), 1);
    let cfg = vtc::EggConfig {
        mode: RewriteMode::FastMath,
        ..vtc::EggConfig::default()
    };
    let result = conclude_search::<NoDoubles>(&graph, &exprs, &cfg);
    assert!(result.accepted);
    assert_eq!(result.original_nodes, 3);
    assert_eq!(result.result_nodes, 2);
}

/// Doubles that no test computes with.
struct NoDoubles;

impl vtc::Domain for NoDoubles {
    type Elem = u64;
    type V = u64;

    fn zero() -> u64 {
        0
    }

    fn copy(a: &u64) -> u64 {
        *a
    }

    fn plus(_: &u64, _: &u64) -> u64 {
        unreachable!()
    }

    fn minus(_: &u64, _: &u64) -> u64 {
        unreachable!()
    }

    fn times(_: &u64, _: &u64) -> u64 {
        unreachable!()
    }

    fn neg(_: &u64) -> u64 {
        unreachable!()
    }

    fn relu(_: &u64) -> u64 {
        unreachable!()
    }

    fn from_int(_: i64) -> u64 {
        unreachable!()
    }

    fn from_single(_: u32) -> u64 {
        unreachable!()
    }

    fn from_double(_: u64) -> u64 {
        unreachable!()
    }

    fn literal(_: &vtc::Rational) -> Option<u64> {
        None
    }
}

#[test]
fn rules_of_a_set_keep_their_order() {
    let mut rules = RuleSet::new();
    rules.add(Rule {
        rewrite: Box::new(vtc::ReshapeReshapeFuse),
    });
    rules.add(Rule {
        rewrite: Box::new(vtc::NegNegElim),
    });
    assert_eq!(rules.len(), 2);
    assert_eq!(rules.names(), ["reshape-reshape-fuse", "neg-neg-elim"]);
    assert_eq!(rules.enabled(RewriteMode::Strict).len(), 2);
}

#[test]
fn substitution_gives_normal_terms() {
    let (i, j) = (LoopVar::new(0), LoopVar::new(1));
    let expr = AffineExpr::new(vec![(j, -2), (i, 2)], 1);
    let result = expr.substitute(i, &AffineExpr::new(vec![(j, 1)], 4));
    assert_eq!(result, AffineExpr::new(Vec::new(), 9));
    assert_eq!(result.constant_term(), 9);
}

#[test]
fn runs_add_no_nodes() {
    let rules = bit_exact_ruleset();
    for seed in 0..20 {
        let (cfg, mut rng) = config(0x3000 + seed);
        let (graph, _) = random_graph(&cfg, &mut rng).expect("generation succeeds");
        let driven = run(&graph, &rules, &DriverConfig::default()).expect("driver succeeds");
        assert!(driven.graph.num_nodes() <= graph.num_nodes());
    }
}

#[test]
fn sums_over_no_axes_are_identities() {
    for keepdim in [false, true] {
        let mut builder = GraphBuilder::new();
        let x = builder.input("x", DType::I64, shape(&[2, 2])).expect("input is valid");
        let sum = builder.sum(x, Vec::new(), keepdim).expect("sum is valid");
        let graph = finish(builder, &[sum]);
        let tensor = Tensor::from_i64(shape(&[2, 2]), &[1, -2, 0, 7]).expect("tensor is valid");
        let mut inputs = Bindings::new();
        inputs.insert("x".to_owned(), tensor.clone());
        assert_eq!(eval(&graph, &inputs).expect("graph evaluates"), vec![tensor]);
    }
}

#[test]
fn copies_of_kernels_are_the_same() {
    let (cfg, mut rng) = config(11);
    let (graph, _) = random_graph(&cfg, &mut rng).expect("generation succeeds");
    let kernel = lower(&graph).expect("graph lowers");
    assert_eq!(kernel.clone().to_text(), kernel.to_text());
}

#[test]
fn trials_draw_from_seeds_of_their_own() {
    let cfg = vtc::EggConfig {
        seed: u64::MAX - 1,
        ..vtc::EggConfig::default()
    };
    assert_eq!(trial_seed(&cfg, 0), u64::MAX - 1);
    assert_eq!(trial_seed(&cfg, 1), u64::MAX);
    assert_eq!(trial_seed(&cfg, 3), 1);
}

#[test]
fn row_major_indices_are_one_to_one_and_onto() {
    let vars = vec![LoopVar::new(4), LoopVar::new(1), LoopVar::new(7)];
    let dims = [2usize, 3, 4];
    let flat = row_major_affine(&shape(&dims), &vars).expect("strides fit");
    assert_eq!(
        flat,
        AffineExpr::new(vec![(vars[0], 12), (vars[1], 4), (vars[2], 1)], 0)
    );
    let mut seen = Vec::new();
    for a in 0..2i64 {
        for b in 0..3i64 {
            for c in 0..4i64 {
                seen.push(flat.eval(&HashMap::from([(4u32, a), (1, b), (7, c)])));
            }
        }
    }
    assert_eq!(seen, (0..24).collect::<Vec<_>>());

    let error = row_major_affine(&shape(&dims), &vec![LoopVar::new(0)]).expect_err("wrong rank");
    assert_eq!(
        error.to_text(),
        "internal lowering error: affine rank does not match variables"
    );
    let error = row_major_affine(
        &shape(&[2, usize::MAX, 2]),
        &vec![LoopVar::new(0), LoopVar::new(1), LoopVar::new(2)],
    )
    .expect_err("stride overflows");
    assert_eq!(
        error.to_text(),
        "internal lowering error: row-major stride overflow"
    );
}

#[test]
fn sum_indices_ignore_keepdim_and_reduced_variables() {
    let vars = vec![LoopVar::new(0), LoopVar::new(1), LoopVar::new(2)];
    let wide = shape(&[2, 3, 4]);
    let axes = vec![1usize];
    let kept = sum_output_affine(&wide, &shape(&[2, 1, 4]), &axes, true, &vars).expect("fits");
    let left = sum_output_affine(&wide, &shape(&[2, 4]), &axes, false, &vars).expect("fits");
    assert_eq!(kept, left);
    assert_eq!(
        left,
        AffineExpr::new(vec![(LoopVar::new(0), 4), (LoopVar::new(2), 1)], 0)
    );
    assert_eq!(left.eval(&HashMap::from([(0u32, 1i64), (1, 2), (2, 3)])), 7);

    let error = sum_output_affine(&wide, &shape(&[2]), &axes, false, &vars).expect_err("rank");
    assert_eq!(
        error.to_text(),
        "internal lowering error: sum output rank mismatch: input [2, 3, 4], output [2]"
    );
}

#[test]
fn evaluated_graphs_lower() {
    for seed in 0..20 {
        let (cfg, mut rng) = config(0x4000 + seed);
        let (graph, _) = random_graph(&cfg, &mut rng).expect("generation succeeds");
        let kernel = lower(&graph).expect("graph lowers");
        let types = infer_types(&graph).expect("graph is well typed");
        let output = types.type_of(graph.outputs()[0]).expect("output has a type");
        assert_eq!(kernel.output_shapes(), &[output.shape().clone()]);
    }
}

#[test]
fn ordered_graphs_have_a_schedule() {
    for seed in 0..20 {
        let (cfg, mut rng) = config(0x5000 + seed);
        let (graph, _) = random_graph(&cfg, &mut rng).expect("generation succeeds");
        assert_eq!(graph.topo_order().expect("acyclic").len(), graph.num_nodes());
    }
}

#[test]
fn generated_graphs_follow_their_configuration() {
    for (size, pattern) in [(0usize, None), (5, None), (12, Some(Pattern::NegNeg))] {
        for seed in 0..30 {
            let (cfg, mut rng) = config(0x6000 + seed);
            let cfg = GenConfig {
                size,
                max_dim: 3,
                value_range: 2,
                ..cfg
            };
            let (graph, _) = match pattern {
                Some(pattern) => graph_with_pattern(&cfg, &mut rng, pattern),
                None => random_graph(&cfg, &mut rng),
            }
            .expect("generation succeeds");
            let extra = if pattern.is_some() { 2 } else { 0 };
            assert!(graph.num_nodes() >= INITIAL_LEAVES + size + extra);
            assert!(graph.num_nodes() <= INITIAL_LEAVES + 3 * size + extra);
            for i in 0..graph.num_nodes() {
                let node = graph.node(NodeId::new(i)).expect("node exists");
                let leaf = match node.op() {
                    vtc::Op::Input { ty, .. } => ty.shape(),
                    vtc::Op::Const { data, shape } => {
                        let vtc::TensorData::I64(values) = data else {
                            panic!("constants are of the configured dtype");
                        };
                        assert!(values.iter().all(|v| (-2..=2).contains(v)));
                        shape
                    }
                    _ => continue,
                };
                let within = leaf.dims().iter().all(|dim| dim.get() <= 3);
                let factor = leaf.rank() == 2
                    && leaf.dims()[1].get() <= 3
                    && matches!(
                        graph.node(NodeId::new(i + 1)).map(|next| next.op()),
                        Ok(vtc::Op::Matmul(_, right)) if right.index() == i
                    );
                assert!(within || factor);
            }
        }
    }
}

#[test]
fn descriptions_give_the_defaults() {
    for (name, description) in list_examples() {
        let specs = description.split(',').map(str::to_owned).collect::<Vec<_>>();
        let shapes = parse_shapes(&specs).expect("description parses");
        let (given, _) = build_example(name, &shapes).expect("example builds");
        let (default, inputs) = build_example(name, &Bindings::new()).expect("example builds");
        assert!(!inputs.is_empty());
        assert_eq!(given.to_text(), default.to_text());
    }
}

//! Equality-saturation search guarded by evaluation.
//!
//! The search itself is not trusted: its result is adopted only if it
//! converts back to a well-typed graph, is no larger, and agrees with the
//! original on every validation trial.
use vstd::prelude::*;

use crate::bindings::Bindings;
use crate::data::DataView;
use crate::domain::{Domain, Exact};
use crate::draws::clamp_i32;
use crate::dtype::DType;
use crate::egg_graph::{expr_views, graph_of, recexprs_to_graph};
use crate::egg_lang::{
    graph_to_recexpr, invalid_graph, recexpr_of, AtomTable, EggError, EggErrorView, EggLang,
    RecExpr,
};
use crate::eval::{bound, eval, eval_f64, eval_graph, meanings};
use crate::float::{finite64, from_int64, int_double, negative64, value64};
use crate::graph::{
    structure_error, validation_accepts_exactly_well_formed, Graph, GraphView,
};
use crate::op::{NodeId, Op, OpView};
use crate::random::{sensitive, signed_dyadic, small_double, Draw, Generator};
use crate::rational::Rational;
use crate::safety::RewriteMode;
use crate::seqs::{collect, lemma_collect_error, lemma_collect_step};
use crate::shape::{numel, numel_fits};
use crate::supply::{
    bound_for_all, lemma_bound_insert, lemma_served_insert, lemma_served_more, listed, served,
};
use crate::surgery::{prune_and_rebuild, pruned, pruning_succeeds};
use crate::tensor::{
    all_bit_equal, bit_views, lifted, meaning, same_tensors, tensors_bit_eq, Tensor, TensorF64,
    TensorView,
};
use crate::tensor_type::{TensorType, TypeView};

verus! {

/// Configuration of a search.
#[derive(Debug, Clone, Copy)]
pub struct EggConfig {
    /// Which rules may be used.
    pub mode: RewriteMode,
    /// Limit on the nodes of the search.
    pub node_limit: usize,
    /// Limit on the iterations of the search.
    pub iter_limit: usize,
    /// Limit on the time of the search, in milliseconds.
    pub time_limit_ms: u64,
    /// Number of validation trials.
    pub validation_trials: usize,
    /// Seed of the validation inputs.
    pub seed: u64,
}

impl Default for EggConfig {
    fn default() -> (r: Self)
        ensures
            r == (EggConfig {
                mode: RewriteMode::Strict,
                node_limit: 10_000,
                iter_limit: 8,
                time_limit_ms: 250,
                validation_trials: 64,
                seed: 0x517c_c1b7_5eed_0100,
            }),
    {
        EggConfig {
            mode: RewriteMode::Strict,
            node_limit: 10_000,
            iter_limit: 8,
            time_limit_ms: 250,
            validation_trials: 64,
            seed: 0x517c_c1b7_5eed_0100,
        }
    }
}

/// Result of a search.
#[derive(Debug, Clone)]
pub struct EggResult {
    /// The candidate where it was accepted, else the original graph.
    pub graph: Graph,
    /// Whether the candidate was accepted.
    pub accepted: bool,
    /// Nodes of the original graph.
    pub original_nodes: usize,
    /// Nodes of the result.
    pub result_nodes: usize,
    /// Number of validation trials.
    pub validation_trials: usize,
}

/// A search rule: patterns over expressions.
#[derive(Debug, Clone, Copy, PartialEq, Eq)]
pub struct EggRule {
    pub name: &'static str,
    pub searcher: &'static str,
    pub applier: &'static str,
}

/// The contents of an [`EggRule`].
pub open spec fn rule_texts(rules: Seq<EggRule>) -> Seq<(Seq<char>, Seq<char>, Seq<char>)> {
    rules.map_values(|r: EggRule| (r.name@, r.searcher@, r.applier@))
}

/// The rules of a mode: involution, idempotence and commutativity, and with fast math also
/// associativity of addition in both directions.
pub open spec fn rules_of(mode: RewriteMode) -> Seq<(Seq<char>, Seq<char>, Seq<char>)> {
    let exact = seq![
        ("egg-neg-neg"@, "(neg (neg ?x))"@, "?x"@),
        ("egg-relu-relu"@, "(relu (relu ?x))"@, "(relu ?x)"@),
        ("egg-add-comm"@, "(add ?a ?b)"@, "(add ?b ?a)"@),
        ("egg-mul-comm"@, "(mul ?a ?b)"@, "(mul ?b ?a)"@),
    ];
    if mode == RewriteMode::FastMath {
        exact + seq![
            ("egg-add-assoc-right"@, "(add (add ?a ?b) ?c)"@, "(add ?a (add ?b ?c))"@),
            ("egg-add-assoc-left"@, "(add ?a (add ?b ?c))"@, "(add (add ?a ?b) ?c)"@),
        ]
    } else {
        exact
    }
}

/// Returns the search rules of a mode.
pub fn egg_rules_for_mode(mode: RewriteMode) -> (r: Vec<EggRule>)
    ensures
        rule_texts(r@) == rules_of(mode),
{
    let mut rules: Vec<EggRule> = Vec::new();
    rules.push(EggRule { name: "egg-neg-neg", searcher: "(neg (neg ?x))", applier: "?x" });
    rules.push(
        EggRule { name: "egg-relu-relu", searcher: "(relu (relu ?x))", applier: "(relu ?x)" },
    );
    rules.push(EggRule { name: "egg-add-comm", searcher: "(add ?a ?b)", applier: "(add ?b ?a)" });
    rules.push(EggRule { name: "egg-mul-comm", searcher: "(mul ?a ?b)", applier: "(mul ?b ?a)" });
    if mode == RewriteMode::FastMath {
        rules.push(
            EggRule {
                name: "egg-add-assoc-right",
                searcher: "(add (add ?a ?b) ?c)",
                applier: "(add ?a (add ?b ?c))",
            },
        );
        rules.push(
            EggRule {
                name: "egg-add-assoc-left",
                searcher: "(add ?a (add ?b ?c))",
                applier: "(add (add ?a ?b) ?c)",
            },
        );
    }
    proof {
        assert(rule_texts(rules@) =~= rules_of(mode));
    }
    rules
}

/// The cost of an expression node over the costs of its operands. Sums cost more the deeper they
/// nest to the left.
pub open spec fn cost_of(node: EggLang, left: nat, right: nat) -> nat {
    match node {
        EggLang::Atom(_) => 1,
        EggLang::Neg(_) | EggLang::Relu(_) => 1 + left,
        EggLang::Matmul(_, _) => 8 + left + right,
        EggLang::Add(_, _) => 1 + 2 * left + right,
        EggLang::Sub(_, _) | EggLang::Mul(_, _) => 1 + left + right,
    }
}

/// Returns the cost of an expression node over the costs of its operands, where it is in range.
pub fn node_cost(node: EggLang, left: usize, right: usize) -> (r: Option<usize>)
    ensures
        r == (if cost_of(node, left as nat, right as nat) <= usize::MAX {
            Some(cost_of(node, left as nat, right as nat) as usize)
        } else {
            None
        }),
{
    let l: u128 = left as u128;
    let r: u128 = right as u128;
    let cost: u128 = match node {
        EggLang::Atom(_) => 1,
        EggLang::Neg(_) | EggLang::Relu(_) => 1 + l,
        EggLang::Matmul(_, _) => 8 + l + r,
        EggLang::Add(_, _) => 1 + 2 * l + r,
        EggLang::Sub(_, _) | EggLang::Mul(_, _) => 1 + l + r,
    };
    if cost <= usize::MAX as u128 {
        Some(cost as usize)
    } else {
        None
    }
}

/// What a search starts from: the pruned graph and the expression of each output.
pub open spec fn search_start(g: GraphView) -> Result<
    (GraphView, Seq<(Seq<EggLang>, Seq<NodeId>)>),
    EggErrorView,
> {
    match structure_error(g) {
        Some(e) => Err(invalid_graph(e)),
        None => {
            let original = pruned(g)->Ok_0;
            match collect(original.outputs.map_values(|id: NodeId| recexpr_of(original, id))) {
                Err(e) => Err(e),
                Ok(exprs) => Ok((original, exprs)),
            }
        },
    }
}

/// The contents of owned expressions and atom tables.
pub open spec fn owned_views(outputs: Seq<(RecExpr, AtomTable)>) -> Seq<
    (Seq<EggLang>, Seq<NodeId>),
> {
    outputs.map_values(|o: (RecExpr, AtomTable)| (o.0@, o.1@))
}

/// Prepares a search: prunes the graph and converts each output to an expression, whose atoms
/// name nodes of the pruned graph.
///
/// # Errors
///
/// Returns [`EggError`] if the graph is not well-formed or an output cannot be
/// converted.
pub fn prepare_search(graph: &Graph) -> (r: Result<(Graph, Vec<(RecExpr, AtomTable)>), EggError>)
    ensures
        match r {
            Ok((original, exprs)) => search_start(graph@) == Ok::<
                (GraphView, Seq<(Seq<EggLang>, Seq<NodeId>)>),
                EggErrorView,
            >((original@, owned_views(exprs@))),
            Err(e) => search_start(graph@) == Err::<
                (GraphView, Seq<(Seq<EggLang>, Seq<NodeId>)>),
                EggErrorView,
            >(e@),
        },
{
    match graph.validate_structure() {
        Ok(()) => {}
        Err(e) => {
            return Err(EggError::BackConversionInvalid(e.to_text()));
        }
    }
    let original = match prune_and_rebuild(graph) {
        Ok(original) => original,
        Err(e) => {
            return Err(EggError::Internal(e.to_text()));
        }
    };
    let ghost g = original@;
    let ghost results = g.outputs.map_values(|id: NodeId| recexpr_of(g, id));
    let mut exprs: Vec<(RecExpr, AtomTable)> = Vec::new();
    proof {
        assert(owned_views(exprs@) =~= Seq::empty());
        assert(results.take(0) =~= Seq::empty());
    }
    let mut k: usize = 0;
    while k < original.outputs.len()
        invariant
            k <= g.outputs.len(),
            g == original@,
            results == g.outputs.map_values(|id: NodeId| recexpr_of(g, id)),
            structure_error(graph@) is None,
            pruned(graph@) == Ok::<GraphView, crate::surgery::SurgeryError>(g),
            collect(results.take(k as int)) == Ok::<
                Seq<(Seq<EggLang>, Seq<NodeId>)>,
                EggErrorView,
            >(owned_views(exprs@)),
        decreases g.outputs.len() - k,
    {
        proof {
            lemma_collect_step(results, k as int);
        }
        match graph_to_recexpr(&original, original.outputs[k]) {
            Ok((expr, atoms)) => {
                let ghost before = exprs@;
                let ghost pair = (expr@, atoms@);
                exprs.push((expr, atoms));
                proof {
                    assert(owned_views(exprs@) =~= owned_views(before).push(pair));
                }
            }
            Err(e) => {
                proof {
                    lemma_collect_error(results, k as int + 1);
                }
                return Err(e);
            }
        }
        k += 1;
    }
    proof {
        assert(results.take(k as int) =~= results);
    }
    Ok((original, exprs))
}

/// Both graphs evaluate exactly, to the same outputs.
pub open spec fn agree_exactly(
    a: GraphView,
    b: GraphView,
    inputs: Map<Seq<char>, TensorView<real>>,
) -> bool {
    &&& eval_graph::<Exact>(a, inputs) is Ok
    &&& eval_graph::<Exact>(b, inputs) is Ok
    &&& eval_graph::<Exact>(a, inputs)->Ok_0 == eval_graph::<Exact>(b, inputs)->Ok_0
}

/// Returns whether both graphs evaluate exactly to the same outputs.
pub fn exact_trial(original: &Graph, candidate: &Graph, inputs: &Bindings<Tensor>) -> (r: bool)
    ensures
        r == agree_exactly(original@, candidate@, bound::<Exact>(*inputs)),
{
    match eval(original, inputs) {
        Err(_) => false,
        Ok(left) => match eval(candidate, inputs) {
            Err(_) => false,
            Ok(right) => same_tensors(&left, &right),
        },
    }
}

/// What the bit patterns of the tensors stand for.
pub open spec fn bit_meanings<D: Domain<Elem = u64>>(ts: Seq<TensorView<u64>>) -> Seq<
    TensorView<D::V>,
> {
    ts.map_values(|t: TensorView<u64>| meaning::<D>(t))
}

/// Both graphs evaluate over doubles, to outputs whose bits compare as `same`.
pub open spec fn compare_doubles<D: Domain<Elem = u64>>(
    a: GraphView,
    b: GraphView,
    inputs: Map<Seq<char>, TensorView<D::V>>,
    same: bool,
) -> bool {
    &&& eval_graph::<D>(a, inputs) is Ok
    &&& eval_graph::<D>(b, inputs) is Ok
    &&& exists|x: Seq<TensorView<u64>>, y: Seq<TensorView<u64>>|
        #[trigger] bit_meanings::<D>(x) == eval_graph::<D>(a, inputs)->Ok_0
            && #[trigger] bit_meanings::<D>(y) == eval_graph::<D>(b, inputs)->Ok_0 && all_bit_equal(
            x,
            y,
        ) == same
}

/// Returns whether both graphs evaluate over doubles to bit-equal outputs.
pub fn double_trial<D: Domain<Elem = u64>>(
    original: &Graph,
    candidate: &Graph,
    inputs: &Bindings<TensorF64>,
) -> (r: bool)
    ensures
        r ==> compare_doubles::<D>(original@, candidate@, bound::<D>(*inputs), true),
        !r ==> eval_graph::<D>(original@, bound::<D>(*inputs)) is Err || eval_graph::<D>(
            candidate@,
            bound::<D>(*inputs),
        ) is Err || compare_doubles::<D>(original@, candidate@, bound::<D>(*inputs), false),
{
    match eval_f64::<D>(original, inputs) {
        Err(_) => false,
        Ok(left) => match eval_f64::<D>(candidate, inputs) {
            Err(_) => false,
            Ok(right) => {
                let same = tensors_bit_eq(&left, &right);
                proof {
                    assert(bit_meanings::<D>(bit_views(left@)) =~= meanings::<D>(left@));
                    assert(bit_meanings::<D>(bit_views(right@)) =~= meanings::<D>(right@));
                }
                same
            }
        },
    }
}

/// Adopts a candidate that is no larger than the pruned graph and passed validation.
///
/// Without a candidate, or where it is larger or did not pass, the original graph
/// is returned as it was.
pub fn adopt(
    graph: &Graph,
    pruned_nodes: usize,
    candidate: Option<Graph>,
    passed: bool,
    trials: usize,
) -> (r: EggResult)
    ensures
        r.original_nodes == graph@.nodes.len(),
        r.validation_trials == trials,
        r.result_nodes == r.graph@.nodes.len(),
        r.accepted == (candidate is Some && candidate->Some_0@.nodes.len() <= pruned_nodes
            && passed),
        r.graph@ == (if r.accepted {
            candidate->Some_0@
        } else {
            graph@
        }),
{
    let original_nodes: usize = graph.num_nodes();
    if let Some(candidate) = candidate {
        let result_nodes: usize = candidate.num_nodes();
        if result_nodes <= pruned_nodes && passed {
            return EggResult {
                graph: candidate,
                accepted: true,
                original_nodes,
                result_nodes,
                validation_trials: trials,
            };
        }
    }
    EggResult {
        graph: graph.clone(),
        accepted: false,
        original_nodes,
        result_nodes: original_nodes,
        validation_trials: trials,
    }
}

/// Exact inputs that a generator of the seed may draw for a graph.
pub open spec fn drawn_exact(g: GraphView, inputs: Bindings<Tensor>, seed: u64) -> bool {
    served(g, g.inputs.len() as int, inputs, exact_choices(seed)) && bound_for_all(
        g,
        g.inputs.len() as int,
        inputs,
    )
}

/// Double inputs that a generator of the seed may draw for a graph.
pub open spec fn drawn_doubles(g: GraphView, inputs: Bindings<TensorF64>, seed: u64) -> bool {
    served(g, g.inputs.len() as int, inputs, double_choices(seed)) && bound_for_all(
        g,
        g.inputs.len() as int,
        inputs,
    )
}

/// The seed of a trial: one more for each.
pub open spec fn nth_seed(first: u64, trial: int) -> u64 {
    ((first + trial) % 0x1_0000_0000_0000_0000) as u64
}

/// `n` trials on exact inputs, drawn from a seed of their own each, in all of which both graphs
/// agree.
pub open spec fn agreed(
    a: GraphView,
    b: GraphView,
    trials: Seq<Bindings<Tensor>>,
    n: nat,
    seed: u64,
) -> bool {
    trials.len() == n && forall|i: int|
        0 <= i < n ==> drawn_exact(a, #[trigger] trials[i], nth_seed(seed, i)) && agree_exactly(
            a,
            b,
            bound::<Exact>(trials[i]),
        )
}

/// `n` trials on double inputs, drawn from a seed of their own each, in all of which both graphs
/// are bit-equal.
pub open spec fn agreed_in_bits<D: Domain<Elem = u64>>(
    a: GraphView,
    b: GraphView,
    trials: Seq<Bindings<TensorF64>>,
    n: nat,
    seed: u64,
) -> bool {
    trials.len() == n && forall|i: int|
        0 <= i < n ==> drawn_doubles(a, #[trigger] trials[i], nth_seed(seed, i)) && compare_doubles::<D>(
            a,
            b,
            bound::<D>(trials[i]),
            true,
        )
}

/// What it takes to pass validation: agreement in every trial, in strict mode to the bit.
pub open spec fn validated<D: Domain<Elem = u64>>(
    a: GraphView,
    b: GraphView,
    mode: RewriteMode,
    n: nat,
    seed: u64,
) -> bool {
    &&& exists|trials: Seq<Bindings<Tensor>>| #[trigger] agreed(a, b, trials, n, seed)
    &&& mode == RewriteMode::Strict ==> exists|trials: Seq<Bindings<TensorF64>>| #[trigger]
        agreed_in_bits::<D>(a, b, trials, n, seed)
}

/// The graphs do not agree on double inputs.
pub open spec fn disagree_in_doubles<D: Domain<Elem = u64>>(
    a: GraphView,
    b: GraphView,
    inputs: Map<Seq<char>, TensorView<D::V>>,
) -> bool {
    eval_graph::<D>(a, inputs) is Err || eval_graph::<D>(b, inputs) is Err || compare_doubles::<D>(
        a,
        b,
        inputs,
        false,
    )
}

/// What it takes to fail validation: inputs that cannot be drawn, or inputs drawn in one of the `n`
/// trials in which the graphs do not agree.
pub open spec fn refuted<D: Domain<Elem = u64>>(
    a: GraphView,
    b: GraphView,
    mode: RewriteMode,
    n: nat,
    seed: u64,
) -> bool {
    ||| !all_drawable(a)
    ||| exists|inputs: Bindings<Tensor>, i: int|
        0 <= i < n && #[trigger] drawn_exact(a, inputs, nth_seed(seed, i)) && !agree_exactly(
            a,
            b,
            bound::<Exact>(inputs),
        )
    ||| mode == RewriteMode::Strict && exists|inputs: Bindings<TensorF64>, i: int|
        0 <= i < n && #[trigger] drawn_doubles(a, inputs, nth_seed(seed, i))
            && disagree_in_doubles::<D>(a, b, bound::<D>(inputs))
}

/// No two trials of a validation draw from the same seed.
pub proof fn trials_have_seeds_of_their_own(first: u64, i: int, j: int)
    requires
        0 <= i < j < 0x1_0000_0000_0000_0000,
    ensures
        nth_seed(first, i) != nth_seed(first, j),
        nth_seed(first, 0) == first,
{
}

/// Returns the seed of a validation trial: each trial draws from a seed of its own.
pub fn trial_seed(cfg: &EggConfig, trial: usize) -> (r: u64)
    ensures
        r == (cfg.seed + trial) % 0x1_0000_0000_0000_0000,
        r == nth_seed(cfg.seed, trial as int),
{
    cfg.seed.wrapping_add(trial as u64)
}

/// Compares the candidate with the original on random inputs.
///
/// Every trial draws exact inputs, and in strict mode also double inputs.
/// Which inputs are drawn is not stated.
pub fn validate_candidate<D: Domain<Elem = u64>>(
    original: &Graph,
    candidate: &Graph,
    cfg: &EggConfig,
) -> (r: bool)
    ensures
        r ==> validated::<D>(
            original@,
            candidate@,
            cfg.mode,
            cfg.validation_trials as nat,
            cfg.seed,
        ),
        !r ==> cfg.validation_trials > 0 && refuted::<D>(
            original@,
            candidate@,
            cfg.mode,
            cfg.validation_trials as nat,
            cfg.seed,
        ),
{
    let ghost mut exact: Seq<Bindings<Tensor>> = Seq::empty();
    let ghost mut doubles: Seq<Bindings<TensorF64>> = Seq::empty();
    let mut trial: usize = 0;
    while trial < cfg.validation_trials
        invariant
            trial <= cfg.validation_trials,
            agreed(original@, candidate@, exact, trial as nat, cfg.seed),
            cfg.mode == RewriteMode::Strict ==> agreed_in_bits::<D>(
                original@,
                candidate@,
                doubles,
                trial as nat,
                cfg.seed,
            ),
        decreases cfg.validation_trials - trial,
    {
        let mut rng = Generator::new(trial_seed(cfg, trial));
        match random_exact_inputs(original, &mut rng) {
            None => {
                return false;
            }
            Some(inputs) => {
                assert(drawn_exact(original@, inputs, nth_seed(cfg.seed, trial as int)));
                if !exact_trial(original, candidate, &inputs) {
                    return false;
                }
                proof {
                    exact = exact.push(inputs);
                }
            }
        }
        if cfg.mode == RewriteMode::Strict {
            match random_f64_inputs(original, &mut rng) {
                None => {
                    return false;
                }
                Some(inputs) => {
                    assert(drawn_doubles(original@, inputs, nth_seed(cfg.seed, trial as int)));
                    if !double_trial::<D>(original, candidate, &inputs) {
                        return false;
                    }
                    proof {
                        doubles = doubles.push(inputs);
                    }
                }
            }
        }
        trial += 1;
    }
    true
}

/// The graph that a search found for `g`, where what it extracted converts back.
pub open spec fn found(g: GraphView, extracted: Seq<(Seq<EggLang>, Seq<NodeId>)>) -> Option<
    GraphView,
> {
    match pruned(g) {
        Err(_) => None,
        Ok(original) => match graph_of(extracted, original) {
            Err(_) => None,
            Ok(candidate) => Some(candidate),
        },
    }
}

/// Converts what a search extracted back to a graph and decides whether to adopt it.
///
/// The candidate is compared with the pruned graph. A candidate that does not convert, is
/// larger, or fails a trial is rejected, and the graph that was handed in is returned.
pub fn conclude_search<D: Domain<Elem = u64>>(
    graph: &Graph,
    extracted: &Vec<(RecExpr, AtomTable)>,
    cfg: &EggConfig,
) -> (r: EggResult)
    ensures
        r.original_nodes == graph@.nodes.len(),
        r.validation_trials == cfg.validation_trials,
        r.result_nodes == r.graph@.nodes.len(),
        r.result_nodes <= r.original_nodes,
        !r.accepted ==> r.graph@ == graph@ && r.result_nodes == graph@.nodes.len(),
        r.accepted ==> found(graph@, owned_views(extracted@)) == Some(r.graph@),
        r.accepted ==> r.graph@.nodes.len() <= pruned(graph@)->Ok_0.nodes.len(),
        r.accepted ==> validated::<D>(
            pruned(graph@)->Ok_0,
            r.graph@,
            cfg.mode,
            cfg.validation_trials as nat,
            cfg.seed,
        ),
        found(graph@, owned_views(extracted@)) is Some && !r.accepted ==> {
            let original = pruned(graph@)->Ok_0;
            let candidate = found(graph@, owned_views(extracted@))->Some_0;
            candidate.nodes.len() > original.nodes.len() || (cfg.validation_trials > 0 && refuted::<
                D,
            >(original, candidate, cfg.mode, cfg.validation_trials as nat, cfg.seed))
        },
{
    let mut pairs: Vec<(&RecExpr, &AtomTable)> = Vec::new();
    let mut k: usize = 0;
    while k < extracted.len()
        invariant
            k <= extracted@.len(),
            pairs@.len() == k,
            forall|j: int|
                0 <= j < k ==> (#[trigger] pairs@[j]).0@ == extracted@[j].0@ && pairs@[j].1@
                    == extracted@[j].1@,
        decreases extracted@.len() - k,
    {
        let pair = &extracted[k];
        pairs.push((&pair.0, &pair.1));
        k += 1;
    }
    proof {
        assert(expr_views(pairs@) =~= owned_views(extracted@));
    }
    let original = match prune_and_rebuild(graph) {
        Ok(original) => original,
        Err(_) => {
            return adopt(graph, 0, None, false, cfg.validation_trials);
        }
    };
    proof {
        assert(graph.nodes.len() == graph@.nodes.len());
        validation_accepts_exactly_well_formed(graph@);
        pruning_succeeds(graph@);
    }
    match recexprs_to_graph(&pairs, &original) {
        Err(_) => adopt(graph, original.num_nodes(), None, false, cfg.validation_trials),
        Ok(candidate) => {
            let passed = candidate.num_nodes() <= original.num_nodes()
                && validate_candidate::<D>(&original, &candidate, cfg);
            adopt(graph, original.num_nodes(), Some(candidate), passed, cfg.validation_trials)
        }
    }
}

/// The draws behind one double: its kind, and for a kind other than the two zeros its sign,
/// mantissa and exponent.
pub struct SensitiveDraw {
    pub kind: Draw,
    pub sign: Draw,
    pub mantissa: Draw,
    pub exponent: Draw,
}

impl SensitiveDraw {
    /// The kind is one of twelve. All but two kinds draw a coin for the sign, a mantissa from 1 to
    /// 16 and an exponent from -4 to 4, one after the other, from the same generator.
    pub open spec fn from_seed(self, seed: u64) -> bool {
        &&& self.kind.from_range(seed, 0, 11)
        &&& self.kind.number() >= 2 ==> {
            &&& self.sign.from_range(seed, 0, 1)
            &&& self.sign.turn() == self.kind.turn() + 1
            &&& self.mantissa.from_range(seed, 1, 16)
            &&& self.mantissa.turn() == self.kind.turn() + 2
            &&& self.exponent.from_range(seed, -4, 4)
            &&& self.exponent.turn() == self.kind.turn() + 3
        }
    }

    /// The first kind gives the negative zero, the second the positive zero, and all others the
    /// mantissa times two to the exponent, negative where the coin fell heads.
    pub open spec fn gives(self, bits: u64) -> bool {
        &&& finite64(bits)
        &&& self.kind.number() == 0 ==> value64(bits) == 0real && negative64(bits)
        &&& self.kind.number() == 1 ==> value64(bits) == 0real && !negative64(bits)
        &&& self.kind.number() >= 2 ==> {
            &&& negative64(bits) == (self.sign.number() == 1)
            &&& value64(bits) == signed_dyadic(
                negative64(bits),
                self.mantissa.number(),
                self.exponent.number(),
            )
        }
    }
}

/// The doubles are drawn one by one from a generator of the seed, each by draws of its own.
pub open spec fn doubles_from_draws(
    draws: Seq<SensitiveDraw>,
    bits: Seq<u64>,
    seed: u64,
) -> bool {
    &&& draws.len() == bits.len()
    &&& forall|i: int|
        0 <= i < draws.len() ==> (#[trigger] draws[i]).from_seed(seed) && draws[i].gives(bits[i])
    &&& forall|i: int, j: int|
        0 <= i < j < draws.len() ==> (#[trigger] draws[i]).kind.turn() < (
        #[trigger] draws[j]).kind.turn()
}

/// The integers are drawn one by one from a generator of the seed, from -8 to 8.
pub open spec fn integers_from_draws(draws: Seq<Draw>, values: Seq<int>, seed: u64) -> bool {
    &&& draws.len() == values.len()
    &&& forall|i: int|
        0 <= i < draws.len() ==> (#[trigger] draws[i]).from_range(seed, -8, 8)
            && draws[i].number() == values[i]
    &&& forall|i: int, j: int|
        0 <= i < j < draws.len() ==> (#[trigger] draws[i]).turn() < (#[trigger] draws[j]).turn()
}

/// A drawn double is a zero only where the kind drawn from the twelve is one of the first two;
/// otherwise it is plus or minus `m * 2^e` for the drawn mantissa and exponent.
pub proof fn drawn_zeros_come_of_two_kinds(d: SensitiveDraw, bits: u64, seed: u64)
    requires
        d.from_seed(seed),
        d.gives(bits),
    ensures
        d.kind.least() == 0 && d.kind.most() == 11,
        value64(bits) == 0real <==> d.kind.number() == 0 || d.kind.number() == 1,
        value64(bits) != 0real ==> {
            &&& d.mantissa.least() == 1 && d.mantissa.most() == 16
            &&& d.exponent.least() == -4 && d.exponent.most() == 4
            &&& value64(bits) == signed_dyadic(
                negative64(bits),
                d.mantissa.number(),
                d.exponent.number(),
            )
        },
{
    if d.kind.number() >= 2 {
        let m = d.mantissa.number();
        let x = (if negative64(bits) {
            -m
        } else {
            m
        }) as real;
        let t = crate::rational::two_to(d.exponent.number());
        crate::float::lemma_two_to_step(d.exponent.number());
        assert(x * t != 0real) by (nonlinear_arith)
            requires
                t > 0real,
                x != 0real,
        ;
    }
}

/// Draws a double that shows rounding and signed zeros: zero of either sign, or a small dyadic.
fn random_sensitive_f64(rng: &mut Generator) -> (r: (u64, Ghost<SensitiveDraw>))
    ensures
        sensitive(r.0, 16),
        r.1@.from_seed(old(rng).seed()),
        r.1@.kind.turn() == old(rng).turn(),
        r.1@.gives(r.0),
        final(rng).seed() == old(rng).seed(),
        final(rng).turn() > old(rng).turn(),
{
    let (kind, kind_draw) = rng.pick_i32(0, 11);
    if kind < 2 {
        let zero: u64 = small_double(0, 0, kind == 0, Ghost(16));
        let ghost draw = SensitiveDraw {
            kind: kind_draw@,
            sign: kind_draw@,
            mantissa: kind_draw@,
            exponent: kind_draw@,
        };
        proof {
            let t = crate::rational::two_to(0);
            assert(0real * t == 0real) by (nonlinear_arith);
        }
        (zero, Ghost(draw))
    } else {
        let (negative, sign_draw) = rng.toss();
        let (mantissa, mantissa_draw) = rng.pick_i32(1, 16);
        let (exponent, exponent_draw) = rng.pick_i32(-4, 4);
        let ghost draw = SensitiveDraw {
            kind: kind_draw@,
            sign: sign_draw@,
            mantissa: mantissa_draw@,
            exponent: exponent_draw@,
        };
        let double: u64 = small_double(mantissa as u64, exponent as i64, negative, Ghost(16));
        (double, Ghost(draw))
    }
}

fn random_f64_values(n: usize, rng: &mut Generator) -> (r: (Vec<u64>, Ghost<Seq<SensitiveDraw>>))
    ensures
        r.0@.len() == n,
        forall|i: int| 0 <= i < n ==> sensitive(#[trigger] r.0@[i], 16),
        doubles_from_draws(r.1@, r.0@, old(rng).seed()),
        final(rng).seed() == old(rng).seed(),
        final(rng).turn() >= old(rng).turn() + n,
{
    let ghost seed = rng.seed();
    let ghost start = rng.turn();
    let mut values: Vec<u64> = Vec::new();
    let ghost mut draws: Seq<SensitiveDraw> = Seq::empty();
    let mut i: usize = 0;
    while i < n
        invariant
            i <= n,
            values@.len() == i,
            rng.seed() == seed,
            rng.turn() >= start + i,
            forall|j: int| 0 <= j < i ==> sensitive(#[trigger] values@[j], 16),
            doubles_from_draws(draws, values@, seed),
            forall|j: int| 0 <= j < i ==> (#[trigger] draws[j]).kind.turn() < rng.turn(),
        decreases n - i,
    {
        let (value, draw) = random_sensitive_f64(rng);
        values.push(value);
        proof {
            draws = draws.push(draw@);
        }
        i += 1;
    }
    (values, Ghost(draws))
}

/// What the integers stand for.
pub open spec fn wide_integers(values: Seq<i64>) -> Seq<int> {
    values.map_values(|v: i64| v as int)
}

fn random_i64_values(n: usize, rng: &mut Generator) -> (r: (Vec<i64>, Ghost<Seq<Draw>>))
    ensures
        r.0@.len() == n,
        forall|i: int| 0 <= i < n ==> -8 <= #[trigger] r.0@[i] <= 8,
        integers_from_draws(r.1@, wide_integers(r.0@), old(rng).seed()),
        final(rng).seed() == old(rng).seed(),
        final(rng).turn() >= old(rng).turn() + n,
{
    let ghost seed = rng.seed();
    let ghost start = rng.turn();
    let mut values: Vec<i64> = Vec::new();
    let ghost mut draws: Seq<Draw> = Seq::empty();
    let mut i: usize = 0;
    while i < n
        invariant
            i <= n,
            values@.len() == i,
            rng.seed() == seed,
            rng.turn() >= start + i,
            forall|j: int| 0 <= j < i ==> -8 <= #[trigger] values@[j] <= 8,
            integers_from_draws(draws, wide_integers(values@), seed),
            forall|j: int| 0 <= j < i ==> (#[trigger] draws[j]).turn() < rng.turn(),
        decreases n - i,
    {
        let (value, draw) = rng.pick_i64(-8, 8);
        let ghost before = values@;
        values.push(value);
        proof {
            draws = draws.push(draw@);
            assert(wide_integers(values@) =~= wide_integers(before).push(value as int));
        }
        i += 1;
    }
    (values, Ghost(draws))
}

/// A listed input of a numeric type that fits in memory.
pub open spec fn drawable(op: OpView) -> bool {
    match op {
        OpView::Input { name, ty } => ty.dtype.numeric() && numel_fits(ty.shape),
        _ => true,
    }
}

/// Every listed input can be given a tensor.
pub open spec fn all_drawable(g: GraphView) -> bool {
    forall|k: int|
        0 <= k < g.inputs.len() ==> (#[trigger] g.inputs[k]).0 < g.nodes.len() && drawable(
            g.nodes[g.inputs[k].0 as int],
        )
}

/// A number that is drawn for an exact input.
pub open spec fn exact_choice(dtype: DType, x: real) -> bool {
    match dtype {
        DType::F32 | DType::F64 => exists|bits: u64| #[trigger]
            sensitive(bits, 16) && value64(bits) == x,
        _ => exists|i: int| -8 <= i <= 8 && x == #[trigger] Exact::int_value(i),
    }
}

/// A double that is drawn for an input.
pub open spec fn double_choice(dtype: DType, bits: u64) -> bool {
    match dtype {
        DType::F32 | DType::F64 => sensitive(bits, 16),
        _ => exists|i: int| -8 <= i <= 8 && bits == #[trigger] int_double(i),
    }
}

/// The numbers are those of drawn doubles for a float type, and of drawn integers otherwise.
pub open spec fn numbers_from_draws(dtype: DType, numbers: Seq<real>, seed: u64) -> bool {
    match dtype {
        DType::F32 | DType::F64 => exists|draws: Seq<SensitiveDraw>, bits: Seq<u64>|
            #[trigger] doubles_from_draws(draws, bits, seed) && numbers == bits.map_values(
                |b: u64| value64(b),
            ),
        _ => exists|draws: Seq<Draw>, values: Seq<int>|
            #[trigger] integers_from_draws(draws, values, seed) && numbers == values.map_values(
                |v: int| v as real,
            ),
    }
}

/// The doubles are drawn ones for a float type, and those of drawn integers otherwise.
pub open spec fn bits_from_draws(dtype: DType, data: Seq<u64>, seed: u64) -> bool {
    match dtype {
        DType::F32 | DType::F64 => exists|draws: Seq<SensitiveDraw>| #[trigger]
            doubles_from_draws(draws, data, seed),
        _ => exists|draws: Seq<Draw>, values: Seq<int>|
            #[trigger] integers_from_draws(draws, values, seed) && data == values.map_values(
                |v: int| int_double(v),
            ),
    }
}

/// What exact data stands for.
pub open spec fn numbers(data: Seq<Rational>) -> Seq<real> {
    data.map_values(|x: Rational| x.value())
}

/// Which exact tensors are drawn for a declared input from a generator of the seed.
pub open spec fn exact_choices(seed: u64) -> spec_fn(TypeView, Tensor) -> bool {
    |ty: TypeView, t: Tensor|
        t@.shape == ty.shape && numbers_from_draws(ty.dtype, numbers(t@.data), seed) && forall|
            i: int,
        |
            0 <= i < t@.data.len() ==> exact_choice(ty.dtype, (#[trigger] t@.data[i]).value())
}

/// Which tensors of doubles are drawn for a declared input from a generator of the seed.
pub open spec fn double_choices(seed: u64) -> spec_fn(TypeView, TensorF64) -> bool {
    |ty: TypeView, t: TensorF64|
        t@.shape == ty.shape && bits_from_draws(ty.dtype, t@.data, seed) && forall|i: int|
            0 <= i < t@.data.len() ==> double_choice(ty.dtype, #[trigger] t@.data[i])
}

/// The number of elements of the first `n` listed inputs.
pub open spec fn element_count(g: GraphView, n: int) -> nat
    decreases n,
{
    if n <= 0 {
        0
    } else {
        element_count(g, n - 1) + match g.nodes[g.inputs[n - 1].0 as int] {
            OpView::Input { name, ty } => numel(ty.shape),
            _ => 0,
        }
    }
}

/// Draws an exact tensor for a declared input of a numeric type that fits in memory.
fn draw_exact(ty: &TensorType, rng: &mut Generator) -> (r: Option<Tensor>)
    ensures
        r is Some <==> ty.dtype.numeric() && numel_fits(ty@.shape),
        r is Some ==> exact_choices(old(rng).seed())(ty@, r->Some_0),
        final(rng).seed() == old(rng).seed(),
        r is Some ==> final(rng).turn() >= old(rng).turn() + numel(ty@.shape),
{
    let ghost seed = rng.seed();
    let count: usize = match ty.shape.numel() {
        Ok(count) => count,
        Err(_) => {
            return None;
        }
    };
    proof {
        crate::shape::lemma_numel_fits_prefix(ty@.shape, 0);
    }
    match ty.dtype {
        DType::F32 | DType::F64 => {
            let (values, draws) = random_f64_values(count, rng);
            let ghost data = DataView::F64(values@);
            proof {
                assert forall|i: int| 0 <= i < values@.len() implies finite64(
                    #[trigger] values@[i],
                ) by {
                    assert(sensitive(values@[i], 16));
                }
            }
            match Tensor::from_f64(ty.shape.clone(), values.as_slice()) {
                Ok(t) => {
                    proof {
                        assert forall|i: int| 0 <= i < t@.data.len() implies exact_choice(
                            ty.dtype,
                            (#[trigger] t@.data[i]).value(),
                        ) by {
                            let m = meaning::<Exact>(t@);
                            assert(m.data == lifted::<Exact>(data));
                            assert(m.data[i] == t@.data[i].value());
                            assert(lifted::<Exact>(data)[i] == value64(values@[i]));
                            assert(sensitive(values@[i], 16));
                        }
                        assert(meaning::<Exact>(t@).data =~= numbers(t@.data));
                        assert(lifted::<Exact>(data) =~= values@.map_values(|b: u64| value64(b)));
                        assert(doubles_from_draws(draws@, values@, seed));
                    }
                    Some(t)
                }
                Err(_) => None,
            }
        }
        DType::I32 | DType::I64 => {
            let (values, draws) = random_i64_values(count, rng);
            let ghost reals = values@.map_values(|v: i64| v as real);
            match Tensor::from_i64(ty.shape.clone(), values.as_slice()) {
                Ok(t) => {
                    proof {
                        assert forall|i: int| 0 <= i < t@.data.len() implies exact_choice(
                            ty.dtype,
                            (#[trigger] t@.data[i]).value(),
                        ) by {
                            let m = meaning::<Exact>(t@);
                            assert(m.data == reals);
                            assert(m.data[i] == t@.data[i].value());
                            assert(reals[i] == values@[i] as real);
                            let v = values@[i] as int;
                            assert(t@.data[i].value() == Exact::int_value(v));
                        }
                        assert(meaning::<Exact>(t@).data =~= numbers(t@.data));
                        assert(reals =~= wide_integers(values@).map_values(|v: int| v as real));
                        assert(integers_from_draws(draws@, wide_integers(values@), seed));
                    }
                    Some(t)
                }
                Err(_) => None,
            }
        }
        DType::Bool => None,
    }
}

/// Draws a tensor of doubles for a declared input of a numeric type that fits in memory.
fn draw_double(ty: &TensorType, rng: &mut Generator) -> (r: Option<TensorF64>)
    ensures
        r is Some <==> ty.dtype.numeric() && numel_fits(ty@.shape),
        r is Some ==> double_choices(old(rng).seed())(ty@, r->Some_0),
        final(rng).seed() == old(rng).seed(),
        r is Some ==> final(rng).turn() >= old(rng).turn() + numel(ty@.shape),
{
    let ghost seed = rng.seed();
    let count: usize = match ty.shape.numel() {
        Ok(count) => count,
        Err(_) => {
            return None;
        }
    };
    proof {
        crate::shape::lemma_numel_fits_prefix(ty@.shape, 0);
    }
    let values: Vec<u64> = match ty.dtype {
        DType::F32 | DType::F64 => {
            let (values, draws) = random_f64_values(count, rng);
            assert(doubles_from_draws(draws@, values@, seed));
            values
        }
        DType::I32 | DType::I64 => {
            let (drawn, draws) = random_i64_values(count, rng);
            let mut values: Vec<u64> = Vec::new();
            let mut i: usize = 0;
            while i < drawn.len()
                invariant
                    i <= drawn@.len(),
                    values@.len() == i,
                    ty.dtype == DType::I32 || ty.dtype == DType::I64,
                    forall|j: int| 0 <= j < drawn@.len() ==> -8 <= #[trigger] drawn@[j] <= 8,
                    forall|j: int| 0 <= j < i ==> double_choice(ty.dtype, #[trigger] values@[j]),
                    forall|j: int|
                        0 <= j < i ==> #[trigger] values@[j] == int_double(drawn@[j] as int),
                decreases drawn@.len() - i,
            {
                let clamped: i32 = clamp_i32(drawn[i]);
                let bits: u64 = from_int64(clamped as i64);
                proof {
                    let v = drawn@[i as int] as int;
                    assert(bits == int_double(v));
                }
                values.push(bits);
                i += 1;
            }
            proof {
                assert(integers_from_draws(draws@, wide_integers(drawn@), seed));
                assert(values@ =~= wide_integers(drawn@).map_values(|v: int| int_double(v)));
            }
            values
        }
        DType::Bool => {
            return None;
        }
    };
    match TensorF64::from_f64(ty.shape.clone(), values.as_slice()) {
        Ok(t) => Some(t),
        Err(_) => None,
    }
}

/// Draws exact inputs for a graph.
///
/// There are none exactly if a listed input is no node, is boolean, or its
/// element count overflows. Floats are small dyadics, integers are from -8 to 8.
pub fn random_exact_inputs(graph: &Graph, rng: &mut Generator) -> (r: Option<Bindings<Tensor>>)
    ensures
        r is Some <==> all_drawable(graph@),
        r is Some ==> served(
            graph@,
            graph@.inputs.len() as int,
            r->Some_0,
            exact_choices(old(rng).seed()),
        ) && bound_for_all(graph@, graph@.inputs.len() as int, r->Some_0),
        final(rng).seed() == old(rng).seed(),
        r is Some ==> final(rng).turn() >= old(rng).turn() + element_count(
            graph@,
            graph@.inputs.len() as int,
        ),
{
    let ghost g = graph@;
    let ghost seed = rng.seed();
    let ghost start = rng.turn();
    let ghost suits = exact_choices(seed);
    let mut inputs: Bindings<Tensor> = Bindings::new();
    let mut k: usize = 0;
    while k < graph.inputs.len()
        invariant
            k <= g.inputs.len(),
            g == graph@,
            suits == exact_choices(seed),
            rng.seed() == seed,
            seed == old(rng).seed(),
            rng.turn() >= start + element_count(g, k as int),
            forall|j: int|
                0 <= j < k ==> (#[trigger] g.inputs[j]).0 < g.nodes.len() && drawable(
                    g.nodes[g.inputs[j].0 as int],
                ),
            served(g, k as int, inputs, suits),
            bound_for_all(g, k as int, inputs),
        decreases g.inputs.len() - k,
    {
        let id: NodeId = graph.inputs[k];
        assert(id == g.inputs[k as int]);
        if id.0 >= graph.nodes.len() {
            return None;
        }
        let ghost before = inputs;
        proof {
            assert(g.nodes[id.0 as int] == graph.nodes@[id.0 as int].op@);
            assert(listed(g, k as int) == Some(g.nodes[id.0 as int]));
            lemma_served_more(g, k as int, inputs, suits);
        }
        match &graph.nodes[id.0].op {
            Op::Input { name, ty } => {
                match draw_exact(ty, rng) {
                    Some(tensor) => {
                        inputs.insert(name.clone(), tensor);
                        proof {
                            lemma_served_insert(
                                g,
                                k as int,
                                before,
                                inputs,
                                suits,
                                name@,
                                ty@,
                                tensor,
                            );
                            lemma_bound_insert(g, k as int, before, inputs, name@);
                        }
                    }
                    None => {
                        assert(!drawable(g.nodes[g.inputs[k as int].0 as int]));
                        return None;
                    }
                }
            }
            _ => {}
        }
        k += 1;
    }
    Some(inputs)
}

/// Draws double inputs for a graph.
///
/// There are none exactly if a listed input is no node, is boolean, or its
/// element count overflows. Floats are small dyadics or zeros of either sign,
/// integers are from -8 to 8.
pub fn random_f64_inputs(graph: &Graph, rng: &mut Generator) -> (r: Option<Bindings<TensorF64>>)
    ensures
        r is Some <==> all_drawable(graph@),
        r is Some ==> served(
            graph@,
            graph@.inputs.len() as int,
            r->Some_0,
            double_choices(old(rng).seed()),
        ) && bound_for_all(graph@, graph@.inputs.len() as int, r->Some_0),
        final(rng).seed() == old(rng).seed(),
        r is Some ==> final(rng).turn() >= old(rng).turn() + element_count(
            graph@,
            graph@.inputs.len() as int,
        ),
{
    let ghost g = graph@;
    let ghost seed = rng.seed();
    let ghost start = rng.turn();
    let ghost suits = double_choices(seed);
    let mut inputs: Bindings<TensorF64> = Bindings::new();
    let mut k: usize = 0;
    while k < graph.inputs.len()
        invariant
            k <= g.inputs.len(),
            g == graph@,
            suits == double_choices(seed),
            rng.seed() == seed,
            seed == old(rng).seed(),
            rng.turn() >= start + element_count(g, k as int),
            forall|j: int|
                0 <= j < k ==> (#[trigger] g.inputs[j]).0 < g.nodes.len() && drawable(
                    g.nodes[g.inputs[j].0 as int],
                ),
            served(g, k as int, inputs, suits),
            bound_for_all(g, k as int, inputs),
        decreases g.inputs.len() - k,
    {
        let id: NodeId = graph.inputs[k];
        assert(id == g.inputs[k as int]);
        if id.0 >= graph.nodes.len() {
            return None;
        }
        let ghost before = inputs;
        proof {
            assert(g.nodes[id.0 as int] == graph.nodes@[id.0 as int].op@);
            assert(listed(g, k as int) == Some(g.nodes[id.0 as int]));
            lemma_served_more(g, k as int, inputs, suits);
        }
        match &graph.nodes[id.0].op {
            Op::Input { name, ty } => {
                match draw_double(ty, rng) {
                    Some(tensor) => {
                        inputs.insert(name.clone(), tensor);
                        proof {
                            lemma_served_insert(
                                g,
                                k as int,
                                before,
                                inputs,
                                suits,
                                name@,
                                ty@,
                                tensor,
                            );
                            lemma_bound_insert(g, k as int, before, inputs, name@);
                        }
                    }
                    None => {
                        assert(!drawable(g.nodes[g.inputs[k as int].0 as int]));
                        return None;
                    }
                }
            }
            _ => {}
        }
        k += 1;
    }
    Some(inputs)
}

} // verus!

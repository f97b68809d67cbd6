//! End-to-end pipeline composition.
//!
//! A run goes through stages. Each stage is a function from what the stages
//! before it left to what it leaves; searching, tuning and compiling happen
//! between the stages, and their results are handed in.
use vstd::prelude::*;

use crate::bindings::Bindings;
use crate::domain::{literal_zero, Domain, Exact};
use crate::driver::{
    acts_as, adds_no_nodes, applied_names, built_in_rules_add_no_nodes, built_in_rules_are_sound,
    run, run_graph, running_preserves_evaluation, runs_add_no_nodes, sound_rule, AppliedRewrite,
    DriverConfig, RunView,
};
use crate::egg_search::{EggConfig, EggResult};
use crate::emit_c::{emit_c, source_c, CodegenErrorView};
use crate::eval::{bound, eval_graph};
use crate::examples::{build_example, example_graph, examples_are_well_typed};
use crate::graph::{Graph, GraphView};
use crate::graph_text::graph_text;
use crate::infer::{infer_graph, infer_types};
use crate::interp_loops::{eval_kernel, LoopErrorView};
use crate::loop_ir::{Kernel, KernelView};
use crate::lower::{lower, lower_graph};
use crate::lowering::{lowering_preserves_evaluation, sizes_fit};
use crate::lowering_success::{evaluated_graphs_lower, extents_positive, ids_fit};
use crate::op::NodeId;
use crate::options::{format_move, rewrite_mode, CostKind, Mode, MoveDesc, RunOpts};
use crate::pipeline_error::{PipelineError, PipelineErrorView};
use crate::report::{optional_text, CheckStatus, CheckView, ReportView, RunReport};
use crate::rule::Rewrite;
use crate::rules::{NegNegElim, ReluIdempotentElim, ReshapeReshapeFuse};
use crate::ruleset::{Rule, RuleSet, RuleView};
use crate::run_inputs::{
    f64_inputs, inputs_error, mixed_seed, placed_doubles, rational_inputs, small_integers,
};
use crate::safety::{exact_arithmetic_obeys_every_law, law_holds, Law};
use crate::self_check::{check_pipeline, check_view, checked, compiled_view};
use crate::soundness::inputs_filled;
use crate::supply::{bound_for_all, served};
use crate::surgery::SurgeryError;
use crate::tensor::{Tensor, TensorF64, TensorView};
use crate::text::{bool_text, bool_text_of, decimal, index_text, string_views};

verus! {

/// What is known of a rewrite.
pub open spec fn rule_of<R: Rewrite>(rewrite: R) -> RuleView {
    RuleView {
        label: rewrite.label(),
        laws: rewrite.law_list(),
        outcomes: Map::new(
            |at: (GraphView, NodeId)| rewrite.outcome(at.0, at.1) is Some,
            |at: (GraphView, NodeId)| rewrite.outcome(at.0, at.1)->Some_0,
        ),
    }
}

/// The built-in rules.
pub open spec fn built_in_rules() -> Seq<RuleView> {
    seq![rule_of(NegNegElim), rule_of(ReluIdempotentElim), rule_of(ReshapeReshapeFuse)]
}

/// Returns the built-in rules.
pub fn bit_exact_ruleset() -> (r: RuleSet)
    ensures
        r@ == built_in_rules(),
{
    let mut rules = RuleSet::new();
    let a = Rule { rewrite: Box::new(NegNegElim) };
    let b = Rule { rewrite: Box::new(ReluIdempotentElim) };
    let c = Rule { rewrite: Box::new(ReshapeReshapeFuse) };
    proof {
        assert(a@.outcomes =~= rule_of(NegNegElim).outcomes);
        assert(b@.outcomes =~= rule_of(ReluIdempotentElim).outcomes);
        assert(c@.outcomes =~= rule_of(ReshapeReshapeFuse).outcomes);
        assert(a@ == rule_of(NegNegElim));
        assert(b@ == rule_of(ReluIdempotentElim));
        assert(c@ == rule_of(ReshapeReshapeFuse));
    }
    rules.add(a);
    rules.add(b);
    rules.add(c);
    proof {
        assert(rules@ =~= built_in_rules());
    }
    rules
}

/// What the driver makes of a graph with the built-in rules.
pub open spec fn driven(g: GraphView, mode: Mode) -> Result<RunView, SurgeryError> {
    run_graph(g, built_in_rules(), mode.rewrites(), 1000)
}

/// A run after the rewrite driver.
pub struct Optimized {
    /// The options of the run.
    pub opts: RunOpts,
    /// The graph of the example.
    pub graph: Graph,
    /// The names of its inputs.
    pub input_names: Vec<String>,
    /// Exact inputs of the self-check.
    pub rational_inputs: Bindings<Tensor>,
    /// Double inputs of the self-check and of measurements.
    pub f64_inputs: Bindings<TensorF64>,
    /// The graph as it is now.
    pub optimized: Graph,
    /// Names of the applied rewrites.
    pub rewrites: Vec<String>,
    /// Whether the driver reached a fixpoint.
    pub driver_fixpoint: bool,
    /// Nodes after the driver.
    pub nodes_after_driver: usize,
    /// Whether the result of a search was adopted.
    pub egg_adopted: bool,
    /// Notes so far.
    pub notes: Vec<String>,
    /// Verbose texts so far.
    pub verbose: Vec<String>,
}

/// The contents of an [`Optimized`], without its options and inputs.
pub struct OptimizedView {
    pub graph: GraphView,
    pub input_names: Seq<Seq<char>>,
    pub optimized: GraphView,
    pub rewrites: Seq<Seq<char>>,
    pub driver_fixpoint: bool,
    pub nodes_after_driver: nat,
    pub egg_adopted: bool,
    pub notes: Seq<Seq<char>>,
    pub verbose: Seq<Seq<char>>,
}

impl View for Optimized {
    type V = OptimizedView;

    open spec fn view(&self) -> OptimizedView {
        OptimizedView {
            graph: self.graph@,
            input_names: string_views(self.input_names@),
            optimized: self.optimized@,
            rewrites: string_views(self.rewrites@),
            driver_fixpoint: self.driver_fixpoint,
            nodes_after_driver: self.nodes_after_driver as nat,
            egg_adopted: self.egg_adopted,
            notes: string_views(self.notes@),
            verbose: string_views(self.verbose@),
        }
    }
}

/// The texts, and one more where it is wanted.
pub open spec fn also(texts: Seq<Seq<char>>, wanted: bool, text: Seq<char>) -> Seq<Seq<char>> {
    if wanted {
        texts.push(text)
    } else {
        texts
    }
}

/// The run of an example through the driver, or the first error on the way.
pub open spec fn started(opts: RunOpts) -> Result<OptimizedView, PipelineErrorView> {
    match example_graph(opts.example@, opts.shapes) {
        Err(e) => Err(e),
        Ok((graph, input_names)) => match inputs_error(graph) {
            Some(e) => Err(e),
            None => match driven(graph, opts.mode) {
                Err(e) => Err(PipelineErrorView::Surgery(e)),
                Ok(run) => Ok(
                    OptimizedView {
                        graph,
                        input_names,
                        optimized: run.graph,
                        rewrites: run.applied,
                        driver_fixpoint: run.reached_fixpoint,
                        nodes_after_driver: run.graph.nodes.len(),
                        egg_adopted: false,
                        notes: Seq::empty(),
                        verbose: also(
                            Seq::empty(),
                            opts.verbose,
                            "graph before optimization:\n"@ + graph_text(graph),
                        ),
                    },
                ),
            },
        },
    }
}

/// The inputs of a run suit its graph.
pub open spec fn inputs_suit(run: Optimized) -> bool {
    let n = run.graph@.inputs.len() as int;
    &&& served(run.graph@, n, run.rational_inputs, small_integers(run.opts.seed))
    &&& bound_for_all(run.graph@, n, run.rational_inputs)
    &&& served(run.graph@, n, run.f64_inputs, placed_doubles(mixed_seed(run.opts.seed)))
    &&& bound_for_all(run.graph@, n, run.f64_inputs)
}

fn rule_names(applied: &Vec<AppliedRewrite>) -> (r: Vec<String>)
    ensures
        string_views(r@) == applied_names(applied@),
{
    let mut names: Vec<String> = Vec::new();
    let mut i: usize = 0;
    while i < applied.len()
        invariant
            i <= applied@.len(),
            names@.len() == i,
            forall|j: int| 0 <= j < i ==> (#[trigger] names@[j])@ == applied@[j].rule@,
        decreases applied@.len() - i,
    {
        names.push(String::from_str(applied[i].rule));
        i += 1;
    }
    proof {
        assert(string_views(names@) =~= applied_names(applied@));
    }
    names
}

/// Pushes a text where it is wanted.
fn push_if(texts: &mut Vec<String>, wanted: bool, text: String)
    ensures
        string_views(final(texts)@) == also(string_views(old(texts)@), wanted, text@),
{
    if wanted {
        texts.push(text);
    }
    proof {
        assert(string_views(texts@) =~= also(string_views(old(texts)@), wanted, text@));
    }
}

/// Builds the example of a run, draws its inputs and runs the rewrite driver.
///
/// # Errors
///
/// Returns the first error on the way.
pub fn start(opts: RunOpts) -> (r: Result<Optimized, PipelineError>)
    ensures
        match r {
            Ok(run) => started(opts) == Ok::<OptimizedView, PipelineErrorView>(run@) && run.opts
                == opts && inputs_suit(run),
            Err(e) => started(opts) == Err::<OptimizedView, PipelineErrorView>(e@),
        },
{
    let (graph, input_names) = build_example(opts.example.as_str(), &opts.shapes)?;
    proof {
        examples_are_well_typed(opts.example@, opts.shapes);
    }
    match infer_types(&graph) {
        Ok(_) => {}
        Err(e) => {
            return Err(PipelineError::Type(e));
        }
    }
    let rational = rational_inputs(&graph, opts.seed)?;
    let doubles = f64_inputs(&graph, opts.seed)?;
    let mut verbose: Vec<String> = Vec::new();
    proof {
        assert(string_views(verbose@) =~= Seq::empty());
    }
    push_if(
        &mut verbose,
        opts.verbose,
        String::from_str("graph before optimization:\n").concat(graph.to_text().as_str()),
    );
    let rules = bit_exact_ruleset();
    let cfg = DriverConfig { mode: rewrite_mode(opts.mode), max_steps: 1000 };
    let driver = match run(&graph, &rules, &cfg) {
        Ok(driver) => driver,
        Err(e) => {
            return Err(PipelineError::Surgery(e));
        }
    };
    let rewrites = rule_names(&driver.applied);
    let nodes_after_driver: usize = driver.graph.num_nodes();
    let notes: Vec<String> = Vec::new();
    proof {
        assert(string_views(notes@) =~= Seq::empty());
    }
    Ok(
        Optimized {
            opts,
            graph,
            input_names,
            rational_inputs: rational,
            f64_inputs: doubles,
            optimized: driver.graph,
            rewrites,
            driver_fixpoint: driver.reached_fixpoint,
            nodes_after_driver,
            egg_adopted: false,
            notes,
            verbose,
        },
    )
}

/// Returns the configuration of the search that a run asks for.
pub fn search_config(opts: &RunOpts) -> (r: Option<EggConfig>)
    ensures
        r == (if opts.egg {
            Some(
                EggConfig {
                    mode: opts.mode.rewrites(),
                    node_limit: 10000,
                    iter_limit: 8,
                    time_limit_ms: 250,
                    validation_trials: 32,
                    seed: opts.seed,
                },
            )
        } else {
            None
        }),
{
    if opts.egg {
        Some(
            EggConfig {
                mode: rewrite_mode(opts.mode),
                node_limit: 10000,
                iter_limit: 8,
                time_limit_ms: 250,
                validation_trials: 32,
                seed: opts.seed,
            },
        )
    } else {
        None
    }
}

/// The note on a search whose result is not adopted.
pub open spec fn not_adopted(egg: EggResult) -> Seq<char> {
    "egg returned accepted="@ + bool_text_of(egg.accepted) + " nodes "@ + decimal(
        egg.original_nodes as nat,
    ) + " -> "@ + decimal(egg.result_nodes as nat) + "; not adopted"@
}

/// The run after a search: an accepted result with fewer nodes is adopted, any other is noted.
pub open spec fn after_search(run: OptimizedView, egg: EggResult) -> OptimizedView {
    if egg.accepted && egg.result_nodes < run.optimized.nodes.len() {
        OptimizedView { optimized: egg.graph@, egg_adopted: true, ..run }
    } else {
        OptimizedView { notes: run.notes.push(not_adopted(egg)), ..run }
    }
}

/// Takes in the result of a search.
pub fn adopt_search(run: Optimized, egg: EggResult) -> (r: Optimized)
    ensures
        r@ == after_search(run@, egg),
        r.opts == run.opts,
        r.rational_inputs == run.rational_inputs,
        r.f64_inputs == run.f64_inputs,
{
    let mut run = run;
    if egg.accepted && egg.result_nodes < run.optimized.num_nodes() {
        run.optimized = egg.graph;
        run.egg_adopted = true;
        run
    } else {
        let note = String::from_str("egg returned accepted=")
            .concat(bool_text(egg.accepted))
            .concat(" nodes ")
            .concat(index_text(egg.original_nodes).as_str())
            .concat(" -> ")
            .concat(index_text(egg.result_nodes).as_str())
            .concat("; not adopted");
        let ghost before = run.notes@;
        run.notes.push(note);
        proof {
            assert(string_views(run.notes@) =~= string_views(before).push(note@));
        }
        run
    }
}

/// The run and its kernel after lowering, or the error of lowering.
pub open spec fn after_lowering(run: OptimizedView, verbose: bool) -> Result<
    (OptimizedView, KernelView),
    PipelineErrorView,
> {
    match lower_graph(run.optimized) {
        Err(e) => Err(PipelineErrorView::Lower(e)),
        Ok(kernel) => Ok(
            (
                OptimizedView {
                    verbose: also(
                        also(
                            run.verbose,
                            verbose,
                            "graph after optimization:\n"@ + graph_text(run.optimized),
                        ),
                        verbose,
                        "kernel before scheduling:\n"@ + kernel.text(),
                    ),
                    ..run
                },
                kernel,
            ),
        ),
    }
}

/// Lowers the graph of a run.
///
/// # Errors
///
/// Returns [`PipelineError::Lower`] where lowering fails.
pub fn lower_run(run: Optimized) -> (r: Result<(Optimized, Kernel), PipelineError>)
    ensures
        match r {
            Ok((next, kernel)) => after_lowering(run@, run.opts.verbose) == Ok::<
                (OptimizedView, KernelView),
                PipelineErrorView,
            >((next@, kernel@)) && next.opts == run.opts && next.rational_inputs
                == run.rational_inputs && next.f64_inputs == run.f64_inputs,
            Err(e) => after_lowering(run@, run.opts.verbose) == Err::<
                (OptimizedView, KernelView),
                PipelineErrorView,
            >(e@),
        },
{
    let mut run = run;
    let verbose = run.opts.verbose;
    push_if(
        &mut run.verbose,
        verbose,
        String::from_str("graph after optimization:\n").concat(run.optimized.to_text().as_str()),
    );
    let kernel = match lower(&run.optimized) {
        Ok(kernel) => kernel,
        Err(e) => {
            return Err(PipelineError::Lower(e));
        }
    };
    push_if(
        &mut run.verbose,
        verbose,
        String::from_str("kernel before scheduling:\n").concat(kernel.to_text().as_str()),
    );
    Ok((run, kernel))
}

/// The cost model that is used: measuring needs a compiler.
pub open spec fn cost_used(requested: CostKind, compiler_available: bool) -> CostKind {
    if requested == CostKind::Measured && !compiler_available {
        CostKind::Static
    } else {
        requested
    }
}

/// Chooses the cost model of a run, and notes where it is not the requested one.
pub fn choose_cost(run: Optimized, compiler_available: bool) -> (r: (Optimized, CostKind))
    ensures
        r.1 == cost_used(run.opts.cost, compiler_available),
        r.0@ == (OptimizedView {
            notes: also(
                run@.notes,
                r.1 != run.opts.cost,
                "measured cost requested but no C compiler found; using static cost"@,
            ),
            ..run@
        }),
        r.0.opts == run.opts,
        r.0.rational_inputs == run.rational_inputs,
        r.0.f64_inputs == run.f64_inputs,
{
    let mut run = run;
    let fallback = run.opts.cost == CostKind::Measured && !compiler_available;
    push_if(
        &mut run.notes,
        fallback,
        String::from_str("measured cost requested but no C compiler found; using static cost"),
    );
    let used = if fallback {
        CostKind::Static
    } else {
        run.opts.cost
    };
    (run, used)
}

/// Configuration of schedule tuning.
#[derive(Debug)]
pub struct TuneConfig {
    /// Legality mode of moves.
    pub mode: Mode,
    /// Tile sizes to try.
    pub tile_sizes: Vec<usize>,
    /// The largest number of rounds.
    pub max_rounds: usize,
    /// Number of validation trials.
    pub validation_trials: usize,
    /// Number of restarts.
    pub restarts: usize,
    /// Seed of the validation inputs.
    pub seed: u64,
}

/// Returns the configuration of schedule tuning, and the repetitions of measurements.
pub fn tune_config(opts: &RunOpts) -> (r: (TuneConfig, usize))
    ensures
        r.0.mode == opts.mode,
        r.0.tile_sizes@ == seq![2usize, 4usize],
        r.0.max_rounds == 4,
        r.0.validation_trials == 8,
        r.0.restarts == 0,
        r.0.seed == opts.seed,
        r.1 == (if opts.reps < 1 {
            1
        } else {
            opts.reps
        }),
{
    let tile_sizes: Vec<usize> = vec![2, 4];
    proof {
        assert(tile_sizes@ =~= seq![2usize, 4usize]);
    }
    let cfg = TuneConfig {
        mode: opts.mode,
        tile_sizes,
        max_rounds: 4,
        validation_trials: 8,
        restarts: 0,
        seed: opts.seed,
    };
    (cfg, if opts.reps < 1 { 1 } else { opts.reps })
}

/// What schedule tuning found.
pub struct TuneResult {
    /// The scheduled kernel.
    pub kernel: Kernel,
    /// The moves that lead to it.
    pub moves: Vec<MoveDesc>,
    /// Cost before tuning.
    pub cost_before: u64,
    /// Cost after tuning.
    pub cost_after: u64,
    /// Number of candidates checked.
    pub candidates_evaluated: usize,
}

/// A run after C emission.
pub struct Emitted {
    /// The run so far.
    pub run: Optimized,
    /// The cost model used.
    pub used_cost: CostKind,
    /// What tuning found.
    pub tuned: TuneResult,
    /// The C source.
    pub source: String,
}

/// Emits the C source of the scheduled kernel.
///
/// # Errors
///
/// Returns [`PipelineError::Codegen`] where emission fails.
pub fn emit_run(run: Optimized, used_cost: CostKind, tuned: TuneResult) -> (r: Result<
    Emitted,
    PipelineError,
>)
    ensures
        match r {
            Ok(next) => source_c(tuned.kernel@) == Ok::<Seq<char>, CodegenErrorView>(next.source@)
                && next.tuned == tuned && next.used_cost == used_cost && next.run@ == (
            OptimizedView {
                verbose: also(
                    run@.verbose,
                    run.opts.verbose,
                    "kernel after scheduling:\n"@ + tuned.kernel@.text(),
                ),
                ..run@
            }) && next.run.opts == run.opts && next.run.rational_inputs == run.rational_inputs
                && next.run.f64_inputs == run.f64_inputs,
            Err(e) => e@ is Codegen && source_c(tuned.kernel@) == Err::<
                Seq<char>,
                CodegenErrorView,
            >(e@->Codegen_0),
        },
{
    let mut run = run;
    let verbose = run.opts.verbose;
    push_if(
        &mut run.verbose,
        verbose,
        String::from_str("kernel after scheduling:\n").concat(tuned.kernel.to_text().as_str()),
    );
    match emit_c(&tuned.kernel) {
        Ok(source) => Ok(Emitted { run, used_cost, tuned, source }),
        Err(e) => Err(PipelineError::Codegen(e)),
    }
}

/// Why the kernel is not compiled, where it is not.
pub open spec fn compile_note(no_compile: bool, compiler_available: bool) -> Option<Seq<char>> {
    if no_compile {
        Some("C compilation skipped by --no-compile"@)
    } else if !compiler_available {
        Some("C compilation skipped because no C compiler was found"@)
    } else {
        None
    }
}

/// Decides whether to compile, and notes why not.
pub fn plan_compile(emitted: Emitted, compiler_available: bool) -> (r: (Emitted, bool))
    ensures
        r.1 == (compile_note(emitted.run.opts.no_compile, compiler_available) is None),
        r.0.run@ == (OptimizedView {
            notes: match compile_note(emitted.run.opts.no_compile, compiler_available) {
                Some(note) => emitted.run@.notes.push(note),
                None => emitted.run@.notes,
            },
            ..emitted.run@
        }),
        r.0.run.opts == emitted.run.opts,
        r.0.run.rational_inputs == emitted.run.rational_inputs,
        r.0.run.f64_inputs == emitted.run.f64_inputs,
        r.0.used_cost == emitted.used_cost,
        r.0.tuned == emitted.tuned,
        r.0.source == emitted.source,
{
    let mut emitted = emitted;
    let ghost before = string_views(emitted.run.notes@);
    let no_compile = emitted.run.opts.no_compile;
    push_if(
        &mut emitted.run.notes,
        no_compile,
        String::from_str("C compilation skipped by --no-compile"),
    );
    push_if(
        &mut emitted.run.notes,
        !no_compile && !compiler_available,
        String::from_str("C compilation skipped because no C compiler was found"),
    );
    (emitted, !no_compile && compiler_available)
}

/// Runs the self-check where it is asked for.
///
/// # Errors
///
/// Returns the error of the check.
pub fn check_run<D: Domain<Elem = u64>>(
    emitted: &Emitted,
    compiled_outputs: Option<&Vec<TensorF64>>,
) -> (r: Result<CheckStatus, PipelineError>)
    ensures
        if emitted.run.opts.check {
            checked::<D>(
                emitted.run@.graph,
                emitted.tuned.kernel@,
                emitted.run.opts.mode,
                bound::<Exact>(emitted.run.rational_inputs),
                bound::<D>(emitted.run.f64_inputs),
                compiled_view(compiled_outputs),
                check_view(r),
            )
        } else {
            r is Ok && r->Ok_0 == CheckStatus::NotRequested
        },
{
    if emitted.run.opts.check {
        check_pipeline::<D>(
            &emitted.run.graph,
            &emitted.tuned.kernel,
            emitted.run.opts.mode,
            &emitted.run.rational_inputs,
            &emitted.run.f64_inputs,
            compiled_outputs,
        )
    } else {
        Ok(CheckStatus::NotRequested)
    }
}

/// The texts of the moves.
pub open spec fn move_texts(moves: Seq<MoveDesc>) -> Seq<Seq<char>> {
    moves.map_values(|m: MoveDesc| m.text())
}

/// The report of a run.
pub open spec fn reported(
    emitted: Emitted,
    compiled: bool,
    preview: Seq<Seq<char>>,
    check: CheckView,
) -> ReportView {
    ReportView {
        example: emitted.run.opts.example@,
        input_names: emitted.run@.input_names,
        mode: emitted.run.opts.mode,
        egg_requested: emitted.run.opts.egg,
        requested_cost: emitted.run.opts.cost,
        used_cost: emitted.used_cost,
        notes: emitted.run@.notes,
        nodes_initial: emitted.run@.graph.nodes.len() as usize,
        nodes_after_driver: emitted.run.nodes_after_driver,
        nodes_after_egg: emitted.run@.optimized.nodes.len() as usize,
        rewrites: emitted.run@.rewrites,
        driver_fixpoint: emitted.run.driver_fixpoint,
        egg_adopted: emitted.run.egg_adopted,
        schedule_moves: move_texts(emitted.tuned.moves@),
        cost_before: emitted.tuned.cost_before,
        cost_after: emitted.tuned.cost_after,
        candidates_evaluated: emitted.tuned.candidates_evaluated,
        emitted_path: optional_text(emitted.run.opts.emit),
        emitted_c: emitted.source@,
        compiled,
        output_preview: preview,
        check,
        verbose: emitted.run@.verbose,
    }
}

/// Reports a run.
pub fn finish_run(
    emitted: Emitted,
    compiled: bool,
    output_preview: Vec<String>,
    check: CheckStatus,
) -> (r: RunReport)
    ensures
        r@ == reported(emitted, compiled, string_views(output_preview@), check@),
{
    let mut schedule_moves: Vec<String> = Vec::new();
    let mut i: usize = 0;
    while i < emitted.tuned.moves.len()
        invariant
            i <= emitted.tuned.moves@.len(),
            schedule_moves@.len() == i,
            forall|j: int|
                0 <= j < i ==> (#[trigger] schedule_moves@[j])@ == emitted.tuned.moves@[j].text(),
        decreases emitted.tuned.moves@.len() - i,
    {
        schedule_moves.push(format_move(&emitted.tuned.moves[i]));
        i += 1;
    }
    proof {
        assert(string_views(schedule_moves@) =~= move_texts(emitted.tuned.moves@));
    }
    let nodes_initial: usize = emitted.run.graph.num_nodes();
    let nodes_after_egg: usize = emitted.run.optimized.num_nodes();
    RunReport {
        example: emitted.run.opts.example,
        input_names: emitted.run.input_names,
        mode: emitted.run.opts.mode,
        egg_requested: emitted.run.opts.egg,
        requested_cost: emitted.run.opts.cost,
        used_cost: emitted.used_cost,
        notes: emitted.run.notes,
        nodes_initial,
        nodes_after_driver: emitted.run.nodes_after_driver,
        nodes_after_egg,
        rewrites: emitted.run.rewrites,
        driver_fixpoint: emitted.run.driver_fixpoint,
        egg_adopted: emitted.run.egg_adopted,
        schedule_moves,
        cost_before: emitted.tuned.cost_before,
        cost_after: emitted.tuned.cost_after,
        candidates_evaluated: emitted.tuned.candidates_evaluated,
        emitted_path: emitted.run.opts.emit,
        emitted_c: emitted.source,
        compiled,
        output_preview,
        check,
        verbose: emitted.run.verbose,
    }
}

/// The built-in rules keep what a graph computes, over every domain whose scalars obey their
/// laws.
proof fn lemma_built_in_rules_sound<D: Domain>()
    requires
        law_holds::<D>(Law::NegInvolutive),
        law_holds::<D>(Law::ReluIdempotent),
    ensures
        forall|k: int|
            0 <= k < built_in_rules().len() ==> sound_rule::<D>(#[trigger] built_in_rules()[k]),
{
    assert(acts_as(rule_of(NegNegElim), NegNegElim));
    assert(acts_as(rule_of(ReluIdempotentElim), ReluIdempotentElim));
    assert(acts_as(rule_of(ReshapeReshapeFuse), ReshapeReshapeFuse));
    built_in_rules_are_sound::<D>(rule_of(NegNegElim));
    built_in_rules_are_sound::<D>(rule_of(ReluIdempotentElim));
    built_in_rules_are_sound::<D>(rule_of(ReshapeReshapeFuse));
}

/// Rewriting and lowering keep what a graph computes: where the graph evaluates on some inputs,
/// the kernel of the rewritten graph evaluates to the same outputs. This holds over every domain
/// whose scalars obey the laws of the built-in rules.
pub proof fn compiling_preserves_evaluation<D: Domain>(
    g: GraphView,
    mode: Mode,
    inputs: Map<Seq<char>, TensorView<D::V>>,
)
    requires
        literal_zero::<D>(),
        law_holds::<D>(Law::NegInvolutive),
        law_holds::<D>(Law::ReluIdempotent),
        g.nodes.len() <= usize::MAX,
        eval_graph::<D>(g, inputs) is Ok,
        inputs_filled(inputs),
        driven(g, mode) is Ok ==> lower_graph(driven(g, mode)->Ok_0.graph) is Ok && sizes_fit(
            infer_graph(driven(g, mode)->Ok_0.graph)->Ok_0,
        ),
    ensures
        driven(g, mode) is Ok,
        eval_kernel::<D>(lower_graph(driven(g, mode)->Ok_0.graph)->Ok_0, inputs) == Ok::<
            Seq<TensorView<D::V>>,
            LoopErrorView,
        >(eval_graph::<D>(g, inputs)->Ok_0),
{
    lemma_built_in_rules_sound::<D>();
    running_preserves_evaluation::<D>(g, built_in_rules(), mode.rewrites(), 1000, inputs);
    lowering_preserves_evaluation::<D>(driven(g, mode)->Ok_0.graph, inputs);
}

/// A graph that evaluates is rewritten and lowered, and its kernel evaluates to the same outputs,
/// where the extents of the rewritten graph are positive, its element counts are within `i64`,
/// and ids are left for its buffers and loops.
pub proof fn compiling_succeeds<D: Domain>(
    g: GraphView,
    mode: Mode,
    inputs: Map<Seq<char>, TensorView<D::V>>,
)
    requires
        literal_zero::<D>(),
        law_holds::<D>(Law::NegInvolutive),
        law_holds::<D>(Law::ReluIdempotent),
        g.nodes.len() <= usize::MAX,
        eval_graph::<D>(g, inputs) is Ok,
        inputs_filled(inputs),
        driven(g, mode) is Ok ==> {
            let after = driven(g, mode)->Ok_0.graph;
            let types = infer_graph(after)->Ok_0;
            extents_positive(types) && sizes_fit(types) && ids_fit(after.nodes, types)
        },
    ensures
        driven(g, mode) is Ok,
        lower_graph(driven(g, mode)->Ok_0.graph) is Ok,
        eval_kernel::<D>(lower_graph(driven(g, mode)->Ok_0.graph)->Ok_0, inputs) == Ok::<
            Seq<TensorView<D::V>>,
            LoopErrorView,
        >(eval_graph::<D>(g, inputs)->Ok_0),
{
    lemma_built_in_rules_sound::<D>();
    running_preserves_evaluation::<D>(g, built_in_rules(), mode.rewrites(), 1000, inputs);
    assert forall|k: int| 0 <= k < built_in_rules().len() implies adds_no_nodes(
        #[trigger] built_in_rules()[k],
    ) by {
        assert(acts_as(rule_of(NegNegElim), NegNegElim));
        assert(acts_as(rule_of(ReluIdempotentElim), ReluIdempotentElim));
        assert(acts_as(rule_of(ReshapeReshapeFuse), ReshapeReshapeFuse));
        built_in_rules_add_no_nodes(built_in_rules()[k]);
    }
    runs_add_no_nodes(g, built_in_rules(), mode.rewrites(), 1000);
    evaluated_graphs_lower::<D>(driven(g, mode)->Ok_0.graph, inputs);
}

/// A kernel that was neither searched for nor scheduled passes the exact part of the self-check.
pub proof fn unscheduled_kernels_agree_exactly(
    g: GraphView,
    mode: Mode,
    inputs: Map<Seq<char>, TensorView<real>>,
)
    requires
        g.nodes.len() <= usize::MAX,
        eval_graph::<Exact>(g, inputs) is Ok,
        inputs_filled(inputs),
        driven(g, mode) is Ok ==> lower_graph(driven(g, mode)->Ok_0.graph) is Ok && sizes_fit(
            infer_graph(driven(g, mode)->Ok_0.graph)->Ok_0,
        ),
    ensures
        driven(g, mode) is Ok,
        eval_kernel::<Exact>(lower_graph(driven(g, mode)->Ok_0.graph)->Ok_0, inputs) == Ok::<
            Seq<TensorView<real>>,
            LoopErrorView,
        >(eval_graph::<Exact>(g, inputs)->Ok_0),
{
    exact_arithmetic_obeys_every_law(Law::NegInvolutive);
    exact_arithmetic_obeys_every_law(Law::ReluIdempotent);
    compiling_preserves_evaluation::<Exact>(g, mode, inputs);
}

} // verus!

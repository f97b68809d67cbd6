//! Deterministic rewrite fixpoint driver.
use vstd::prelude::*;

use crate::domain::Domain;
use crate::eval::eval_graph;
use crate::graph::{well_formed, Graph, GraphView};
use crate::op::NodeId;
use crate::preservation::{pruning_is_idempotent, pruning_preserves_evaluation};
use crate::rule::Rewrite;
use crate::rules::{
    neg_neg_elim_preserves_evaluation, preserves, relu_idempotent_elim_preserves_evaluation,
    reshape_reshape_fuse_preserves_evaluation, NegNegElim, ReluIdempotentElim, ReshapeReshapeFuse,
};
use crate::ruleset::{permitted, permitted_rules_are_safe, rule_views, Rule, RuleSet, RuleView};
use crate::safety::{law_holds, Law, RewriteMode};
use crate::seqs::{first_some, lemma_first_some_at, lemma_first_some_none};
use crate::surgery::{prune_and_rebuild, pruned, pruning_succeeds, replaced, SurgeryError};
use crate::tensor::TensorView;

verus! {

/// Configuration of the rewrite driver.
#[derive(Debug, Clone, Copy)]
pub struct DriverConfig {
    /// Which rules may be applied.
    pub mode: RewriteMode,
    /// The largest number of rewrites to apply.
    pub max_steps: usize,
}

impl Default for DriverConfig {
    fn default() -> (r: Self)
        ensures
            r.mode == RewriteMode::Strict,
            r.max_steps == 1000,
    {
        DriverConfig { mode: RewriteMode::Strict, max_steps: 1000 }
    }
}

/// One applied rewrite.
#[derive(Debug, Clone, Copy)]
pub struct AppliedRewrite {
    /// The name of the rule.
    pub rule: &'static str,
}

/// Result of a driver run.
#[derive(Debug, Clone)]
pub struct RunResult {
    /// The rewritten graph.
    pub graph: Graph,
    /// The applied rewrites in order.
    pub applied: Vec<AppliedRewrite>,
    /// Whether no enabled rule fires any more.
    pub reached_fixpoint: bool,
}

/// The contents of a [`RunResult`].
pub struct RunView {
    pub graph: GraphView,
    pub applied: Seq<Seq<char>>,
    pub reached_fixpoint: bool,
}

/// The names of the applied rewrites.
pub open spec fn applied_names(applied: Seq<AppliedRewrite>) -> Seq<Seq<char>> {
    applied.map_values(|a: AppliedRewrite| a.rule@)
}

impl View for RunResult {
    type V = RunView;

    open spec fn view(&self) -> RunView {
        RunView {
            graph: self.graph@,
            applied: applied_names(self.applied@),
            reached_fixpoint: self.reached_fixpoint,
        }
    }
}

impl RunResult {
    /// Returns the number of applied rewrites.
    #[must_use]
    pub fn steps(&self) -> (r: usize)
        ensures
            r == self@.applied.len(),
    {
        self.applied.len()
    }
}

/// What one rule makes of the graph at a node, with the rule's name.
pub open spec fn fired(g: GraphView, node: int, rule: RuleView) -> Option<
    (Seq<char>, GraphView),
> {
    match rule.outcome(g, NodeId(node as usize)) {
        Some(after) => Some((rule.label, after)),
        None => None,
    }
}

pub open spec fn fired_each(g: GraphView, node: int, rules: Seq<RuleView>) -> Seq<
    Option<(Seq<char>, GraphView)>,
> {
    rules.map_values(|rule: RuleView| fired(g, node, rule))
}

/// The first rule that fires at a node.
pub open spec fn firing_at(g: GraphView, node: int, rules: Seq<RuleView>) -> Option<
    (Seq<char>, GraphView),
> {
    first_some(fired_each(g, node, rules))
}

pub open spec fn firing_each(g: GraphView, rules: Seq<RuleView>) -> Seq<
    Option<(Seq<char>, GraphView)>,
> {
    Seq::new(g.nodes.len(), |node: int| firing_at(g, node, rules))
}

/// The first rewrite that fires: the lowest node, and there the first rule.
pub open spec fn first_firing(g: GraphView, rules: Seq<RuleView>) -> Option<
    (Seq<char>, GraphView),
> {
    first_some(firing_each(g, rules))
}

/// What is left after at most `left` rewrites, each followed by pruning.
pub open spec fn drive(g: GraphView, rules: Seq<RuleView>, left: nat) -> Result<
    RunView,
    SurgeryError,
>
    decreases left,
{
    match first_firing(g, rules) {
        None => Ok(RunView { graph: g, applied: Seq::empty(), reached_fixpoint: true }),
        Some((label, after)) => if left == 0 {
            Ok(RunView { graph: g, applied: Seq::empty(), reached_fixpoint: false })
        } else {
            match pruned(after) {
                Err(e) => Err(e),
                Ok(next) => match drive(next, rules, (left - 1) as nat) {
                    Err(e) => Err(e),
                    Ok(rest) => Ok(
                        RunView { applied: seq![label] + rest.applied, ..rest },
                    ),
                },
            }
        },
    }
}

/// What a driver run makes of a graph.
pub open spec fn run_graph(
    g: GraphView,
    rules: Seq<RuleView>,
    mode: RewriteMode,
    max_steps: nat,
) -> Result<RunView, SurgeryError> {
    match pruned(g) {
        Err(e) => Err(e),
        Ok(start) => drive(start, permitted(rules, mode, rules.len()), max_steps),
    }
}

/// Finds the first rewrite that fires.
fn find_first_firing(graph: &Graph, rules: &Vec<&Rule>) -> (r: Option<(&'static str, Graph)>)
    ensures
        match r {
            Some((name, after)) => first_firing(graph@, rule_views(rules@)) == Some(
                (name@, after@),
            ),
            None => first_firing(graph@, rule_views(rules@)) is None,
        },
{
    let ghost g = graph@;
    let ghost views = rule_views(rules@);
    let mut node: usize = 0;
    while node < graph.nodes.len()
        invariant
            node <= g.nodes.len(),
            g == graph@,
            views == rule_views(rules@),
            forall|v: int| 0 <= v < node ==> firing_each(g, views)[v] is None,
        decreases g.nodes.len() - node,
    {
        let mut k: usize = 0;
        while k < rules.len()
            invariant
                node < g.nodes.len(),
                k <= rules@.len(),
                g == graph@,
                views == rule_views(rules@),
                forall|v: int| 0 <= v < node ==> firing_each(g, views)[v] is None,
                forall|j: int| 0 <= j < k ==> fired_each(g, node as int, views)[j] is None,
            decreases rules@.len() - k,
        {
            let rule = rules[k];
            assert(views[k as int] == rule@);
            match rule.rewrite.try_at(graph, NodeId(node)) {
                Some(after) => {
                    proof {
                        assert(views[k as int].outcome(g, NodeId(node)) == Some(after@));
                        lemma_first_some_at(fired_each(g, node as int, views), k as int);
                        lemma_first_some_at(firing_each(g, views), node as int);
                    }
                    return Some((rule.rewrite.name(), after));
                }
                None => {
                    assert(views[k as int].outcome(g, NodeId(node)) is None);
                }
            }
            k += 1;
        }
        proof {
            lemma_first_some_none(fired_each(g, node as int, views));
        }
        node += 1;
    }
    proof {
        lemma_first_some_none(firing_each(g, views));
    }
    None
}

/// Applies enabled rules until none fires or the step limit is reached.
///
/// The graph is pruned first and after every rewrite. Each step applies the
/// first rule that fires at the lowest node.
///
/// # Errors
///
/// Returns [`SurgeryError`] if the graph is not well-formed or a rule makes a
/// graph that is not.
pub fn run(graph: &Graph, rules: &RuleSet, cfg: &DriverConfig) -> (r: Result<
    RunResult,
    SurgeryError,
>)
    ensures
        match r {
            Ok(result) => {
                &&& run_graph(graph@, rules@, cfg.mode, cfg.max_steps as nat) == Ok::<
                    RunView,
                    SurgeryError,
                >(result@)
                &&& well_formed(result@.graph)
                &&& pruned(result@.graph) == Ok::<GraphView, SurgeryError>(result@.graph)
            },
            Err(e) => run_graph(graph@, rules@, cfg.mode, cfg.max_steps as nat) == Err::<
                RunView,
                SurgeryError,
            >(e),
        },
{
    let mut current = match prune_and_rebuild(graph) {
        Ok(current) => current,
        Err(e) => {
            return Err(e);
        }
    };
    proof {
        lemma_pruned_stays(graph@, graph.nodes.len());
    }
    let enabled = rules.enabled(cfg.mode);
    let ghost views = permitted(rules@, cfg.mode, rules@.len());
    let ghost whole = run_graph(graph@, rules@, cfg.mode, cfg.max_steps as nat);
    let mut applied: Vec<AppliedRewrite> = Vec::new();
    proof {
        assert(applied_names(applied@) =~= Seq::empty());
        let rest = drive(current@, views, cfg.max_steps as nat);
        if rest is Ok {
            assert(Seq::<Seq<char>>::empty() + rest->Ok_0.applied =~= rest->Ok_0.applied);
        }
    }
    let mut reached_fixpoint = false;
    loop
        invariant_except_break
            views == rule_views(enabled@),
            well_formed(current@),
            pruned(current@) == Ok::<GraphView, SurgeryError>(current@),
            applied@.len() <= cfg.max_steps,
            whole == prefixed(
                applied_names(applied@),
                drive(current@, views, (cfg.max_steps - applied@.len()) as nat),
            ),
            whole == run_graph(graph@, rules@, cfg.mode, cfg.max_steps as nat),
        ensures
            well_formed(current@),
            pruned(current@) == Ok::<GraphView, SurgeryError>(current@),
            whole == Ok::<RunView, SurgeryError>(
                RunView {
                    graph: current@,
                    applied: applied_names(applied@),
                    reached_fixpoint,
                },
            ),
        decreases cfg.max_steps - applied@.len(),
    {
        let ghost left = (cfg.max_steps - applied@.len()) as nat;
        match find_first_firing(&current, &enabled) {
            None => {
                reached_fixpoint = true;
                proof {
                    assert(applied_names(applied@) + Seq::<Seq<char>>::empty() =~= applied_names(
                        applied@,
                    ));
                }
                break;
            }
            Some((rule, rewritten)) => {
                if applied.len() >= cfg.max_steps {
                    reached_fixpoint = false;
                    proof {
                        assert(applied_names(applied@) + Seq::<Seq<char>>::empty()
                            =~= applied_names(applied@));
                    }
                    break;
                }
                let ghost rest = pruned(rewritten@);
                current = match prune_and_rebuild(&rewritten) {
                    Ok(next) => next,
                    Err(e) => {
                        return Err(e);
                    }
                };
                let ghost before = applied@;
                applied.push(AppliedRewrite { rule });
                proof {
                    lemma_pruned_stays(rewritten@, rewritten.nodes.len());
                    assert(applied_names(applied@) =~= applied_names(before).push(rule@));
                    let tail = drive(current@, views, (left - 1) as nat);
                    if tail is Ok {
                        let names = tail->Ok_0.applied;
                        assert(applied_names(before) + (seq![rule@] + names) =~= applied_names(
                            applied@,
                        ) + names);
                    }
                }
            }
        }
    }
    Ok(RunResult { graph: current, applied, reached_fixpoint })
}

/// A run with rewrites before it.
pub open spec fn prefixed(names: Seq<Seq<char>>, rest: Result<RunView, SurgeryError>) -> Result<
    RunView,
    SurgeryError,
> {
    match rest {
        Err(e) => Err(e),
        Ok(run) => Ok(RunView { applied: names + run.applied, ..run }),
    }
}

/// A pruned graph is well-formed and prunes to itself.
proof fn lemma_pruned_stays(g: GraphView, n: usize)
    requires
        g.nodes.len() == n,
        pruned(g) is Ok,
    ensures
        well_formed(pruned(g)->Ok_0),
        pruned(pruned(g)->Ok_0) == pruned(g),
{
    crate::graph::validation_accepts_exactly_well_formed(g);
    pruning_succeeds(g);
    pruning_is_idempotent(g);
}

/// A run applies at most `left` rewrites. It says it reached a fixpoint exactly if no rule fires
/// on the result, and otherwise it applied as many rewrites as it may.
pub proof fn runs_stop_at_fixpoint_or_limit(g: GraphView, rules: Seq<RuleView>, left: nat)
    requires
        drive(g, rules, left) is Ok,
    ensures
        ({
            let run = drive(g, rules, left)->Ok_0;
            &&& run.applied.len() <= left
            &&& run.reached_fixpoint <==> first_firing(run.graph, rules) is None
            &&& !run.reached_fixpoint ==> run.applied.len() == left
        }),
    decreases left,
{
    match first_firing(g, rules) {
        Some((label, after)) => {
            if left > 0 {
                runs_stop_at_fixpoint_or_limit(
                    pruned(after)->Ok_0,
                    rules,
                    (left - 1) as nat,
                );
            }
        },
        None => {},
    }
}

/// Every applied rewrite is one of the rules.
pub proof fn runs_apply_only_given_rules(g: GraphView, rules: Seq<RuleView>, left: nat, i: int)
    requires
        drive(g, rules, left) is Ok,
        0 <= i < drive(g, rules, left)->Ok_0.applied.len(),
    ensures
        exists|k: int|
            0 <= k < rules.len() && (#[trigger] rules[k]).label == drive(
                g,
                rules,
                left,
            )->Ok_0.applied[i],
    decreases left,
{
    let (label, after) = first_firing(g, rules)->Some_0;
    let next = pruned(after)->Ok_0;
    if i > 0 {
        runs_apply_only_given_rules(next, rules, (left - 1) as nat, i - 1);
        assert(drive(g, rules, left)->Ok_0.applied[i] == drive(
            next,
            rules,
            (left - 1) as nat,
        )->Ok_0.applied[i - 1]);
    } else {
        lemma_firing_source(g, rules);
    }
}

/// What fires comes from one of the rules at one of the nodes.
proof fn lemma_firing_source(g: GraphView, rules: Seq<RuleView>)
    requires
        first_firing(g, rules) is Some,
    ensures
        exists|node: int, k: int|
            0 <= node < g.nodes.len() && 0 <= k < rules.len() && #[trigger] fired(
                g,
                node,
                rules[k],
            ) == first_firing(g, rules),
{
    let each = firing_each(g, rules);
    lemma_first_some_source(each);
    let node = choose|node: int|
        0 <= node < each.len() && #[trigger] each[node] is Some && each[node] == first_some(each);
    let at = fired_each(g, node, rules);
    lemma_first_some_source(at);
    let k = choose|k: int|
        0 <= k < at.len() && #[trigger] at[k] is Some && at[k] == first_some(at);
    assert(fired(g, node, rules[k]) == first_firing(g, rules));
}

proof fn lemma_first_some_source<E>(checks: Seq<Option<E>>)
    requires
        first_some(checks) is Some,
    ensures
        exists|i: int|
            0 <= i < checks.len() && #[trigger] checks[i] is Some && checks[i] == first_some(
                checks,
            ),
    decreases checks.len(),
{
    let rest = checks.drop_last();
    if first_some(rest) is Some {
        lemma_first_some_source(rest);
        let i = choose|i: int|
            0 <= i < rest.len() && #[trigger] rest[i] is Some && rest[i] == first_some(rest);
        assert(checks[i] is Some && checks[i] == first_some(checks));
    } else {
        assert(checks[checks.len() - 1] is Some);
    }
}

/// Every graph that a rule makes of a graph within `usize` is within `usize`.
pub open spec fn rules_fit(rules: Seq<RuleView>) -> bool {
    forall|k: int, g: GraphView, node: NodeId|
        0 <= k < rules.len() && g.nodes.len() <= usize::MAX && (#[trigger] rules[k].outcome(
            g,
            node,
        )) is Some ==> rules[k].outcome(g, node)->Some_0.nodes.len() <= usize::MAX
}

/// The graph that a run ends with prunes to itself.
proof fn lemma_driven_is_pruned(g: GraphView, rules: Seq<RuleView>, left: nat)
    requires
        g.nodes.len() <= usize::MAX,
        pruned(g) == Ok::<GraphView, SurgeryError>(g),
        rules_fit(rules),
        drive(g, rules, left) is Ok,
    ensures
        ({
            let end = drive(g, rules, left)->Ok_0.graph;
            pruned(end) == Ok::<GraphView, SurgeryError>(end)
        }),
    decreases left,
{
    match first_firing(g, rules) {
        Some((label, after)) => {
            if left > 0 {
                lemma_firing_source(g, rules);
                let (node, k) = choose|node: int, k: int|
                    0 <= node < g.nodes.len() && 0 <= k < rules.len() && #[trigger] fired(
                        g,
                        node,
                        rules[k],
                    ) == first_firing(g, rules);
                assert(rules[k].outcome(g, NodeId(node as usize)) == Some(after));
                crate::graph::validation_accepts_exactly_well_formed(after);
                pruning_succeeds(after);
                pruning_is_idempotent(after);
                lemma_driven_is_pruned(pruned(after)->Ok_0, rules, (left - 1) as nat);
            }
        },
        None => {},
    }
}

/// Running again on the result of a run that reached a fixpoint changes nothing.
pub proof fn rerunning_at_fixpoint_is_identity(
    g: GraphView,
    rules: Seq<RuleView>,
    mode: RewriteMode,
    max_steps: nat,
    again: nat,
)
    requires
        g.nodes.len() <= usize::MAX,
        rules_fit(rules),
        run_graph(g, rules, mode, max_steps) is Ok,
        run_graph(g, rules, mode, max_steps)->Ok_0.reached_fixpoint,
    ensures
        run_graph(run_graph(g, rules, mode, max_steps)->Ok_0.graph, rules, mode, again) == Ok::<
            RunView,
            SurgeryError,
        >(
            RunView {
                graph: run_graph(g, rules, mode, max_steps)->Ok_0.graph,
                applied: Seq::empty(),
                reached_fixpoint: true,
            },
        ),
{
    let enabled = permitted(rules, mode, rules.len());
    runs_stop_at_fixpoint_or_limit(pruned(g)->Ok_0, enabled, max_steps);
    assert(rules_fit(enabled)) by {
        assert forall|k: int, g: GraphView, node: NodeId|
            0 <= k < enabled.len() && g.nodes.len() <= usize::MAX && (
            #[trigger] enabled[k].outcome(g, node)) is Some implies enabled[k].outcome(
            g,
            node,
        )->Some_0.nodes.len() <= usize::MAX by {
            permitted_rules_are_safe(rules, mode, rules.len(), k);
            let j = rules.index_of(enabled[k]);
            assert(rules[j] == enabled[k]);
            assert(rules[j].outcome(g, node) is Some);
        }
    }
    crate::graph::validation_accepts_exactly_well_formed(g);
    pruning_succeeds(g);
    pruning_is_idempotent(g);
    lemma_driven_is_pruned(pruned(g)->Ok_0, enabled, max_steps);
}

/// A rule keeps what graphs compute over a domain, and their size within `usize`.
pub open spec fn sound_rule<D: Domain>(rule: RuleView) -> bool {
    forall|g: GraphView, node: NodeId|
        g.nodes.len() <= usize::MAX && (#[trigger] rule.outcome(g, node)) is Some
            ==> rule.outcome(g, node)->Some_0.nodes.len() <= usize::MAX && preserves::<D>(
            g,
            rule.outcome(g, node)->Some_0,
        )
}

/// A run with sound rules keeps what the graph computes.
pub proof fn driving_preserves_evaluation<D: Domain>(
    g: GraphView,
    rules: Seq<RuleView>,
    left: nat,
    inputs: Map<Seq<char>, TensorView<D::V>>,
)
    requires
        g.nodes.len() <= usize::MAX,
        forall|k: int| 0 <= k < rules.len() ==> sound_rule::<D>(#[trigger] rules[k]),
        eval_graph::<D>(g, inputs) is Ok,
    ensures
        drive(g, rules, left) is Ok,
        eval_graph::<D>(drive(g, rules, left)->Ok_0.graph, inputs) == eval_graph::<D>(g, inputs),
    decreases left,
{
    match first_firing(g, rules) {
        Some((label, after)) => {
            if left > 0 {
                lemma_firing_source(g, rules);
                let (node, k) = choose|node: int, k: int|
                    0 <= node < g.nodes.len() && 0 <= k < rules.len() && #[trigger] fired(
                        g,
                        node,
                        rules[k],
                    ) == first_firing(g, rules);
                assert(sound_rule::<D>(rules[k]));
                assert(rules[k].outcome(g, NodeId(node as usize)) == Some(after));
                assert(preserves::<D>(g, after));
                assert(eval_graph::<D>(after, inputs) == eval_graph::<D>(g, inputs));
                pruning_preserves_evaluation::<D>(after, inputs);
                let next = pruned(after)->Ok_0;
                crate::graph::validation_accepts_exactly_well_formed(after);
                pruning_succeeds(after);
                driving_preserves_evaluation::<D>(next, rules, (left - 1) as nat, inputs);
            }
        },
        None => {},
    }
}

/// A driver run with sound rules succeeds on a graph that evaluates, and its result evaluates to
/// the same outputs.
pub proof fn running_preserves_evaluation<D: Domain>(
    g: GraphView,
    rules: Seq<RuleView>,
    mode: RewriteMode,
    max_steps: nat,
    inputs: Map<Seq<char>, TensorView<D::V>>,
)
    requires
        g.nodes.len() <= usize::MAX,
        forall|k: int| 0 <= k < rules.len() ==> sound_rule::<D>(#[trigger] rules[k]),
        eval_graph::<D>(g, inputs) is Ok,
    ensures
        run_graph(g, rules, mode, max_steps) is Ok,
        eval_graph::<D>(run_graph(g, rules, mode, max_steps)->Ok_0.graph, inputs) == eval_graph::<
            D,
        >(g, inputs),
{
    let enabled = permitted(rules, mode, rules.len());
    assert forall|k: int| 0 <= k < enabled.len() implies sound_rule::<D>(#[trigger] enabled[k]) by {
        permitted_rules_are_safe(rules, mode, rules.len(), k);
        let j = rules.index_of(enabled[k]);
        assert(rules[j] == enabled[k]);
    }
    pruning_preserves_evaluation::<D>(g, inputs);
    crate::graph::validation_accepts_exactly_well_formed(g);
    pruning_succeeds(g);
    driving_preserves_evaluation::<D>(pruned(g)->Ok_0, enabled, max_steps, inputs);
}

/// A rule that makes of graphs what the given rewrite makes of them.
pub open spec fn acts_as<R: Rewrite>(rule: RuleView, rewrite: R) -> bool {
    forall|g: GraphView, node: NodeId|
        #[trigger] rule.outcome(g, node) == rewrite.outcome(g, node)
}

/// The three built-in rules are sound over every domain whose scalars obey their laws.
pub proof fn built_in_rules_are_sound<D: Domain>(rule: RuleView)
    requires
        law_holds::<D>(Law::NegInvolutive),
        law_holds::<D>(Law::ReluIdempotent),
        acts_as(rule, NegNegElim) || acts_as(rule, ReluIdempotentElim) || acts_as(
            rule,
            ReshapeReshapeFuse,
        ),
    ensures
        sound_rule::<D>(rule),
{
    assert forall|g: GraphView, node: NodeId|
        g.nodes.len() <= usize::MAX && (#[trigger] rule.outcome(g, node)) is Some implies rule.outcome(
        g,
        node,
    )->Some_0.nodes.len() <= usize::MAX && preserves::<D>(g, rule.outcome(g, node)->Some_0) by {
        if acts_as(rule, NegNegElim) {
            assert(rule.outcome(g, node) == NegNegElim.outcome(g, node));
            neg_neg_elim_preserves_evaluation::<D>(g, node);
            let input = g.nodes[(g.nodes[node.0 as int]->Neg_0).0 as int]->Neg_0;
            lemma_replaced_len(g, node, input);
        } else if acts_as(rule, ReluIdempotentElim) {
            assert(rule.outcome(g, node) == ReluIdempotentElim.outcome(g, node));
            relu_idempotent_elim_preserves_evaluation::<D>(g, node);
            lemma_replaced_len(g, node, g.nodes[node.0 as int]->Relu_0);
        } else {
            assert(rule.outcome(g, node) == ReshapeReshapeFuse.outcome(g, node));
            reshape_reshape_fuse_preserves_evaluation::<D>(g, node);
            let inner = g.nodes[node.0 as int]->Reshape_input;
            let op = crate::op::OpView::Reshape {
                input: g.nodes[inner.0 as int]->Reshape_input,
                new_shape: g.nodes[node.0 as int]->Reshape_new_shape,
            };
            crate::surgery::lemma_build_from(
                g.nodes.update(node.0 as int, op),
                g.nodes.len(),
            );
        }
    }
}

/// Replacement keeps the number of nodes.
proof fn lemma_replaced_len(g: GraphView, target: NodeId, replacement: NodeId)
    requires
        g.nodes.len() <= usize::MAX,
        replaced(g, target, replacement) is Ok,
    ensures
        replaced(g, target, replacement)->Ok_0.nodes.len() == g.nodes.len(),
{
    crate::surgery::lemma_build_from(
        crate::surgery::swapped_ops(g.nodes, target, replacement),
        g.nodes.len(),
    );
}

/// A rule that adds no nodes.
pub open spec fn adds_no_nodes(rule: RuleView) -> bool {
    forall|g: GraphView, node: NodeId|
        g.nodes.len() <= usize::MAX && (#[trigger] rule.outcome(g, node)) is Some
            ==> rule.outcome(g, node)->Some_0.nodes.len() <= g.nodes.len()
}

/// The three built-in rules add no nodes.
pub proof fn built_in_rules_add_no_nodes(rule: RuleView)
    requires
        acts_as(rule, NegNegElim) || acts_as(rule, ReluIdempotentElim) || acts_as(
            rule,
            ReshapeReshapeFuse,
        ),
    ensures
        adds_no_nodes(rule),
{
    assert forall|g: GraphView, node: NodeId|
        g.nodes.len() <= usize::MAX && (#[trigger] rule.outcome(g, node)) is Some implies rule.outcome(
        g,
        node,
    )->Some_0.nodes.len() <= g.nodes.len() by {
        if acts_as(rule, NegNegElim) {
            assert(rule.outcome(g, node) == NegNegElim.outcome(g, node));
            let input = g.nodes[(g.nodes[node.0 as int]->Neg_0).0 as int]->Neg_0;
            lemma_replaced_len(g, node, input);
        } else if acts_as(rule, ReluIdempotentElim) {
            assert(rule.outcome(g, node) == ReluIdempotentElim.outcome(g, node));
            lemma_replaced_len(g, node, g.nodes[node.0 as int]->Relu_0);
        } else {
            assert(rule.outcome(g, node) == ReshapeReshapeFuse.outcome(g, node));
            let inner = g.nodes[node.0 as int]->Reshape_input;
            let op = crate::op::OpView::Reshape {
                input: g.nodes[inner.0 as int]->Reshape_input,
                new_shape: g.nodes[node.0 as int]->Reshape_new_shape,
            };
            crate::surgery::lemma_build_from(
                g.nodes.update(node.0 as int, op),
                g.nodes.len(),
            );
        }
    }
}

/// Pruning adds no nodes.
proof fn lemma_pruned_len(g: GraphView)
    requires
        g.nodes.len() <= usize::MAX,
        pruned(g) is Ok,
    ensures
        pruned(g)->Ok_0.nodes.len() <= g.nodes.len(),
{
    crate::graph::validation_accepts_exactly_well_formed(g);
    pruning_succeeds(g);
}

/// Driving with rules that add no nodes adds no nodes.
proof fn lemma_drive_adds_no_nodes(g: GraphView, rules: Seq<RuleView>, left: nat)
    requires
        g.nodes.len() <= usize::MAX,
        forall|k: int| 0 <= k < rules.len() ==> adds_no_nodes(#[trigger] rules[k]),
        drive(g, rules, left) is Ok,
    ensures
        drive(g, rules, left)->Ok_0.graph.nodes.len() <= g.nodes.len(),
    decreases left,
{
    match first_firing(g, rules) {
        Some((label, after)) => {
            if left > 0 {
                lemma_firing_source(g, rules);
                lemma_pruned_len(after);
                lemma_drive_adds_no_nodes(pruned(after)->Ok_0, rules, (left - 1) as nat);
            }
        },
        None => {},
    }
}

/// A driver run with rules that add no nodes gives a graph that is no larger.
pub proof fn runs_add_no_nodes(
    g: GraphView,
    rules: Seq<RuleView>,
    mode: RewriteMode,
    max_steps: nat,
)
    requires
        g.nodes.len() <= usize::MAX,
        forall|k: int| 0 <= k < rules.len() ==> adds_no_nodes(#[trigger] rules[k]),
        run_graph(g, rules, mode, max_steps) is Ok,
    ensures
        run_graph(g, rules, mode, max_steps)->Ok_0.graph.nodes.len() <= g.nodes.len(),
{
    let enabled = permitted(rules, mode, rules.len());
    assert forall|k: int| 0 <= k < enabled.len() implies adds_no_nodes(#[trigger] enabled[k]) by {
        permitted_rules_are_safe(rules, mode, rules.len(), k);
        let j = rules.index_of(enabled[k]);
        assert(rules[j] == enabled[k]);
    }
    lemma_pruned_len(g);
    lemma_drive_adds_no_nodes(pruned(g)->Ok_0, enabled, max_steps);
}

} // verus!

//! Rewrite-rule container and mode filtering.
use vstd::prelude::*;

use crate::graph::GraphView;
use crate::op::NodeId;
use crate::rule::Rewrite;
use crate::safety::{safety_of, Law, RewriteMode};

verus! {

/// What is known of a rule.
pub struct RuleView {
    pub label: Seq<char>,
    pub laws: Seq<Law>,
    /// The graph that the rule makes of a graph at a node, where it fires.
    pub outcomes: Map<(GraphView, NodeId), GraphView>,
}

impl RuleView {
    /// The graph that the rule makes of `g` at `node`, where it fires.
    pub open spec fn outcome(self, g: GraphView, node: NodeId) -> Option<GraphView> {
        if self.outcomes.dom().contains((g, node)) {
            Some(self.outcomes[(g, node)])
        } else {
            None
        }
    }
}

/// A rewrite of any kind.
pub struct Rule {
    pub rewrite: Box<dyn Rewrite>,
}

impl View for Rule {
    type V = RuleView;

    open spec fn view(&self) -> RuleView {
        RuleView {
            label: self.rewrite.label(),
            laws: self.rewrite.law_list(),
            outcomes: Map::new(
                |at: (GraphView, NodeId)| self.rewrite.outcome(at.0, at.1) is Some,
                |at: (GraphView, NodeId)| self.rewrite.outcome(at.0, at.1)->Some_0,
            ),
        }
    }
}

/// Rewrite rules in the order in which they are tried.
pub struct RuleSet {
    pub(crate) rules: Vec<Rule>,
}

impl View for RuleSet {
    type V = Seq<RuleView>;

    open(crate) spec fn view(&self) -> Seq<RuleView> {
        self.rules@.map_values(|r: Rule| r@)
    }
}

/// What is known of the rules.
pub open spec fn rule_views(rules: Seq<&Rule>) -> Seq<RuleView> {
    rules.map_values(|r: &Rule| r@)
}

/// The rules that the mode permits among the first `n`, in order.
pub open spec fn permitted(rules: Seq<RuleView>, mode: RewriteMode, n: nat) -> Seq<RuleView>
    decreases n,
{
    if n == 0 {
        Seq::empty()
    } else {
        let before = permitted(rules, mode, (n - 1) as nat);
        if mode.permits(safety_of(rules[n - 1].laws)) {
            before.push(rules[n - 1])
        } else {
            before
        }
    }
}

/// A permitted rule is one of the rules, and the mode permits its safety. So strict mode holds
/// only bit-exact rules.
pub proof fn permitted_rules_are_safe(rules: Seq<RuleView>, mode: RewriteMode, n: nat, i: int)
    requires
        n <= rules.len(),
        0 <= i < permitted(rules, mode, n).len(),
    ensures
        mode.permits(safety_of(permitted(rules, mode, n)[i].laws)),
        rules.contains(permitted(rules, mode, n)[i]),
    decreases n,
{
    let before = permitted(rules, mode, (n - 1) as nat);
    if i < before.len() {
        permitted_rules_are_safe(rules, mode, (n - 1) as nat, i);
    } else {
        assert(rules[n - 1] == permitted(rules, mode, n)[i]);
    }
}

impl RuleSet {
    /// Creates an empty rule set.
    #[must_use]
    pub fn new() -> (r: Self)
        ensures
            r@ == Seq::<RuleView>::empty(),
    {
        let r = RuleSet { rules: Vec::new() };
        proof {
            assert(r@ =~= Seq::empty());
        }
        r
    }

    /// Adds a rule after the others.
    pub fn add(&mut self, rule: Rule)
        ensures
            final(self)@ == old(self)@.push(rule@),
    {
        self.rules.push(rule);
        proof {
            assert(self@ =~= old(self)@.push(rule@));
        }
    }

    /// Returns the number of rules.
    #[must_use]
    pub fn len(&self) -> (r: usize)
        ensures
            r == self@.len(),
    {
        self.rules.len()
    }

    /// Returns whether there are no rules.
    #[must_use]
    pub fn is_empty(&self) -> (r: bool)
        ensures
            r == (self@.len() == 0),
    {
        self.rules.len() == 0
    }

    /// Returns the names of the rules in order.
    #[must_use]
    pub fn names(&self) -> (r: Vec<&'static str>)
        ensures
            r@.len() == self@.len(),
            forall|i: int| 0 <= i < r@.len() ==> (#[trigger] r@[i])@ == self@[i].label,
    {
        let mut names: Vec<&'static str> = Vec::new();
        let mut i: usize = 0;
        while i < self.rules.len()
            invariant
                i <= self@.len(),
                names@.len() == i,
                forall|j: int| 0 <= j < i ==> (#[trigger] names@[j])@ == self@[j].label,
            decreases self@.len() - i,
        {
            names.push(self.rules[i].rewrite.name());
            i += 1;
        }
        names
    }

    /// Returns the rules that a mode allows, in order.
    #[must_use]
    pub fn enabled(&self, mode: RewriteMode) -> (r: Vec<&Rule>)
        ensures
            rule_views(r@) == permitted(self@, mode, self@.len()),
    {
        let mut list: Vec<&Rule> = Vec::new();
        proof {
            assert(rule_views(list@) =~= Seq::empty());
        }
        let mut i: usize = 0;
        while i < self.rules.len()
            invariant
                i <= self@.len(),
                rule_views(list@) == permitted(self@, mode, i as nat),
            decreases self@.len() - i,
        {
            let rule = &self.rules[i];
            if mode.allows(rule.rewrite.safety()) {
                let ghost before = list@;
                list.push(rule);
                proof {
                    assert(rule_views(list@) =~= rule_views(before).push(rule@));
                }
            }
            i += 1;
        }
        list
    }
}

} // verus!

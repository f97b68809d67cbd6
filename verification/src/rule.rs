//! The interface of a graph rewrite.
use vstd::prelude::*;

use crate::graph::{Graph, GraphView};
use crate::op::NodeId;
use crate::safety::{safety_of, Law, NumericSafety};

verus! {

/// A graph rewrite rule.
///
/// An unverified rule keeps the default meanings: they only name what its
/// methods return.
pub trait Rewrite {
    /// The rule's name.
    closed spec fn label(&self) -> Seq<char> {
        arbitrary()
    }

    /// The laws that the rule relies on.
    closed spec fn law_list(&self) -> Seq<Law> {
        arbitrary()
    }

    /// The graph that the rule makes of `g` at `node`, where it fires.
    closed spec fn outcome(&self, g: GraphView, node: NodeId) -> Option<GraphView> {
        arbitrary()
    }

    /// Returns the rule's stable name.
    fn name(&self) -> (r: &'static str)
        ensures
            r@ == self.label(),
    ;

    /// Returns the laws that the rule relies on.
    fn laws(&self) -> (r: &'static [Law])
        ensures
            r@ == self.law_list(),
    ;

    /// Returns the numeric safety that follows from the laws.
    fn safety(&self) -> (r: NumericSafety)
        ensures
            r == safety_of(self.law_list()),
    {
        NumericSafety::from_laws(self.laws())
    }

    /// Tries to apply the rule at one node.
    fn try_at(&self, graph: &Graph, node: NodeId) -> (r: Option<Graph>)
        ensures
            match r {
                Some(after) => self.outcome(graph@, node) == Some(after@),
                None => self.outcome(graph@, node) is None,
            },
    ;
}

} // verus!

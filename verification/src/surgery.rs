//! Functional graph surgery.
use vstd::prelude::*;

use crate::builder::{
    append_error, appended, appending_keeps_construction, lemma_append_error, under_construction,
    GraphBuilder,
};
use crate::error::IrError;
use crate::graph::{consts_fill, ordered, structure_error, well_formed, Graph, GraphView};
use crate::op::{NodeId, Op, OpView};
use crate::seqs::{first_some, lemma_first_some_at, lemma_first_some_none};

verus! {

/// Errors produced by graph surgery.
#[derive(Debug, Clone, Copy, PartialEq, Eq, Structural)]
pub enum SurgeryError {
    /// A node id is outside the graph.
    InvalidNodeId {
        /// The invalid id.
        id: NodeId,
    },
    /// A redefined node would use itself or a later node.
    ForwardReference {
        /// The redefined node.
        node: NodeId,
        /// The operand that is not earlier.
        operand: NodeId,
    },
    /// The result is no valid graph.
    Invalid(IrError),
}

impl SurgeryError {
    /// The message of this error.
    pub open spec fn text(self) -> Seq<char> {
        match self {
            SurgeryError::InvalidNodeId { id } => "invalid node id "@ + id.text(),
            SurgeryError::ForwardReference { node, operand } => "node "@ + node.text()
                + " would reference non-ancestor operand "@ + operand.text(),
            SurgeryError::Invalid(e) => e.text(),
        }
    }

    /// Renders the message of this error.
    pub fn to_text(&self) -> (r: String)
        ensures
            r@ == self.text(),
    {
        match *self {
            SurgeryError::InvalidNodeId { id } => String::from_str("invalid node id ").concat(
                id.to_text().as_str(),
            ),
            SurgeryError::ForwardReference { node, operand } => String::from_str("node ")
                .concat(node.to_text().as_str())
                .concat(" would reference non-ancestor operand ")
                .concat(operand.to_text().as_str()),
            SurgeryError::Invalid(e) => e.to_text(),
        }
    }
}

/// The graph of the first `n` operations, appended one by one.
pub open spec fn build_from(ops: Seq<OpView>, n: nat) -> Result<GraphView, IrError>
    decreases n,
{
    if n == 0 {
        Ok(GraphView::empty())
    } else {
        match build_from(ops, (n - 1) as nat) {
            Err(e) => Err(e),
            Ok(g) => match append_error((n - 1) as nat, ops[n - 1]) {
                Some(e) => Err(e),
                None => Ok(g.with_node(ops[n - 1])),
            },
        }
    }
}

/// The graph of the operations with the given outputs. All its input nodes are listed as inputs.
pub open spec fn rebuilt(ops: Seq<OpView>, outputs: Seq<NodeId>) -> Result<
    GraphView,
    SurgeryError,
> {
    match build_from(ops, ops.len()) {
        Err(e) => Err(SurgeryError::Invalid(e)),
        Ok(g) => Ok(GraphView { outputs, ..g }),
    }
}

/// What has been appended so far.
pub proof fn lemma_build_from(ops: Seq<OpView>, n: nat)
    requires
        n <= ops.len(),
        n <= usize::MAX,
        build_from(ops, n) is Ok,
    ensures
        build_from(ops, n)->Ok_0.nodes == ops.take(n as int),
        build_from(ops, n)->Ok_0.outputs == Seq::<NodeId>::empty(),
        under_construction(build_from(ops, n)->Ok_0),
    decreases n,
{
    if n == 0 {
        assert(GraphView::empty().nodes =~= ops.take(0));
    } else {
        let m = (n - 1) as nat;
        lemma_build_from(ops, m);
        appending_keeps_construction(build_from(ops, m)->Ok_0, ops[n - 1]);
        assert(ops.take(n as int) =~= ops.take(m as int).push(ops[n - 1]));
    }
}

/// Operations whose operands precede them and whose payloads fill their shapes can be appended.
pub proof fn lemma_build_ok(ops: Seq<OpView>, n: nat)
    requires
        n <= ops.len(),
        ordered(ops),
        consts_fill(ops),
    ensures
        build_from(ops, n) is Ok,
    decreases n,
{
    if n > 0 {
        let m = (n - 1) as nat;
        lemma_build_ok(ops, m);
        lemma_append_error(m, ops[n - 1]);
        assert forall|k: int| 0 <= k < ops[n - 1].operands().len() implies (
        #[trigger] ops[n - 1].operands()[k]).0 < m by {
            assert(ordered(ops));
        }
        if let OpView::Const { data, shape } = ops[n - 1] {
            crate::shape::lemma_numel_fits_prefix(shape, 0);
        }
    }
}

/// An error among the first operations is the error of the whole.
pub proof fn lemma_build_error(ops: Seq<OpView>, m: nat, n: nat)
    requires
        m <= n,
        build_from(ops, m) is Err,
    ensures
        build_from(ops, n) == build_from(ops, m),
    decreases n,
{
    if m < n {
        lemma_build_error(ops, m, (n - 1) as nat);
    }
}

/// What a rebuilt graph is made of.
pub proof fn lemma_rebuilt(ops: Seq<OpView>, outputs: Seq<NodeId>)
    requires
        ops.len() <= usize::MAX,
        rebuilt(ops, outputs) is Ok,
        outputs.len() > 0,
        forall|k: int| 0 <= k < outputs.len() ==> (#[trigger] outputs[k]).0 < ops.len(),
    ensures
        rebuilt(ops, outputs)->Ok_0.nodes == ops,
        rebuilt(ops, outputs)->Ok_0.outputs == outputs,
        well_formed(rebuilt(ops, outputs)->Ok_0),
{
    lemma_build_from(ops, ops.len());
    assert(ops.take(ops.len() as int) =~= ops);
}

/// Builds the graph of the operations with the given outputs.
fn rebuild(ops: Vec<Op>, outputs: &Vec<NodeId>) -> (r: Result<Graph, SurgeryError>)
    requires
        outputs@.len() > 0,
        forall|k: int| 0 <= k < outputs@.len() ==> (#[trigger] outputs@[k]).0 < ops@.len(),
    ensures
        ({
            let views = ops@.map_values(|op: Op| op@);
            match r {
                Ok(g) => rebuilt(views, outputs@) == Ok::<GraphView, SurgeryError>(g@),
                Err(e) => rebuilt(views, outputs@) == Err::<GraphView, SurgeryError>(e),
            }
        }),
{
    let ghost views = ops@.map_values(|op: Op| op@);
    let n: usize = ops.len();
    let mut builder = GraphBuilder::new();
    let mut i: usize = 0;
    while i < n
        invariant
            i <= n,
            n == ops@.len(),
            views == ops@.map_values(|op: Op| op@),
            build_from(views, i as nat) == Ok::<GraphView, IrError>(builder@),
        decreases n - i,
    {
        proof {
            lemma_build_from(views, i as nat);
            assert(views[i as int] == ops@[i as int]@);
        }
        match builder.append(ops[i].clone()) {
            Ok(_) => {}
            Err(e) => {
                proof {
                    lemma_build_error(views, (i + 1) as nat, n as nat);
                }
                return Err(SurgeryError::Invalid(e));
            }
        }
        i += 1;
    }
    proof {
        lemma_build_from(views, n as nat);
        assert(views.take(n as int) =~= views);
    }
    let ghost base = builder@;
    assert(outputs@.take(0) =~= Seq::empty());
    let mut k: usize = 0;
    while k < outputs.len()
        invariant
            k <= outputs@.len(),
            base.nodes.len() == n,
            n == ops@.len(),
            forall|j: int| 0 <= j < outputs@.len() ==> (#[trigger] outputs@[j]).0 < ops@.len(),
            builder@ == (GraphView { outputs: outputs@.take(k as int), ..base }),
        decreases outputs@.len() - k,
    {
        assert(outputs@[k as int].0 < n);
        match builder.mark_output(outputs[k]) {
            Ok(()) => {}
            Err(e) => {
                return Err(SurgeryError::Invalid(e));
            }
        }
        proof {
            assert(outputs@.take(k as int + 1) =~= outputs@.take(k as int).push(
                outputs@[k as int],
            ));
        }
        k += 1;
    }
    proof {
        assert(outputs@.take(k as int) =~= outputs@);
    }
    match builder.build() {
        Ok(g) => Ok(g),
        Err(e) => Err(SurgeryError::Invalid(e)),
    }
}

/// One id put in place of another.
pub open spec fn swap_id(target: NodeId, replacement: NodeId) -> spec_fn(NodeId) -> NodeId {
    |id: NodeId| if id == target { replacement } else { id }
}

/// The operations with every use of `target` replaced, but for those of `target` itself.
pub open spec fn swapped_ops(nodes: Seq<OpView>, target: NodeId, replacement: NodeId) -> Seq<
    OpView,
> {
    Seq::new(
        nodes.len(),
        |i: int|
            if i == target.0 {
                nodes[i]
            } else {
                nodes[i].map(swap_id(target, replacement))
            },
    )
}

/// The graph with every use of `target` replaced by `replacement`.
pub open spec fn replaced(g: GraphView, target: NodeId, replacement: NodeId) -> Result<
    GraphView,
    SurgeryError,
> {
    if target.0 >= g.nodes.len() {
        Err(SurgeryError::InvalidNodeId { id: target })
    } else if replacement.0 >= g.nodes.len() {
        Err(SurgeryError::InvalidNodeId { id: replacement })
    } else {
        match structure_error(g) {
            Some(e) => Err(SurgeryError::Invalid(e)),
            None => rebuilt(
                swapped_ops(g.nodes, target, replacement),
                g.outputs.map_values(swap_id(target, replacement)),
            ),
        }
    }
}

/// Replaces every use of `target`, among operands and outputs, by `replacement`.
///
/// # Errors
///
/// Returns [`SurgeryError::InvalidNodeId`] if either id is outside the graph,
/// or [`SurgeryError::Invalid`] if the graph is not well-formed or a user of
/// `target` does not come after `replacement`.
pub fn replace_all_uses(graph: &Graph, target: NodeId, replacement: NodeId) -> (r: Result<
    Graph,
    SurgeryError,
>)
    ensures
        match r {
            Ok(after) => replaced(graph@, target, replacement) == Ok::<GraphView, SurgeryError>(
                after@,
            ),
            Err(e) => replaced(graph@, target, replacement) == Err::<GraphView, SurgeryError>(e),
        },
{
    let n: usize = graph.nodes.len();
    if target.0 >= n {
        return Err(SurgeryError::InvalidNodeId { id: target });
    }
    if replacement.0 >= n {
        return Err(SurgeryError::InvalidNodeId { id: replacement });
    }
    match graph.validate_structure() {
        Ok(()) => {}
        Err(e) => {
            return Err(SurgeryError::Invalid(e));
        }
    }
    let ghost swap = swap_id(target, replacement);
    let ghost want = swapped_ops(graph@.nodes, target, replacement);
    let mut ops: Vec<Op> = Vec::new();
    let mut i: usize = 0;
    while i < n
        invariant
            i <= n,
            n == graph@.nodes.len(),
            swap == swap_id(target, replacement),
            want == swapped_ops(graph@.nodes, target, replacement),
            ops@.len() == i,
            forall|j: int| 0 <= j < i ==> (#[trigger] ops@[j])@ == want[j],
        decreases n - i,
    {
        assert(graph@.nodes[i as int] == graph.nodes@[i as int].op@);
        let op = if i == target.0 {
            graph.nodes[i].op.clone()
        } else {
            let swap_one = |id: NodeId| -> (b: NodeId)
                ensures
                    b == (if id == target { replacement } else { id }),
            {
                if id == target {
                    replacement
                } else {
                    id
                }
            };
            let op = graph.nodes[i].op.map_operands(swap_one);
            proof {
                assert(op@ == graph@.nodes[i as int].map(swap));
            }
            op
        };
        ops.push(op);
        i += 1;
    }
    let mut outputs: Vec<NodeId> = Vec::new();
    let mut k: usize = 0;
    while k < graph.outputs.len()
        invariant
            k <= graph@.outputs.len(),
            outputs@.len() == k,
            swap == swap_id(target, replacement),
            forall|j: int| 0 <= j < k ==> #[trigger] outputs@[j] == swap(graph@.outputs[j]),
        decreases graph@.outputs.len() - k,
    {
        let output: NodeId = graph.outputs[k];
        outputs.push(if output == target { replacement } else { output });
        k += 1;
    }
    proof {
        assert(ops@.map_values(|op: Op| op@) =~= want);
        assert(outputs@ =~= graph@.outputs.map_values(swap));
        assert forall|j: int| 0 <= j < outputs@.len() implies (#[trigger] outputs@[j]).0
            < ops@.len() by {
            assert(graph@.outputs[j].0 < graph@.nodes.len());
        }
    }
    rebuild(ops, &outputs)
}

/// The error of one operand of a redefinition of `node`.
pub open spec fn redefine_error(n: nat, node: NodeId, operand: NodeId) -> Option<SurgeryError> {
    if operand.0 >= n {
        Some(SurgeryError::InvalidNodeId { id: operand })
    } else if operand.0 >= node.0 {
        Some(SurgeryError::ForwardReference { node, operand })
    } else {
        None
    }
}

/// The graph with one node given another operation.
pub open spec fn redefined(g: GraphView, node: NodeId, op: OpView) -> Result<
    GraphView,
    SurgeryError,
> {
    if node.0 >= g.nodes.len() {
        Err(SurgeryError::InvalidNodeId { id: node })
    } else {
        match first_some(
            op.operands().map_values(|o: NodeId| redefine_error(g.nodes.len(), node, o)),
        ) {
            Some(e) => Err(e),
            None => match structure_error(g) {
                Some(e) => Err(SurgeryError::Invalid(e)),
                None => rebuilt(g.nodes.update(node.0 as int, op), g.outputs),
            },
        }
    }
}

/// Gives one node another operation.
///
/// # Errors
///
/// Returns [`SurgeryError::InvalidNodeId`] if the node or an operand is
/// outside the graph, [`SurgeryError::ForwardReference`] if an operand does
/// not come before the node, or [`SurgeryError::Invalid`] if the graph or the
/// new constant is not well-formed.
pub fn redefine_node(graph: &Graph, node: NodeId, new_op: Op) -> (r: Result<Graph, SurgeryError>)
    ensures
        match r {
            Ok(after) => redefined(graph@, node, new_op@) == Ok::<GraphView, SurgeryError>(after@),
            Err(e) => redefined(graph@, node, new_op@) == Err::<GraphView, SurgeryError>(e),
        },
{
    let n: usize = graph.nodes.len();
    if node.0 >= n {
        return Err(SurgeryError::InvalidNodeId { id: node });
    }
    let operands = new_op.operands();
    let ghost errors = new_op@.operands().map_values(
        |o: NodeId| redefine_error(graph@.nodes.len(), node, o),
    );
    let mut k: usize = 0;
    while k < operands.len()
        invariant
            k <= operands@.len(),
            n == graph@.nodes.len(),
            node.0 < n,
            operands@ == new_op@.operands(),
            errors == new_op@.operands().map_values(
                |o: NodeId| redefine_error(graph@.nodes.len(), node, o),
            ),
            forall|j: int| 0 <= j < k ==> errors[j] is None,
        decreases operands@.len() - k,
    {
        let operand: NodeId = operands[k];
        if operand.0 >= n {
            proof {
                lemma_first_some_at(errors, k as int);
            }
            return Err(SurgeryError::InvalidNodeId { id: operand });
        }
        if operand.0 >= node.0 {
            proof {
                lemma_first_some_at(errors, k as int);
            }
            return Err(SurgeryError::ForwardReference { node, operand });
        }
        k += 1;
    }
    proof {
        lemma_first_some_none(errors);
    }
    match graph.validate_structure() {
        Ok(()) => {}
        Err(e) => {
            return Err(SurgeryError::Invalid(e));
        }
    }
    let ghost want = graph@.nodes.update(node.0 as int, new_op@);
    let mut ops: Vec<Op> = Vec::new();
    let mut i: usize = 0;
    while i < n
        invariant
            i <= n,
            n == graph@.nodes.len(),
            node.0 < n,
            want == graph@.nodes.update(node.0 as int, new_op@),
            ops@.len() == i,
            forall|j: int| 0 <= j < i ==> (#[trigger] ops@[j])@ == want[j],
        decreases n - i,
    {
        assert(graph@.nodes[i as int] == graph.nodes@[i as int].op@);
        ops.push(if i == node.0 { new_op.clone() } else { graph.nodes[i].op.clone() });
        i += 1;
    }
    proof {
        assert(ops@.map_values(|op: Op| op@) =~= want);
    }
    rebuild(ops, &graph.outputs)
}

/// Whether an operation uses the node at `v`.
pub open spec fn uses(op: OpView, v: int) -> bool {
    exists|k: int| 0 <= k < op.operands().len() && (#[trigger] op.operands()[k]).0 == v
}

/// Whether the node at `v` is listed.
pub open spec fn listed(ids: Seq<NodeId>, v: int) -> bool {
    exists|k: int| 0 <= k < ids.len() && (#[trigger] ids[k]).0 == v
}

/// Whether an output depends on the node at `v`.
pub open spec fn reached(g: GraphView, v: int) -> bool
    decreases g.nodes.len() - v,
{
    listed(g.outputs, v) || exists|u: int|
        v < u < g.nodes.len() && uses(#[trigger] g.nodes[u], v) && reached(g, u)
}

/// Whether pruning keeps the node at `v`: an output depends on it, or it is a listed input.
pub open spec fn kept(g: GraphView, v: int) -> bool {
    reached(g, v) || listed(g.inputs, v)
}

/// Which nodes pruning keeps.
pub open spec fn keep_flags(g: GraphView) -> Seq<bool> {
    Seq::new(g.nodes.len(), |v: int| kept(g, v))
}

/// The number of kept nodes before `v`.
pub open spec fn rank(keep: Seq<bool>, v: nat) -> nat
    decreases v,
{
    if v == 0 {
        0
    } else {
        rank(keep, (v - 1) as nat) + if keep[v - 1] { 1nat } else { 0nat }
    }
}

/// The id of a node after pruning.
pub open spec fn renamed(keep: Seq<bool>) -> spec_fn(NodeId) -> NodeId {
    |id: NodeId| if id.0 < keep.len() { NodeId(rank(keep, id.0 as nat) as usize) } else { id }
}

/// The kept operations among the first `n`, under their new operands.
pub open spec fn pruned_ops(nodes: Seq<OpView>, keep: Seq<bool>, n: nat) -> Seq<OpView>
    decreases n,
{
    if n == 0 {
        Seq::empty()
    } else {
        let before = pruned_ops(nodes, keep, (n - 1) as nat);
        if keep[n - 1] {
            before.push(nodes[n - 1].map(renamed(keep)))
        } else {
            before
        }
    }
}

/// The graph without the nodes that no output depends on, but for listed inputs.
pub open spec fn pruned(g: GraphView) -> Result<GraphView, SurgeryError> {
    match structure_error(g) {
        Some(e) => Err(SurgeryError::Invalid(e)),
        None => rebuilt(
            pruned_ops(g.nodes, keep_flags(g), g.nodes.len()),
            g.outputs.map_values(renamed(keep_flags(g))),
        ),
    }
}

/// Ranks do not decrease, and grow past kept nodes.
pub proof fn lemma_rank(keep: Seq<bool>, a: nat, b: nat)
    requires
        a <= b <= keep.len(),
    ensures
        rank(keep, a) <= rank(keep, b) <= b,
        a < b && keep[a as int] ==> rank(keep, a) < rank(keep, b),
    decreases b,
{
    if a < b {
        lemma_rank(keep, a, (b - 1) as nat);
    } else if b > 0 {
        lemma_rank(keep, (b - 1) as nat, (b - 1) as nat);
    }
}

/// Some kept node among the first `n` has the rank.
pub open spec fn has_rank(keep: Seq<bool>, n: nat, j: int) -> bool {
    exists|v: int| 0 <= v < n && #[trigger] keep[v] && rank(keep, v as nat) == j
}

/// Where each kept operation comes to stand.
pub proof fn lemma_pruned_ops(nodes: Seq<OpView>, keep: Seq<bool>, n: nat)
    requires
        keep.len() == nodes.len(),
        n <= nodes.len(),
    ensures
        pruned_ops(nodes, keep, n).len() == rank(keep, n),
        forall|v: int|
            0 <= v < n && #[trigger] keep[v] ==> rank(keep, v as nat) < rank(keep, n)
                && pruned_ops(nodes, keep, n)[rank(keep, v as nat) as int] == nodes[v].map(
                renamed(keep),
            ),
        forall|j: int| 0 <= j < rank(keep, n) ==> #[trigger] has_rank(keep, n, j),
    decreases n,
{
    if n > 0 {
        let m = (n - 1) as nat;
        lemma_pruned_ops(nodes, keep, m);
        let before = pruned_ops(nodes, keep, m);
        let all = pruned_ops(nodes, keep, n);
        assert forall|v: int| 0 <= v < n && #[trigger] keep[v] implies rank(keep, v as nat) < rank(
            keep,
            n,
        ) && all[rank(keep, v as nat) as int] == nodes[v].map(renamed(keep)) by {
            lemma_rank(keep, v as nat, n);
        }
        assert forall|j: int| 0 <= j < rank(keep, n) implies #[trigger] has_rank(
            keep,
            n,
            j,
        ) by {
            if j < rank(keep, m) {
                assert(has_rank(keep, m, j));
                let v = choose|v: int|
                    0 <= v < m && #[trigger] keep[v] && rank(keep, v as nat) == j;
                assert(keep[v]);
            } else {
                assert(keep[m as int]);
            }
        }
    }
}

/// Operands of kept nodes are kept.
pub proof fn lemma_kept_operands(g: GraphView, u: int, k: int)
    requires
        well_formed(g),
        0 <= u < g.nodes.len(),
        kept(g, u),
        0 <= k < g.nodes[u].operands().len(),
    ensures
        kept(g, g.nodes[u].operands()[k].0 as int),
        g.nodes[u].operands()[k].0 < u,
{
    let v = g.nodes[u].operands()[k].0 as int;
    assert(ordered(g.nodes));
    assert(v < u);
    if !reached(g, u) {
        let i = choose|i: int| 0 <= i < g.inputs.len() && (#[trigger] g.inputs[i]).0 == u;
        assert(g.nodes[g.inputs[i].0 as int] is Input);
    }
    assert(uses(g.nodes[u], v));
}

/// The operands of a renamed operation.
pub proof fn lemma_map_operands(op: OpView, f: spec_fn(NodeId) -> NodeId)
    ensures
        op.map(f).operands() =~= op.operands().map_values(f),
{
}

/// Pruning a well-formed graph succeeds, and its result is well-formed.
pub proof fn pruning_succeeds(g: GraphView)
    requires
        well_formed(g),
        g.nodes.len() <= usize::MAX,
    ensures
        pruned(g) is Ok,
        well_formed(pruned(g)->Ok_0),
        pruned(g)->Ok_0.nodes == pruned_ops(g.nodes, keep_flags(g), g.nodes.len()),
        pruned(g)->Ok_0.outputs == g.outputs.map_values(renamed(keep_flags(g))),
        pruned(g)->Ok_0.nodes.len() <= g.nodes.len(),
{
    crate::graph::validation_accepts_exactly_well_formed(g);
    let keep = keep_flags(g);
    let n = g.nodes.len();
    let ops = pruned_ops(g.nodes, keep, n);
    let outputs = g.outputs.map_values(renamed(keep));
    lemma_pruned_ops(g.nodes, keep, n);
    lemma_rank(keep, n, n);
    assert forall|j: int, k: int|
        0 <= j < ops.len() && 0 <= k < ops[j].operands().len() implies (
    #[trigger] ops[j].operands()[k]).0 < j by {
        assert(has_rank(keep, n, j));
        let v = choose|v: int| 0 <= v < n && #[trigger] keep[v] && rank(keep, v as nat) == j;
        lemma_map_operands(g.nodes[v], renamed(keep));
        lemma_kept_operands(g, v, k);
        let o = g.nodes[v].operands()[k];
        assert(keep[o.0 as int]);
        lemma_rank(keep, o.0 as nat, v as nat);
        lemma_rank(keep, v as nat, n);
    }
    assert forall|j: int| 0 <= j < ops.len() implies match #[trigger] ops[j] {
        OpView::Const { data, shape } => crate::shape::numel_fits(shape) && data.len()
            == crate::shape::numel(shape),
        _ => true,
    } by {
        assert(has_rank(keep, n, j));
        let v = choose|v: int| 0 <= v < n && #[trigger] keep[v] && rank(keep, v as nat) == j;
        assert(ops[j] == g.nodes[v].map(renamed(keep)));
        assert(consts_fill(g.nodes));
        assert(match g.nodes[v] {
            OpView::Const { data, shape } => crate::shape::numel_fits(shape) && data.len()
                == crate::shape::numel(shape),
            _ => true,
        });
    }
    assert forall|k: int| 0 <= k < outputs.len() implies (#[trigger] outputs[k]).0
        < ops.len() by {
        let o = g.outputs[k];
        assert(o.0 < n);
        assert(listed(g.outputs, o.0 as int));
        assert(keep[o.0 as int]);
        lemma_rank(keep, o.0 as nat, n);
    }
    lemma_build_ok(ops, ops.len());
    lemma_rebuilt(ops, outputs);
}

/// Marks the nodes that an output depends on.
fn reach_flags(graph: &Graph) -> (r: Vec<bool>)
    requires
        well_formed(graph@),
    ensures
        r@.len() == graph@.nodes.len(),
        forall|v: int| 0 <= v < r@.len() ==> #[trigger] r@[v] == reached(graph@, v),
{
    let ghost g = graph@;
    let n: usize = graph.nodes.len();
    let mut flags: Vec<bool> = Vec::new();
    let mut i: usize = 0;
    while i < n
        invariant
            i <= n,
            flags@.len() == i,
            forall|v: int| 0 <= v < i ==> flags@[v] == false,
        decreases n - i,
    {
        flags.push(false);
        i += 1;
    }
    let mut k: usize = 0;
    while k < graph.outputs.len()
        invariant
            k <= g.outputs.len(),
            g == graph@,
            well_formed(g),
            n == g.nodes.len(),
            flags@.len() == n,
            forall|v: int| 0 <= v < n ==> (#[trigger] flags@[v] <==> listed(g.outputs.take(k as int), v)),
        decreases g.outputs.len() - k,
    {
        let ghost before = flags@;
        let output: NodeId = graph.outputs[k];
        assert(g.outputs[k as int].0 < n);
        flags.set(output.0, true);
        proof {
            let shorter = g.outputs.take(k as int);
            let longer = g.outputs.take(k as int + 1);
            assert forall|v: int| 0 <= v < n implies (#[trigger] flags@[v] <==> listed(
                longer,
                v,
            )) by {
                if v == output.0 {
                    assert(longer[k as int].0 == v);
                } else {
                    assert(flags@[v] == before[v]);
                    if listed(shorter, v) {
                        let j = choose|j: int| 0 <= j < shorter.len() && (#[trigger] shorter[j]).0 == v;
                        assert(longer[j].0 == v);
                    }
                    if listed(longer, v) {
                        let j = choose|j: int| 0 <= j < longer.len() && (#[trigger] longer[j]).0 == v;
                        assert(j < k);
                        assert(shorter[j].0 == v);
                    }
                }
            }
        }
        k += 1;
    }
    proof {
        assert(g.outputs.take(k as int) =~= g.outputs);
    }
    let mut u: usize = n;
    while u > 0
        invariant
            u <= n,
            g == graph@,
            well_formed(g),
            n == g.nodes.len(),
            flags@.len() == n,
            forall|v: int| u <= v < n ==> #[trigger] flags@[v] == reached(g, v),
            forall|v: int|
                0 <= v < u ==> (#[trigger] flags@[v] <==> listed(g.outputs, v) || exists|w: int|
                    u <= w < n && uses(#[trigger] g.nodes[w], v) && reached(g, w)),
        decreases u,
    {
        let x: usize = u - 1;
        let ghost entry = flags@;
        assert(flags@[x as int] == reached(g, x as int)) by {
            assert(flags@[x as int] <==> listed(g.outputs, x as int) || exists|w: int|
                u <= w < n && uses(#[trigger] g.nodes[w], x as int) && reached(g, w));
        }
        if flags[x] {
            let operands = graph.nodes[x].op.operands();
            assert(operands@ == g.nodes[x as int].operands());
            let mut k: usize = 0;
            while k < operands.len()
                invariant
                    k <= operands@.len(),
                    x < n,
                    g == graph@,
                    well_formed(g),
                    n == g.nodes.len(),
                    flags@.len() == n,
                    operands@ == g.nodes[x as int].operands(),
                    entry.len() == n,
                    forall|v: int|
                        0 <= v < n ==> (#[trigger] flags@[v] <==> entry[v] || listed(
                            operands@.take(k as int),
                            v,
                        )),
                decreases operands@.len() - k,
            {
                let o: NodeId = operands[k];
                let ghost before = flags@;
                assert(ordered(g.nodes));
                assert(g.nodes[x as int].operands()[k as int].0 < x);
                flags.set(o.0, true);
                proof {
                    let shorter = operands@.take(k as int);
                    let longer = operands@.take(k as int + 1);
                    assert forall|v: int| 0 <= v < n implies (#[trigger] flags@[v] <==> entry[v]
                        || listed(longer, v)) by {
                        if v == o.0 {
                            assert(longer[k as int].0 == v);
                        } else {
                            assert(flags@[v] == before[v]);
                            if listed(shorter, v) {
                                let j = choose|j: int|
                                    0 <= j < shorter.len() && (#[trigger] shorter[j]).0 == v;
                                assert(longer[j].0 == v);
                            }
                            if listed(longer, v) {
                                let j = choose|j: int|
                                    0 <= j < longer.len() && (#[trigger] longer[j]).0 == v;
                                assert(j < k);
                                assert(shorter[j].0 == v);
                            }
                        }
                    }
                }
                k += 1;
            }
            proof {
                assert(operands@.take(k as int) =~= operands@);
                assert forall|v: int| 0 <= v < n implies (#[trigger] flags@[v] <==> entry[v] || uses(
                    g.nodes[x as int],
                    v,
                )) by {
                    if listed(operands@, v) {
                        let j = choose|j: int|
                            0 <= j < operands@.len() && (#[trigger] operands@[j]).0 == v;
                        assert(g.nodes[x as int].operands()[j].0 == v);
                    }
                    if uses(g.nodes[x as int], v) {
                        let j = choose|j: int|
                            0 <= j < g.nodes[x as int].operands().len() && (
                            #[trigger] g.nodes[x as int].operands()[j]).0 == v;
                        assert(operands@[j].0 == v);
                    }
                }
            }
        }
        proof {
            assert forall|v: int| 0 <= v < x implies (#[trigger] flags@[v] <==> listed(
                g.outputs,
                v,
            ) || exists|w: int| x <= w < n && uses(#[trigger] g.nodes[w], v) && reached(g, w)) by {
                assert(flags@[v] <==> entry[v] || (reached(g, x as int) && uses(
                    g.nodes[x as int],
                    v,
                )));
                if exists|w: int| u <= w < n && uses(#[trigger] g.nodes[w], v) && reached(g, w) {
                    let w = choose|w: int|
                        u <= w < n && uses(#[trigger] g.nodes[w], v) && reached(g, w);
                    assert(x <= w < n && uses(g.nodes[w], v) && reached(g, w));
                }
                if exists|w: int| x <= w < n && uses(#[trigger] g.nodes[w], v) && reached(g, w) {
                    let w = choose|w: int|
                        x <= w < n && uses(#[trigger] g.nodes[w], v) && reached(g, w);
                    if w > x {
                        assert(u <= w < n && uses(g.nodes[w], v) && reached(g, w));
                    }
                }
            }
            assert forall|v: int| x <= v < n implies #[trigger] flags@[v] == reached(g, v) by {
                if entry[v] != flags@[v] {
                    assert(uses(g.nodes[x as int], v));
                    let j = choose|j: int|
                        0 <= j < g.nodes[x as int].operands().len() && (
                        #[trigger] g.nodes[x as int].operands()[j]).0 == v;
                    assert(ordered(g.nodes));
                    assert(g.nodes[x as int].operands()[j].0 < x);
                }
            }
        }
        u -= 1;
    }
    flags
}

/// Marks the nodes that pruning keeps.
fn kept_nodes(graph: &Graph) -> (r: Vec<bool>)
    requires
        well_formed(graph@),
    ensures
        r@ == keep_flags(graph@),
{
    let ghost g = graph@;
    let mut flags = reach_flags(graph);
    let ghost reach = flags@;
    let mut k: usize = 0;
    while k < graph.inputs.len()
        invariant
            k <= g.inputs.len(),
            g == graph@,
            well_formed(g),
            flags@.len() == g.nodes.len(),
            reach.len() == g.nodes.len(),
            forall|v: int|
                0 <= v < flags@.len() ==> (#[trigger] flags@[v] <==> reach[v] || listed(
                    g.inputs.take(k as int),
                    v,
                )),
        decreases g.inputs.len() - k,
    {
        let input: NodeId = graph.inputs[k];
        let ghost before = flags@;
        assert(g.inputs[k as int].0 < g.nodes.len());
        flags.set(input.0, true);
        proof {
            let shorter = g.inputs.take(k as int);
            let longer = g.inputs.take(k as int + 1);
            assert forall|v: int| 0 <= v < flags@.len() implies (#[trigger] flags@[v] <==> reach[v]
                || listed(longer, v)) by {
                if v == input.0 {
                    assert(longer[k as int].0 == v);
                } else {
                    assert(flags@[v] == before[v]);
                    if listed(shorter, v) {
                        let j = choose|j: int|
                            0 <= j < shorter.len() && (#[trigger] shorter[j]).0 == v;
                        assert(longer[j].0 == v);
                    }
                    if listed(longer, v) {
                        let j = choose|j: int|
                            0 <= j < longer.len() && (#[trigger] longer[j]).0 == v;
                        assert(j < k);
                        assert(shorter[j].0 == v);
                    }
                }
            }
        }
        k += 1;
    }
    proof {
        assert(g.inputs.take(k as int) =~= g.inputs);
        assert(flags@ =~= keep_flags(g));
    }
    flags
}

/// Removes the nodes that no output depends on, and renumbers the rest.
///
/// Listed inputs are kept even where no output depends on them, so the input
/// signature stays.
///
/// # Errors
///
/// Returns [`SurgeryError::Invalid`] if the graph is not well-formed.
pub fn prune_and_rebuild(graph: &Graph) -> (r: Result<Graph, SurgeryError>)
    ensures
        match r {
            Ok(after) => pruned(graph@) == Ok::<GraphView, SurgeryError>(after@),
            Err(e) => pruned(graph@) == Err::<GraphView, SurgeryError>(e),
        },
        well_formed(graph@) ==> r is Ok,
{
    match graph.validate_structure() {
        Ok(()) => {}
        Err(e) => {
            proof {
                crate::graph::validation_accepts_exactly_well_formed(graph@);
            }
            return Err(SurgeryError::Invalid(e));
        }
    }
    let ghost g = graph@;
    let ghost keep = keep_flags(g);
    let n: usize = graph.nodes.len();
    let flags = kept_nodes(graph);
    let mut ranks: Vec<usize> = Vec::new();
    let mut count: usize = 0;
    let mut i: usize = 0;
    while i < n
        invariant
            i <= n,
            n == g.nodes.len(),
            keep == keep_flags(g),
            flags@ == keep,
            ranks@.len() == i,
            count == rank(keep, i as nat),
            count <= i,
            forall|v: int| 0 <= v < i ==> #[trigger] ranks@[v] == rank(keep, v as nat),
        decreases n - i,
    {
        ranks.push(count);
        if flags[i] {
            count += 1;
        }
        i += 1;
    }
    let ghost rename = renamed(keep);
    let mut ops: Vec<Op> = Vec::new();
    proof {
        assert(ops@.map_values(|op: Op| op@) =~= Seq::empty());
    }
    let mut i: usize = 0;
    while i < n
        invariant
            i <= n,
            n == g.nodes.len(),
            g == graph@,
            keep == keep_flags(g),
            flags@ == keep,
            rename == renamed(keep),
            ranks@.len() == n,
            forall|v: int| 0 <= v < n ==> #[trigger] ranks@[v] == rank(keep, v as nat),
            ops@.map_values(|op: Op| op@) == pruned_ops(g.nodes, keep, i as nat),
        decreases n - i,
    {
        if flags[i] {
            assert(g.nodes[i as int] == graph.nodes@[i as int].op@);
            let rename_one = |id: NodeId| -> (b: NodeId)
                ensures
                    b == rename(id),
            {
                if id.0 < ranks.len() {
                    NodeId(ranks[id.0])
                } else {
                    id
                }
            };
            let op = graph.nodes[i].op.map_operands(rename_one);
            let ghost before = ops@;
            proof {
                assert(op@ == g.nodes[i as int].map(rename));
            }
            ops.push(op);
            proof {
                assert(ops@.map_values(|op: Op| op@) =~= before.map_values(|op: Op| op@).push(op@));
            }
        }
        i += 1;
    }
    let mut outputs: Vec<NodeId> = Vec::new();
    let mut k: usize = 0;
    while k < graph.outputs.len()
        invariant
            k <= g.outputs.len(),
            g == graph@,
            well_formed(g),
            n == g.nodes.len(),
            keep == keep_flags(g),
            rename == renamed(keep),
            ranks@.len() == n,
            forall|v: int| 0 <= v < n ==> #[trigger] ranks@[v] == rank(keep, v as nat),
            outputs@.len() == k,
            forall|j: int| 0 <= j < k ==> #[trigger] outputs@[j] == rename(g.outputs[j]),
        decreases g.outputs.len() - k,
    {
        assert(g.outputs[k as int].0 < n);
        outputs.push(NodeId(ranks[graph.outputs[k].0]));
        k += 1;
    }
    proof {
        pruning_succeeds(g);
        assert(outputs@ =~= g.outputs.map_values(rename));
        let after = pruned(g)->Ok_0;
        assert forall|j: int| 0 <= j < outputs@.len() implies (#[trigger] outputs@[j]).0
            < ops@.len() by {
            assert(after.outputs[j].0 < after.nodes.len());
        }
    }
    rebuild(ops, &outputs)
}

} // verus!

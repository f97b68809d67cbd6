//! Deterministic topological order of a graph.
use vstd::prelude::*;

use crate::error::IrError;
use crate::graph::{ordered, Graph};
use crate::op::{NodeId, OpView};
use crate::seqs::{first_some, lemma_first_some_all, lemma_first_some_at, lemma_first_some_none};

verus! {

/// The error of an operand that is no node.
pub open spec fn dangling_operand(n: nat, operand: NodeId) -> Option<IrError> {
    if operand.0 >= n {
        Some(IrError::InvalidNodeId { id: operand, num_nodes: n as usize })
    } else {
        None
    }
}

/// The first operand of node `i` that is no node.
pub open spec fn dangling_node(nodes: Seq<OpView>, i: int) -> Option<IrError> {
    first_some(nodes[i].operands().map_values(|o: NodeId| dangling_operand(nodes.len(), o)))
}

/// The first operand of the graph that is no node.
pub open spec fn dangling(nodes: Seq<OpView>) -> Option<IrError> {
    first_some(Seq::new(nodes.len(), |i: int| dangling_node(nodes, i)))
}

/// Every operand is a node.
pub open spec fn closed(nodes: Seq<OpView>) -> bool {
    forall|i: int, k: int|
        0 <= i < nodes.len() && 0 <= k < nodes[i].operands().len() ==> (
        #[trigger] nodes[i].operands()[k]).0 < nodes.len()
}

/// When an operation can be placed: one past the latest place of its operands in `order`, and
/// zero without operands.
#[verifier::opaque]
pub open spec fn release(order: Seq<NodeId>, op: OpView) -> int {
    let operands = op.operands();
    if operands.len() == 0 {
        0
    } else if operands.len() == 1 {
        order.index_of(operands[0]) + 1
    } else {
        let a = order.index_of(operands[0]) + 1;
        let b = order.index_of(operands[1]) + 1;
        if a < b { b } else { a }
    }
}

/// The order of node `a` before node `b`: by release, then by index.
pub open spec fn before(nodes: Seq<OpView>, order: Seq<NodeId>, a: NodeId, b: NodeId) -> bool {
    let ra = release(order, nodes[a.0 as int]);
    let rb = release(order, nodes[b.0 as int]);
    ra < rb || (ra == rb && a.0 < b.0)
}

/// Every operand of the node stands at a place before `bound`.
#[verifier::opaque]
pub open spec fn operands_within(
    nodes: Seq<OpView>,
    order: Seq<NodeId>,
    id: NodeId,
    bound: int,
) -> bool {
    forall|k: int|
        0 <= k < nodes[id.0 as int].operands().len() ==> order.take(bound).contains(
            #[trigger] nodes[id.0 as int].operands()[k],
        )
}

/// Distinct nodes in `before` order, each after its operands.
pub open spec fn partial_schedule(nodes: Seq<OpView>, order: Seq<NodeId>) -> bool {
    &&& order.no_duplicates()
    &&& forall|p: int| 0 <= p < order.len() ==> (#[trigger] order[p]).0 < nodes.len()
    &&& forall|p: int|
        0 <= p < order.len() ==> operands_within(nodes, order, #[trigger] order[p], p)
    &&& forall|p: int, q: int|
        0 <= p < q < order.len() ==> before(nodes, order, #[trigger] order[p], #[trigger] order[q])
}

/// All nodes, each after its operands.
pub open spec fn topological(nodes: Seq<OpView>, order: Seq<NodeId>) -> bool {
    &&& order.no_duplicates()
    &&& order.len() == nodes.len()
    &&& forall|p: int| 0 <= p < order.len() ==> (#[trigger] order[p]).0 < nodes.len()
    &&& forall|p: int|
        0 <= p < order.len() ==> operands_within(nodes, order, #[trigger] order[p], p)
}

/// A topological order of the whole graph, first in first out: nodes stand in the order in which
/// their last operand was placed, and by index where one placement releases several.
pub open spec fn schedule(nodes: Seq<OpView>, order: Seq<NodeId>) -> bool {
    &&& partial_schedule(nodes, order)
    &&& order.len() == nodes.len()
}

/// The topological order of a graph, or why it has none.
pub open spec fn topo(nodes: Seq<OpView>) -> Result<Seq<NodeId>, IrError> {
    match dangling(nodes) {
        Some(e) => Err(e),
        None => if exists|order: Seq<NodeId>| schedule(nodes, order) {
            Ok(choose|order: Seq<NodeId>| schedule(nodes, order))
        } else {
            Err(IrError::Cycle)
        },
    }
}

/// No dangling operand is found exactly if every operand is a node.
pub proof fn lemma_closed(nodes: Seq<OpView>)
    ensures
        dangling(nodes) is None <==> closed(nodes),
{
    let all = Seq::new(nodes.len(), |i: int| dangling_node(nodes, i));
    if dangling(nodes) is None {
        lemma_first_some_all(all);
        assert forall|i: int, k: int|
            0 <= i < nodes.len() && 0 <= k < nodes[i].operands().len() implies (
        #[trigger] nodes[i].operands()[k]).0 < nodes.len() by {
            assert(all[i] is None);
            let one = nodes[i].operands().map_values(|o: NodeId| dangling_operand(nodes.len(), o));
            lemma_first_some_all(one);
            assert(one[k] is None);
        }
    }
    if closed(nodes) {
        assert forall|i: int| 0 <= i < nodes.len() implies all[i] is None by {
            let one = nodes[i].operands().map_values(|o: NodeId| dangling_operand(nodes.len(), o));
            assert forall|k: int| 0 <= k < one.len() implies one[k] is None by {
                assert(nodes[i].operands()[k].0 < nodes.len());
            }
            lemma_first_some_none(one);
        }
        lemma_first_some_none(all);
    }
}

/// Distinct node ids below `n` are at most `n`, and `n` of them are all of them.
pub proof fn lemma_pigeonhole(order: Seq<NodeId>, n: nat)
    requires
        order.no_duplicates(),
        forall|p: int| 0 <= p < order.len() ==> (#[trigger] order[p]).0 < n,
    ensures
        order.len() <= n,
        order.len() == n ==> forall|v: usize| v < n ==> #[trigger] order.contains(NodeId(v)),
        (forall|v: usize| v < n ==> #[trigger] order.contains(NodeId(v))) && n <= usize::MAX + 1
            ==> order.len() == n,
{
    let ids = order.map_values(|id: NodeId| id.0 as int);
    assert(ids.no_duplicates());
    ids.unique_seq_to_set();
    let range = vstd::set_lib::set_int_range(0, n as int);
    vstd::set_lib::lemma_int_range(0, n as int);
    let set = ids.to_set();
    assert(set.subset_of(range)) by {
        assert forall|x: int| set.contains(x) implies range.contains(x) by {
            let p = choose|p: int| 0 <= p < ids.len() && ids[p] == x;
            assert(order[p].0 == x);
        }
    }
    vstd::set_lib::lemma_len_subset(set, range);
    if order.len() == n {
        vstd::set_lib::lemma_subset_equality(set, range);
        assert forall|v: usize| v < n implies #[trigger] order.contains(NodeId(v)) by {
            assert(range.contains(v as int));
            let p = choose|p: int| 0 <= p < ids.len() && ids[p] == v as int;
            assert(order[p] == NodeId(v));
        }
    }
    if (forall|v: usize| v < n ==> #[trigger] order.contains(NodeId(v))) && n <= usize::MAX + 1 {
        assert(range.subset_of(set)) by {
            assert forall|x: int| range.contains(x) implies set.contains(x) by {
                assert(order.contains(NodeId(x as usize)));
                let p = choose|p: int| 0 <= p < order.len() && order[p] == NodeId(x as usize);
                assert(ids[p] == x);
            }
        }
        assert(set =~= range);
    }
}

/// The place of an entry of a sequence without duplicates.
pub proof fn lemma_place(order: Seq<NodeId>, p: int)
    requires
        order.no_duplicates(),
        0 <= p < order.len(),
    ensures
        order.index_of(order[p]) == p,
{
    assert(order.contains(order[p]));
    let q = order.index_of(order[p]);
    assert(order[q] == order[p]);
}

/// Placement within a common prefix does not depend on what follows it.
pub proof fn lemma_release_prefix(
    nodes: Seq<OpView>,
    a: Seq<NodeId>,
    b: Seq<NodeId>,
    n: int,
    id: NodeId,
)
    requires
        a.no_duplicates(),
        b.no_duplicates(),
        0 <= n <= a.len(),
        n <= b.len(),
        a.take(n) == b.take(n),
        operands_within(nodes, a, id, n),
    ensures
        release(a, nodes[id.0 as int]) == release(b, nodes[id.0 as int]),
        0 <= release(a, nodes[id.0 as int]) <= n,
        operands_within(nodes, b, id, n),
{
    reveal(release);
    reveal(operands_within);
    let operands = nodes[id.0 as int].operands();
    assert forall|k: int| 0 <= k < operands.len() implies a.index_of(#[trigger] operands[k])
        == b.index_of(operands[k]) && 0 <= a.index_of(operands[k]) < n by {
        assert(a.take(n).contains(operands[k]));
        let p = choose|p: int| 0 <= p < a.take(n).len() && a.take(n)[p] == operands[k];
        assert(a[p] == operands[k] && b.take(n)[p] == operands[k] && b[p] == operands[k]);
        lemma_place(a, p);
        lemma_place(b, p);
    }
}

/// A node without operands is released from the start, and only such a node.
proof fn lemma_leaf(nodes: Seq<OpView>, order: Seq<NodeId>, id: NodeId)
    ensures
        operands_within(nodes, order, id, 0) <==> nodes[id.0 as int].operands().len() == 0,
        nodes[id.0 as int].operands().len() == 0 ==> release(order, nodes[id.0 as int]) == 0 && (
        forall|bound: int| operands_within(nodes, order, id, bound)),
{
    reveal(release);
    reveal(operands_within);
    assert(order.take(0) =~= Seq::empty());
    if operands_within(nodes, order, id, 0) && nodes[id.0 as int].operands().len() != 0 {
        let o = nodes[id.0 as int].operands()[0];
        assert(order.take(0).contains(o));
    }
}

/// A node that one more place releases uses the node at that place.
proof fn lemma_released_by(nodes: Seq<OpView>, order: Seq<NodeId>, id: NodeId, cursor: int)
    requires
        0 <= cursor < order.len(),
        operands_within(nodes, order, id, cursor + 1),
        !operands_within(nodes, order, id, cursor),
    ensures
        exists|k: int|
            0 <= k < nodes[id.0 as int].operands().len()
                && #[trigger] nodes[id.0 as int].operands()[k] == order[cursor],
{
    reveal(operands_within);
    let operands = nodes[id.0 as int].operands();
    let k = choose|k: int|
        0 <= k < operands.len() && !order.take(cursor).contains(#[trigger] operands[k]);
    let longer = order.take(cursor + 1);
    assert(longer.contains(operands[k]));
    let p = longer.index_of(operands[k]);
    assert(longer[p] == operands[k]);
    if p < cursor {
        assert(order.take(cursor)[p] == operands[k]);
    }
    assert(nodes[id.0 as int].operands()[k] == order[cursor]);
}

/// What is placed within a bound stays so when more is placed.
proof fn lemma_within_grows(
    nodes: Seq<OpView>,
    a: Seq<NodeId>,
    b: Seq<NodeId>,
    id: NodeId,
    m: int,
    n: int,
)
    requires
        0 <= m <= n <= b.len(),
        m <= a.len(),
        a.take(m) == b.take(m),
        operands_within(nodes, a, id, m),
    ensures
        operands_within(nodes, b, id, n),
{
    reveal(operands_within);
    let operands = nodes[id.0 as int].operands();
    assert forall|k: int| 0 <= k < operands.len() implies b.take(n).contains(
        #[trigger] operands[k],
    ) by {
        let placed = a.take(m);
        assert(placed.contains(operands[k]));
        let q = placed.index_of(operands[k]);
        assert(placed[q] == operands[k]);
        assert(b.take(m)[q] == operands[k]);
        assert(b.take(n)[q] == operands[k]);
    }
}

/// A graph has at most one schedule.
pub proof fn schedule_is_unique(nodes: Seq<OpView>, s: Seq<NodeId>, t: Seq<NodeId>)
    requires
        schedule(nodes, s),
        schedule(nodes, t),
    ensures
        s == t,
{
    lemma_unique_prefix(nodes, s, t, s.len() as int);
    assert(s.take(s.len() as int) =~= s);
    assert(t.take(t.len() as int) =~= t);
}

proof fn lemma_unique_prefix(nodes: Seq<OpView>, s: Seq<NodeId>, t: Seq<NodeId>, n: int)
    requires
        schedule(nodes, s),
        schedule(nodes, t),
        0 <= n <= s.len(),
    ensures
        s.take(n) == t.take(n),
    decreases n,
{
    if n == 0 {
        assert(s.take(n) =~= t.take(n));
    } else {
        let p = n - 1;
        lemma_unique_prefix(nodes, s, t, p);
        lemma_pigeonhole(s, nodes.len());
        lemma_pigeonhole(t, nodes.len());
        if s[p] != t[p] {
            assert(t.contains(NodeId(s[p].0)));
            assert(s.contains(NodeId(t[p].0)));
            let q = choose|q: int| 0 <= q < t.len() && t[q] == s[p];
            let r = choose|r: int| 0 <= r < s.len() && s[r] == t[p];
            if q < p {
                assert(s.take(p)[q] == t.take(p)[q]);
                assert(s[q] == s[p]);
            }
            if r < p {
                assert(s.take(p)[r] == t.take(p)[r]);
                assert(t[r] == t[p]);
            }
            assert(before(nodes, s, s[p], s[r]));
            assert(before(nodes, t, t[p], t[q]));
            assert(operands_within(nodes, s, s[p], p));
            assert(operands_within(nodes, t, t[p], p));
            lemma_release_prefix(nodes, s, t, p, s[p]);
            lemma_release_prefix(nodes, t, s, p, t[p]);
        }
        assert(s.take(n) =~= s.take(p).push(s[p]));
        assert(t.take(n) =~= t.take(p).push(t[p]));
    }
}

/// Nodes of which every operand is placed are placed, so a graph that is not placed whole has no
/// topological order.
proof fn lemma_stuck(nodes: Seq<OpView>, order: Seq<NodeId>, s: Seq<NodeId>, n: int)
    requires
        topological(nodes, s),
        forall|v: usize|
            v < nodes.len() && operands_within(nodes, order, NodeId(v), order.len() as int)
                ==> #[trigger] order.contains(NodeId(v)),
        0 <= n <= s.len(),
    ensures
        forall|p: int| 0 <= p < n ==> order.contains(#[trigger] s[p]),
    decreases n,
{
    if n > 0 {
        reveal(operands_within);
        let p = n - 1;
        lemma_stuck(nodes, order, s, p);
        assert(operands_within(nodes, s, s[p], p));
        assert(operands_within(nodes, order, s[p], order.len() as int)) by {
            assert forall|k: int|
                0 <= k < nodes[s[p].0 as int].operands().len() implies order.take(
                order.len() as int,
            ).contains(#[trigger] nodes[s[p].0 as int].operands()[k]) by {
                let o = nodes[s[p].0 as int].operands()[k];
                assert(s.take(p).contains(o));
                let q = choose|q: int| 0 <= q < s.take(p).len() && s.take(p)[q] == o;
                assert(s[q] == o);
                assert(order.take(order.len() as int) =~= order);
            }
        }
        assert(s[p] == NodeId(s[p].0));
    }
}

/// Placing a released node keeps a partial schedule.
proof fn lemma_place_next(nodes: Seq<OpView>, order: Seq<NodeId>, id: NodeId, cursor: int)
    requires
        partial_schedule(nodes, order),
        id.0 < nodes.len(),
        !order.contains(id),
        0 <= cursor < order.len(),
        operands_within(nodes, order, id, cursor + 1),
        nodes[id.0 as int].operands().contains(order[cursor]),
        nodes[id.0 as int].operands().len() <= 2,
        forall|p: int|
            0 <= p < order.len() ==> release(order, nodes[(#[trigger] order[p]).0 as int]) <= cursor
                || (release(order, nodes[order[p].0 as int]) == cursor + 1 && order[p].0 < id.0),
    ensures
        partial_schedule(nodes, order.push(id)),
        forall|p: int|
            0 <= p < order.len() ==> release(order.push(id), nodes[(#[trigger] order[p]).0 as int])
                == release(order, nodes[order[p].0 as int]),
        release(order.push(id), nodes[id.0 as int]) == cursor + 1,
{
    let next = order.push(id);
    assert(next.no_duplicates());
    assert forall|p: int| 0 <= p < order.len() implies release(
        next,
        nodes[(#[trigger] order[p]).0 as int],
    ) == release(order, nodes[order[p].0 as int]) by {
        assert(operands_within(nodes, order, order[p], p));
        assert(next.take(p) =~= order.take(p));
        lemma_release_prefix(nodes, order, next, p, order[p]);
    }
    assert(next.take(cursor + 1) =~= order.take(cursor + 1));
    lemma_release_prefix(nodes, order, next, cursor + 1, id);
    lemma_place(next, cursor);
    assert(next[cursor] == order[cursor]);
    lemma_release_at(nodes, next, id, cursor);
    assert forall|p: int| 0 <= p < next.len() implies operands_within(
        nodes,
        next,
        #[trigger] next[p],
        p,
    ) by {
        if p == order.len() {
            lemma_within_grows(nodes, order, next, id, cursor + 1, p);
        } else {
            assert(operands_within(nodes, order, order[p], p));
            assert(next.take(p) =~= order.take(p));
            lemma_within_grows(nodes, order, next, order[p], p, p);
        }
    }
    assert forall|p: int, q: int| 0 <= p < q < next.len() implies before(
        nodes,
        next,
        #[trigger] next[p],
        #[trigger] next[q],
    ) by {
        assert(next[p] == order[p]);
        if q < order.len() {
            assert(next[q] == order[q]);
            assert(before(nodes, order, order[p], order[q]));
        }
    }
}

/// A node that uses the last place within its bound is released there.
proof fn lemma_release_at(nodes: Seq<OpView>, order: Seq<NodeId>, id: NodeId, cursor: int)
    requires
        nodes[id.0 as int].operands().contains(order[cursor]),
        nodes[id.0 as int].operands().len() <= 2,
        order.index_of(order[cursor]) == cursor,
        release(order, nodes[id.0 as int]) <= cursor + 1,
    ensures
        release(order, nodes[id.0 as int]) == cursor + 1,
{
    reveal(release);
    let operands = nodes[id.0 as int].operands();
    let k = choose|k: int| 0 <= k < operands.len() && operands[k] == order[cursor];
}

/// A node that is not placed and whose operands are.
pub open spec fn available(nodes: Seq<OpView>, order: Seq<NodeId>, v: usize) -> bool {
    &&& v < nodes.len()
    &&& !order.contains(NodeId(v))
    &&& operands_within(nodes, order, NodeId(v), order.len() as int)
}

/// A partial schedule that no available node should have preceded.
pub open spec fn greedy(nodes: Seq<OpView>, order: Seq<NodeId>) -> bool {
    &&& partial_schedule(nodes, order)
    &&& forall|p: int, v: usize|
        0 <= p < order.len() && #[trigger] available(nodes, order, v) ==> before(
            nodes,
            order,
            #[trigger] order[p],
            NodeId(v),
        )
}

/// The first of the available nodes below `k`.
proof fn lemma_first_available(nodes: Seq<OpView>, order: Seq<NodeId>, k: nat) -> (r: Option<usize>)
    requires
        k <= nodes.len(),
        nodes.len() <= usize::MAX,
    ensures
        match r {
            Some(b) => b < k && available(nodes, order, b) && forall|v: usize|
                v < k && v != b && #[trigger] available(nodes, order, v) ==> before(
                    nodes,
                    order,
                    NodeId(b),
                    NodeId(v),
                ),
            None => forall|v: usize| v < k ==> !#[trigger] available(nodes, order, v),
        },
    decreases k,
{
    if k == 0 {
        None
    } else {
        let v = (k - 1) as usize;
        let best = lemma_first_available(nodes, order, (k - 1) as nat);
        if !available(nodes, order, v) {
            best
        } else if best is None || before(nodes, order, NodeId(v), NodeId(best->Some_0)) {
            Some(v)
        } else {
            best
        }
    }
}

/// Releases within a partial schedule come before their places.
proof fn lemma_release_bound(nodes: Seq<OpView>, order: Seq<NodeId>, p: int)
    requires
        partial_schedule(nodes, order),
        0 <= p < order.len(),
    ensures
        0 <= release(order, nodes[order[p].0 as int]) <= p,
{
    assert(operands_within(nodes, order, order[p], p));
    lemma_release_prefix(nodes, order, order, p, order[p]);
}

/// Placing the first available node keeps a greedy schedule.
proof fn lemma_greedy_step(nodes: Seq<OpView>, order: Seq<NodeId>, b: usize)
    requires
        greedy(nodes, order),
        available(nodes, order, b),
        forall|v: usize|
            v != b && #[trigger] available(nodes, order, v) ==> before(
                nodes,
                order,
                NodeId(b),
                NodeId(v),
            ),
    ensures
        greedy(nodes, order.push(NodeId(b))),
{
    let n = order.len() as int;
    let next = order.push(NodeId(b));
    assert(next.no_duplicates());
    assert(next.take(n) =~= order.take(n));
    lemma_release_prefix(nodes, order, next, n, NodeId(b));
    assert forall|p: int| 0 <= p < n implies release(next, nodes[(#[trigger] order[p]).0 as int])
        == release(order, nodes[order[p].0 as int]) by {
        assert(operands_within(nodes, order, order[p], p));
        assert(next.take(p) =~= order.take(p));
        lemma_release_prefix(nodes, order, next, p, order[p]);
    }
    assert forall|p: int| 0 <= p < next.len() implies operands_within(
        nodes,
        next,
        #[trigger] next[p],
        p,
    ) by {
        if p == n {
            lemma_within_grows(nodes, order, next, NodeId(b), n, n);
        } else {
            assert(operands_within(nodes, order, order[p], p));
            assert(next.take(p) =~= order.take(p));
            lemma_within_grows(nodes, order, next, order[p], p, p);
        }
    }
    assert forall|p: int, q: int| 0 <= p < q < next.len() implies before(
        nodes,
        next,
        #[trigger] next[p],
        #[trigger] next[q],
    ) by {
        assert(next[p] == order[p]);
        if q < n {
            assert(next[q] == order[q]);
            assert(before(nodes, order, order[p], order[q]));
        } else {
            assert(before(nodes, order, order[p], NodeId(b)));
        }
    }
    assert(partial_schedule(nodes, next));
    assert forall|p: int, v: usize|
        0 <= p < next.len() && #[trigger] available(nodes, next, v) implies before(
        nodes,
        next,
        #[trigger] next[p],
        NodeId(v),
    ) by {
        assert(!order.contains(NodeId(v))) by {
            if order.contains(NodeId(v)) {
                let q = order.index_of(NodeId(v));
                assert(next[q] == NodeId(v));
            }
        }
        assert(next[n] == NodeId(b));
        if operands_within(nodes, next, NodeId(v), n) {
            lemma_within_grows(nodes, next, order, NodeId(v), n, n);
            assert(available(nodes, order, v));
            lemma_release_prefix(nodes, order, next, n, NodeId(v));
            if p < n {
                assert(next[p] == order[p]);
                assert(before(nodes, order, order[p], NodeId(v)));
            } else {
                assert(v != b);
            }
        } else {
            lemma_released_by(nodes, next, NodeId(v), n);
            let operands = nodes[v as int].operands();
            let k = choose|k: int|
                0 <= k < nodes[NodeId(v).0 as int].operands().len()
                    && #[trigger] nodes[NodeId(v).0 as int].operands()[k] == next[n];
            assert(operands[k] == next[n]);
            assert(operands.contains(next[n]));
            lemma_place(next, n);
            lemma_release_prefix(nodes, next, next, n + 1, NodeId(v));
            lemma_release_at(nodes, next, NodeId(v), n);
            lemma_release_bound(nodes, next, p);
        }
    }
}

/// A greedy schedule of a graph with a topological order can be completed.
proof fn lemma_greedy_completes(nodes: Seq<OpView>, order: Seq<NodeId>, t: Seq<NodeId>)
    requires
        greedy(nodes, order),
        topological(nodes, t),
        nodes.len() <= usize::MAX,
    ensures
        exists|s: Seq<NodeId>| schedule(nodes, s),
    decreases nodes.len() - order.len(),
{
    lemma_pigeonhole(order, nodes.len());
    if order.len() == nodes.len() {
        assert(schedule(nodes, order));
    } else {
        match lemma_first_available(nodes, order, nodes.len()) {
            Some(b) => {
                lemma_greedy_step(nodes, order, b);
                lemma_pigeonhole(order.push(NodeId(b)), nodes.len());
                lemma_greedy_completes(nodes, order.push(NodeId(b)), t);
            },
            None => {
                assert forall|v: usize|
                    v < nodes.len() && operands_within(
                        nodes,
                        order,
                        NodeId(v),
                        order.len() as int,
                    ) implies #[trigger] order.contains(NodeId(v)) by {
                    assert(!available(nodes, order, v));
                }
                lemma_stuck(nodes, order, t, t.len() as int);
                lemma_pigeonhole(t, nodes.len());
                assert forall|v: usize| v < nodes.len() implies #[trigger] order.contains(
                    NodeId(v),
                ) by {
                    assert(t.contains(NodeId(v)));
                    let p = t.index_of(NodeId(v));
                    assert(t[p] == NodeId(v));
                }
            },
        }
    }
}

/// A graph that has a topological order has a schedule, so its order is found.
pub proof fn acyclic_graphs_have_a_schedule(nodes: Seq<OpView>, t: Seq<NodeId>)
    requires
        topological(nodes, t),
        closed(nodes),
        nodes.len() <= usize::MAX,
    ensures
        topo(nodes) is Ok,
        schedule(nodes, topo(nodes)->Ok_0),
{
    let start: Seq<NodeId> = Seq::empty();
    lemma_closed(nodes);
    assert(greedy(nodes, start));
    lemma_greedy_completes(nodes, start, t);
}

/// A graph whose operands precede their users has a schedule.
pub proof fn ordered_graphs_have_a_schedule(nodes: Seq<OpView>)
    requires
        ordered(nodes),
        nodes.len() <= usize::MAX,
    ensures
        topo(nodes) is Ok,
        schedule(nodes, topo(nodes)->Ok_0),
{
    let t = Seq::new(nodes.len(), |i: int| NodeId(i as usize));
    assert(topological(nodes, t)) by {
        reveal(operands_within);
        assert forall|p: int| 0 <= p < t.len() implies operands_within(
            nodes,
            t,
            #[trigger] t[p],
            p,
        ) by {
            assert forall|k: int|
                0 <= k < nodes[t[p].0 as int].operands().len() implies t.take(p).contains(
                #[trigger] nodes[t[p].0 as int].operands()[k],
            ) by {
                let o = nodes[p].operands()[k];
                assert(o.0 < p);
                assert(t.take(p)[o.0 as int] == o);
            }
        }
    }
    assert forall|i: int, k: int|
        0 <= i < nodes.len() && 0 <= k < nodes[i].operands().len() implies (
    #[trigger] nodes[i].operands()[k]).0 < nodes.len() by {
        assert(nodes[i].operands()[k].0 < i);
    }
    acyclic_graphs_have_a_schedule(nodes, t);
}

/// Every entry of `users[u]` uses `u`, in ascending order.
pub open spec fn users_sound(nodes: Seq<OpView>, users: Seq<Vec<usize>>) -> bool {
    &&& forall|u: int, j: int|
        0 <= u < users.len() && 0 <= j < users[u]@.len() ==> (#[trigger] users[u]@[j]) < nodes.len()
            && nodes[users[u]@[j] as int].operands().contains(NodeId(u as usize))
    &&& forall|u: int, j: int, k: int|
        0 <= u < users.len() && 0 <= j < k < users[u]@.len() ==> (#[trigger] users[u]@[j]) <= (
        #[trigger] users[u]@[k])
}

/// The users of each node, ascending by index.
fn users_of(graph: &Graph) -> (r: Result<Vec<Vec<usize>>, IrError>)
    ensures
        match r {
            Ok(users) => {
                &&& closed(graph@.nodes)
                &&& users@.len() == graph@.nodes.len()
                &&& users_sound(graph@.nodes, users@)
                &&& forall|v: int, k: int|
                    0 <= v < graph@.nodes.len() && 0 <= k < graph@.nodes[v].operands().len()
                        ==> users@[(#[trigger] graph@.nodes[v].operands()[k]).0 as int]@.contains(
                        v as usize,
                    )
            },
            Err(e) => dangling(graph@.nodes) == Some(e) && e is InvalidNodeId,
        },
{
    let ghost nodes = graph@.nodes;
    let n: usize = graph.nodes.len();
    let ghost all = Seq::new(nodes.len(), |i: int| dangling_node(nodes, i));
    let mut users: Vec<Vec<usize>> = Vec::new();
    let mut i: usize = 0;
    while i < n
        invariant
            n == nodes.len(),
            i <= n,
            users@.len() == i,
            forall|u: int| 0 <= u < i ==> (#[trigger] users@[u])@.len() == 0,
        decreases n - i,
    {
        users.push(Vec::new());
        i += 1;
    }
    let mut i: usize = 0;
    while i < n
        invariant
            nodes == graph@.nodes,
            n == nodes.len(),
            i <= n,
            users@.len() == n,
            all == Seq::new(nodes.len(), |i: int| dangling_node(nodes, i)),
            forall|j: int| 0 <= j < i ==> all[j] is None,
            users_sound(nodes, users@),
            forall|u: int, j: int|
                0 <= u < n && 0 <= j < users@[u]@.len() ==> (#[trigger] users@[u]@[j]) < i,
            forall|v: int, k: int|
                0 <= v < i && 0 <= k < nodes[v].operands().len() ==> (
                #[trigger] nodes[v].operands()[k]).0 < n
                    && users@[nodes[v].operands()[k].0 as int]@.contains(v as usize),
        decreases n - i,
    {
        let operands = graph.nodes[i].op.operands();
        assert(operands@ == nodes[i as int].operands());
        let ghost one = nodes[i as int].operands().map_values(
            |o: NodeId| dangling_operand(nodes.len(), o),
        );
        let mut k: usize = 0;
        while k < operands.len()
            invariant
                nodes == graph@.nodes,
                n == nodes.len(),
                i < n,
                users@.len() == n,
                k <= operands@.len(),
                operands@ == nodes[i as int].operands(),
                all == Seq::new(nodes.len(), |i: int| dangling_node(nodes, i)),
                forall|j: int| 0 <= j < i ==> all[j] is None,
                one == nodes[i as int].operands().map_values(
                    |o: NodeId| dangling_operand(nodes.len(), o),
                ),
                forall|j: int| 0 <= j < k ==> one[j] is None,
                users_sound(nodes, users@),
                forall|u: int, j: int|
                    0 <= u < n && 0 <= j < users@[u]@.len() ==> (#[trigger] users@[u]@[j]) <= i,
                forall|v: int, m: int|
                    0 <= v < i && 0 <= m < nodes[v].operands().len() ==> (
                    #[trigger] nodes[v].operands()[m]).0 < n
                        && users@[nodes[v].operands()[m].0 as int]@.contains(v as usize),
                forall|m: int|
                    0 <= m < k ==> (#[trigger] nodes[i as int].operands()[m]).0 < n
                        && users@[nodes[i as int].operands()[m].0 as int]@.contains(i),
            decreases operands@.len() - k,
        {
            let operand: NodeId = operands[k];
            if operand.0 >= n {
                proof {
                    lemma_first_some_at(one, k as int);
                    lemma_first_some_at(all, i as int);
                }
                return Err(IrError::InvalidNodeId { id: operand, num_nodes: n });
            }
            let ghost before_push = users@;
            users[operand.0].push(i);
            proof {
                assert(nodes[i as int].operands().contains(operand));
                let u = operand.0 as int;
                let grown = users@[u]@;
                assert(grown == before_push[u]@.push(i));
                assert(grown[grown.len() - 1] == i);
                assert forall|v: int, m: int|
                    0 <= v < i && 0 <= m < nodes[v].operands().len() implies (
                #[trigger] nodes[v].operands()[m]).0 < n
                    && users@[nodes[v].operands()[m].0 as int]@.contains(v as usize) by {
                    let w = nodes[v].operands()[m].0 as int;
                    assert(before_push[w]@.contains(v as usize));
                    let j = before_push[w]@.index_of(v as usize);
                    assert(users@[w]@[j] == v as usize);
                }
                assert forall|m: int| 0 <= m < k + 1 implies (
                #[trigger] nodes[i as int].operands()[m]).0 < n
                    && users@[nodes[i as int].operands()[m].0 as int]@.contains(i) by {
                    if m < k {
                        let w = nodes[i as int].operands()[m].0 as int;
                        assert(before_push[w]@.contains(i));
                        let j = before_push[w]@.index_of(i);
                        assert(users@[w]@[j] == i);
                    }
                }
            }
            k += 1;
        }
        proof {
            lemma_first_some_none(one);
        }
        i += 1;
    }
    proof {
        lemma_first_some_none(all);
        lemma_closed(nodes);
    }
    Ok(users)
}

/// Whether every operand of node `id` is marked.
fn operands_done(
    graph: &Graph,
    id: usize,
    done: &Vec<bool>,
    Ghost(order): Ghost<Seq<NodeId>>,
    Ghost(bound): Ghost<int>,
) -> (r: bool)
    requires
        closed(graph@.nodes),
        id < graph@.nodes.len(),
        done@.len() == graph@.nodes.len(),
        0 <= bound <= order.len(),
        forall|v: int|
            0 <= v < done@.len() ==> (#[trigger] done@[v] <==> order.take(bound).contains(
                NodeId(v as usize),
            )),
    ensures
        r == operands_within(graph@.nodes, order, NodeId(id), bound),
{
    reveal(operands_within);
    let ghost nodes = graph@.nodes;
    let operands = graph.nodes[id].op.operands();
    assert(operands@ == nodes[id as int].operands());
    let mut k: usize = 0;
    while k < operands.len()
        invariant
            nodes == graph@.nodes,
            closed(nodes),
            id < nodes.len(),
            done@.len() == nodes.len(),
            k <= operands@.len(),
            operands@ == nodes[id as int].operands(),
            forall|v: int|
                0 <= v < done@.len() ==> (#[trigger] done@[v] <==> order.take(bound).contains(
                    NodeId(v as usize),
                )),
            forall|m: int| 0 <= m < k ==> order.take(bound).contains(#[trigger] operands@[m]),
        decreases operands@.len() - k,
    {
        assert(nodes[id as int].operands()[k as int].0 < nodes.len());
        assert(operands@[k as int] == NodeId(operands@[k as int].0));
        if !done[operands[k].0] {
            proof {
                reveal(operands_within);
                let o = nodes[NodeId(id).0 as int].operands()[k as int];
                assert(o == operands@[k as int]);
                assert(done@[o.0 as int] == false);
                assert(!order.take(bound).contains(o));
                assert(!operands_within(nodes, order, NodeId(id), bound));
            }
            return false;
        }
        k += 1;
    }
    true
}

impl Graph {
    /// Returns nodes in deterministic topological order.
    ///
    /// # Errors
    ///
    /// Returns [`IrError::InvalidNodeId`] for dangling operands or [`IrError::Cycle`] if no
    /// topological order exists.
    pub fn topo_order(&self) -> (r: Result<Vec<NodeId>, IrError>)
        ensures
            match r {
                Ok(order) => topo(self@.nodes) == Ok::<Seq<NodeId>, IrError>(order@) && schedule(
                    self@.nodes,
                    order@,
                ) && topological(self@.nodes, order@),
                Err(e) => topo(self@.nodes) == Err::<Seq<NodeId>, IrError>(e),
            },
            r == Err::<Vec<NodeId>, IrError>(IrError::Cycle) ==> forall|order: Seq<NodeId>|
                !#[trigger] topological(self@.nodes, order),
    {
        let ghost nodes = self@.nodes;
        let n: usize = self.nodes.len();
        let users = match users_of(self) {
            Ok(users) => users,
            Err(e) => {
                return Err(e);
            }
        };
        let mut order: Vec<NodeId> = Vec::new();
        let mut queued: Vec<bool> = Vec::new();
        let mut done: Vec<bool> = Vec::new();
        let mut i: usize = 0;
        while i < n
            invariant
                nodes == self@.nodes,
                n == nodes.len(),
                i <= n,
                queued@.len() == i,
                done@.len() == i,
                partial_schedule(nodes, order@),
                forall|v: int| 0 <= v < i ==> done@[v] == false,
                forall|v: int|
                    0 <= v < i ==> (#[trigger] queued@[v] <==> order@.contains(NodeId(v as usize))),
                forall|v: int|
                    0 <= v < i ==> (#[trigger] queued@[v] <==> nodes[v].operands().len() == 0),
                forall|p: int|
                    0 <= p < order@.len() ==> (#[trigger] order@[p]).0 < i
                        && nodes[order@[p].0 as int].operands().len() == 0,
            decreases n - i,
        {
            let ghost old_order = order@;
            let ghost old_queued = queued@;
            let leaf = self.nodes[i].op.operands().len() == 0;
            queued.push(leaf);
            done.push(false);
            if leaf {
                order.push(NodeId(i));
                proof {
                    assert(order@[old_order.len() as int] == NodeId(i));
                    assert(!old_order.contains(NodeId(i)));
                    assert forall|p: int| 0 <= p < order@.len() implies release(
                        order@,
                        nodes[(#[trigger] order@[p]).0 as int],
                    ) == 0 && operands_within(nodes, order@, order@[p], p) by {
                        lemma_leaf(nodes, order@, order@[p]);
                    }
                    assert forall|p: int, q: int| 0 <= p < q < order@.len() implies before(
                        nodes,
                        order@,
                        #[trigger] order@[p],
                        #[trigger] order@[q],
                    ) by {
                        if q < old_order.len() {
                            assert(before(nodes, old_order, old_order[p], old_order[q]));
                            lemma_leaf(nodes, old_order, old_order[p]);
                            lemma_leaf(nodes, old_order, old_order[q]);
                        }
                    }
                    assert forall|v: int| 0 <= v < i + 1 implies (#[trigger] queued@[v]
                        <==> order@.contains(NodeId(v as usize))) by {
                        if v < i {
                            assert(queued@[v] == old_queued[v]);
                            if old_order.contains(NodeId(v as usize)) {
                                let p = old_order.index_of(NodeId(v as usize));
                                assert(order@[p] == NodeId(v as usize));
                            }
                            if order@.contains(NodeId(v as usize)) {
                                let p = order@.index_of(NodeId(v as usize));
                                assert(order@[p] == NodeId(v as usize));
                                assert(p < old_order.len());
                                assert(old_order[p] == NodeId(v as usize));
                            }
                        }
                    }
                }
            }
            i += 1;
        }
        proof {
            lemma_pigeonhole(order@, n as nat);
            assert forall|v: usize|
                v < n && operands_within(nodes, order@, NodeId(v), 0) implies #[trigger] order@.contains(
                NodeId(v),
            ) by {
                lemma_leaf(nodes, order@, NodeId(v));
                assert(queued@[v as int]);
            }
            assert forall|p: int| 0 <= p < order@.len() implies release(
                order@,
                nodes[(#[trigger] order@[p]).0 as int],
            ) <= 0 by {
                lemma_leaf(nodes, order@, order@[p]);
            }
            assert(order@.take(0) =~= Seq::empty());
        }
        let mut cursor: usize = 0;
        while cursor < order.len()
            invariant
                nodes == self@.nodes,
                n == nodes.len(),
                users@.len() == n,
                users_sound(nodes, users@),
                closed(nodes),
                forall|v: int, k: int|
                    0 <= v < nodes.len() && 0 <= k < nodes[v].operands().len() ==> users@[(
                    #[trigger] nodes[v].operands()[k]).0 as int]@.contains(v as usize),
                queued@.len() == n,
                done@.len() == n,
                cursor <= order@.len() <= n,
                partial_schedule(nodes, order@),
                forall|v: int|
                    0 <= v < n ==> (#[trigger] queued@[v] <==> order@.contains(NodeId(v as usize))),
                forall|v: int|
                    0 <= v < n ==> (#[trigger] done@[v] <==> order@.take(cursor as int).contains(
                        NodeId(v as usize),
                    )),
                forall|p: int|
                    0 <= p < order@.len() ==> release(
                        order@,
                        nodes[(#[trigger] order@[p]).0 as int],
                    ) <= cursor,
                forall|v: usize|
                    v < n && operands_within(nodes, order@, NodeId(v), cursor as int)
                        ==> #[trigger] order@.contains(NodeId(v)),
            decreases n - cursor,
        {
            let current: usize = order[cursor].0;
            let ghost entry_order = order@;
            let ghost old_done = done@;
            assert(current < n) by {
                assert(order@[cursor as int].0 < nodes.len());
            }
            done.set(current, true);
            proof {
                assert(entry_order.take(cursor as int + 1) =~= entry_order.take(
                    cursor as int,
                ).push(NodeId(current)));
                assert forall|v: int| 0 <= v < n implies (#[trigger] done@[v]
                    <==> entry_order.take(cursor as int + 1).contains(NodeId(v as usize))) by {
                    let shorter = entry_order.take(cursor as int);
                    let longer = entry_order.take(cursor as int + 1);
                    if v == current {
                        assert(longer[cursor as int] == NodeId(v as usize));
                    } else {
                        assert(done@[v] == old_done[v]);
                        if shorter.contains(NodeId(v as usize)) {
                            let p = shorter.index_of(NodeId(v as usize));
                            assert(longer[p] == NodeId(v as usize));
                        }
                        if longer.contains(NodeId(v as usize)) {
                            let p = longer.index_of(NodeId(v as usize));
                            assert(longer[p] == NodeId(v as usize));
                            assert(shorter[p] == NodeId(v as usize));
                        }
                    }
                }
                assert forall|v: usize|
                    v < n && operands_within(
                        nodes,
                        entry_order,
                        NodeId(v),
                        cursor as int + 1,
                    ) implies #[trigger] entry_order.contains(NodeId(v))
                    || users@[current as int]@.contains(v) by {
                    if !operands_within(nodes, entry_order, NodeId(v), cursor as int) {
                        lemma_released_by(nodes, entry_order, NodeId(v), cursor as int);
                        let k = choose|k: int|
                            0 <= k < nodes[v as int].operands().len()
                                && #[trigger] nodes[v as int].operands()[k]
                                == entry_order[cursor as int];
                        assert(users@[nodes[v as int].operands()[k].0 as int]@.contains(v));
                    }
                }
            }
            let mut j: usize = 0;
            assert(users@[current as int]@.skip(0) =~= users@[current as int]@);
            while j < users[current].len()
                invariant
                    nodes == self@.nodes,
                    n == nodes.len(),
                    users@.len() == n,
                    users_sound(nodes, users@),
                    closed(nodes),
                    queued@.len() == n,
                    done@.len() == n,
                    current < n,
                    cursor < order@.len() <= n,
                    order@[cursor as int] == NodeId(current),
                    j <= users@[current as int]@.len(),
                    partial_schedule(nodes, order@),
                    forall|v: int|
                        0 <= v < n ==> (#[trigger] queued@[v] <==> order@.contains(
                            NodeId(v as usize),
                        )),
                    forall|v: int|
                        0 <= v < n ==> (#[trigger] done@[v] <==> order@.take(
                            cursor as int + 1,
                        ).contains(NodeId(v as usize))),
                    forall|p: int|
                        0 <= p < order@.len() ==> release(
                            order@,
                            nodes[(#[trigger] order@[p]).0 as int],
                        ) <= cursor || (release(order@, nodes[order@[p].0 as int]) == cursor + 1 && (
                        exists|m: int|
                            0 <= m < j && users@[current as int]@[m] == order@[p].0)),
                    forall|v: usize|
                        v < n && operands_within(nodes, order@, NodeId(v), cursor as int + 1)
                            ==> #[trigger] order@.contains(NodeId(v)) || users@[current as int]@.skip(
                            j as int,
                        ).contains(v),
                decreases users@[current as int]@.len() - j,
            {
                let user: usize = users[current][j];
                let ghost mid = order@;
                let ghost old_queued = queued@;
                assert(user < n && nodes[user as int].operands().contains(NodeId(current)));
                if !queued[user] {
                    let ready = operands_done(
                        self,
                        user,
                        &done,
                        Ghost(mid),
                        Ghost(cursor as int + 1),
                    );
                    if ready {
                        proof {
                            assert forall|p: int| 0 <= p < mid.len() implies release(
                                mid,
                                nodes[(#[trigger] mid[p]).0 as int],
                            ) <= cursor || (release(mid, nodes[mid[p].0 as int]) == cursor + 1
                                && mid[p].0 < user) by {
                                if release(mid, nodes[mid[p].0 as int]) > cursor {
                                    let m = choose|m: int|
                                        0 <= m < j && users@[current as int]@[m] == mid[p].0;
                                    assert(users@[current as int]@[m]
                                        <= users@[current as int]@[j as int]);
                                    assert(mid.contains(mid[p]));
                                    assert(mid[p] == NodeId(mid[p].0));
                                }
                            }
                            lemma_place_next(nodes, mid, NodeId(user), cursor as int);
                        }
                        order.push(NodeId(user));
                        queued.set(user, true);
                        proof {
                            lemma_pigeonhole(order@, n as nat);
                            assert(order@.take(cursor as int + 1) =~= mid.take(cursor as int + 1));
                            assert(order@[mid.len() as int] == NodeId(user));
                            assert forall|v: int| 0 <= v < n implies (#[trigger] queued@[v]
                                <==> order@.contains(NodeId(v as usize))) by {
                                if v != user {
                                    assert(queued@[v] == old_queued[v]);
                                    if mid.contains(NodeId(v as usize)) {
                                        let p = mid.index_of(NodeId(v as usize));
                                        assert(order@[p] == NodeId(v as usize));
                                    }
                                    if order@.contains(NodeId(v as usize)) {
                                        let p = order@.index_of(NodeId(v as usize));
                                        assert(order@[p] == NodeId(v as usize));
                                        assert(mid[p] == NodeId(v as usize));
                                    }
                                }
                            }
                        }
                    }
                }
                proof {
                    let list = users@[current as int]@;
                    assert(order@.take(cursor as int + 1) =~= mid.take(cursor as int + 1));
                    assert forall|v: usize|
                        v < n && operands_within(
                            nodes,
                            order@,
                            NodeId(v),
                            cursor as int + 1,
                        ) implies #[trigger] order@.contains(NodeId(v)) || list.skip(
                        j as int + 1,
                    ).contains(v) by {
                        lemma_within_grows(
                            nodes,
                            order@,
                            mid,
                            NodeId(v),
                            cursor as int + 1,
                            cursor as int + 1,
                        );
                        if mid.contains(NodeId(v)) {
                            let p = mid.index_of(NodeId(v));
                            assert(order@[p] == NodeId(v));
                        } else if v != user {
                            let rest = list.skip(j as int);
                            assert(rest.contains(v));
                            let m = rest.index_of(v);
                            assert(list.skip(j as int + 1)[m - 1] == v);
                        } else {
                            assert(!old_queued[user as int]);
                            assert(order@.contains(NodeId(user)));
                        }
                    }
                    assert forall|p: int| 0 <= p < order@.len() implies release(
                        order@,
                        nodes[(#[trigger] order@[p]).0 as int],
                    ) <= cursor || (release(order@, nodes[order@[p].0 as int]) == cursor + 1 && (
                    exists|m: int| 0 <= m < j + 1 && list[m] == order@[p].0)) by {
                        if p < mid.len() {
                            assert(order@[p] == mid[p]);
                            if release(mid, nodes[mid[p].0 as int]) > cursor {
                                let m = choose|m: int| 0 <= m < j && list[m] == mid[p].0;
                                assert(0 <= m < j + 1 && list[m] == order@[p].0);
                            }
                        } else {
                            assert(list[j as int] == order@[p].0);
                        }
                    }
                }
                j += 1;
            }
            proof {
                let list = users@[current as int]@;
                assert(list.skip(j as int) =~= Seq::empty());
            }
            cursor += 1;
        }
        proof {
            lemma_closed(nodes);
            lemma_pigeonhole(order@, n as nat);
            if order@.len() == n {
                assert(schedule(nodes, order@));
                let chosen = choose|s: Seq<NodeId>| schedule(nodes, s);
                schedule_is_unique(nodes, chosen, order@);
            } else if exists|s: Seq<NodeId>| topological(nodes, s) {
                let s = choose|s: Seq<NodeId>| topological(nodes, s);
                lemma_stuck(nodes, order@, s, s.len() as int);
                lemma_pigeonhole(s, n as nat);
                assert forall|v: usize| v < n implies #[trigger] order@.contains(NodeId(v)) by {
                    assert(s.contains(NodeId(v)));
                    let p = s.index_of(NodeId(v));
                    assert(s[p] == NodeId(v));
                }
            } else if exists|s: Seq<NodeId>| schedule(nodes, s) {
                let s = choose|s: Seq<NodeId>| schedule(nodes, s);
                assert(topological(nodes, s));
            }
        }
        if order.len() == n {
            Ok(order)
        } else {
            Err(IrError::Cycle)
        }
    }
}

} // verus!

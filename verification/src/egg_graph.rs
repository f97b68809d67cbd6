//! Graphs from expressions.
use vstd::prelude::*;

use crate::builder::{
    appending_keeps_construction, lemma_append_error, under_construction, GraphBuilder,
};
use crate::egg_lang::{
    children_before, invalid_graph, unknown_atom, AtomTable, EggError, EggErrorView, EggLang,
    RecExpr,
};
use crate::graph::{consts_fill, output_error, structure_error, well_formed, Graph, GraphView};
use crate::infer::{infer_graph, infer_types};
use crate::op::{NodeId, Op, OpView};

verus! {

/// The graph built so far, and where the nodes of the original and of the expression stand in it.
pub struct BuildState {
    pub g: GraphView,
    pub copied: Seq<Option<NodeId>>,
    pub made: Seq<Option<NodeId>>,
}

/// The id of the next node.
pub open spec fn next_id(g: GraphView) -> NodeId {
    NodeId(g.nodes.len() as usize)
}

/// The id that a node was copied to.
pub open spec fn copy_of(copied: Seq<Option<NodeId>>) -> spec_fn(NodeId) -> NodeId {
    |id: NodeId| copied[id.0 as int]->Some_0
}

/// The state after copying the node at `v` of the original with all it depends on: operands
/// first, left before right, each node once.
pub open spec fn copy_node(nodes: Seq<OpView>, v: nat, g: GraphView, copied: Seq<Option<NodeId>>) -> (
    GraphView,
    Seq<Option<NodeId>>,
)
    decreases v,
{
    let op = nodes[v as int];
    let operands = op.operands();
    if copied[v as int] is Some || (operands.len() > 0 && operands[0].0 >= v) || (operands.len() > 1
        && operands[1].0 >= v) {
        (g, copied)
    } else {
        let (g1, c1) = if operands.len() > 0 {
            copy_node(nodes, operands[0].0 as nat, g, copied)
        } else {
            (g, copied)
        };
        let (g2, c2) = if operands.len() > 1 {
            copy_node(nodes, operands[1].0 as nat, g1, c1)
        } else {
            (g1, c1)
        };
        (g2.with_node(op.map(copy_of(c2))), c2.update(v as int, Some(next_id(g2))))
    }
}

/// The operation of an expression node over made operands.
pub open spec fn made_op(node: EggLang, made: Seq<Option<NodeId>>) -> OpView {
    match node {
        EggLang::Neg(x) => OpView::Neg(made[x as int]->Some_0),
        EggLang::Relu(x) => OpView::Relu(made[x as int]->Some_0),
        EggLang::Add(l, r) => OpView::Add(made[l as int]->Some_0, made[r as int]->Some_0),
        EggLang::Sub(l, r) => OpView::Sub(made[l as int]->Some_0, made[r as int]->Some_0),
        EggLang::Mul(l, r) => OpView::Mul(made[l as int]->Some_0, made[r as int]->Some_0),
        EggLang::Matmul(l, r) => OpView::Matmul(made[l as int]->Some_0, made[r as int]->Some_0),
        EggLang::Atom(_) => OpView::Neg(NodeId(0)),
    }
}

/// The state after making the graph node of the expression node at `i`.
pub open spec fn make_node(
    expr: Seq<EggLang>,
    atoms: Seq<NodeId>,
    nodes: Seq<OpView>,
    i: nat,
    st: BuildState,
) -> Result<BuildState, EggErrorView>
    decreases i,
{
    let node = expr[i as int];
    let children = node.children();
    if st.made[i as int] is Some {
        Ok(st)
    } else {
        match node {
            EggLang::Atom(a) => if a >= atoms.len() {
                Err(unknown_atom(a))
            } else {
                match output_error(nodes.len(), atoms[a as int]) {
                    Some(e) => Err(invalid_graph(e)),
                    None => {
                        let v = atoms[a as int].0;
                        let (g, copied) = copy_node(nodes, v as nat, st.g, st.copied);
                        Ok(
                            BuildState {
                                g,
                                copied,
                                made: st.made.update(i as int, copied[v as int]),
                            },
                        )
                    },
                }
            },
            _ => if children[0] >= i || (children.len() > 1 && children[1] >= i) {
                Ok(st)
            } else {
                match make_node(expr, atoms, nodes, children[0] as nat, st) {
                    Err(e) => Err(e),
                    Ok(first) => if children.len() == 1 {
                        Ok(with_made(first, i as int, node))
                    } else {
                        match make_node(expr, atoms, nodes, children[1] as nat, first) {
                            Err(e) => Err(e),
                            Ok(second) => Ok(with_made(second, i as int, node)),
                        }
                    },
                }
            },
        }
    }
}

/// One more node, for the expression node at `i`.
pub open spec fn with_made(st: BuildState, i: int, node: EggLang) -> BuildState {
    BuildState {
        g: st.g.with_node(made_op(node, st.made)),
        copied: st.copied,
        made: st.made.update(i, Some(next_id(st.g))),
    }
}

/// Nothing made yet.
pub open spec fn none_made(n: nat) -> Seq<Option<NodeId>> {
    Seq::new(n, |i: int| None)
}

/// The graph of the first `n` expressions, where copies stand in it, and the roots.
pub open spec fn make_all(
    exprs: Seq<(Seq<EggLang>, Seq<NodeId>)>,
    nodes: Seq<OpView>,
    n: nat,
) -> Result<(GraphView, Seq<Option<NodeId>>, Seq<NodeId>), EggErrorView>
    decreases n,
{
    if n == 0 {
        Ok((GraphView::empty(), none_made(nodes.len()), Seq::empty()))
    } else {
        match make_all(exprs, nodes, (n - 1) as nat) {
            Err(e) => Err(e),
            Ok((g, copied, roots)) => {
                let (expr, atoms) = exprs[n - 1];
                if expr.len() == 0 {
                    Err(EggErrorView::ConversionFailed("empty RecExpr"@))
                } else {
                    let root = (expr.len() - 1) as nat;
                    match make_node(
                        expr,
                        atoms,
                        nodes,
                        root,
                        BuildState { g, copied, made: none_made(expr.len()) },
                    ) {
                        Err(e) => Err(e),
                        Ok(st) => Ok(
                            (st.g, st.copied, roots.push(st.made[root as int]->Some_0)),
                        ),
                    }
                }
            },
        }
    }
}

/// The graph of the expressions, one output each. Atoms are copied from the original.
pub open spec fn graph_of(exprs: Seq<(Seq<EggLang>, Seq<NodeId>)>, original: GraphView) -> Result<
    GraphView,
    EggErrorView,
> {
    match structure_error(original) {
        Some(e) => Err(invalid_graph(e)),
        None => match make_all(exprs, original.nodes, exprs.len()) {
            Err(e) => Err(e),
            Ok((g, _, roots)) => {
                let whole = GraphView { outputs: roots, ..g };
                match infer_graph(whole) {
                    Err(e) => Err(EggErrorView::BackConversionInvalid(e.text())),
                    Ok(_) => Ok(whole),
                }
            },
        },
    }
}

/// The graph is under construction and remembered ids are within it.
pub open spec fn build_ok(g: GraphView, ids: Seq<Option<NodeId>>) -> bool {
    &&& under_construction(g)
    &&& ids_within(g, ids)
}

/// Remembered ids are within the graph.
pub open spec fn ids_within(g: GraphView, ids: Seq<Option<NodeId>>) -> bool {
    forall|i: int|
        0 <= i < ids.len() && (#[trigger] ids[i]) is Some ==> ids[i]->Some_0.0 < g.nodes.len()
}

/// Copies one node of the original, with all it depends on.
fn copy_original_subdag(
    original: &Graph,
    node: NodeId,
    builder: &mut GraphBuilder,
    copied: &mut Vec<Option<NodeId>>,
) -> (r: NodeId)
    requires
        well_formed(original@),
        node.0 < original@.nodes.len(),
        old(copied)@.len() == original@.nodes.len(),
        build_ok(old(builder)@, old(copied)@),
        old(builder)@.outputs.len() == 0,
    ensures
        copy_node(original@.nodes, node.0 as nat, old(builder)@, old(copied)@) == (
            final(builder)@,
            final(copied)@,
        ),
        final(copied)@.len() == original@.nodes.len(),
        final(copied)@[node.0 as int] == Some(r),
        build_ok(final(builder)@, final(copied)@),
        final(builder)@.outputs.len() == 0,
        final(builder)@.nodes.len() >= old(builder)@.nodes.len(),
        forall|i: int|
            0 <= i < old(copied)@.len() && (#[trigger] old(copied)@[i]) is Some
                ==> final(copied)@[i] == old(copied)@[i],
    decreases node.0,
{
    let ghost nodes = original@.nodes;
    let v: usize = node.0;
    match copied[v] {
        Some(id) => {
            return id;
        }
        None => {}
    }
    let op = &original.nodes[v].op;
    assert(op@ == nodes[v as int]);
    let operands = op.operands();
    let ghost before = copied@;
    if operands.len() > 0 {
        assert(nodes[v as int].operands()[0].0 < v);
        let _ = copy_original_subdag(original, operands[0], builder, copied);
    }
    let ghost c1 = copied@;
    if operands.len() > 1 {
        assert(nodes[v as int].operands()[1].0 < v);
        let _ = copy_original_subdag(original, operands[1], builder, copied);
    }
    let ghost c2 = copied@;
    let ghost g2 = builder@;
    let ghost f = copy_of(c2);
    proof {
        assert forall|k: int| 0 <= k < op@.operands().len() implies (
        #[trigger] op@.operands()[k]).0 < c2.len() && c2[op@.operands()[k].0 as int] is Some by {
            let o = op@.operands()[k];
            assert(nodes[v as int].operands()[k].0 < v);
            if k == 0 {
                assert(c1[o.0 as int] is Some);
            }
        }
    }
    let moved = remap(op, copied);
    proof {
        crate::surgery::lemma_map_operands(op@, f);
        assert forall|k: int| 0 <= k < moved@.operands().len() implies (
        #[trigger] moved@.operands()[k]).0 < g2.nodes.len() by {
            assert(c2[op@.operands()[k].0 as int] is Some);
        }
        if let OpView::Const { data, shape } = op@ {
            assert(consts_fill(nodes));
            assert(moved@ == op@);
            crate::shape::lemma_numel_fits_prefix(shape, 0);
        }
        lemma_append_error(g2.nodes.len(), moved@);
        assert(builder.nodes.len() == g2.nodes.len());
        appending_keeps_construction(g2, moved@);
    }
    let id: NodeId = match builder.append(moved) {
        Ok(id) => id,
        Err(_) => NodeId(0),
    };
    copied.set(v, Some(id));
    proof {
        assert forall|i: int| 0 <= i < before.len() && (#[trigger] before[i]) is Some implies
            copied@[i] == before[i] by {
            assert(c1[i] == before[i]);
            assert(c2[i] == c1[i]);
        }
    }
    id
}

/// Returns the id that a node was copied to.
fn copy_id(copied: &Vec<Option<NodeId>>, id: NodeId) -> (r: NodeId)
    requires
        id.0 < copied@.len(),
        copied@[id.0 as int] is Some,
    ensures
        r == copy_of(copied@)(id),
{
    match copied[id.0] {
        Some(found) => found,
        None => id,
    }
}

/// Renames the operands of an operation to their copies.
fn remap(op: &Op, copied: &Vec<Option<NodeId>>) -> (r: Op)
    requires
        forall|k: int|
            0 <= k < op@.operands().len() ==> (#[trigger] op@.operands()[k]).0 < copied@.len()
                && copied@[op@.operands()[k].0 as int] is Some,
    ensures
        r@ == op@.map(copy_of(copied@)),
{
    proof {
        let operands = op@.operands();
        if operands.len() > 0 {
            assert(copied@[operands[0].0 as int] is Some);
        }
        if operands.len() > 1 {
            assert(copied@[operands[1].0 as int] is Some);
        }
    }
    match op {
        Op::Input { .. } | Op::Const { .. } => op.clone(),
        Op::Add(l, r) => Op::Add(copy_id(copied, *l), copy_id(copied, *r)),
        Op::Sub(l, r) => Op::Sub(copy_id(copied, *l), copy_id(copied, *r)),
        Op::Mul(l, r) => Op::Mul(copy_id(copied, *l), copy_id(copied, *r)),
        Op::Neg(x) => Op::Neg(copy_id(copied, *x)),
        Op::Relu(x) => Op::Relu(copy_id(copied, *x)),
        Op::Matmul(l, r) => Op::Matmul(copy_id(copied, *l), copy_id(copied, *r)),
        Op::Sum { input, axes, keepdim } => Op::Sum {
            input: copy_id(copied, *input),
            axes: crate::data::copied(axes),
            keepdim: *keepdim,
        },
        Op::Reshape { input, new_shape } => Op::Reshape {
            input: copy_id(copied, *input),
            new_shape: new_shape.clone(),
        },
    }
}

/// Makes the graph node of one expression node.
fn emit_graph_expr(
    expr: &RecExpr,
    atoms: &AtomTable,
    i: usize,
    original: &Graph,
    builder: &mut GraphBuilder,
    made: &mut Vec<Option<NodeId>>,
    copied: &mut Vec<Option<NodeId>>,
) -> (r: Result<NodeId, EggError>)
    requires
        well_formed(original@),
        i < expr@.len(),
        old(made)@.len() == expr@.len(),
        old(copied)@.len() == original@.nodes.len(),
        build_ok(old(builder)@, old(copied)@),
        ids_within(old(builder)@, old(made)@),
        old(builder)@.outputs.len() == 0,
    ensures
        ({
            let st = BuildState {
                g: old(builder)@,
                copied: old(copied)@,
                made: old(made)@,
            };
            let after = BuildState {
                g: final(builder)@,
                copied: final(copied)@,
                made: final(made)@,
            };
            match r {
                Ok(id) => {
                    &&& make_node(expr@, atoms@, original@.nodes, i as nat, st) == Ok::<
                        BuildState,
                        EggErrorView,
                    >(after)
                    &&& after.made.len() == expr@.len()
                    &&& after.copied.len() == original@.nodes.len()
                    &&& after.made[i as int] == Some(id)
                    &&& build_ok(after.g, after.copied)
                    &&& ids_within(after.g, after.made)
                    &&& after.g.outputs.len() == 0
                    &&& after.g.nodes.len() >= st.g.nodes.len()
                    &&& forall|j: int|
                        0 <= j < st.made.len() && (#[trigger] st.made[j]) is Some ==> after.made[j]
                            == st.made[j]
                },
                Err(e) => make_node(expr@, atoms@, original@.nodes, i as nat, st) == Err::<
                    BuildState,
                    EggErrorView,
                >(e@),
            }
        }),
    decreases i,
{
    proof {
        use_type_invariant(expr);
    }
    let ghost st = BuildState { g: builder@, copied: copied@, made: made@ };
    match made[i] {
        Some(id) => {
            return Ok(id);
        }
        None => {}
    }
    let node: EggLang = expr.nodes[i];
    assert(children_before(expr@[i as int], i as int));
    let op: Op = match node {
        EggLang::Atom(a) => {
            let v: NodeId = match atoms.node(a) {
                Ok(v) => v,
                Err(e) => {
                    return Err(e);
                }
            };
            match original.node(v) {
                Ok(_) => {}
                Err(e) => {
                    return Err(EggError::BackConversionInvalid(e.to_text()));
                }
            }
            let id: NodeId = copy_original_subdag(original, v, builder, copied);
            made.set(i, Some(id));
            return Ok(id);
        }
        EggLang::Neg(x) | EggLang::Relu(x) => {
            assert(node.children()[0] < i);
            let input: NodeId = match emit_graph_expr(
                expr,
                atoms,
                x,
                original,
                builder,
                made,
                copied,
            ) {
                Ok(id) => id,
                Err(e) => {
                    return Err(e);
                }
            };
            match node {
                EggLang::Neg(_) => Op::Neg(input),
                _ => Op::Relu(input),
            }
        }
        EggLang::Add(l, r) | EggLang::Sub(l, r) | EggLang::Mul(l, r) | EggLang::Matmul(l, r) => {
            assert(node.children()[0] < i);
            assert(node.children()[1] < i);
            let left: NodeId = match emit_graph_expr(
                expr,
                atoms,
                l,
                original,
                builder,
                made,
                copied,
            ) {
                Ok(id) => id,
                Err(e) => {
                    return Err(e);
                }
            };
            let right: NodeId = match emit_graph_expr(
                expr,
                atoms,
                r,
                original,
                builder,
                made,
                copied,
            ) {
                Ok(id) => id,
                Err(e) => {
                    return Err(e);
                }
            };
            assert(made@[l as int] == Some(left));
            match node {
                EggLang::Add(_, _) => Op::Add(left, right),
                EggLang::Sub(_, _) => Op::Sub(left, right),
                EggLang::Mul(_, _) => Op::Mul(left, right),
                _ => Op::Matmul(left, right),
            }
        }
    };
    let ghost mid = BuildState { g: builder@, copied: copied@, made: made@ };
    proof {
        assert(op@ == made_op(node, mid.made));
        let c = node.children();
        assert(mid.made[c[0] as int] is Some);
        if c.len() > 1 {
            assert(mid.made[c[1] as int] is Some);
        }
        assert forall|k: int| 0 <= k < op@.operands().len() implies (
        #[trigger] op@.operands()[k]).0 < mid.g.nodes.len() by {
            assert(mid.made[c[k] as int] is Some);
        }
        lemma_append_error(mid.g.nodes.len(), op@);
        assert(builder.nodes.len() == mid.g.nodes.len());
        appending_keeps_construction(mid.g, op@);
    }
    let id: NodeId = match builder.append(op) {
        Ok(id) => id,
        Err(_) => NodeId(0),
    };
    made.set(i, Some(id));
    proof {
        let after = BuildState { g: builder@, copied: copied@, made: made@ };
        assert(after == with_made(mid, i as int, node));
        assert forall|j: int| 0 <= j < st.made.len() && (#[trigger] st.made[j]) is Some implies
            after.made[j] == st.made[j] by {
            assert(mid.made[j] == st.made[j]);
        }
    }
    Ok(id)
}

/// The contents of expressions and atom tables.
pub open spec fn expr_views(outputs: Seq<(&RecExpr, &AtomTable)>) -> Seq<
    (Seq<EggLang>, Seq<NodeId>),
> {
    outputs.map_values(|o: (&RecExpr, &AtomTable)| (o.0@, o.1@))
}

/// Returns `n` empty places.
fn empty_places(n: usize) -> (r: Vec<Option<NodeId>>)
    ensures
        r@ == none_made(n as nat),
{
    let mut places: Vec<Option<NodeId>> = Vec::new();
    let mut i: usize = 0;
    while i < n
        invariant
            i <= n,
            places@.len() == i,
            forall|j: int| 0 <= j < i ==> places@[j] is None,
        decreases n - i,
    {
        places.push(None);
        i += 1;
    }
    proof {
        assert(places@ =~= none_made(n as nat));
    }
    places
}

/// An error among the first expressions is the error of the whole.
proof fn lemma_make_error(
    exprs: Seq<(Seq<EggLang>, Seq<NodeId>)>,
    nodes: Seq<OpView>,
    m: nat,
    n: nat,
)
    requires
        m <= n,
        make_all(exprs, nodes, m) is Err,
    ensures
        make_all(exprs, nodes, n) == make_all(exprs, nodes, m),
    decreases n,
{
    if m < n {
        lemma_make_error(exprs, nodes, m, (n - 1) as nat);
    }
}

/// Converts expressions back to a graph with one output each.
///
/// # Errors
///
/// Returns [`EggError`] if the original is not well-formed, an expression is
/// empty or names an unknown atom, or the graph is ill-typed.
pub fn recexprs_to_graph(outputs: &Vec<(&RecExpr, &AtomTable)>, original: &Graph) -> (r: Result<
    Graph,
    EggError,
>)
    ensures
        match r {
            Ok(g) => graph_of(expr_views(outputs@), original@) == Ok::<GraphView, EggErrorView>(
                g@,
            ),
            Err(e) => graph_of(expr_views(outputs@), original@) == Err::<GraphView, EggErrorView>(
                e@,
            ),
        },
{
    match original.validate_structure() {
        Ok(()) => {}
        Err(e) => {
            return Err(EggError::BackConversionInvalid(e.to_text()));
        }
    }
    let ghost exprs = expr_views(outputs@);
    let ghost nodes = original@.nodes;
    let mut builder = GraphBuilder::new();
    let mut copied = empty_places(original.nodes.len());
    let mut roots: Vec<NodeId> = Vec::new();
    let mut k: usize = 0;
    while k < outputs.len()
        invariant
            k <= outputs@.len(),
            exprs == expr_views(outputs@),
            nodes == original@.nodes,
            well_formed(original@),
            structure_error(original@) is None,
            copied@.len() == nodes.len(),
            build_ok(builder@, copied@),
            builder@.outputs.len() == 0,
            make_all(exprs, nodes, k as nat) == Ok::<
                (GraphView, Seq<Option<NodeId>>, Seq<NodeId>),
                EggErrorView,
            >((builder@, copied@, roots@)),
            forall|j: int| 0 <= j < roots@.len() ==> (#[trigger] roots@[j]).0 < builder@.nodes.len(),
        decreases outputs@.len() - k,
    {
        let pair = &outputs[k];
        assert(exprs[k as int] == (pair.0@, pair.1@));
        let len: usize = pair.0.len();
        if len == 0 {
            proof {
                lemma_make_error(exprs, nodes, (k + 1) as nat, exprs.len());
            }
            return Err(EggError::ConversionFailed(String::from_str("empty RecExpr")));
        }
        let mut made = empty_places(len);
        match emit_graph_expr(
            pair.0,
            pair.1,
            len - 1,
            original,
            &mut builder,
            &mut made,
            &mut copied,
        ) {
            Ok(root) => {
                roots.push(root);
            }
            Err(e) => {
                proof {
                    lemma_make_error(exprs, nodes, (k + 1) as nat, exprs.len());
                }
                return Err(e);
            }
        }
        k += 1;
    }
    let ghost base = builder@;
    assert(roots@.take(0) =~= Seq::empty());
    assert(base.outputs =~= roots@.take(0));
    let mut k: usize = 0;
    while k < roots.len()
        invariant
            k <= roots@.len(),
            forall|j: int| 0 <= j < roots@.len() ==> (#[trigger] roots@[j]).0 < base.nodes.len(),
            builder@ == (GraphView { outputs: roots@.take(k as int), ..base }),
        decreases roots@.len() - k,
    {
        assert(roots@[k as int].0 < base.nodes.len());
        match builder.mark_output(roots[k]) {
            Ok(()) => {}
            Err(e) => {
                return Err(EggError::BackConversionInvalid(e.to_text()));
            }
        }
        proof {
            assert(roots@.take(k as int + 1) =~= roots@.take(k as int).push(roots@[k as int]));
        }
        k += 1;
    }
    proof {
        assert(roots@.take(k as int) =~= roots@);
    }
    match builder.build() {
        Ok(g) => match infer_types(&g) {
            Ok(_) => Ok(g),
            Err(e) => Err(EggError::BackConversionInvalid(e.to_text())),
        },
        Err(e) => Err(EggError::BackConversionInvalid(e.to_text())),
    }
}

/// Converts one expression back to a graph with one output.
///
/// # Errors
///
/// Returns [`EggError`] as [`recexprs_to_graph`] does.
pub fn recexpr_to_graph(expr: &RecExpr, atoms: &AtomTable, original: &Graph) -> (r: Result<
    Graph,
    EggError,
>)
    ensures
        match r {
            Ok(g) => graph_of(seq![(expr@, atoms@)], original@) == Ok::<GraphView, EggErrorView>(
                g@,
            ),
            Err(e) => graph_of(seq![(expr@, atoms@)], original@) == Err::<GraphView, EggErrorView>(
                e@,
            ),
        },
{
    let mut outputs: Vec<(&RecExpr, &AtomTable)> = Vec::new();
    let ghost view = (expr@, atoms@);
    outputs.push((expr, atoms));
    proof {
        assert(expr_views(outputs@) =~= seq![view]);
    }
    recexprs_to_graph(&outputs, original)
}

} // verus!

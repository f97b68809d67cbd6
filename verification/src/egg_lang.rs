//! Expressions for equality saturation, and their conversion from and to graphs.
use vstd::prelude::*;

use crate::error::IrError;
use crate::graph::{ordered, output_error, structure_error, well_formed, Graph, GraphView};
use crate::op::{NodeId, Op, OpView};
use crate::text::{decimal, decimal_text};

verus! {

/// One node of an expression. Operands are places in the expression.
#[derive(Debug, Clone, Copy, PartialEq, Eq, Hash, PartialOrd, Ord, Structural)]
pub enum EggLang {
    /// An opaque graph value, by its index in the atom table.
    Atom(u32),
    Neg(usize),
    Relu(usize),
    Add(usize, usize),
    Sub(usize, usize),
    Mul(usize, usize),
    Matmul(usize, usize),
}

impl EggLang {
    /// The operands in order.
    pub open spec fn children(self) -> Seq<usize> {
        match self {
            EggLang::Atom(_) => Seq::empty(),
            EggLang::Neg(x) | EggLang::Relu(x) => seq![x],
            EggLang::Add(l, r) | EggLang::Sub(l, r) | EggLang::Mul(l, r)
            | EggLang::Matmul(l, r) => seq![l, r],
        }
    }

    /// Returns whether every operand stands before `place`.
    pub fn children_below(&self, place: usize) -> (r: bool)
        ensures
            r == children_before(*self, place as int),
    {
        let below = match self {
            EggLang::Atom(_) => true,
            EggLang::Neg(x) | EggLang::Relu(x) => *x < place,
            EggLang::Add(l, r)
            | EggLang::Sub(l, r)
            | EggLang::Mul(l, r)
            | EggLang::Matmul(l, r) => *l < place && *r < place,
        };
        proof {
            let c = self.children();
            if c.len() > 0 && !(c[0] < place) {
                assert(!children_before(*self, place as int));
            }
            if c.len() > 1 && !(c[1] < place) {
                assert(!children_before(*self, place as int));
            }
        }
        below
    }
}

/// Every operand stands before `place`.
pub open spec fn children_before(node: EggLang, place: int) -> bool {
    forall|k: int| 0 <= k < node.children().len() ==> #[trigger] node.children()[k] < place
}

/// Operands stand before their users.
pub open spec fn in_order(nodes: Seq<EggLang>) -> bool {
    forall|i: int| 0 <= i < nodes.len() ==> children_before(#[trigger] nodes[i], i)
}

/// An expression: nodes after their operands, the root last.
#[derive(Debug, PartialEq, Eq)]
pub struct RecExpr {
    pub(crate) nodes: Vec<EggLang>,
}

impl View for RecExpr {
    type V = Seq<EggLang>;

    open(crate) spec fn view(&self) -> Seq<EggLang> {
        self.nodes@
    }
}

impl Clone for RecExpr {
    fn clone(&self) -> (r: Self)
        ensures
            r@ == self@,
    {
        proof {
            use_type_invariant(self);
        }
        RecExpr { nodes: crate::data::copied(&self.nodes) }
    }
}

impl RecExpr {
    /// Operands stand before their users.
    #[verifier::type_invariant]
    pub open(crate) spec fn ordered(self) -> bool {
        in_order(self.nodes@)
    }

    /// Returns an expression without nodes.
    pub fn new() -> (r: Self)
        ensures
            r@ == Seq::<EggLang>::empty(),
    {
        RecExpr { nodes: Vec::new() }
    }

    /// Returns the expression of the given nodes, where each stands after its operands.
    pub fn from_nodes(nodes: Vec<EggLang>) -> (r: Option<Self>)
        ensures
            match r {
                Some(e) => e@ == nodes@ && in_order(nodes@),
                None => !in_order(nodes@),
            },
    {
        let mut i: usize = 0;
        while i < nodes.len()
            invariant
                i <= nodes@.len(),
                forall|j: int| 0 <= j < i ==> children_before(#[trigger] nodes@[j], j),
            decreases nodes@.len() - i,
        {
            if !nodes[i].children_below(i) {
                assert(!children_before(nodes@[i as int], i as int));
                return None;
            }
            i += 1;
        }
        Some(RecExpr { nodes })
    }

    /// Appends a node and returns its place.
    pub fn add(&mut self, node: EggLang) -> (r: usize)
        requires
            children_before(node, old(self)@.len() as int),
        ensures
            r == old(self)@.len(),
            final(self)@ == old(self)@.push(node),
    {
        proof {
            use_type_invariant(&*self);
        }
        let place: usize = self.nodes.len();
        let mut nodes: Vec<EggLang> = Vec::new();
        core::mem::swap(&mut nodes, &mut self.nodes);
        nodes.push(node);
        self.nodes = nodes;
        place
    }

    /// Returns the nodes.
    pub fn nodes(&self) -> (r: &[EggLang])
        ensures
            r@ == self@,
            in_order(self@),
    {
        proof {
            use_type_invariant(self);
        }
        self.nodes.as_slice()
    }

    /// Returns the number of nodes.
    pub fn len(&self) -> (r: usize)
        ensures
            r == self@.len(),
    {
        self.nodes.len()
    }
}

/// Errors of expression conversion.
#[derive(Debug)]
pub enum EggError {
    /// A graph or an expression could not be converted.
    ConversionFailed(String),
    /// An expression gave an invalid graph.
    BackConversionInvalid(String),
    /// An internal failure.
    Internal(String),
}

/// The contents of an [`EggError`].
pub enum EggErrorView {
    ConversionFailed(Seq<char>),
    BackConversionInvalid(Seq<char>),
    Internal(Seq<char>),
}

impl View for EggError {
    type V = EggErrorView;

    open spec fn view(&self) -> EggErrorView {
        match *self {
            EggError::ConversionFailed(m) => EggErrorView::ConversionFailed(m@),
            EggError::BackConversionInvalid(m) => EggErrorView::BackConversionInvalid(m@),
            EggError::Internal(m) => EggErrorView::Internal(m@),
        }
    }
}

impl EggErrorView {
    /// The message of this error.
    pub open spec fn text(self) -> Seq<char> {
        match self {
            EggErrorView::ConversionFailed(m) => "egg conversion failed: "@ + m,
            EggErrorView::BackConversionInvalid(m) =>
                "egg back-conversion produced invalid graph: "@ + m,
            EggErrorView::Internal(m) => "internal egg error: "@ + m,
        }
    }
}

impl EggError {
    /// Renders the message of this error.
    pub fn to_text(&self) -> (r: String)
        ensures
            r@ == self@.text(),
    {
        match self {
            EggError::ConversionFailed(m) => String::from_str("egg conversion failed: ").concat(
                m.as_str(),
            ),
            EggError::BackConversionInvalid(m) => String::from_str(
                "egg back-conversion produced invalid graph: ",
            ).concat(m.as_str()),
            EggError::Internal(m) => String::from_str("internal egg error: ").concat(m.as_str()),
        }
    }
}

/// The graph nodes that atoms stand for.
#[derive(Debug, Clone)]
pub struct AtomTable {
    pub nodes: Vec<NodeId>,
}

impl View for AtomTable {
    type V = Seq<NodeId>;

    open spec fn view(&self) -> Seq<NodeId> {
        self.nodes@
    }
}

/// The error of an atom that stands for no node.
pub open spec fn unknown_atom(atom: u32) -> EggErrorView {
    EggErrorView::ConversionFailed("unknown atom index "@ + decimal(atom as nat))
}

impl AtomTable {
    /// Creates an empty atom table.
    #[must_use]
    pub fn new() -> (r: Self)
        ensures
            r@ == Seq::<NodeId>::empty(),
    {
        AtomTable { nodes: Vec::new() }
    }

    /// Returns the graph node of an atom.
    ///
    /// # Errors
    ///
    /// Returns [`EggError::ConversionFailed`] for an unknown atom.
    pub fn node(&self, atom: u32) -> (r: Result<NodeId, EggError>)
        ensures
            match r {
                Ok(id) => atom < self@.len() && id == self@[atom as int],
                Err(e) => atom >= self@.len() && e@ == unknown_atom(atom),
            },
    {
        let index: usize = atom as usize;
        if index < self.nodes.len() {
            Ok(self.nodes[index])
        } else {
            Err(
                EggError::ConversionFailed(
                    String::from_str("unknown atom index ").concat(
                        decimal_text(atom as u64).as_str(),
                    ),
                ),
            )
        }
    }
}

/// What is emitted so far: the expression, the atoms, and where each graph node stands.
pub struct EmitState {
    pub expr: Seq<EggLang>,
    pub atoms: Seq<NodeId>,
    pub memo: Seq<Option<usize>>,
}

impl EmitState {
    pub open spec fn empty(n: nat) -> EmitState {
        EmitState {
            expr: Seq::empty(),
            atoms: Seq::empty(),
            memo: Seq::new(n, |i: int| None),
        }
    }

    /// One more node, for the graph node at `v`.
    pub open spec fn with(self, v: int, node: EggLang) -> EmitState {
        EmitState {
            expr: self.expr.push(node),
            atoms: self.atoms,
            memo: self.memo.update(v, Some(self.expr.len() as usize)),
        }
    }

    /// The place of a graph node.
    pub open spec fn at(self, id: NodeId) -> usize {
        self.memo[id.0 as int]->Some_0
    }
}

/// Whether an operation stays an operation of the expression; others become atoms.
pub open spec fn is_scalar_op(op: OpView) -> bool {
    op is Neg || op is Relu || op is Add || op is Sub || op is Mul || op is Matmul
}

/// The expression node of an operation over emitted operands.
pub open spec fn enode(op: OpView, st: EmitState) -> EggLang {
    match op {
        OpView::Neg(x) => EggLang::Neg(st.at(x)),
        OpView::Relu(x) => EggLang::Relu(st.at(x)),
        OpView::Add(l, r) => EggLang::Add(st.at(l), st.at(r)),
        OpView::Sub(l, r) => EggLang::Sub(st.at(l), st.at(r)),
        OpView::Mul(l, r) => EggLang::Mul(st.at(l), st.at(r)),
        OpView::Matmul(l, r) => EggLang::Matmul(st.at(l), st.at(r)),
        _ => EggLang::Atom(0),
    }
}

/// The state after emitting the graph node at `v`: its operands first, left before right, each
/// node once.
pub open spec fn emit(nodes: Seq<OpView>, v: nat, st: EmitState) -> Result<EmitState, EggErrorView>
    decreases v,
{
    let op = nodes[v as int];
    let operands = op.operands();
    if st.memo[v as int] is Some {
        Ok(st)
    } else if !is_scalar_op(op) {
        if st.atoms.len() > u32::MAX {
            Err(EggErrorView::ConversionFailed("too many atom nodes"@))
        } else {
            let atom = EggLang::Atom(st.atoms.len() as u32);
            let after = st.with(v as int, atom);
            Ok(EmitState { atoms: st.atoms.push(NodeId(v as usize)), ..after })
        }
    } else if operands[0].0 >= v || (operands.len() > 1 && operands[1].0 >= v) {
        Ok(st)
    } else {
        match emit(nodes, operands[0].0 as nat, st) {
            Err(e) => Err(e),
            Ok(first) => if operands.len() == 1 {
                Ok(first.with(v as int, enode(op, first)))
            } else {
                match emit(nodes, operands[1].0 as nat, first) {
                    Err(e) => Err(e),
                    Ok(second) => Ok(second.with(v as int, enode(op, second))),
                }
            },
        }
    }
}

/// The error of a graph that is not well-formed.
pub open spec fn invalid_graph(e: IrError) -> EggErrorView {
    EggErrorView::BackConversionInvalid(e.text())
}

/// The expression of one graph value and its atoms.
pub open spec fn recexpr_of(g: GraphView, output: NodeId) -> Result<
    (Seq<EggLang>, Seq<NodeId>),
    EggErrorView,
> {
    match structure_error(g) {
        Some(e) => Err(invalid_graph(e)),
        None => match output_error(g.nodes.len(), output) {
            Some(e) => Err(invalid_graph(e)),
            None => match emit(g.nodes, output.0 as nat, EmitState::empty(g.nodes.len())) {
                Err(e) => Err(e),
                Ok(st) => Ok((st.expr, st.atoms)),
            },
        },
    }
}

/// Each remembered place is within the expression.
pub open spec fn memo_within(st: EmitState) -> bool {
    &&& in_order(st.expr)
    &&& forall|i: int|
        0 <= i < st.memo.len() && (#[trigger] st.memo[i]) is Some ==> st.memo[i]->Some_0
            < st.expr.len()
}

/// Emission remembers the node, forgets nothing, and keeps places within the expression.
pub proof fn lemma_emit(nodes: Seq<OpView>, v: nat, st: EmitState)
    requires
        ordered(nodes),
        v < nodes.len(),
        st.memo.len() == nodes.len(),
        memo_within(st),
        emit(nodes, v, st) is Ok,
        emit(nodes, v, st)->Ok_0.expr.len() <= usize::MAX,
    ensures
        ({
            let after = emit(nodes, v, st)->Ok_0;
            &&& after.memo.len() == nodes.len()
            &&& after.memo[v as int] is Some
            &&& memo_within(after)
            &&& st.expr.is_prefix_of(after.expr)
            &&& st.atoms.is_prefix_of(after.atoms)
            &&& forall|i: int|
                0 <= i < st.memo.len() && (#[trigger] st.memo[i]) is Some ==> after.memo[i]
                    == st.memo[i]
        }),
    decreases v,
{
    let op = nodes[v as int];
    let operands = op.operands();
    let after = emit(nodes, v, st)->Ok_0;
    if st.memo[v as int] is None && is_scalar_op(op) {
        assert(nodes[v as int].operands()[0].0 < v);
        lemma_emit_grows(nodes, operands[0].0 as nat, st);
        let first = emit(nodes, operands[0].0 as nat, st)->Ok_0;
        if operands.len() > 1 {
            assert(nodes[v as int].operands()[1].0 < v);
            lemma_emit_grows(nodes, operands[1].0 as nat, first);
            lemma_emit(nodes, operands[0].0 as nat, st);
            lemma_emit(nodes, operands[1].0 as nat, first);
            let second = emit(nodes, operands[1].0 as nat, first)->Ok_0;
            assert(first.memo[operands[0].0 as int] is Some);
            assert(second.memo[operands[0].0 as int] is Some);
            assert forall|i: int| 0 <= i < st.memo.len() && (#[trigger] st.memo[i]) is Some implies
                after.memo[i] == st.memo[i] by {
                assert(first.memo[i] == st.memo[i]);
                assert(second.memo[i] == st.memo[i]);
            }
            lemma_with(second, v as int, enode(op, second));
            assert(st.expr.is_prefix_of(after.expr));
        } else {
            lemma_emit(nodes, operands[0].0 as nat, st);
            assert forall|i: int| 0 <= i < st.memo.len() && (#[trigger] st.memo[i]) is Some implies
                after.memo[i] == st.memo[i] by {
                assert(first.memo[i] == st.memo[i]);
            }
            lemma_with(first, v as int, enode(op, first));
        }
    } else if st.memo[v as int] is None {
        lemma_with(st, v as int, EggLang::Atom(st.atoms.len() as u32));
    }
}

/// Emission never shortens the expression.
proof fn lemma_emit_grows(nodes: Seq<OpView>, v: nat, st: EmitState)
    ensures
        emit(nodes, v, st) is Ok ==> emit(nodes, v, st)->Ok_0.expr.len() >= st.expr.len(),
    decreases v,
{
    let op = nodes[v as int];
    let operands = op.operands();
    if st.memo[v as int] is None && is_scalar_op(op) && operands[0].0 < v && (operands.len() == 1
        || operands[1].0 < v) {
        lemma_emit_grows(nodes, operands[0].0 as nat, st);
        if operands.len() > 1 && emit(nodes, operands[0].0 as nat, st) is Ok {
            lemma_emit_grows(
                nodes,
                operands[1].0 as nat,
                emit(nodes, operands[0].0 as nat, st)->Ok_0,
            );
        }
    }
}

/// One more node over places within the expression.
proof fn lemma_with(st: EmitState, v: int, node: EggLang)
    requires
        memo_within(st),
        0 <= v < st.memo.len(),
        children_before(node, st.expr.len() as int),
        st.expr.len() <= usize::MAX,
    ensures
        memo_within(st.with(v, node)),
        st.expr.is_prefix_of(st.with(v, node).expr),
{
    let after = st.with(v, node);
    assert forall|i: int| 0 <= i < after.expr.len() implies children_before(
        #[trigger] after.expr[i],
        i,
    ) by {
        if i < st.expr.len() {
            assert(children_before(st.expr[i], i));
        }
    }
}

/// Converts one graph value to an expression.
///
/// Negation, rectifier, elementwise arithmetic and matrix products are
/// operations of the expression. Inputs, constants, sums and reshapes are
/// atoms.
///
/// # Errors
///
/// Returns [`EggError`] if the graph is not well-formed, the output is no
/// node, or there are too many atoms.
pub fn graph_to_recexpr(graph: &Graph, output: NodeId) -> (r: Result<
    (RecExpr, AtomTable),
    EggError,
>)
    ensures
        match r {
            Ok((expr, atoms)) => recexpr_of(graph@, output) == Ok::<
                (Seq<EggLang>, Seq<NodeId>),
                EggErrorView,
            >((expr@, atoms@)),
            Err(e) => recexpr_of(graph@, output) == Err::<
                (Seq<EggLang>, Seq<NodeId>),
                EggErrorView,
            >(e@),
        },
{
    match graph.validate_structure() {
        Ok(()) => {}
        Err(e) => {
            return Err(EggError::BackConversionInvalid(e.to_text()));
        }
    }
    match graph.node(output) {
        Ok(_) => {}
        Err(e) => {
            return Err(EggError::BackConversionInvalid(e.to_text()));
        }
    }
    let n: usize = graph.nodes.len();
    let mut memo: Vec<Option<usize>> = Vec::new();
    let mut i: usize = 0;
    while i < n
        invariant
            i <= n,
            memo@.len() == i,
            forall|j: int| 0 <= j < i ==> memo@[j] is None,
        decreases n - i,
    {
        memo.push(None);
        i += 1;
    }
    let mut expr = RecExpr::new();
    let mut atoms = AtomTable::new();
    proof {
        assert(memo@ =~= EmitState::empty(n as nat).memo);
    }
    match emit_recexpr_node(graph, output, &mut expr, &mut atoms, &mut memo) {
        Ok(_) => Ok((expr, atoms)),
        Err(e) => Err(e),
    }
}

fn emit_recexpr_node(
    graph: &Graph,
    node: NodeId,
    expr: &mut RecExpr,
    atoms: &mut AtomTable,
    memo: &mut Vec<Option<usize>>,
) -> (r: Result<usize, EggError>)
    requires
        well_formed(graph@),
        node.0 < graph@.nodes.len(),
        old(memo)@.len() == graph@.nodes.len(),
        memo_within(
            EmitState { expr: old(expr)@, atoms: old(atoms)@, memo: old(memo)@ },
        ),
    ensures
        ({
            let st = EmitState { expr: old(expr)@, atoms: old(atoms)@, memo: old(memo)@ };
            let after = EmitState { expr: final(expr)@, atoms: final(atoms)@, memo: final(memo)@ };
            match r {
                Ok(place) => {
                    &&& emit(graph@.nodes, node.0 as nat, st) == Ok::<EmitState, EggErrorView>(
                        after,
                    )
                    &&& after.memo.len() == graph@.nodes.len()
                    &&& after.memo[node.0 as int] == Some(place)
                    &&& memo_within(after)
                    &&& forall|i: int|
                        0 <= i < st.memo.len() && (#[trigger] st.memo[i]) is Some ==> after.memo[i]
                            == st.memo[i]
                },
                Err(e) => emit(graph@.nodes, node.0 as nat, st) == Err::<EmitState, EggErrorView>(
                    e@,
                ),
            }
        }),
    decreases node.0,
{
    let ghost st = EmitState { expr: expr@, atoms: atoms@, memo: memo@ };
    let ghost nodes = graph@.nodes;
    let v: usize = node.0;
    match memo[v] {
        Some(place) => {
            return Ok(place);
        }
        None => {}
    }
    let op = &graph.nodes[v].op;
    assert(op@ == nodes[v as int]);
    let enode: EggLang = match op {
        Op::Neg(x) | Op::Relu(x) => {
            assert(nodes[v as int].operands()[0].0 < v);
            let place: usize = match emit_recexpr_node(graph, *x, expr, atoms, memo) {
                Ok(place) => place,
                Err(e) => {
                    return Err(e);
                }
            };
            match op {
                Op::Neg(_) => EggLang::Neg(place),
                _ => EggLang::Relu(place),
            }
        }
        Op::Add(l, r) | Op::Sub(l, r) | Op::Mul(l, r) | Op::Matmul(l, r) => {
            assert(nodes[v as int].operands()[0].0 < v);
            assert(nodes[v as int].operands()[1].0 < v);
            let left: usize = match emit_recexpr_node(graph, *l, expr, atoms, memo) {
                Ok(place) => place,
                Err(e) => {
                    return Err(e);
                }
            };
            let right: usize = match emit_recexpr_node(graph, *r, expr, atoms, memo) {
                Ok(place) => place,
                Err(e) => {
                    return Err(e);
                }
            };
            assert(memo@[l.0 as int] == Some(left));
            match op {
                Op::Add(_, _) => EggLang::Add(left, right),
                Op::Sub(_, _) => EggLang::Sub(left, right),
                Op::Mul(_, _) => EggLang::Mul(left, right),
                _ => EggLang::Matmul(left, right),
            }
        }
        Op::Input { .. } | Op::Const { .. } | Op::Sum { .. } | Op::Reshape { .. } => {
            let count: usize = atoms.nodes.len();
            if count as u64 > u32::MAX as u64 {
                return Err(EggError::ConversionFailed(String::from_str("too many atom nodes")));
            }
            atoms.nodes.push(node);
            EggLang::Atom(count as u32)
        }
    };
    let ghost mid = EmitState { expr: expr@, atoms: atoms@, memo: memo@ };
    proof {
        let c = enode.children();
        if c.len() > 0 {
            assert(c[0] < mid.expr.len());
        }
        if c.len() > 1 {
            assert(c[1] < mid.expr.len());
        }
    }
    let place: usize = expr.add(enode);
    memo.set(v, Some(place));
    proof {
        lemma_with(mid, v as int, enode);
        let after = EmitState { expr: expr@, atoms: atoms@, memo: memo@ };
        assert(after == mid.with(v as int, enode));
        assert forall|i: int| 0 <= i < st.memo.len() && (#[trigger] st.memo[i]) is Some implies
            after.memo[i] == st.memo[i] by {
            assert(mid.memo[i] == st.memo[i]);
        }
    }
    Ok(place)
}

} // verus!

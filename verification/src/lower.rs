//! Lowering from graphs to affine loop kernels.
use vstd::prelude::*;

use crate::affine::{AffineExpr, AffineView, LoopVar};
use crate::dtype::DType;
use crate::eval::{BinaryOp, UnaryOp};
use crate::graph::{well_formed, Graph, GraphView};
use crate::infer::{
    infer_graph, infer_types, lists, node_type, reduced_shape, reduces, GraphTypes, TypeError,
    TypeErrorView,
};
use crate::loop_ir::{
    buffer_views, lemma_for_view, shape_views, stmt_views, Buffer, BufferId, BufferRef, BufferRole,
    BufferView, Kernel, KernelView, RefView, RoleView, ScalarExpr, ScalarView, Stmt, StmtView,
};
use crate::op::{NodeId, Op, OpView};
use crate::rational::Rational;
use crate::shape::{shape_text, Shape};
use crate::tensor_type::{TensorType, TypeView};
use crate::topo::{operands_within, schedule, topo};

verus! {

/// Errors produced by graph-to-loop lowering.
#[derive(Debug)]
pub enum LowerError {
    /// Type inference rejected the graph.
    Type(TypeError),
    /// Lowering encountered an unsupported construct.
    Unsupported(String),
    /// An id or an extent overflowed.
    Internal(String),
}

/// The contents of a [`LowerError`].
pub enum LowerErrorView {
    Type(TypeErrorView),
    Unsupported(Seq<char>),
    Internal(Seq<char>),
}

impl View for LowerError {
    type V = LowerErrorView;

    open spec fn view(&self) -> LowerErrorView {
        match *self {
            LowerError::Type(e) => LowerErrorView::Type(e@),
            LowerError::Unsupported(what) => LowerErrorView::Unsupported(what@),
            LowerError::Internal(message) => LowerErrorView::Internal(message@),
        }
    }
}

impl LowerErrorView {
    /// The message of this error.
    pub open spec fn text(self) -> Seq<char> {
        match self {
            LowerErrorView::Type(e) => e.text(),
            LowerErrorView::Unsupported(what) => "unsupported lowering construct: "@ + what,
            LowerErrorView::Internal(message) => "internal lowering error: "@ + message,
        }
    }
}

impl LowerError {
    /// Renders the message of this error.
    pub fn to_text(&self) -> (r: String)
        ensures
            r@ == self@.text(),
    {
        match self {
            LowerError::Type(e) => e.to_text(),
            LowerError::Unsupported(what) => String::from_str("unsupported lowering construct: ")
                .concat(what.as_str()),
            LowerError::Internal(message) => String::from_str("internal lowering error: ").concat(
                message.as_str(),
            ),
        }
    }
}

/// What is lowered so far.
pub struct LowerState {
    pub buffers: Seq<BufferView>,
    pub body: Seq<StmtView>,
    pub inputs: Seq<BufferId>,
    pub next: nat,
}

/// The variables `next`, `next + 1`, and so on.
pub open spec fn vars_from(next: nat, n: nat) -> Seq<LoopVar> {
    Seq::new(n, |i: int| LoopVar((next + i) as u32))
}

impl LowerState {
    pub open spec fn empty() -> LowerState {
        LowerState { buffers: Seq::empty(), body: Seq::empty(), inputs: Seq::empty(), next: 0 }
    }

    /// One more buffer, under the next id.
    pub open spec fn with_buffer(self, name: Seq<char>, shape: Seq<nat>, role: RoleView) -> Result<
        (LowerState, BufferId),
        LowerErrorView,
    > {
        if self.buffers.len() > u32::MAX {
            Err(LowerErrorView::Internal("id overflow"@))
        } else {
            let id = BufferId(self.buffers.len() as u32);
            Ok(
                (
                    LowerState {
                        buffers: self.buffers.push(BufferView { id, name, shape, role }),
                        ..self
                    },
                    id,
                ),
            )
        }
    }

    /// `n` loop variables that were not used before.
    pub open spec fn with_vars(self, n: nat) -> Result<(LowerState, Seq<LoopVar>), LowerErrorView> {
        if self.next + n > u32::MAX {
            Err(LowerErrorView::Internal("loop variable id overflow"@))
        } else {
            Ok((LowerState { next: self.next + n, ..self }, vars_from(self.next, n)))
        }
    }

    /// One more statement.
    pub open spec fn with_stmt(self, s: StmtView) -> LowerState {
        LowerState { body: self.body.push(s), ..self }
    }
}

/// The error of an extent beyond `i64`.
pub open spec fn extent_overflow() -> LowerErrorView {
    LowerErrorView::Internal("extent overflow"@)
}

/// The terms of a row-major index over `shape`, and the element count.
///
/// Coordinates without a variable are zero and have no term. Strides are
/// computed from the innermost extent outwards.
pub open spec fn strided(
    vars: Seq<Option<LoopVar>>,
    shape: Seq<nat>,
    overflow: Seq<char>,
) -> Result<(Seq<(LoopVar, i64)>, nat), LowerErrorView>
    decreases shape.len(),
{
    if shape.len() == 0 {
        Ok((Seq::empty(), 1))
    } else {
        match strided(vars.drop_first(), shape.drop_first(), overflow) {
            Err(e) => Err(e),
            Ok((terms, stride)) => if vars[0] is Some && stride > i64::MAX {
                Err(extent_overflow())
            } else if stride * shape[0] > usize::MAX {
                Err(LowerErrorView::Internal(overflow))
            } else {
                Ok(
                    (
                        match vars[0] {
                            Some(v) => seq![(v, stride as i64)] + terms,
                            None => terms,
                        },
                        stride * shape[0],
                    ),
                )
            },
        }
    }
}

/// Each variable for its coordinate.
pub open spec fn all_some(vars: Seq<LoopVar>) -> Seq<Option<LoopVar>> {
    vars.map_values(|v: LoopVar| Some(v))
}

/// The variables of the coordinates of the reduced tensor.
pub open spec fn reduced_vars(vars: Seq<LoopVar>, axes: Seq<usize>, keepdim: bool) -> Seq<
    Option<LoopVar>,
>
    decreases vars.len(),
{
    if vars.len() == 0 {
        Seq::empty()
    } else {
        let rest = reduced_vars(vars.drop_last(), axes, keepdim);
        if !reduces(axes, vars.len() - 1) {
            rest.push(Some(vars.last()))
        } else if keepdim {
            rest.push(None)
        } else {
            rest
        }
    }
}

/// The affine expression of the terms.
pub open spec fn linear(terms: Seq<(LoopVar, i64)>) -> AffineView {
    AffineView { terms, constant: 0 }
}

/// The constant affine expression.
pub open spec fn fixed(value: int) -> AffineView {
    AffineView { terms: Seq::empty(), constant: value as i64 }
}

/// The row-major index over `shape` in the given variables, one for each axis.
pub open spec fn row_major(vars: Seq<LoopVar>, shape: Seq<nat>) -> Result<
    AffineView,
    LowerErrorView,
> {
    if vars.len() != shape.len() {
        Err(LowerErrorView::Internal("affine rank does not match variables"@))
    } else {
        match strided(all_some(vars), shape, "row-major stride overflow"@) {
            Err(e) => Err(e),
            Ok((terms, _)) => Ok(linear(terms)),
        }
    }
}

/// The index into the reduced tensor in the variables of the input nest.
pub open spec fn sum_output_index(
    vars: Seq<LoopVar>,
    input_shape: Seq<nat>,
    shape: Seq<nat>,
    axes: Seq<usize>,
    keepdim: bool,
) -> Result<AffineView, LowerErrorView> {
    if reduced_vars(vars, axes, keepdim).len() != shape.len() {
        Err(
            LowerErrorView::Internal(
                "sum output rank mismatch: input "@ + shape_text(input_shape) + ", output "@
                    + shape_text(shape),
            ),
        )
    } else {
        match strided(
            reduced_vars(vars, axes, keepdim),
            shape,
            "sum output stride overflow"@,
        ) {
            Err(e) => Err(e),
            Ok((terms, _)) => Ok(linear(terms)),
        }
    }
}

/// The loops over the extents around a statement, the first outermost.
pub open spec fn nest(vars: Seq<LoopVar>, extents: Seq<nat>, inner: StmtView) -> StmtView
    decreases extents.len(),
{
    if extents.len() == 0 {
        inner
    } else {
        nest(
            vars.drop_last(),
            extents.drop_last(),
            StmtView::For {
                var: vars.last(),
                lo: fixed(0),
                hi: fixed(extents.last() as int),
                body: seq![inner],
            },
        )
    }
}

/// Every extent is an `i64`.
pub open spec fn extents_fit(extents: Seq<nat>) -> bool {
    forall|i: int| 0 <= i < extents.len() ==> #[trigger] extents[i] <= i64::MAX
}

/// The loops around a statement, where the extents fit.
pub open spec fn nested(vars: Seq<LoopVar>, extents: Seq<nat>, inner: StmtView) -> Result<
    StmtView,
    LowerErrorView,
> {
    if extents_fit(extents) {
        Ok(nest(vars, extents, inner))
    } else {
        Err(extent_overflow())
    }
}

/// A load.
pub open spec fn load(buffer: BufferId, index: AffineView) -> ScalarView {
    ScalarView::Load(RefView { buffer, index })
}

/// An assignment.
pub open spec fn assign(buffer: BufferId, index: AffineView, value: ScalarView) -> StmtView {
    StmtView::Assign { target: RefView { buffer, index }, value }
}

/// The literal zero.
pub open spec fn zero_literal() -> ScalarView {
    ScalarView::ConstScalar { numer: 0, denom: 1 }
}

/// The scalar expression of a binary operation.
pub open spec fn binary_expr(op: BinaryOp, l: ScalarView, r: ScalarView) -> ScalarView {
    match op {
        BinaryOp::Add => ScalarView::Add(Box::new(l), Box::new(r)),
        BinaryOp::Sub => ScalarView::Sub(Box::new(l), Box::new(r)),
        BinaryOp::Mul => ScalarView::Mul(Box::new(l), Box::new(r)),
    }
}

/// The scalar expression of a unary operation.
pub open spec fn unary_expr(op: UnaryOp, x: ScalarView) -> ScalarView {
    match op {
        UnaryOp::Neg => ScalarView::Neg(Box::new(x)),
        UnaryOp::Relu => ScalarView::Relu(Box::new(x)),
    }
}

/// An elementwise loop nest that fills a new buffer with the operand given at each index.
pub open spec fn lower_elementwise(
    st: LowerState,
    shape: Seq<nat>,
    value: spec_fn(AffineView) -> ScalarView,
) -> Result<(LowerState, BufferId), LowerErrorView> {
    match st.with_buffer("tmp"@, shape, RoleView::Temp) {
        Err(e) => Err(e),
        Ok((st1, out)) => match st1.with_vars(shape.len()) {
            Err(e) => Err(e),
            Ok((st2, vars)) => match row_major(vars, shape) {
                Err(e) => Err(e),
                Ok(flat) => match nested(vars, shape, assign(out, flat, value(flat))) {
                    Err(e) => Err(e),
                    Ok(s) => Ok((st2.with_stmt(s), out)),
                },
            },
        },
    }
}

/// A binary operation on two buffers.
pub open spec fn lower_binary(
    st: LowerState,
    shape: Seq<nat>,
    left: BufferId,
    right: BufferId,
    op: BinaryOp,
) -> Result<(LowerState, BufferId), LowerErrorView> {
    lower_elementwise(
        st,
        shape,
        |flat: AffineView| binary_expr(op, load(left, flat), load(right, flat)),
    )
}

/// A unary operation on a buffer.
pub open spec fn lower_unary(st: LowerState, shape: Seq<nat>, input: BufferId, op: UnaryOp) -> Result<
    (LowerState, BufferId),
    LowerErrorView,
> {
    lower_elementwise(st, shape, |flat: AffineView| unary_expr(op, load(input, flat)))
}

/// The index of a matrix element: row times width plus column.
pub open spec fn matrix_index(row: LoopVar, width: nat, col: LoopVar) -> AffineView {
    linear(seq![(row, width as i64), (col, 1i64)])
}

/// The accumulation of one product into an output element.
pub open spec fn multiply_add(
    out: BufferId,
    left: BufferId,
    right: BufferId,
    vars: Seq<LoopVar>,
    k: nat,
    n: nat,
) -> StmtView {
    let out_index = matrix_index(vars[0], n, vars[1]);
    assign(
        out,
        out_index,
        ScalarView::Add(
            Box::new(load(out, out_index)),
            Box::new(
                ScalarView::Mul(
                    Box::new(load(left, matrix_index(vars[0], k, vars[2]))),
                    Box::new(load(right, matrix_index(vars[2], n, vars[1]))),
                ),
            ),
        ),
    )
}

/// A nest that zeroes the output, then one that accumulates over the contraction innermost.
pub open spec fn lower_matmul(
    st: LowerState,
    shape: Seq<nat>,
    left: BufferId,
    left_shape: Seq<nat>,
    right: BufferId,
    right_shape: Seq<nat>,
) -> Result<(LowerState, BufferId), LowerErrorView> {
    let m = left_shape[0];
    let k = left_shape[1];
    let n = right_shape[1];
    match st.with_buffer("tmp"@, shape, RoleView::Temp) {
        Err(e) => Err(e),
        Ok((st1, out)) => match st1.with_vars(3) {
            Err(e) => Err(e),
            Ok((st2, vars)) => if !extents_fit(seq![m, n, k]) {
                Err(extent_overflow())
            } else {
                let init = nest(
                    vars.take(2),
                    seq![m, n],
                    assign(out, matrix_index(vars[0], n, vars[1]), zero_literal()),
                );
                let step = nest(
                    vars,
                    seq![m, n, k],
                    multiply_add(out, left, right, vars, k, n),
                );
                Ok((st2.with_stmt(init).with_stmt(step), out))
            },
        },
    }
}

/// A nest that zeroes the output, then one that adds each input element in row-major order.
pub open spec fn lower_sum(
    st: LowerState,
    shape: Seq<nat>,
    input: BufferId,
    input_shape: Seq<nat>,
    axes: Seq<usize>,
    keepdim: bool,
) -> Result<(LowerState, BufferId), LowerErrorView> {
    match st.with_buffer("tmp"@, shape, RoleView::Temp) {
        Err(e) => Err(e),
        Ok((st1, out)) => match st1.with_vars(shape.len()) {
            Err(e) => Err(e),
            Ok((st2, out_vars)) => match row_major(out_vars, shape) {
                Err(e) => Err(e),
                Ok(out_flat) => match nested(
                    out_vars,
                    shape,
                    assign(out, out_flat, zero_literal()),
                ) {
                    Err(e) => Err(e),
                    Ok(init) => lower_accumulate(
                        st2.with_stmt(init),
                        out,
                        shape,
                        input,
                        input_shape,
                        axes,
                        keepdim,
                    ),
                },
            },
        },
    }
}

/// The nest that adds each input element into the output.
pub open spec fn lower_accumulate(
    st: LowerState,
    out: BufferId,
    shape: Seq<nat>,
    input: BufferId,
    input_shape: Seq<nat>,
    axes: Seq<usize>,
    keepdim: bool,
) -> Result<(LowerState, BufferId), LowerErrorView> {
    match st.with_vars(input_shape.len()) {
        Err(e) => Err(e),
        Ok((st1, vars)) => match row_major(vars, input_shape) {
            Err(e) => Err(e),
            Ok(in_flat) => match sum_output_index(vars, input_shape, shape, axes, keepdim) {
                Err(e) => Err(e),
                Ok(out_flat) => match nested(
                    vars,
                    input_shape,
                    assign(
                        out,
                        out_flat,
                        ScalarView::Add(
                            Box::new(load(out, out_flat)),
                            Box::new(load(input, in_flat)),
                        ),
                    ),
                ) {
                    Err(e) => Err(e),
                    Ok(s) => Ok((st1.with_stmt(s), out)),
                },
            },
        },
    }
}

/// The buffer that a node was lowered to.
pub open spec fn buffer_of(placed: Seq<Option<BufferId>>, id: NodeId) -> BufferId {
    placed[id.0 as int]->Some_0
}

/// One node lowered: the new state and the buffer of its value. A reshape shares the buffer of its
/// operand.
pub open spec fn lower_node(
    st: LowerState,
    op: OpView,
    ty: TypeView,
    types: Seq<TypeView>,
    placed: Seq<Option<BufferId>>,
) -> Result<(LowerState, BufferId), LowerErrorView> {
    match op {
        OpView::Input { name, .. } => if ty.dtype == DType::Bool {
            Err(LowerErrorView::Unsupported("bool input"@))
        } else {
            match st.with_buffer(name, ty.shape, RoleView::Input(name)) {
                Err(e) => Err(e),
                Ok((st1, id)) => Ok((LowerState { inputs: st1.inputs.push(id), ..st1 }, id)),
            }
        },
        OpView::Const { data, shape } => if data.dtype() == DType::Bool {
            Err(LowerErrorView::Unsupported("bool constant"@))
        } else {
            st.with_buffer("const"@, shape, RoleView::Const(data))
        },
        OpView::Add(l, r) => lower_binary(
            st,
            ty.shape,
            buffer_of(placed, l),
            buffer_of(placed, r),
            BinaryOp::Add,
        ),
        OpView::Sub(l, r) => lower_binary(
            st,
            ty.shape,
            buffer_of(placed, l),
            buffer_of(placed, r),
            BinaryOp::Sub,
        ),
        OpView::Mul(l, r) => lower_binary(
            st,
            ty.shape,
            buffer_of(placed, l),
            buffer_of(placed, r),
            BinaryOp::Mul,
        ),
        OpView::Neg(x) => lower_unary(st, ty.shape, buffer_of(placed, x), UnaryOp::Neg),
        OpView::Relu(x) => lower_unary(st, ty.shape, buffer_of(placed, x), UnaryOp::Relu),
        OpView::Matmul(l, r) => lower_matmul(
            st,
            ty.shape,
            buffer_of(placed, l),
            types[l.0 as int].shape,
            buffer_of(placed, r),
            types[r.0 as int].shape,
        ),
        OpView::Sum { input, axes, keepdim } => lower_sum(
            st,
            ty.shape,
            buffer_of(placed, input),
            types[input.0 as int].shape,
            axes,
            keepdim,
        ),
        OpView::Reshape { input, .. } => Ok((st, buffer_of(placed, input))),
    }
}

/// No node lowered.
pub open spec fn none_placed(n: nat) -> Seq<Option<BufferId>> {
    Seq::new(n, |i: int| None)
}

/// The state and the buffers after lowering the first `n` nodes of `order`.
pub open spec fn lower_along(
    nodes: Seq<OpView>,
    types: Seq<TypeView>,
    order: Seq<NodeId>,
    n: nat,
) -> Result<(LowerState, Seq<Option<BufferId>>), LowerErrorView>
    decreases n,
{
    if n == 0 {
        Ok((LowerState::empty(), none_placed(nodes.len())))
    } else {
        match lower_along(nodes, types, order, (n - 1) as nat) {
            Err(e) => Err(e),
            Ok((st, placed)) => {
                let i = order[n - 1].0 as int;
                match lower_node(st, nodes[i], types[i], types, placed) {
                    Err(e) => Err(e),
                    Ok((st1, id)) => Ok((st1, placed.update(i, Some(id)))),
                }
            },
        }
    }
}

/// The kernel of a graph: its nodes lowered in topological order.
pub open spec fn lower_graph(g: GraphView) -> Result<KernelView, LowerErrorView> {
    match infer_graph(g) {
        Err(e) => Err(LowerErrorView::Type(e)),
        Ok(types) => match topo(g.nodes) {
            Err(e) => Err(LowerErrorView::Type(TypeErrorView::Structure(e))),
            Ok(order) => match lower_along(g.nodes, types, order, order.len()) {
                Err(e) => Err(e),
                Ok((st, placed)) => Ok(
                    KernelView {
                        buffers: st.buffers,
                        body: st.body,
                        inputs: st.inputs,
                        outputs: g.outputs.map_values(|id: NodeId| buffer_of(placed, id)),
                        output_shapes: g.outputs.map_values(
                            |id: NodeId| types[id.0 as int].shape,
                        ),
                    },
                ),
            },
        },
    }
}

/// An error along the order is the error of the whole.
proof fn lemma_along_error(
    nodes: Seq<OpView>,
    types: Seq<TypeView>,
    order: Seq<NodeId>,
    m: nat,
    n: nat,
)
    requires
        m <= n,
        lower_along(nodes, types, order, m) is Err,
    ensures
        lower_along(nodes, types, order, n) == lower_along(nodes, types, order, m),
    decreases n,
{
    if m < n {
        lemma_along_error(nodes, types, order, m, (n - 1) as nat);
    }
}

/// The state of a lowering.
struct Lowerer {
    buffers: Vec<Buffer>,
    body: Vec<Stmt>,
    inputs: Vec<BufferId>,
    next: u32,
}

impl View for Lowerer {
    type V = LowerState;

    closed spec fn view(&self) -> LowerState {
        LowerState {
            buffers: buffer_views(self.buffers@),
            body: stmt_views(self.body@),
            inputs: self.inputs@,
            next: self.next as nat,
        }
    }
}

fn extent(value: usize) -> (r: Result<i64, LowerError>)
    ensures
        match r {
            Ok(v) => v == value,
            Err(e) => value > i64::MAX && e@ == extent_overflow(),
        },
{
    if value as u64 > i64::MAX as u64 {
        Err(LowerError::Internal(String::from_str("extent overflow")))
    } else {
        Ok(value as i64)
    }
}

/// The expression that loads an element.
fn load_expr(buffer: BufferId, index: &AffineExpr) -> (r: ScalarExpr)
    ensures
        r@ == load(buffer, index@),
{
    ScalarExpr::Load(BufferRef { buffer, index: index.clone() })
}

fn zero_expr() -> (r: ScalarExpr)
    ensures
        r@ == zero_literal(),
{
    ScalarExpr::ConstScalar(Rational::from_integer(0))
}

/// The statement that assigns an element.
fn assign_stmt(buffer: BufferId, index: AffineExpr, value: ScalarExpr) -> (r: Stmt)
    ensures
        r@ == assign(buffer, index@, value@),
{
    Stmt::Assign { target: BufferRef { buffer, index }, value }
}

/// Returns the loops over the extents around a statement, the first outermost.
fn nest_loops(vars: &Vec<LoopVar>, extents: &Vec<usize>, inner: Stmt) -> (r: Result<
    Stmt,
    LowerError,
>)
    requires
        vars@.len() == extents@.len(),
    ensures
        match r {
            Ok(s) => nested(vars@, extents@.map_values(|d: usize| d as nat), inner@) == Ok::<
                StmtView,
                LowerErrorView,
            >(s@),
            Err(e) => nested(vars@, extents@.map_values(|d: usize| d as nat), inner@) == Err::<
                StmtView,
                LowerErrorView,
            >(e@),
        },
{
    let ghost dims = extents@.map_values(|d: usize| d as nat);
    let mut stmt = inner;
    let mut i: usize = extents.len();
    proof {
        assert(vars@.take(i as int) =~= vars@);
        assert(dims.take(i as int) =~= dims);
    }
    while i > 0
        invariant
            i <= extents@.len(),
            vars@.len() == extents@.len(),
            dims == extents@.map_values(|d: usize| d as nat),
            nest(vars@.take(i as int), dims.take(i as int), stmt@) == nest(vars@, dims, inner@),
            forall|j: int| i <= j < dims.len() ==> #[trigger] dims[j] <= i64::MAX,
        decreases i,
    {
        let hi: i64 = match extent(extents[i - 1]) {
            Ok(hi) => hi,
            Err(e) => {
                assert(dims[i - 1] > i64::MAX);
                return Err(e);
            }
        };
        let ghost before = stmt@;
        let mut body: Vec<Stmt> = Vec::new();
        body.push(stmt);
        let lo_expr = AffineExpr::constant(0);
        let hi_expr = AffineExpr::constant(hi);
        proof {
            lemma_for_view(vars@[i - 1], lo_expr, hi_expr, body);
            assert(stmt_views(body@) =~= seq![before]);
            assert(vars@.take(i as int).drop_last() =~= vars@.take(i - 1));
            assert(dims.take(i as int).drop_last() =~= dims.take(i - 1));
            assert(vars@.take(i as int).last() == vars@[i - 1]);
            assert(dims.take(i as int).last() == dims[i - 1]);
        }
        stmt = Stmt::For { var: vars[i - 1], lo: lo_expr, hi: hi_expr, body };
        i -= 1;
    }
    proof {
        assert(extents_fit(dims));
    }
    Ok(stmt)
}

/// Returns the terms of a row-major index over `shape`.
fn strided_terms(vars: &Vec<Option<LoopVar>>, shape: &Shape, overflow: &str) -> (r: Result<
    Vec<(LoopVar, i64)>,
    LowerError,
>)
    requires
        vars@.len() == shape@.len(),
    ensures
        match r {
            Ok(terms) => strided(vars@, shape@, overflow@) is Ok && strided(
                vars@,
                shape@,
                overflow@,
            )->Ok_0.0 == terms@,
            Err(e) => strided(vars@, shape@, overflow@) == Err::<
                (Seq<(LoopVar, i64)>, nat),
                LowerErrorView,
            >(e@),
        },
{
    let mut stride: usize = 1;
    let mut reversed: Vec<(LoopVar, i64)> = Vec::new();
    let mut i: usize = vars.len();
    proof {
        assert(vars@.skip(i as int) =~= Seq::empty());
        assert(shape@.skip(i as int) =~= Seq::empty());
        assert(reversed@.reverse() =~= Seq::empty());
    }
    while i > 0
        invariant
            i <= vars@.len(),
            vars@.len() == shape@.len(),
            strided(vars@.skip(i as int), shape@.skip(i as int), overflow@) == Ok::<
                (Seq<(LoopVar, i64)>, nat),
                LowerErrorView,
            >((reversed@.reverse(), stride as nat)),
        decreases i,
    {
        let ghost before = reversed@;
        proof {
            assert(vars@.skip(i - 1).drop_first() =~= vars@.skip(i as int));
            assert(shape@.skip(i - 1).drop_first() =~= shape@.skip(i as int));
            assert(vars@.skip(i - 1)[0] == vars@[i - 1]);
            assert(shape@.skip(i - 1)[0] == shape@[i - 1]);
        }
        match vars[i - 1] {
            Some(v) => {
                match extent(stride) {
                    Ok(coeff) => {
                        reversed.push((v, coeff));
                        proof {
                            assert(reversed@.reverse() =~= seq![(v, coeff)] + before.reverse());
                        }
                    }
                    Err(e) => {
                        proof {
                            lemma_strided_error(vars@, shape@, overflow@, i - 1);
                        }
                        return Err(e);
                    }
                }
            }
            None => {}
        }
        match stride.checked_mul(shape.dims[i - 1].0) {
            Some(next) => {
                stride = next;
            }
            None => {
                proof {
                    lemma_strided_error(vars@, shape@, overflow@, i - 1);
                }
                return Err(LowerError::Internal(String::from_str(overflow)));
            }
        }
        i -= 1;
    }
    proof {
        assert(vars@.skip(0) =~= vars@);
        assert(shape@.skip(0) =~= shape@);
    }
    let mut terms: Vec<(LoopVar, i64)> = Vec::new();
    let n: usize = reversed.len();
    let mut k: usize = 0;
    while k < n
        invariant
            k <= n,
            n == reversed@.len(),
            terms@.len() == k,
            forall|j: int| 0 <= j < k ==> terms@[j] == reversed@[n - 1 - j],
        decreases n - k,
    {
        terms.push(reversed[n - 1 - k]);
        k += 1;
    }
    proof {
        assert(terms@ =~= reversed@.reverse());
    }
    Ok(terms)
}

/// An error in the inner strides is the error of the whole.
proof fn lemma_strided_error(
    vars: Seq<Option<LoopVar>>,
    shape: Seq<nat>,
    overflow: Seq<char>,
    n: int,
)
    requires
        0 <= n <= shape.len(),
        vars.len() == shape.len(),
        strided(vars.skip(n), shape.skip(n), overflow) is Err,
    ensures
        strided(vars, shape, overflow) == strided(vars.skip(n), shape.skip(n), overflow),
    decreases n,
{
    if n == 0 {
        assert(vars.skip(0) =~= vars);
        assert(shape.skip(0) =~= shape);
    } else {
        assert(vars.skip(n - 1).drop_first() =~= vars.skip(n));
        assert(shape.skip(n - 1).drop_first() =~= shape.skip(n));
        lemma_strided_error(vars, shape, overflow, n - 1);
    }
}

/// Returns the row-major index over `shape` in the given variables, one for each axis.
///
/// # Errors
///
/// Returns [`LowerError::Internal`] if the rank is another, or a stride does not fit.
pub fn row_major_affine(shape: &Shape, vars: &Vec<LoopVar>) -> (r: Result<AffineExpr, LowerError>)
    ensures
        match r {
            Ok(e) => row_major(vars@, shape@) == Ok::<AffineView, LowerErrorView>(e@),
            Err(e) => row_major(vars@, shape@) == Err::<AffineView, LowerErrorView>(e@),
        },
{
    if vars.len() != shape.rank() {
        return Err(
            LowerError::Internal(String::from_str("affine rank does not match variables")),
        );
    }
    let mut some: Vec<Option<LoopVar>> = Vec::new();
    let mut i: usize = 0;
    while i < vars.len()
        invariant
            i <= vars@.len(),
            some@.len() == i,
            forall|j: int| 0 <= j < i ==> some@[j] == Some(vars@[j]),
        decreases vars@.len() - i,
    {
        some.push(Some(vars[i]));
        i += 1;
    }
    proof {
        assert(some@ =~= all_some(vars@));
    }
    match strided_terms(&some, shape, "row-major stride overflow") {
        Ok(terms) => Ok(AffineExpr::new(terms, 0)),
        Err(e) => Err(e),
    }
}

/// The rank of the reduced tensor.
pub proof fn lemma_reduced_vars_rank(
    vars: Seq<LoopVar>,
    shape: Seq<nat>,
    axes: Seq<usize>,
    keepdim: bool,
)
    requires
        vars.len() == shape.len(),
    ensures
        reduced_vars(vars, axes, keepdim).len() == reduced_shape(shape, axes, keepdim).len(),
    decreases shape.len(),
{
    if shape.len() > 0 {
        lemma_reduced_vars_rank(vars.drop_last(), shape.drop_last(), axes, keepdim);
    }
}

/// Returns the index into the reduced tensor in the variables of the input nest.
///
/// # Errors
///
/// Returns [`LowerError::Internal`] if the output has another rank, or a stride does not fit.
pub fn sum_output_affine(
    input_shape: &Shape,
    output_shape: &Shape,
    axes: &Vec<usize>,
    keepdim: bool,
    vars: &Vec<LoopVar>,
) -> (r: Result<AffineExpr, LowerError>)
    ensures
        match r {
            Ok(e) => sum_output_index(vars@, input_shape@, output_shape@, axes@, keepdim) == Ok::<
                AffineView,
                LowerErrorView,
            >(e@),
            Err(e) => sum_output_index(vars@, input_shape@, output_shape@, axes@, keepdim) == Err::<
                AffineView,
                LowerErrorView,
            >(e@),
        },
{
    let mut kept: Vec<Option<LoopVar>> = Vec::new();
    let mut axis: usize = 0;
    while axis < vars.len()
        invariant
            axis <= vars@.len(),
            kept@ == reduced_vars(vars@.take(axis as int), axes@, keepdim),
        decreases vars@.len() - axis,
    {
        proof {
            assert(vars@.take(axis as int + 1).drop_last() =~= vars@.take(axis as int));
            assert(vars@.take(axis as int + 1).last() == vars@[axis as int]);
        }
        if !lists(axes, axis) {
            kept.push(Some(vars[axis]));
        } else if keepdim {
            kept.push(None);
        }
        axis += 1;
    }
    proof {
        assert(vars@.take(axis as int) =~= vars@);
    }
    if kept.len() != output_shape.rank() {
        return Err(
            LowerError::Internal(
                String::from_str("sum output rank mismatch: input ")
                    .concat(input_shape.to_text().as_str())
                    .concat(", output ")
                    .concat(output_shape.to_text().as_str()),
            ),
        );
    }
    match strided_terms(&kept, output_shape, "sum output stride overflow") {
        Ok(terms) => Ok(AffineExpr::new(terms, 0)),
        Err(e) => Err(e),
    }
}

/// Returns the extents of a shape.
fn extents_of(shape: &Shape) -> (r: Vec<usize>)
    ensures
        r@.len() == shape@.len(),
        r@.map_values(|d: usize| d as nat) == shape@,
{
    let mut out: Vec<usize> = Vec::new();
    let mut i: usize = 0;
    while i < shape.dims.len()
        invariant
            i <= shape@.len(),
            out@.len() == i,
            forall|j: int| 0 <= j < i ==> #[trigger] out@[j] == shape@[j],
        decreases shape@.len() - i,
    {
        out.push(shape.dims[i].0);
        i += 1;
    }
    proof {
        assert(out@.map_values(|d: usize| d as nat) =~= shape@);
    }
    out
}

/// What an elementwise nest computes at each index.
enum ElementOp {
    Binary(BinaryOp, BufferId, BufferId),
    Unary(UnaryOp, BufferId),
    Zero,
}

impl ElementOp {
    /// The scalar expression at an index.
    spec fn expr(self, flat: AffineView) -> ScalarView {
        match self {
            ElementOp::Binary(op, l, r) => binary_expr(op, load(l, flat), load(r, flat)),
            ElementOp::Unary(op, x) => unary_expr(op, load(x, flat)),
            ElementOp::Zero => zero_literal(),
        }
    }

    fn build(&self, flat: &AffineExpr) -> (r: ScalarExpr)
        ensures
            r@ == self.expr(flat@),
    {
        match self {
            ElementOp::Binary(op, l, r) => {
                let left = Box::new(load_expr(*l, flat));
                let right = Box::new(load_expr(*r, flat));
                match op {
                    BinaryOp::Add => ScalarExpr::Add(left, right),
                    BinaryOp::Sub => ScalarExpr::Sub(left, right),
                    BinaryOp::Mul => ScalarExpr::Mul(left, right),
                }
            }
            ElementOp::Unary(op, x) => {
                let input = Box::new(load_expr(*x, flat));
                match op {
                    UnaryOp::Neg => ScalarExpr::Neg(input),
                    UnaryOp::Relu => ScalarExpr::Relu(input),
                }
            }
            ElementOp::Zero => zero_expr(),
        }
    }
}

impl Lowerer {
    fn add_buffer(&mut self, name: String, shape: Shape, role: BufferRole) -> (r: Result<
        BufferId,
        LowerError,
    >)
        ensures
            match r {
                Ok(id) => old(self)@.with_buffer(name@, shape@, role@) == Ok::<
                    (LowerState, BufferId),
                    LowerErrorView,
                >((final(self)@, id)),
                Err(e) => old(self)@.with_buffer(name@, shape@, role@) == Err::<
                    (LowerState, BufferId),
                    LowerErrorView,
                >(e@),
            },
    {
        let n: usize = self.buffers.len();
        if n as u64 > u32::MAX as u64 {
            return Err(LowerError::Internal(String::from_str("id overflow")));
        }
        let id = BufferId(n as u32);
        let buffer = Buffer::new(id, name, shape, role);
        let ghost before = self.buffers@;
        self.buffers.push(buffer);
        proof {
            assert(buffer_views(self.buffers@) =~= buffer_views(before).push(buffer@));
        }
        Ok(id)
    }

    fn fresh_vars(&mut self, rank: usize) -> (r: Result<Vec<LoopVar>, LowerError>)
        ensures
            match r {
                Ok(vars) => old(self)@.with_vars(rank as nat) == Ok::<
                    (LowerState, Seq<LoopVar>),
                    LowerErrorView,
                >((final(self)@, vars@)),
                Err(e) => old(self)@.with_vars(rank as nat) == Err::<
                    (LowerState, Seq<LoopVar>),
                    LowerErrorView,
                >(e@),
            },
    {
        let ghost start = self@;
        let mut vars: Vec<LoopVar> = Vec::new();
        let mut i: usize = 0;
        while i < rank
            invariant
                i <= rank,
                vars@.len() == i,
                start == old(self)@,
                start.next + i <= u32::MAX,
                self@ == (LowerState { next: (start.next + i) as nat, ..start }),
                forall|j: int| 0 <= j < i ==> vars@[j] == LoopVar((start.next + j) as u32),
            decreases rank - i,
        {
            let var: u32 = self.next;
            if var == u32::MAX {
                return Err(LowerError::Internal(String::from_str("loop variable id overflow")));
            }
            self.next = var + 1;
            vars.push(LoopVar(var));
            i += 1;
        }
        proof {
            assert(vars@ =~= vars_from(start.next, rank as nat));
        }
        Ok(vars)
    }

    fn push_stmt(&mut self, stmt: Stmt)
        ensures
            final(self)@ == old(self)@.with_stmt(stmt@),
    {
        let ghost before = self.body@;
        self.body.push(stmt);
        proof {
            assert(stmt_views(self.body@) =~= stmt_views(before).push(stmt@));
        }
    }

    /// Fills a buffer with an elementwise nest.
    fn fill(&mut self, shape: &Shape, out: BufferId, op: ElementOp) -> (r: Result<(), LowerError>)
        ensures
            ({
                let want = match old(self)@.with_vars(shape@.len()) {
                    Err(e) => Err(e),
                    Ok((st2, vars)) => match row_major(vars, shape@) {
                        Err(e) => Err(e),
                        Ok(flat) => match nested(vars, shape@, assign(out, flat, op.expr(flat))) {
                            Err(e) => Err(e),
                            Ok(s) => Ok(st2.with_stmt(s)),
                        },
                    },
                };
                match r {
                    Ok(_) => want == Ok::<LowerState, LowerErrorView>(final(self)@),
                    Err(e) => want == Err::<LowerState, LowerErrorView>(e@),
                }
            }),
    {
        let vars = match self.fresh_vars(shape.rank()) {
            Ok(vars) => vars,
            Err(e) => {
                return Err(e);
            }
        };
        let flat = match row_major_affine(shape, &vars) {
            Ok(flat) => flat,
            Err(e) => {
                return Err(e);
            }
        };
        let value = op.build(&flat);
        let stmt = match nest_loops(&vars, &extents_of(shape), assign_stmt(out, flat, value)) {
            Ok(stmt) => stmt,
            Err(e) => {
                return Err(e);
            }
        };
        self.push_stmt(stmt);
        Ok(())
    }

    fn elementwise(&mut self, shape: &Shape, op: ElementOp) -> (r: Result<BufferId, LowerError>)
        ensures
            match r {
                Ok(id) => lower_elementwise(old(self)@, shape@, |flat: AffineView| op.expr(flat))
                    == Ok::<(LowerState, BufferId), LowerErrorView>((final(self)@, id)),
                Err(e) => lower_elementwise(old(self)@, shape@, |flat: AffineView| op.expr(flat))
                    == Err::<(LowerState, BufferId), LowerErrorView>(e@),
            },
    {
        let out = match self.add_buffer(String::from_str("tmp"), shape.clone(), BufferRole::Temp) {
            Ok(out) => out,
            Err(e) => {
                return Err(e);
            }
        };
        match self.fill(shape, out, op) {
            Ok(()) => Ok(out),
            Err(e) => Err(e),
        }
    }

    fn lower_binary(&mut self, shape: &Shape, left: BufferId, right: BufferId, op: BinaryOp) -> (r:
        Result<BufferId, LowerError>)
        ensures
            match r {
                Ok(id) => lower_binary(old(self)@, shape@, left, right, op) == Ok::<
                    (LowerState, BufferId),
                    LowerErrorView,
                >((final(self)@, id)),
                Err(e) => lower_binary(old(self)@, shape@, left, right, op) == Err::<
                    (LowerState, BufferId),
                    LowerErrorView,
                >(e@),
            },
    {
        self.elementwise(shape, ElementOp::Binary(op, left, right))
    }

    fn lower_unary(&mut self, shape: &Shape, input: BufferId, op: UnaryOp) -> (r: Result<
        BufferId,
        LowerError,
    >)
        ensures
            match r {
                Ok(id) => lower_unary(old(self)@, shape@, input, op) == Ok::<
                    (LowerState, BufferId),
                    LowerErrorView,
                >((final(self)@, id)),
                Err(e) => lower_unary(old(self)@, shape@, input, op) == Err::<
                    (LowerState, BufferId),
                    LowerErrorView,
                >(e@),
            },
    {
        self.elementwise(shape, ElementOp::Unary(op, input))
    }

    fn lower_matmul(
        &mut self,
        shape: &Shape,
        left: BufferId,
        left_shape: &Shape,
        right: BufferId,
        right_shape: &Shape,
    ) -> (r: Result<BufferId, LowerError>)
        requires
            left_shape@.len() == 2,
            right_shape@.len() == 2,
        ensures
            match r {
                Ok(id) => lower_matmul(
                    old(self)@,
                    shape@,
                    left,
                    left_shape@,
                    right,
                    right_shape@,
                ) == Ok::<(LowerState, BufferId), LowerErrorView>((final(self)@, id)),
                Err(e) => lower_matmul(
                    old(self)@,
                    shape@,
                    left,
                    left_shape@,
                    right,
                    right_shape@,
                ) == Err::<(LowerState, BufferId), LowerErrorView>(e@),
            },
    {
        let out = match self.add_buffer(String::from_str("tmp"), shape.clone(), BufferRole::Temp) {
            Ok(out) => out,
            Err(e) => {
                return Err(e);
            }
        };
        let m: usize = left_shape.dim(0);
        let k: usize = left_shape.dim(1);
        let n: usize = right_shape.dim(1);
        let vars = match self.fresh_vars(3) {
            Ok(vars) => vars,
            Err(e) => {
                return Err(e);
            }
        };
        let ghost dims = seq![m as nat, n as nat, k as nat];
        proof {
            assert(dims[0] == m && dims[1] == n && dims[2] == k);
        }
        let m_extent: i64 = match extent(m) {
            Ok(v) => v,
            Err(e) => {
                return Err(e);
            }
        };
        let n_extent: i64 = match extent(n) {
            Ok(v) => v,
            Err(e) => {
                return Err(e);
            }
        };
        let k_extent: i64 = match extent(k) {
            Ok(v) => v,
            Err(e) => {
                return Err(e);
            }
        };
        proof {
            assert(extents_fit(dims));
            assert(extents_fit(seq![m as nat, n as nat]));
        }
        let out_index = AffineExpr::new(vec![(vars[0], n_extent), (vars[1], 1)], 0);
        let lhs_index = AffineExpr::new(vec![(vars[0], k_extent), (vars[2], 1)], 0);
        let rhs_index = AffineExpr::new(vec![(vars[2], n_extent), (vars[1], 1)], 0);
        proof {
            assert(out_index@.terms =~= matrix_index(vars@[0], n as nat, vars@[1]).terms);
            assert(lhs_index@.terms =~= matrix_index(vars@[0], k as nat, vars@[2]).terms);
            assert(rhs_index@.terms =~= matrix_index(vars@[2], n as nat, vars@[1]).terms);
        }
        let outer = vec![vars[0], vars[1]];
        let outer_extents: Vec<usize> = vec![m, n];
        proof {
            assert(outer@ =~= vars@.take(2));
            assert(outer_extents@.map_values(|d: usize| d as nat) =~= seq![m as nat, n as nat]);
        }
        let init = match nest_loops(
            &outer,
            &outer_extents,
            assign_stmt(out, out_index.clone(), zero_expr()),
        ) {
            Ok(init) => init,
            Err(e) => {
                return Err(e);
            }
        };
        proof {
            assert(init@ == nest(
                vars@.take(2),
                seq![m as nat, n as nat],
                assign(out, matrix_index(vars@[0], n as nat, vars@[1]), zero_literal()),
            ));
        }
        self.push_stmt(init);
        let product = ScalarExpr::Mul(
            Box::new(load_expr(left, &lhs_index)),
            Box::new(load_expr(right, &rhs_index)),
        );
        let ghost product_view = product@;
        proof {
            assert(product_view == ScalarView::Mul(
                Box::new(load(left, lhs_index@)),
                Box::new(load(right, rhs_index@)),
            ));
        }
        let acc = ScalarExpr::Add(Box::new(load_expr(out, &out_index)), Box::new(product));
        let all_extents: Vec<usize> = vec![m, n, k];
        proof {
            assert(out_index@ == matrix_index(vars@[0], n as nat, vars@[1]));
            assert(acc@ == ScalarView::Add(
                Box::new(load(out, out_index@)),
                Box::new(product_view),
            ));
            assert(assign(out, out_index@, acc@) == multiply_add(
                out,
                left,
                right,
                vars@,
                k as nat,
                n as nat,
            ));
            assert(all_extents@.map_values(|d: usize| d as nat) =~= dims);
        }
        let step = match nest_loops(&vars, &all_extents, assign_stmt(out, out_index, acc)) {
            Ok(step) => step,
            Err(e) => {
                return Err(e);
            }
        };
        proof {
            assert(step@ == nest(
                vars@,
                dims,
                multiply_add(out, left, right, vars@, k as nat, n as nat),
            ));
        }
        self.push_stmt(step);
        Ok(out)
    }

    fn lower_sum(
        &mut self,
        shape: &Shape,
        input: BufferId,
        input_shape: &Shape,
        axes: &Vec<usize>,
        keepdim: bool,
    ) -> (r: Result<BufferId, LowerError>)
        requires
            shape@ == reduced_shape(input_shape@, axes@, keepdim),
        ensures
            match r {
                Ok(id) => lower_sum(old(self)@, shape@, input, input_shape@, axes@, keepdim)
                    == Ok::<(LowerState, BufferId), LowerErrorView>((final(self)@, id)),
                Err(e) => lower_sum(old(self)@, shape@, input, input_shape@, axes@, keepdim)
                    == Err::<(LowerState, BufferId), LowerErrorView>(e@),
            },
    {
        let out = match self.add_buffer(String::from_str("tmp"), shape.clone(), BufferRole::Temp) {
            Ok(out) => out,
            Err(e) => {
                return Err(e);
            }
        };
        match self.fill(shape, out, ElementOp::Zero) {
            Ok(()) => {}
            Err(e) => {
                return Err(e);
            }
        }
        let vars = match self.fresh_vars(input_shape.rank()) {
            Ok(vars) => vars,
            Err(e) => {
                return Err(e);
            }
        };
        let input_flat = match row_major_affine(input_shape, &vars) {
            Ok(flat) => flat,
            Err(e) => {
                return Err(e);
            }
        };
        let output_flat = match sum_output_affine(input_shape, shape, axes, keepdim, &vars) {
            Ok(flat) => flat,
            Err(e) => {
                return Err(e);
            }
        };
        let value = ScalarExpr::Add(
            Box::new(load_expr(out, &output_flat)),
            Box::new(load_expr(input, &input_flat)),
        );
        let stmt = match nest_loops(
            &vars,
            &extents_of(input_shape),
            assign_stmt(out, output_flat, value),
        ) {
            Ok(stmt) => stmt,
            Err(e) => {
                return Err(e);
            }
        };
        self.push_stmt(stmt);
        Ok(out)
    }

    fn lower_node(
        &mut self,
        op: &Op,
        ty: &TensorType,
        types: &GraphTypes,
        placed: &Vec<Option<BufferId>>,
        Ghost(before): Ghost<Seq<TypeView>>,
    ) -> (r: Result<BufferId, LowerError>)
        requires
            placed@.len() == types@.len(),
            forall|k: int|
                0 <= k < op@.operands().len() ==> (#[trigger] op@.operands()[k]).0 < placed@.len()
                    && placed@[op@.operands()[k].0 as int] is Some
                    && op@.operands()[k].0 < before.len()
                    && before[op@.operands()[k].0 as int] == types@[op@.operands()[k].0 as int],
            node_type(op@, before) == Ok::<TypeView, TypeErrorView>(ty@),
        ensures
            match r {
                Ok(id) => lower_node(old(self)@, op@, ty@, types@, placed@) == Ok::<
                    (LowerState, BufferId),
                    LowerErrorView,
                >((final(self)@, id)),
                Err(e) => lower_node(old(self)@, op@, ty@, types@, placed@) == Err::<
                    (LowerState, BufferId),
                    LowerErrorView,
                >(e@),
            },
    {
        proof {
            let operands = op@.operands();
            if operands.len() > 0 {
                assert(operands[0].0 < placed@.len());
            }
            if operands.len() > 1 {
                assert(operands[1].0 < placed@.len());
            }
        }
        match op {
            Op::Input { name, .. } => {
                if ty.dtype == DType::Bool {
                    return Err(LowerError::Unsupported(String::from_str("bool input")));
                }
                match self.add_buffer(
                    name.clone(),
                    ty.shape.clone(),
                    BufferRole::Input(name.clone()),
                ) {
                    Ok(id) => {
                        self.inputs.push(id);
                        Ok(id)
                    }
                    Err(e) => Err(e),
                }
            }
            Op::Const { data, shape } => {
                if data.dtype() == DType::Bool {
                    return Err(LowerError::Unsupported(String::from_str("bool constant")));
                }
                self.add_buffer(
                    String::from_str("const"),
                    shape.clone(),
                    BufferRole::Const(data.clone()),
                )
            }
            Op::Add(left, right) => self.lower_binary(
                &ty.shape,
                placed_buffer(placed, *left),
                placed_buffer(placed, *right),
                BinaryOp::Add,
            ),
            Op::Sub(left, right) => self.lower_binary(
                &ty.shape,
                placed_buffer(placed, *left),
                placed_buffer(placed, *right),
                BinaryOp::Sub,
            ),
            Op::Mul(left, right) => self.lower_binary(
                &ty.shape,
                placed_buffer(placed, *left),
                placed_buffer(placed, *right),
                BinaryOp::Mul,
            ),
            Op::Neg(input) => self.lower_unary(
                &ty.shape,
                placed_buffer(placed, *input),
                UnaryOp::Neg,
            ),
            Op::Relu(input) => self.lower_unary(
                &ty.shape,
                placed_buffer(placed, *input),
                UnaryOp::Relu,
            ),
            Op::Matmul(left, right) => self.lower_matmul(
                &ty.shape,
                placed_buffer(placed, *left),
                &types.types[left.0].shape,
                placed_buffer(placed, *right),
                &types.types[right.0].shape,
            ),
            Op::Sum { input, axes, keepdim } => self.lower_sum(
                &ty.shape,
                placed_buffer(placed, *input),
                &types.types[input.0].shape,
                axes,
                *keepdim,
            ),
            Op::Reshape { input, .. } => Ok(placed_buffer(placed, *input)),
        }
    }
}

/// Returns the buffer that a node was lowered to.
fn placed_buffer(placed: &Vec<Option<BufferId>>, id: NodeId) -> (r: BufferId)
    requires
        id.0 < placed@.len(),
        placed@[id.0 as int] is Some,
    ensures
        r == buffer_of(placed@, id),
{
    match placed[id.0] {
        Some(buffer) => buffer,
        None => BufferId(0),
    }
}

/// Every node before place `n` is lowered, and only those.
pub open spec fn placed_upto(
    placed: Seq<Option<BufferId>>,
    order: Seq<NodeId>,
    n: int,
) -> bool {
    forall|p: int| 0 <= p < n ==> placed[(#[trigger] order[p]).0 as int] is Some
}

/// Lowers a graph into an affine loop kernel.
///
/// Reshape is lowered as a free alias: its result buffer is the operand
/// buffer, with no copy and no emitted statement.
///
/// # Errors
///
/// Returns [`LowerError`] if the graph is ill-typed, holds booleans, or an id
/// or extent overflows.
pub fn lower(graph: &Graph) -> (r: Result<Kernel, LowerError>)
    ensures
        match r {
            Ok(kernel) => lower_graph(graph@) == Ok::<KernelView, LowerErrorView>(kernel@),
            Err(e) => lower_graph(graph@) == Err::<KernelView, LowerErrorView>(e@),
        },
{
    let types = match infer_types(graph) {
        Ok(types) => types,
        Err(e) => {
            return Err(LowerError::Type(e));
        }
    };
    let order = match graph.topo_order() {
        Ok(order) => order,
        Err(e) => {
            return Err(LowerError::Type(TypeError::Structure(e)));
        }
    };
    let ghost nodes = graph@.nodes;
    let n: usize = graph.nodes.len();
    let mut lowerer = Lowerer {
        buffers: Vec::new(),
        body: Vec::new(),
        inputs: Vec::new(),
        next: 0,
    };
    let mut placed: Vec<Option<BufferId>> = Vec::new();
    let mut i: usize = 0;
    while i < n
        invariant
            i <= n,
            placed@.len() == i,
            forall|j: int| 0 <= j < i ==> placed@[j] is None,
        decreases n - i,
    {
        placed.push(None);
        i += 1;
    }
    proof {
        assert(placed@ =~= none_placed(nodes.len()));
        assert(lowerer@.buffers =~= Seq::empty());
        assert(lowerer@.body =~= Seq::empty());
        assert(lowerer@ == LowerState::empty());
        crate::infer::lemma_infer_prefix(nodes, nodes.len());
    }
    let mut p: usize = 0;
    while p < order.len()
        invariant
            p <= order@.len(),
            nodes == graph@.nodes,
            n == nodes.len(),
            well_formed(graph@),
            schedule(nodes, order@),
            types@.len() == n,
            placed@.len() == n,
            infer_graph(graph@) == Ok::<Seq<TypeView>, TypeErrorView>(types@),
            topo(nodes) == Ok::<Seq<NodeId>, crate::error::IrError>(order@),
            forall|j: int|
                0 <= j < n ==> node_type(#[trigger] nodes[j], types@.take(j)) == Ok::<
                    TypeView,
                    TypeErrorView,
                >(types@[j]),
            lower_along(nodes, types@, order@, p as nat) == Ok::<
                (LowerState, Seq<Option<BufferId>>),
                LowerErrorView,
            >((lowerer@, placed@)),
            placed_upto(placed@, order@, p as int),
        decreases order@.len() - p,
    {
        let id: NodeId = order[p];
        proof {
            assert(operands_within(nodes, order@, order@[p as int], p as int));
            reveal(operands_within);
            let i = id.0 as int;
            assert(i < nodes.len());
            assert(node_type(nodes[i], types@.take(i)) is Ok);
            assert forall|k: int| 0 <= k < nodes[i].operands().len() implies (
            #[trigger] nodes[i].operands()[k]).0 < i
                && placed@[nodes[i].operands()[k].0 as int] is Some by {
                let o = nodes[i].operands()[k];
                assert(crate::graph::ordered(nodes));
                assert(order@.take(p as int).contains(o));
                let q = order@.take(p as int).index_of(o);
                assert(order@.take(p as int)[q] == o);
                assert(order@[q] == o);
            }
        }
        match lowerer.lower_node(
            &graph.nodes[id.0].op,
            &types.types[id.0],
            &types,
            &placed,
            Ghost(types@.take(id.0 as int)),
        ) {
            Ok(buffer) => {
                let ghost before = placed@;
                placed.set(id.0, Some(buffer));
                proof {
                    assert forall|q: int| 0 <= q < p + 1 implies placed@[(
                    #[trigger] order@[q]).0 as int] is Some by {
                        if order@[q].0 != id.0 {
                            assert(before[order@[q].0 as int] is Some);
                        }
                    }
                }
            }
            Err(e) => {
                proof {
                    lemma_along_error(nodes, types@, order@, (p + 1) as nat, order@.len());
                }
                return Err(e);
            }
        }
        p += 1;
    }
    let mut outputs: Vec<BufferId> = Vec::new();
    let mut output_shapes: Vec<Shape> = Vec::new();
    proof {
        crate::topo::lemma_pigeonhole(order@, nodes.len());
    }
    let mut k: usize = 0;
    while k < graph.outputs.len()
        invariant
            k <= graph@.outputs.len(),
            well_formed(graph@),
            nodes == graph@.nodes,
            types@.len() == nodes.len(),
            placed@.len() == nodes.len(),
            order@.len() == nodes.len(),
            placed_upto(placed@, order@, order@.len() as int),
            forall|v: usize| v < nodes.len() ==> #[trigger] order@.contains(NodeId(v)),
            outputs@.len() == k,
            output_shapes@.len() == k,
            forall|j: int|
                0 <= j < k ==> #[trigger] outputs@[j] == buffer_of(placed@, graph@.outputs[j]),
            forall|j: int|
                0 <= j < k ==> (#[trigger] output_shapes@[j])@
                    == types@[graph@.outputs[j].0 as int].shape,
        decreases graph@.outputs.len() - k,
    {
        let id: NodeId = graph.outputs[k];
        proof {
            assert(graph@.outputs[k as int].0 < nodes.len());
            assert(order@.contains(NodeId(id.0)));
            let q = order@.index_of(NodeId(id.0));
            assert(order@[q] == id);
        }
        outputs.push(placed_buffer(&placed, id));
        output_shapes.push(types.types[id.0].shape.clone());
        k += 1;
    }
    proof {
        assert(outputs@ =~= graph@.outputs.map_values(|id: NodeId| buffer_of(placed@, id)));
        assert(shape_views(output_shapes@) =~= graph@.outputs.map_values(
            |id: NodeId| types@[id.0 as int].shape,
        ));
    }
    Ok(
        Kernel::new_with_output_shapes(
            lowerer.buffers,
            lowerer.body,
            lowerer.inputs,
            outputs,
            output_shapes,
        ),
    )
}

} // verus!

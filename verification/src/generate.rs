//! Well-typed random graphs.
use rand::rngs::StdRng;
use vstd::arithmetic::power::pow;
use vstd::prelude::*;

use crate::bindings::Bindings;
use crate::builder::{
    append_error, appending_keeps_construction, lemma_append_error, under_construction,
    GraphBuilder,
};
use crate::draws::{
    clamped, doubles, drawn_data, drawn_double, drawn_integer, drawn_single, extent_limit,
    extents_within, half_in_double, integers, lemma_numel_pair, lemma_positive, numeric_dtype,
    numeric_of, positive, random_axes, random_dim, random_index, random_matrix_shape,
    random_reshape_shape, random_shape, reshape_choices, reshape_choices_are_positive,
    reshape_choices_keep_the_count, tensor_data_for_shape, GenConfig,
};
use crate::data::DataView;
use crate::domain::Exact;
use crate::dtype::DType;
use crate::error::IrError;
use crate::eval::{bound, eval_graph, leaf_error, leaf_errors};
use crate::float::{finite32, finite64, value64};
use crate::graph::{well_formed, Graph, GraphView};
use crate::infer::{
    infer_graph, infer_nodes, node_type, reduced_shape, reduces, sum_output_shape, TypeErrorView,
};
use crate::op::{NodeId, Op, OpView};
use crate::random::{draw_coin, draw_u64, pick_i32_from, seeded, Draw};
use crate::rational::two_to;
use crate::shape::{numel, numel_fits, Dim, Shape};
use crate::soundness::{inputs_filled, well_typed_graphs_evaluate};
use crate::supply::{declared, lemma_served_insert, lemma_served_more, listed, served};
use crate::tensor::{data_error, lifted, meaning, Tensor};
use crate::tensor_type::{TensorType, TypeView};
use crate::text::{decimal, index_text, string_views};

verus! {

/// Pattern guaranteed to occur in a generated graph.
#[derive(Debug, Clone, Copy, PartialEq, Eq, Structural)]
pub enum Pattern {
    /// Nested negation, `neg(neg(x))`.
    NegNeg,
    /// Nested `ReLU`, `relu(relu(x))`.
    ReluRelu,
    /// Nested reshape, `reshape(reshape(x))`.
    ReshapeReshape,
}

/// A value of the graph under construction, with its type.
#[derive(Debug)]
pub struct Value {
    pub id: NodeId,
    pub ty: TensorType,
}

impl Clone for Value {
    fn clone(&self) -> (r: Self)
        ensures
            r.id == self.id,
            r.ty@ == self.ty@,
    {
        Value { id: self.id, ty: self.ty.clone() }
    }
}

/// The name of the input at `i`.
pub open spec fn input_name(i: nat) -> Seq<char> {
    "x"@ + decimal(i)
}

/// The inputs of a graph have the listed names, which are numbered.
pub open spec fn names_inputs(g: GraphView, names: Seq<Seq<char>>) -> bool {
    names.len() == g.inputs.len() && forall|i: int|
        0 <= i < g.inputs.len() ==> g.nodes[(#[trigger] g.inputs[i]).0 as int] is Input
            && g.nodes[g.inputs[i].0 as int]->Input_name == names[i] && names[i] == input_name(
            i as nat,
        )
}

/// The values are nodes of the graph.
pub open spec fn live(g: GraphView, pool: Seq<Value>) -> bool {
    forall|i: int| 0 <= i < pool.len() ==> (#[trigger] pool[i]).id.0 < g.nodes.len()
}

/// The node at `i` is among the inputs.
pub open spec fn is_listed(g: GraphView, i: int) -> bool {
    exists|k: int| 0 <= k < g.inputs.len() && (#[trigger] g.inputs[k]).0 == i
}

/// Every leaf has a numeric value once the inputs are bound: inputs are numeric and listed, and
/// constants are numeric and finite.
pub open spec fn leaves_ready(g: GraphView) -> bool {
    forall|i: int|
        0 <= i < g.nodes.len() ==> match #[trigger] g.nodes[i] {
            OpView::Input { name, ty } => ty.dtype.numeric() && is_listed(g, i),
            OpView::Const { data, shape } => data_error(data) is None,
            _ => true,
        }
}

/// The shape of a leaf at `i`: one to three positive extents within the limit, or a fresh right
/// factor, whose rows match the left factor and whose columns are within the limit.
pub open spec fn leaf_shape(nodes: Seq<OpView>, i: int, shape: Seq<nat>, limit: nat) -> bool {
    &&& 1 <= shape.len() <= 3
    &&& positive(shape)
    &&& extents_within(shape, limit) || (shape.len() == 2 && shape[1] <= limit && is_right_factor(
        nodes,
        i,
    ))
}

/// The node after `i` is a matrix product with `i` on the right.
pub open spec fn is_right_factor(nodes: Seq<OpView>, i: int) -> bool {
    i + 1 < nodes.len() && nodes[i + 1] is Matmul && nodes[i + 1]->Matmul_1 == NodeId(i as usize)
}

/// A leaf at `i` is of the configured dtype, extents and values.
pub open spec fn leaf_drawn(nodes: Seq<OpView>, i: int, cfg: GenConfig) -> bool {
    match nodes[i] {
        OpView::Input { name, ty } => ty.dtype == numeric_of(cfg.dtype) && leaf_shape(
            nodes,
            i,
            ty.shape,
            extent_limit(cfg),
        ),
        OpView::Const { data, shape } => data.dtype() == numeric_of(cfg.dtype) && drawn_data(
            data,
            cfg.value_range,
        ) && leaf_shape(nodes, i, shape, extent_limit(cfg)),
        _ => true,
    }
}

/// Every leaf is of the configured dtype, extents and values.
pub open spec fn leaves_drawn(nodes: Seq<OpView>, cfg: GenConfig) -> bool {
    forall|i: int| 0 <= i < nodes.len() ==> #[trigger] leaf_drawn(nodes, i, cfg)
}

/// Whether an operation is a leaf.
pub open spec fn is_leaf(op: OpView) -> bool {
    op is Input || op is Const
}

/// The operation is of the kind that the number stands for.
pub open spec fn of_kind(op: OpView, kind: int) -> bool {
    match op {
        OpView::Input { .. } | OpView::Const { .. } => kind == 0,
        OpView::Add(..) => kind == 1,
        OpView::Sub(..) => kind == 2,
        OpView::Mul(..) => kind == 3,
        OpView::Neg(..) => kind == 4,
        OpView::Relu(..) => kind == 5,
        OpView::Matmul(..) => kind == 6,
        OpView::Sum { .. } => kind == 7,
        OpView::Reshape { .. } => kind == 8,
    }
}

/// One operation more, which is no leaf.
pub open spec fn one_operation(before: Seq<OpView>, after: Seq<OpView>) -> bool {
    after.len() == before.len() + 1 && after.drop_last() == before && !is_leaf(after.last())
}

/// One leaf more, of the given type and of drawn values.
pub open spec fn one_leaf(
    before: Seq<OpView>,
    after: Seq<OpView>,
    ty: TypeView,
    value_range: i64,
) -> bool {
    &&& after.len() == before.len() + 1
    &&& after.drop_last() == before
    &&& match after.last() {
        OpView::Input { name, ty: declared } => declared == ty,
        OpView::Const { data, shape } => data.dtype() == ty.dtype && shape == ty.shape
            && drawn_data(data, value_range),
        _ => false,
    }
}

/// One more node keeps the leaves as they were drawn.
proof fn lemma_leaves_stay(before: Seq<OpView>, after: Seq<OpView>, cfg: GenConfig)
    requires
        leaves_drawn(before, cfg),
        after.len() == before.len() + 1,
        after.drop_last() == before,
    ensures
        forall|i: int| 0 <= i < before.len() ==> #[trigger] leaf_drawn(after, i, cfg),
        !is_leaf(after.last()) ==> leaves_drawn(after, cfg),
{
    assert forall|i: int| 0 <= i < before.len() implies #[trigger] leaf_drawn(after, i, cfg) by {
        assert(leaf_drawn(before, i, cfg));
        assert(after[i] == before[i]);
        if is_right_factor(before, i) {
            assert(after[i + 1] == before[i + 1]);
        }
    }
}

/// A leaf of a drawn shape keeps the leaves drawn.
proof fn lemma_leaf_joins(
    before: Seq<OpView>,
    after: Seq<OpView>,
    ty: TypeView,
    cfg: GenConfig,
)
    requires
        leaves_drawn(before, cfg),
        one_leaf(before, after, ty, cfg.value_range),
        ty.dtype == numeric_of(cfg.dtype),
        1 <= ty.shape.len() <= 3,
        positive(ty.shape),
        extents_within(ty.shape, extent_limit(cfg)),
    ensures
        leaves_drawn(after, cfg),
{
    lemma_leaves_stay(before, after, cfg);
    assert(leaf_drawn(after, before.len() as int, cfg));
}

/// A fresh right factor and its product keep the leaves drawn.
proof fn lemma_factor_joins(
    before: Seq<OpView>,
    middle: Seq<OpView>,
    after: Seq<OpView>,
    ty: TypeView,
    cfg: GenConfig,
)
    requires
        leaves_drawn(before, cfg),
        one_leaf(before, middle, ty, cfg.value_range),
        one_operation(middle, after),
        after.last() is Matmul,
        after.last()->Matmul_1 == NodeId(before.len() as usize),
        ty.dtype == numeric_of(cfg.dtype),
        ty.shape.len() == 2,
        positive(ty.shape),
        ty.shape[1] <= extent_limit(cfg),
    ensures
        leaves_drawn(after, cfg),
{
    lemma_leaves_stay(before, middle, cfg);
    let n = before.len() as int;
    assert forall|i: int| 0 <= i < after.len() implies #[trigger] leaf_drawn(after, i, cfg) by {
        if i < n {
            assert(leaf_drawn(middle, i, cfg));
            assert(after[i] == middle[i]);
            if is_right_factor(middle, i) {
                assert(after[i + 1] == middle[i + 1]);
            }
        } else if i == n {
            assert(after[i] == middle[i]);
            assert(middle[i] == middle.last());
            assert(after[i + 1] == after.last());
            assert(is_right_factor(after, i));
        }
    }
}

/// A graph that is being generated, with the names of its inputs and some of its values.
pub open spec fn growing(g: GraphView, names: Seq<Seq<char>>, pool: Seq<Value>) -> bool {
    under_construction(g) && names_inputs(g, names) && leaves_ready(g) && live(g, pool)
        && g.outputs.len() == 0
}

/// A type of the given dtype with at least one and at most `bound` elements.
pub open spec fn type_within(ty: TypeView, dtype: DType, bound: nat) -> bool {
    ty.dtype == dtype && dtype.numeric() && positive(ty.shape) && numel(ty.shape) <= bound
}

/// Every type is of the given dtype with at least one and at most `bound` elements.
pub open spec fn types_within(types: Seq<TypeView>, dtype: DType, bound: nat) -> bool {
    forall|i: int| 0 <= i < types.len() ==> type_within(#[trigger] types[i], dtype, bound)
}

/// The graph is well-typed so far, and the values have the types that they are noted with.
pub open spec fn typed(g: GraphView, pool: Seq<Value>, dtype: DType, bound: nat) -> bool {
    &&& infer_nodes(g.nodes, g.nodes.len()) is Ok
    &&& types_within(infer_nodes(g.nodes, g.nodes.len())->Ok_0, dtype, bound)
    &&& forall|i: int|
        0 <= i < pool.len() ==> type_within((#[trigger] pool[i]).ty@, dtype, bound) && infer_nodes(
            g.nodes,
            g.nodes.len(),
        )->Ok_0[pool[i].id.0 as int] == pool[i].ty@
}

/// The values are of one dtype, with extents of at least one.
pub open spec fn sound_types(pool: Seq<Value>, dtype: DType) -> bool {
    forall|i: int|
        0 <= i < pool.len() ==> (#[trigger] pool[i]).ty.dtype == dtype && positive(
            pool[i].ty@.shape,
        )
}

/// The types so far do not depend on later nodes.
proof fn lemma_types_stay(a: Seq<OpView>, b: Seq<OpView>, n: nat)
    requires
        n <= a.len(),
        n <= b.len(),
        forall|i: int| 0 <= i < n ==> a[i] == b[i],
    ensures
        infer_nodes(a, n) == infer_nodes(b, n),
    decreases n,
{
    if n > 0 {
        lemma_types_stay(a, b, (n - 1) as nat);
    }
}

/// Appending a node that is no input.
proof fn lemma_grow(
    g: GraphView,
    names: Seq<Seq<char>>,
    pool: Seq<Value>,
    op: OpView,
    v: Value,
    dtype: DType,
    bound: nat,
    wider: nat,
)
    requires
        growing(g, names, pool),
        g.nodes.len() < usize::MAX,
        append_error(g.nodes.len(), op) is None,
        v.id == NodeId(g.nodes.len() as usize),
        bound <= wider,
        !(op is Input),
        match op {
            OpView::Const { data, shape } => data_error(data) is None,
            _ => true,
        },
    ensures
        growing(g.with_node(op), names, pool.push(v)),
        typed(g, pool, dtype, bound) && type_within(v.ty@, dtype, wider) && node_type(
            op,
            infer_nodes(g.nodes, g.nodes.len())->Ok_0,
        ) == Ok::<TypeView, TypeErrorView>(v.ty@) ==> typed(
            g.with_node(op),
            pool.push(v),
            dtype,
            wider,
        ),
{
    appending_keeps_construction(g, op);
    let after = g.with_node(op);
    assert forall|i: int| 0 <= i < after.inputs.len() implies after.nodes[(
    #[trigger] after.inputs[i]).0 as int] is Input && after.nodes[after.inputs[i].0 as int]->Input_name
        == names[i] && names[i] == input_name(i as nat) by {
        assert(g.inputs[i].0 < g.nodes.len());
        assert(after.nodes[g.inputs[i].0 as int] == g.nodes[g.inputs[i].0 as int]);
    }
    assert forall|i: int| 0 <= i < after.nodes.len() implies match #[trigger] after.nodes[i] {
        OpView::Input { name, ty } => ty.dtype.numeric() && is_listed(after, i),
        OpView::Const { data, shape } => data_error(data) is None,
        _ => true,
    } by {
        if i < g.nodes.len() {
            assert(after.nodes[i] == g.nodes[i]);
            if g.nodes[i] is Input {
                assert(is_listed(g, i));
            }
        }
    }
    lemma_grow_types(g, pool, op, v, dtype, bound, wider);
}

/// Appending a node keeps what is known of types.
proof fn lemma_grow_types(
    g: GraphView,
    pool: Seq<Value>,
    op: OpView,
    v: Value,
    dtype: DType,
    bound: nat,
    wider: nat,
)
    requires
        live(g, pool),
        g.nodes.len() < usize::MAX,
        v.id == NodeId(g.nodes.len() as usize),
        bound <= wider,
    ensures
        live(g.with_node(op), pool.push(v)),
        typed(g, pool, dtype, bound) && type_within(v.ty@, dtype, wider) && node_type(
            op,
            infer_nodes(g.nodes, g.nodes.len())->Ok_0,
        ) == Ok::<TypeView, TypeErrorView>(v.ty@) ==> typed(
            g.with_node(op),
            pool.push(v),
            dtype,
            wider,
        ),
{
    let after = g.with_node(op);
    let n = g.nodes.len();
    lemma_types_stay(g.nodes, after.nodes, n);
    if typed(g, pool, dtype, bound) && type_within(v.ty@, dtype, wider) && node_type(
        op,
        infer_nodes(g.nodes, n)->Ok_0,
    ) == Ok::<TypeView, TypeErrorView>(v.ty@) {
        let types = infer_nodes(g.nodes, n)->Ok_0;
        crate::infer::lemma_infer_prefix(g.nodes, n);
        assert(infer_nodes(after.nodes, n + 1) == Ok::<Seq<TypeView>, TypeErrorView>(
            types.push(v.ty@),
        ));
        assert forall|i: int| 0 <= i < types.push(v.ty@).len() implies type_within(
            #[trigger] types.push(v.ty@)[i],
            dtype,
            wider,
        ) by {
            if i < n {
                assert(type_within(types[i], dtype, bound));
            }
        }
        assert forall|i: int| 0 <= i < pool.push(v).len() implies type_within(
            (#[trigger] pool.push(v)[i]).ty@,
            dtype,
            wider,
        ) && types.push(v.ty@)[pool.push(v)[i].id.0 as int] == pool.push(v)[i].ty@ by {
            if i < pool.len() {
                assert(pool.push(v)[i] == pool[i]);
            }
        }
    }
}

/// Appending a numbered input.
proof fn lemma_grow_input(
    g: GraphView,
    names: Seq<Seq<char>>,
    pool: Seq<Value>,
    v: Value,
    dtype: DType,
    bound: nat,
)
    requires
        growing(g, names, pool),
        g.nodes.len() < usize::MAX,
        v.id == NodeId(g.nodes.len() as usize),
        v.ty.dtype.numeric(),
    ensures
        ({
            let name = input_name(names.len());
            let after = g.with_node(OpView::Input { name, ty: v.ty@ });
            &&& growing(after, names.push(name), pool.push(v))
            &&& typed(g, pool, dtype, bound) && type_within(v.ty@, dtype, bound) ==> typed(
                after,
                pool.push(v),
                dtype,
                bound,
            )
        }),
{
    let name = input_name(names.len());
    let op = OpView::Input { name, ty: v.ty@ };
    lemma_append_error(g.nodes.len(), op);
    appending_keeps_construction(g, op);
    let after = g.with_node(op);
    let longer = names.push(name);
    assert forall|i: int| 0 <= i < after.inputs.len() implies after.nodes[(
    #[trigger] after.inputs[i]).0 as int] is Input && after.nodes[after.inputs[i].0 as int]->Input_name
        == longer[i] && longer[i] == input_name(i as nat) by {
        if i < g.inputs.len() {
            assert(g.inputs[i].0 < g.nodes.len());
            assert(after.nodes[g.inputs[i].0 as int] == g.nodes[g.inputs[i].0 as int]);
        }
    }
    assert forall|i: int| 0 <= i < after.nodes.len() implies match #[trigger] after.nodes[i] {
        OpView::Input { name, ty } => ty.dtype.numeric() && is_listed(after, i),
        OpView::Const { data, shape } => data_error(data) is None,
        _ => true,
    } by {
        if i < g.nodes.len() {
            assert(after.nodes[i] == g.nodes[i]);
            if g.nodes[i] is Input {
                assert(is_listed(g, i));
                let k = choose|k: int| 0 <= k < g.inputs.len() && (#[trigger] g.inputs[k]).0 == i;
                assert(after.inputs[k].0 == i);
            }
        } else {
            assert(after.inputs[g.inputs.len() as int].0 == i);
        }
    }
    lemma_grow_types(g, pool, op, v, dtype, bound, bound);
}

/// Drawn payloads are numeric and finite.
proof fn lemma_drawn_data(data: DataView, value_range: i64)
    requires
        drawn_data(data, value_range),
    ensures
        data_error(data) is None,
{
    match data {
        DataView::F32(v) => {
            assert forall|i: int| 0 <= i < v.len() implies finite32(#[trigger] v[i]) by {
                assert(drawn_single(v[i], value_range));
            }
        },
        DataView::F64(v) => {
            assert forall|i: int| 0 <= i < v.len() implies finite64(#[trigger] v[i]) by {
                assert(drawn_double(v[i], value_range));
            }
        },
        _ => {},
    }
}

/// Appends an input or a constant of the given type.
fn append_leaf_of_type(
    builder: &mut GraphBuilder,
    input_names: &mut Vec<String>,
    cfg: &GenConfig,
    rng: &mut StdRng,
    ty: &TensorType,
    Ghost(pool): Ghost<Seq<Value>>,
    Ghost(bound): Ghost<nat>,
) -> (r: Result<Value, IrError>)
    requires
        growing(old(builder)@, string_views(old(input_names)@), pool),
        ty.dtype == numeric_of(cfg.dtype),
        positive(ty@.shape),
    ensures
        match r {
            Ok(v) => v.ty@ == ty@ && growing(
                final(builder)@,
                string_views(final(input_names)@),
                pool.push(v),
            ) && (numel(ty@.shape) <= bound && typed(old(builder)@, pool, ty.dtype, bound)
                ==> typed(final(builder)@, pool.push(v), ty.dtype, bound)) && one_leaf(
                old(builder)@.nodes,
                final(builder)@.nodes,
                ty@,
                cfg.value_range,
            ) && v.id == NodeId(old(builder)@.nodes.len() as usize) && v.id.0 == old(
                builder,
            )@.nodes.len(),
            Err(e) => e == IrError::ShapeOverflow && numel(ty@.shape) > usize::MAX,
        },
{
    let ghost g = builder@;
    let ghost names = string_views(input_names@);
    let n: usize = builder.nodes.len();
    if draw_coin(rng) {
        let name = String::from_str("x").concat(index_text(input_names.len()).as_str());
        let id = builder.input(name.as_str(), ty.dtype, ty.shape.clone())?;
        let v = Value { id, ty: ty.clone() };
        proof {
            lemma_append_error(
                g.nodes.len(),
                OpView::Input { name: name@, ty: ty@ },
            );
            assert(builder@.nodes.len() == n + 1);
            assert(builder.nodes.len() == n + 1);
            lemma_grow_input(g, names, pool, v, ty.dtype, bound);
            assert(builder@.nodes.drop_last() =~= g.nodes);
        }
        input_names.push(name);
        proof {
            assert(string_views(input_names@) =~= names.push(name@));
        }
        Ok(v)
    } else {
        proof {
            lemma_positive(ty@.shape);
        }
        let data = tensor_data_for_shape(ty.dtype, &ty.shape, cfg.value_range, rng)?;
        let ghost op = OpView::Const { data: data@, shape: ty@.shape };
        proof {
            crate::shape::lemma_numel_fits_prefix(ty@.shape, 0);
            lemma_append_error(g.nodes.len(), op);
            lemma_drawn_data(data@, cfg.value_range);
        }
        let id = builder.constant(data, ty.shape.clone())?;
        let v = Value { id, ty: ty.clone() };
        proof {
            assert(builder@.nodes.len() == n + 1);
            assert(builder.nodes.len() == n + 1);
            lemma_grow(g, names, pool, op, v, ty.dtype, bound, bound);
            assert(builder@.nodes.drop_last() =~= g.nodes);
        }
        Ok(v)
    }
}

/// Appends an operation whose operands are at hand.
fn append_op(
    builder: &mut GraphBuilder,
    op: Op,
    ty: TensorType,
    Ghost(names): Ghost<Seq<Seq<char>>>,
    Ghost(pool): Ghost<Seq<Value>>,
    Ghost(dtype): Ghost<DType>,
    Ghost(bound): Ghost<nat>,
    Ghost(wider): Ghost<nat>,
) -> (r: Result<Value, IrError>)
    requires
        growing(old(builder)@, names, pool),
        !(op@ is Input),
        !(op@ is Const),
        forall|k: int|
            0 <= k < op@.operands().len() ==> (#[trigger] op@.operands()[k]).0 < old(
                builder,
            )@.nodes.len(),
        bound <= wider,
        typed(old(builder)@, pool, dtype, bound) && wider <= usize::MAX ==> type_within(
            ty@,
            dtype,
            wider,
        ) && node_type(
            op@,
            infer_nodes(old(builder)@.nodes, old(builder)@.nodes.len())->Ok_0,
        ) == Ok::<TypeView, TypeErrorView>(ty@),
    ensures
        r is Ok,
        final(builder)@ == old(builder)@.with_node(op@),
        one_operation(old(builder)@.nodes, final(builder)@.nodes),
        r->Ok_0.id == NodeId(old(builder)@.nodes.len() as usize),
        r->Ok_0.id.0 == old(builder)@.nodes.len(),
        r->Ok_0.ty == ty,
        growing(final(builder)@, names, pool.push(r->Ok_0)),
        wider <= usize::MAX && typed(old(builder)@, pool, dtype, bound) ==> typed(
            final(builder)@,
            pool.push(r->Ok_0),
            dtype,
            wider,
        ),
{
    let ghost g = builder@;
    let ghost view = op@;
    let n: usize = builder.nodes.len();
    proof {
        lemma_append_error(g.nodes.len(), view);
    }
    let id = builder.append(op)?;
    let v = Value { id, ty };
    proof {
        assert(builder@.nodes.len() == n + 1);
        assert(builder.nodes.len() == n + 1);
        lemma_grow(g, names, pool, view, v, dtype, bound, wider);
        assert(builder@.nodes.drop_last() =~= g.nodes);
    }
    Ok(v)
}

/// The elementwise operations of two operands.
#[derive(Debug, Clone, Copy)]
pub enum Pairwise {
    Add,
    Sub,
    Mul,
}

/// Returns the values of the given shape.
fn of_shape(pool: &Vec<Value>, shape: &Shape) -> (r: Vec<usize>)
    ensures
        forall|k: int|
            0 <= k < r@.len() ==> (#[trigger] r@[k]) < pool@.len() && pool@[r@[k] as int].ty@.shape
                == shape@,
        forall|i: int|
            0 <= i < pool@.len() && (#[trigger] pool@[i]).ty@.shape == shape@ ==> r@.contains(
                i as usize,
            ),
{
    let mut found: Vec<usize> = Vec::new();
    let mut i: usize = 0;
    while i < pool.len()
        invariant
            i <= pool@.len(),
            forall|k: int|
                0 <= k < found@.len() ==> (#[trigger] found@[k]) < pool@.len()
                    && pool@[found@[k] as int].ty@.shape == shape@,
            forall|j: int|
                0 <= j < i && (#[trigger] pool@[j]).ty@.shape == shape@ ==> found@.contains(
                    j as usize,
                ),
        decreases pool@.len() - i,
    {
        if pool[i].ty.shape.same(shape) {
            let ghost before = found@;
            found.push(i);
            proof {
                assert(found@[before.len() as int] == i);
                assert forall|j: int|
                    0 <= j < i + 1 && (#[trigger] pool@[j]).ty@.shape == shape@ implies found@.contains(
                    j as usize,
                ) by {
                    if j < i {
                        let k = choose|k: int| 0 <= k < before.len() && before[k] == j as usize;
                        assert(found@[k] == j as usize);
                    }
                }
            }
        }
        i += 1;
    }
    found
}

/// Appends an elementwise operation on two values of one shape.
fn append_binary(
    builder: &mut GraphBuilder,
    pool: &Vec<Value>,
    rng: &mut StdRng,
    kind: Pairwise,
    Ghost(names): Ghost<Seq<Seq<char>>>,
    Ghost(dtype): Ghost<DType>,
    Ghost(bound): Ghost<nat>,
) -> (r: Result<Value, IrError>)
    requires
        growing(old(builder)@, names, pool@),
        pool@.len() > 0,
        sound_types(pool@, dtype),
    ensures
        r is Ok,
        one_operation(old(builder)@.nodes, final(builder)@.nodes),
        of_kind(
            final(builder)@.nodes.last(),
            match kind {
                Pairwise::Add => 1,
                Pairwise::Sub => 2,
                Pairwise::Mul => 3,
            },
        ),
        r->Ok_0.ty.dtype == dtype,
        positive(r->Ok_0.ty@.shape),
        growing(final(builder)@, names, pool@.push(r->Ok_0)),
        bound <= usize::MAX && typed(old(builder)@, pool@, dtype, bound) ==> typed(
            final(builder)@,
            pool@.push(r->Ok_0),
            dtype,
            bound,
        ),
{
    let l: usize = random_index(pool.len(), rng);
    let left = pool[l].clone();
    let candidates = of_shape(pool, &left.ty.shape);
    proof {
        assert(pool@[l as int].ty@.shape == left.ty@.shape);
        assert(candidates@.contains(l));
    }
    let c: usize = random_index(candidates.len(), rng);
    let right = pool[candidates[c]].clone();
    proof {
        assert(pool@[candidates@[c as int] as int].id.0 < builder@.nodes.len());
        assert(pool@[l as int].id.0 < builder@.nodes.len());
        assert(pool@[l as int].ty.dtype == dtype);
        assert(left.ty@ == pool@[l as int].ty@);
    }
    let op = match kind {
        Pairwise::Add => Op::Add(left.id, right.id),
        Pairwise::Sub => Op::Sub(left.id, right.id),
        Pairwise::Mul => Op::Mul(left.id, right.id),
    };
    proof {
        if typed(builder@, pool@, dtype, bound) {
            crate::infer::lemma_infer_prefix(builder@.nodes, builder@.nodes.len());
            assert(type_within(pool@[l as int].ty@, dtype, bound));
            assert(type_within(pool@[candidates@[c as int] as int].ty@, dtype, bound));
        }
    }
    append_op(
        builder,
        op,
        left.ty,
        Ghost(names),
        Ghost(pool@),
        Ghost(dtype),
        Ghost(bound),
        Ghost(bound),
    )
}

/// Appends a negation or a rectifier.
fn append_unary(
    builder: &mut GraphBuilder,
    pool: &Vec<Value>,
    rng: &mut StdRng,
    negation: bool,
    Ghost(names): Ghost<Seq<Seq<char>>>,
    Ghost(dtype): Ghost<DType>,
    Ghost(bound): Ghost<nat>,
) -> (r: Result<Value, IrError>)
    requires
        growing(old(builder)@, names, pool@),
        pool@.len() > 0,
        sound_types(pool@, dtype),
    ensures
        r is Ok,
        one_operation(old(builder)@.nodes, final(builder)@.nodes),
        of_kind(
            final(builder)@.nodes.last(),
            if negation {
                4
            } else {
                5
            },
        ),
        r->Ok_0.ty.dtype == dtype,
        positive(r->Ok_0.ty@.shape),
        growing(final(builder)@, names, pool@.push(r->Ok_0)),
        bound <= usize::MAX && typed(old(builder)@, pool@, dtype, bound) ==> typed(
            final(builder)@,
            pool@.push(r->Ok_0),
            dtype,
            bound,
        ),
{
    let i: usize = random_index(pool.len(), rng);
    let input = pool[i].clone();
    let op = if negation {
        Op::Neg(input.id)
    } else {
        Op::Relu(input.id)
    };
    proof {
        assert(pool@[i as int].id.0 < builder@.nodes.len());
        assert(pool@[i as int].ty.dtype == dtype);
        assert(input.ty@ == pool@[i as int].ty@);
        if typed(builder@, pool@, dtype, bound) {
            crate::infer::lemma_infer_prefix(builder@.nodes, builder@.nodes.len());
            assert(type_within(pool@[i as int].ty@, dtype, bound));
        }
    }
    append_op(
        builder,
        op,
        input.ty,
        Ghost(names),
        Ghost(pool@),
        Ghost(dtype),
        Ghost(bound),
        Ghost(bound),
    )
}

/// Reducing axes of a positive shape leaves a positive shape with no more elements.
proof fn lemma_reduced(shape: Seq<nat>, axes: Seq<usize>, keepdim: bool)
    requires
        positive(shape),
    ensures
        positive(reduced_shape(shape, axes, keepdim)),
        numel(reduced_shape(shape, axes, keepdim)) <= numel(shape),
    decreases shape.len(),
{
    if shape.len() > 0 {
        let before = shape.drop_last();
        lemma_reduced(before, axes, keepdim);
        lemma_positive(before);
        let rest = reduced_shape(before, axes, keepdim);
        let all = reduced_shape(shape, axes, keepdim);
        let a = numel(rest);
        let b = numel(before);
        let d = shape.last();
        assert(numel(shape) == b * d);
        assert(a * d <= b * d && b <= b * d) by (nonlinear_arith)
            requires
                a <= b,
                d >= 1,
        ;
        if !reduces(axes, shape.len() - 1) {
            assert(all == rest.push(d));
            assert(all.drop_last() =~= rest);
            assert(numel(all) == a * d);
        } else if keepdim {
            assert(all == rest.push(1));
            assert(all.drop_last() =~= rest);
            assert(numel(all) == a * 1);
        }
    }
}

/// Ascending axes within the rank have no error.
proof fn lemma_axes_fit(axes: Seq<usize>, rank: nat)
    requires
        forall|i: int| 0 <= i < axes.len() ==> #[trigger] axes[i] < rank,
        forall|i: int, j: int| 0 <= i < j < axes.len() ==> axes[i] < axes[j],
    ensures
        crate::seqs::first_some(
            Seq::new(axes.len(), |i: int| crate::infer::axis_error(axes, rank, i)),
        ) is None,
{
    let errors = Seq::new(axes.len(), |i: int| crate::infer::axis_error(axes, rank, i));
    assert forall|j: int| 0 <= j < errors.len() implies errors[j] is None by {
        assert(axes[j] < rank);
        if axes.take(j).contains(axes[j]) {
            let i = choose|i: int| 0 <= i < axes.take(j).len() && axes.take(j)[i] == axes[j];
            assert(axes[i] < axes[j]);
        }
    }
    crate::seqs::lemma_first_some_none(errors);
}

/// Appends a sum over some axes.
fn append_sum(
    builder: &mut GraphBuilder,
    pool: &Vec<Value>,
    rng: &mut StdRng,
    Ghost(names): Ghost<Seq<Seq<char>>>,
    Ghost(dtype): Ghost<DType>,
    Ghost(bound): Ghost<nat>,
) -> (r: Result<Value, IrError>)
    requires
        growing(old(builder)@, names, pool@),
        pool@.len() > 0,
        sound_types(pool@, dtype),
    ensures
        r is Ok,
        one_operation(old(builder)@.nodes, final(builder)@.nodes),
        of_kind(final(builder)@.nodes.last(), 7),
        r->Ok_0.ty.dtype == dtype,
        positive(r->Ok_0.ty@.shape),
        growing(final(builder)@, names, pool@.push(r->Ok_0)),
        bound <= usize::MAX && typed(old(builder)@, pool@, dtype, bound) ==> typed(
            final(builder)@,
            pool@.push(r->Ok_0),
            dtype,
            bound,
        ),
{
    let i: usize = random_index(pool.len(), rng);
    let input = pool[i].clone();
    let axes = random_axes(input.ty.shape.dims.len(), rng);
    let keepdim = draw_coin(rng);
    let output_shape = sum_output_shape(&input.ty.shape, &axes, keepdim);
    let ty = TensorType::new(input.ty.dtype, output_shape);
    proof {
        assert(pool@[i as int].id.0 < builder@.nodes.len());
        assert(pool@[i as int].ty.dtype == dtype);
        assert(input.ty@ == pool@[i as int].ty@);
        lemma_reduced(input.ty@.shape, axes@, keepdim);
        if typed(builder@, pool@, dtype, bound) {
            crate::infer::lemma_infer_prefix(builder@.nodes, builder@.nodes.len());
            assert(type_within(pool@[i as int].ty@, dtype, bound));
            lemma_axes_fit(axes@, input.ty@.shape.len());
        }
    }
    append_op(
        builder,
        Op::Sum { input: input.id, axes, keepdim },
        ty,
        Ghost(names),
        Ghost(pool@),
        Ghost(dtype),
        Ghost(bound),
        Ghost(bound),
    )
}

/// Appends a reshape of the given value.
fn append_reshape_of(
    builder: &mut GraphBuilder,
    input: &Value,
    new_shape: Shape,
    Ghost(names): Ghost<Seq<Seq<char>>>,
    Ghost(pool): Ghost<Seq<Value>>,
    Ghost(dtype): Ghost<DType>,
    Ghost(bound): Ghost<nat>,
) -> (r: Result<Value, IrError>)
    requires
        growing(old(builder)@, names, pool),
        exists|i: int|
            0 <= i < pool.len() && (#[trigger] pool[i]).id == input.id && pool[i].ty@ == input.ty@,
        typed(old(builder)@, pool, dtype, bound) && bound <= usize::MAX ==> positive(new_shape@)
            && numel(new_shape@) == numel(input.ty@.shape),
    ensures
        r is Ok,
        one_operation(old(builder)@.nodes, final(builder)@.nodes),
        final(builder)@ == old(builder)@.with_node(
            OpView::Reshape { input: input.id, new_shape: new_shape@ },
        ),
        r->Ok_0.id.0 == old(builder)@.nodes.len(),
        r->Ok_0.ty@ == (TypeView { dtype: input.ty.dtype, shape: new_shape@ }),
        growing(final(builder)@, names, pool.push(r->Ok_0)),
        bound <= usize::MAX && typed(old(builder)@, pool, dtype, bound) ==> typed(
            final(builder)@,
            pool.push(r->Ok_0),
            dtype,
            bound,
        ),
{
    let ty = TensorType::new(input.ty.dtype, new_shape.clone());
    proof {
        let i = choose|i: int|
            0 <= i < pool.len() && (#[trigger] pool[i]).id == input.id && pool[i].ty@ == input.ty@;
        assert(pool[i].id.0 < builder@.nodes.len());
        if typed(builder@, pool, dtype, bound) && bound <= usize::MAX {
            crate::infer::lemma_infer_prefix(builder@.nodes, builder@.nodes.len());
            assert(type_within(pool[i].ty@, dtype, bound));
            lemma_positive(input.ty@.shape);
            lemma_positive(new_shape@);
        }
    }
    append_op(
        builder,
        Op::Reshape { input: input.id, new_shape },
        ty,
        Ghost(names),
        Ghost(pool),
        Ghost(dtype),
        Ghost(bound),
        Ghost(bound),
    )
}

/// A drawn reshape of a value keeps its element count.
proof fn lemma_drawn_reshape(ty: TypeView, shape: Seq<nat>, dtype: DType, bound: nat)
    requires
        type_within(ty, dtype, bound),
        bound <= usize::MAX,
        reshape_choices(ty.shape).contains(shape),
    ensures
        positive(shape),
        numel(shape) == numel(ty.shape),
{
    lemma_positive(ty.shape);
    let i = choose|i: int|
        0 <= i < reshape_choices(ty.shape).len() && reshape_choices(ty.shape)[i] == shape;
    reshape_choices_keep_the_count(ty.shape, i);
}

/// Appends a reshape.
fn append_reshape(
    builder: &mut GraphBuilder,
    pool: &Vec<Value>,
    rng: &mut StdRng,
    Ghost(names): Ghost<Seq<Seq<char>>>,
    Ghost(dtype): Ghost<DType>,
    Ghost(bound): Ghost<nat>,
) -> (r: Result<Value, IrError>)
    requires
        growing(old(builder)@, names, pool@),
        pool@.len() > 0,
        sound_types(pool@, dtype),
    ensures
        r is Ok,
        one_operation(old(builder)@.nodes, final(builder)@.nodes),
        of_kind(final(builder)@.nodes.last(), 8),
        r->Ok_0.ty.dtype == dtype,
        positive(r->Ok_0.ty@.shape),
        growing(final(builder)@, names, pool@.push(r->Ok_0)),
        bound <= usize::MAX && typed(old(builder)@, pool@, dtype, bound) ==> typed(
            final(builder)@,
            pool@.push(r->Ok_0),
            dtype,
            bound,
        ),
{
    let i: usize = random_index(pool.len(), rng);
    let input = pool[i].clone();
    let new_shape = random_reshape_shape(&input.ty.shape, rng);
    proof {
        assert(pool@[i as int].id == input.id && pool@[i as int].ty@ == input.ty@);
        assert(pool@[i as int].ty.dtype == dtype);
        reshape_choices_are_positive(input.ty@.shape, new_shape@);
        if typed(builder@, pool@, dtype, bound) && bound <= usize::MAX {
            assert(type_within(pool@[i as int].ty@, dtype, bound));
            lemma_drawn_reshape(input.ty@, new_shape@, dtype, bound);
        }
    }
    append_reshape_of(
        builder,
        &input,
        new_shape,
        Ghost(names),
        Ghost(pool@),
        Ghost(dtype),
        Ghost(bound),
    )
}

/// Values may be forgotten.
proof fn lemma_forget(
    g: GraphView,
    names: Seq<Seq<char>>,
    all: Seq<Value>,
    kept: Seq<Value>,
    dtype: DType,
    bound: nat,
)
    requires
        growing(g, names, all),
        forall|i: int| 0 <= i < kept.len() ==> all.contains(#[trigger] kept[i]),
    ensures
        growing(g, names, kept),
        typed(g, all, dtype, bound) ==> typed(g, kept, dtype, bound),
{
    assert forall|i: int| 0 <= i < kept.len() implies (#[trigger] kept[i]).id.0
        < g.nodes.len() by {
        let j = choose|j: int| 0 <= j < all.len() && all[j] == kept[i];
        assert(all[j].id.0 < g.nodes.len());
    }
    if typed(g, all, dtype, bound) {
        assert forall|i: int| 0 <= i < kept.len() implies type_within(
            (#[trigger] kept[i]).ty@,
            dtype,
            bound,
        ) && infer_nodes(g.nodes, g.nodes.len())->Ok_0[kept[i].id.0 as int] == kept[i].ty@ by {
            let j = choose|j: int| 0 <= j < all.len() && all[j] == kept[i];
            assert(type_within(all[j].ty@, dtype, bound));
        }
    }
}

/// A bound may be raised.
proof fn lemma_raise(g: GraphView, pool: Seq<Value>, dtype: DType, bound: nat, wider: nat)
    requires
        typed(g, pool, dtype, bound),
        bound <= wider,
    ensures
        typed(g, pool, dtype, wider),
{
    let types = infer_nodes(g.nodes, g.nodes.len())->Ok_0;
    assert forall|i: int| 0 <= i < types.len() implies type_within(
        #[trigger] types[i],
        dtype,
        wider,
    ) by {
        assert(type_within(types[i], dtype, bound));
    }
    assert forall|i: int| 0 <= i < pool.len() implies type_within(
        (#[trigger] pool[i]).ty@,
        dtype,
        wider,
    ) && infer_nodes(g.nodes, g.nodes.len())->Ok_0[pool[i].id.0 as int] == pool[i].ty@ by {
        assert(type_within(pool[i].ty@, dtype, bound));
    }
}

/// Returns the places of the values of rank two, in ascending order.
fn matrices(pool: &Vec<Value>) -> (r: Vec<usize>)
    ensures
        forall|k: int|
            0 <= k < r@.len() ==> (#[trigger] r@[k]) < pool@.len()
                && pool@[r@[k] as int].ty@.shape.len() == 2,
        forall|i: int|
            0 <= i < pool@.len() && (#[trigger] pool@[i]).ty@.shape.len() == 2 ==> r@.contains(
                i as usize,
            ),
        forall|j: int, k: int| 0 <= j < k < r@.len() ==> r@[j] < r@[k],
{
    let mut found: Vec<usize> = Vec::new();
    let mut i: usize = 0;
    while i < pool.len()
        invariant
            i <= pool@.len(),
            forall|k: int|
                0 <= k < found@.len() ==> (#[trigger] found@[k]) < i
                    && pool@[found@[k] as int].ty@.shape.len() == 2,
            forall|j: int|
                0 <= j < i && (#[trigger] pool@[j]).ty@.shape.len() == 2 ==> found@.contains(
                    j as usize,
                ),
            forall|j: int, k: int| 0 <= j < k < found@.len() ==> found@[j] < found@[k],
        decreases pool@.len() - i,
    {
        if pool[i].ty.shape.dims.len() == 2 {
            let ghost before = found@;
            found.push(i);
            proof {
                assert(found@[before.len() as int] == i);
                assert forall|j: int|
                    0 <= j < i + 1 && (#[trigger] pool@[j]).ty@.shape.len() == 2 implies found@.contains(
                    j as usize,
                ) by {
                    if j < i {
                        let k = choose|k: int| 0 <= k < before.len() && before[k] == j as usize;
                        assert(found@[k] == j as usize);
                    }
                }
            }
        }
        i += 1;
    }
    found
}

/// Picks a matrix, or appends one where there is none.
fn pick_matrix(
    builder: &mut GraphBuilder,
    input_names: &mut Vec<String>,
    pool: &Vec<Value>,
    cfg: &GenConfig,
    rng: &mut StdRng,
    Ghost(bound): Ghost<nat>,
) -> (r: Result<Value, IrError>)
    requires
        growing(old(builder)@, string_views(old(input_names)@), pool@),
        sound_types(pool@, numeric_of(cfg.dtype)),
    ensures
        match r {
            Ok(v) => v.ty@.shape.len() == 2 && v.ty.dtype == numeric_of(cfg.dtype) && positive(
                v.ty@.shape,
            ) && growing(
                final(builder)@,
                string_views(final(input_names)@),
                pool@.push(v),
            ) && (pow(extent_limit(*cfg) as int, 3) <= bound && typed(
                old(builder)@,
                pool@,
                numeric_of(cfg.dtype),
                bound,
            ) ==> typed(final(builder)@, pool@.push(v), numeric_of(cfg.dtype), bound))
                && old(builder)@.nodes.len() <= final(builder)@.nodes.len() <= old(
                builder,
            )@.nodes.len() + 1 && (leaves_drawn(old(builder)@.nodes, *cfg) ==> leaves_drawn(
                final(builder)@.nodes,
                *cfg,
            )),
            Err(e) => e == IrError::ShapeOverflow && pow(extent_limit(*cfg) as int, 3)
                > usize::MAX,
        },
        (exists|i: int| 0 <= i < pool@.len() && (#[trigger] pool@[i]).ty@.shape.len() == 2) ==> {
            &&& r is Ok
            &&& final(builder)@ == old(builder)@
            &&& final(input_names)@ == old(input_names)@
            &&& exists|i: int|
                0 <= i < pool@.len() && (#[trigger] pool@[i]).id == r->Ok_0.id && pool@[i].ty@
                    == r->Ok_0.ty@
        },
{
    let ghost dtype = numeric_of(cfg.dtype);
    let ghost names = string_views(input_names@);
    let rank_two = matrices(pool);
    if rank_two.len() == 0 {
        let shape = random_matrix_shape(cfg, rng);
        let ty = TensorType::new(numeric_dtype(cfg.dtype), shape);
        proof {
            let m = extent_limit(*cfg) as int;
            let a = ty@.shape[0];
            let b = ty@.shape[1];
            assert(ty@.shape =~= seq![a, b]);
            lemma_numel_pair(a, b);
            lemma_cube(m);
            assert(a >= 1 && b >= 1);
            assert(a * b <= m * m * m) by (nonlinear_arith)
                requires
                    1 <= a <= m,
                    1 <= b <= m,
            ;
        }
        let ghost before = builder@.nodes;
        let v = append_leaf_of_type(
            builder,
            input_names,
            cfg,
            rng,
            &ty,
            Ghost(pool@),
            Ghost(bound),
        )?;
        proof {
            if leaves_drawn(before, *cfg) {
                lemma_leaf_joins(before, builder@.nodes, ty@, *cfg);
            }
        }
        Ok(v)
    } else {
        let k: usize = random_index(rank_two.len(), rng);
        let v = pool[rank_two[k]].clone();
        proof {
            let i = rank_two@[k as int] as int;
            assert(pool@[i].ty@.shape.len() == 2);
            lemma_again(builder@, names, pool@, i, v, dtype, bound);
        }
        Ok(v)
    }
}

/// A cube is a product.
proof fn lemma_cube(m: int)
    ensures
        pow(m, 3) == m * m * m,
{
    reveal(pow);
    assert(pow(m, 0) == 1);
    assert(pow(m, 1) == m * pow(m, 0));
    assert(pow(m, 2) == m * pow(m, 1));
    assert(pow(m, 3) == m * pow(m, 2));
    assert(m * 1 == m);
    assert(m * (m * m) == m * m * m) by (nonlinear_arith);
}

/// A value may be listed again.
proof fn lemma_again(
    g: GraphView,
    names: Seq<Seq<char>>,
    pool: Seq<Value>,
    i: int,
    v: Value,
    dtype: DType,
    bound: nat,
)
    requires
        growing(g, names, pool),
        0 <= i < pool.len(),
        v.id == pool[i].id,
        v.ty@ == pool[i].ty@,
    ensures
        growing(g, names, pool.push(v)),
        typed(g, pool, dtype, bound) ==> typed(g, pool.push(v), dtype, bound),
{
    assert(pool[i].id.0 < g.nodes.len());
    if typed(g, pool, dtype, bound) {
        assert(type_within(pool[i].ty@, dtype, bound));
    }
}

/// Appends a matrix product with a fresh right factor.
fn append_matmul(
    builder: &mut GraphBuilder,
    input_names: &mut Vec<String>,
    pool: &Vec<Value>,
    cfg: &GenConfig,
    rng: &mut StdRng,
    Ghost(bound): Ghost<nat>,
) -> (r: Result<Value, IrError>)
    requires
        growing(old(builder)@, string_views(old(input_names)@), pool@),
        sound_types(pool@, numeric_of(cfg.dtype)),
        pow(extent_limit(*cfg) as int, 3) <= bound,
    ensures
        match r {
            Ok(v) => v.ty.dtype == numeric_of(cfg.dtype) && positive(v.ty@.shape) && growing(
                final(builder)@,
                string_views(final(input_names)@),
                pool@.push(v),
            ) && (typed(old(builder)@, pool@, numeric_of(cfg.dtype), bound) && bound * extent_limit(
                *cfg,
            ) <= usize::MAX ==> typed(
                final(builder)@,
                pool@.push(v),
                numeric_of(cfg.dtype),
                bound * extent_limit(*cfg),
            )) && old(builder)@.nodes.len() + 2 <= final(builder)@.nodes.len() <= old(
                builder,
            )@.nodes.len() + 3 && (leaves_drawn(old(builder)@.nodes, *cfg) ==> leaves_drawn(
                final(builder)@.nodes,
                *cfg,
            )) && of_kind(final(builder)@.nodes.last(), 6),
            Err(e) => e == IrError::ShapeOverflow && !(typed(
                old(builder)@,
                pool@,
                numeric_of(cfg.dtype),
                bound,
            ) && bound * extent_limit(*cfg) <= usize::MAX),
        },
{
    let ghost dtype = numeric_of(cfg.dtype);
    let ghost m = extent_limit(*cfg);
    let ghost wider = bound * m;
    let ghost g0 = builder@;
    proof {
        assert(bound <= bound * m) by (nonlinear_arith)
            requires
                m >= 1,
        ;
    }
    let left = pick_matrix(builder, input_names, pool, cfg, rng, Ghost(bound))?;
    let ghost p1 = pool@.push(left);
    let ghost g1 = builder@;
    let k: usize = left.ty.shape.dims[1].0;
    let n: usize = random_dim(cfg, rng);
    let mut dims: Vec<Dim> = Vec::new();
    dims.push(Dim(k));
    dims.push(Dim(n));
    let right_ty = TensorType::new(numeric_dtype(cfg.dtype), Shape { dims });
    let ghost rows = left.ty@.shape[0];
    proof {
        let ls = left.ty@.shape;
        assert(ls[1] == k as nat);
        assert(ls[1] >= 1 && rows >= 1);
        assert(ls =~= seq![rows, k as nat]);
        assert(right_ty@.shape =~= seq![k as nat, n as nat]);
        lemma_numel_pair(rows, k as nat);
        lemma_numel_pair(k as nat, n as nat);
        lemma_numel_pair(rows, n as nat);
        if typed(g0, pool@, dtype, bound) {
            assert(p1[pool@.len() as int] == left);
            assert(type_within(left.ty@, dtype, bound));
            assert(k * n <= wider && rows * n <= wider) by (nonlinear_arith)
                requires
                    wider == bound * m,
                    rows * k <= bound,
                    rows >= 1,
                    k >= 1,
                    1 <= n <= m,
            ;
            lemma_raise(g1, p1, dtype, bound, wider);
        }
    }
    let right = append_leaf_of_type(
        builder,
        input_names,
        cfg,
        rng,
        &right_ty,
        Ghost(p1),
        Ghost(wider),
    )?;
    let ghost p2 = p1.push(right);
    let mut out_dims: Vec<Dim> = Vec::new();
    out_dims.push(left.ty.shape.dims[0]);
    out_dims.push(Dim(n));
    let ty = TensorType::new(numeric_dtype(cfg.dtype), Shape { dims: out_dims });
    proof {
        assert(ty@.shape =~= seq![rows, n as nat]);
    }
    let ghost g2 = builder@;
    let v = append_product(
        builder,
        &left,
        &right,
        ty,
        Ghost(string_views(input_names@)),
        Ghost(pool@),
        Ghost(dtype),
        Ghost(
            if typed(g0, pool@, dtype, bound) {
                wider
            } else {
                numel(ty@.shape)
            },
        ),
    )?;
    proof {
        if leaves_drawn(g0.nodes, *cfg) {
            lemma_factor_joins(g1.nodes, g2.nodes, builder@.nodes, right_ty@, *cfg);
        }
    }
    Ok(v)
}

/// Appends a matrix product of two values.
fn append_product(
    builder: &mut GraphBuilder,
    left: &Value,
    right: &Value,
    ty: TensorType,
    Ghost(names): Ghost<Seq<Seq<char>>>,
    Ghost(pool): Ghost<Seq<Value>>,
    Ghost(dtype): Ghost<DType>,
    Ghost(bound): Ghost<nat>,
) -> (r: Result<Value, IrError>)
    requires
        growing(old(builder)@, names, pool.push(*left).push(*right)),
        left.ty@.shape.len() == 2,
        right.ty@.shape.len() == 2,
        left.ty@.shape[1] == right.ty@.shape[0],
        left.ty.dtype == dtype,
        right.ty.dtype == dtype,
        ty.dtype == dtype,
        ty@.shape == seq![left.ty@.shape[0], right.ty@.shape[1]],
        positive(ty@.shape),
        typed(old(builder)@, pool.push(*left).push(*right), dtype, bound) && bound <= usize::MAX
            ==> numel(ty@.shape) <= bound,
    ensures
        r is Ok,
        r->Ok_0.ty == ty,
        one_operation(old(builder)@.nodes, final(builder)@.nodes),
        final(builder)@.nodes.last() == OpView::Matmul(left.id, right.id),
        growing(final(builder)@, names, pool.push(r->Ok_0)),
        bound <= usize::MAX && typed(old(builder)@, pool.push(*left).push(*right), dtype, bound)
            ==> typed(final(builder)@, pool.push(r->Ok_0), dtype, bound),
{
    let ghost g = builder@;
    let ghost all = pool.push(*left).push(*right);
    proof {
        assert(all[pool.len() as int] == *left);
        assert(all[pool.len() as int + 1] == *right);
        assert(left.id.0 < builder@.nodes.len());
        assert(right.id.0 < builder@.nodes.len());
        if typed(g, all, dtype, bound) && bound <= usize::MAX {
            crate::infer::lemma_infer_prefix(g.nodes, g.nodes.len());
            assert(type_within(left.ty@, dtype, bound));
            assert(type_within(right.ty@, dtype, bound));
        }
    }
    let v = append_op(
        builder,
        Op::Matmul(left.id, right.id),
        ty,
        Ghost(names),
        Ghost(all),
        Ghost(dtype),
        Ghost(bound),
        Ghost(bound),
    )?;
    proof {
        let longer = all.push(v);
        let kept = pool.push(v);
        assert forall|i: int| 0 <= i < kept.len() implies longer.contains(#[trigger] kept[i]) by {
            if i < pool.len() {
                assert(longer[i] == kept[i]);
            } else {
                assert(longer[pool.len() as int + 2] == v);
            }
        }
        lemma_forget(builder@, names, longer, kept, dtype, bound);
    }
    Ok(v)
}

/// Appends one random value.
fn append_random_value(
    builder: &mut GraphBuilder,
    input_names: &mut Vec<String>,
    pool: &Vec<Value>,
    cfg: &GenConfig,
    rng: &mut StdRng,
    Ghost(bound): Ghost<nat>,
) -> (r: Result<Value, IrError>)
    requires
        growing(old(builder)@, string_views(old(input_names)@), pool@),
        sound_types(pool@, numeric_of(cfg.dtype)),
        pool@.len() > 0,
        pow(extent_limit(*cfg) as int, 3) <= bound,
    ensures
        match r {
            Ok(v) => v.ty.dtype == numeric_of(cfg.dtype) && positive(v.ty@.shape) && growing(
                final(builder)@,
                string_views(final(input_names)@),
                pool@.push(v),
            ) && (typed(old(builder)@, pool@, numeric_of(cfg.dtype), bound) && bound * extent_limit(
                *cfg,
            ) <= usize::MAX ==> typed(
                final(builder)@,
                pool@.push(v),
                numeric_of(cfg.dtype),
                bound * extent_limit(*cfg),
            )) && old(builder)@.nodes.len() + 1 <= final(builder)@.nodes.len() <= old(
                builder,
            )@.nodes.len() + 3 && (leaves_drawn(old(builder)@.nodes, *cfg) ==> leaves_drawn(
                final(builder)@.nodes,
                *cfg,
            )) && exists|d: Draw| #[trigger]
                d.spans(0, 8) && of_kind(final(builder)@.nodes.last(), d.number()),
            Err(e) => e == IrError::ShapeOverflow && !(typed(
                old(builder)@,
                pool@,
                numeric_of(cfg.dtype),
                bound,
            ) && bound * extent_limit(*cfg) <= usize::MAX),
        },
{
    let ghost dtype = numeric_of(cfg.dtype);
    let ghost m = extent_limit(*cfg);
    let ghost names = string_views(input_names@);
    let ghost g = builder@;
    proof {
        assert(bound <= bound * m) by (nonlinear_arith)
            requires
                m >= 1,
        ;
    }
    let (kind, draw) = pick_i32_from(rng, 0, 8);
    assert(draw@.spans(0, 8));
    let drawn = if kind == 0 {
        let shape = random_shape(cfg, rng);
        let ty = TensorType::new(numeric_dtype(cfg.dtype), shape);
        let leaf = append_leaf_of_type(
            builder,
            input_names,
            cfg,
            rng,
            &ty,
            Ghost(pool@),
            Ghost(bound),
        );
        proof {
            if leaves_drawn(g.nodes, *cfg) && leaf is Ok {
                lemma_leaf_joins(g.nodes, builder@.nodes, ty@, *cfg);
            }
        }
        leaf
    } else if kind == 1 {
        append_binary(builder, pool, rng, Pairwise::Add, Ghost(names), Ghost(dtype), Ghost(bound))
    } else if kind == 2 {
        append_binary(builder, pool, rng, Pairwise::Sub, Ghost(names), Ghost(dtype), Ghost(bound))
    } else if kind == 3 {
        append_binary(builder, pool, rng, Pairwise::Mul, Ghost(names), Ghost(dtype), Ghost(bound))
    } else if kind == 4 {
        append_unary(builder, pool, rng, true, Ghost(names), Ghost(dtype), Ghost(bound))
    } else if kind == 5 {
        append_unary(builder, pool, rng, false, Ghost(names), Ghost(dtype), Ghost(bound))
    } else if kind == 6 {
        return append_matmul(builder, input_names, pool, cfg, rng, Ghost(bound));
    } else if kind == 7 {
        append_sum(builder, pool, rng, Ghost(names), Ghost(dtype), Ghost(bound))
    } else {
        append_reshape(builder, pool, rng, Ghost(names), Ghost(dtype), Ghost(bound))
    };
    let v = drawn?;
    proof {
        if leaves_drawn(g.nodes, *cfg) && one_operation(g.nodes, builder@.nodes) {
            lemma_leaves_stay(g.nodes, builder@.nodes, *cfg);
        }
        if typed(g, pool@, dtype, bound) && bound * m <= usize::MAX {
            lemma_raise(builder@, pool@.push(v), dtype, bound, bound * m);
        }
    }
    Ok(v)
}

/// The node at `id` is the outer one of a pattern.
pub open spec fn exhibits(g: GraphView, id: NodeId, pattern: Pattern) -> bool {
    &&& id.0 < g.nodes.len()
    &&& g.nodes[id.0 as int].operands().len() == 1
    &&& ({
        let outer = g.nodes[id.0 as int];
        let inner = g.nodes[outer.operands()[0].0 as int];
        match pattern {
            Pattern::NegNeg => outer is Neg && inner is Neg,
            Pattern::ReluRelu => outer is Relu && inner is Relu,
            Pattern::ReshapeReshape => outer is Reshape && inner is Reshape,
        }
    })
}

/// Two operations more, which are no leaves.
pub open spec fn two_operations(before: Seq<OpView>, after: Seq<OpView>) -> bool {
    exists|middle: Seq<OpView>| #[trigger]
        one_operation(before, middle) && one_operation(middle, after)
}

/// Forgets the inner value of a pattern.
proof fn lemma_forget_inner(
    g: GraphView,
    names: Seq<Seq<char>>,
    pool: Seq<Value>,
    first: Value,
    second: Value,
    dtype: DType,
    bound: nat,
)
    requires
        growing(g, names, pool.push(first).push(second)),
    ensures
        growing(g, names, pool.push(second)),
        typed(g, pool.push(first).push(second), dtype, bound) ==> typed(
            g,
            pool.push(second),
            dtype,
            bound,
        ),
{
    let all = pool.push(first).push(second);
    let kept = pool.push(second);
    assert forall|i: int| 0 <= i < kept.len() implies all.contains(#[trigger] kept[i]) by {
        if i < pool.len() {
            assert(all[i] == kept[i]);
        } else {
            assert(all[pool.len() as int + 1] == second);
        }
    }
    lemma_forget(g, names, all, kept, dtype, bound);
}

/// Appends two negations or two rectifiers of a value.
fn append_twice(
    builder: &mut GraphBuilder,
    input: &Value,
    negation: bool,
    Ghost(names): Ghost<Seq<Seq<char>>>,
    Ghost(pool): Ghost<Seq<Value>>,
    Ghost(dtype): Ghost<DType>,
    Ghost(bound): Ghost<nat>,
) -> (r: Result<Value, IrError>)
    requires
        growing(old(builder)@, names, pool),
        exists|i: int|
            0 <= i < pool.len() && (#[trigger] pool[i]).id == input.id && pool[i].ty@ == input.ty@,
    ensures
        r is Ok,
        two_operations(old(builder)@.nodes, final(builder)@.nodes),
        growing(final(builder)@, names, pool.push(r->Ok_0)),
        exhibits(
            final(builder)@,
            r->Ok_0.id,
            if negation {
                Pattern::NegNeg
            } else {
                Pattern::ReluRelu
            },
        ),
        bound <= usize::MAX && typed(old(builder)@, pool, dtype, bound) ==> typed(
            final(builder)@,
            pool.push(r->Ok_0),
            dtype,
            bound,
        ),
{
    let ghost g = builder@;
    let op1 = if negation {
        Op::Neg(input.id)
    } else {
        Op::Relu(input.id)
    };
    proof {
        let i = choose|i: int|
            0 <= i < pool.len() && (#[trigger] pool[i]).id == input.id && pool[i].ty@ == input.ty@;
        assert(pool[i].id.0 < builder@.nodes.len());
        if typed(builder@, pool, dtype, bound) {
            crate::infer::lemma_infer_prefix(builder@.nodes, builder@.nodes.len());
            assert(type_within(pool[i].ty@, dtype, bound));
        }
    }
    let first = append_op(
        builder,
        op1,
        input.ty.clone(),
        Ghost(names),
        Ghost(pool),
        Ghost(dtype),
        Ghost(bound),
        Ghost(bound),
    )?;
    let ghost middle = builder@.nodes;
    let ghost p1 = pool.push(first);
    let op2 = if negation {
        Op::Neg(first.id)
    } else {
        Op::Relu(first.id)
    };
    proof {
        assert(p1[pool.len() as int] == first);
        assert(first.id.0 < builder@.nodes.len());
        if typed(builder@, p1, dtype, bound) {
            crate::infer::lemma_infer_prefix(builder@.nodes, builder@.nodes.len());
            assert(type_within(p1[pool.len() as int].ty@, dtype, bound));
        }
    }
    let second = append_op(
        builder,
        op2,
        input.ty.clone(),
        Ghost(names),
        Ghost(p1),
        Ghost(dtype),
        Ghost(bound),
        Ghost(bound),
    )?;
    proof {
        assert(one_operation(middle, builder@.nodes));
        lemma_forget_inner(builder@, names, pool, first, second, dtype, bound);
    }
    Ok(second)
}

/// Appends a pattern.
fn append_pattern(
    builder: &mut GraphBuilder,
    pool: &Vec<Value>,
    rng: &mut StdRng,
    pattern: Pattern,
    Ghost(names): Ghost<Seq<Seq<char>>>,
    Ghost(dtype): Ghost<DType>,
    Ghost(bound): Ghost<nat>,
) -> (r: Result<Value, IrError>)
    requires
        growing(old(builder)@, names, pool@),
        pool@.len() > 0,
    ensures
        r is Ok,
        two_operations(old(builder)@.nodes, final(builder)@.nodes),
        growing(final(builder)@, names, pool@.push(r->Ok_0)),
        exhibits(final(builder)@, r->Ok_0.id, pattern),
        bound <= usize::MAX && typed(old(builder)@, pool@, dtype, bound) ==> typed(
            final(builder)@,
            pool@.push(r->Ok_0),
            dtype,
            bound,
        ),
{
    let i: usize = random_index(pool.len(), rng);
    let value = pool[i].clone();
    proof {
        assert(pool@[i as int].id == value.id && pool@[i as int].ty@ == value.ty@);
    }
    match pattern {
        Pattern::NegNeg => append_twice(
            builder,
            &value,
            true,
            Ghost(names),
            Ghost(pool@),
            Ghost(dtype),
            Ghost(bound),
        ),
        Pattern::ReluRelu => append_twice(
            builder,
            &value,
            false,
            Ghost(names),
            Ghost(pool@),
            Ghost(dtype),
            Ghost(bound),
        ),
        Pattern::ReshapeReshape => {
            let first_shape = random_reshape_shape(&value.ty.shape, rng);
            let second_shape = random_reshape_shape(&value.ty.shape, rng);
            let ghost sound = typed(builder@, pool@, dtype, bound) && bound <= usize::MAX;
            proof {
                if sound {
                    assert(type_within(pool@[i as int].ty@, dtype, bound));
                    lemma_drawn_reshape(value.ty@, first_shape@, dtype, bound);
                    lemma_drawn_reshape(value.ty@, second_shape@, dtype, bound);
                }
            }
            let first = append_reshape_of(
                builder,
                &value,
                first_shape,
                Ghost(names),
                Ghost(pool@),
                Ghost(dtype),
                Ghost(bound),
            )?;
            let ghost middle = builder@.nodes;
            let ghost p1 = pool@.push(first);
            proof {
                assert(p1[pool@.len() as int] == first);
            }
            let ghost b2 = if sound {
                bound
            } else {
                usize::MAX as nat + 1
            };
            let second = append_reshape_of(
                builder,
                &first,
                second_shape,
                Ghost(names),
                Ghost(p1),
                Ghost(dtype),
                Ghost(b2),
            )?;
            proof {
                assert(one_operation(middle, builder@.nodes));
                lemma_forget_inner(builder@, names, pool@, first, second, dtype, bound);
            }
            Ok(second)
        }
    }
}

/// Even a graph whose every step is a matrix product has element counts that fit.
pub open spec fn growth_fits(cfg: GenConfig) -> bool {
    pow(extent_limit(cfg) as int, cfg.size as nat + 3) <= usize::MAX
}

/// The number of leaves that every graph starts with.
pub const INITIAL_LEAVES: usize = 2;

/// Each step adds one to three nodes to the initial leaves, and a pattern adds two.
pub open spec fn node_count_fits(cfg: GenConfig, pattern: Option<Pattern>, n: nat) -> bool {
    let extra: nat = if pattern is Some {
        2
    } else {
        0
    };
    INITIAL_LEAVES + cfg.size + extra <= n <= INITIAL_LEAVES + 3 * cfg.size + extra
}

/// What holds of every generated graph.
///
/// It is well-formed and has one output. Its inputs have the listed names. Its leaves are of the
/// configured dtype, extents and values, and each step of the configured size added one to three
/// nodes. The pattern, if one was asked for, ends at the output. Unless element counts may
/// overflow, it is well-typed, with one dtype throughout.
pub open spec fn generated(
    cfg: GenConfig,
    pattern: Option<Pattern>,
    g: GraphView,
    names: Seq<Seq<char>>,
) -> bool {
    &&& well_formed(g)
    &&& g.outputs.len() == 1
    &&& names_inputs(g, names)
    &&& leaves_ready(g)
    &&& leaves_drawn(g.nodes, cfg)
    &&& node_count_fits(cfg, pattern, g.nodes.len())
    &&& pattern is Some ==> exhibits(g, g.outputs[0], pattern->Some_0)
    &&& growth_fits(cfg) ==> infer_graph(g) is Ok && types_within(
        infer_graph(g)->Ok_0,
        numeric_of(cfg.dtype),
        usize::MAX as nat,
    )
}

/// Adding the output to a graph that has been generated.
proof fn lemma_finished(
    cfg: GenConfig,
    pattern: Option<Pattern>,
    g: GraphView,
    names: Seq<Seq<char>>,
    pool: Seq<Value>,
    id: NodeId,
    bound: nat,
)
    requires
        growing(g, names, pool),
        leaves_drawn(g.nodes, cfg),
        node_count_fits(cfg, pattern, g.nodes.len()),
        id.0 < g.nodes.len(),
        well_formed(g.with_output(id)),
        pattern is Some ==> exhibits(g, id, pattern->Some_0),
        growth_fits(cfg) ==> typed(g, pool, numeric_of(cfg.dtype), bound) && bound <= usize::MAX,
    ensures
        generated(cfg, pattern, g.with_output(id), names),
{
    let out = g.with_output(id);
    crate::graph::validation_accepts_exactly_well_formed(out);
    assert forall|i: int| 0 <= i < out.inputs.len() implies out.nodes[(
    #[trigger] out.inputs[i]).0 as int] is Input && out.nodes[out.inputs[i].0 as int]->Input_name
        == names[i] && names[i] == input_name(i as nat) by {
        assert(out.inputs[i] == g.inputs[i]);
    }
    assert(out.outputs[0] == id);
    assert forall|i: int| 0 <= i < out.nodes.len() implies match #[trigger] out.nodes[i] {
        OpView::Input { name, ty } => ty.dtype.numeric() && is_listed(out, i),
        OpView::Const { data, shape } => data_error(data) is None,
        _ => true,
    } by {
        assert(out.nodes[i] == g.nodes[i]);
        if g.nodes[i] is Input {
            assert(is_listed(g, i));
            let k = choose|k: int| 0 <= k < g.inputs.len() && (#[trigger] g.inputs[k]).0 == i;
            assert(out.inputs[k].0 == i);
        }
    }
    if growth_fits(cfg) {
        lemma_raise(g, pool, numeric_of(cfg.dtype), bound, usize::MAX as nat);
    }
}

/// The bound after one more value.
proof fn lemma_next_bound(m: int, i: nat)
    requires
        m >= 1,
    ensures
        pow(m, i + 1) == pow(m, i) * m,
        pow(m, i) >= 1,
        pow(m, i) <= pow(m, i + 1),
{
    vstd::arithmetic::power::lemma_pow_adds(m, i, 1);
    vstd::arithmetic::power::lemma_pow1(m);
    vstd::arithmetic::power::lemma_pow_positive(m, i);
    vstd::arithmetic::power::lemma_pow_increases(m as nat, i, i + 1);
}

/// Appends the leaves that every graph starts with.
fn initial_leaves(
    builder: &mut GraphBuilder,
    input_names: &mut Vec<String>,
    cfg: &GenConfig,
    rng: &mut StdRng,
) -> (r: Result<Vec<Value>, IrError>)
    requires
        old(builder)@ == GraphView::empty(),
        old(input_names)@.len() == 0,
    ensures
        match r {
            Ok(pool) => pool@.len() == 2 && growing(
                final(builder)@,
                string_views(final(input_names)@),
                pool@,
            ) && sound_types(pool@, numeric_of(cfg.dtype)) && typed(
                final(builder)@,
                pool@,
                numeric_of(cfg.dtype),
                pow(extent_limit(*cfg) as int, 3) as nat,
            ) && final(builder)@.nodes.len() == INITIAL_LEAVES && leaves_drawn(
                final(builder)@.nodes,
                *cfg,
            ),
            Err(e) => e == IrError::ShapeOverflow && pow(extent_limit(*cfg) as int, 3)
                > usize::MAX,
        },
{
    let ghost m = extent_limit(*cfg) as int;
    let ghost bound = pow(m, 3) as nat;
    let ghost dtype = numeric_of(cfg.dtype);
    let mut pool: Vec<Value> = Vec::new();
    let mut i: usize = 0;
    proof {
        lemma_next_bound(m, 3);
    }
    while i < INITIAL_LEAVES
        invariant
            i <= INITIAL_LEAVES,
            builder@.nodes.len() == i,
            leaves_drawn(builder@.nodes, *cfg),
            m == extent_limit(*cfg),
            bound == pow(m, 3),
            dtype == numeric_of(cfg.dtype),
            pool@.len() == i,
            growing(builder@, string_views(input_names@), pool@),
            sound_types(pool@, dtype),
            typed(builder@, pool@, dtype, bound),
        decreases INITIAL_LEAVES - i,
    {
        let ghost before = builder@.nodes;
        let shape = random_shape(cfg, rng);
        let ty = TensorType::new(numeric_dtype(cfg.dtype), shape);
        let value = append_leaf_of_type(
            builder,
            input_names,
            cfg,
            rng,
            &ty,
            Ghost(pool@),
            Ghost(bound),
        )?;
        proof {
            lemma_leaf_joins(before, builder@.nodes, ty@, *cfg);
        }
        pool.push(value);
        i += 1;
    }
    Ok(pool)
}

/// Generates one graph.
///
/// # Errors
///
/// Returns [`IrError::ShapeOverflow`] where a drawn constant has too many elements.
pub fn try_generated_graph(cfg: &GenConfig, rng: &mut StdRng, pattern: Option<Pattern>) -> (r:
    Result<(Graph, Vec<String>), IrError>)
    ensures
        match r {
            Ok((graph, names)) => generated(*cfg, pattern, graph@, string_views(names@)),
            Err(e) => e == IrError::ShapeOverflow && !growth_fits(*cfg),
        },
{
    let mut builder = GraphBuilder::new();
    let mut input_names: Vec<String> = Vec::new();
    let ghost m = extent_limit(*cfg) as int;
    let ghost dtype = numeric_of(cfg.dtype);
    proof {
        vstd::arithmetic::power::lemma_pow_increases(m as nat, 3, cfg.size as nat + 3);
        lemma_next_bound(m, 3);
    }
    let mut pool = initial_leaves(&mut builder, &mut input_names, cfg, rng)?;
    let mut i: usize = 0;
    while i < cfg.size
        invariant
            i <= cfg.size,
            m == extent_limit(*cfg),
            m >= 1,
            dtype == numeric_of(cfg.dtype),
            pool@.len() >= 2,
            INITIAL_LEAVES + i <= builder@.nodes.len() <= INITIAL_LEAVES + 3 * i,
            leaves_drawn(builder@.nodes, *cfg),
            growing(builder@, string_views(input_names@), pool@),
            sound_types(pool@, dtype),
            growth_fits(*cfg) ==> typed(builder@, pool@, dtype, pow(m, i as nat + 3) as nat),
        decreases cfg.size - i,
    {
        let ghost bound = pow(m, i as nat + 3) as nat;
        proof {
            lemma_next_bound(m, i as nat + 3);
            lemma_next_bound(m, 3);
            vstd::arithmetic::power::lemma_pow_increases(m as nat, 3, i as nat + 3);
            vstd::arithmetic::power::lemma_pow_increases(
                m as nat,
                i as nat + 4,
                cfg.size as nat + 3,
            );
        }
        let value = append_random_value(
            &mut builder,
            &mut input_names,
            &pool,
            cfg,
            rng,
            Ghost(bound),
        )?;
        pool.push(value);
        i += 1;
    }
    let ghost bound = pow(m, cfg.size as nat + 3) as nat;
    let ghost names = string_views(input_names@);
    proof {
        lemma_next_bound(m, cfg.size as nat + 3);
    }
    let ghost mut known = pool@;
    let ghost grown = builder@.nodes;
    let output: NodeId = match pattern {
        Some(pattern) => {
            let value = append_pattern(
                &mut builder,
                &pool,
                rng,
                pattern,
                Ghost(names),
                Ghost(dtype),
                Ghost(bound),
            )?;
            proof {
                let middle = choose|middle: Seq<OpView>| #[trigger]
                    one_operation(grown, middle) && one_operation(middle, builder@.nodes);
                lemma_leaves_stay(grown, middle, *cfg);
                lemma_leaves_stay(middle, builder@.nodes, *cfg);
                known = pool@.push(value);
                assert(known[pool@.len() as int] == value);
            }
            value.id
        }
        None => {
            let k: usize = random_index(pool.len(), rng);
            pool[k].id
        }
    };
    let ghost g = builder@;
    builder.mark_output(output)?;
    let ghost out = builder@;
    proof {
        assert(out == g.with_output(output));
        assert forall|k: int| 0 <= k < out.inputs.len() implies (#[trigger] out.inputs[k]).0
            < out.nodes.len() && out.nodes[out.inputs[k].0 as int] is Input by {
            assert(out.inputs[k] == g.inputs[k]);
        }
        assert(under_construction(out));
    }
    let graph = builder.build()?;
    proof {
        lemma_finished(*cfg, pattern, g, names, known, output, bound);
    }
    Ok((graph, input_names))
}

/// Generates graphs until one is well-formed, from a new seed after each failure.
fn generate_until_ok(cfg: &GenConfig, rng: &mut StdRng, pattern: Option<Pattern>) -> (r: Option<
    (Graph, Vec<String>),
>)
    ensures
        match r {
            Some((graph, names)) => generated(*cfg, pattern, graph@, string_views(names@)),
            None => !growth_fits(*cfg),
        },
{
    let mut attempts: u64 = 0;
    while attempts < u64::MAX
        invariant
            attempts > 0 ==> !growth_fits(*cfg),
        decreases u64::MAX - attempts,
    {
        match try_generated_graph(cfg, rng, pattern) {
            Ok(result) => {
                return Some(result);
            }
            Err(_) => {}
        }
        let retry_seed: u64 = draw_u64(rng);
        *rng = seeded(retry_seed);
        attempts += 1;
    }
    None
}

/// Generates a random well-typed graph and its input names.
///
/// Returns `None` only when `u64::MAX` attempts in a row drew a constant with too many
/// elements, which cannot happen where the configuration bounds the element counts.
#[must_use]
pub fn random_graph(cfg: &GenConfig, rng: &mut StdRng) -> (r: Option<(Graph, Vec<String>)>)
    ensures
        match r {
            Some((graph, names)) => generated(*cfg, None, graph@, string_views(names@)),
            None => !growth_fits(*cfg),
        },
{
    generate_until_ok(cfg, rng, None)
}

/// Generates a random well-typed graph containing `pattern` and its input names.
///
/// Returns `None` only when `u64::MAX` attempts in a row drew a constant with too many
/// elements, which cannot happen where the configuration bounds the element counts.
#[must_use]
pub fn graph_with_pattern(cfg: &GenConfig, rng: &mut StdRng, pattern: Pattern) -> (r: Option<
    (Graph, Vec<String>),
>)
    ensures
        match r {
            Some((graph, names)) => generated(*cfg, Some(pattern), graph@, string_views(names@)),
            None => !growth_fits(*cfg),
        },
{
    generate_until_ok(cfg, rng, Some(pattern))
}

/// The number that is drawn as `v`: half of it for floats.
pub open spec fn number_of(dtype: DType, v: int) -> real {
    match dtype {
        DType::F32 | DType::F64 => clamped(v, i32::MIN as int, i32::MAX as int) as real * two_to(
            -1,
        ),
        _ => v as real,
    }
}

/// A number that may be drawn for a value range.
pub open spec fn drawn_number(dtype: DType, x: real, value_range: i64) -> bool {
    exists|v: int|
        drawn_integer(v, value_range) && x == #[trigger] number_of(
            dtype,
            v,
        )
}

/// A tensor of the declared shape and of numbers that may be drawn.
pub open spec fn drawn_tensor(ty: TypeView, t: Tensor, value_range: i64) -> bool {
    t@.shape == ty.shape && forall|i: int|
        0 <= i < t@.data.len() ==> drawn_number(
            ty.dtype,
            (#[trigger] t@.data[i]).value(),
            value_range,
        )
}

/// Which tensors suit a declared input.
pub open spec fn drawn_tensors(value_range: i64) -> spec_fn(TypeView, Tensor) -> bool {
    |ty: TypeView, t: Tensor| drawn_tensor(ty, t, value_range)
}

/// The input at `k` gets a tensor: it is a numeric input whose element count fits.
pub open spec fn supplied(g: GraphView, k: int) -> bool {
    match listed(g, k) {
        Some(OpView::Input { name, ty }) => ty.dtype.numeric() && numel_fits(ty.shape),
        _ => false,
    }
}

/// Draws a tensor for an input, where it is numeric and its element count fits.
fn draw_tensor(ty: &TensorType, value_range: i64, rng: &mut StdRng) -> (r: Option<Tensor>)
    ensures
        r is Some <==> ty.dtype.numeric() && numel_fits(ty@.shape),
        r is Some ==> drawn_tensor(ty@, r->Some_0, value_range),
{
    let count: usize = match ty.shape.numel() {
        Ok(count) => count,
        Err(_) => {
            return None;
        }
    };
    proof {
        crate::shape::lemma_numel_fits_prefix(ty@.shape, 0);
    }
    match ty.dtype {
        DType::F32 | DType::F64 => {
            let values = doubles(count, value_range, rng);
            let ghost data = DataView::F64(values@);
            proof {
                assert forall|i: int| 0 <= i < values@.len() implies finite64(
                    #[trigger] values@[i],
                ) by {
                    assert(drawn_double(values@[i], value_range));
                }
            }
            match Tensor::from_f64(ty.shape.clone(), values.as_slice()) {
                Ok(t) => {
                    proof {
                        assert forall|i: int| 0 <= i < t@.data.len() implies drawn_number(
                            ty.dtype,
                            (#[trigger] t@.data[i]).value(),
                            value_range,
                        ) by {
                            let m = meaning::<Exact>(t@);
                            assert(m.data == lifted::<Exact>(data));
                            assert(m.data[i] == t@.data[i].value());
                            assert(lifted::<Exact>(data)[i] == value64(values@[i]));
                            assert(drawn_double(values@[i], value_range));
                            let v = choose|v: int|
                                drawn_integer(v, value_range) && half_in_double(
                                    values@[i],
                                    #[trigger] clamped(v, i32::MIN as int, i32::MAX as int),
                                );
                            assert(t@.data[i].value() == number_of(ty.dtype, v));
                        }
                    }
                    Some(t)
                }
                Err(_) => None,
            }
        }
        DType::I32 | DType::I64 => {
            let values = integers(count, value_range, rng);
            let ghost reals = values@.map_values(|v: i64| v as real);
            match Tensor::from_i64(ty.shape.clone(), values.as_slice()) {
                Ok(t) => {
                    proof {
                        assert forall|i: int| 0 <= i < t@.data.len() implies drawn_number(
                            ty.dtype,
                            (#[trigger] t@.data[i]).value(),
                            value_range,
                        ) by {
                            let m = meaning::<Exact>(t@);
                            assert(m.data == reals);
                            assert(m.data[i] == t@.data[i].value());
                            assert(reals[i] == values@[i] as real);
                            assert(t@.data[i].value() == number_of(ty.dtype, values@[i] as int));
                        }
                    }
                    Some(t)
                }
                Err(_) => None,
            }
        }
        DType::Bool => None,
    }
}

/// Generates random interpreter inputs for a graph's declared inputs.
///
/// Generated values are small and bounded. Integer dtypes use exact integer
/// tensors; floating dtypes use finite dyadic values. Boolean inputs get none.
#[must_use]
pub fn random_inputs(graph: &Graph, value_range: i64, rng: &mut StdRng) -> (r: Bindings<Tensor>)
    ensures
        served(graph@, graph@.inputs.len() as int, r, drawn_tensors(value_range)),
        forall|k: int|
            0 <= k < graph@.inputs.len() && #[trigger] supplied(graph@, k) ==> r.lookup(
                listed(graph@, k)->Some_0->Input_name,
            ) is Some,
{
    let ghost g = graph@;
    let ghost suits = drawn_tensors(value_range);
    let mut inputs: Bindings<Tensor> = Bindings::new();
    let mut k: usize = 0;
    while k < graph.inputs.len()
        invariant
            k <= g.inputs.len(),
            g == graph@,
            suits == drawn_tensors(value_range),
            served(g, k as int, inputs, suits),
            forall|j: int|
                0 <= j < k && #[trigger] supplied(g, j) ==> inputs.lookup(
                    listed(g, j)->Some_0->Input_name,
                ) is Some,
        decreases g.inputs.len() - k,
    {
        let id: NodeId = graph.inputs[k];
        let ghost before = inputs;
        proof {
            lemma_served_more(g, k as int, inputs, suits);
        }
        if id.0 < graph.nodes.len() {
            assert(listed(g, k as int) == Some(graph.nodes@[id.0 as int].op@));
            match &graph.nodes[id.0].op {
                Op::Input { name, ty } => {
                    match draw_tensor(ty, value_range, rng) {
                        Some(tensor) => {
                            inputs.insert(name.clone(), tensor);
                            proof {
                                lemma_served_insert(
                                    g,
                                    k as int,
                                    before,
                                    inputs,
                                    suits,
                                    name@,
                                    ty@,
                                    tensor,
                                );
                                assert forall|j: int|
                                    0 <= j < k + 1 && #[trigger] supplied(
                                        g,
                                        j,
                                    ) implies inputs.lookup(
                                    listed(g, j)->Some_0->Input_name,
                                ) is Some by {
                                    if j < k {
                                        assert(before.lookup(
                                            listed(g, j)->Some_0->Input_name,
                                        ) is Some);
                                    }
                                }
                            }
                        }
                        None => {}
                    }
                }
                _ => {}
            }
        }
        k += 1;
    }
    inputs
}

/// Different numbers have different decimal texts.
proof fn lemma_decimal_injective(a: nat, b: nat)
    requires
        decimal(a) == decimal(b),
    ensures
        a == b,
{
    crate::options::lemma_decimal(a);
    crate::options::lemma_decimal(b);
}

/// Inputs of a generated graph with the same name are the same input.
proof fn lemma_names_distinct(g: GraphView, names: Seq<Seq<char>>, j: int, k: int)
    requires
        names_inputs(g, names),
        0 <= j < names.len(),
        0 <= k < names.len(),
        names[j] == names[k],
    ensures
        j == k,
{
    assert(g.nodes[g.inputs[j].0 as int] is Input);
    assert(g.nodes[g.inputs[k].0 as int] is Input);
    reveal_strlit("x");
    let a = input_name(j as nat);
    let b = input_name(k as nat);
    assert(a.skip(1) =~= decimal(j as nat));
    assert(b.skip(1) =~= decimal(k as nat));
    lemma_decimal_injective(j as nat, k as nat);
}

/// A generated graph evaluates on the inputs that are drawn for it, unless its element counts
/// may overflow.
pub proof fn generated_graphs_evaluate(
    cfg: GenConfig,
    pattern: Option<Pattern>,
    g: GraphView,
    names: Seq<Seq<char>>,
    value_range: i64,
    inputs: Bindings<Tensor>,
)
    requires
        growth_fits(cfg),
        generated(cfg, pattern, g, names),
        served(g, g.inputs.len() as int, inputs, drawn_tensors(value_range)),
        forall|k: int|
            0 <= k < g.inputs.len() && #[trigger] supplied(g, k) ==> inputs.lookup(
                listed(g, k)->Some_0->Input_name,
            ) is Some,
        inputs_filled(bound::<Exact>(inputs)),
    ensures
        eval_graph::<Exact>(g, bound::<Exact>(inputs)) is Ok,
{
    let given = bound::<Exact>(inputs);
    let types = infer_graph(g)->Ok_0;
    crate::graph::validation_accepts_exactly_well_formed(g);
    crate::infer::lemma_infer_prefix(g.nodes, g.nodes.len());
    assert forall|i: int| 0 <= i < types.len() implies numel_fits((#[trigger] types[i]).shape) by {
        assert(type_within(types[i], numeric_of(cfg.dtype), usize::MAX as nat));
        lemma_positive(types[i].shape);
    }
    assert forall|i: int| 0 <= i < g.nodes.len() implies leaf_error(
        #[trigger] g.nodes[i],
        given,
    ) is None by {
        match g.nodes[i] {
            OpView::Input { name, ty } => {
                assert(is_listed(g, i));
                let k = choose|k: int| 0 <= k < g.inputs.len() && (#[trigger] g.inputs[k]).0 == i;
                assert(node_type(g.nodes[i], types.take(i)) == Ok::<TypeView, TypeErrorView>(
                    types[i],
                ));
                assert(type_within(types[i], numeric_of(cfg.dtype), usize::MAX as nat));
                assert(names[k] == name);
                assert(supplied(g, k));
                let t = inputs.lookup(name)->Some_0;
                let other = choose|other: TypeView| #[trigger]
                    declared(g, g.inputs.len() as int, name, other) && drawn_tensors(value_range)(
                        other,
                        t,
                    );
                let j = choose|j: int|
                    0 <= j < g.inputs.len() && #[trigger] listed(g, j) == Some(
                        OpView::Input { name, ty: other },
                    );
                assert(g.inputs[j].0 < g.nodes.len());
                assert(names[j] == name);
                lemma_names_distinct(g, names, j, k);
                assert(other == ty);
            },
            _ => {},
        }
    }
    let errors = leaf_errors(g.nodes, given);
    assert forall|i: int| 0 <= i < errors.len() implies errors[i] is None by {
        assert(leaf_error(g.nodes[i], given) is None);
    }
    crate::seqs::lemma_first_some_none(errors);
    well_typed_graphs_evaluate::<Exact>(g, given);
}

} // verus!

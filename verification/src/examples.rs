//! Built-in graph examples.
use vstd::prelude::*;

use crate::bindings::{same_text, Bindings};
use crate::builder::{lemma_append_error, under_construction, GraphBuilder};
use crate::dtype::DType;
use crate::graph::{validation_accepts_exactly_well_formed, well_formed, Graph, GraphView};
use crate::infer::{axis_error, infer_graph, infer_nodes, node_type, reduced_shape, TypeErrorView};
use crate::op::{NodeId, Op, OpView};
use crate::pipeline_error::{PipelineError, PipelineErrorView};
use crate::seqs::{first_some, lemma_first_some_at, lemma_first_some_none};
use crate::shape::{Dim, Shape};
use crate::tensor_type::TypeView;
use crate::text::string_views;

verus! {

/// A graph with the names of its inputs, or why there is none.
pub type ExampleResult = Result<(GraphView, Seq<Seq<char>>), PipelineErrorView>;

/// The error of a parameter that an example does not use.
pub open spec fn key_error(shapes: Bindings<usize>, allowed: Seq<Seq<char>>, key: Seq<char>) ->
    Option<PipelineErrorView> {
    if allowed.contains(key) {
        None
    } else {
        Some(
            PipelineErrorView::InvalidShape {
                key,
                value: shapes.lookup(key)->Some_0,
                reason: "shape parameter is not used by this example"@,
            },
        )
    }
}

pub open spec fn key_errors(shapes: Bindings<usize>, allowed: Seq<Seq<char>>) -> Seq<
    Option<PipelineErrorView>,
> {
    shapes.names().map_values(|key: Seq<char>| key_error(shapes, allowed, key))
}

/// The first parameter that an example does not use.
pub open spec fn unused_key(shapes: Bindings<usize>, allowed: Seq<Seq<char>>) -> Option<
    PipelineErrorView,
> {
    first_some(key_errors(shapes, allowed))
}

/// The value of a parameter, which is positive.
pub open spec fn param(shapes: Bindings<usize>, key: Seq<char>, default: usize) -> Result<
    usize,
    PipelineErrorView,
> {
    let value = match shapes.lookup(key) {
        Some(v) => v,
        None => default,
    };
    if value == 0 {
        Err(
            PipelineErrorView::InvalidShape {
                key,
                value,
                reason: "dimension must be positive"@,
            },
        )
    } else {
        Ok(value)
    }
}

/// A matrix input of doubles.
pub open spec fn matrix_input(name: Seq<char>, rows: usize, columns: usize) -> OpView {
    OpView::Input {
        name,
        ty: TypeView { dtype: DType::F64, shape: seq![rows as nat, columns as nat] },
    }
}

/// `A * B` for matrices of the given extents.
pub open spec fn matmul_graph(m: usize, k: usize, n: usize) -> GraphView {
    GraphView::empty().with_node(matrix_input("A"@, m, k)).with_node(
        matrix_input("B"@, k, n),
    ).with_node(OpView::Matmul(NodeId(0), NodeId(1))).with_output(NodeId(2))
}

/// `relu(X + Y)` for matrices of the given extents.
pub open spec fn add_relu_graph(d0: usize, d1: usize) -> GraphView {
    GraphView::empty().with_node(matrix_input("X"@, d0, d1)).with_node(
        matrix_input("Y"@, d0, d1),
    ).with_node(OpView::Add(NodeId(0), NodeId(1))).with_node(OpView::Relu(NodeId(2))).with_output(
        NodeId(3),
    )
}

/// The row sums of `relu(A * B)`.
pub open spec fn matmul_relu_sum_graph(m: usize, k: usize, n: usize) -> GraphView {
    GraphView::empty().with_node(matrix_input("A"@, m, k)).with_node(
        matrix_input("B"@, k, n),
    ).with_node(OpView::Matmul(NodeId(0), NodeId(1))).with_node(OpView::Relu(NodeId(2))).with_node(
        OpView::Sum { input: NodeId(3), axes: seq![1usize], keepdim: false },
    ).with_output(NodeId(4))
}

/// `relu(X * W1) * W2`.
pub open spec fn two_matmul_graph(m: usize, k: usize, h: usize, n: usize) -> GraphView {
    GraphView::empty().with_node(matrix_input("X"@, m, k)).with_node(
        matrix_input("W1"@, k, h),
    ).with_node(matrix_input("W2"@, h, n)).with_node(
        OpView::Matmul(NodeId(0), NodeId(1)),
    ).with_node(OpView::Relu(NodeId(3))).with_node(
        OpView::Matmul(NodeId(4), NodeId(2)),
    ).with_output(NodeId(5))
}

pub open spec fn matmul_example(shapes: Bindings<usize>) -> ExampleResult {
    match unused_key(shapes, seq!["M"@, "K"@, "N"@]) {
        Some(e) => Err(e),
        None => match param(shapes, "M"@, 8) {
            Err(e) => Err(e),
            Ok(m) => match param(shapes, "K"@, 8) {
                Err(e) => Err(e),
                Ok(k) => match param(shapes, "N"@, 8) {
                    Err(e) => Err(e),
                    Ok(n) => Ok((matmul_graph(m, k, n), seq!["A"@, "B"@])),
                },
            },
        },
    }
}

pub open spec fn add_relu_example(shapes: Bindings<usize>) -> ExampleResult {
    match unused_key(shapes, seq!["D0"@, "D1"@]) {
        Some(e) => Err(e),
        None => match param(shapes, "D0"@, 8) {
            Err(e) => Err(e),
            Ok(d0) => match param(shapes, "D1"@, 8) {
                Err(e) => Err(e),
                Ok(d1) => Ok((add_relu_graph(d0, d1), seq!["X"@, "Y"@])),
            },
        },
    }
}

pub open spec fn matmul_relu_sum_example(shapes: Bindings<usize>) -> ExampleResult {
    match unused_key(shapes, seq!["M"@, "K"@, "N"@]) {
        Some(e) => Err(e),
        None => match param(shapes, "M"@, 8) {
            Err(e) => Err(e),
            Ok(m) => match param(shapes, "K"@, 8) {
                Err(e) => Err(e),
                Ok(k) => match param(shapes, "N"@, 8) {
                    Err(e) => Err(e),
                    Ok(n) => Ok((matmul_relu_sum_graph(m, k, n), seq!["A"@, "B"@])),
                },
            },
        },
    }
}

pub open spec fn two_matmul_example(shapes: Bindings<usize>) -> ExampleResult {
    match unused_key(shapes, seq!["M"@, "K"@, "H"@, "N"@]) {
        Some(e) => Err(e),
        None => match param(shapes, "M"@, 4) {
            Err(e) => Err(e),
            Ok(m) => match param(shapes, "K"@, 4) {
                Err(e) => Err(e),
                Ok(k) => match param(shapes, "H"@, 4) {
                    Err(e) => Err(e),
                    Ok(h) => match param(shapes, "N"@, 4) {
                        Err(e) => Err(e),
                        Ok(n) => Ok((two_matmul_graph(m, k, h, n), seq!["X"@, "W1"@, "W2"@])),
                    },
                },
            },
        },
    }
}

/// The example of a name.
pub open spec fn example_graph(name: Seq<char>, shapes: Bindings<usize>) -> ExampleResult {
    if name == "matmul"@ {
        matmul_example(shapes)
    } else if name == "add-relu"@ {
        add_relu_example(shapes)
    } else if name == "matmul-relu-sum"@ {
        matmul_relu_sum_example(shapes)
    } else if name == "two-matmul"@ {
        two_matmul_example(shapes)
    } else {
        Err(PipelineErrorView::UnknownExample(name))
    }
}

/// Whether the result is the given one.
pub open spec fn example_is(r: Result<(Graph, Vec<String>), PipelineError>, want: ExampleResult) ->
    bool {
    match r {
        Ok((graph, names)) => want == Ok::<(GraphView, Seq<Seq<char>>), PipelineErrorView>(
            (graph@, string_views(names@)),
        ),
        Err(e) => want == Err::<(GraphView, Seq<Seq<char>>), PipelineErrorView>(e@),
    }
}

/// Checks that every parameter is one that the example uses.
fn validate_keys(shapes: &Bindings<usize>, allowed: &Vec<&str>) -> (r: Result<(), PipelineError>)
    ensures
        match r {
            Ok(_) => unused_key(*shapes, allowed@.map_values(|s: &str| s@)) is None,
            Err(e) => unused_key(*shapes, allowed@.map_values(|s: &str| s@)) == Some(e@),
        },
{
    let ghost keys = allowed@.map_values(|s: &str| s@);
    let ghost errors = key_errors(*shapes, keys);
    let mut i: usize = 0;
    while i < shapes.len()
        invariant
            i <= shapes.names().len(),
            keys == allowed@.map_values(|s: &str| s@),
            errors == key_errors(*shapes, keys),
            forall|j: int| 0 <= j < i ==> errors[j] is None,
        decreases shapes.names().len() - i,
    {
        let key = shapes.name(i);
        let mut found = false;
        let mut a: usize = 0;
        while a < allowed.len()
            invariant
                a <= allowed@.len(),
                keys == allowed@.map_values(|s: &str| s@),
                found ==> keys.contains(key@),
                !found ==> forall|j: int| 0 <= j < a ==> keys[j] != key@,
            decreases allowed@.len() - a,
        {
            if same_text(allowed[a], key) {
                found = true;
                assert(keys[a as int] == key@);
            }
            a += 1;
        }
        if !found {
            let value: usize = match shapes.get(key) {
                Some(v) => *v,
                None => 0,
            };
            proof {
                assert(errors[i as int] is Some);
                lemma_first_some_at(errors, i as int);
            }
            return Err(
                PipelineError::InvalidShape {
                    key: String::from_str(key),
                    value,
                    reason: String::from_str("shape parameter is not used by this example"),
                },
            );
        }
        i += 1;
    }
    proof {
        lemma_first_some_none(errors);
    }
    Ok(())
}

fn shape_param(shapes: &Bindings<usize>, key: &str, default: usize) -> (r: Result<
    usize,
    PipelineError,
>)
    ensures
        match r {
            Ok(v) => param(*shapes, key@, default) == Ok::<usize, PipelineErrorView>(v),
            Err(e) => param(*shapes, key@, default) == Err::<usize, PipelineErrorView>(e@),
        },
{
    let value: usize = match shapes.get(key) {
        Some(v) => *v,
        None => default,
    };
    if value == 0 {
        return Err(
            PipelineError::InvalidShape {
                key: String::from_str(key),
                value,
                reason: String::from_str("dimension must be positive"),
            },
        );
    }
    Ok(value)
}

/// A shape of rank two.
fn matrix(rows: usize, columns: usize) -> (r: Shape)
    ensures
        r@ == seq![rows as nat, columns as nat],
{
    let mut dims: Vec<Dim> = Vec::new();
    dims.push(Dim(rows));
    dims.push(Dim(columns));
    let r = Shape { dims };
    proof {
        assert(r@ =~= seq![rows as nat, columns as nat]);
    }
    r
}

/// Appends a matrix input of doubles.
fn input(builder: &mut GraphBuilder, name: &str, rows: usize, columns: usize) -> (r: NodeId)
    requires
        old(builder)@.nodes.len() < 100,
    ensures
        r == NodeId(old(builder)@.nodes.len() as usize),
        final(builder)@ == old(builder)@.with_node(matrix_input(name@, rows, columns)),
{
    match builder.input(name, DType::F64, matrix(rows, columns)) {
        Ok(id) => id,
        Err(_) => NodeId(0),
    }
}

/// Appends an operation on nodes that are there.
fn append(builder: &mut GraphBuilder, op: Op) -> (r: NodeId)
    requires
        old(builder)@.nodes.len() < 100,
        !(op@ is Const),
        forall|k: int|
            0 <= k < op@.operands().len() ==> (#[trigger] op@.operands()[k]).0 < old(
                builder,
            )@.nodes.len(),
    ensures
        r == NodeId(old(builder)@.nodes.len() as usize),
        final(builder)@ == old(builder)@.with_node(op@),
{
    proof {
        lemma_append_error(builder@.nodes.len(), op@);
    }
    match builder.append(op) {
        Ok(id) => id,
        Err(_) => NodeId(0),
    }
}

/// Marks the output and builds the graph.
fn finish(builder: GraphBuilder, output: NodeId, inputs: Vec<&str>) -> (r: Result<
    (Graph, Vec<String>),
    PipelineError,
>)
    requires
        output.0 < builder@.nodes.len(),
        under_construction(builder@),
    ensures
        r is Ok,
        r->Ok_0.0@ == builder@.with_output(output),
        well_formed(r->Ok_0.0@),
        string_views(r->Ok_0.1@) == inputs@.map_values(|s: &str| s@),
{
    let mut builder = builder;
    let ghost g = builder@;
    match builder.mark_output(output) {
        Ok(()) => {}
        Err(e) => {
            return Err(PipelineError::Ir(e));
        }
    }
    proof {
        let out = builder@;
        assert forall|k: int| 0 <= k < out.inputs.len() implies (#[trigger] out.inputs[k]).0
            < out.nodes.len() && out.nodes[out.inputs[k].0 as int] is Input by {
            assert(out.inputs[k] == g.inputs[k]);
        }
        assert(under_construction(out));
    }
    let graph = match builder.build() {
        Ok(graph) => graph,
        Err(e) => {
            return Err(PipelineError::Ir(e));
        }
    };
    let mut names: Vec<String> = Vec::new();
    let mut i: usize = 0;
    while i < inputs.len()
        invariant
            i <= inputs@.len(),
            names@.len() == i,
            forall|j: int| 0 <= j < i ==> (#[trigger] names@[j])@ == inputs@[j]@,
        decreases inputs@.len() - i,
    {
        names.push(String::from_str(inputs[i]));
        i += 1;
    }
    proof {
        assert(string_views(names@) =~= inputs@.map_values(|s: &str| s@));
    }
    Ok((graph, names))
}

/// A graph without constants whose nodes use earlier nodes and whose inputs are listed.
proof fn lemma_built(g: GraphView)
    requires
        forall|i: int| 0 <= i < g.nodes.len() ==> !(#[trigger] g.nodes[i] is Const),
        forall|i: int, k: int|
            0 <= i < g.nodes.len() && 0 <= k < g.nodes[i].operands().len() ==> (
            #[trigger] g.nodes[i].operands()[k]).0 < i,
        forall|k: int|
            0 <= k < g.inputs.len() ==> (#[trigger] g.inputs[k]).0 < g.nodes.len()
                && g.nodes[g.inputs[k].0 as int] is Input,
        g.outputs.len() == 0,
    ensures
        under_construction(g),
{
}

fn build_matmul(shapes: &Bindings<usize>) -> (r: Result<(Graph, Vec<String>), PipelineError>)
    ensures
        example_is(r, matmul_example(*shapes)),
        r is Ok ==> well_formed(r->Ok_0.0@),
{
    let keys: Vec<&str> = vec!["M", "K", "N"];
    proof {
        assert(keys@.map_values(|s: &str| s@) =~= seq!["M"@, "K"@, "N"@]);
    }
    validate_keys(shapes, &keys)?;
    let m: usize = shape_param(shapes, "M", 8)?;
    let k: usize = shape_param(shapes, "K", 8)?;
    let n: usize = shape_param(shapes, "N", 8)?;
    let mut builder = GraphBuilder::new();
    let left = input(&mut builder, "A", m, k);
    let right = input(&mut builder, "B", k, n);
    let output = append(&mut builder, Op::Matmul(left, right));
    let names: Vec<&str> = vec!["A", "B"];
    proof {
        assert(names@.map_values(|s: &str| s@) =~= seq!["A"@, "B"@]);
        lemma_built(builder@);
    }
    finish(builder, output, names)
}

fn build_add_relu(shapes: &Bindings<usize>) -> (r: Result<(Graph, Vec<String>), PipelineError>)
    ensures
        example_is(r, add_relu_example(*shapes)),
        r is Ok ==> well_formed(r->Ok_0.0@),
{
    let keys: Vec<&str> = vec!["D0", "D1"];
    proof {
        assert(keys@.map_values(|s: &str| s@) =~= seq!["D0"@, "D1"@]);
    }
    validate_keys(shapes, &keys)?;
    let d0: usize = shape_param(shapes, "D0", 8)?;
    let d1: usize = shape_param(shapes, "D1", 8)?;
    let mut builder = GraphBuilder::new();
    let left = input(&mut builder, "X", d0, d1);
    let right = input(&mut builder, "Y", d0, d1);
    let sum = append(&mut builder, Op::Add(left, right));
    let output = append(&mut builder, Op::Relu(sum));
    let names: Vec<&str> = vec!["X", "Y"];
    proof {
        assert(names@.map_values(|s: &str| s@) =~= seq!["X"@, "Y"@]);
        lemma_built(builder@);
    }
    finish(builder, output, names)
}

fn build_matmul_relu_sum(shapes: &Bindings<usize>) -> (r: Result<
    (Graph, Vec<String>),
    PipelineError,
>)
    ensures
        example_is(r, matmul_relu_sum_example(*shapes)),
        r is Ok ==> well_formed(r->Ok_0.0@),
{
    let keys: Vec<&str> = vec!["M", "K", "N"];
    proof {
        assert(keys@.map_values(|s: &str| s@) =~= seq!["M"@, "K"@, "N"@]);
    }
    validate_keys(shapes, &keys)?;
    let m: usize = shape_param(shapes, "M", 8)?;
    let k: usize = shape_param(shapes, "K", 8)?;
    let n: usize = shape_param(shapes, "N", 8)?;
    let mut builder = GraphBuilder::new();
    let left = input(&mut builder, "A", m, k);
    let right = input(&mut builder, "B", k, n);
    let product = append(&mut builder, Op::Matmul(left, right));
    let relu = append(&mut builder, Op::Relu(product));
    let axes: Vec<usize> = vec![1];
    proof {
        assert(axes@ =~= seq![1usize]);
    }
    let output = append(&mut builder, Op::Sum { input: relu, axes, keepdim: false });
    let names: Vec<&str> = vec!["A", "B"];
    proof {
        assert(names@.map_values(|s: &str| s@) =~= seq!["A"@, "B"@]);
        lemma_built(builder@);
    }
    finish(builder, output, names)
}

fn build_two_matmul(shapes: &Bindings<usize>) -> (r: Result<(Graph, Vec<String>), PipelineError>)
    ensures
        example_is(r, two_matmul_example(*shapes)),
        r is Ok ==> well_formed(r->Ok_0.0@),
{
    let keys: Vec<&str> = vec!["M", "K", "H", "N"];
    proof {
        assert(keys@.map_values(|s: &str| s@) =~= seq!["M"@, "K"@, "H"@, "N"@]);
    }
    validate_keys(shapes, &keys)?;
    let m: usize = shape_param(shapes, "M", 4)?;
    let k: usize = shape_param(shapes, "K", 4)?;
    let h: usize = shape_param(shapes, "H", 4)?;
    let n: usize = shape_param(shapes, "N", 4)?;
    let mut builder = GraphBuilder::new();
    let input_x = input(&mut builder, "X", m, k);
    let weight_1 = input(&mut builder, "W1", k, h);
    let weight_2 = input(&mut builder, "W2", h, n);
    let hidden = append(&mut builder, Op::Matmul(input_x, weight_1));
    let active = append(&mut builder, Op::Relu(hidden));
    let output = append(&mut builder, Op::Matmul(active, weight_2));
    let names: Vec<&str> = vec!["X", "W1", "W2"];
    proof {
        assert(names@.map_values(|s: &str| s@) =~= seq!["X"@, "W1"@, "W2"@]);
        lemma_built(builder@);
    }
    finish(builder, output, names)
}

/// Builds a named example graph and returns it with input names in declaration order.
///
/// Shape parameters are supplied as uppercase names such as `M`, `K`, or `D0`.
/// Missing parameters use small defaults.
///
/// # Errors
///
/// Returns [`PipelineError::UnknownExample`] for an unknown name, or
/// [`PipelineError::InvalidShape`] when a supplied shape parameter is unknown
/// or zero.
pub fn build_example(name: &str, shapes: &Bindings<usize>) -> (r: Result<
    (Graph, Vec<String>),
    PipelineError,
>)
    ensures
        example_is(r, example_graph(name@, *shapes)),
        r is Ok ==> well_formed(r->Ok_0.0@),
{
    if same_text(name, "matmul") {
        build_matmul(shapes)
    } else if same_text(name, "add-relu") {
        build_add_relu(shapes)
    } else if same_text(name, "matmul-relu-sum") {
        build_matmul_relu_sum(shapes)
    } else if same_text(name, "two-matmul") {
        build_two_matmul(shapes)
    } else {
        Err(PipelineError::UnknownExample(String::from_str(name)))
    }
}

/// The built-in examples with their default parameters.
pub open spec fn example_list() -> Seq<(Seq<char>, Seq<char>)> {
    seq![
        ("matmul"@, "M=8,K=8,N=8"@),
        ("add-relu"@, "D0=8,D1=8"@),
        ("matmul-relu-sum"@, "M=8,K=8,N=8"@),
        ("two-matmul"@, "M=4,K=4,H=4,N=4"@),
    ]
}

/// Lists built-in example names with their default shape descriptions.
#[must_use]
pub fn list_examples() -> (r: Vec<(&'static str, &'static str)>)
    ensures
        r@.map_values(|e: (&'static str, &'static str)| (e.0@, e.1@)) == example_list(),
{
    let r: Vec<(&'static str, &'static str)> = vec![
        ("matmul", "M=8,K=8,N=8"),
        ("add-relu", "D0=8,D1=8"),
        ("matmul-relu-sum", "M=8,K=8,N=8"),
        ("two-matmul", "M=4,K=4,H=4,N=4"),
    ];
    proof {
        assert(r@.map_values(|e: (&'static str, &'static str)| (e.0@, e.1@)) =~= example_list());
    }
    r
}

/// A listed example is built where no parameters are given.
pub proof fn listed_examples_build(i: int, shapes: Bindings<usize>)
    requires
        0 <= i < example_list().len(),
        shapes.names().len() == 0,
        forall|name: Seq<char>| #[trigger] shapes.lookup(name) is None,
    ensures
        example_graph(example_list()[i].0, shapes) is Ok,
{
    reveal_strlit("matmul");
    reveal_strlit("add-relu");
    reveal_strlit("matmul-relu-sum");
    reveal_strlit("two-matmul");
}

/// Types that fit node by node are the inferred ones.
proof fn lemma_types(nodes: Seq<OpView>, n: nat, types: Seq<TypeView>)
    requires
        n <= nodes.len(),
        types.len() == n,
        forall|i: int|
            0 <= i < n ==> node_type(#[trigger] nodes[i], types.take(i)) == Ok::<
                TypeView,
                TypeErrorView,
            >(types[i]),
    ensures
        infer_nodes(nodes, n) == Ok::<Seq<TypeView>, TypeErrorView>(types),
    decreases n,
{
    if n > 0 {
        let before = types.drop_last();
        assert forall|i: int| 0 <= i < n - 1 implies node_type(#[trigger] nodes[i], before.take(i))
            == Ok::<TypeView, TypeErrorView>(before[i]) by {
            assert(before.take(i) =~= types.take(i));
        }
        lemma_types(nodes, (n - 1) as nat, before);
        assert(types.take(n - 1) =~= before);
        assert(before.push(types[n - 1]) =~= types);
    } else {
        assert(types =~= Seq::empty());
    }
}

/// A matrix type of doubles.
pub open spec fn matrix_type(rows: usize, columns: usize) -> TypeView {
    TypeView { dtype: DType::F64, shape: seq![rows as nat, columns as nat] }
}

proof fn lemma_matmul_types(m: usize, k: usize, n: usize)
    ensures
        infer_graph(matmul_graph(m, k, n)) is Ok,
{
    let g = matmul_graph(m, k, n);
    assert(well_formed(g));
    validation_accepts_exactly_well_formed(g);
    let types = seq![matrix_type(m, k), matrix_type(k, n), matrix_type(m, n)];
    lemma_types(g.nodes, 3, types);
}

proof fn lemma_add_relu_types(d0: usize, d1: usize)
    ensures
        infer_graph(add_relu_graph(d0, d1)) is Ok,
{
    let g = add_relu_graph(d0, d1);
    assert(well_formed(g));
    validation_accepts_exactly_well_formed(g);
    let t = matrix_type(d0, d1);
    lemma_types(g.nodes, 4, seq![t, t, t, t]);
}

proof fn lemma_matmul_relu_sum_types(m: usize, k: usize, n: usize)
    ensures
        infer_graph(matmul_relu_sum_graph(m, k, n)) is Ok,
{
    let g = matmul_relu_sum_graph(m, k, n);
    assert(well_formed(g));
    validation_accepts_exactly_well_formed(g);
    let product = matrix_type(m, n);
    let sums = TypeView {
        dtype: DType::F64,
        shape: reduced_shape(product.shape, seq![1usize], false),
    };
    let axes = seq![1usize];
    let errors = Seq::new(axes.len(), |i: int| axis_error(axes, 2, i));
    assert(axes.take(0) =~= Seq::empty());
    lemma_first_some_none(errors);
    let types = seq![matrix_type(m, k), matrix_type(k, n), product, product, sums];
    lemma_types(g.nodes, 5, types);
}

proof fn lemma_two_matmul_types(m: usize, k: usize, h: usize, n: usize)
    ensures
        infer_graph(two_matmul_graph(m, k, h, n)) is Ok,
{
    let g = two_matmul_graph(m, k, h, n);
    assert(well_formed(g));
    validation_accepts_exactly_well_formed(g);
    let types = seq![
        matrix_type(m, k),
        matrix_type(k, h),
        matrix_type(h, n),
        matrix_type(m, h),
        matrix_type(m, h),
        matrix_type(m, n),
    ];
    lemma_types(g.nodes, 6, types);
}

/// Every example that is built is well-typed.
pub proof fn examples_are_well_typed(name: Seq<char>, shapes: Bindings<usize>)
    requires
        example_graph(name, shapes) is Ok,
    ensures
        infer_graph(example_graph(name, shapes)->Ok_0.0) is Ok,
{
    if name == "matmul"@ {
        lemma_matmul_types(
            param(shapes, "M"@, 8)->Ok_0,
            param(shapes, "K"@, 8)->Ok_0,
            param(shapes, "N"@, 8)->Ok_0,
        );
    } else if name == "add-relu"@ {
        lemma_add_relu_types(param(shapes, "D0"@, 8)->Ok_0, param(shapes, "D1"@, 8)->Ok_0);
    } else if name == "matmul-relu-sum"@ {
        lemma_matmul_relu_sum_types(
            param(shapes, "M"@, 8)->Ok_0,
            param(shapes, "K"@, 8)->Ok_0,
            param(shapes, "N"@, 8)->Ok_0,
        );
    } else {
        lemma_two_matmul_types(
            param(shapes, "M"@, 4)->Ok_0,
            param(shapes, "K"@, 4)->Ok_0,
            param(shapes, "H"@, 4)->Ok_0,
            param(shapes, "N"@, 4)->Ok_0,
        );
    }
}

/// The names that come with an example are those of its inputs, in order.
pub proof fn examples_name_their_inputs(name: Seq<char>, shapes: Bindings<usize>)
    requires
        example_graph(name, shapes) is Ok,
    ensures
        ({
            let (g, names) = example_graph(name, shapes)->Ok_0;
            names.len() == g.inputs.len() && forall|i: int|
                0 <= i < names.len() ==> g.nodes[(#[trigger] g.inputs[i]).0 as int] is Input
                    && g.nodes[g.inputs[i].0 as int]->Input_name == names[i]
        }),
{
}

} // verus!

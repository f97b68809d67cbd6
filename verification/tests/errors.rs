//! Tests that give each error, with its message.

use num_bigint::BigInt;
use num_rational::BigRational;
use vtc::{
    eval, eval_loops, graph_to_recexpr, infer_types, lower, prune_and_rebuild, recexpr_to_graph,
    redefine_node, replace_all_uses, AffineExpr, AtomTable, Bindings, Buffer, BufferId, BufferRef,
    BufferRole, DType, Dim, EggError, EggLang, EvalError, Graph, GraphBuilder, IrError, Kernel,
    LoopError, LowerError, Node, NodeId, Op, Rational, RecExpr, ScalarExpr, Shape, Stmt,
    SurgeryError, Tensor, TensorData, TypeError,
};

fn shape(dims: &[usize]) -> Shape {
    Shape::new(dims.iter().copied().map(Dim::new).collect())
}

fn finish(builder: GraphBuilder, output: NodeId) -> Graph {
    let mut builder = builder;
    builder.mark_output(output).expect("output id is valid");
    builder.build().expect("graph is structurally valid")
}

fn one_input(dtype: DType, dims: &[usize]) -> Graph {
    let mut builder = GraphBuilder::new();
    let x = builder.input("x", dtype, shape(dims)).expect("input is valid");
    finish(builder, x)
}

fn bind_x(dims: &[usize], values: &[i64]) -> Bindings<Tensor> {
    let mut bindings = Bindings::new();
    let tensor = Tensor::from_i64(shape(dims), values).expect("tensor is valid");
    bindings.insert("x".to_owned(), tensor);
    bindings
}

#[test]
fn graph_errors() {
    let empty = GraphBuilder::new().build().expect_err("no outputs");
    assert_eq!(empty, IrError::NoOutputs);
    assert_eq!(empty.to_text(), "graph has no outputs");

    let mut builder = GraphBuilder::new();
    let error = builder.neg(NodeId::new(3)).expect_err("no such node");
    assert_eq!(error.to_text(), "invalid node id %3; graph has 0 nodes");
    assert_eq!(builder.mark_output(NodeId::new(0)), Err(IrError::InvalidNodeId {
        id: NodeId::new(0),
        num_nodes: 0,
    }));

    let loop_node = Node::new(Op::Neg(NodeId::new(0)));
    let graph = Graph::new(vec![loop_node], Vec::new(), vec![NodeId::new(0)]);
    let error = graph.validate_structure().expect_err("self reference");
    assert_eq!(
        error.to_text(),
        "node %0 has forward or self reference to operand %0"
    );
    assert_eq!(graph.topo_order().expect_err("cycle").to_text(), "graph contains a cycle");

    let constant = Node::new(Op::Const {
        data: TensorData::I32(vec![1]),
        shape: shape(&[1]),
    });
    let graph = Graph::new(vec![constant], vec![NodeId::new(0)], vec![NodeId::new(0)]);
    let error = graph.validate_structure().expect_err("not an input");
    assert_eq!(error, IrError::NotAnInput(NodeId::new(0)));
    assert_eq!(error.to_text(), "node %0 is not an input");

    let mut builder = GraphBuilder::new();
    let mismatch = builder
        .constant(TensorData::I64(vec![1, 2]), shape(&[3]))
        .expect_err("payload is too short");
    assert_eq!(
        mismatch.to_text(),
        "constant data length mismatch: expected 3, got 2"
    );
    let overflow = builder
        .constant(TensorData::I64(vec![]), shape(&[usize::MAX, 2]))
        .expect_err("shape overflows");
    assert_eq!(overflow.to_text(), "shape element count overflow");
}

#[test]
fn type_errors() {
    let check = |build: &dyn Fn(&mut GraphBuilder, NodeId, NodeId) -> NodeId,
                 l: (DType, &[usize]),
                 r: (DType, &[usize])| {
        let mut builder = GraphBuilder::new();
        let a = builder.input("a", l.0, shape(l.1)).expect("input is valid");
        let b = builder.input("b", r.0, shape(r.1)).expect("input is valid");
        let id = build(&mut builder, a, b);
        infer_types(&finish(builder, id))
            .expect_err("ill-typed")
            .to_text()
    };
    let sub = |b: &mut GraphBuilder, l, r| b.sub(l, r).expect("operands exist");
    let matmul = |b: &mut GraphBuilder, l, r| b.matmul(l, r).expect("operands exist");
    let f = DType::F32;
    assert_eq!(
        check(&sub, (f, &[2]), (f, &[3])),
        "sub shape mismatch: lhs [2], rhs [3]"
    );
    assert_eq!(
        check(&sub, (f, &[2]), (DType::I64, &[2])),
        "sub dtype mismatch: lhs f32, rhs i64"
    );
    assert_eq!(
        check(&sub, (DType::Bool, &[2]), (DType::Bool, &[2])),
        "sub requires numeric dtype, got bool"
    );
    assert_eq!(
        check(&matmul, (f, &[2]), (f, &[2, 2])),
        "matmul requires rank-2 operands, got lhs rank 1, rhs rank 2"
    );
    assert_eq!(
        check(&matmul, (f, &[2, 3]), (f, &[2, 3])),
        "matmul contraction mismatch: lhs [2, 3], rhs [2, 3]"
    );
    let axis = |b: &mut GraphBuilder, l, _| b.sum(l, vec![4], false).expect("operand exists");
    assert_eq!(
        check(&axis, (f, &[2]), (f, &[2])),
        "sum axis 4 is out of range for rank 1"
    );
    let twice = |b: &mut GraphBuilder, l, _| b.sum(l, vec![0, 0], true).expect("operand exists");
    assert_eq!(
        check(&twice, (f, &[2]), (f, &[2])),
        "sum axis 0 appears more than once"
    );
    let reshape = |b: &mut GraphBuilder, l, _| b.reshape(l, shape(&[5])).expect("operand exists");
    assert_eq!(
        check(&reshape, (f, &[2]), (f, &[2])),
        "reshape changes element count from 2 to 5"
    );
    assert_eq!(
        check(&reshape, (f, &[usize::MAX, 2]), (f, &[2])),
        "shape element count overflow"
    );
}

#[test]
fn evaluation_errors() {
    let graph = one_input(DType::I64, &[2]);
    assert_eq!(
        eval(&graph, &Bindings::new()).expect_err("missing").to_text(),
        "missing input \"x\""
    );
    assert_eq!(
        eval(&graph, &bind_x(&[1], &[1])).expect_err("mismatch").to_text(),
        "input \"x\" shape mismatch: expected [2], got [1]"
    );
    assert_eq!(
        eval(&one_input(DType::Bool, &[1]), &bind_x(&[1], &[1]))
            .expect_err("boolean")
            .to_text(),
        "unsupported dtype bool"
    );
    assert_eq!(
        Tensor::from_i64(shape(&[2]), &[1]).expect_err("too short"),
        EvalError::DataShapeMismatch { expected: 2, got: 1 }
    );
    assert_eq!(
        Tensor::from_i64(shape(&[usize::MAX, 2]), &[1]).expect_err("overflow"),
        EvalError::Internal("shape element count overflow".to_owned())
    );
    assert_eq!(
        Tensor::from_f64(shape(&[1]), &[f64::NAN.to_bits()]).expect_err("not finite"),
        EvalError::NonFiniteFloat
    );
    let graph = Graph::new(Vec::new(), Vec::new(), Vec::new());
    assert!(matches!(
        eval(&graph, &Bindings::new()),
        Err(EvalError::Type(TypeError::Structure(IrError::NoOutputs)))
    ));
}

fn assign(target: i64, value: ScalarExpr) -> Stmt {
    Stmt::Assign {
        target: BufferRef {
            buffer: BufferId::new(0),
            index: AffineExpr::constant(target),
        },
        value,
    }
}

fn temp_kernel(body: Vec<Stmt>) -> Kernel {
    let buffer = Buffer::new(BufferId::new(0), "tmp".to_owned(), shape(&[2]), BufferRole::Temp);
    Kernel::new(vec![buffer], body, Vec::new(), vec![BufferId::new(0)])
}

#[test]
fn kernel_errors() {
    let kernel = lower(&one_input(DType::I64, &[2])).expect("graph lowers");
    assert_eq!(
        eval_loops(&kernel, &Bindings::new()).expect_err("missing").to_text(),
        "missing input \"x\""
    );
    assert_eq!(
        eval_loops(&kernel, &bind_x(&[1], &[1])).expect_err("mismatch").to_text(),
        "input \"x\" shape mismatch: expected [2], got [1]"
    );
    let load = ScalarExpr::Load(BufferRef {
        buffer: BufferId::new(0),
        index: AffineExpr::constant(-1),
    });
    let error = eval_loops(&temp_kernel(vec![assign(0, load)]), &Bindings::new())
        .expect_err("negative index");
    assert_eq!(
        error,
        LoopError::IndexOutOfBounds {
            buffer: BufferId::new(0),
            index: -1,
            numel: 2,
        }
    );
    assert_eq!(
        error.to_text(),
        "buffer %b0 index -1 is out of bounds for 2 elements"
    );
    let constant = |data| {
        let buffer = Buffer::new(
            BufferId::new(0),
            "c".to_owned(),
            shape(&[1]),
            BufferRole::Const(data),
        );
        Kernel::new(vec![buffer], Vec::new(), Vec::new(), vec![BufferId::new(0)])
    };
    let boolean = constant(TensorData::Bool(vec![true]));
    assert_eq!(
        eval_loops(&boolean, &Bindings::new()).expect_err("boolean").to_text(),
        "unsupported dtype bool"
    );
    let infinite = constant(TensorData::F64(vec![f64::INFINITY.to_bits()]));
    assert_eq!(
        eval_loops(&infinite, &Bindings::new()).expect_err("infinite").to_text(),
        "non-finite floating-point value"
    );
}

#[test]
fn kernels_compute_what_they_say() {
    let quarter = || ScalarExpr::ConstScalar(Rational::new(1, 4));
    let kernel = temp_kernel(vec![
        assign(0, ScalarExpr::Sub(Box::new(quarter()), Box::new(ScalarExpr::Neg(Box::new(quarter()))))),
        assign(1, ScalarExpr::Relu(Box::new(ScalarExpr::Neg(Box::new(quarter()))))),
    ]);
    let outputs = eval_loops(&kernel, &Bindings::new()).expect("kernel runs");
    let numer = BigInt::from_signed_bytes_le(outputs[0].data()[0].numer_bytes());
    let denom = BigInt::from_signed_bytes_le(outputs[0].data()[0].denom_bytes());
    let half = BigRational::new(BigInt::from(1), BigInt::from(2));
    assert_eq!(BigRational::new(numer, denom), half);
    assert_eq!(outputs[0].data()[1], Rational::from_integer(0));
}

#[test]
fn lowering_errors() {
    let error = lower(&one_input(DType::Bool, &[1])).expect_err("boolean input");
    assert_eq!(error.to_text(), "unsupported lowering construct: bool input");
    let mut builder = GraphBuilder::new();
    let c = builder
        .constant(TensorData::Bool(vec![true]), shape(&[1]))
        .expect("constant is valid");
    let error = lower(&finish(builder, c)).expect_err("boolean constant");
    assert_eq!(error.to_text(), "unsupported lowering construct: bool constant");
    let graph = Graph::new(Vec::new(), Vec::new(), Vec::new());
    assert!(matches!(lower(&graph), Err(LowerError::Type(_))));
}

#[test]
fn surgery_errors() {
    let graph = one_input(DType::I64, &[1]);
    let error = replace_all_uses(&graph, NodeId::new(5), NodeId::new(0)).expect_err("no node");
    assert_eq!(error.to_text(), "invalid node id %5");
    let error = redefine_node(&graph, NodeId::new(0), Op::Neg(NodeId::new(0))).expect_err("self");
    assert_eq!(
        error.to_text(),
        "node %0 would reference non-ancestor operand %0"
    );
    let bad = Graph::new(Vec::new(), Vec::new(), Vec::new());
    assert!(matches!(
        prune_and_rebuild(&bad),
        Err(SurgeryError::Invalid(IrError::NoOutputs))
    ));
}

#[test]
fn expression_errors() {
    let graph = one_input(DType::I64, &[1]);
    assert!(matches!(
        graph_to_recexpr(&graph, NodeId::new(7)),
        Err(EggError::BackConversionInvalid(_) | EggError::ConversionFailed(_))
    ));
    let atoms = AtomTable::new();
    let error = atoms.node(3).expect_err("no atoms");
    assert_eq!(error.to_text(), "egg conversion failed: unknown atom index 3");
    let expr = RecExpr::from_nodes(vec![EggLang::Atom(0)]).expect("in order");
    assert!(recexpr_to_graph(&expr, &atoms, &graph).is_err());
    let empty = RecExpr::new();
    assert!(recexpr_to_graph(&empty, &atoms, &graph).is_err());
    assert!(RecExpr::from_nodes(vec![EggLang::Neg(0)]).is_none());
}

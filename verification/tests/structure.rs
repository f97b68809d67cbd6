//! Tests of graph structure, operands and affine substitution.

use vtc::{AffineExpr, DType, Dim, Graph, IrError, LoopVar, Node, NodeId, Op, Shape, TensorData, TensorType};

fn input(name: &str) -> Node {
    Node::new(Op::Input {
        name: name.to_owned(),
        ty: TensorType::new(DType::F32, Shape::new(vec![Dim::new(1)])),
    })
}

#[test]
fn validate_structure_rejects_forward_operand() {
    let graph = Graph::new(
        vec![
            input("a"),
            Node::new(Op::Add(NodeId::new(0), NodeId::new(2))),
            input("b"),
        ],
        vec![NodeId::new(0), NodeId::new(2)],
        vec![NodeId::new(1)],
    );

    assert_eq!(
        graph.validate_structure(),
        Err(IrError::ForwardReference {
            node: NodeId::new(1),
            operand: NodeId::new(2),
        })
    );
}

#[test]
fn validate_structure_rejects_dangling_operand() {
    let graph = Graph::new(
        vec![
            input("a"),
            Node::new(Op::Add(NodeId::new(0), NodeId::new(9))),
        ],
        vec![NodeId::new(0)],
        vec![NodeId::new(1)],
    );

    assert_eq!(
        graph.validate_structure(),
        Err(IrError::InvalidNodeId {
            id: NodeId::new(9),
            num_nodes: 2,
        })
    );
}

#[test]
fn numel_reports_overflow() {
    let shape = Shape::new(vec![Dim::new(usize::MAX), Dim::new(2)]);

    assert_eq!(shape.numel(), Err(IrError::ShapeOverflow));
}

#[test]
fn topo_order_accepts_out_of_build_order_dag() {
    let graph = Graph::new(
        vec![
            Node::new(Op::Mul(NodeId::new(1), NodeId::new(2))),
            input("a"),
            input("b"),
        ],
        vec![NodeId::new(1), NodeId::new(2)],
        vec![NodeId::new(0)],
    );

    let order = graph.topo_order();

    assert_eq!(
        order,
        Ok(vec![NodeId::new(1), NodeId::new(2), NodeId::new(0)])
    );
}

#[test]
fn topo_order_reports_cycle() {
    let graph = Graph::new(
        vec![
            Node::new(Op::Neg(NodeId::new(1))),
            Node::new(Op::Neg(NodeId::new(0))),
        ],
        Vec::new(),
        vec![NodeId::new(0)],
    );

    assert_eq!(graph.topo_order(), Err(IrError::Cycle));
}

#[test]
fn validate_structure_rejects_bad_const_length() {
    let graph = Graph::new(
        vec![Node::new(Op::Const {
            data: TensorData::I32(vec![1, 2]),
            shape: Shape::new(vec![Dim::new(3)]),
        })],
        Vec::new(),
        vec![NodeId::new(0)],
    );

    assert_eq!(
        graph.validate_structure(),
        Err(IrError::ConstDataShapeMismatch {
            expected: 3,
            got: 2,
        })
    );
}

#[test]
fn map_operands_rewrites_all_node_ids() {
    let op = Op::Sum {
        input: NodeId::new(2),
        axes: vec![0],
        keepdim: true,
    };

    let mapped = op.map_operands(|id| NodeId::new(id.index() + 10));

    assert_eq!(mapped.operands(), vec![NodeId::new(12)]);
}

#[test]
fn map_operands_preserves_non_operand_data() {
    let op = Op::Reshape {
        input: NodeId::new(3),
        new_shape: Shape::new(vec![Dim::new(2), Dim::new(2)]),
    };

    let mapped = op.map_operands(|_| NodeId::new(0));

    match mapped {
        Op::Reshape { input, new_shape } => {
            assert_eq!(input, NodeId::new(0));
            assert_eq!(new_shape, Shape::new(vec![Dim::new(2), Dim::new(2)]));
        }
        _ => unreachable!("map_operands preserves the op variant"),
    }
}

#[test]
fn substitute_replaces_scaled_variable() {
    let i = LoopVar::new(0);
    let io = LoopVar::new(1);
    let ii = LoopVar::new(2);
    let expr = AffineExpr::new(vec![(i, 3)], 5);
    let replacement = AffineExpr::new(vec![(io, 2), (ii, 1)], 0);

    assert_eq!(
        expr.substitute(i, &replacement),
        AffineExpr::new(vec![(io, 6), (ii, 3)], 5),
    );
}

#[test]
fn substitute_absent_variable_is_identity() {
    let i = LoopVar::new(0);
    let j = LoopVar::new(1);
    let expr = AffineExpr::new(vec![(j, 7)], -3);
    let replacement = AffineExpr::new(vec![(LoopVar::new(2), 2)], 4);

    assert_eq!(expr.substitute(i, &replacement), expr);
}

#[test]
fn substitute_combines_multi_term_expression() {
    let i = LoopVar::new(0);
    let j = LoopVar::new(1);
    let io = LoopVar::new(2);
    let ii = LoopVar::new(3);
    let expr = AffineExpr::new(vec![(i, 2), (j, 4), (io, 1)], 1);
    let replacement = AffineExpr::new(vec![(io, 3), (ii, -1)], 5);

    assert_eq!(
        expr.substitute(i, &replacement),
        AffineExpr::new(vec![(j, 4), (io, 7), (ii, -2)], 11),
    );
}

//! Rendering of graphs.
use vstd::prelude::*;

use crate::graph::{Graph, GraphView};
use crate::op::{NodeId, Op, OpView};
use crate::shape::shape_text;
use crate::text::{
    bool_text, bool_text_of, decimal, index_text, join, join_text, quoted, quoted_text,
    string_views,
};

verus! {

/// The text of two operands.
pub open spec fn pair_text(name: Seq<char>, l: NodeId, r: NodeId) -> Seq<char> {
    name + "("@ + l.text() + ", "@ + r.text() + ")"@
}

/// The text of one operand.
pub open spec fn single_text(name: Seq<char>, x: NodeId) -> Seq<char> {
    name + "("@ + x.text() + ")"@
}

/// The text of a list of axes.
pub open spec fn axes_text(axes: Seq<usize>) -> Seq<char> {
    "["@ + join(axes.map_values(|a: usize| decimal(a as nat)), ", "@) + "]"@
}

/// The text of an operation.
pub open spec fn op_text(op: OpView) -> Seq<char> {
    match op {
        OpView::Input { name, ty } => "input "@ + quoted_text(name) + " : "@ + ty.dtype.text()
            + shape_text(ty.shape),
        OpView::Const { data, shape } => "const "@ + data.dtype().text() + shape_text(shape),
        OpView::Add(l, r) => pair_text("add"@, l, r),
        OpView::Sub(l, r) => pair_text("sub"@, l, r),
        OpView::Mul(l, r) => pair_text("mul"@, l, r),
        OpView::Neg(x) => single_text("neg"@, x),
        OpView::Relu(x) => single_text("relu"@, x),
        OpView::Matmul(l, r) => pair_text("matmul"@, l, r),
        OpView::Sum { input, axes, keepdim } => "sum("@ + input.text() + ", axes="@ + axes_text(
            axes,
        ) + ", keepdim="@ + bool_text_of(keepdim) + ")"@,
        OpView::Reshape { input, new_shape } => "reshape("@ + input.text() + ", "@ + shape_text(
            new_shape,
        ) + ")"@,
    }
}

/// The lines of the first `n` nodes.
pub open spec fn node_lines(nodes: Seq<OpView>, n: nat) -> Seq<char>
    decreases n,
{
    if n == 0 {
        Seq::empty()
    } else {
        node_lines(nodes, (n - 1) as nat) + ("  %"@ + decimal((n - 1) as nat) + " = "@ + op_text(
            nodes[n - 1],
        ) + "\n"@)
    }
}

/// The text of a graph: a line per node, then its outputs.
pub open spec fn graph_text(g: GraphView) -> Seq<char> {
    "graph {\n"@ + node_lines(g.nodes, g.nodes.len()) + "  outputs: "@ + join(
        g.outputs.map_values(|id: NodeId| id.text()),
        ", "@,
    ) + "\n}"@
}

fn format_pair(name: &str, l: NodeId, r: NodeId) -> (t: String)
    ensures
        t@ == pair_text(name@, l, r),
{
    String::from_str(name).concat("(").concat(l.to_text().as_str()).concat(", ").concat(
        r.to_text().as_str(),
    ).concat(")")
}

fn format_single(name: &str, x: NodeId) -> (t: String)
    ensures
        t@ == single_text(name@, x),
{
    String::from_str(name).concat("(").concat(x.to_text().as_str()).concat(")")
}

fn format_axes(axes: &Vec<usize>) -> (r: String)
    ensures
        r@ == axes_text(axes@),
{
    let mut parts: Vec<String> = Vec::new();
    let mut i: usize = 0;
    while i < axes.len()
        invariant
            i <= axes@.len(),
            parts@.len() == i,
            forall|j: int| 0 <= j < i ==> (#[trigger] parts@[j])@ == decimal(axes@[j] as nat),
        decreases axes@.len() - i,
    {
        parts.push(index_text(axes[i]));
        i += 1;
    }
    proof {
        assert(string_views(parts@) =~= axes@.map_values(|a: usize| decimal(a as nat)));
    }
    String::from_str("[").concat(join_text(&parts, ", ").as_str()).concat("]")
}

/// Renders an operation.
pub fn format_op(op: &Op) -> (r: String)
    ensures
        r@ == op_text(op@),
{
    match op {
        Op::Input { name, ty } => String::from_str("input ").concat(
            quoted(name.as_str()).as_str(),
        ).concat(" : ").concat(ty.dtype.to_text()).concat(ty.shape.to_text().as_str()),
        Op::Const { data, shape } => String::from_str("const ").concat(
            data.dtype().to_text(),
        ).concat(shape.to_text().as_str()),
        Op::Add(l, r) => format_pair("add", *l, *r),
        Op::Sub(l, r) => format_pair("sub", *l, *r),
        Op::Mul(l, r) => format_pair("mul", *l, *r),
        Op::Neg(x) => format_single("neg", *x),
        Op::Relu(x) => format_single("relu", *x),
        Op::Matmul(l, r) => format_pair("matmul", *l, *r),
        Op::Sum { input, axes, keepdim } => String::from_str("sum(").concat(
            input.to_text().as_str(),
        ).concat(", axes=").concat(format_axes(axes).as_str()).concat(", keepdim=").concat(
            bool_text(*keepdim),
        ).concat(")"),
        Op::Reshape { input, new_shape } => String::from_str("reshape(").concat(
            input.to_text().as_str(),
        ).concat(", ").concat(new_shape.to_text().as_str()).concat(")"),
    }
}

impl Graph {
    /// Renders this graph with a line per node.
    pub fn to_text(&self) -> (r: String)
        ensures
            r@ == graph_text(self@),
    {
        let mut lines = String::new();
        let mut i: usize = 0;
        while i < self.nodes.len()
            invariant
                i <= self@.nodes.len(),
                lines@ == node_lines(self@.nodes, i as nat),
            decreases self@.nodes.len() - i,
        {
            let line = String::from_str("  %").concat(index_text(i).as_str()).concat(" = ").concat(
                format_op(&self.nodes[i].op).as_str(),
            ).concat("\n");
            lines.append(line.as_str());
            i += 1;
        }
        let mut outputs: Vec<String> = Vec::new();
        let mut k: usize = 0;
        while k < self.outputs.len()
            invariant
                k <= self@.outputs.len(),
                outputs@.len() == k,
                forall|j: int| 0 <= j < k ==> (#[trigger] outputs@[j])@ == self@.outputs[j].text(),
            decreases self@.outputs.len() - k,
        {
            outputs.push(self.outputs[k].to_text());
            k += 1;
        }
        proof {
            assert(string_views(outputs@) =~= self@.outputs.map_values(|id: NodeId| id.text()));
        }
        String::from_str("graph {\n").concat(lines.as_str()).concat("  outputs: ").concat(
            join_text(&outputs, ", ").as_str(),
        ).concat("\n}")
    }
}

} // verus!

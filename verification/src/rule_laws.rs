//! When the built-in rules fire, and what they do to doubles.
use vstd::prelude::*;

use crate::domain::Domain;
use crate::driver::{
    acts_as, built_in_rules_are_sound, run_graph, running_preserves_evaluation, sound_rule,
};
use crate::eval::eval_graph;
use crate::float::{nan64, negative64};
use crate::graph::{
    consts_fill, ordered, validation_accepts_exactly_well_formed, well_formed, GraphView,
};
use crate::op::{NodeId, OpView};
use crate::rule::Rewrite;
use crate::rules::{op_at, NegNegElim, ReluIdempotentElim, ReshapeReshapeFuse};
use crate::ruleset::RuleView;
use crate::safety::{law_holds, Law, RewriteMode};
use crate::surgery::{
    lemma_build_ok, lemma_map_operands, lemma_rebuilt, replaced, swap_id, swapped_ops,
};
use crate::tensor::{all_bit_equal, bit_equality_is_an_equivalence, TensorView};

verus! {

/// Every use of `target`, outputs included, is replaced; nothing else changes.
pub open spec fn uses_replaced(
    before: GraphView,
    after: GraphView,
    target: NodeId,
    replacement: NodeId,
) -> bool {
    &&& after.nodes.len() == before.nodes.len()
    &&& after.nodes == swapped_ops(before.nodes, target, replacement)
    &&& after.outputs == before.outputs.map_values(swap_id(target, replacement))
}

/// No operand and no output reads the node.
pub open spec fn unread(g: GraphView, node: NodeId) -> bool {
    &&& forall|i: int, k: int|
        0 <= i < g.nodes.len() && 0 <= k < g.nodes[i].operands().len() ==> (
        #[trigger] g.nodes[i].operands()[k]) != node
    &&& forall|k: int| 0 <= k < g.outputs.len() ==> #[trigger] g.outputs[k] != node
}

/// An earlier node can replace a node of a well-formed graph.
proof fn lemma_earlier_replaces(g: GraphView, target: NodeId, replacement: NodeId)
    requires
        well_formed(g),
        g.nodes.len() <= usize::MAX,
        replacement.0 < target.0 < g.nodes.len(),
    ensures
        replaced(g, target, replacement) is Ok,
        well_formed(replaced(g, target, replacement)->Ok_0),
        uses_replaced(g, replaced(g, target, replacement)->Ok_0, target, replacement),
        unread(replaced(g, target, replacement)->Ok_0, target),
{
    validation_accepts_exactly_well_formed(g);
    let f = swap_id(target, replacement);
    let ops = swapped_ops(g.nodes, target, replacement);
    let outputs = g.outputs.map_values(f);
    assert forall|i: int, k: int|
        0 <= i < ops.len() && 0 <= k < ops[i].operands().len() implies (
    #[trigger] ops[i].operands()[k]).0 < i && ops[i].operands()[k] != target by {
        lemma_map_operands(g.nodes[i], f);
        if i == target.0 {
            assert(ops[i] == g.nodes[i]);
            assert(g.nodes[i].operands()[k].0 < i);
        } else {
            assert(ops[i] == g.nodes[i].map(f));
            assert(g.nodes[i].operands()[k].0 < i);
            assert(ops[i].operands()[k] == f(g.nodes[i].operands()[k]));
        }
    }
    assert(ordered(ops));
    assert(consts_fill(ops)) by {
        assert forall|i: int| 0 <= i < ops.len() implies match #[trigger] ops[i] {
            OpView::Const { data, shape } => crate::shape::numel_fits(shape) && data.len()
                == crate::shape::numel(shape),
            _ => true,
        } by {
            assert(match g.nodes[i] {
                OpView::Const { data, shape } => crate::shape::numel_fits(shape) && data.len()
                    == crate::shape::numel(shape),
                _ => true,
            });
        }
    }
    lemma_build_ok(ops, ops.len());
    assert forall|k: int| 0 <= k < outputs.len() implies (#[trigger] outputs[k]).0 < ops.len()
        && outputs[k] != target by {
        assert(g.outputs[k].0 < g.nodes.len());
    }
    lemma_rebuilt(ops, outputs);
}

/// On a well-formed graph, the rule on double negation fires exactly at a negation of a negation.
/// Then every use of the outer one reads the inner operand instead, and the graph stays
/// well-formed with as many nodes.
pub proof fn neg_neg_elim_fires_on_its_pattern(g: GraphView, node: NodeId)
    requires
        well_formed(g),
        g.nodes.len() <= usize::MAX,
    ensures
        NegNegElim.outcome(g, node) is Some <==> node.0 < g.nodes.len()
            && g.nodes[node.0 as int] is Neg && g.nodes[(
        g.nodes[node.0 as int]->Neg_0).0 as int] is Neg,
        NegNegElim.outcome(g, node) is Some ==> {
            let after = NegNegElim.outcome(g, node)->Some_0;
            let x = g.nodes[(g.nodes[node.0 as int]->Neg_0).0 as int]->Neg_0;
            well_formed(after) && uses_replaced(g, after, node, x) && unread(after, node)
        },
{
    if node.0 < g.nodes.len() && g.nodes[node.0 as int] is Neg {
        let inner = g.nodes[node.0 as int]->Neg_0;
        assert(g.nodes[node.0 as int].operands()[0] == inner);
        assert(op_at(g, inner) == Some(g.nodes[inner.0 as int]));
        if g.nodes[inner.0 as int] is Neg {
            let x = g.nodes[inner.0 as int]->Neg_0;
            assert(g.nodes[inner.0 as int].operands()[0] == x);
            lemma_earlier_replaces(g, node, x);
        }
    }
}

/// On a well-formed graph, the rule on double rectifiers fires exactly at a rectifier of a
/// rectifier. Then every use of the outer one reads the inner one instead, and the graph stays
/// well-formed with as many nodes.
pub proof fn relu_idempotent_elim_fires_on_its_pattern(g: GraphView, node: NodeId)
    requires
        well_formed(g),
        g.nodes.len() <= usize::MAX,
    ensures
        ReluIdempotentElim.outcome(g, node) is Some <==> node.0 < g.nodes.len()
            && g.nodes[node.0 as int] is Relu && g.nodes[(
        g.nodes[node.0 as int]->Relu_0).0 as int] is Relu,
        ReluIdempotentElim.outcome(g, node) is Some ==> {
            let after = ReluIdempotentElim.outcome(g, node)->Some_0;
            let inner = g.nodes[node.0 as int]->Relu_0;
            well_formed(after) && uses_replaced(g, after, node, inner) && unread(after, node)
        },
{
    if node.0 < g.nodes.len() && g.nodes[node.0 as int] is Relu {
        let inner = g.nodes[node.0 as int]->Relu_0;
        assert(g.nodes[node.0 as int].operands()[0] == inner);
        assert(op_at(g, inner) == Some(g.nodes[inner.0 as int]));
        lemma_earlier_replaces(g, node, inner);
    }
}

/// On a well-formed graph, the rule on double reshapes fires exactly at a reshape of a reshape.
/// Then the outer one reads the inner operand, and nothing else changes.
pub proof fn reshape_reshape_fuse_fires_on_its_pattern(g: GraphView, node: NodeId)
    requires
        well_formed(g),
        g.nodes.len() <= usize::MAX,
    ensures
        ReshapeReshapeFuse.outcome(g, node) is Some <==> node.0 < g.nodes.len()
            && g.nodes[node.0 as int] is Reshape && g.nodes[(
        g.nodes[node.0 as int]->Reshape_input).0 as int] is Reshape,
        ReshapeReshapeFuse.outcome(g, node) is Some ==> {
            let after = ReshapeReshapeFuse.outcome(g, node)->Some_0;
            let inner = g.nodes[(g.nodes[node.0 as int]->Reshape_input).0 as int];
            &&& well_formed(after)
            &&& after.nodes == g.nodes.update(
                node.0 as int,
                OpView::Reshape {
                    input: inner->Reshape_input,
                    new_shape: g.nodes[node.0 as int]->Reshape_new_shape,
                },
            )
            &&& after.outputs == g.outputs
        },
{
    if node.0 < g.nodes.len() && g.nodes[node.0 as int] is Reshape {
        let inner = g.nodes[node.0 as int]->Reshape_input;
        assert(g.nodes[node.0 as int].operands()[0] == inner);
        assert(op_at(g, inner) == Some(g.nodes[inner.0 as int]));
        if g.nodes[inner.0 as int] is Reshape {
            let x = g.nodes[inner.0 as int]->Reshape_input;
            assert(g.nodes[inner.0 as int].operands()[0] == x);
            let op = OpView::Reshape {
                input: x,
                new_shape: g.nodes[node.0 as int]->Reshape_new_shape,
            };
            validation_accepts_exactly_well_formed(g);
            let errors = op.operands().map_values(
                |o: NodeId| crate::surgery::redefine_error(g.nodes.len(), node, o),
            );
            crate::seqs::lemma_first_some_none(errors);
            let ops = g.nodes.update(node.0 as int, op);
            assert forall|i: int, k: int|
                0 <= i < ops.len() && 0 <= k < ops[i].operands().len() implies (
            #[trigger] ops[i].operands()[k]).0 < i by {
                if i != node.0 {
                    assert(g.nodes[i].operands()[k].0 < i);
                }
            }
            assert(ordered(ops));
            assert(consts_fill(ops)) by {
                assert forall|i: int| 0 <= i < ops.len() implies match #[trigger] ops[i] {
                    OpView::Const { data, shape } => crate::shape::numel_fits(shape) && data.len()
                        == crate::shape::numel(shape),
                    _ => true,
                } by {
                    if i != node.0 {
                        assert(ops[i] == g.nodes[i]);
                    }
                }
            }
            lemma_build_ok(ops, ops.len());
            lemma_rebuilt(ops, g.outputs);
        }
    }
}

/// A double above zero: no NaN, not zero, and without the sign bit.
pub open spec fn above_zero(bits: u64) -> bool {
    !negative64(bits) && !nan64(bits) && bits != 0
}

/// Signs as IEEE 754 has them: negation flips the sign bit, and the rectifier keeps what is above
/// zero and gives positive zero for the rest, NaN among it.
pub open spec fn ieee_signs<D: Domain<Elem = u64, V = u64>>() -> bool {
    &&& forall|a: u64| #[trigger] D::neg_value(a) == a ^ 0x8000_0000_0000_0000u64
    &&& forall|a: u64|
        #[trigger] D::relu_value(a) == (if above_zero(a) {
            a
        } else {
            0u64
        })
}

/// Doubles with IEEE signs obey the laws of the built-in rules to the bit.
pub proof fn ieee_signs_obey_the_laws<D: Domain<Elem = u64, V = u64>>()
    requires
        ieee_signs::<D>(),
    ensures
        law_holds::<D>(Law::NegInvolutive),
        law_holds::<D>(Law::ReluIdempotent),
{
    assert forall|a: u64| #[trigger] D::neg_value(D::neg_value(a)) == a by {
        assert((a ^ 0x8000_0000_0000_0000u64) ^ 0x8000_0000_0000_0000u64 == a) by (bit_vector);
    }
}

/// The built-in rules keep the bits of doubles with IEEE signs.
pub proof fn built_in_rules_keep_bits<D: Domain<Elem = u64, V = u64>>(rule: RuleView)
    requires
        ieee_signs::<D>(),
        acts_as(rule, NegNegElim) || acts_as(rule, ReluIdempotentElim) || acts_as(
            rule,
            ReshapeReshapeFuse,
        ),
    ensures
        sound_rule::<D>(rule),
{
    ieee_signs_obey_the_laws::<D>();
    built_in_rules_are_sound::<D>(rule);
}

/// A graph rewritten by a built-in rule gives bit-equal doubles on every input on which the graph
/// evaluates, where signs are those of IEEE 754.
pub proof fn rewritten_graphs_are_bit_equal<D: Domain<Elem = u64, V = u64>>(
    g: GraphView,
    node: NodeId,
    rule: RuleView,
    inputs: Map<Seq<char>, TensorView<u64>>,
)
    requires
        ieee_signs::<D>(),
        g.nodes.len() <= usize::MAX,
        acts_as(rule, NegNegElim) || acts_as(rule, ReluIdempotentElim) || acts_as(
            rule,
            ReshapeReshapeFuse,
        ),
        rule.outcome(g, node) is Some,
        eval_graph::<D>(g, inputs) is Ok,
    ensures
        eval_graph::<D>(rule.outcome(g, node)->Some_0, inputs) is Ok,
        all_bit_equal(
            eval_graph::<D>(g, inputs)->Ok_0,
            eval_graph::<D>(rule.outcome(g, node)->Some_0, inputs)->Ok_0,
        ),
{
    built_in_rules_keep_bits::<D>(rule);
    let after = rule.outcome(g, node)->Some_0;
    assert(eval_graph::<D>(after, inputs) == eval_graph::<D>(g, inputs));
    lemma_bit_equal_to_itself(eval_graph::<D>(g, inputs)->Ok_0);
}

/// Tensors are bit-equal to themselves.
proof fn lemma_bit_equal_to_itself(ts: Seq<TensorView<u64>>)
    ensures
        all_bit_equal(ts, ts),
{
    assert forall|i: int| 0 <= i < ts.len() implies crate::tensor::tensors_bit_equal(
        #[trigger] ts[i],
        ts[i],
    ) by {
        bit_equality_is_an_equivalence(ts[i], ts[i], ts[i]);
    }
}

/// A driver run with the built-in rules gives bit-equal doubles, where signs are those of
/// IEEE 754.
pub proof fn driven_graphs_are_bit_equal<D: Domain<Elem = u64, V = u64>>(
    g: GraphView,
    rules: Seq<RuleView>,
    mode: RewriteMode,
    max_steps: nat,
    inputs: Map<Seq<char>, TensorView<u64>>,
)
    requires
        ieee_signs::<D>(),
        g.nodes.len() <= usize::MAX,
        forall|k: int|
            0 <= k < rules.len() ==> acts_as(#[trigger] rules[k], NegNegElim) || acts_as(
                rules[k],
                ReluIdempotentElim,
            ) || acts_as(rules[k], ReshapeReshapeFuse),
        eval_graph::<D>(g, inputs) is Ok,
    ensures
        run_graph(g, rules, mode, max_steps) is Ok,
        ({
            let after = run_graph(g, rules, mode, max_steps)->Ok_0.graph;
            eval_graph::<D>(after, inputs) is Ok && all_bit_equal(
                eval_graph::<D>(g, inputs)->Ok_0,
                eval_graph::<D>(after, inputs)->Ok_0,
            )
        }),
{
    assert forall|k: int| 0 <= k < rules.len() implies sound_rule::<D>(#[trigger] rules[k]) by {
        built_in_rules_keep_bits::<D>(rules[k]);
    }
    running_preserves_evaluation::<D>(g, rules, mode, max_steps, inputs);
    lemma_bit_equal_to_itself(eval_graph::<D>(g, inputs)->Ok_0);
}

} // verus!

//! Inputs drawn for the declared inputs of a graph.
use vstd::prelude::*;

use crate::bindings::Bindings;
use crate::graph::GraphView;
use crate::op::OpView;
use crate::tensor_type::TypeView;

verus! {

/// The node that the input list names at `k`.
pub open spec fn listed(g: GraphView, k: int) -> Option<OpView> {
    if g.inputs[k].0 < g.nodes.len() {
        Some(g.nodes[g.inputs[k].0 as int])
    } else {
        None
    }
}

/// An input of the given name and type is among the first `n` listed ones.
pub open spec fn declared(g: GraphView, n: int, name: Seq<char>, ty: TypeView) -> bool {
    exists|k: int|
        0 <= k < n && #[trigger] listed(g, k) == Some(OpView::Input { name, ty })
}

/// Every bound value suits an input of its name among the first `n` listed ones.
pub open spec fn served<T>(
    g: GraphView,
    n: int,
    inputs: Bindings<T>,
    suits: spec_fn(TypeView, T) -> bool,
) -> bool {
    forall|name: Seq<char>|
        (#[trigger] inputs.lookup(name)) is Some ==> exists|ty: TypeView| #[trigger]
            declared(g, n, name, ty) && suits(ty, inputs.lookup(name)->Some_0)
}

/// One more listed input serves no worse.
pub proof fn lemma_served_more<T>(
    g: GraphView,
    n: int,
    inputs: Bindings<T>,
    suits: spec_fn(TypeView, T) -> bool,
)
    requires
        n >= 0,
        served(g, n, inputs, suits),
    ensures
        served(g, n + 1, inputs, suits),
{
    assert forall|name: Seq<char>| (#[trigger] inputs.lookup(name)) is Some implies exists|
        ty: TypeView,
    | #[trigger] declared(g, n + 1, name, ty) && suits(ty, inputs.lookup(name)->Some_0) by {
        let ty = choose|ty: TypeView| #[trigger]
            declared(g, n, name, ty) && suits(ty, inputs.lookup(name)->Some_0);
        let k = choose|k: int|
            0 <= k < n && #[trigger] listed(g, k) == Some(OpView::Input { name, ty });
        assert(listed(g, k) == Some(OpView::Input { name, ty }));
        assert(declared(g, n + 1, name, ty));
    }
}

/// Binding a suitable value for the next listed input.
pub proof fn lemma_served_insert<T>(
    g: GraphView,
    n: int,
    before: Bindings<T>,
    after: Bindings<T>,
    suits: spec_fn(TypeView, T) -> bool,
    name: Seq<char>,
    ty: TypeView,
    value: T,
)
    requires
        n >= 0,
        served(g, n, before, suits),
        listed(g, n) == Some(OpView::Input { name, ty }),
        suits(ty, value),
        after.lookup(name) == Some(value),
        forall|other: Seq<char>| other != name ==> #[trigger] after.lookup(other) == before.lookup(other),
    ensures
        served(g, n + 1, after, suits),
{
    lemma_served_more(g, n, before, suits);
    assert forall|other: Seq<char>| (#[trigger] after.lookup(other)) is Some implies exists|
        ty: TypeView,
    | #[trigger] declared(g, n + 1, other, ty) && suits(ty, after.lookup(other)->Some_0) by {
        if other == name {
            assert(listed(g, n) == Some(OpView::Input { name, ty }));
            assert(declared(g, n + 1, name, ty));
        } else {
            assert(before.lookup(other) is Some);
        }
    }
}

/// Every input among the first `n` listed ones has a value.
pub open spec fn bound_for_all<T>(g: GraphView, n: int, inputs: Bindings<T>) -> bool {
    forall|k: int|
        0 <= k < n && (#[trigger] listed(g, k)) is Some && listed(g, k)->Some_0 is Input
            ==> inputs.lookup(listed(g, k)->Some_0->Input_name) is Some
}

/// Binding one more name keeps the others bound.
pub proof fn lemma_bound_insert<T>(
    g: GraphView,
    n: int,
    before: Bindings<T>,
    after: Bindings<T>,
    name: Seq<char>,
)
    requires
        bound_for_all(g, n, before),
        after.lookup(name) is Some,
        forall|other: Seq<char>|
            other != name ==> #[trigger] after.lookup(other) == before.lookup(other),
        listed(g, n) is Some && listed(g, n)->Some_0 is Input ==> listed(g, n)->Some_0->Input_name
            == name,
    ensures
        bound_for_all(g, n + 1, after),
{
    assert forall|k: int|
        0 <= k < n + 1 && (#[trigger] listed(g, k)) is Some && listed(g, k)->Some_0 is Input implies after.lookup(
        listed(g, k)->Some_0->Input_name,
    ) is Some by {
        if k < n {
            assert(before.lookup(listed(g, k)->Some_0->Input_name) is Some);
        }
    }
}

} // verus!

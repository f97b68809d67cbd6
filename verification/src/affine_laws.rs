//! Substitution and evaluation of affine expressions.
use vstd::prelude::*;

use crate::affine::{
    ascending, lists_map, saturated, substituted, substituted_constant, terms_value, var_value, with_scaled,
    with_term, AffineView, LoopVar,
};

verus! {

/// The value of a variable; variables without one are zero.
pub open spec fn value_in(env: Map<u32, int>, var: u32) -> int {
    if env.dom().contains(var) {
        env[var]
    } else {
        0
    }
}

/// The sum of the first `n` terms, without bounds.
pub open spec fn terms_sum(terms: Seq<(LoopVar, i64)>, env: Map<u32, int>, n: nat) -> int
    decreases n,
{
    if n == 0 {
        0
    } else {
        terms_sum(terms, env, (n - 1) as nat) + terms[n - 1].1 * value_in(env, terms[n - 1].0.0)
    }
}

/// The value of an affine expression, without bounds.
pub open spec fn exact_value(e: AffineView, env: Map<u32, int>) -> int {
    e.constant + terms_sum(e.terms, env, e.terms.len())
}

/// No step of adding scaled terms saturates.
pub open spec fn scaling_fits(
    m: Map<u32, i64>,
    terms: Seq<(LoopVar, i64)>,
    factor: i64,
    n: nat,
) -> bool
    decreases n,
{
    n == 0 || (scaling_fits(m, terms, factor, (n - 1) as nat) && {
        let scaled = factor * terms[n - 1].1;
        &&& saturated(scaled) == scaled
        &&& term_fits(
            with_scaled(m, terms, factor, (n - 1) as nat),
            terms[n - 1].0,
            scaled as i64,
        )
    })
}

/// Adding a coefficient does not saturate.
pub open spec fn term_fits(m: Map<u32, i64>, var: LoopVar, coeff: i64) -> bool {
    saturated(var_value(m, var) + coeff) == var_value(m, var) + coeff
}

/// No step of a substitution saturates.
pub open spec fn substitution_fits(
    e: AffineView,
    var: LoopVar,
    replacement: AffineView,
    n: nat,
) -> bool
    decreases n,
{
    n == 0 || (substitution_fits(e, var, replacement, (n - 1) as nat) && {
        let before = substituted(e, var, replacement, (n - 1) as nat);
        let constant = substituted_constant(e, var, replacement, (n - 1) as nat);
        let (term_var, coeff) = e.terms[n - 1];
        if term_var == var {
            let scaled = coeff * replacement.constant;
            &&& scaling_fits(before, replacement.terms, coeff, replacement.terms.len())
            &&& saturated(scaled) == scaled
            &&& saturated(constant + scaled) == constant + scaled
        } else {
            term_fits(before, term_var, coeff)
        }
    })
}

/// The sum of the coefficients below `k`, each times the value of its variable.
spec fn weight(m: Map<u32, i64>, env: Map<u32, int>, k: nat) -> int
    decreases k,
{
    if k == 0 {
        0
    } else {
        let v = (k - 1) as u32;
        weight(m, env, (k - 1) as nat) + var_value(m, LoopVar(v)) * value_in(env, v)
    }
}

/// Coefficients that differ at no variable below `k` weigh the same.
proof fn lemma_weight_same(a: Map<u32, i64>, b: Map<u32, i64>, env: Map<u32, int>, k: nat)
    requires
        k <= 0x1_0000_0000,
        forall|v: u32| v < k ==> #[trigger] var_value(a, LoopVar(v)) == var_value(b, LoopVar(v)),
    ensures
        weight(a, env, k) == weight(b, env, k),
    decreases k,
{
    if k > 0 {
        lemma_weight_same(a, b, env, (k - 1) as nat);
        assert(var_value(a, LoopVar((k - 1) as u32)) == var_value(b, LoopVar((k - 1) as u32)));
    }
}

/// Adding to one coefficient adds its value.
proof fn lemma_weight_term(
    m: Map<u32, i64>,
    var: LoopVar,
    coeff: i64,
    env: Map<u32, int>,
    k: nat,
)
    requires
        term_fits(m, var, coeff),
        var.0 < k <= 0x1_0000_0000,
    ensures
        weight(with_term(m, var, coeff), env, k) == weight(m, env, k) + coeff * value_in(
            env,
            var.0,
        ),
    decreases k,
{
    let after = with_term(m, var, coeff);
    assert forall|v: u32| v != var.0 implies #[trigger] var_value(after, LoopVar(v)) == var_value(
        m,
        LoopVar(v),
    ) by {}
    assert(var_value(after, var) == var_value(m, var) + coeff);
    let last = (k - 1) as u32;
    if last == var.0 {
        lemma_weight_same(after, m, env, (k - 1) as nat);
        let a = var_value(m, var) as int;
        let b = coeff as int;
        let x = value_in(env, var.0);
        assert((a + b) * x == a * x + b * x) by (nonlinear_arith);
    } else {
        lemma_weight_term(m, var, coeff, env, (k - 1) as nat);
    }
}

/// Adding scaled terms adds their scaled sum.
proof fn lemma_weight_scaled(
    m: Map<u32, i64>,
    terms: Seq<(LoopVar, i64)>,
    factor: i64,
    env: Map<u32, int>,
    n: nat,
)
    requires
        n <= terms.len(),
        scaling_fits(m, terms, factor, n),
    ensures
        weight(with_scaled(m, terms, factor, n), env, 0x1_0000_0000) == weight(
            m,
            env,
            0x1_0000_0000,
        ) + factor * terms_sum(terms, env, n),
    decreases n,
{
    if n > 0 {
        let i = (n - 1) as nat;
        lemma_weight_scaled(m, terms, factor, env, i);
        let (var, coeff) = terms[n - 1];
        let scaled = factor * coeff;
        lemma_weight_term(
            with_scaled(m, terms, factor, i),
            var,
            scaled as i64,
            env,
            0x1_0000_0000,
        );
        let f = factor as int;
        let s = terms_sum(terms, env, i);
        let c = coeff as int;
        let x = value_in(env, var.0);
        assert(f * (s + c * x) == f * s + (f * c) * x) by (nonlinear_arith);
    } else {
        assert(factor * 0 == 0);
    }
}

/// Listed coefficients weigh what their terms sum to.
proof fn lemma_weight_listed(
    terms: Seq<(LoopVar, i64)>,
    m: Map<u32, i64>,
    env: Map<u32, int>,
    n: nat,
    k: nat,
)
    requires
        lists_map(terms, m),
        n <= terms.len(),
        k <= 0x1_0000_0000,
        forall|i: int| 0 <= i < n ==> (#[trigger] terms[i]).0.0 < k,
        forall|i: int| n <= i < terms.len() ==> (#[trigger] terms[i]).0.0 >= k,
    ensures
        weight(m, env, k) == terms_sum(terms, env, n),
    decreases k,
{
    if k == 0 {
        if n > 0 {
            assert(terms[0].0.0 < k);
        }
    } else {
        let v = (k - 1) as u32;
        if n > 0 && terms[n - 1].0.0 == v {
            assert forall|i: int| 0 <= i < n - 1 implies (#[trigger] terms[i]).0.0 < k - 1 by {
                assert(terms[i].0.0 < terms[n - 1].0.0);
            }
            lemma_weight_listed(terms, m, env, (n - 1) as nat, (k - 1) as nat);
            assert(m.dom().contains(terms[n - 1].0.0));
            assert(var_value(m, LoopVar(v)) == terms[n - 1].1);
        } else {
            assert forall|i: int| 0 <= i < n implies (#[trigger] terms[i]).0.0 < k - 1 by {
                if terms[i].0.0 == v && i < n - 1 {
                    assert(terms[i].0.0 < terms[n - 1].0.0);
                }
            }
            lemma_weight_listed(terms, m, env, n, (k - 1) as nat);
            if m.dom().contains(v) {
                let i = choose|i: int| 0 <= i < terms.len() && (#[trigger] terms[i]).0.0 == v;
                assert(terms[i].0.0 == v);
            }
            assert(var_value(m, LoopVar(v)) == 0);
            assert(0 * value_in(env, v) == 0);
        }
    }
}

/// The coefficients after substitution weigh what the expression does with the variable bound
/// to the value of the replacement.
proof fn lemma_substituted(
    e: AffineView,
    var: LoopVar,
    replacement: AffineView,
    env: Map<u32, int>,
    n: nat,
)
    requires
        n <= e.terms.len(),
        substitution_fits(e, var, replacement, n),
    ensures
        substituted_constant(e, var, replacement, n) + weight(
            substituted(e, var, replacement, n),
            env,
            0x1_0000_0000,
        ) == e.constant + terms_sum(
            e.terms,
            env.insert(var.0, exact_value(replacement, env)),
            n,
        ),
    decreases n,
{
    let bound = env.insert(var.0, exact_value(replacement, env));
    if n > 0 {
        let i = (n - 1) as nat;
        lemma_substituted(e, var, replacement, env, i);
        let before = substituted(e, var, replacement, i);
        let (term_var, coeff) = e.terms[n - 1];
        if term_var == var {
            lemma_weight_scaled(
                before,
                replacement.terms,
                coeff,
                env,
                replacement.terms.len(),
            );
            let c = coeff as int;
            let k = replacement.constant as int;
            let s = terms_sum(replacement.terms, env, replacement.terms.len());
            assert(c * (k + s) == c * k + c * s) by (nonlinear_arith);
            assert(value_in(bound, var.0) == k + s);
        } else {
            lemma_weight_term(before, term_var, coeff, env, 0x1_0000_0000);
            assert(term_var.0 != var.0);
            assert(value_in(bound, term_var.0) == value_in(env, term_var.0));
        }
    } else {
        lemma_weight_empty(env, 0x1_0000_0000);
    }
}

/// No coefficients weigh nothing.
proof fn lemma_weight_empty(env: Map<u32, int>, k: nat)
    requires
        k <= 0x1_0000_0000,
    ensures
        weight(Map::empty(), env, k) == 0,
    decreases k,
{
    if k > 0 {
        lemma_weight_empty(env, (k - 1) as nat);
        assert(0 * value_in(env, (k - 1) as u32) == 0);
    }
}

/// No step of an evaluation saturates.
pub open spec fn evaluation_fits(e: AffineView, env: Map<u32, i64>, n: nat) -> bool
    decreases n,
{
    n == 0 || (evaluation_fits(e, env, (n - 1) as nat) && {
        let (var, coeff) = e.terms[n - 1];
        let product = coeff * var_value(env, var);
        let before = terms_value(e, env, (n - 1) as nat);
        saturated(product) == product && saturated(before + product) == before + product
    })
}

/// The values of variables as integers.
pub open spec fn integers(env: Map<u32, i64>) -> Map<u32, int> {
    env.map_values(|v: i64| v as int)
}

/// An evaluation in which no step saturates gives the exact value.
pub proof fn evaluation_is_exact(e: AffineView, env: Map<u32, i64>, n: nat)
    requires
        n <= e.terms.len(),
        evaluation_fits(e, env, n),
    ensures
        terms_value(e, env, n) == e.constant + terms_sum(e.terms, integers(env), n),
    decreases n,
{
    if n > 0 {
        evaluation_is_exact(e, env, (n - 1) as nat);
        let (var, coeff) = e.terms[n - 1];
        assert(value_in(integers(env), var.0) == var_value(env, var));
    }
}

/// Substituting and then evaluating is evaluating with the variable bound to the value of the
/// replacement, where no step of the substitution and of the evaluations saturates.
pub proof fn substitution_commutes_with_evaluation(
    e: AffineView,
    var: LoopVar,
    replacement: AffineView,
    result: AffineView,
    env: Map<u32, i64>,
)
    requires
        substitution_fits(e, var, replacement, e.terms.len()),
        evaluation_fits(replacement, env, replacement.terms.len()),
        evaluation_fits(result, env, result.terms.len()),
        evaluation_fits(e, env.insert(var.0, replacement.value(env)), e.terms.len()),
        result.constant == substituted_constant(e, var, replacement, e.terms.len()),
        lists_map(result.terms, substituted(e, var, replacement, e.terms.len())),
    ensures
        result.value(env) == e.value(env.insert(var.0, replacement.value(env))),
{
    let exact = integers(env);
    let bound = env.insert(var.0, replacement.value(env));
    lemma_substituted(e, var, replacement, exact, e.terms.len());
    lemma_weight_listed(
        result.terms,
        substituted(e, var, replacement, e.terms.len()),
        exact,
        result.terms.len(),
        0x1_0000_0000,
    );
    evaluation_is_exact(replacement, env, replacement.terms.len());
    evaluation_is_exact(result, env, result.terms.len());
    evaluation_is_exact(e, bound, e.terms.len());
    assert(integers(bound) =~= exact.insert(var.0, exact_value(replacement, exact)));
}

/// No coefficient is zero.
pub open spec fn without_zeros(m: Map<u32, i64>) -> bool {
    forall|v: u32| m.dom().contains(v) ==> #[trigger] m[v] != 0
}

proof fn lemma_scaled_without_zeros(
    m: Map<u32, i64>,
    terms: Seq<(LoopVar, i64)>,
    factor: i64,
    n: nat,
)
    requires
        without_zeros(m),
    ensures
        without_zeros(with_scaled(m, terms, factor, n)),
    decreases n,
{
    if n > 0 {
        lemma_scaled_without_zeros(m, terms, factor, (n - 1) as nat);
    }
}

proof fn lemma_substituted_without_zeros(
    e: AffineView,
    var: LoopVar,
    replacement: AffineView,
    n: nat,
)
    ensures
        without_zeros(substituted(e, var, replacement, n)),
    decreases n,
{
    if n > 0 {
        lemma_substituted_without_zeros(e, var, replacement, (n - 1) as nat);
        let before = substituted(e, var, replacement, (n - 1) as nat);
        lemma_scaled_without_zeros(
            before,
            replacement.terms,
            e.terms[n - 1].1,
            replacement.terms.len(),
        );
    }
}

/// The result of a substitution is normal: its variables ascend, so that none is repeated, and no
/// coefficient is zero.
pub proof fn substitution_gives_normal_terms(
    e: AffineView,
    var: LoopVar,
    replacement: AffineView,
    result: AffineView,
)
    requires
        lists_map(result.terms, substituted(e, var, replacement, e.terms.len())),
    ensures
        ascending(result.terms),
        forall|i: int| 0 <= i < result.terms.len() ==> (#[trigger] result.terms[i]).1 != 0,
{
    lemma_substituted_without_zeros(e, var, replacement, e.terms.len());
    let m = substituted(e, var, replacement, e.terms.len());
    assert forall|i: int| 0 <= i < result.terms.len() implies (#[trigger] result.terms[i]).1
        != 0 by {
        assert(m.dom().contains(result.terms[i].0.0));
        assert(m[result.terms[i].0.0] != 0);
    }
}

} // verus!

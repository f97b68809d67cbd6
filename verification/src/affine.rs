//! Affine expressions over loop variables.
use std::collections::HashMap;
use vstd::prelude::*;

use crate::text::{decimal, decimal_text, signed_decimal, signed_text};

verus! {

/// A loop induction variable.
#[derive(Debug, Clone, Copy, PartialEq, Eq, Hash, PartialOrd, Ord, Structural)]
pub struct LoopVar(pub u32);

impl LoopVar {
    /// Creates a loop variable from its stable numeric id.
    #[must_use]
    pub fn new(id: u32) -> (r: Self)
        ensures
            r == LoopVar(id),
    {
        LoopVar(id)
    }

    /// Returns the stable numeric id.
    #[must_use]
    pub fn id(self) -> (r: u32)
        ensures
            r == self.0,
    {
        self.0
    }

    /// The text of this variable.
    pub open spec fn text(self) -> Seq<char> {
        "i"@ + decimal(self.0 as nat)
    }

    /// Renders this variable.
    pub fn to_text(self) -> (r: String)
        ensures
            r@ == self.text(),
    {
        String::from_str("i").concat(decimal_text(self.0 as u64).as_str())
    }
}

/// An affine expression over loop variables.
#[derive(Debug, PartialEq, Eq)]
pub struct AffineExpr {
    pub terms: Vec<(LoopVar, i64)>,
    pub constant: i64,
}

/// The contents of an [`AffineExpr`].
pub struct AffineView {
    pub terms: Seq<(LoopVar, i64)>,
    pub constant: i64,
}

impl View for AffineExpr {
    type V = AffineView;

    open spec fn view(&self) -> AffineView {
        AffineView { terms: self.terms@, constant: self.constant }
    }
}

/// The `i64` nearest to an integer.
pub open spec fn saturated(x: int) -> i64 {
    if x > i64::MAX {
        i64::MAX
    } else if x < i64::MIN {
        i64::MIN
    } else {
        x as i64
    }
}

/// The value of a variable; variables without one are zero.
pub open spec fn var_value(env: Map<u32, i64>, var: LoopVar) -> i64 {
    if env.dom().contains(var.0) {
        env[var.0]
    } else {
        0
    }
}

/// The value of the constant and the first `n` terms, saturating at every step.
pub open spec fn terms_value(e: AffineView, env: Map<u32, i64>, n: nat) -> i64
    decreases n,
{
    if n == 0 {
        e.constant
    } else {
        let (var, coeff) = e.terms[n - 1];
        saturated(
            terms_value(e, env, (n - 1) as nat) + saturated(coeff * var_value(env, var)),
        )
    }
}

impl AffineView {
    /// The value of the expression, saturating at every step.
    pub open spec fn value(self, env: Map<u32, i64>) -> i64 {
        terms_value(self, env, self.terms.len())
    }

    /// The text of the first `n` terms.
    pub open spec fn terms_text(self, n: nat) -> Seq<char>
        decreases n,
    {
        if n == 0 {
            Seq::empty()
        } else {
            let (var, coeff) = self.terms[n - 1];
            let before = self.terms_text((n - 1) as nat);
            let sign = if n > 1 {
                if coeff >= 0 { " + "@ } else { " - "@ }
            } else {
                if coeff >= 0 { ""@ } else { "-"@ }
            };
            if magnitude(coeff) == 1 {
                before + sign + var.text()
            } else {
                before + sign + decimal(magnitude(coeff)) + "*"@ + var.text()
            }
        }
    }

    /// The text of the expression: its terms with their signs, then a nonzero constant.
    pub open spec fn text(self) -> Seq<char> {
        if self.terms.len() == 0 {
            signed_decimal(self.constant as int)
        } else if self.constant == 0 {
            self.terms_text(self.terms.len())
        } else if self.constant >= 0 {
            self.terms_text(self.terms.len()) + " + "@ + decimal(self.constant as nat)
        } else {
            self.terms_text(self.terms.len()) + " - "@ + decimal(magnitude(self.constant))
        }
    }
}

/// The absolute value, saturating.
pub open spec fn magnitude(c: i64) -> nat {
    saturated(if c < 0 { -(c as int) } else { c as int }) as nat
}

fn saturating_abs(c: i64) -> (r: u64)
    ensures
        r == magnitude(c),
{
    if c == i64::MIN {
        i64::MAX as u64
    } else if c < 0 {
        (-c) as u64
    } else {
        c as u64
    }
}

/// Returns the saturating sum.
pub fn saturating_sum(a: i64, b: i64) -> (r: i64)
    ensures
        r == saturated(a + b),
{
    let sum: i128 = a as i128 + b as i128;
    if sum > i64::MAX as i128 {
        i64::MAX
    } else if sum < i64::MIN as i128 {
        i64::MIN
    } else {
        sum as i64
    }
}

/// Returns the saturating product.
pub fn saturating_product(a: i64, b: i64) -> (r: i64)
    ensures
        r == saturated(a * b),
{
    proof {
        let x = a as int;
        let y = b as int;
        assert(-0x4000_0000_0000_0000_0000_0000_0000_0000 <= x * y
            <= 0x4000_0000_0000_0000_0000_0000_0000_0000) by (nonlinear_arith)
            requires
                -0x8000_0000_0000_0000 <= x <= 0x7fff_ffff_ffff_ffff,
                -0x8000_0000_0000_0000 <= y <= 0x7fff_ffff_ffff_ffff,
        ;
    }
    let product: i128 = a as i128 * b as i128;
    if product > i64::MAX as i128 {
        i64::MAX
    } else if product < i64::MIN as i128 {
        i64::MIN
    } else {
        product as i64
    }
}

/// Variables in strictly ascending order.
pub open spec fn ascending(terms: Seq<(LoopVar, i64)>) -> bool {
    forall|i: int, j: int|
        0 <= i < j < terms.len() ==> (#[trigger] terms[i]).0.0 < (#[trigger] terms[j]).0.0
}

/// The terms list each variable of `m` once, in ascending order, with its coefficient.
pub open spec fn lists_map(terms: Seq<(LoopVar, i64)>, m: Map<u32, i64>) -> bool {
    &&& ascending(terms)
    &&& forall|i: int|
        0 <= i < terms.len() ==> m.dom().contains((#[trigger] terms[i]).0.0) && m[terms[i].0.0]
            == terms[i].1
    &&& forall|v: u32|
        m.dom().contains(v) ==> exists|i: int| 0 <= i < terms.len() && (#[trigger] terms[i]).0.0 == v
}

/// The coefficients after adding `coeff` to that of `var`; zero coefficients are left out.
pub open spec fn with_term(m: Map<u32, i64>, var: LoopVar, coeff: i64) -> Map<u32, i64> {
    if coeff == 0 {
        m
    } else {
        let sum = saturated(var_value(m, var) + coeff);
        if sum == 0 {
            m.remove(var.0)
        } else {
            m.insert(var.0, sum)
        }
    }
}

/// The coefficients after adding the first `n` terms, each times `factor`.
pub open spec fn with_scaled(
    m: Map<u32, i64>,
    terms: Seq<(LoopVar, i64)>,
    factor: i64,
    n: nat,
) -> Map<u32, i64>
    decreases n,
{
    if n == 0 {
        m
    } else {
        with_term(
            with_scaled(m, terms, factor, (n - 1) as nat),
            terms[n - 1].0,
            saturated(factor * terms[n - 1].1),
        )
    }
}

/// The coefficients of the first `n` terms with `var` replaced.
pub open spec fn substituted(e: AffineView, var: LoopVar, replacement: AffineView, n: nat) -> Map<
    u32,
    i64,
>
    decreases n,
{
    if n == 0 {
        Map::empty()
    } else {
        let before = substituted(e, var, replacement, (n - 1) as nat);
        let (term_var, coeff) = e.terms[n - 1];
        if term_var == var {
            with_scaled(before, replacement.terms, coeff, replacement.terms.len())
        } else {
            with_term(before, term_var, coeff)
        }
    }
}

/// The constant after replacing `var` in the first `n` terms.
pub open spec fn substituted_constant(
    e: AffineView,
    var: LoopVar,
    replacement: AffineView,
    n: nat,
) -> i64
    decreases n,
{
    if n == 0 {
        e.constant
    } else {
        let before = substituted_constant(e, var, replacement, (n - 1) as nat);
        let (term_var, coeff) = e.terms[n - 1];
        if term_var == var {
            saturated(before + saturated(coeff * replacement.constant))
        } else {
            before
        }
    }
}

/// Adds `coeff` to the coefficient of `var`, keeping the terms in ascending order.
fn add_term(terms: &mut Vec<(LoopVar, i64)>, var: LoopVar, coeff: i64, Ghost(m): Ghost<
    Map<u32, i64>,
>)
    requires
        lists_map(old(terms)@, m),
    ensures
        lists_map(final(terms)@, with_term(m, var, coeff)),
{
    if coeff == 0 {
        return;
    }
    let ghost before = terms@;
    let mut i: usize = 0;
    while i < terms.len() && terms[i].0.0 < var.0
        invariant
            i <= terms@.len(),
            terms@ == before,
            forall|j: int| 0 <= j < i ==> (#[trigger] terms@[j]).0.0 < var.0,
        decreases terms@.len() - i,
    {
        i += 1;
    }
    let ghost after = with_term(m, var, coeff);
    if i < terms.len() && terms[i].0.0 == var.0 {
        let sum: i64 = saturating_sum(terms[i].1, coeff);
        assert(var_value(m, var) == before[i as int].1);
        if sum == 0 {
            terms.remove(i);
            proof {
                assert forall|v: u32| after.dom().contains(v) implies exists|j: int|
                    0 <= j < terms@.len() && (#[trigger] terms@[j]).0.0 == v by {
                    let k = choose|k: int| 0 <= k < before.len() && (#[trigger] before[k]).0.0 == v;
                    if k < i {
                        assert(terms@[k].0.0 == v);
                    } else {
                        assert(k != i);
                        assert(terms@[k - 1].0.0 == v);
                    }
                }
                assert forall|j: int| 0 <= j < terms@.len() implies after.dom().contains(
                    (#[trigger] terms@[j]).0.0,
                ) && after[terms@[j].0.0] == terms@[j].1 by {
                    let k = if j < i { j } else { j + 1 };
                    assert(terms@[j] == before[k]);
                    assert(before[k].0.0 != before[i as int].0.0);
                }
            }
        } else {
            terms.set(i, (var, sum));
            proof {
                assert forall|v: u32| after.dom().contains(v) implies exists|j: int|
                    0 <= j < terms@.len() && (#[trigger] terms@[j]).0.0 == v by {
                    if v == var.0 {
                        assert(terms@[i as int].0.0 == v);
                    } else {
                        let k = choose|k: int|
                            0 <= k < before.len() && (#[trigger] before[k]).0.0 == v;
                        assert(terms@[k].0.0 == v);
                    }
                }
                assert forall|a: int, b: int| 0 <= a < b < terms@.len() implies (
                #[trigger] terms@[a]).0.0 < (#[trigger] terms@[b]).0.0 by {
                    assert(before[a].0.0 < before[b].0.0);
                }
                assert forall|j: int| 0 <= j < terms@.len() implies after.dom().contains(
                    (#[trigger] terms@[j]).0.0,
                ) && after[terms@[j].0.0] == terms@[j].1 by {
                    if j != i {
                        assert(terms@[j] == before[j]);
                        if j < i {
                            assert(before[j].0.0 < before[i as int].0.0);
                        } else {
                            assert(before[i as int].0.0 < before[j].0.0);
                        }
                    }
                }
            }
        }
    } else {
        proof {
            assert forall|j: int| i <= j < before.len() implies (#[trigger] before[j]).0.0
                > var.0 by {
                if j > i {
                    assert(before[i as int].0.0 < before[j].0.0);
                }
            }
            assert(!m.dom().contains(var.0)) by {
                if m.dom().contains(var.0) {
                    let k = choose|k: int|
                        0 <= k < before.len() && (#[trigger] before[k]).0.0 == var.0;
                    assert(k < i || k >= i);
                }
            }
        }
        terms.insert(i, (var, coeff));
        proof {
            assert forall|v: u32| after.dom().contains(v) implies exists|j: int|
                0 <= j < terms@.len() && (#[trigger] terms@[j]).0.0 == v by {
                if v == var.0 {
                    assert(terms@[i as int].0.0 == v);
                } else {
                    let k = choose|k: int| 0 <= k < before.len() && (#[trigger] before[k]).0.0 == v;
                    let j = if k < i { k } else { k + 1 };
                    assert(terms@[j].0.0 == v);
                }
            }
            assert forall|a: int, b: int| 0 <= a < b < terms@.len() implies (
            #[trigger] terms@[a]).0.0 < (#[trigger] terms@[b]).0.0 by {
                let a0 = if a < i { a } else { a - 1 };
                let b0 = if b < i { b } else { b - 1 };
                if a != i && b != i {
                    assert(terms@[a] == before[a0] && terms@[b] == before[b0]);
                    assert(before[a0].0.0 < before[b0].0.0);
                } else if a == i {
                    assert(terms@[b] == before[b0]);
                } else {
                    assert(terms@[a] == before[a0]);
                }
            }
            assert forall|j: int| 0 <= j < terms@.len() implies after.dom().contains(
                (#[trigger] terms@[j]).0.0,
            ) && after[terms@[j].0.0] == terms@[j].1 by {
                if j != i {
                    let k = if j < i { j } else { j - 1 };
                    assert(terms@[j] == before[k]);
                }
            }
        }
    }
}

impl Clone for AffineExpr {
    fn clone(&self) -> (r: Self)
        ensures
            r@ == self@,
    {
        AffineExpr { terms: crate::data::copied(&self.terms), constant: self.constant }
    }
}

impl AffineExpr {
    /// Creates an affine expression from terms and a constant.
    #[must_use]
    pub fn new(terms: Vec<(LoopVar, i64)>, constant: i64) -> (r: Self)
        ensures
            r@ == (AffineView { terms: terms@, constant }),
    {
        AffineExpr { terms, constant }
    }

    /// Creates a constant affine expression.
    #[must_use]
    pub fn constant(value: i64) -> (r: Self)
        ensures
            r@ == (AffineView { terms: Seq::empty(), constant: value }),
    {
        AffineExpr { terms: Vec::new(), constant: value }
    }

    /// Creates a single-variable affine expression.
    #[must_use]
    pub fn var(var: LoopVar) -> (r: Self)
        ensures
            r@ == (AffineView { terms: seq![(var, 1i64)], constant: 0 }),
    {
        let mut terms: Vec<(LoopVar, i64)> = Vec::new();
        terms.push((var, 1));
        assert(terms@ =~= seq![(var, 1i64)]);
        AffineExpr { terms, constant: 0 }
    }

    /// Returns affine terms in source order.
    #[must_use]
    pub fn terms(&self) -> (r: &[(LoopVar, i64)])
        ensures
            r@ == self@.terms,
    {
        self.terms.as_slice()
    }

    /// Returns the constant offset.
    #[must_use]
    pub fn constant_term(&self) -> (r: i64)
        ensures
            r == self@.constant,
    {
        self.constant
    }

    /// Returns a new expression with `var` replaced by `replacement`.
    ///
    /// If `var` appears with coefficient `c`, the occurrence contributes
    /// `c * replacement` to the result. Like terms are combined and zero
    /// coefficients are removed, in ascending variable order.
    #[must_use]
    pub fn substitute(&self, var: LoopVar, replacement: &AffineExpr) -> (r: Self)
        ensures
            lists_map(
                r@.terms,
                substituted(self@, var, replacement@, self@.terms.len()),
            ),
            r@.constant == substituted_constant(self@, var, replacement@, self@.terms.len()),
    {
        let mut terms: Vec<(LoopVar, i64)> = Vec::new();
        let mut constant: i64 = self.constant;
        let mut i: usize = 0;
        while i < self.terms.len()
            invariant
                i <= self@.terms.len(),
                lists_map(terms@, substituted(self@, var, replacement@, i as nat)),
                constant == substituted_constant(self@, var, replacement@, i as nat),
            decreases self@.terms.len() - i,
        {
            let term: (LoopVar, i64) = self.terms[i];
            let ghost base = substituted(self@, var, replacement@, i as nat);
            if term.0 == var {
                constant = saturating_sum(
                    constant,
                    saturating_product(term.1, replacement.constant),
                );
                let mut k: usize = 0;
                while k < replacement.terms.len()
                    invariant
                        k <= replacement@.terms.len(),
                        lists_map(
                            terms@,
                            with_scaled(base, replacement@.terms, term.1, k as nat),
                        ),
                    decreases replacement@.terms.len() - k,
                {
                    let other: (LoopVar, i64) = replacement.terms[k];
                    add_term(
                        &mut terms,
                        other.0,
                        saturating_product(term.1, other.1),
                        Ghost(with_scaled(base, replacement@.terms, term.1, k as nat)),
                    );
                    k += 1;
                }
            } else {
                add_term(&mut terms, term.0, term.1, Ghost(base));
            }
            i += 1;
        }
        AffineExpr { terms, constant }
    }

    /// Evaluates this expression in a loop-variable environment, by variable id.
    ///
    /// Missing variables are zero, so constant bounds and scalar indices share
    /// the same evaluator.
    #[must_use]
    pub fn eval(&self, env: &HashMap<u32, i64>) -> (r: i64)
        ensures
            r == self@.value(env@),
    {
        broadcast use vstd::std_specs::hash::group_hash_axioms;

        let mut acc: i64 = self.constant;
        let mut i: usize = 0;
        while i < self.terms.len()
            invariant
                i <= self@.terms.len(),
                acc == terms_value(self@, env@, i as nat),
            decreases self@.terms.len() - i,
        {
            let term: (LoopVar, i64) = self.terms[i];
            let value: i64 = match env.get(&term.0.0) {
                Some(value) => *value,
                None => 0,
            };
            acc = saturating_sum(acc, saturating_product(term.1, value));
            i += 1;
        }
        acc
    }

    /// Renders the terms with their signs, then a nonzero constant.
    pub fn to_text(&self) -> (r: String)
        ensures
            r@ == self@.text(),
    {
        if self.terms.len() == 0 {
            return signed_text(self.constant);
        }
        let mut out = String::new();
        let mut i: usize = 0;
        while i < self.terms.len()
            invariant
                i <= self@.terms.len(),
                out@ == self@.terms_text(i as nat),
            decreases self@.terms.len() - i,
        {
            let term: (LoopVar, i64) = self.terms[i];
            if i > 0 {
                out.append(if term.1 >= 0 { " + " } else { " - " });
            } else {
                out.append(if term.1 >= 0 { "" } else { "-" });
            }
            let abs: u64 = saturating_abs(term.1);
            if abs == 1 {
                out.append(term.0.to_text().as_str());
            } else {
                out.append(decimal_text(abs).as_str());
                out.append("*");
                out.append(term.0.to_text().as_str());
            }
            i += 1;
        }
        if self.constant != 0 {
            if self.constant >= 0 {
                out.append(" + ");
                out.append(decimal_text(self.constant as u64).as_str());
            } else {
                out.append(" - ");
                out.append(decimal_text(saturating_abs(self.constant)).as_str());
            }
        }
        out
    }
}

} // verus!

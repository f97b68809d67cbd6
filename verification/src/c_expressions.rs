//! The C text of scalar expressions has their value.
use vstd::prelude::*;

use crate::c_numbers::{
    c_number, c_terms, lemma_affine_value, lemma_fitting_value, lemma_read_affine,
    lemma_read_double, lemma_read_name, long_fits, magnitude_of,
};
use crate::c_reader::{
    c_value, element_place, expression_in, read_atom, read_element, read_inner, read_operator,
    read_unary, sum_of, CExpr, COperator,
};
use crate::c_tokens::{ends_number, lemma_assoc, lemma_not_begins, lemma_past, past};
use crate::domain::{Domain, Exact};
use crate::emit_c::{affine_c, buffer_c, ref_c, scalar_c};
use crate::float::{int_double, significand64};
use crate::float_laws::doubles_of_small_integers_are_exact;
use crate::interp_loops::{place, scalar_value, LoopErrorView, LoopState};
use crate::loop_ir::{RefView, ScalarView};
use crate::rational::{quotient, two_to};

verus! {

/// The literals of an expression are integers that a double holds exactly, and no minus sign
/// stands before a negative one: C would take the two signs for a decrement.
pub open spec fn plain_scalar(e: ScalarView) -> bool
    decreases e,
{
    match e {
        ScalarView::Load(_) => true,
        ScalarView::ConstScalar { numer, denom } => denom == 1 && -0x20_0000_0000_0000 <= numer
            <= 0x20_0000_0000_0000,
        ScalarView::Add(l, r) => plain_scalar(*l) && plain_scalar(*r),
        ScalarView::Sub(l, r) => plain_scalar(*l) && plain_scalar(*r),
        ScalarView::Mul(l, r) => plain_scalar(*l) && plain_scalar(*r),
        ScalarView::Neg(x) => plain_scalar(*x) && !negative_literal(*x),
        ScalarView::Relu(x) => plain_scalar(*x),
    }
}

/// A literal below zero.
pub open spec fn negative_literal(e: ScalarView) -> bool {
    match e {
        ScalarView::ConstScalar { numer, denom } => numer < 0,
        _ => false,
    }
}

/// The indices of an expression can be evaluated in `long`.
pub open spec fn indices_fit(e: ScalarView, env: Map<u32, i64>) -> bool
    decreases e,
{
    match e {
        ScalarView::Load(r) => long_fits(r.index, env),
        ScalarView::ConstScalar { numer, denom } => true,
        ScalarView::Add(l, r) => indices_fit(*l, env) && indices_fit(*r, env),
        ScalarView::Sub(l, r) => indices_fit(*l, env) && indices_fit(*r, env),
        ScalarView::Mul(l, r) => indices_fit(*l, env) && indices_fit(*r, env),
        ScalarView::Neg(x) => indices_fit(*x, env),
        ScalarView::Relu(x) => indices_fit(*x, env),
    }
}

/// The scalar of a negative literal is the negative of that of its magnitude.
pub open spec fn negates_literals<D: Domain>() -> bool {
    forall|x: real|
        x > 0real ==> match #[trigger] D::literal_value(x) {
            Some(v) => D::literal_value(-x) == Some(D::neg_value(v)),
            None => D::literal_value(-x) is None,
        }
}

/// What the text of an expression is read as.
pub open spec fn c_expr(e: ScalarView) -> CExpr
    decreases e,
{
    match e {
        ScalarView::Load(r) => CExpr::Element { buffer: r.buffer.0, index: c_terms(r.index) },
        ScalarView::ConstScalar { numer, denom } => c_number(int_double(numer)),
        ScalarView::Add(l, r) => CExpr::Binary(
            COperator::Plus,
            Box::new(c_expr(*l)),
            Box::new(c_expr(*r)),
        ),
        ScalarView::Sub(l, r) => CExpr::Binary(
            COperator::Minus,
            Box::new(c_expr(*l)),
            Box::new(c_expr(*r)),
        ),
        ScalarView::Mul(l, r) => CExpr::Binary(
            COperator::Times,
            Box::new(c_expr(*l)),
            Box::new(c_expr(*r)),
        ),
        ScalarView::Neg(x) => CExpr::Negative(Box::new(c_expr(*x))),
        ScalarView::Relu(x) => CExpr::Positive(Box::new(c_expr(*x)), Box::new(c_expr(*x))),
    }
}

/// The text of a reference is read back.
#[verifier::rlimit(60)]
#[verifier::spinoff_prover]
pub proof fn lemma_read_ref(r: RefView, rest: Seq<char>)
    ensures
        read_element(ref_c(r) + rest) == Some(((r.buffer.0, c_terms(r.index)), rest)),
        ref_c(r).len() > 0,
        ref_c(r)[0] == 'b',
{
    reveal_strlit("b");
    reveal_strlit("[");
    reveal_strlit("]");
    reveal_strlit(" + ");
    let close = "]"@ + rest;
    let index = affine_c(r.index) + close;
    let open = "["@ + index;
    lemma_assoc(buffer_c(r.buffer) + "["@ + affine_c(r.index), "]"@, rest);
    lemma_assoc(buffer_c(r.buffer) + "["@, affine_c(r.index), close);
    lemma_assoc(buffer_c(r.buffer), "["@, index);
    lemma_read_name("b"@, r.buffer.0, open);
    lemma_past("["@, index);
    assert(close[0] == ']');
    lemma_not_begins(close, " + "@, 0);
    lemma_read_affine(r.index, close);
    lemma_past("]"@, rest);
}

/// After a closing parenthesis no operator follows an operand.
proof fn lemma_closed(rest: Seq<char>)
    ensures
        read_operator(")"@ + rest) is None,
        past(")"@ + rest, " > 0.0 ? "@) is None,
        past(")"@ + rest, ")"@) == Some(rest),
        ends_number(")"@ + rest, 10),
{
    reveal_strlit(")");
    reveal_strlit(" + ");
    reveal_strlit(" - ");
    reveal_strlit(" * ");
    reveal_strlit(" > 0.0 ? ");
    let s = ")"@ + rest;
    assert(s[0] == ')');
    lemma_not_begins(s, " + "@, 0);
    lemma_not_begins(s, " - "@, 0);
    lemma_not_begins(s, " * "@, 0);
    lemma_not_begins(s, " > 0.0 ? "@, 0);
    lemma_past(")"@, rest);
}

/// What stands in parentheses is read up to the closing one.
proof fn lemma_wrap(inner: Seq<char>, e: CExpr, rest: Seq<char>)
    requires
        read_inner(inner) == Some((e, ")"@ + rest)),
    ensures
        read_atom("("@ + inner) == Some((e, rest)),
        read_unary("("@ + inner) == Some((e, rest)),
{
    reveal_strlit("(");
    let s = "("@ + inner;
    lemma_past(")"@, rest);
    assert(s[0] == '(');
    assert(s.skip(1) =~= inner);
}

/// An operand in parentheses is read as the operand.
proof fn lemma_read_parens(t: Seq<char>, e: CExpr, rest: Seq<char>)
    requires
        read_unary(t + (")"@ + rest)) == Some((e, ")"@ + rest)),
    ensures
        read_atom("("@ + (t + (")"@ + rest))) == Some((e, rest)),
        read_unary("("@ + (t + (")"@ + rest))) == Some((e, rest)),
{
    let inner = t + (")"@ + rest);
    lemma_closed(rest);
    assert(read_inner(inner) == Some((e, ")"@ + rest)));
    lemma_wrap(inner, e, rest);
}

/// The text of the operators.
spec fn operator_text(op: COperator) -> Seq<char> {
    match op {
        COperator::Plus => " + "@,
        COperator::Minus => " - "@,
        COperator::Times => " * "@,
    }
}

proof fn lemma_read_operator(op: COperator, next: Seq<char>)
    ensures
        read_operator(operator_text(op) + next) == Some((op, next)),
        ends_number(operator_text(op) + next, 10),
        operator_text(op).len() == 3,
{
    reveal_strlit(" + ");
    reveal_strlit(" - ");
    reveal_strlit(" * ");
    let s = operator_text(op) + next;
    lemma_past(operator_text(op), next);
    assert(s[0] == ' ');
    match op {
        COperator::Plus => {},
        COperator::Minus => {
            assert(s[1] == '-');
            lemma_not_begins(s, " + "@, 1);
        },
        COperator::Times => {
            assert(s[1] == '*');
            lemma_not_begins(s, " + "@, 1);
            lemma_not_begins(s, " - "@, 1);
        },
    }
}

/// Two operands with an operator between them.
proof fn lemma_read_pair(
    inner: Seq<char>,
    op: COperator,
    next: Seq<char>,
    l: CExpr,
    r: CExpr,
    rest: Seq<char>,
)
    requires
        read_unary(inner) == Some((l, operator_text(op) + next)),
        read_unary(next) == Some((r, rest)),
        next.len() < inner.len(),
    ensures
        read_inner(inner) == Some((CExpr::Binary(op, Box::new(l), Box::new(r)), rest)),
{
    lemma_read_operator(op, next);
}

/// Two operands with an operator between them, in parentheses.
proof fn lemma_read_binary(
    a: Seq<char>,
    op: COperator,
    b: Seq<char>,
    l: CExpr,
    r: CExpr,
    rest: Seq<char>,
)
    requires
        read_unary(a + (operator_text(op) + (b + (")"@ + rest)))) == Some(
            (l, operator_text(op) + (b + (")"@ + rest))),
        ),
        read_unary(b + (")"@ + rest)) == Some((r, ")"@ + rest)),
    ensures
        read_unary("("@ + a + operator_text(op) + b + ")"@ + rest) == Some(
            (CExpr::Binary(op, Box::new(l), Box::new(r)), rest),
        ),
{
    let next = b + (")"@ + rest);
    let inner = a + (operator_text(op) + next);
    lemma_read_operator(op, next);
    lemma_read_pair(inner, op, next, l, r, ")"@ + rest);
    lemma_wrap(inner, CExpr::Binary(op, Box::new(l), Box::new(r)), rest);
    lemma_assoc("("@ + a + operator_text(op) + b, ")"@, rest);
    lemma_assoc("("@ + a + operator_text(op), b, ")"@ + rest);
    lemma_assoc("("@ + a, operator_text(op), next);
    lemma_assoc("("@, a, operator_text(op) + next);
}

/// A minus sign and an operand, in parentheses.
proof fn lemma_read_negative(t: Seq<char>, e: CExpr, rest: Seq<char>)
    requires
        t.len() > 0,
        t[0] != '-',
        read_unary(t + (")"@ + rest)) == Some((e, ")"@ + rest)),
    ensures
        read_unary("(-"@ + t + ")"@ + rest) == Some((CExpr::Negative(Box::new(e)), rest)),
{
    reveal_strlit("(-");
    let operand = t + (")"@ + rest);
    let s = "(-"@ + t + ")"@ + rest;
    let inner = s.skip(1);
    lemma_closed(rest);
    assert(s[0] == '(');
    assert(inner[0] == '-');
    lemma_assoc("(-"@ + t, ")"@, rest);
    lemma_assoc("(-"@, t, ")"@ + rest);
    assert(s == "(-"@ + operand);
    assert(inner.skip(1) =~= operand);
    assert(operand[0] == t[0]);
    assert(read_unary(inner) == Some((CExpr::Negative(Box::new(e)), ")"@ + rest)));
    assert(read_inner(inner) == Some((CExpr::Negative(Box::new(e)), ")"@ + rest)));
}

#[verifier::rlimit(60)]
#[verifier::spinoff_prover]
proof fn lemma_relu_text(t: Seq<char>, rest: Seq<char>)
    ensures
        "(("@ + t + ") > 0.0 ? ("@ + t + ") : 0.0)"@ + rest == "("@ + ("("@ + (t + (")"@ + (
        " > 0.0 ? "@ + ("("@ + (t + (")"@ + (" : 0.0"@ + (")"@ + rest))))))))),
        " > 0.0 ? "@.len() == 9,
        " > 0.0 ? "@[0] == ' ',
        " > 0.0 ? "@[1] == '>',
        " : 0.0"@[0] == ' ',
        " : 0.0"@[1] == ':',
        " : 0.0"@.len() == 6,
{
    reveal_strlit("(");
    reveal_strlit(")");
    reveal_strlit("((");
    reveal_strlit(") > 0.0 ? (");
    reveal_strlit(" > 0.0 ? ");
    reveal_strlit(") : 0.0)");
    reveal_strlit(" : 0.0");
    assert("(("@ =~= "("@ + "("@);
    assert(") > 0.0 ? ("@ =~= ")"@ + " > 0.0 ? "@ + "("@);
    assert(") : 0.0)"@ =~= ")"@ + " : 0.0"@ + ")"@);
    assert("(("@ + t + ") > 0.0 ? ("@ + t + ") : 0.0)"@ + rest =~= "("@ + ("("@ + (t + (")"@ + (
    " > 0.0 ? "@ + ("("@ + (t + (")"@ + (" : 0.0"@ + (")"@ + rest))))))))));
}

/// A choice between an operand and zero.
#[verifier::rlimit(60)]
#[verifier::spinoff_prover]
proof fn lemma_read_positive(t: Seq<char>, e: CExpr, rest: Seq<char>)
    requires
        forall|tail: Seq<char>|
            ends_number(tail, 10) ==> #[trigger] read_unary(t + tail) == Some((e, tail)),
    ensures
        read_unary("(("@ + t + ") > 0.0 ? ("@ + t + ") : 0.0)"@ + rest) == Some(
            (CExpr::Positive(Box::new(e), Box::new(e)), rest),
        ),
{
    lemma_relu_text(t, rest);
    reveal_strlit("(");
    reveal_strlit(" + ");
    reveal_strlit(" - ");
    reveal_strlit(" * ");
    let close = ")"@ + rest;
    let zero = " : 0.0"@ + close;
    let kept = "("@ + (t + (")"@ + zero));
    let chosen = " > 0.0 ? "@ + kept;
    let inner = "("@ + (t + (")"@ + chosen));
    let s = "("@ + inner;
    lemma_closed(rest);
    lemma_closed(zero);
    lemma_closed(chosen);
    lemma_read_parens(t, e, zero);
    lemma_read_parens(t, e, chosen);
    lemma_not_begins(chosen, " + "@, 1);
    lemma_not_begins(chosen, " - "@, 1);
    lemma_not_begins(chosen, " * "@, 1);
    lemma_past(" > 0.0 ? "@, kept);
    lemma_past(" : 0.0"@, close);
    assert(read_unary(inner) == Some((e, chosen)));
    assert(read_unary(kept) == Some((e, zero)));
    assert(kept.len() < inner.len());
    assert(read_inner(inner) == Some((CExpr::Positive(Box::new(e), Box::new(e)), close)));
    assert(s[0] == '(');
    assert(s.skip(1) =~= inner);
}

proof fn lemma_open(t: Seq<char>)
    ensures
        ("("@ + t).len() > 0,
        ("("@ + t)[0] == '(',
{
    reveal_strlit("(");
}

/// The text of an expression is read back, and begins with a minus sign only where it is a negative
/// literal.
#[verifier::rlimit(60)]
#[verifier::spinoff_prover]
pub proof fn lemma_read_scalar(e: ScalarView, rest: Seq<char>)
    requires
        plain_scalar(e),
        ends_number(rest, 10),
    ensures
        scalar_c(e) is Ok,
        read_unary(scalar_c(e)->Ok_0 + rest) == Some((c_expr(e), rest)),
        scalar_c(e)->Ok_0.len() > 0,
        scalar_c(e)->Ok_0[0] == '-' <==> negative_literal(e),
    decreases e,
{
    let close = ")"@ + rest;
    lemma_closed(rest);
    match e {
        ScalarView::Load(r) => {
            lemma_read_ref(r, rest);
            assert((ref_c(r) + rest)[0] == 'b');
        },
        ScalarView::ConstScalar { numer, denom } => {
            doubles_of_small_integers_are_exact(numer);
            lemma_read_double(int_double(numer), rest);
        },
        ScalarView::Add(l, r) => {
            lemma_read_scalar(*r, close);
            let next = scalar_c(*r)->Ok_0 + close;
            lemma_read_operator(COperator::Plus, next);
            lemma_read_scalar(*l, operator_text(COperator::Plus) + next);
            lemma_read_binary(
                scalar_c(*l)->Ok_0,
                COperator::Plus,
                scalar_c(*r)->Ok_0,
                c_expr(*l),
                c_expr(*r),
                rest,
            );
            lemma_open(scalar_c(*l)->Ok_0);
        },
        ScalarView::Sub(l, r) => {
            lemma_read_scalar(*r, close);
            let next = scalar_c(*r)->Ok_0 + close;
            lemma_read_operator(COperator::Minus, next);
            lemma_read_scalar(*l, operator_text(COperator::Minus) + next);
            lemma_read_binary(
                scalar_c(*l)->Ok_0,
                COperator::Minus,
                scalar_c(*r)->Ok_0,
                c_expr(*l),
                c_expr(*r),
                rest,
            );
            lemma_open(scalar_c(*l)->Ok_0);
        },
        ScalarView::Mul(l, r) => {
            lemma_read_scalar(*r, close);
            let next = scalar_c(*r)->Ok_0 + close;
            lemma_read_operator(COperator::Times, next);
            lemma_read_scalar(*l, operator_text(COperator::Times) + next);
            lemma_read_binary(
                scalar_c(*l)->Ok_0,
                COperator::Times,
                scalar_c(*r)->Ok_0,
                c_expr(*l),
                c_expr(*r),
                rest,
            );
            lemma_open(scalar_c(*l)->Ok_0);
        },
        ScalarView::Neg(x) => {
            reveal_strlit("(-");
            lemma_read_scalar(*x, close);
            lemma_read_negative(scalar_c(*x)->Ok_0, c_expr(*x), rest);
        },
        ScalarView::Relu(x) => {
            reveal_strlit("((");
            lemma_read_scalar(*x, close);
            let t = scalar_c(*x)->Ok_0;
            assert forall|tail: Seq<char>| ends_number(tail, 10) implies #[trigger] read_unary(
                t + tail,
            ) == Some((c_expr(*x), tail)) by {
                lemma_read_scalar(*x, tail);
            }
            lemma_read_positive(t, c_expr(*x), rest);
        },
    }
}

/// A literal is read as a constant of its magnitude, behind a minus sign below zero, and has the
/// same scalar.
proof fn lemma_literal_value<D: Domain>(
    numer: int,
    env: Map<u32, i64>,
    buffers: Seq<Seq<D::V>>,
)
    requires
        negates_literals::<D>(),
        -0x20_0000_0000_0000 <= numer <= 0x20_0000_0000_0000,
    ensures
        c_value::<D>(c_number(int_double(numer)), env, buffers) == Some(
            scalar_value::<D>(
                ScalarView::ConstScalar { numer, denom: 1 },
                LoopState { buffers, env },
            ),
        ),
{
    let bits = int_double(numer);
    doubles_of_small_integers_are_exact(numer);
    let m = significand64(bits);
    let t = two_to(crate::float::scale64(bits));
    assert((-m) as real == -(m as real));
    assert(-(m as real) * t == -(m as real * t)) by (nonlinear_arith);
    let x = magnitude_of(bits);
    assert(numer as real == if numer < 0 {
        -x
    } else {
        x
    });
    let y = numer as real;
    assert(y / 1real == y) by (nonlinear_arith);
    assert(1int as real == 1real);
    assert(quotient(numer, 1) == numer as real);
    let plain = CExpr::Number(x);
    let inner = c_value::<D>(plain, env, buffers);
    if numer < 0 {
        assert(x > 0real);
        assert(-x == numer as real);
        assert(c_number(bits) == CExpr::Negative(Box::new(plain)));
        match D::literal_value(x) {
            Some(v) => {
                assert(inner == Some(Ok::<D::V, LoopErrorView>(v)));
            },
            None => {},
        }
    }
}

/// Where C gives the text of an expression a value, it is that of the expression; it does wherever
/// the indices fit.
pub proof fn lemma_scalar_value<D: Domain>(e: ScalarView, st: LoopState<D::V>)
    requires
        plain_scalar(e),
        negates_literals::<D>(),
    ensures
        c_value::<D>(c_expr(e), st.env, st.buffers) is Some ==> c_value::<D>(
            c_expr(e),
            st.env,
            st.buffers,
        ) == Some(scalar_value::<D>(e, st)),
        indices_fit(e, st.env) ==> c_value::<D>(c_expr(e), st.env, st.buffers) is Some,
    decreases e,
{
    match e {
        ScalarView::Load(r) => {
            lemma_place(r, st);
        },
        ScalarView::ConstScalar { numer, denom } => {
            lemma_literal_value::<D>(numer, st.env, st.buffers);
            assert(st == LoopState { buffers: st.buffers, env: st.env });
        },
        ScalarView::Add(l, r) => {
            lemma_scalar_value::<D>(*l, st);
            lemma_scalar_value::<D>(*r, st);
        },
        ScalarView::Sub(l, r) => {
            lemma_scalar_value::<D>(*l, st);
            lemma_scalar_value::<D>(*r, st);
        },
        ScalarView::Mul(l, r) => {
            lemma_scalar_value::<D>(*l, st);
            lemma_scalar_value::<D>(*r, st);
        },
        ScalarView::Neg(x) => {
            lemma_scalar_value::<D>(*x, st);
        },
        ScalarView::Relu(x) => {
            lemma_scalar_value::<D>(*x, st);
        },
    }
}

/// Where C gives an element a place, it is that of the reference; it does where the index fits.
pub proof fn lemma_place<V>(r: RefView, st: LoopState<V>)
    ensures
        ({
            let found = element_place(r.buffer.0, c_terms(r.index), st.env, st.buffers);
            &&& found is Some ==> found == Some(place(r, st))
            &&& long_fits(r.index, st.env) ==> found is Some
        }),
{
    if sum_of(c_terms(r.index), st.env) is Some {
        lemma_affine_value(r.index, st.env);
    }
    if long_fits(r.index, st.env) {
        lemma_fitting_value(r.index, st.env);
    }
    assert(r.buffer == crate::loop_ir::BufferId(r.buffer.0));
}

/// The C text of a scalar expression, read as C, has the value of the expression: in every domain
/// that negates literals, over every state in which the indices fit. Literals are integers that
/// a double holds exactly.
pub proof fn emitted_expressions_have_their_value<D: Domain>(e: ScalarView, st: LoopState<D::V>)
    requires
        plain_scalar(e),
        indices_fit(e, st.env),
        negates_literals::<D>(),
    ensures
        scalar_c(e) is Ok,
        expression_in(scalar_c(e)->Ok_0) is Some,
        c_value::<D>(expression_in(scalar_c(e)->Ok_0)->Some_0, st.env, st.buffers) == Some(
            scalar_value::<D>(e, st),
        ),
{
    let t = lemma_spelled(e);
    lemma_scalar_value::<D>(e, st);
}

proof fn lemma_spelled(e: ScalarView) -> (t: Seq<char>)
    requires
        plain_scalar(e),
    ensures
        scalar_c(e) == Ok::<Seq<char>, crate::emit_c::CodegenErrorView>(t),
        expression_in(t) == Some(c_expr(e)),
{
    lemma_read_scalar(e, Seq::empty());
    let t = scalar_c(e)->Ok_0;
    assert(t + Seq::<char>::empty() =~= t);
    t
}

/// Exact arithmetic negates literals.
pub proof fn exact_arithmetic_negates_literals()
    ensures
        negates_literals::<Exact>(),
{
}

} // verus!

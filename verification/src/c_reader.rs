//! A reader of C statements, and what the statements do.
//!
//! The reader knows C's spelling only: names, integers, hexadecimal floating
//! constants, parentheses, operators, assignments and counted loops.
use vstd::prelude::*;

use crate::c_tokens::{begins, number_of, past, read_digits, read_natural};
use crate::domain::Domain;
use crate::interp_loops::LoopErrorView;
use crate::loop_ir::BufferId;
use crate::rational::two_to;

verus! {

/// A term of an integer sum: a number, or a number times a variable.
pub struct CTerm {
    pub factor: int,
    pub var: Option<u32>,
}

/// The binary operators.
pub enum COperator {
    Plus,
    Minus,
    Times,
}

/// An expression of type `double`.
pub enum CExpr {
    /// `b0[i0 + 1]`.
    Element { buffer: u32, index: Seq<CTerm> },
    /// `0x1.8p+0`.
    Number(real),
    /// `-x`.
    Negative(Box<CExpr>),
    /// `x + y`, `x - y` or `x * y`.
    Binary(COperator, Box<CExpr>, Box<CExpr>),
    /// `x > 0.0 ? y : 0.0`.
    Positive(Box<CExpr>, Box<CExpr>),
}

/// A statement.
pub enum CStmt {
    /// `for (long i0 = lo; i0 < hi; i0++) { .. }`.
    For { var: u32, lo: Seq<CTerm>, hi: Seq<CTerm>, body: Seq<CStmt> },
    /// `b0[i0] = x;`.
    Assign { buffer: u32, index: Seq<CTerm>, value: CExpr },
}

/// A letter followed by a number: a name.
pub open spec fn read_name(s: Seq<char>, letter: char) -> Option<(u32, Seq<char>)> {
    if s.len() > 0 && s[0] == letter {
        match read_natural(s.skip(1)) {
            None => None,
            Some((n, rest)) => if n <= u32::MAX {
                Some((n as u32, rest))
            } else {
                None
            },
        }
    } else {
        None
    }
}

/// The number with a minus sign where there is one.
pub open spec fn with_sign(negative: bool, n: int) -> int {
    if negative {
        -n
    } else {
        n
    }
}

/// A term: an optional minus sign, then a name, a number, or a number times a name.
pub open spec fn read_term(s: Seq<char>) -> Option<(CTerm, Seq<char>)> {
    let negative = s.len() > 0 && s[0] == '-';
    let unsigned = if negative {
        s.skip(1)
    } else {
        s
    };
    match read_name(unsigned, 'i') {
        Some((v, rest)) => Some((CTerm { factor: with_sign(negative, 1), var: Some(v) }, rest)),
        None => match read_natural(unsigned) {
            None => None,
            Some((n, rest)) => {
                let factor = with_sign(negative, n as int);
                if rest.len() > 0 && rest[0] == '*' {
                    match read_name(rest.skip(1), 'i') {
                        None => None,
                        Some((v, rest)) => Some((CTerm { factor, var: Some(v) }, rest)),
                    }
                } else {
                    Some((CTerm { factor, var: None }, rest))
                }
            },
        },
    }
}

/// Terms with plus signs between them.
pub open spec fn read_sum(s: Seq<char>) -> Option<(Seq<CTerm>, Seq<char>)>
    decreases s.len(),
{
    match read_term(s) {
        None => None,
        Some((t, rest)) => match past(rest, " + "@) {
            None => Some((seq![t], rest)),
            Some(next) => if next.len() < s.len() {
                match read_sum(next) {
                    None => None,
                    Some((more, rest)) => Some((seq![t] + more, rest)),
                }
            } else {
                None
            },
        },
    }
}

/// A name of a buffer and an index in brackets.
pub open spec fn read_element(s: Seq<char>) -> Option<((u32, Seq<CTerm>), Seq<char>)> {
    match read_name(s, 'b') {
        None => None,
        Some((buffer, rest)) => match past(rest, "["@) {
            None => None,
            Some(rest) => match read_sum(rest) {
                None => None,
                Some((index, rest)) => match past(rest, "]"@) {
                    None => None,
                    Some(rest) => Some(((buffer, index), rest)),
                },
            },
        },
    }
}

/// The binary exponent of a floating constant, with its sign.
pub open spec fn read_exponent(s: Seq<char>) -> Option<(int, Seq<char>)> {
    match past(s, "p"@) {
        None => None,
        Some(signed) => if signed.len() > 0 && (signed[0] == '+' || signed[0] == '-') {
            match read_natural(signed.skip(1)) {
                None => None,
                Some((n, rest)) => Some((with_sign(signed[0] == '-', n as int), rest)),
            }
        } else {
            None
        },
    }
}

/// A hexadecimal floating constant: its digits, those behind the point counting as sixteenths and
/// so on, times two to the exponent.
pub open spec fn read_constant(s: Seq<char>) -> Option<(real, Seq<char>)> {
    match past(s, "0x"@) {
        None => None,
        Some(rest) => match read_digits(rest, 16) {
            None => None,
            Some((whole, rest)) => {
                let fraction = match past(rest, "."@) {
                    None => Some((Seq::<char>::empty(), rest)),
                    Some(rest) => read_digits(rest, 16),
                };
                match fraction {
                    None => None,
                    Some((places, rest)) => match read_exponent(rest) {
                        None => None,
                        Some((e, rest)) => Some(
                            (
                                number_of(whole + places, 16) as real * two_to(
                                    e - 4 * places.len(),
                                ),
                                rest,
                            ),
                        ),
                    },
                }
            },
        },
    }
}

/// An element, a constant, or an expression in parentheses.
pub open spec fn read_atom(s: Seq<char>) -> Option<(CExpr, Seq<char>)>
    decreases s.len(), 0nat,
{
    if s.len() == 0 {
        None
    } else if s[0] == '(' {
        match read_inner(s.skip(1)) {
            None => None,
            Some((e, rest)) => match past(rest, ")"@) {
                None => None,
                Some(rest) => Some((e, rest)),
            },
        }
    } else if s[0] == 'b' {
        match read_element(s) {
            None => None,
            Some(((buffer, index), rest)) => Some((CExpr::Element { buffer, index }, rest)),
        }
    } else {
        match read_constant(s) {
            None => None,
            Some((x, rest)) => Some((CExpr::Number(x), rest)),
        }
    }
}

/// An atom, or a minus sign and an atom.
pub open spec fn read_unary(s: Seq<char>) -> Option<(CExpr, Seq<char>)>
    decreases s.len(), 1nat,
{
    if s.len() > 0 && s[0] == '-' {
        match read_atom(s.skip(1)) {
            None => None,
            Some((e, rest)) => Some((CExpr::Negative(Box::new(e)), rest)),
        }
    } else {
        read_atom(s)
    }
}

/// The operator that the text begins with, and what follows it.
pub open spec fn read_operator(s: Seq<char>) -> Option<(COperator, Seq<char>)> {
    match past(s, " + "@) {
        Some(rest) => Some((COperator::Plus, rest)),
        None => match past(s, " - "@) {
            Some(rest) => Some((COperator::Minus, rest)),
            None => match past(s, " * "@) {
                Some(rest) => Some((COperator::Times, rest)),
                None => None,
            },
        },
    }
}

/// What stands in parentheses: one operand, two with an operator between them, or a condition with
/// what it chooses from.
pub open spec fn read_inner(s: Seq<char>) -> Option<(CExpr, Seq<char>)>
    decreases s.len(), 2nat,
{
    match read_unary(s) {
        None => None,
        Some((left, rest)) => match read_operator(rest) {
            Some((op, next)) => if next.len() < s.len() {
                match read_unary(next) {
                    None => None,
                    Some((right, rest)) => Some(
                        (CExpr::Binary(op, Box::new(left), Box::new(right)), rest),
                    ),
                }
            } else {
                None
            },
            None => match past(rest, " > 0.0 ? "@) {
                Some(next) => if next.len() < s.len() {
                    match read_unary(next) {
                        None => None,
                        Some((kept, rest)) => match past(rest, " : 0.0"@) {
                            None => None,
                            Some(rest) => Some(
                                (CExpr::Positive(Box::new(left), Box::new(kept)), rest),
                            ),
                        },
                    }
                } else {
                    None
                },
                None => Some((left, rest)),
            },
        },
    }
}

/// The expression that a text spells.
pub open spec fn expression_in(s: Seq<char>) -> Option<CExpr> {
    match read_unary(s) {
        Some((e, rest)) => if rest.len() == 0 {
            Some(e)
        } else {
            None
        },
        None => None,
    }
}

/// The text from its first character that is no space.
pub open spec fn unspaced(s: Seq<char>) -> Seq<char>
    decreases s.len(),
{
    if s.len() > 0 && s[0] == ' ' {
        unspaced(s.skip(1))
    } else {
        s
    }
}

/// The head of a loop over a variable: its name and bounds. The name is the same in all places.
pub open spec fn read_head(s: Seq<char>) -> Option<((u32, Seq<CTerm>, Seq<CTerm>), Seq<char>)> {
    match past(s, "for (long "@) {
        None => None,
        Some(rest) => match read_name(rest, 'i') {
            None => None,
            Some((var, rest)) => match past(rest, " = "@) {
                None => None,
                Some(rest) => match read_sum(rest) {
                    None => None,
                    Some((lo, rest)) => match past(rest, "; "@) {
                        None => None,
                        Some(rest) => match read_test(rest, var) {
                            None => None,
                            Some((hi, rest)) => Some(((var, lo, hi), rest)),
                        },
                    },
                },
            },
        },
    }
}

/// The rest of the head of a loop: the test and the step.
pub open spec fn read_test(s: Seq<char>, var: u32) -> Option<(Seq<CTerm>, Seq<char>)> {
    match read_name(s, 'i') {
        None => None,
        Some((tested, rest)) => match past(rest, " < "@) {
            None => None,
            Some(rest) => match read_sum(rest) {
                None => None,
                Some((hi, rest)) => match past(rest, "; "@) {
                    None => None,
                    Some(rest) => match read_name(rest, 'i') {
                        None => None,
                        Some((stepped, rest)) => match past(rest, "++) {\n"@) {
                            None => None,
                            Some(rest) => if tested == var && stepped == var {
                                Some((hi, rest))
                            } else {
                                None
                            },
                        },
                    },
                },
            },
        },
    }
}

/// An assignment with its semicolon.
pub open spec fn read_assignment(s: Seq<char>) -> Option<(CStmt, Seq<char>)> {
    match read_element(s) {
        None => None,
        Some(((buffer, index), rest)) => match past(rest, " = "@) {
            None => None,
            Some(rest) => match read_unary(rest) {
                None => None,
                Some((value, rest)) => match past(rest, ";\n"@) {
                    None => None,
                    Some(rest) => Some((CStmt::Assign { buffer, index, value }, rest)),
                },
            },
        },
    }
}

/// A loop or an assignment.
pub open spec fn read_stmt(s: Seq<char>) -> Option<(CStmt, Seq<char>)>
    decreases s.len(), 0nat,
{
    if begins(s, "for (long "@) {
        match read_head(s) {
            None => None,
            Some(((var, lo, hi), rest)) => if rest.len() < s.len() {
                match read_block(rest) {
                    None => None,
                    Some((body, rest)) => match past(rest, "}\n"@) {
                        None => None,
                        Some(rest) => Some((CStmt::For { var, lo, hi, body }, rest)),
                    },
                }
            } else {
                None
            },
        }
    } else {
        read_assignment(s)
    }
}

/// Statements up to a closing brace or the end. Spaces before a statement or a brace do not count.
pub open spec fn read_block(s: Seq<char>) -> Option<(Seq<CStmt>, Seq<char>)>
    decreases s.len(), 1nat,
{
    let t = unspaced(s);
    if t.len() > s.len() {
        None
    } else if t.len() == 0 || t[0] == '}' {
        Some((Seq::empty(), t))
    } else {
        match read_stmt(t) {
            None => None,
            Some((first, rest)) => if rest.len() < s.len() {
                match read_block(rest) {
                    None => None,
                    Some((more, rest)) => Some((seq![first] + more, rest)),
                }
            } else {
                None
            },
        }
    }
}

/// The statements that a text spells.
pub open spec fn statements_in(s: Seq<char>) -> Option<Seq<CStmt>> {
    match read_block(s) {
        Some((body, rest)) => if rest.len() == 0 {
            Some(body)
        } else {
            None
        },
        None => None,
    }
}

/// The value of a term; a variable has one only in its scope.
pub open spec fn term_value(t: CTerm, env: Map<u32, i64>) -> Option<int> {
    match t.var {
        None => Some(t.factor),
        Some(v) => if env.dom().contains(v) {
            Some(t.factor * env[v])
        } else {
            None
        },
    }
}

/// The magnitude of a number.
pub open spec fn size_of(n: int) -> nat {
    if n < 0 {
        (-n) as nat
    } else {
        n as nat
    }
}

/// Every variable of the sum is in scope.
pub open spec fn in_scope(terms: Seq<CTerm>, env: Map<u32, i64>) -> bool {
    forall|i: int| 0 <= i < terms.len() ==> term_value(#[trigger] terms[i], env) is Some
}

/// The sum of the terms.
pub open spec fn total(terms: Seq<CTerm>, env: Map<u32, i64>) -> int
    decreases terms.len(),
{
    if terms.len() == 0 {
        0
    } else {
        total(terms.drop_last(), env) + term_value(terms.last(), env)->Some_0
    }
}

/// The sum of the magnitudes of the terms.
pub open spec fn total_size(terms: Seq<CTerm>, env: Map<u32, i64>) -> nat
    decreases terms.len(),
{
    if terms.len() == 0 {
        0
    } else {
        total_size(terms.drop_last(), env) + size_of(term_value(terms.last(), env)->Some_0)
    }
}

/// The value of an integer sum of type `long`. One that leaves the type's range in some order of
/// evaluation, or uses a variable out of scope, has none.
pub open spec fn sum_of(terms: Seq<CTerm>, env: Map<u32, i64>) -> Option<int> {
    if in_scope(terms, env) && total_size(terms, env) <= i64::MAX {
        Some(total(terms, env))
    } else {
        None
    }
}

/// What running gives: nothing where the meaning is left open by C, an error where a buffer is
/// missing, an element is out of bounds or a constant has no scalar.
pub type Outcome<T> = Option<Result<T, LoopErrorView>>;

/// The place of an element within its buffer.
pub open spec fn element_place<V>(
    buffer: u32,
    index: Seq<CTerm>,
    env: Map<u32, i64>,
    buffers: Seq<Seq<V>>,
) -> Outcome<int> {
    match sum_of(index, env) {
        None => None,
        Some(i) => if buffer >= buffers.len() {
            Some(Err(LoopErrorView::Internal("missing buffer "@ + BufferId(buffer).text())))
        } else if 0 <= i < buffers[buffer as int].len() {
            Some(Ok(i))
        } else {
            Some(
                Err(
                    LoopErrorView::IndexOutOfBounds {
                        buffer: BufferId(buffer),
                        index: i as i64,
                        numel: buffers[buffer as int].len(),
                    },
                ),
            )
        },
    }
}

/// The value of an expression; operands are evaluated from the left.
pub open spec fn c_value<D: Domain>(
    e: CExpr,
    env: Map<u32, i64>,
    buffers: Seq<Seq<D::V>>,
) -> Outcome<D::V>
    decreases e,
{
    match e {
        CExpr::Element { buffer, index } => match element_place(buffer, index, env, buffers) {
            None => None,
            Some(Err(e)) => Some(Err(e)),
            Some(Ok(i)) => Some(Ok(buffers[buffer as int][i])),
        },
        CExpr::Number(x) => match D::literal_value(x) {
            Some(v) => Some(Ok(v)),
            None => Some(
                Err(LoopErrorView::Internal("rational scalar literal is not representable as f64"@)),
            ),
        },
        CExpr::Negative(x) => match c_value::<D>(*x, env, buffers) {
            None => None,
            Some(Err(e)) => Some(Err(e)),
            Some(Ok(a)) => Some(Ok(D::neg_value(a))),
        },
        CExpr::Binary(op, l, r) => match c_value::<D>(*l, env, buffers) {
            None => None,
            Some(Err(e)) => Some(Err(e)),
            Some(Ok(a)) => match c_value::<D>(*r, env, buffers) {
                None => None,
                Some(Err(e)) => Some(Err(e)),
                Some(Ok(b)) => Some(
                    Ok(
                        match op {
                            COperator::Plus => D::plus_value(a, b),
                            COperator::Minus => D::minus_value(a, b),
                            COperator::Times => D::times_value(a, b),
                        },
                    ),
                ),
            },
        },
        CExpr::Positive(tested, kept) => if tested == kept {
            match c_value::<D>(*tested, env, buffers) {
                None => None,
                Some(Err(e)) => Some(Err(e)),
                Some(Ok(a)) => Some(Ok(D::relu_value(a))),
            }
        } else {
            None
        },
    }
}

/// The buffers after a statement, with the variables in scope.
pub open spec fn run_c<D: Domain>(
    s: CStmt,
    env: Map<u32, i64>,
    buffers: Seq<Seq<D::V>>,
) -> Outcome<Seq<Seq<D::V>>>
    decreases s, 0nat, 0int,
{
    match s {
        CStmt::Assign { buffer, index, value } => match c_value::<D>(value, env, buffers) {
            None => None,
            Some(Err(e)) => Some(Err(e)),
            Some(Ok(v)) => match element_place(buffer, index, env, buffers) {
                None => None,
                Some(Err(e)) => Some(Err(e)),
                Some(Ok(i)) => Some(
                    Ok(
                        buffers.update(
                            buffer as int,
                            buffers[buffer as int].update(i, v),
                        ),
                    ),
                ),
            },
        },
        CStmt::For { var, lo, hi, body } => match sum_of(lo, env) {
            None => None,
            Some(start) => run_c_from::<D>(var, hi, body, start, env, buffers),
        },
    }
}

/// The buffers after a loop that has come to a value of its variable. The test is made anew for
/// each value. A value that passes it is below the largest of its type.
pub open spec fn run_c_from<D: Domain>(
    var: u32,
    hi: Seq<CTerm>,
    body: Seq<CStmt>,
    at: int,
    env: Map<u32, i64>,
    buffers: Seq<Seq<D::V>>,
) -> Outcome<Seq<Seq<D::V>>>
    decreases body, 1nat, i64::MAX - at,
{
    let inner = env.insert(var, at as i64);
    match sum_of(hi, inner) {
        None => None,
        Some(end) => if at < end && at < i64::MAX {
            match run_c_block::<D>(body, inner, buffers) {
                None => None,
                Some(Err(e)) => Some(Err(e)),
                Some(Ok(next)) => run_c_from::<D>(var, hi, body, at + 1, env, next),
            }
        } else {
            Some(Ok(buffers))
        },
    }
}

/// The buffers after statements in order.
pub open spec fn run_c_block<D: Domain>(
    body: Seq<CStmt>,
    env: Map<u32, i64>,
    buffers: Seq<Seq<D::V>>,
) -> Outcome<Seq<Seq<D::V>>>
    decreases body, 0nat, body.len() as int,
{
    if body.len() == 0 {
        Some(Ok(buffers))
    } else {
        match run_c_block::<D>(body.drop_last(), env, buffers) {
            None => None,
            Some(Err(e)) => Some(Err(e)),
            Some(Ok(before)) => run_c::<D>(body.last(), env, before),
        }
    }
}

} // verus!

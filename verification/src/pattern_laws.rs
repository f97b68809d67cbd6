//! What search rules claim: both sides of a rule have the same value.
use vstd::prelude::*;

use crate::c_tokens::{begins, lemma_assoc, lemma_not_begins, lemma_past, past};
use crate::domain::{Domain, Exact};
use crate::egg_lang::EggLang;
use crate::egg_search::{cost_of, rules_of};
use crate::safety::RewriteMode;

verus! {

/// A pattern over elementwise expressions.
pub enum Pattern {
    /// `?x`: any expression.
    Hole(char),
    /// `(neg p)`.
    Neg(Box<Pattern>),
    /// `(relu p)`.
    Relu(Box<Pattern>),
    /// `(add p q)`.
    Add(Box<Pattern>, Box<Pattern>),
    /// `(sub p q)`.
    Sub(Box<Pattern>, Box<Pattern>),
    /// `(mul p q)`.
    Mul(Box<Pattern>, Box<Pattern>),
}

/// One operand and a closing parenthesis.
pub open spec fn read_one(s: Seq<char>) -> Option<(Pattern, Seq<char>)>
    decreases s.len(), 1nat,
{
    match read_pattern(s) {
        None => None,
        Some((p, rest)) => match past(rest, ")"@) {
            None => None,
            Some(rest) => Some((p, rest)),
        },
    }
}

/// Two operands with a space between them and a closing parenthesis.
pub open spec fn read_two(s: Seq<char>) -> Option<((Pattern, Pattern), Seq<char>)>
    decreases s.len(), 1nat,
{
    match read_pattern(s) {
        None => None,
        Some((p, rest)) => match past(rest, " "@) {
            None => None,
            Some(next) => if next.len() < s.len() {
                match read_one(next) {
                    None => None,
                    Some((q, rest)) => Some(((p, q), rest)),
                }
            } else {
                None
            },
        },
    }
}

/// A pattern: a hole with a name of one letter, or the name of an operation and its operands, in
/// parentheses.
pub open spec fn read_pattern(s: Seq<char>) -> Option<(Pattern, Seq<char>)>
    decreases s.len(), 0nat,
{
    if s.len() >= 2 && s[0] == '?' {
        Some((Pattern::Hole(s[1]), s.skip(2)))
    } else if begins(s, "(neg "@) && s.skip(5).len() < s.len() {
        match read_one(s.skip(5)) {
            None => None,
            Some((p, rest)) => Some((Pattern::Neg(Box::new(p)), rest)),
        }
    } else if begins(s, "(relu "@) && s.skip(6).len() < s.len() {
        match read_one(s.skip(6)) {
            None => None,
            Some((p, rest)) => Some((Pattern::Relu(Box::new(p)), rest)),
        }
    } else if begins(s, "(add "@) && s.skip(5).len() < s.len() {
        match read_two(s.skip(5)) {
            None => None,
            Some(((p, q), rest)) => Some((Pattern::Add(Box::new(p), Box::new(q)), rest)),
        }
    } else if begins(s, "(sub "@) && s.skip(5).len() < s.len() {
        match read_two(s.skip(5)) {
            None => None,
            Some(((p, q), rest)) => Some((Pattern::Sub(Box::new(p), Box::new(q)), rest)),
        }
    } else if begins(s, "(mul "@) && s.skip(5).len() < s.len() {
        match read_two(s.skip(5)) {
            None => None,
            Some(((p, q), rest)) => Some((Pattern::Mul(Box::new(p), Box::new(q)), rest)),
        }
    } else {
        None
    }
}

/// The pattern that a text spells.
pub open spec fn pattern_in(s: Seq<char>) -> Option<Pattern> {
    match read_pattern(s) {
        Some((p, rest)) => if rest.len() == 0 {
            Some(p)
        } else {
            None
        },
        None => None,
    }
}

/// The value of a pattern, element by element, over the values of its holes.
pub open spec fn pattern_value<D: Domain>(p: Pattern, holes: spec_fn(char) -> D::V) -> D::V
    decreases p,
{
    match p {
        Pattern::Hole(c) => holes(c),
        Pattern::Neg(x) => D::neg_value(pattern_value::<D>(*x, holes)),
        Pattern::Relu(x) => D::relu_value(pattern_value::<D>(*x, holes)),
        Pattern::Add(x, y) => D::plus_value(
            pattern_value::<D>(*x, holes),
            pattern_value::<D>(*y, holes),
        ),
        Pattern::Sub(x, y) => D::minus_value(
            pattern_value::<D>(*x, holes),
            pattern_value::<D>(*y, holes),
        ),
        Pattern::Mul(x, y) => D::times_value(
            pattern_value::<D>(*x, holes),
            pattern_value::<D>(*y, holes),
        ),
    }
}

/// Negating twice and clamping twice change nothing more, and addition and multiplication do not
/// depend on the order of two operands. Rounded arithmetic has these properties.
pub open spec fn plain_arithmetic<D: Domain>() -> bool {
    &&& forall|a: D::V| #[trigger] D::neg_value(D::neg_value(a)) == a
    &&& forall|a: D::V| #[trigger] D::relu_value(D::relu_value(a)) == D::relu_value(a)
    &&& forall|a: D::V, b: D::V| #[trigger] D::plus_value(a, b) == D::plus_value(b, a)
    &&& forall|a: D::V, b: D::V| #[trigger] D::times_value(a, b) == D::times_value(b, a)
}

/// The names of the operations differ in their first letters.
proof fn lemma_words()
    ensures
        "(neg "@.len() == 5 && "(neg "@[1] == 'n' && "(neg "@[0] == '(',
        "(relu "@.len() == 6 && "(relu "@[1] == 'r' && "(relu "@[0] == '(',
        "(add "@.len() == 5 && "(add "@[1] == 'a' && "(add "@[0] == '(',
        "(sub "@.len() == 5 && "(sub "@[1] == 's' && "(sub "@[0] == '(',
        "(mul "@.len() == 5 && "(mul "@[1] == 'm' && "(mul "@[0] == '(',
        " "@.len() == 1 && ")"@.len() == 1,
{
    reveal_strlit("(neg ");
    reveal_strlit("(relu ");
    reveal_strlit("(add ");
    reveal_strlit("(sub ");
    reveal_strlit("(mul ");
    reveal_strlit(" ");
    reveal_strlit(")");
}

/// A hole is read.
proof fn lemma_hole(c: char, rest: Seq<char>)
    ensures
        read_pattern(seq!['?', c] + rest) == Some((Pattern::Hole(c), rest)),
{
    assert((seq!['?', c] + rest).skip(2) =~= rest);
}

proof fn lemma_one(t: Seq<char>, p: Pattern, rest: Seq<char>)
    requires
        read_pattern(t + (")"@ + rest)) == Some((p, ")"@ + rest)),
    ensures
        read_one(t + (")"@ + rest)) == Some((p, rest)),
{
    lemma_past(")"@, rest);
}

proof fn lemma_two(t: Seq<char>, u: Seq<char>, p: Pattern, q: Pattern, rest: Seq<char>)
    requires
        read_pattern(t + (" "@ + (u + (")"@ + rest)))) == Some((p, " "@ + (u + (")"@ + rest)))),
        read_pattern(u + (")"@ + rest)) == Some((q, ")"@ + rest)),
    ensures
        read_two(t + (" "@ + (u + (")"@ + rest)))) == Some(((p, q), rest)),
{
    let next = u + (")"@ + rest);
    lemma_past(" "@, next);
    lemma_one(u, q, rest);
    lemma_words();
}

proof fn lemma_neg(t: Seq<char>, p: Pattern, rest: Seq<char>)
    requires
        read_pattern(t + (")"@ + rest)) == Some((p, ")"@ + rest)),
    ensures
        read_pattern("(neg "@ + (t + (")"@ + rest))) == Some((Pattern::Neg(Box::new(p)), rest)),
{
    let inner = t + (")"@ + rest);
    lemma_words();
    lemma_past("(neg "@, inner);
    lemma_one(t, p, rest);
    assert(("(neg "@ + inner).skip(5) =~= inner);
}

proof fn lemma_relu(t: Seq<char>, p: Pattern, rest: Seq<char>)
    requires
        read_pattern(t + (")"@ + rest)) == Some((p, ")"@ + rest)),
    ensures
        read_pattern("(relu "@ + (t + (")"@ + rest))) == Some((Pattern::Relu(Box::new(p)), rest)),
{
    let inner = t + (")"@ + rest);
    let s = "(relu "@ + inner;
    lemma_words();
    lemma_past("(relu "@, inner);
    lemma_not_begins(s, "(neg "@, 1);
    lemma_one(t, p, rest);
    assert(s.skip(6) =~= inner);
}

proof fn lemma_add(t: Seq<char>, u: Seq<char>, p: Pattern, q: Pattern, rest: Seq<char>)
    requires
        read_pattern(t + (" "@ + (u + (")"@ + rest)))) == Some((p, " "@ + (u + (")"@ + rest)))),
        read_pattern(u + (")"@ + rest)) == Some((q, ")"@ + rest)),
    ensures
        read_pattern("(add "@ + (t + (" "@ + (u + (")"@ + rest))))) == Some(
            (Pattern::Add(Box::new(p), Box::new(q)), rest),
        ),
{
    let inner = t + (" "@ + (u + (")"@ + rest)));
    let s = "(add "@ + inner;
    lemma_words();
    lemma_past("(add "@, inner);
    lemma_not_begins(s, "(neg "@, 1);
    lemma_not_begins(s, "(relu "@, 1);
    lemma_two(t, u, p, q, rest);
    assert(s.skip(5) =~= inner);
}

proof fn lemma_mul(t: Seq<char>, u: Seq<char>, p: Pattern, q: Pattern, rest: Seq<char>)
    requires
        read_pattern(t + (" "@ + (u + (")"@ + rest)))) == Some((p, " "@ + (u + (")"@ + rest)))),
        read_pattern(u + (")"@ + rest)) == Some((q, ")"@ + rest)),
    ensures
        read_pattern("(mul "@ + (t + (" "@ + (u + (")"@ + rest))))) == Some(
            (Pattern::Mul(Box::new(p), Box::new(q)), rest),
        ),
{
    let inner = t + (" "@ + (u + (")"@ + rest)));
    let s = "(mul "@ + inner;
    lemma_words();
    lemma_past("(mul "@, inner);
    lemma_not_begins(s, "(neg "@, 1);
    lemma_not_begins(s, "(relu "@, 1);
    lemma_not_begins(s, "(add "@, 1);
    lemma_not_begins(s, "(sub "@, 1);
    lemma_two(t, u, p, q, rest);
    assert(s.skip(5) =~= inner);
}

/// The text of a hole.
spec fn hole(c: char) -> Seq<char> {
    seq!['?', c]
}

/// A hole as an operand.
spec fn any_of(c: char) -> Box<Pattern> {
    Box::new(Pattern::Hole(c))
}

/// `(add ?p ?q)` before any text.
proof fn lemma_sum_of_holes(p: char, q: char, rest: Seq<char>)
    ensures
        read_pattern("(add "@ + (hole(p) + (" "@ + (hole(q) + (")"@ + rest))))) == Some(
            (Pattern::Add(any_of(p), any_of(q)), rest),
        ),
{
    lemma_hole(q, ")"@ + rest);
    lemma_hole(p, " "@ + (hole(q) + (")"@ + rest)));
    lemma_add(hole(p), hole(q), *any_of(p), *any_of(q), rest);
}

#[verifier::rlimit(60)]
#[verifier::spinoff_prover]
proof fn lemma_unary_rules()
    ensures
        pattern_in("(neg (neg ?x))"@) == Some(
            Pattern::Neg(Box::new(Pattern::Neg(any_of('x')))),
        ),
        pattern_in("?x"@) == Some(*any_of('x')),
        pattern_in("(relu (relu ?x))"@) == Some(
            Pattern::Relu(Box::new(Pattern::Relu(any_of('x')))),
        ),
        pattern_in("(relu ?x)"@) == Some(Pattern::Relu(any_of('x'))),
{
    let none = Seq::<char>::empty();
    let (one, two) = (")"@ + none, ")"@ + (")"@ + none));
    reveal_strlit("(neg ");
    reveal_strlit("(relu ");
    reveal_strlit(")");
    lemma_hole('x', none);
    lemma_hole('x', one);
    lemma_hole('x', two);
    reveal_strlit("?x");
    assert("?x"@ =~= hole('x') + none);
    lemma_neg(hole('x'), *any_of('x'), one);
    let inner = "(neg "@ + (hole('x') + one);
    assert(inner + one =~= "(neg "@ + (hole('x') + two));
    lemma_neg(inner, Pattern::Neg(any_of('x')), none);
    reveal_strlit("(neg (neg ?x))");
    assert("(neg (neg ?x))"@ =~= "(neg "@ + (inner + one));
    lemma_relu(hole('x'), *any_of('x'), none);
    lemma_relu(hole('x'), *any_of('x'), one);
    let inner = "(relu "@ + (hole('x') + one);
    assert(inner + one =~= "(relu "@ + (hole('x') + two));
    lemma_relu(inner, Pattern::Relu(any_of('x')), none);
    reveal_strlit("(relu (relu ?x))");
    reveal_strlit("(relu ?x)");
    assert("(relu (relu ?x))"@ =~= "(relu "@ + (inner + one));
    assert("(relu ?x)"@ =~= inner);
}

#[verifier::rlimit(60)]
#[verifier::spinoff_prover]
proof fn lemma_binary_rules()
    ensures
        pattern_in("(add ?a ?b)"@) == Some(Pattern::Add(any_of('a'), any_of('b'))),
        pattern_in("(add ?b ?a)"@) == Some(Pattern::Add(any_of('b'), any_of('a'))),
        pattern_in("(mul ?a ?b)"@) == Some(Pattern::Mul(any_of('a'), any_of('b'))),
        pattern_in("(mul ?b ?a)"@) == Some(Pattern::Mul(any_of('b'), any_of('a'))),
{
    let none = Seq::<char>::empty();
    let one = ")"@ + none;
    lemma_sum_of_holes('a', 'b', none);
    lemma_sum_of_holes('b', 'a', none);
    lemma_hole('a', one);
    lemma_hole('b', one);
    lemma_hole('a', " "@ + (hole('b') + one));
    lemma_hole('b', " "@ + (hole('a') + one));
    lemma_mul(hole('a'), hole('b'), *any_of('a'), *any_of('b'), none);
    lemma_mul(hole('b'), hole('a'), *any_of('b'), *any_of('a'), none);
    reveal_strlit("(add ");
    reveal_strlit("(mul ");
    reveal_strlit(" ");
    reveal_strlit(")");
    reveal_strlit("(add ?a ?b)");
    reveal_strlit("(add ?b ?a)");
    reveal_strlit("(mul ?a ?b)");
    reveal_strlit("(mul ?b ?a)");
    assert("(add ?a ?b)"@ =~= "(add "@ + (hole('a') + (" "@ + (hole('b') + one))));
    assert("(add ?b ?a)"@ =~= "(add "@ + (hole('b') + (" "@ + (hole('a') + one))));
    assert("(mul ?a ?b)"@ =~= "(mul "@ + (hole('a') + (" "@ + (hole('b') + one))));
    assert("(mul ?b ?a)"@ =~= "(mul "@ + (hole('b') + (" "@ + (hole('a') + one))));
}

/// `(add ?p ?q)` as a text of its own before another.
proof fn lemma_sum_text(p: char, q: char, rest: Seq<char>)
    ensures
        sum_text(p, q) + rest == "(add "@ + (hole(p) + (" "@ + (hole(q) + (")"@ + rest)))),
{
    lemma_assoc("(add "@ + (hole(p) + (" "@ + hole(q))), ")"@, rest);
    lemma_assoc("(add "@, hole(p) + (" "@ + hole(q)), ")"@ + rest);
    lemma_assoc(hole(p), " "@ + hole(q), ")"@ + rest);
    lemma_assoc(" "@, hole(q), ")"@ + rest);
}

spec fn sum_text(p: char, q: char) -> Seq<char> {
    "(add "@ + (hole(p) + (" "@ + hole(q))) + ")"@
}

#[verifier::rlimit(60)]
#[verifier::spinoff_prover]
proof fn lemma_nested_rules()
    ensures
        pattern_in("(add (add ?a ?b) ?c)"@) == Some(
            Pattern::Add(Box::new(Pattern::Add(any_of('a'), any_of('b'))), any_of('c')),
        ),
        pattern_in("(add ?a (add ?b ?c))"@) == Some(
            Pattern::Add(any_of('a'), Box::new(Pattern::Add(any_of('b'), any_of('c')))),
        ),
{
    let none = Seq::<char>::empty();
    let one = ")"@ + none;
    let after = " "@ + (hole('c') + one);
    let ab = sum_text('a', 'b');
    let bc = sum_text('b', 'c');
    lemma_sum_of_holes('a', 'b', after);
    lemma_sum_text('a', 'b', after);
    lemma_hole('c', one);
    lemma_add(ab, hole('c'), Pattern::Add(any_of('a'), any_of('b')), *any_of('c'), none);
    lemma_sum_of_holes('b', 'c', one);
    lemma_sum_text('b', 'c', one);
    lemma_hole('a', " "@ + (bc + one));
    lemma_add(hole('a'), bc, *any_of('a'), Pattern::Add(any_of('b'), any_of('c')), none);
    reveal_strlit("(add ");
    reveal_strlit(" ");
    reveal_strlit(")");
    reveal_strlit("(add (add ?a ?b) ?c)");
    reveal_strlit("(add ?a (add ?b ?c))");
    assert("(add (add ?a ?b) ?c)"@ =~= "(add "@ + (ab + after));
    assert("(add ?a (add ?b ?c))"@ =~= "(add "@ + (hole('a') + (" "@ + (bc + one))));
}

/// Both patterns of a rule are read, and have the same value over all holes.
pub open spec fn rule_holds<D: Domain>(
    rule: (Seq<char>, Seq<char>, Seq<char>),
    holes: spec_fn(char) -> D::V,
) -> bool {
    &&& pattern_in(rule.1) is Some
    &&& pattern_in(rule.2) is Some
    &&& pattern_value::<D>(pattern_in(rule.1)->Some_0, holes) == pattern_value::<D>(
        pattern_in(rule.2)->Some_0,
        holes,
    )
}

/// Every strict search rule, read as patterns, keeps the value of what it matches in every domain
/// of plain arithmetic: none of them needs associativity.
pub proof fn strict_search_rules_keep_values<D: Domain>(i: int, holes: spec_fn(char) -> D::V)
    requires
        0 <= i < rules_of(RewriteMode::Strict).len(),
        plain_arithmetic::<D>(),
    ensures
        rule_holds::<D>(rules_of(RewriteMode::Strict)[i], holes),
{
    lemma_unary_rules();
    lemma_binary_rules();
    reveal_with_fuel(pattern_value, 3);
}

/// Every search rule of every mode, read as patterns, keeps exact values.
pub proof fn search_rules_keep_exact_values(
    mode: RewriteMode,
    i: int,
    holes: spec_fn(char) -> real,
)
    requires
        0 <= i < rules_of(mode).len(),
    ensures
        rule_holds::<Exact>(rules_of(mode)[i], holes),
{
    lemma_unary_rules();
    lemma_binary_rules();
    lemma_nested_rules();
    reveal_with_fuel(pattern_value, 3);
    let (a, b) = (holes('a'), holes('b'));
    assert(a * b == b * a) by (nonlinear_arith);
}

/// The search prefers sums that nest to the right: of the two ways to add three expressions, adding
/// the last two first costs less, whatever the expressions cost.
pub proof fn right_nested_sums_cost_less(a: nat, b: nat, c: nat, l: usize, r: usize)
    ensures
        ({
            let sum = EggLang::Add(l, r);
            cost_of(sum, a, cost_of(sum, b, c)) < cost_of(sum, cost_of(sum, a, b), c)
        }),
{
}

/// Every operation costs more than either of its operands.
pub proof fn operations_cost_more_than_their_operands(node: EggLang, left: nat, right: nat)
    ensures
        cost_of(node, left, right) >= 1,
        !(node is Atom) ==> cost_of(node, left, right) > left,
        node is Add || node is Sub || node is Mul || node is Matmul ==> cost_of(node, left, right)
            > right,
{
}

} // verus!

//! The C text of indices and doubles reads back as the numbers it was made from.
use vstd::prelude::*;

use crate::affine::{terms_value, var_value, AffineView, LoopVar};
use crate::affine_laws::{exact_value, terms_sum, value_in};
use crate::c_reader::{
    expression_in, in_scope, read_atom, read_constant, read_exponent, read_name, read_sum, read_term,
    read_unary, size_of, sum_of, term_value, total, total_size, CExpr, CTerm,
};
use crate::c_tokens::{
    all_digits, digit_in, ends_number, lemma_assoc, lemma_decimal_digits, lemma_hex_number, lemma_not_begins,
    lemma_number_front, lemma_number_push, lemma_past, lemma_read_digits, lemma_read_natural, number_of,
    past, read_digits, read_natural, sixteen_to,
};
use crate::emit_c::{affine_c, double_c, plus_decimal, term_c, terms_c, var_c};
use crate::float::{
    exponent64, finite64, fraction64, negative64, scale64, significand64, value64,
};
use crate::rational::two_to;
use crate::text::{decimal, digit_text, hex_digits, join, signed_decimal};

verus! {

/// A text that ends a term: it goes on with neither a digit nor a star.
pub open spec fn ends_term(rest: Seq<char>) -> bool {
    rest.len() > 0 && digit_in(rest[0], 10) is None && rest[0] != '*'
}

/// A name is read back.
pub proof fn lemma_read_name(letter: Seq<char>, n: u32, rest: Seq<char>)
    requires
        letter.len() == 1,
        ends_number(rest, 10),
    ensures
        read_name(letter + decimal(n as nat) + rest, letter[0]) == Some((n, rest)),
{
    let s = letter + decimal(n as nat) + rest;
    assert(s.skip(1) =~= decimal(n as nat) + rest);
    assert(s[0] == letter[0]);
    lemma_read_natural(n as nat, rest);
}

/// The text of a number is read back, and does not begin with a name or a sign.
proof fn lemma_read_unsigned(n: nat, rest: Seq<char>)
    requires
        ends_number(rest, 10),
    ensures
        read_natural(decimal(n) + rest) == Some((n, rest)),
        (decimal(n) + rest).len() > 0,
        (decimal(n) + rest)[0] != '-',
        (decimal(n) + rest)[0] != 'i',
{
    lemma_decimal_digits(n);
    lemma_read_natural(n, rest);
    assert((decimal(n) + rest)[0] == decimal(n)[0]);
    assert(digit_in(decimal(n)[0], 10) is Some);
}

/// A number is read back as a term without a variable, or as the factor before a star.
proof fn lemma_read_number(i: int, rest: Seq<char>)
    requires
        ends_term(rest),
    ensures
        read_term(signed_decimal(i) + rest) == Some((CTerm { factor: i, var: None }, rest)),
{
    reveal_strlit("-");
    let n = size_of(i);
    lemma_read_unsigned(n, rest);
    let s = signed_decimal(i) + rest;
    if i < 0 {
        assert(s.skip(1) =~= decimal(n) + rest);
        assert(s[0] == '-');
    } else {
        assert(s =~= decimal(n) + rest);
    }
}

/// A scaled variable is read back.
proof fn lemma_read_scaled(i: int, var: LoopVar, rest: Seq<char>)
    requires
        ends_term(rest),
    ensures
        read_term(signed_decimal(i) + "*"@ + var_c(var) + rest) == Some(
            (CTerm { factor: i, var: Some(var.0) }, rest),
        ),
{
    reveal_strlit("-");
    reveal_strlit("*");
    reveal_strlit("i");
    let n = size_of(i);
    let name = var_c(var) + rest;
    let tail = "*"@ + name;
    lemma_read_unsigned(n, tail);
    lemma_read_name("i"@, var.0, rest);
    assert(tail.skip(1) =~= name);
    let s = signed_decimal(i) + "*"@ + var_c(var) + rest;
    if i < 0 {
        assert(s.skip(1) =~= decimal(n) + tail);
        assert(s[0] == '-');
    } else {
        assert(s =~= decimal(n) + tail);
    }
}

/// A term is read back with its coefficient and variable.
proof fn lemma_read_term(var: LoopVar, coeff: i64, rest: Seq<char>)
    requires
        ends_term(rest),
    ensures
        read_term(term_c(var, coeff) + rest) == Some(
            (CTerm { factor: coeff as int, var: Some(var.0) }, rest),
        ),
{
    reveal_strlit("-");
    reveal_strlit("i");
    lemma_read_name("i"@, var.0, rest);
    let s = term_c(var, coeff) + rest;
    if coeff == 1 {
        assert(s[0] == 'i');
    } else if coeff == -1 {
        assert(s[0] == '-');
        assert(s.skip(1) =~= var_c(var) + rest);
    } else {
        lemma_read_scaled(coeff as int, var, rest);
    }
}

/// Joined parts begin with the first one.
pub proof fn lemma_join_front(parts: Seq<Seq<char>>, sep: Seq<char>)
    requires
        parts.len() >= 2,
    ensures
        join(parts, sep) == parts[0] + sep + join(parts.skip(1), sep),
    decreases parts.len(),
{
    let tail = parts.skip(1);
    if parts.len() == 2 {
        assert(parts.drop_last().len() == 1);
        assert(join(parts.drop_last(), sep) == parts[0]);
        assert(join(tail, sep) == parts[1]);
    } else {
        lemma_join_front(parts.drop_last(), sep);
        assert(parts.drop_last().skip(1) =~= tail.drop_last());
        assert(join(parts, sep) =~= parts[0] + sep + join(tail, sep));
    }
}

/// The part is read back as the term.
#[verifier::opaque]
spec fn reads_as(part: Seq<char>, term: CTerm) -> bool {
    forall|rest: Seq<char>|
        ends_term(rest) ==> #[trigger] read_term(part + rest) == Some((term, rest))
}

/// Each part is read back as its term.
spec fn parts_read(parts: Seq<Seq<char>>, terms: Seq<CTerm>) -> bool {
    &&& parts.len() == terms.len()
    &&& forall|i: int| 0 <= i < parts.len() ==> reads_as(#[trigger] parts[i], terms[i])
}

proof fn lemma_reads_as(part: Seq<char>, term: CTerm, rest: Seq<char>)
    requires
        reads_as(part, term),
        ends_term(rest),
    ensures
        read_term(part + rest) == Some((term, rest)),
{
    reveal(reads_as);
}

/// A term before a plus sign is read before the rest of the sum.
proof fn lemma_sum_step(
    part: Seq<char>,
    term: CTerm,
    next: Seq<char>,
    more: Seq<CTerm>,
    rest: Seq<char>,
)
    requires
        reads_as(part, term),
        read_sum(next) == Some((more, rest)),
    ensures
        read_sum(part + (" + "@ + next)) == Some((seq![term] + more, rest)),
{
    reveal_strlit(" + ");
    let tail = " + "@ + next;
    assert(tail[0] == ' ');
    lemma_reads_as(part, term, tail);
    lemma_past(" + "@, next);
    assert(next.len() < (part + tail).len());
}

/// The last term of a sum is read.
proof fn lemma_sum_end(part: Seq<char>, term: CTerm, rest: Seq<char>)
    requires
        reads_as(part, term),
        ends_term(rest),
        past(rest, " + "@) is None,
    ensures
        read_sum(part + rest) == Some((seq![term], rest)),
{
    lemma_reads_as(part, term, rest);
}

/// Joined terms are read back.
#[verifier::rlimit(60)]
#[verifier::spinoff_prover]
proof fn lemma_read_sum(parts: Seq<Seq<char>>, terms: Seq<CTerm>, rest: Seq<char>)
    requires
        parts.len() > 0,
        parts_read(parts, terms),
        ends_term(rest),
        past(rest, " + "@) is None,
    ensures
        read_sum(join(parts, " + "@) + rest) == Some((terms, rest)),
    decreases parts.len(),
{
    let s = join(parts, " + "@) + rest;
    assert(reads_as(parts[0], terms[0]));
    if parts.len() == 1 {
        lemma_sum_end(parts[0], terms[0], rest);
        assert(seq![terms[0]] =~= terms);
    } else {
        let tail = parts.skip(1);
        let next = join(tail, " + "@) + rest;
        lemma_join_front(parts, " + "@);
        assert(s =~= parts[0] + (" + "@ + next));
        assert forall|i: int| 0 <= i < tail.len() implies reads_as(
            #[trigger] tail[i],
            terms.skip(1)[i],
        ) by {
            assert(reads_as(parts[i + 1], terms[i + 1]));
        }
        lemma_read_sum(tail, terms.skip(1), rest);
        lemma_sum_step(parts[0], terms[0], next, terms.skip(1), rest);
        assert(seq![terms[0]] + terms.skip(1) =~= terms);
    }
}

/// The terms with a nonzero coefficient among the first `n`.
pub open spec fn kept_terms(terms: Seq<(LoopVar, i64)>, n: nat) -> Seq<CTerm>
    decreases n,
{
    if n == 0 {
        Seq::empty()
    } else {
        let before = kept_terms(terms, (n - 1) as nat);
        let (var, coeff) = terms[n - 1];
        if coeff == 0 {
            before
        } else {
            before.push(CTerm { factor: coeff as int, var: Some(var.0) })
        }
    }
}

/// The terms of an affine expression: those with a nonzero coefficient, and the constant where it
/// is needed.
pub open spec fn c_terms(e: AffineView) -> Seq<CTerm> {
    let terms = kept_terms(e.terms, e.terms.len());
    if e.constant != 0 || terms.len() == 0 {
        terms.push(CTerm { factor: e.constant as int, var: None })
    } else {
        terms
    }
}

proof fn lemma_term_reads(var: LoopVar, coeff: i64)
    ensures
        reads_as(term_c(var, coeff), CTerm { factor: coeff as int, var: Some(var.0) }),
{
    reveal(reads_as);
    assert forall|rest: Seq<char>| ends_term(rest) implies #[trigger] read_term(
        term_c(var, coeff) + rest,
    ) == Some((CTerm { factor: coeff as int, var: Some(var.0) }, rest)) by {
        lemma_read_term(var, coeff, rest);
    }
}

proof fn lemma_number_reads(i: int)
    ensures
        reads_as(signed_decimal(i), CTerm { factor: i, var: None }),
{
    reveal(reads_as);
    assert forall|rest: Seq<char>| ends_term(rest) implies #[trigger] read_term(
        signed_decimal(i) + rest,
    ) == Some((CTerm { factor: i, var: None }, rest)) by {
        lemma_read_number(i, rest);
    }
}

proof fn lemma_kept_parts(terms: Seq<(LoopVar, i64)>, n: nat)
    requires
        n <= terms.len(),
    ensures
        parts_read(terms_c(terms, n), kept_terms(terms, n)),
    decreases n,
{
    if n > 0 {
        let m = (n - 1) as nat;
        lemma_kept_parts(terms, m);
        let (var, coeff) = terms[n - 1];
        let (parts, kept) = (terms_c(terms, n), kept_terms(terms, n));
        assert forall|i: int| 0 <= i < parts.len() implies reads_as(
            #[trigger] parts[i],
            kept[i],
        ) by {
            if coeff == 0 || i < parts.len() - 1 {
                assert(parts[i] == terms_c(terms, m)[i]);
                assert(kept[i] == kept_terms(terms, m)[i]);
            } else {
                lemma_term_reads(var, coeff);
            }
        }
    }
}

/// The text of an affine expression is read back as its terms.
pub proof fn lemma_read_affine(e: AffineView, rest: Seq<char>)
    requires
        ends_term(rest),
        past(rest, " + "@) is None,
    ensures
        read_sum(affine_c(e) + rest) == Some((c_terms(e), rest)),
{
    let parts = terms_c(e.terms, e.terms.len());
    let kept = kept_terms(e.terms, e.terms.len());
    lemma_kept_parts(e.terms, e.terms.len());
    if e.constant != 0 || parts.len() == 0 {
        let all = parts.push(signed_decimal(e.constant as int));
        let terms = kept.push(CTerm { factor: e.constant as int, var: None });
        assert forall|i: int| 0 <= i < all.len() implies reads_as(#[trigger] all[i], terms[i]) by {
            if i < parts.len() {
                assert(all[i] == parts[i]);
            } else {
                lemma_number_reads(e.constant as int);
            }
        }
        lemma_read_sum(all, terms, rest);
    } else {
        lemma_read_sum(parts, kept, rest);
    }
}

/// The sum of the terms over integers without bounds, variables without a value being zero.
pub open spec fn loose_total(terms: Seq<CTerm>, env: Map<u32, int>) -> int
    decreases terms.len(),
{
    if terms.len() == 0 {
        0
    } else {
        let t = terms.last();
        loose_total(terms.drop_last(), env) + match t.var {
            None => t.factor,
            Some(v) => t.factor * value_in(env, v),
        }
    }
}

/// A step that stays in range does not saturate.
proof fn lemma_kept_value(e: AffineView, env: Map<u32, i64>, n: nat)
    requires
        n <= e.terms.len(),
        in_scope(kept_terms(e.terms, n), env),
        size_of(e.constant as int) + total_size(kept_terms(e.terms, n), env) <= i64::MAX,
    ensures
        terms_value(e, env, n) == e.constant + total(kept_terms(e.terms, n), env),
        size_of(total(kept_terms(e.terms, n), env)) <= total_size(kept_terms(e.terms, n), env),
    decreases n,
{
    if n > 0 {
        let m = (n - 1) as nat;
        let (var, coeff) = e.terms[n - 1];
        let before = kept_terms(e.terms, m);
        let now = kept_terms(e.terms, n);
        if coeff == 0 {
            lemma_kept_value(e, env, m);
            let x = var_value(env, var) as int;
            assert(coeff * x == 0) by (nonlinear_arith)
                requires
                    coeff == 0,
            ;
        } else {
            assert(now.drop_last() =~= before);
            assert forall|i: int| 0 <= i < before.len() implies term_value(
                #[trigger] before[i],
                env,
            ) is Some by {
                assert(before[i] == now[i]);
            }
            assert(term_value(now[now.len() - 1], env) is Some);
            lemma_kept_value(e, env, m);
        }
    }
}

/// Where C gives the sum a value, it is that of the affine expression.
pub proof fn lemma_affine_value(e: AffineView, env: Map<u32, i64>)
    requires
        sum_of(c_terms(e), env) is Some,
    ensures
        sum_of(c_terms(e), env) == Some(e.value(env) as int),
{
    let kept = kept_terms(e.terms, e.terms.len());
    let all = c_terms(e);
    if e.constant != 0 || kept.len() == 0 {
        assert(all.drop_last() =~= kept);
        assert forall|i: int| 0 <= i < kept.len() implies term_value(
            #[trigger] kept[i],
            env,
        ) is Some by {
            assert(kept[i] == all[i]);
        }
    }
    lemma_kept_value(e, env, e.terms.len());
}

proof fn lemma_loose_total(terms: Seq<(LoopVar, i64)>, env: Map<u32, int>, n: nat)
    requires
        n <= terms.len(),
    ensures
        loose_total(kept_terms(terms, n), env) == terms_sum(terms, env, n),
    decreases n,
{
    if n > 0 {
        let m = (n - 1) as nat;
        lemma_loose_total(terms, env, m);
        let (var, coeff) = terms[n - 1];
        let before = kept_terms(terms, m);
        let x = value_in(env, var.0);
        if coeff == 0 {
            assert(coeff * x == 0) by (nonlinear_arith)
                requires
                    coeff == 0,
            ;
        } else {
            assert(kept_terms(terms, n).drop_last() =~= before);
        }
    }
}

/// The C text of an affine expression, read as a sum before a closing bracket or a semicolon, is
/// read to its end, and stands for the value of the expression whatever the variables are.
pub proof fn emitted_indices_read_back(e: AffineView, rest: Seq<char>, env: Map<u32, int>)
    requires
        rest.len() > 0,
        rest[0] == ']' || rest[0] == ';',
    ensures
        read_sum(affine_c(e) + rest) is Some,
        ({
            let (terms, left) = read_sum(affine_c(e) + rest)->Some_0;
            left == rest && loose_total(terms, env) == exact_value(e, env)
        }),
{
    reveal_strlit(" + ");
    lemma_not_begins(rest, " + "@, 0);
    lemma_read_affine(e, rest);
    lemma_loose_total(e.terms, env, e.terms.len());
    let kept = kept_terms(e.terms, e.terms.len());
    if e.constant != 0 || kept.len() == 0 {
        assert(c_terms(e).drop_last() =~= kept);
    }
}

/// The sum of the magnitudes of the first `n` terms.
pub open spec fn weight(terms: Seq<(LoopVar, i64)>, env: Map<u32, i64>, n: nat) -> nat
    decreases n,
{
    if n == 0 {
        0
    } else {
        weight(terms, env, (n - 1) as nat) + size_of(
            terms[n - 1].1 * var_value(env, terms[n - 1].0),
        )
    }
}

/// The variables of an affine expression are in scope, and it can be evaluated in any order
/// without leaving the range of `long`.
pub open spec fn long_fits(e: AffineView, env: Map<u32, i64>) -> bool {
    &&& forall|i: int|
        0 <= i < e.terms.len() && (#[trigger] e.terms[i]).1 != 0 ==> env.dom().contains(
            e.terms[i].0.0,
        )
    &&& size_of(e.constant as int) + weight(e.terms, env, e.terms.len()) <= i64::MAX
}

proof fn lemma_kept_weight(terms: Seq<(LoopVar, i64)>, env: Map<u32, i64>, n: nat)
    requires
        n <= terms.len(),
        forall|i: int|
            0 <= i < n && (#[trigger] terms[i]).1 != 0 ==> env.dom().contains(terms[i].0.0),
    ensures
        in_scope(kept_terms(terms, n), env),
        total_size(kept_terms(terms, n), env) == weight(terms, env, n),
    decreases n,
{
    if n > 0 {
        let m = (n - 1) as nat;
        lemma_kept_weight(terms, env, m);
        let (var, coeff) = terms[n - 1];
        let (before, now) = (kept_terms(terms, m), kept_terms(terms, n));
        assert(terms[n - 1].1 == coeff);
        let x = var_value(env, var) as int;
        if coeff == 0 {
            assert(coeff * x == 0) by (nonlinear_arith)
                requires
                    coeff == 0,
            ;
        } else {
            assert(now.drop_last() =~= before);
            assert forall|i: int| 0 <= i < now.len() implies term_value(
                #[trigger] now[i],
                env,
            ) is Some by {
                if i < before.len() {
                    assert(now[i] == before[i]);
                }
            }
        }
    }
}

/// An affine expression that fits has a value in C, its own.
pub proof fn lemma_fitting_value(e: AffineView, env: Map<u32, i64>)
    requires
        long_fits(e, env),
    ensures
        sum_of(c_terms(e), env) == Some(e.value(env) as int),
{
    lemma_kept_weight(e.terms, env, e.terms.len());
    let kept = kept_terms(e.terms, e.terms.len());
    let all = c_terms(e);
    if e.constant != 0 || kept.len() == 0 {
        assert(all.drop_last() =~= kept);
        assert forall|i: int| 0 <= i < all.len() implies term_value(
            #[trigger] all[i],
            env,
        ) is Some by {
            if i < kept.len() {
                assert(all[i] == kept[i]);
            }
        }
    }
    lemma_affine_value(e, env);
}

/// A decimal exponent with its sign is read back.
proof fn lemma_read_exponent(e: int, rest: Seq<char>)
    requires
        ends_number(rest, 10),
    ensures
        read_exponent("p"@ + plus_decimal(e) + rest) == Some((e, rest)),
{
    reveal_strlit("p");
    reveal_strlit("+");
    reveal_strlit("-");
    let n = size_of(e);
    let signed = plus_decimal(e) + rest;
    lemma_past("p"@, signed);
    assert("p"@ + plus_decimal(e) + rest =~= "p"@ + signed);
    lemma_read_natural(n, rest);
    assert(signed.skip(1) =~= decimal(n) + rest);
}

/// A floating constant with a point is read back.
#[verifier::rlimit(60)]
#[verifier::spinoff_prover]
proof fn lemma_read_pointed(whole: Seq<char>, fraction: nat, e: int, rest: Seq<char>)
    requires
        whole == "0"@ || whole == "1"@,
        fraction < 0x10_0000_0000_0000,
        ends_number(rest, 10),
    ensures
        read_constant(
            "0x"@ + whole + "."@ + hex_digits(fraction, 13) + "p"@ + plus_decimal(e) + rest,
        ) == Some(
            (
                ((if whole == "1"@ {
                    0x10_0000_0000_0000int
                } else {
                    0
                }) + fraction) as real * two_to(e - 52),
                rest,
            ),
        ),
{
    reveal_strlit("0x");
    reveal_strlit("0");
    reveal_strlit("1");
    reveal_strlit(".");
    reveal_strlit("p");
    let places = hex_digits(fraction, 13);
    lemma_hidden_digit(whole, fraction);
    let exponent = "p"@ + plus_decimal(e) + rest;
    let behind = places + exponent;
    let digits = whole + ("."@ + behind);
    let s = "0x"@ + whole + "."@ + places + "p"@ + plus_decimal(e) + rest;
    assert(s =~= "0x"@ + digits);
    lemma_past("0x"@, digits);
    lemma_read_digits(whole, "."@ + behind, 16);
    lemma_past("."@, behind);
    assert(exponent[0] == 'p');
    lemma_read_digits(places, exponent, 16);
    lemma_read_exponent(e, rest);
    assert(past(s, "0x"@) == Some(digits));
    assert(read_digits(digits, 16) == Some((whole, "."@ + behind)));
    assert(past("."@ + behind, "."@) == Some(behind));
    assert(read_digits(behind, 16) == Some((places, exponent)));
    assert(read_exponent(exponent) == Some((e, rest)));
}

/// A zero or a one before thirteen hexadecimal digits.
proof fn lemma_hidden_digit(whole: Seq<char>, fraction: nat)
    requires
        whole == "0"@ || whole == "1"@,
        fraction < 0x10_0000_0000_0000,
    ensures
        "0"@ != "1"@,
        all_digits(hex_digits(fraction, 13), 16),
        hex_digits(fraction, 13).len() == 13,
        all_digits(whole, 16),
        whole.len() == 1,
        number_of(whole + hex_digits(fraction, 13), 16) == (if whole == "1"@ {
            0x10_0000_0000_0000nat
        } else {
            0
        }) + fraction,
{
    reveal_strlit("0");
    reveal_strlit("1");
    assert("0"@[0] != "1"@[0]);
    assert(sixteen_to(13) == 0x10_0000_0000_0000) by {
        reveal_with_fuel(sixteen_to, 14);
    }
    lemma_hex_number(fraction, 13);
    let places = hex_digits(fraction, 13);
    if whole == "1"@ {
        assert(whole =~= seq!['1']);
        assert(digit_in('1', 16) == Some(1nat));
        lemma_number_front('1', places);
        assert(1 * sixteen_to(13) == sixteen_to(13));
    } else {
        assert(whole =~= seq!['0']);
        assert(digit_in('0', 16) == Some(0nat));
        lemma_number_front('0', places);
        assert(0 * sixteen_to(13) == 0);
    }
}

/// The number of a double without its sign.
pub open spec fn magnitude_of(bits: u64) -> real {
    significand64(bits) as real * two_to(scale64(bits))
}

/// What the text of a double is read as.
pub open spec fn c_number(bits: u64) -> CExpr {
    let x = CExpr::Number(magnitude_of(bits));
    if negative64(bits) {
        CExpr::Negative(Box::new(x))
    } else {
        x
    }
}

/// The text of a double without its sign.
spec fn unsigned_c(bits: u64) -> Seq<char> {
    if exponent64(bits) == 0 && fraction64(bits) == 0 {
        "0x0p+0"@
    } else if exponent64(bits) == 0 {
        "0x0."@ + hex_digits(fraction64(bits) as nat, 13) + "p-1022"@
    } else {
        "0x1."@ + hex_digits(fraction64(bits) as nat, 13) + "p"@ + plus_decimal(
            exponent64(bits) - 1023,
        )
    }
}

#[verifier::rlimit(60)]
#[verifier::spinoff_prover]
proof fn lemma_zero_text()
    ensures
        "0x0p+0"@ == "0x"@ + ("0"@ + ("p"@ + plus_decimal(0))),
        "0"@ == Seq::<char>::empty().push('0'),
        "p"@.len() == 1 && "p"@[0] == 'p',
        "."@.len() == 1 && "."@[0] == '.',
{
    reveal_strlit("0x");
    reveal_strlit("0");
    reveal_strlit("p");
    reveal_strlit("+");
    reveal_strlit(".");
    reveal_strlit("0x0p+0");
    assert(decimal(0) == "0"@);
    assert(plus_decimal(0) == "+"@ + "0"@);
    assert("0x0p+0"@ =~= "0x"@ + ("0"@ + ("p"@ + plus_decimal(0))));
    assert("0"@ =~= Seq::<char>::empty().push('0'));
}

/// The text of zero is read back.
#[verifier::rlimit(60)]
#[verifier::spinoff_prover]
proof fn lemma_read_zero(rest: Seq<char>)
    requires
        ends_number(rest, 10),
    ensures
        read_constant("0x0p+0"@ + rest) == Some((0real, rest)),
{
    lemma_zero_text();
    let none = Seq::<char>::empty();
    let exponent = "p"@ + plus_decimal(0) + rest;
    let digits = "0"@ + exponent;
    let s = "0x0p+0"@ + rest;
    assert(s =~= "0x"@ + digits);
    lemma_past("0x"@, digits);
    assert(exponent[0] == 'p');
    assert(all_digits("0"@, 16));
    lemma_read_digits("0"@, exponent, 16);
    lemma_not_begins(exponent, "."@, 0);
    lemma_read_exponent(0, rest);
    assert("0"@ + none =~= none.push('0'));
    lemma_number_push(none, '0', 16);
    assert(number_of(none, 16) == 0);
    assert(number_of("0"@ + none, 16) == 0);
    let t = two_to(0);
    assert(0real * t == 0real) by (nonlinear_arith);
    assert(read_constant(s) == Some((0real * two_to(0), rest)));
}

/// The text of a double without its sign is read back as its magnitude.
proof fn lemma_read_unsigned_double(bits: u64, rest: Seq<char>)
    requires
        ends_number(rest, 10),
    ensures
        read_constant(unsigned_c(bits) + rest) == Some((magnitude_of(bits), rest)),
        unsigned_c(bits).len() > 0,
        unsigned_c(bits)[0] == '0',
{
    let fraction = fraction64(bits) as nat;
    let places = hex_digits(fraction, 13);
    let s = unsigned_c(bits) + rest;
    if exponent64(bits) == 0 && fraction64(bits) == 0 {
        reveal_strlit("0x0p+0");
        lemma_read_zero(rest);
        let u = two_to(-1074);
        assert(0real * u == 0real) by (nonlinear_arith);
    } else if exponent64(bits) == 0 {
        lemma_text_1022();
        lemma_read_pointed("0"@, fraction, -1022, rest);
        lemma_pointed_text("0"@, places, -1022, rest);
    } else {
        let e = exponent64(bits) - 1023;
        lemma_read_pointed("1"@, fraction, e, rest);
        lemma_pointed_text("1"@, places, e, rest);
    }
}

proof fn lemma_pointed_text(whole: Seq<char>, places: Seq<char>, e: int, rest: Seq<char>)
    requires
        whole == "0"@ || whole == "1"@,
    ensures
        whole == "1"@ ==> ("0x1."@ + places + "p"@ + plus_decimal(e)) + rest == "0x"@ + whole
            + "."@ + places + "p"@ + plus_decimal(e) + rest,
        whole == "0"@ ==> ("0x0."@ + places + ("p"@ + plus_decimal(e))) + rest == "0x"@ + whole
            + "."@ + places + "p"@ + plus_decimal(e) + rest,
        "0x0."@[0] == '0' && "0x0."@.len() == 4,
        "0x1."@[0] == '0' && "0x1."@.len() == 4,
        "0"@ != "1"@,
{
    reveal_strlit("0x");
    reveal_strlit("0");
    reveal_strlit("1");
    reveal_strlit(".");
    reveal_strlit("0x0.");
    reveal_strlit("0x1.");
    assert("0"@[0] != "1"@[0]);
    assert("0x0."@ =~= "0x"@ + "0"@ + "."@);
    assert("0x1."@ =~= "0x"@ + "1"@ + "."@);
    assert(("0x0."@ + places + ("p"@ + plus_decimal(e))) + rest =~= "0x"@ + "0"@ + "."@ + places
        + "p"@ + plus_decimal(e) + rest);
}

proof fn lemma_text_1022()
    ensures
        "p"@ + plus_decimal(-1022) == "p-1022"@,
{
    reveal_strlit("p");
    reveal_strlit("-");
    reveal_strlit("p-1022");
    reveal_strlit("0");
    reveal_strlit("1");
    reveal_strlit("2");
    assert(decimal(1) == digit_text(1));
    assert(decimal(10) == decimal(1) + digit_text(0));
    assert(decimal(102) == decimal(10) + digit_text(2));
    assert(decimal(1022) == decimal(102) + digit_text(2));
    assert("p"@ + plus_decimal(-1022) =~= "p-1022"@);
}

/// The text of a double is that of its magnitude, with a minus sign in front where it is negative.
#[verifier::rlimit(60)]
#[verifier::spinoff_prover]
proof fn lemma_double_text(bits: u64)
    ensures
        double_c(bits) == if negative64(bits) {
            "-"@ + unsigned_c(bits)
        } else {
            unsigned_c(bits)
        },
{
    let sign = if negative64(bits) {
        "-"@
    } else {
        ""@
    };
    let places = hex_digits(fraction64(bits) as nat, 13);
    lemma_assoc(sign, "0x0."@, places);
    lemma_assoc(sign, "0x0."@ + places, "p-1022"@);
    let exponent = plus_decimal(exponent64(bits) - 1023);
    lemma_assoc(sign, "0x1."@, places);
    lemma_assoc(sign, "0x1."@ + places, "p"@);
    lemma_assoc(sign, "0x1."@ + places + "p"@, exponent);
    assert(double_c(bits) == sign + unsigned_c(bits));
    if !negative64(bits) {
        reveal_strlit("");
        assert(""@ + unsigned_c(bits) =~= unsigned_c(bits));
    }
}

/// The text of a double is read back as its number, behind a minus sign where it is negative.
#[verifier::rlimit(60)]
#[verifier::spinoff_prover]
pub proof fn lemma_read_double(bits: u64, rest: Seq<char>)
    requires
        ends_number(rest, 10),
    ensures
        read_unary(double_c(bits) + rest) == Some((c_number(bits), rest)),
        double_c(bits).len() > 0,
        double_c(bits)[0] == '-' <==> negative64(bits),
{
    lemma_read_unsigned_double(bits, rest);
    lemma_double_text(bits);
    let plain = unsigned_c(bits) + rest;
    let s = double_c(bits) + rest;
    assert(plain[0] == '0');
    assert(read_atom(plain) == Some((CExpr::Number(magnitude_of(bits)), rest)));
    if negative64(bits) {
        reveal_strlit("-");
        lemma_assoc("-"@, unsigned_c(bits), rest);
        assert(s.skip(1) =~= plain);
        assert(s[0] == '-');
    }
}

/// The text of a finite double is read to its end as the number of the double, with a minus sign
/// in front exactly where the sign bit is set.
pub proof fn emitted_doubles_read_back(bits: u64)
    requires
        finite64(bits),
    ensures
        match expression_in(double_c(bits)) {
            Some(CExpr::Number(x)) => !negative64(bits) && x == value64(bits),
            Some(CExpr::Negative(e)) => negative64(bits) && *e is Number && -((*e)->Number_0)
                == value64(bits),
            _ => false,
        },
{
    lemma_read_double(bits, Seq::empty());
    assert(double_c(bits) + Seq::<char>::empty() =~= double_c(bits));
    let m = significand64(bits);
    let t = two_to(scale64(bits));
    assert((-m) as real == -(m as real));
    assert(-(m as real) * t == -(m as real * t)) by (nonlinear_arith);
}

} // verus!

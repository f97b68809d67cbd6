//! The tokens of C text: fixed strings, numbers and names.
use vstd::prelude::*;

use crate::text::{decimal, digit_text, hex_digits};

verus! {

/// The text begins with `start`.
pub open spec fn begins(s: Seq<char>, start: Seq<char>) -> bool {
    s.len() >= start.len() && s.take(start.len() as int) == start
}

/// What follows `start` in a text that begins with it.
pub open spec fn past(s: Seq<char>, start: Seq<char>) -> Option<Seq<char>> {
    if begins(s, start) {
        Some(s.skip(start.len() as int))
    } else {
        None
    }
}

/// The value of a digit in a base of at most sixteen.
pub open spec fn digit_in(c: char, base: nat) -> Option<nat> {
    let d = if '0' <= c && c <= '9' {
        (c as int - '0' as int) as nat
    } else if 'a' <= c && c <= 'f' {
        (c as int - 'a' as int + 10) as nat
    } else {
        16
    };
    if d < base {
        Some(d)
    } else {
        None
    }
}

/// The text does not go on with a digit.
pub open spec fn ends_number(s: Seq<char>, base: nat) -> bool {
    s.len() == 0 || digit_in(s[0], base) is None
}

/// The number of digits that the text begins with.
pub open spec fn digit_count(s: Seq<char>, base: nat) -> nat
    decreases s.len(),
{
    if ends_number(s, base) {
        0
    } else {
        1 + digit_count(s.skip(1), base)
    }
}

/// The number that digits stand for, the last one being the ones.
pub open spec fn number_of(digits: Seq<char>, base: nat) -> nat
    decreases digits.len(),
{
    if digits.len() == 0 {
        0
    } else {
        number_of(digits.drop_last(), base) * base + digit_in(digits.last(), base)->Some_0
    }
}

/// The digits that the text begins with, at least one, and what follows them.
pub open spec fn read_digits(s: Seq<char>, base: nat) -> Option<(Seq<char>, Seq<char>)> {
    let n = digit_count(s, base) as int;
    if 0 < n <= s.len() {
        Some((s.take(n), s.skip(n)))
    } else {
        None
    }
}

/// The decimal number that the text begins with, and what follows it.
pub open spec fn read_natural(s: Seq<char>) -> Option<(nat, Seq<char>)> {
    match read_digits(s, 10) {
        None => None,
        Some((digits, rest)) => Some((number_of(digits, 10), rest)),
    }
}

/// Every character is a digit.
pub open spec fn all_digits(s: Seq<char>, base: nat) -> bool {
    forall|i: int| 0 <= i < s.len() ==> digit_in(#[trigger] s[i], base) is Some
}

/// Sixteen to the power.
pub open spec fn sixteen_to(n: nat) -> nat
    decreases n,
{
    if n == 0 {
        1
    } else {
        16 * sixteen_to((n - 1) as nat)
    }
}

/// Concatenation is associative.
pub proof fn lemma_assoc(a: Seq<char>, b: Seq<char>, c: Seq<char>)
    ensures
        (a + b) + c == a + (b + c),
{
    assert((a + b) + c =~= a + (b + c));
}

/// A fixed string is read off the front of a text.
pub proof fn lemma_past(start: Seq<char>, rest: Seq<char>)
    ensures
        past(start + rest, start) == Some(rest),
        begins(start + rest, start),
{
    assert((start + rest).take(start.len() as int) =~= start);
    assert((start + rest).skip(start.len() as int) =~= rest);
}

/// A text does not begin with two strings that differ in a place.
pub proof fn lemma_not_begins(s: Seq<char>, start: Seq<char>, i: int)
    requires
        0 <= i < start.len(),
        i < s.len() ==> s[i] != start[i],
    ensures
        !begins(s, start),
        past(s, start) is None,
{
    if begins(s, start) {
        assert(s.take(start.len() as int)[i] == start[i]);
    }
}

/// Digits are counted up to the first other character.
pub proof fn lemma_digit_count(digits: Seq<char>, rest: Seq<char>, base: nat)
    requires
        all_digits(digits, base),
        ends_number(rest, base),
    ensures
        digit_count(digits + rest, base) == digits.len(),
    decreases digits.len(),
{
    if digits.len() == 0 {
        assert(digits + rest =~= rest);
    } else {
        assert((digits + rest)[0] == digits[0]);
        assert(digit_in(digits[0], base) is Some);
        assert((digits + rest).skip(1) =~= digits.skip(1) + rest);
        lemma_digit_count(digits.skip(1), rest, base);
    }
}

/// Digits are read up to the first other character.
pub proof fn lemma_read_digits(digits: Seq<char>, rest: Seq<char>, base: nat)
    requires
        digits.len() > 0,
        all_digits(digits, base),
        ends_number(rest, base),
    ensures
        read_digits(digits + rest, base) == Some((digits, rest)),
{
    lemma_digit_count(digits, rest, base);
    let n = digits.len() as int;
    assert((digits + rest).take(n) =~= digits);
    assert((digits + rest).skip(n) =~= rest);
}

/// One digit more.
pub proof fn lemma_number_push(digits: Seq<char>, d: char, base: nat)
    ensures
        number_of(digits.push(d), base) == number_of(digits, base) * base + digit_in(
            d,
            base,
        )->Some_0,
{
    assert(digits.push(d).drop_last() =~= digits);
}

proof fn lemma_digit_text(d: nat)
    requires
        d < 16,
    ensures
        digit_text(d).len() == 1,
        digit_in(digit_text(d)[0], 16) == Some(d),
        d < 10 ==> digit_in(digit_text(d)[0], 10) == Some(d),
{
    reveal_strlit("0");
    reveal_strlit("1");
    reveal_strlit("2");
    reveal_strlit("3");
    reveal_strlit("4");
    reveal_strlit("5");
    reveal_strlit("6");
    reveal_strlit("7");
    reveal_strlit("8");
    reveal_strlit("9");
    reveal_strlit("a");
    reveal_strlit("b");
    reveal_strlit("c");
    reveal_strlit("d");
    reveal_strlit("e");
    reveal_strlit("f");
}

/// The decimal text of a number consists of digits that stand for it.
pub proof fn lemma_decimal_digits(n: nat)
    ensures
        decimal(n).len() > 0,
        all_digits(decimal(n), 10),
        number_of(decimal(n), 10) == n,
    decreases n,
{
    lemma_digit_text(n % 10);
    let d = digit_text(n % 10)[0];
    if n < 10 {
        assert(decimal(n).drop_last() =~= Seq::<char>::empty());
        assert(number_of(Seq::<char>::empty(), 10) == 0);
    } else {
        lemma_decimal_digits(n / 10);
        let before = decimal(n / 10);
        assert(decimal(n) =~= before.push(d));
        lemma_number_push(before, d, 10);
        assert forall|i: int| 0 <= i < decimal(n).len() implies digit_in(
            #[trigger] decimal(n)[i],
            10,
        ) is Some by {
            if i < before.len() {
                assert(digit_in(before[i], 10) is Some);
            }
        }
    }
}

/// Decimal text is read back as its number.
pub proof fn lemma_read_natural(n: nat, rest: Seq<char>)
    requires
        ends_number(rest, 10),
    ensures
        read_natural(decimal(n) + rest) == Some((n, rest)),
{
    lemma_decimal_digits(n);
    lemma_read_digits(decimal(n), rest, 10);
}

/// The hexadecimal text of a number of enough places consists of digits that stand for it.
pub proof fn lemma_hex_number(n: nat, width: nat)
    requires
        n < sixteen_to(width),
    ensures
        hex_digits(n, width).len() == width,
        all_digits(hex_digits(n, width), 16),
        number_of(hex_digits(n, width), 16) == n,
    decreases width,
{
    if width > 0 {
        let m = (width - 1) as nat;
        assert(n / 16 < sixteen_to(m)) by (nonlinear_arith)
            requires
                n < 16 * sixteen_to(m),
        ;
        lemma_hex_number(n / 16, m);
        lemma_digit_text(n % 16);
        let before = hex_digits(n / 16, m);
        let d = digit_text(n % 16)[0];
        assert(hex_digits(n, width) =~= before.push(d));
        lemma_number_push(before, d, 16);
        assert forall|i: int| 0 <= i < hex_digits(n, width).len() implies digit_in(
            #[trigger] hex_digits(n, width)[i],
            16,
        ) is Some by {
            if i < before.len() {
                assert(digit_in(before[i], 16) is Some);
            }
        }
    }
}

/// A digit in front weighs a power of the base.
pub proof fn lemma_number_front(d: char, digits: Seq<char>)
    requires
        digit_in(d, 16) is Some,
    ensures
        number_of(seq![d] + digits, 16) == digit_in(d, 16)->Some_0 * sixteen_to(digits.len())
            + number_of(digits, 16),
    decreases digits.len(),
{
    let v = digit_in(d, 16)->Some_0;
    if digits.len() == 0 {
        assert(seq![d] + digits =~= Seq::<char>::empty().push(d));
        lemma_number_push(Seq::<char>::empty(), d, 16);
        assert(number_of(Seq::<char>::empty(), 16) == 0);
        assert(v * 1 == v);
    } else {
        let before = digits.drop_last();
        lemma_number_front(d, before);
        assert((seq![d] + digits).drop_last() =~= seq![d] + before);
        assert((seq![d] + digits).last() == digits.last());
        let p = sixteen_to(before.len());
        assert((v * p + number_of(before, 16)) * 16 == v * (16 * p) + number_of(before, 16) * 16)
            by (nonlinear_arith);
    }
}

} // verus!

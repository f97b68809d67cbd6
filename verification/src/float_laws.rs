//! Which numbers have doubles, and which double rounding gives.
use vstd::arithmetic::power2::{lemma2_to64, lemma_pow2_pos, lemma_pow2_unfold, pow2};
use vstd::prelude::*;

use crate::float::{
    finite32, finite64, int_double, lemma_rescale, nan64, negative32, negative64, rounded53,
    rounded_int, scale32, significand32, small_integers_are_exact, unit53, value32, value64,
    wide_double,
};
use crate::rational::two_to;
use crate::tensor::bits_agree;

verus! {

/// The number with the sign.
pub open spec fn signed(m: int, negative: bool) -> int {
    if negative {
        -m
    } else {
        m
    }
}

proof fn lemma_scaled_sign(m: int, e: int, m2: int, e2: int, negative: bool)
    requires
        m as real * two_to(e) == m2 as real * two_to(e2),
    ensures
        signed(m, negative) as real * two_to(e) == signed(m2, negative) as real * two_to(e2),
{
    let (x, t, y, u) = (m as real, two_to(e), m2 as real, two_to(e2));
    assert((-m) as real == -x);
    assert((-m2) as real == -y);
    assert((-x) * t == -(x * t)) by (nonlinear_arith);
    assert((-y) * u == -(y * u)) by (nonlinear_arith);
}

/// Every number `m * 2^e` with `m` of at most 53 bits, and `e` within the range of a double's
/// exponent, is that of a double of either sign.
pub proof fn dyadics_are_doubles(m: int, e: int, negative: bool) -> (bits: u64)
    requires
        0 <= m < 0x20_0000_0000_0000,
        -1021 <= e <= 971,
    ensures
        finite64(bits),
        negative64(bits) == negative,
        value64(bits) == signed(m, negative) as real * two_to(e),
{
    lemma2_to64();
    vstd::arithmetic::power2::lemma_pow2_adds(21, 32);
    let p = pow2(53) as int;
    if m >= 1 {
        assert(m * p >= p) by (nonlinear_arith)
            requires
                m >= 1,
                p >= 1,
        ;
    }
    lemma_dyadic(m, e, 53, negative)
}

proof fn lemma_dyadic(m: int, e: int, room: nat, negative: bool) -> (bits: u64)
    requires
        0 <= m < 0x20_0000_0000_0000,
        room <= 53,
        -1074 + room <= e <= 971,
        m >= 1 ==> m * pow2(room) >= 0x20_0000_0000_0000,
    ensures
        finite64(bits),
        negative64(bits) == negative,
        value64(bits) == signed(m, negative) as real * two_to(e),
    decreases room,
{
    let s: int = if negative {
        0x8000_0000_0000_0000
    } else {
        0
    };
    let h: int = 0x10_0000_0000_0000;
    if m == 0 {
        let t = two_to(e);
        let u = two_to(-1074);
        assert(0real * t == 0real) by (nonlinear_arith);
        assert(0real * u == 0real) by (nonlinear_arith);
        s as u64
    } else if m >= h {
        let field = e + 1075;
        let f = m - h;
        assert((s + field * h + f) / h == s / h + field && (s + field * h + f) % h == f)
            by (nonlinear_arith)
            requires
                h == 0x10_0000_0000_0000,
                0 <= f < h,
                s == 0 || s == 0x8000_0000_0000_0000,
        ;
        (s + field * h + f) as u64
    } else {
        lemma2_to64();
        assert(room > 0) by {
            if room == 0 {
                assert(m * 1 == m);
            }
        }
        lemma_pow2_unfold(room);
        let p = pow2((room - 1) as nat) as int;
        assert(m * (2 * p) == (2 * m) * p) by (nonlinear_arith);
        lemma_rescale(m, e);
        lemma_scaled_sign(2 * m, e - 1, m, e, negative);
        lemma_dyadic(2 * m, e - 1, (room - 1) as nat, negative)
    }
}

/// The unit of an integer is a power of two, of which the integer has at most 53 bits.
proof fn lemma_unit53(a: nat, n: nat) -> (k: nat)
    requires
        a < 0x20_0000_0000_0000 * pow2(n),
    ensures
        k <= n,
        unit53(a) == pow2(k),
        a / unit53(a) < 0x20_0000_0000_0000,
    decreases n,
{
    lemma2_to64();
    if a < 0x20_0000_0000_0000 {
        assert(a / 1 == a);
        0
    } else {
        assert(n > 0) by {
            if n == 0 {
                assert(0x20_0000_0000_0000 * 1 == 0x20_0000_0000_0000);
            }
        }
        lemma_pow2_unfold(n);
        let p = pow2((n - 1) as nat);
        assert(a / 2 < 0x20_0000_0000_0000 * p) by (nonlinear_arith)
            requires
                a < 0x20_0000_0000_0000 * (2 * p),
        ;
        let k = lemma_unit53(a / 2, (n - 1) as nat);
        lemma_pow2_unfold((k + 1) as nat);
        lemma_pow2_pos(k);
        vstd::arithmetic::div_mod::lemma_div_denominator(a as int, 2, pow2(k) as int);
        (k + 1) as nat
    }
}

/// The double of an integer is finite, has its sign and is its number rounded to 53 bits.
pub proof fn doubles_of_integers_are_rounded(v: int)
    requires
        i64::MIN <= v <= i64::MAX,
    ensures
        finite64(int_double(v)),
        value64(int_double(v)) == rounded_int(v) as real,
        negative64(int_double(v)) == (v < 0),
{
    let negative = v < 0;
    let a = signed(v, negative) as nat;
    lemma2_to64();
    let k = lemma_unit53(a, 11);
    let unit = unit53(a) as int;
    let q = a as int / unit;
    lemma_pow2_pos(k);
    let m = if rounded53(a) == (q + 1) * unit {
        q + 1
    } else {
        q
    };
    assert(rounded53(a) == m * unit);
    assert(unit >= 1);
    assert(0 <= q) by (nonlinear_arith)
        requires
            q == a as int / unit,
            unit >= 1,
    ;
    let x = m as real;
    assert((m * unit) as real == m as real * unit as real) by (nonlinear_arith);
    assert(two_to(k as int) == unit as real);
    let (m2, e2) = if m == 0x20_0000_0000_0000 {
        lemma_rescale(0x10_0000_0000_0000, k as int + 1);
        (0x10_0000_0000_0000int, k as int + 1)
    } else {
        (m, k as int)
    };
    let bits = dyadics_are_doubles(m2, e2, negative);
    lemma_scaled_sign(m2, e2, m, k as int, negative);
    assert(signed(m, negative) as real * unit as real == signed(m * unit, negative) as real) by {
        assert((-m) as real == -x);
        let n = m * unit;
        assert((-n) as real == -(n as real));
        assert((-x) * unit as real == -(x * unit as real)) by (nonlinear_arith);
    }
    assert(signed(m * unit, negative) == rounded_int(v));
    assert(finite64(bits) && value64(bits) == rounded_int(v) as real && negative64(bits) == (v
        < 0));
}

/// The double of an integer of at most 53 bits is that number.
pub proof fn doubles_of_small_integers_are_exact(v: int)
    requires
        -0x20_0000_0000_0000 <= v <= 0x20_0000_0000_0000,
    ensures
        finite64(int_double(v)),
        value64(int_double(v)) == v as real,
        negative64(int_double(v)) == (v < 0),
{
    small_integers_are_exact(v);
    doubles_of_integers_are_rounded(v);
}

/// The double of a finite single has its number and its sign.
pub proof fn doubles_of_singles_keep_the_number(single: u32)
    requires
        finite32(single),
    ensures
        finite64(wide_double(single)),
        value64(wide_double(single)) == value32(single),
        negative64(wide_double(single)) == negative32(single),
{
    let negative = negative32(single);
    let m = significand32(single);
    let e = scale32(single);
    let bits = dyadics_are_doubles(m, e, negative);
    assert(finite64(bits) && value64(bits) == value32(single) && negative64(bits) == negative32(
        single,
    ));
}

/// How far two integers are apart.
pub open spec fn distance(a: int, b: int) -> int {
    if a < b {
        b - a
    } else {
        a - b
    }
}

/// No number of the integer's unit is nearer to it than the one it is rounded to, and where two
/// are as near, the rounded one is an even number of units.
pub proof fn rounding_goes_to_the_nearest(a: nat, other: nat)
    ensures
        rounded53(a) % unit53(a) == 0,
        -(unit53(a) as int) <= 2 * (rounded53(a) - a) <= unit53(a),
        distance(rounded53(a) as int, a as int) <= distance((other * unit53(a)) as int, a as int),
        2 * (rounded53(a) - a) == unit53(a) || 2 * (a - rounded53(a)) == unit53(a) ==> (rounded53(
            a,
        ) / unit53(a)) % 2 == 0,
{
    lemma_unit_positive(a);
    let unit = unit53(a) as int;
    let x = a as int;
    let q = x / unit;
    let rest = x % unit;
    vstd::arithmetic::div_mod::lemma_fundamental_div_mod(x, unit);
    vstd::arithmetic::div_mod::lemma_mod_bound(x, unit);
    assert(unit * q == q * unit) by (nonlinear_arith);
    assert((q + 1) * unit == q * unit + unit) by (nonlinear_arith);
    vstd::arithmetic::div_mod::lemma_mod_multiples_basic(q, unit);
    vstd::arithmetic::div_mod::lemma_mod_multiples_basic(q + 1, unit);
    vstd::arithmetic::div_mod::lemma_div_by_multiple(q, unit);
    vstd::arithmetic::div_mod::lemma_div_by_multiple(q + 1, unit);
    if other <= q {
        assert(other * unit <= q * unit) by (nonlinear_arith)
            requires
                other <= q,
                unit > 0,
        ;
    } else {
        assert(other * unit >= (q + 1) * unit) by (nonlinear_arith)
            requires
                other >= q + 1,
                unit > 0,
        ;
    }
}

proof fn lemma_unit_positive(a: nat)
    ensures
        unit53(a) >= 1,
    decreases a,
{
    if a >= 0x20_0000_0000_0000 {
        lemma_unit_positive(a / 2);
    }
}

/// A double is no number exactly where its bits without the sign are above those of infinity, and
/// finite exactly where they are below.
pub proof fn bits_above_infinity_are_no_numbers(bits: u64)
    ensures
        nan64(bits) <==> bits % 0x8000_0000_0000_0000 > 0x7ff0_0000_0000_0000,
        finite64(bits) <==> bits % 0x8000_0000_0000_0000 < 0x7ff0_0000_0000_0000,
{
    let b = bits as int;
    let h: int = 0x10_0000_0000_0000;
    let low = b % 0x8000_0000_0000_0000;
    assert(b / h == (b / 0x8000_0000_0000_0000) * 2048 + low / h);
    assert(0 <= low / h < 2048);
    assert((b / h) % 2048 == low / h);
    assert(b % h == low % h);
    assert(low == (low / h) * h + low % h);
}

/// Two doubles agree in their bits exactly where they are the same pattern, or both are above
/// infinity but for the sign.
pub proof fn agreeing_bits_are_the_same_number(a: u64, b: u64)
    ensures
        bits_agree(a, b) <==> a == b || (a % 0x8000_0000_0000_0000 > 0x7ff0_0000_0000_0000 && b
            % 0x8000_0000_0000_0000 > 0x7ff0_0000_0000_0000),
{
    bits_above_infinity_are_no_numbers(a);
    bits_above_infinity_are_no_numbers(b);
}

} // verus!

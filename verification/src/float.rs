//! IEEE floating-point bit patterns.
use vstd::arithmetic::power2::{lemma2_to64, lemma_pow2_pos, lemma_pow2_unfold, pow2};
use vstd::prelude::*;

use crate::rational::{two_to, Rational};

verus! {

/// 2^52, the weight of the hidden bit of a double.
pub const HIDDEN: u64 = 0x10_0000_0000_0000;

/// 2^23, the weight of the hidden bit of a single.
pub const HIDDEN32: u32 = 0x80_0000;

/// 2^63, the sign bit of a double.
pub const SIGN: u64 = 0x8000_0000_0000_0000;

/// 2^31, the sign bit of a single.
pub const SIGN32: u32 = 0x8000_0000;

/// The exponent field of a double.
pub open spec fn exponent64(bits: u64) -> int {
    (bits as int / 0x10_0000_0000_0000) % 2048
}

/// The fraction field of a double.
pub open spec fn fraction64(bits: u64) -> int {
    bits as int % 0x10_0000_0000_0000
}

/// Whether the sign bit of a double is set.
pub open spec fn negative64(bits: u64) -> bool {
    bits >= 0x8000_0000_0000_0000
}

/// Neither an infinity nor a NaN.
pub open spec fn finite64(bits: u64) -> bool {
    exponent64(bits) != 2047
}

/// A NaN of any payload.
pub open spec fn nan64(bits: u64) -> bool {
    exponent64(bits) == 2047 && fraction64(bits) != 0
}

/// The integer significand of a finite double.
pub open spec fn significand64(bits: u64) -> int {
    if exponent64(bits) == 0 {
        fraction64(bits)
    } else {
        fraction64(bits) + 0x10_0000_0000_0000
    }
}

/// The exponent that goes with [`significand64`].
pub open spec fn scale64(bits: u64) -> int {
    if exponent64(bits) == 0 {
        -1074
    } else {
        exponent64(bits) - 1075
    }
}

/// The number that a finite double stands for.
pub open spec fn value64(bits: u64) -> real {
    let m = if negative64(bits) {
        -significand64(bits)
    } else {
        significand64(bits)
    };
    m as real * two_to(scale64(bits))
}

/// The exponent field of a single.
pub open spec fn exponent32(bits: u32) -> int {
    (bits as int / 0x80_0000) % 256
}

/// The fraction field of a single.
pub open spec fn fraction32(bits: u32) -> int {
    bits as int % 0x80_0000
}

/// Whether the sign bit of a single is set.
pub open spec fn negative32(bits: u32) -> bool {
    bits >= 0x8000_0000
}

/// Neither an infinity nor a NaN.
pub open spec fn finite32(bits: u32) -> bool {
    exponent32(bits) != 255
}

/// The integer significand of a finite single.
pub open spec fn significand32(bits: u32) -> int {
    if exponent32(bits) == 0 {
        fraction32(bits)
    } else {
        fraction32(bits) + 0x80_0000
    }
}

/// The exponent that goes with [`significand32`].
pub open spec fn scale32(bits: u32) -> int {
    if exponent32(bits) == 0 {
        -149
    } else {
        exponent32(bits) - 150
    }
}

/// The number that a finite single stands for.
pub open spec fn value32(bits: u32) -> real {
    let m = if negative32(bits) {
        -significand32(bits)
    } else {
        significand32(bits)
    };
    m as real * two_to(scale32(bits))
}

/// The unit in the last place of an integer with 53 significant bits.
pub open spec fn unit53(a: nat) -> nat
    decreases a,
{
    if a < 0x20_0000_0000_0000 {
        1
    } else {
        2 * unit53(a / 2)
    }
}

/// `a` rounded to 53 significant bits: to the nearest multiple of its unit, ties to the even one.
pub open spec fn rounded53(a: nat) -> nat {
    let unit = unit53(a);
    let q = a / unit;
    let rest = a % unit;
    if 2 * rest > unit || (2 * rest == unit && q % 2 == 1) {
        (q + 1) * unit
    } else {
        q * unit
    }
}

/// The integer rounded to 53 significant bits.
pub open spec fn rounded_int(v: int) -> int {
    if v < 0 {
        -(rounded53((-v) as nat) as int)
    } else {
        rounded53(v as nat) as int
    }
}

/// One more in the exponent doubles the power.
pub proof fn lemma_two_to_step(e: int)
    ensures
        two_to(e + 1) == 2real * two_to(e),
        two_to(e) > 0real,
{
    if e >= 0 {
        lemma_pow2_unfold((e + 1) as nat);
        lemma_pow2_pos(e as nat);
        let p = pow2(e as nat) as int;
        assert((2 * p) as real == 2real * p as real) by (nonlinear_arith);
    } else if e == -1 {
        lemma2_to64();
        lemma_pow2_pos(1);
        assert(1real / 2real * 2real == 1real);
    } else {
        lemma_pow2_unfold((-e) as nat);
        lemma_pow2_pos((-e - 1) as nat);
        let p = pow2((-e - 1) as nat) as int;
        let x = p as real;
        assert((2 * p) as real == 2real * x);
        assert(1real / x == 2real * (1real / (2real * x)) && 1real / (2real * x) > 0real)
            by (nonlinear_arith)
            requires
                x > 0real,
        ;
    }
}

/// Doubling the significand against one less in the exponent keeps the number.
pub proof fn lemma_rescale(m: int, e: int)
    ensures
        (2 * m) as real * two_to(e - 1) == m as real * two_to(e),
{
    lemma_two_to_step(e - 1);
    let x = m as real;
    let t = two_to(e - 1);
    assert((2 * m) as real == 2real * x);
    assert((2real * x) * t == x * (2real * t)) by (nonlinear_arith);
}

/// Returns whether a double is neither an infinity nor a NaN.
pub fn is_finite64(bits: u64) -> (r: bool)
    ensures
        r == finite64(bits),
{
    (bits / HIDDEN) % 2048 != 2047
}

/// Returns whether a double is a NaN.
pub fn is_nan64(bits: u64) -> (r: bool)
    ensures
        r == nan64(bits),
{
    (bits / HIDDEN) % 2048 == 2047 && bits % HIDDEN != 0
}

/// Returns whether a single is neither an infinity nor a NaN.
pub fn is_finite32(bits: u32) -> (r: bool)
    ensures
        r == finite32(bits),
{
    (bits / HIDDEN32) % 256 != 255
}

/// Returns the double of `m * 2^e`, or of its negative.
pub(crate) fn encode(m: u64, e: i64, negative: bool) -> (r: u64)
    requires
        m <= 0x20_0000_0000_0000,
        -400 <= e <= 400,
    ensures
        finite64(r),
        negative64(r) == negative,
        m == 0 ==> significand64(r) == 0,
        value64(r) == (if negative {
            -(m as int)
        } else {
            m as int
        }) as real * two_to(e as int),
{
    let sign: u64 = if negative { SIGN } else { 0 };
    if m == 0 {
        proof {
            let t = two_to(e as int);
            let u = two_to(-1074);
            assert(0real * t == 0real) by (nonlinear_arith);
            assert(0real * u == 0real) by (nonlinear_arith);
        }
        return sign;
    }
    let mut m2: u64 = m;
    let mut e2: i64 = e;
    if m2 == 0x20_0000_0000_0000 {
        m2 = HIDDEN;
        e2 = e + 1;
        proof {
            lemma_rescale(HIDDEN as int, e + 1);
        }
    }
    proof {
        lemma2_to64();
        assert(m * pow2(0) == m);
    }
    while m2 < HIDDEN
        invariant
            0 < m2 < 0x20_0000_0000_0000,
            -400 <= e <= 400,
            e2 <= e + 1,
            e2 >= e - 53,
            e2 < e ==> e - e2 <= 52,
            e2 > e ==> m2 == HIDDEN,
            m2 as real * two_to(e2 as int) == m as real * two_to(e as int),
            e2 <= e ==> m2 as int == m * pow2((e - e2) as nat),
            0 < m,
        decreases 0x20_0000_0000_0000 - m2,
    {
        proof {
            lemma_rescale(m2 as int, e2 as int);
            lemma_pow2_unfold((e - e2 + 1) as nat);
            lemma_pow2_pos((e - e2) as nat);
            if e - e2 >= 52 {
                lemma2_to64();
                vstd::arithmetic::power2::lemma_pow2_adds(20, 32);
                assert(pow2(52) == 0x10_0000_0000_0000);
                assert(m * pow2(52) >= pow2(52)) by (nonlinear_arith)
                    requires
                        m >= 1,
                ;
                assert(false);
            }
            assert(m * (2 * pow2((e - e2) as nat)) == 2 * (m * pow2((e - e2) as nat)))
                by (nonlinear_arith);
        }
        m2 = m2 * 2;
        e2 = e2 - 1;
    }
    let field: u64 = (e2 + 1075) as u64;
    let bits: u64 = field * HIDDEN + (m2 - HIDDEN);
    proof {
        let h = HIDDEN as int;
        let f = m2 - HIDDEN;
        assert((field * h + f) / h == field && (field * h + f) % h == f) by (nonlinear_arith)
            requires
                h == 0x10_0000_0000_0000,
                0 <= f < h,
        ;
        let s = sign as int;
        assert((s + field * h + f) / h == s / h + field && (s + field * h + f) % h == f)
            by (nonlinear_arith)
            requires
                h == 0x10_0000_0000_0000,
                0 <= f < h,
                s == 0 || s == 0x8000_0000_0000_0000,
        ;
        let x = m as int;
        let t = two_to(e as int);
        let x2 = m2 as int;
        let t2 = two_to(e2 as int);
        assert((-x) as real == -(x as real));
        assert((-x2) as real == -(x2 as real));
        assert(-(x as real) * t == -(x as real * t)) by (nonlinear_arith);
        assert(-(x2 as real) * t2 == -(x2 as real * t2)) by (nonlinear_arith);
    }
    sign + bits
}

/// Returns the single of `m * 2^e`, or of its negative.
pub(crate) fn encode32(m: u32, e: i32, negative: bool) -> (r: u32)
    requires
        m < 0x100_0000,
        -60 <= e <= 60,
    ensures
        finite32(r),
        negative32(r) == negative,
        value32(r) == (if negative {
            -(m as int)
        } else {
            m as int
        }) as real * two_to(e as int),
{
    let sign: u32 = if negative { SIGN32 } else { 0 };
    if m == 0 {
        proof {
            let t = two_to(e as int);
            let u = two_to(-149);
            assert(0real * t == 0real) by (nonlinear_arith);
            assert(0real * u == 0real) by (nonlinear_arith);
        }
        return sign;
    }
    let mut m2: u32 = m;
    let mut e2: i32 = e;
    proof {
        lemma2_to64();
        assert(m * pow2(0) == m);
    }
    while m2 < HIDDEN32
        invariant
            0 < m2 < 0x100_0000,
            -60 <= e <= 60,
            e - 24 <= e2 <= e,
            m2 as real * two_to(e2 as int) == m as real * two_to(e as int),
            m2 as int == m * pow2((e - e2) as nat),
            0 < m,
        decreases 0x100_0000 - m2,
    {
        proof {
            lemma_rescale(m2 as int, e2 as int);
            lemma_pow2_unfold((e - e2 + 1) as nat);
            lemma_pow2_pos((e - e2) as nat);
            if e - e2 >= 23 {
                lemma2_to64();
                if e - e2 == 24 {
                    assert(m * pow2(24) >= 0x80_0000) by (nonlinear_arith)
                        requires
                            m >= 1,
                            pow2(24) == 0x100_0000,
                    ;
                } else {
                    assert(m * pow2(23) >= 0x80_0000) by (nonlinear_arith)
                        requires
                            m >= 1,
                            pow2(23) == 0x80_0000,
                    ;
                }
                assert(false);
            }
            assert(m * (2 * pow2((e - e2) as nat)) == 2 * (m * pow2((e - e2) as nat)))
                by (nonlinear_arith);
        }
        m2 = m2 * 2;
        e2 = e2 - 1;
    }
    let field: u32 = (e2 + 150) as u32;
    let bits: u32 = field * HIDDEN32 + (m2 - HIDDEN32);
    proof {
        let h = HIDDEN32 as int;
        let f = m2 - HIDDEN32;
        assert((field * h + f) / h == field && (field * h + f) % h == f) by (nonlinear_arith)
            requires
                h == 0x80_0000,
                0 <= f < h,
        ;
        let s = sign as int;
        assert((s + field * h + f) / h == s / h + field && (s + field * h + f) % h == f)
            by (nonlinear_arith)
            requires
                h == 0x80_0000,
                0 <= f < h,
                s == 0 || s == 0x8000_0000,
        ;
        let x = m as int;
        let t = two_to(e as int);
        let x2 = m2 as int;
        let t2 = two_to(e2 as int);
        assert((-x) as real == -(x as real));
        assert((-x2) as real == -(x2 as real));
        assert(-(x as real) * t == -(x as real * t)) by (nonlinear_arith);
        assert(-(x2 as real) * t2 == -(x2 as real * t2)) by (nonlinear_arith);
    }
    sign + bits
}

/// Returns the double of the same number as a finite single.
pub fn widen32(bits: u32) -> (r: u64)
    requires
        finite32(bits),
    ensures
        finite64(r),
        value64(r) == value32(bits),
        negative64(r) == negative32(bits),
        r == wide_double(bits),
{
    let exponent: u32 = (bits / HIDDEN32) % 256;
    let fraction: u32 = bits % HIDDEN32;
    let m: u64 = if exponent == 0 { fraction as u64 } else { fraction as u64 + HIDDEN32 as u64 };
    let e: i64 = if exponent == 0 { -149 } else { exponent as i64 - 150 };
    let wide: u64 = encode(m, e, bits >= SIGN32);
    proof {
        lemma_wide_double(bits, wide);
    }
    wide
}

/// Returns the double nearest to an integer, ties to even.
pub fn from_int64(v: i64) -> (r: u64)
    ensures
        finite64(r),
        value64(r) == rounded_int(v as int) as real,
        negative64(r) == (v < 0),
        r == int_double(v as int),
{
    let a: u64 = if v == i64::MIN {
        SIGN
    } else if v < 0 {
        (-v) as u64
    } else {
        v as u64
    };
    let mut q: u64 = a;
    let mut unit: u64 = 1;
    let mut shift: i64 = 0;
    proof {
        lemma2_to64();
        assert(a / 1 == a) by (nonlinear_arith);
    }
    while q >= 0x20_0000_0000_0000
        invariant
            a <= 0x8000_0000_0000_0000,
            0 <= shift <= 11,
            unit == pow2(shift as nat),
            1 <= unit <= 2048,
            q == a / unit,
            q * unit <= a,
            unit53(a as nat) == unit * unit53(q as nat),
        decreases q,
    {
        proof {
            lemma_pow2_unfold((shift + 1) as nat);
            let x = unit as int;
            let y = unit53((q / 2) as nat) as int;
            assert(x * (2 * y) == (2 * x) * y) by (nonlinear_arith);
            vstd::arithmetic::div_mod::lemma_div_denominator(a as int, x, 2);
            assert(x * 2 == 2 * x);
            let y = q as int;
            assert(x <= 1024) by (nonlinear_arith)
                requires
                    y * x <= 0x8000_0000_0000_0000,
                    y >= 0x20_0000_0000_0000,
                    x >= 1,
            ;
            if shift == 11 {
                lemma2_to64();
            }
            let half = q / 2;
            assert(half * (2 * x) <= q * x) by (nonlinear_arith)
                requires
                    half * 2 <= q,
                    x >= 1,
            ;
        }
        q = q / 2;
        unit = unit * 2;
        shift = shift + 1;
    }
    proof {
        let x = unit as int;
        assert(x * 1 == x);
        vstd::arithmetic::div_mod::lemma_fundamental_div_mod(a as int, x);
        let y = q as int;
        assert(y * x == x * y) by (nonlinear_arith);
        assert(unit53(q as nat) == 1);
        assert(unit53(a as nat) == unit);
        vstd::arithmetic::div_mod::lemma_mod_bound(a as int, x);
    }
    let rest: u64 = a - q * unit;
    let up = 2 * rest > unit || (2 * rest == unit && q % 2 == 1);
    let m: u64 = if up { q + 1 } else { q };
    proof {
        assert(rounded53(a as nat) == m * unit);
        let n = rounded53(a as nat) as int;
        let x = m as int;
        let y = unit as int;
        assert((x * y) as real == x as real * y as real) by (nonlinear_arith);
        assert((-x) as real == -(x as real));
        assert((-n) as real == -(n as real));
        assert(-(x as real) * (y as real) == -(x as real * y as real)) by (nonlinear_arith);
    }
    let bits: u64 = encode(m, shift, v < 0);
    proof {
        lemma_int_double(v as int, bits);
    }
    bits
}

impl Rational {
    /// Returns the exact number of a finite double.
    pub(crate) fn of_double(bits: u64) -> (r: Self)
        requires
            finite64(bits),
        ensures
            r.value() == value64(bits),
    {
        let exponent: u64 = (bits / HIDDEN) % 2048;
        let fraction: u64 = bits % HIDDEN;
        let m: i64 = if exponent == 0 { fraction as i64 } else { (fraction + HIDDEN) as i64 };
        let e: i64 = if exponent == 0 { -1074 } else { exponent as i64 - 1075 };
        Rational::dyadic(if bits >= SIGN { -m } else { m }, e)
    }

    /// Returns the exact number of a finite single.
    pub(crate) fn of_single(bits: u32) -> (r: Self)
        requires
            finite32(bits),
        ensures
            r.value() == value32(bits),
    {
        let exponent: u32 = (bits / HIDDEN32) % 256;
        let fraction: u32 = bits % HIDDEN32;
        let m: i64 = if exponent == 0 { fraction as i64 } else { (fraction + HIDDEN32) as i64 };
        let e: i64 = if exponent == 0 { -149 } else { exponent as i64 - 150 };
        Rational::dyadic(if bits >= SIGN32 { -m } else { m }, e)
    }
}

/// Adding to the exponent multiplies by a power of two.
pub proof fn lemma_two_to_add(e: int, k: nat)
    ensures
        two_to(e + k) == two_to(e) * (pow2(k) as real),
    decreases k,
{
    let t = two_to(e);
    if k == 0 {
        lemma2_to64();
        assert(t * 1real == t) by (nonlinear_arith);
    } else {
        lemma_two_to_add(e, (k - 1) as nat);
        lemma_two_to_step(e + k - 1);
        lemma_pow2_unfold(k);
        let p = pow2((k - 1) as nat) as int;
        assert((2 * p) as real == 2real * (p as real));
        assert(2real * (t * (p as real)) == t * (2real * (p as real))) by (nonlinear_arith);
    }
}

/// Equal multiples of two powers of two: the larger power goes with the smaller multiple.
proof fn lemma_equal_scaled(m1: int, e1: int, m2: int, e2: int)
    requires
        m1 as real * two_to(e1) == m2 as real * two_to(e2),
        e1 <= e2,
    ensures
        m1 == m2 * pow2((e2 - e1) as nat),
{
    let k = (e2 - e1) as nat;
    lemma_two_to_add(e1, k);
    lemma_two_to_step(e1);
    let t = two_to(e1);
    let p = pow2(k) as int;
    let x = m1 as real;
    let y = m2 as real;
    let q = p as real;
    assert((m2 * p) as real == y * q) by (nonlinear_arith)
        requires
            y == m2 as real,
            q == p as real,
    ;
    assert(x == y * q) by (nonlinear_arith)
        requires
            x * t == y * (t * q),
            t > 0real,
    ;
}

/// The significand of a nonzero double at least doubles with each step below its exponent.
proof fn lemma_scaled_bound(m: int, k: nat)
    requires
        m >= 0x10_0000_0000_0000,
        k > 0,
    ensures
        m * pow2(k) >= 0x20_0000_0000_0000,
{
    lemma_pow2_unfold(k);
    lemma_pow2_pos((k - 1) as nat);
    let p = pow2(k) as int;
    assert(p >= 2);
    assert(m * p >= 0x20_0000_0000_0000) by (nonlinear_arith)
        requires
            m >= 0x10_0000_0000_0000,
            p >= 2,
    ;
}

/// A finite double is determined by its number and its sign.
pub proof fn doubles_are_unique(a: u64, b: u64)
    requires
        finite64(a),
        finite64(b),
        value64(a) == value64(b),
        negative64(a) == negative64(b),
    ensures
        a == b,
{
    let m1 = significand64(a);
    let m2 = significand64(b);
    let e1 = scale64(a);
    let e2 = scale64(b);
    let t1 = two_to(e1);
    let t2 = two_to(e2);
    assert((-m1) as real == -(m1 as real));
    assert((-m2) as real == -(m2 as real));
    assert(-(m1 as real) * t1 == -(m1 as real * t1)) by (nonlinear_arith);
    assert(-(m2 as real) * t2 == -(m2 as real * t2)) by (nonlinear_arith);
    assert(m1 as real * t1 == m2 as real * t2);
    if e1 <= e2 {
        lemma_equal_scaled(m1, e1, m2, e2);
        if e1 < e2 {
            lemma_scaled_bound(m2, (e2 - e1) as nat);
        } else {
            lemma2_to64();
            assert(m2 * 1 == m2);
        }
    } else {
        lemma_equal_scaled(m2, e2, m1, e1);
        lemma_scaled_bound(m1, (e1 - e2) as nat);
    }
    assert(e1 == e2 && m1 == m2);
    let h = 0x10_0000_0000_0000int;
    assert(exponent64(a) == exponent64(b) && fraction64(a) == fraction64(b));
    let x = a as int;
    let y = b as int;
    vstd::arithmetic::div_mod::lemma_fundamental_div_mod(x, h);
    vstd::arithmetic::div_mod::lemma_fundamental_div_mod(y, h);
    vstd::arithmetic::div_mod::lemma_fundamental_div_mod(x / h, 2048);
    vstd::arithmetic::div_mod::lemma_fundamental_div_mod(y / h, 2048);
    assert(x / h / 2048 == (if negative64(a) { 1int } else { 0int }));
    assert(y / h / 2048 == (if negative64(b) { 1int } else { 0int }));
}

/// The double nearest to an integer, ties to even.
pub open spec fn int_double(v: int) -> u64 {
    choose|bits: u64|
        finite64(bits) && value64(bits) == rounded_int(v) as real && negative64(bits) == (v < 0)
}

/// The double of the same number and sign as a finite single.
pub open spec fn wide_double(single: u32) -> u64 {
    choose|bits: u64|
        finite64(bits) && value64(bits) == value32(single) && negative64(bits) == negative32(single)
}

/// The double of an integer is the one with its rounded number and its sign.
pub proof fn lemma_int_double(v: int, bits: u64)
    requires
        finite64(bits),
        value64(bits) == rounded_int(v) as real,
        negative64(bits) == (v < 0),
    ensures
        bits == int_double(v),
{
    let chosen = int_double(v);
    doubles_are_unique(bits, chosen);
}

/// The double of a single is the one with its number and its sign.
pub proof fn lemma_wide_double(single: u32, bits: u64)
    requires
        finite64(bits),
        value64(bits) == value32(single),
        negative64(bits) == negative32(single),
    ensures
        bits == wide_double(single),
{
    let chosen = wide_double(single);
    doubles_are_unique(bits, chosen);
}

/// Integers of at most 53 significant bits are rounded to themselves, so their doubles are exact.
pub proof fn small_integers_are_exact(v: int)
    requires
        -0x20_0000_0000_0000 <= v <= 0x20_0000_0000_0000,
    ensures
        rounded_int(v) == v,
{
    let a = if v < 0 {
        (-v) as nat
    } else {
        v as nat
    };
    if a < 0x20_0000_0000_0000 {
        assert(unit53(a) == 1);
        assert(a / 1 == a && a % 1 == 0);
        assert(a * 1 == a);
    } else {
        assert(unit53(0x10_0000_0000_0000) == 1);
        assert(unit53(a) == 2);
    }
    assert(rounded53(a) == a);
}

} // verus!

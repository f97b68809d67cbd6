//! Exact rational numbers.
use num_bigint::BigInt;
use num_rational::BigRational;
use num_traits::ToPrimitive;
use vstd::arithmetic::power2::{lemma_pow2_pos, pow2};
use vstd::prelude::*;

use crate::text::{decimal, signed_decimal};

verus! {

/// The number that little-endian bytes stand for.
pub open spec fn unsigned_le(bytes: Seq<u8>) -> nat
    decreases bytes.len(),
{
    if bytes.len() == 0 {
        0
    } else {
        bytes[0] as nat + 256 * unsigned_le(bytes.drop_first())
    }
}

/// The integer that little-endian two's-complement bytes stand for.
pub open spec fn signed_le(bytes: Seq<u8>) -> int {
    if bytes.len() > 0 && bytes.last() >= 128 {
        unsigned_le(bytes) - pow2(8 * bytes.len())
    } else {
        unsigned_le(bytes) as int
    }
}

/// The quotient of two integers.
pub open spec fn quotient(n: int, d: int) -> real {
    n as real / d as real
}

/// A fraction in lowest terms with a positive denominator.
pub open spec fn reduced(n: int, d: int) -> bool {
    &&& d > 0
    &&& forall|k: int| k > 1 ==> !(#[trigger] (n % k) == 0 && d % k == 0)
}

/// The text of a fraction in lowest terms.
pub open spec fn fraction_text(n: int, d: int) -> Seq<char> {
    if d == 1 {
        signed_decimal(n)
    } else {
        signed_decimal(n) + "/"@ + signed_decimal(d)
    }
}

/// The power of two with an integer exponent.
pub open spec fn two_to(e: int) -> real {
    if e >= 0 {
        pow2(e as nat) as real
    } else {
        1real / pow2((-e) as nat) as real
    }
}

/// An exact rational number in lowest terms.
///
/// The numerator and the denominator are little-endian two's-complement
/// bytes, so that contracts can speak of their values; arithmetic on them is
/// that of `num_rational`.
#[derive(Debug, PartialEq, Eq)]
pub struct Rational {
    pub(crate) numer: Vec<u8>,
    pub(crate) denom: Vec<u8>,
}

impl Rational {
    /// A fraction in lowest terms with a positive denominator.
    #[verifier::type_invariant]
    pub open(crate) spec fn lowest_terms(self) -> bool {
        reduced(signed_le(self.numer@), signed_le(self.denom@))
    }

    /// The numerator.
    pub open(crate) spec fn numerator(self) -> int {
        signed_le(self.numer@)
    }

    /// The denominator.
    pub open(crate) spec fn denominator(self) -> int {
        signed_le(self.denom@)
    }

    /// The number itself.
    pub open spec fn value(self) -> real {
        quotient(self.numerator(), self.denominator())
    }
}

/// `BigRational::from_integer` of `BigInt::from(i64)`: the integer over one.
#[verifier::external_body]
fn ratio_from_integer(v: i64) -> (r: (Vec<u8>, Vec<u8>))
    ensures
        signed_le(r.0@) == v,
        signed_le(r.1@) == 1,
{
    let z = BigRational::from_integer(BigInt::from(v));
    (z.numer().to_signed_bytes_le(), z.denom().to_signed_bytes_le())
}

/// `BigInt::from(i64) << usize`: the integer times a power of two. It panics
/// where the digits of the result cannot be allocated.
#[verifier::external_body]
fn int_shifted(v: i64, shift: usize) -> (r: Vec<u8>)
    requires
        shift <= 4096,
    ensures
        signed_le(r@) == v * pow2(shift as nat),
{
    let z = BigInt::from(v) << shift;
    z.to_signed_bytes_le()
}

/// `BigRational::new`: the quotient in lowest terms. It panics on a zero
/// denominator.
#[verifier::external_body]
fn ratio_new(numer: &Vec<u8>, denom: &Vec<u8>) -> (r: (Vec<u8>, Vec<u8>))
    requires
        signed_le(denom@) != 0,
    ensures
        reduced(signed_le(r.0@), signed_le(r.1@)),
        quotient(signed_le(r.0@), signed_le(r.1@)) == quotient(
            signed_le(numer@),
            signed_le(denom@),
        ),
{
    let z = BigRational::new(
        BigInt::from_signed_bytes_le(numer),
        BigInt::from_signed_bytes_le(denom),
    );
    (z.numer().to_signed_bytes_le(), z.denom().to_signed_bytes_le())
}

/// `BigRational + BigRational`: the sum in lowest terms.
#[verifier::external_body]
fn ratio_plus(a: &Rational, b: &Rational) -> (r: (Vec<u8>, Vec<u8>))
    ensures
        reduced(signed_le(r.0@), signed_le(r.1@)),
        quotient(signed_le(r.0@), signed_le(r.1@)) == a.value() + b.value(),
{
    let x = BigRational::new_raw(
        BigInt::from_signed_bytes_le(&a.numer),
        BigInt::from_signed_bytes_le(&a.denom),
    );
    let y = BigRational::new_raw(
        BigInt::from_signed_bytes_le(&b.numer),
        BigInt::from_signed_bytes_le(&b.denom),
    );
    let z = x + y;
    (z.numer().to_signed_bytes_le(), z.denom().to_signed_bytes_le())
}

/// `BigRational - BigRational`: the difference in lowest terms.
#[verifier::external_body]
fn ratio_minus(a: &Rational, b: &Rational) -> (r: (Vec<u8>, Vec<u8>))
    ensures
        reduced(signed_le(r.0@), signed_le(r.1@)),
        quotient(signed_le(r.0@), signed_le(r.1@)) == a.value() - b.value(),
{
    let x = BigRational::new_raw(
        BigInt::from_signed_bytes_le(&a.numer),
        BigInt::from_signed_bytes_le(&a.denom),
    );
    let y = BigRational::new_raw(
        BigInt::from_signed_bytes_le(&b.numer),
        BigInt::from_signed_bytes_le(&b.denom),
    );
    let z = x - y;
    (z.numer().to_signed_bytes_le(), z.denom().to_signed_bytes_le())
}

/// `BigRational * BigRational`: the product in lowest terms.
#[verifier::external_body]
fn ratio_times(a: &Rational, b: &Rational) -> (r: (Vec<u8>, Vec<u8>))
    ensures
        reduced(signed_le(r.0@), signed_le(r.1@)),
        quotient(signed_le(r.0@), signed_le(r.1@)) == a.value() * b.value(),
{
    let x = BigRational::new_raw(
        BigInt::from_signed_bytes_le(&a.numer),
        BigInt::from_signed_bytes_le(&a.denom),
    );
    let y = BigRational::new_raw(
        BigInt::from_signed_bytes_le(&b.numer),
        BigInt::from_signed_bytes_le(&b.denom),
    );
    let z = x * y;
    (z.numer().to_signed_bytes_le(), z.denom().to_signed_bytes_le())
}

/// `-BigRational`: the numerator negated over the same denominator.
#[verifier::external_body]
fn ratio_negated(a: &Rational) -> (r: (Vec<u8>, Vec<u8>))
    ensures
        signed_le(r.0@) == -a.numerator(),
        signed_le(r.1@) == a.denominator(),
{
    let x = BigRational::new_raw(
        BigInt::from_signed_bytes_le(&a.numer),
        BigInt::from_signed_bytes_le(&a.denom),
    );
    let z = -x;
    (z.numer().to_signed_bytes_le(), z.denom().to_signed_bytes_le())
}

/// `BigRational > BigRational`: the order of the numbers.
#[verifier::external_body]
fn ratio_exceeds(a: &Rational, b: &Rational) -> (r: bool)
    ensures
        r == (a.value() > b.value()),
{
    let x = BigRational::new_raw(
        BigInt::from_signed_bytes_le(&a.numer),
        BigInt::from_signed_bytes_le(&a.denom),
    );
    let y = BigRational::new_raw(
        BigInt::from_signed_bytes_le(&b.numer),
        BigInt::from_signed_bytes_le(&b.denom),
    );
    x > y
}

/// `BigRational == BigRational`: equality of the numbers.
#[verifier::external_body]
fn ratio_equals(a: &Rational, b: &Rational) -> (r: bool)
    ensures
        r == (a.value() == b.value()),
{
    let x = BigRational::new_raw(
        BigInt::from_signed_bytes_le(&a.numer),
        BigInt::from_signed_bytes_le(&a.denom),
    );
    let y = BigRational::new_raw(
        BigInt::from_signed_bytes_le(&b.numer),
        BigInt::from_signed_bytes_le(&b.denom),
    );
    x == y
}

/// `BigRational::is_integer`: whether the denominator is one.
#[verifier::external_body]
fn ratio_is_integer(a: &Rational) -> (r: bool)
    ensures
        r == (a.denominator() == 1),
{
    let x = BigRational::new_raw(
        BigInt::from_signed_bytes_le(&a.numer),
        BigInt::from_signed_bytes_le(&a.denom),
    );
    x.is_integer()
}

/// `BigInt::to_i64`: the integer where it is in range.
#[verifier::external_body]
fn int_to_i64(bytes: &Vec<u8>) -> (r: Option<i64>)
    ensures
        r == (if i64::MIN <= signed_le(bytes@) <= i64::MAX {
            Some(signed_le(bytes@) as i64)
        } else {
            None
        }),
{
    BigInt::from_signed_bytes_le(bytes).to_i64()
}

/// The `Display` of `BigRational`: the numerator alone over one, else
/// numerator, slash and denominator, in decimal.
#[verifier::external_body]
fn ratio_text(a: &Rational) -> (r: String)
    ensures
        r@ == fraction_text(a.numerator(), a.denominator()),
{
    let x = BigRational::new_raw(
        BigInt::from_signed_bytes_le(&a.numer),
        BigInt::from_signed_bytes_le(&a.denom),
    );
    format!("{x}")
}

/// A quotient times its denominator is its numerator.
pub proof fn lemma_quotient(n: int, d: int)
    requires
        d != 0,
    ensures
        quotient(n, d) * (d as real) == n as real,
{
    let x = n as real;
    let y = d as real;
    assert((x / y) * y == x) by (nonlinear_arith)
        requires
            y != 0real,
    ;
}

/// What times the denominator is the numerator is the quotient.
pub proof fn lemma_is_quotient(n: int, d: int, v: real)
    requires
        d != 0,
        v * (d as real) == n as real,
    ensures
        v == quotient(n, d),
{
    let x = n as real;
    let y = d as real;
    assert(x / y == v) by (nonlinear_arith)
        requires
            y != 0real,
            v * y == x,
    ;
}

impl Clone for Rational {
    fn clone(&self) -> (r: Self)
        ensures
            r.numerator() == self.numerator(),
            r.denominator() == self.denominator(),
            r.value() == self.value(),
    {
        proof {
            use_type_invariant(self);
        }
        Rational {
            numer: crate::data::copied(&self.numer),
            denom: crate::data::copied(&self.denom),
        }
    }
}

impl Rational {
    /// Returns the integer `v`.
    pub fn from_integer(v: i64) -> (r: Self)
        ensures
            r.numerator() == v,
            r.denominator() == 1,
            r.value() == v as real,
    {
        let (numer, denom) = ratio_from_integer(v);
        proof {
            assert forall|k: int| k > 1 implies !(#[trigger] (v as int % k) == 0 && 1int % k == 0) by {
                vstd::arithmetic::div_mod::lemma_small_mod(1, k as nat);
            }
            lemma_is_quotient(v as int, 1, v as real);
        }
        Rational { numer, denom }
    }

    /// Returns `n / d` in lowest terms.
    pub fn new(n: i64, d: i64) -> (r: Self)
        requires
            d != 0,
        ensures
            r.value() == quotient(n as int, d as int),
    {
        let n_bytes = int_shifted(n, 0);
        let d_bytes = int_shifted(d, 0);
        proof {
            vstd::arithmetic::power2::lemma2_to64();
        }
        let (numer, denom) = ratio_new(&n_bytes, &d_bytes);
        Rational { numer, denom }
    }

    /// Returns `m * 2^e`.
    pub(crate) fn dyadic(m: i64, e: i64) -> (r: Self)
        requires
            -4096 <= e <= 4096,
        ensures
            r.value() == m as real * two_to(e as int),
    {
        if e >= 0 {
            let n_bytes = int_shifted(m, e as usize);
            let d_bytes = int_shifted(1, 0);
            proof {
                vstd::arithmetic::power2::lemma2_to64();
                let n = m * pow2(e as nat);
                let p = pow2(e as nat) as int;
                assert((m * p) as real == m as real * p as real) by (nonlinear_arith);
                assert((n as real) * 1real == n as real) by (nonlinear_arith);
                lemma_is_quotient(n, 1, n as real);
            }
            let (numer, denom) = ratio_new(&n_bytes, &d_bytes);
            Rational { numer, denom }
        } else {
            let n_bytes = int_shifted(m, 0);
            let d_bytes = int_shifted(1, (-e) as usize);
            proof {
                vstd::arithmetic::power2::lemma2_to64();
                lemma_pow2_pos((-e) as nat);
                let p = pow2((-e) as nat) as int;
                lemma_quotient(1, p);
                let x = m as real;
                let y = p as real;
                let q = 1real / y;
                assert((x * q) * y == x) by (nonlinear_arith)
                    requires
                        q * y == 1real,
                ;
                lemma_is_quotient(m as int, p, x * q);
            }
            let (numer, denom) = ratio_new(&n_bytes, &d_bytes);
            Rational { numer, denom }
        }
    }

    /// Returns the sum.
    pub fn plus(&self, other: &Rational) -> (r: Self)
        ensures
            r.value() == self.value() + other.value(),
    {
        let (numer, denom) = ratio_plus(self, other);
        Rational { numer, denom }
    }

    /// Returns the difference.
    pub fn minus(&self, other: &Rational) -> (r: Self)
        ensures
            r.value() == self.value() - other.value(),
    {
        let (numer, denom) = ratio_minus(self, other);
        Rational { numer, denom }
    }

    /// Returns the product.
    pub fn times(&self, other: &Rational) -> (r: Self)
        ensures
            r.value() == self.value() * other.value(),
    {
        let (numer, denom) = ratio_times(self, other);
        Rational { numer, denom }
    }

    /// Returns the number with the opposite sign.
    pub fn negated(&self) -> (r: Self)
        ensures
            r.value() == -self.value(),
    {
        let (numer, denom) = ratio_negated(self);
        proof {
            use_type_invariant(self);
            let n = self.numerator();
            let d = self.denominator();
            assert forall|k: int| k > 1 implies !(#[trigger] ((-n) % k) == 0 && d % k == 0) by {
                if (-n) % k == 0 {
                    vstd::arithmetic::div_mod::lemma_fundamental_div_mod(-n, k);
                    let q = (-n) / k;
                    assert(n == k * (-q)) by (nonlinear_arith)
                        requires
                            -n == k * q,
                    ;
                    vstd::arithmetic::div_mod::lemma_fundamental_div_mod_converse(n, k, -q, 0);
                    assert(n % k == 0);
                }
            }
            lemma_quotient(n, d);
            let v = quotient(n, d);
            let y = d as real;
            assert((-v) * y == -(v * y)) by (nonlinear_arith);
            assert(((-n) as real) == -(n as real));
            lemma_is_quotient(-n, d, -v);
        }
        Rational { numer, denom }
    }

    /// Returns whether the number is above zero.
    pub fn positive(&self) -> (r: bool)
        ensures
            r == (self.value() > 0real),
    {
        ratio_exceeds(self, &Rational::from_integer(0))
    }

    /// Returns whether the two numbers are equal.
    pub fn same(&self, other: &Rational) -> (r: bool)
        ensures
            r == (self.value() == other.value()),
    {
        ratio_equals(self, other)
    }

    /// Returns the number as an `i64` where it is an integer in range.
    pub fn to_i64(&self) -> (r: Option<i64>)
        ensures
            r == (if self.denominator() == 1 && i64::MIN <= self.numerator() <= i64::MAX {
                Some(self.numerator() as i64)
            } else {
                None
            }),
    {
        if ratio_is_integer(self) {
            int_to_i64(&self.numer)
        } else {
            None
        }
    }

    /// Returns whether the number is an integer.
    pub fn is_integer(&self) -> (r: bool)
        ensures
            r == (self.denominator() == 1),
    {
        ratio_is_integer(self)
    }

    /// Renders the number in decimal, with a slash before a denominator other than one.
    pub fn to_text(&self) -> (r: String)
        ensures
            r@ == fraction_text(self.numerator(), self.denominator()),
    {
        ratio_text(self)
    }

    /// Returns the numerator as little-endian two's-complement bytes.
    pub fn numer_bytes(&self) -> (r: &Vec<u8>)
        ensures
            signed_le(r@) == self.numerator(),
    {
        &self.numer
    }

    /// Returns the denominator as little-endian two's-complement bytes.
    pub fn denom_bytes(&self) -> (r: &Vec<u8>)
        ensures
            signed_le(r@) == self.denominator(),
    {
        &self.denom
    }
}

} // verus!

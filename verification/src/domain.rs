//! The scalar domains that tensors are evaluated in.
use vstd::prelude::*;

use crate::float::{finite32, finite64, value32, value64};
use crate::rational::Rational;

verus! {

/// Scalars with the operations that tensor programs use.
///
/// The evaluators are written once over any domain. What they compute is
/// stated over the domain's own operations, in the order in which they are
/// applied, so it holds of exact arithmetic and of rounded arithmetic alike.
/// A domain of unverified arithmetic, such as that of the host's doubles, keeps
/// the default meanings: they only name what its operations compute.
pub trait Domain {
    /// The executable scalar.
    type Elem;

    /// What a scalar stands for.
    type V;

    /// What the scalar stands for.
    closed spec fn value(e: Self::Elem) -> Self::V {
        arbitrary()
    }

    closed spec fn zero_value() -> Self::V {
        arbitrary()
    }

    closed spec fn plus_value(a: Self::V, b: Self::V) -> Self::V {
        arbitrary()
    }

    closed spec fn minus_value(a: Self::V, b: Self::V) -> Self::V {
        arbitrary()
    }

    closed spec fn times_value(a: Self::V, b: Self::V) -> Self::V {
        arbitrary()
    }

    closed spec fn neg_value(a: Self::V) -> Self::V {
        arbitrary()
    }

    closed spec fn relu_value(a: Self::V) -> Self::V {
        arbitrary()
    }

    /// The scalar of an integer payload element.
    closed spec fn int_value(v: int) -> Self::V {
        arbitrary()
    }

    /// The scalar of a finite single-precision payload element.
    closed spec fn single_value(bits: u32) -> Self::V {
        arbitrary()
    }

    /// The scalar of a finite double-precision payload element.
    closed spec fn double_value(bits: u64) -> Self::V {
        arbitrary()
    }

    /// The scalar of a rational literal, where the domain has one.
    closed spec fn literal_value(v: real) -> Option<Self::V> {
        arbitrary()
    }

    fn zero() -> (r: Self::Elem)
        ensures
            Self::value(r) == Self::zero_value(),
    ;

    fn copy(a: &Self::Elem) -> (r: Self::Elem)
        ensures
            Self::value(r) == Self::value(*a),
    ;

    fn plus(a: &Self::Elem, b: &Self::Elem) -> (r: Self::Elem)
        ensures
            Self::value(r) == Self::plus_value(Self::value(*a), Self::value(*b)),
    ;

    fn minus(a: &Self::Elem, b: &Self::Elem) -> (r: Self::Elem)
        ensures
            Self::value(r) == Self::minus_value(Self::value(*a), Self::value(*b)),
    ;

    fn times(a: &Self::Elem, b: &Self::Elem) -> (r: Self::Elem)
        ensures
            Self::value(r) == Self::times_value(Self::value(*a), Self::value(*b)),
    ;

    fn neg(a: &Self::Elem) -> (r: Self::Elem)
        ensures
            Self::value(r) == Self::neg_value(Self::value(*a)),
    ;

    fn relu(a: &Self::Elem) -> (r: Self::Elem)
        ensures
            Self::value(r) == Self::relu_value(Self::value(*a)),
    ;

    fn from_int(v: i64) -> (r: Self::Elem)
        ensures
            Self::value(r) == Self::int_value(v as int),
    ;

    fn from_single(bits: u32) -> (r: Self::Elem)
        requires
            finite32(bits),
        ensures
            Self::value(r) == Self::single_value(bits),
    ;

    fn from_double(bits: u64) -> (r: Self::Elem)
        requires
            finite64(bits),
        ensures
            Self::value(r) == Self::double_value(bits),
    ;

    fn literal(v: &Rational) -> (r: Option<Self::Elem>)
        ensures
            match r {
                Some(e) => Self::literal_value(v.value()) == Some(Self::value(e)),
                None => Self::literal_value(v.value()) is None,
            },
    ;
}

/// The literal zero is the domain's zero.
pub open spec fn literal_zero<D: Domain>() -> bool {
    D::literal_value(0real) == Some(D::zero_value())
}

/// Exact rational arithmetic.
pub struct Exact;

impl Domain for Exact {
    type Elem = Rational;

    type V = real;

    open spec fn value(e: Rational) -> real {
        e.value()
    }

    open spec fn zero_value() -> real {
        0real
    }

    open spec fn plus_value(a: real, b: real) -> real {
        a + b
    }

    open spec fn minus_value(a: real, b: real) -> real {
        a - b
    }

    open spec fn times_value(a: real, b: real) -> real {
        a * b
    }

    open spec fn neg_value(a: real) -> real {
        -a
    }

    open spec fn relu_value(a: real) -> real {
        if a > 0real { a } else { 0real }
    }

    open spec fn int_value(v: int) -> real {
        v as real
    }

    open spec fn single_value(bits: u32) -> real {
        value32(bits)
    }

    open spec fn double_value(bits: u64) -> real {
        value64(bits)
    }

    open spec fn literal_value(v: real) -> Option<real> {
        Some(v)
    }

    fn zero() -> (r: Rational) {
        Rational::from_integer(0)
    }

    fn copy(a: &Rational) -> (r: Rational) {
        a.clone()
    }

    fn plus(a: &Rational, b: &Rational) -> (r: Rational) {
        a.plus(b)
    }

    fn minus(a: &Rational, b: &Rational) -> (r: Rational) {
        a.minus(b)
    }

    fn times(a: &Rational, b: &Rational) -> (r: Rational) {
        a.times(b)
    }

    fn neg(a: &Rational) -> (r: Rational) {
        a.negated()
    }

    fn relu(a: &Rational) -> (r: Rational) {
        if a.positive() {
            a.clone()
        } else {
            Rational::from_integer(0)
        }
    }

    fn from_int(v: i64) -> (r: Rational) {
        Rational::from_integer(v)
    }

    fn from_single(bits: u32) -> (r: Rational) {
        Rational::of_single(bits)
    }

    fn from_double(bits: u64) -> (r: Rational) {
        Rational::of_double(bits)
    }

    fn literal(v: &Rational) -> (r: Option<Rational>) {
        Some(v.clone())
    }
}

} // verus!

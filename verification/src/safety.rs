//! Numeric-safety classification for graph rewrites.
use vstd::prelude::*;

use crate::domain::{Domain, Exact};

verus! {

/// An algebraic or structural law that a rewrite relies on.
#[derive(Debug, Clone, Copy, PartialEq, Eq, Structural)]
pub enum Law {
    /// Only the structure changes; no arithmetic is touched.
    StructuralOnly,
    /// Integer arithmetic without overflow.
    IntegerArithmetic,
    /// Addition commutes.
    FloatAddComm,
    /// Multiplication commutes.
    FloatMulComm,
    /// One is an identity of multiplication.
    MulOneIdentity,
    /// Addition associates.
    FloatAddAssoc,
    /// Multiplication associates.
    FloatMulAssoc,
    /// Multiplication distributes over addition.
    FloatDistributive,
    /// Zero is an identity of addition.
    AddZeroIdentity,
    /// Zero annihilates under multiplication.
    MulZeroAnnihilator,
    /// The rectifier is idempotent.
    ReluIdempotent,
    /// Negation is an involution.
    NegInvolutive,
}

/// Whether a rewrite by the law keeps IEEE bits.
pub open spec fn keeps_bits(law: Law) -> bool {
    !(law == Law::FloatAddAssoc || law == Law::FloatMulAssoc || law == Law::FloatDistributive || law
        == Law::AddZeroIdentity || law == Law::MulZeroAnnihilator)
}

impl Law {
    /// Returns whether a rewrite by this law preserves IEEE bits.
    #[must_use]
    pub fn preserves_bits(&self) -> (r: bool)
        ensures
            r == keeps_bits(*self),
    {
        match self {
            Law::StructuralOnly
            | Law::IntegerArithmetic
            | Law::FloatAddComm
            | Law::FloatMulComm
            | Law::MulOneIdentity
            | Law::ReluIdempotent
            | Law::NegInvolutive => true,
            Law::FloatAddAssoc
            | Law::FloatMulAssoc
            | Law::FloatDistributive
            | Law::AddZeroIdentity
            | Law::MulZeroAnnihilator => false,
        }
    }
}

/// Numeric safety of a rewrite.
#[derive(Debug, Clone, Copy, PartialEq, Eq, Structural)]
pub enum NumericSafety {
    /// The rewrite preserves IEEE bits.
    BitExact,
    /// The rewrite is valid over the reals only.
    RealOnly,
}

/// The safety of a rewrite that relies on the given laws: bit-exact if there are any and all keep
/// bits.
pub open spec fn safety_of(laws: Seq<Law>) -> NumericSafety {
    if laws.len() > 0 && forall|i: int| 0 <= i < laws.len() ==> keeps_bits(#[trigger] laws[i]) {
        NumericSafety::BitExact
    } else {
        NumericSafety::RealOnly
    }
}

impl NumericSafety {
    /// Derives the safety of a rewrite from the laws it relies on.
    ///
    /// A rewrite that declares no law is not trusted to preserve bits.
    #[must_use]
    pub fn from_laws(laws: &[Law]) -> (r: Self)
        ensures
            r == safety_of(laws@),
    {
        if laws.len() == 0 {
            return NumericSafety::RealOnly;
        }
        let mut i: usize = 0;
        while i < laws.len()
            invariant
                i <= laws@.len(),
                laws@.len() > 0,
                forall|j: int| 0 <= j < i ==> keeps_bits(#[trigger] laws@[j]),
            decreases laws@.len() - i,
        {
            if !laws[i].preserves_bits() {
                assert(!keeps_bits(laws@[i as int]));
                return NumericSafety::RealOnly;
            }
            i += 1;
        }
        NumericSafety::BitExact
    }
}

/// Which rewrites may be applied.
#[derive(Debug, Clone, Copy, PartialEq, Eq, Structural)]
pub enum RewriteMode {
    /// Only bit-exact rewrites.
    Strict,
    /// All rewrites that are valid over the reals.
    FastMath,
}

impl RewriteMode {
    /// Whether the mode lets a rewrite of this safety be applied.
    pub open spec fn permits(self, safety: NumericSafety) -> bool {
        self == RewriteMode::FastMath || safety == NumericSafety::BitExact
    }

    /// Returns whether this mode allows a rewrite with the given safety.
    #[must_use]
    pub fn allows(&self, safety: NumericSafety) -> (r: bool)
        ensures
            r == self.permits(safety),
    {
        match self {
            RewriteMode::Strict => matches!(safety, NumericSafety::BitExact),
            RewriteMode::FastMath => true,
        }
    }
}

/// More laws never make a rewrite safer.
pub proof fn more_laws_are_no_safer(laws: Seq<Law>, more: Seq<Law>)
    requires
        laws.len() > 0,
        safety_of(laws + more) == NumericSafety::BitExact,
    ensures
        safety_of(laws) == NumericSafety::BitExact,
{
    assert forall|i: int| 0 <= i < laws.len() implies keeps_bits(#[trigger] laws[i]) by {
        assert((laws + more)[i] == laws[i]);
    }
}

/// What a law says of the scalars of a domain. Laws without an equation say nothing of them.
pub open spec fn law_holds<D: Domain>(law: Law) -> bool {
    match law {
        Law::StructuralOnly | Law::IntegerArithmetic => true,
        Law::FloatAddComm => forall|a: D::V, b: D::V|
            #[trigger] D::plus_value(a, b) == D::plus_value(b, a),
        Law::FloatMulComm => forall|a: D::V, b: D::V|
            #[trigger] D::times_value(a, b) == D::times_value(b, a),
        Law::MulOneIdentity => forall|a: D::V| #[trigger] D::times_value(a, D::int_value(1)) == a,
        Law::FloatAddAssoc => forall|a: D::V, b: D::V, c: D::V|
            #[trigger] D::plus_value(D::plus_value(a, b), c) == D::plus_value(
                a,
                D::plus_value(b, c),
            ),
        Law::FloatMulAssoc => forall|a: D::V, b: D::V, c: D::V|
            #[trigger] D::times_value(D::times_value(a, b), c) == D::times_value(
                a,
                D::times_value(b, c),
            ),
        Law::FloatDistributive => forall|a: D::V, b: D::V, c: D::V|
            #[trigger] D::times_value(a, D::plus_value(b, c)) == D::plus_value(
                D::times_value(a, b),
                D::times_value(a, c),
            ),
        Law::AddZeroIdentity => forall|a: D::V| #[trigger] D::plus_value(a, D::zero_value()) == a,
        Law::MulZeroAnnihilator => forall|a: D::V|
            #[trigger] D::times_value(a, D::zero_value()) == D::zero_value(),
        Law::ReluIdempotent => forall|a: D::V|
            #[trigger] D::relu_value(D::relu_value(a)) == D::relu_value(a),
        Law::NegInvolutive => forall|a: D::V| #[trigger] D::neg_value(D::neg_value(a)) == a,
    }
}

/// Every law holds of exact arithmetic.
pub proof fn exact_arithmetic_obeys_every_law(law: Law)
    ensures
        law_holds::<Exact>(law),
{
    match law {
        Law::FloatMulComm => {
            assert forall|a: real, b: real| #[trigger] Exact::times_value(a, b)
                == Exact::times_value(b, a) by {
                assert(a * b == b * a) by (nonlinear_arith);
            }
        },
        Law::FloatMulAssoc => {
            assert forall|a: real, b: real, c: real| #[trigger] Exact::times_value(
                Exact::times_value(a, b),
                c,
            ) == Exact::times_value(a, Exact::times_value(b, c)) by {
                assert((a * b) * c == a * (b * c)) by (nonlinear_arith);
            }
        },
        Law::FloatDistributive => {
            assert forall|a: real, b: real, c: real| #[trigger] Exact::times_value(
                a,
                Exact::plus_value(b, c),
            ) == Exact::plus_value(Exact::times_value(a, b), Exact::times_value(a, c)) by {
                assert(a * (b + c) == a * b + a * c) by (nonlinear_arith);
            }
        },
        Law::MulOneIdentity => {
            assert forall|a: real| #[trigger] Exact::times_value(a, Exact::int_value(1)) == a by {
                assert(1int as real == 1real);
                assert(a * 1real == a) by (nonlinear_arith);
            }
        },
        Law::MulZeroAnnihilator => {
            assert forall|a: real| #[trigger] Exact::times_value(a, Exact::zero_value())
                == Exact::zero_value() by {
                assert(a * 0real == 0real) by (nonlinear_arith);
            }
        },
        _ => {},
    }
}

} // verus!

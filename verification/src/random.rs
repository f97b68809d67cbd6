//! Pseudo-random draws.
use rand::rngs::StdRng;
use rand::{Rng, SeedableRng};
use vstd::prelude::*;

use crate::float::{encode, finite64, negative64, value64};
use crate::rational::two_to;

verus! {

/// The generator of the `rand` crate.
#[verifier::external_type_specification]
#[verifier::external_body]
pub struct ExStdRng(StdRng);

/// `StdRng::seed_from_u64`: a generator that is a function of the seed. What it
/// draws is not stated.
#[verifier::external_body]
pub(crate) fn seeded(seed: u64) -> (r: StdRng) {
    StdRng::seed_from_u64(seed)
}

/// `Rng::gen_range` on an inclusive range of `i64`: a number within it. It panics
/// on an empty range. Which number is drawn is not stated.
#[verifier::external_body]
pub(crate) fn draw_i64(rng: &mut StdRng, lo: i64, hi: i64) -> (r: i64)
    requires
        lo <= hi,
    ensures
        lo <= r <= hi,
{
    rng.gen_range(lo..=hi)
}

/// `Rng::gen_range` on an inclusive range of `i32`: a number within it. It panics
/// on an empty range. Which number is drawn is not stated.
#[verifier::external_body]
pub(crate) fn draw_i32(rng: &mut StdRng, lo: i32, hi: i32) -> (r: i32)
    requires
        lo <= hi,
    ensures
        lo <= r <= hi,
{
    rng.gen_range(lo..=hi)
}

/// `Rng::gen_range` on an inclusive range of `u16`: a number within it. It panics
/// on an empty range. Which number is drawn is not stated.
#[verifier::external_body]
pub(crate) fn draw_u16(rng: &mut StdRng, lo: u16, hi: u16) -> (r: u16)
    requires
        lo <= hi,
    ensures
        lo <= r <= hi,
{
    rng.gen_range(lo..=hi)
}

/// `Rng::gen_range` on an inclusive range of `usize`: a number within it. It
/// panics on an empty range. Which number is drawn is not stated.
#[verifier::external_body]
pub(crate) fn draw_usize(rng: &mut StdRng, lo: usize, hi: usize) -> (r: usize)
    requires
        lo <= hi,
    ensures
        lo <= r <= hi,
{
    rng.gen_range(lo..=hi)
}

/// `Rng::gen_ratio` with even odds: a fair coin. How it falls is not stated.
#[verifier::external_body]
pub(crate) fn draw_coin(rng: &mut StdRng) -> (r: bool) {
    rng.gen_ratio(1, 2)
}

/// `Rng::gen` of a `u64`: any number.
#[verifier::external_body]
pub(crate) fn draw_u64(rng: &mut StdRng) -> (r: u64) {
    rng.gen::<u64>()
}

/// One draw: the seed of the generator that made it, how many it had made before, the range that
/// was asked for and the number that came. Only a generator makes draws.
pub struct Draw {
    seed: u64,
    turn: nat,
    least: int,
    most: int,
    number: int,
}

impl Draw {
    /// The seed of the generator.
    pub closed spec fn seed(self) -> u64 {
        self.seed
    }

    /// The number of draws that the generator had made before.
    pub closed spec fn turn(self) -> nat {
        self.turn
    }

    /// The lower end of the range.
    pub closed spec fn least(self) -> int {
        self.least
    }

    /// The upper end of the range.
    pub closed spec fn most(self) -> int {
        self.most
    }

    /// The number that was drawn.
    pub closed spec fn number(self) -> int {
        self.number
    }

    /// The draw is from the range.
    pub open spec fn spans(self, least: int, most: int) -> bool {
        &&& self.least() == least
        &&& self.most() == most
        &&& least <= self.number() <= most
    }

    /// The draw is from the range, of a generator of the given seed.
    pub open spec fn from_range(self, seed: u64, least: int, most: int) -> bool {
        &&& self.seed() == seed
        &&& self.least() == least
        &&& self.most() == most
        &&& least <= self.number() <= most
    }
}

/// Draws an `i64` from an inclusive range of a generator whose seed is not known.
pub(crate) fn pick_from(rng: &mut StdRng, lo: i64, hi: i64) -> (r: (i64, Ghost<Draw>))
    requires
        lo <= hi,
    ensures
        r.1@.spans(lo as int, hi as int),
        r.1@.number() == r.0,
{
    let number: i64 = draw_i64(rng, lo, hi);
    let ghost draw = Draw {
        seed: arbitrary(),
        turn: arbitrary(),
        least: lo as int,
        most: hi as int,
        number: number as int,
    };
    (number, Ghost(draw))
}

/// Draws an `i32` from an inclusive range of a generator whose seed is not known.
pub(crate) fn pick_i32_from(rng: &mut StdRng, lo: i32, hi: i32) -> (r: (i32, Ghost<Draw>))
    requires
        lo <= hi,
    ensures
        r.1@.spans(lo as int, hi as int),
        r.1@.number() == r.0,
{
    let number: i32 = draw_i32(rng, lo, hi);
    let ghost draw = Draw {
        seed: arbitrary(),
        turn: arbitrary(),
        least: lo as int,
        most: hi as int,
        number: number as int,
    };
    (number, Ghost(draw))
}

/// A generator that knows its seed and counts its draws.
pub struct Generator {
    rng: StdRng,
    seed: Ghost<u64>,
    turn: Ghost<nat>,
}

impl Generator {
    /// The seed.
    pub closed spec fn seed(self) -> u64 {
        self.seed@
    }

    /// The number of draws so far.
    pub closed spec fn turn(self) -> nat {
        self.turn@
    }

    /// The generator after one more draw.
    pub open spec fn after(self, before: Generator) -> bool {
        self.seed() == before.seed() && self.turn() == before.turn() + 1
    }

    /// Creates a generator of a seed.
    pub fn new(seed: u64) -> (r: Generator)
        ensures
            r.seed() == seed,
            r.turn() == 0,
    {
        Generator { rng: seeded(seed), seed: Ghost(seed), turn: Ghost(0) }
    }

    /// Draws an `i64` from an inclusive range.
    pub(crate) fn pick_i64(&mut self, lo: i64, hi: i64) -> (r: (i64, Ghost<Draw>))
        requires
            lo <= hi,
        ensures
            final(self).after(*old(self)),
            r.1@.from_range(old(self).seed(), lo as int, hi as int),
            r.1@.turn() == old(self).turn(),
            r.1@.number() == r.0,
    {
        let number: i64 = draw_i64(&mut self.rng, lo, hi);
        let ghost draw = Draw {
            seed: self.seed@,
            turn: self.turn@,
            least: lo as int,
            most: hi as int,
            number: number as int,
        };
        self.turn = Ghost(self.turn@ + 1);
        (number, Ghost(draw))
    }

    /// Draws an `i32` from an inclusive range.
    pub(crate) fn pick_i32(&mut self, lo: i32, hi: i32) -> (r: (i32, Ghost<Draw>))
        requires
            lo <= hi,
        ensures
            final(self).after(*old(self)),
            r.1@.from_range(old(self).seed(), lo as int, hi as int),
            r.1@.turn() == old(self).turn(),
            r.1@.number() == r.0,
    {
        let number: i32 = draw_i32(&mut self.rng, lo, hi);
        let ghost draw = Draw {
            seed: self.seed@,
            turn: self.turn@,
            least: lo as int,
            most: hi as int,
            number: number as int,
        };
        self.turn = Ghost(self.turn@ + 1);
        (number, Ghost(draw))
    }

    /// Draws a `u16` from an inclusive range.
    pub(crate) fn pick_u16(&mut self, lo: u16, hi: u16) -> (r: (u16, Ghost<Draw>))
        requires
            lo <= hi,
        ensures
            final(self).after(*old(self)),
            r.1@.from_range(old(self).seed(), lo as int, hi as int),
            r.1@.turn() == old(self).turn(),
            r.1@.number() == r.0,
    {
        let number: u16 = draw_u16(&mut self.rng, lo, hi);
        let ghost draw = Draw {
            seed: self.seed@,
            turn: self.turn@,
            least: lo as int,
            most: hi as int,
            number: number as int,
        };
        self.turn = Ghost(self.turn@ + 1);
        (number, Ghost(draw))
    }

    /// Tosses a coin: one for heads, zero for tails.
    pub(crate) fn toss(&mut self) -> (r: (bool, Ghost<Draw>))
        ensures
            final(self).after(*old(self)),
            r.1@.from_range(old(self).seed(), 0, 1),
            r.1@.turn() == old(self).turn(),
            r.1@.number() == if r.0 {
                1int
            } else {
                0
            },
    {
        let heads = draw_coin(&mut self.rng);
        let ghost draw = Draw {
            seed: self.seed@,
            turn: self.turn@,
            least: 0,
            most: 1,
            number: if heads {
                1
            } else {
                0
            },
        };
        self.turn = Ghost(self.turn@ + 1);
        (heads, Ghost(draw))
    }
}

/// The number `m * 2^e`, or its negative.
pub open spec fn signed_dyadic(negative: bool, m: int, e: int) -> real {
    (if negative { -m } else { m }) as real * two_to(e)
}

/// A double that is zero of either sign, or `m * 2^e` for small integers.
pub open spec fn sensitive(bits: u64, most: int) -> bool {
    finite64(bits) && exists|m: int, e: int|
        0 <= m <= most && -4 <= e <= 4 && value64(bits) == #[trigger] signed_dyadic(
            negative64(bits),
            m,
            e,
        )
}

/// Returns the bits of `m * 2^e` with the given sign.
pub(crate) fn small_double(m: u64, e: i64, negative: bool, Ghost(most): Ghost<int>) -> (r: u64)
    requires
        m <= most <= 1024,
        -4 <= e <= 4,
    ensures
        sensitive(r, most),
        finite64(r),
        negative64(r) == negative,
        value64(r) == signed_dyadic(negative, m as int, e as int),
{
    let bits: u64 = encode(m, e, negative);
    proof {
        assert(value64(bits) == signed_dyadic(negative64(bits), m as int, e as int));
    }
    bits
}

} // verus!

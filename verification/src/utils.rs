//! Angles and the source of random numbers.

use crate::scalar::Scalar;
use crate::scalar::MAX_RAW;
use crate::scalar::ONE_RAW;
use vstd::prelude::*;

verus! {

/// The raw value of the circle constant, rounded to the nearest multiple of `2^-32`.
pub const PI_RAW: i64 = 13493037705;

/// The multiplier of the seeded generator.
pub const LCG_MUL: u64 = 6364136223846793005;

/// The increment of the seeded generator.
pub const LCG_INC: u64 = 1442695040888963407;

/// Where the renderer takes its uniform random numbers from.
///
/// `Thread` asks the thread-local generator of the `rand` crate for every
/// draw, so nothing is known of a draw but its range, and of a result that
/// rests on draws only what holds for every draw. `Fixed` returns the same fraction
/// `bits / 2^32` on every draw. `Seeded` is a linear congruential generator
/// whose whole stream is fixed by its state.
#[derive(Clone, Copy, Debug)]
pub enum RandomSource {
    Thread,
    Fixed(u32),
    Seeded(u64),
}

/// The state that follows `state` in the seeded generator.
pub open spec fn lcg_step(state: u64) -> u64 {
    ((state * LCG_MUL + LCG_INC) % 0x1_0000_0000_0000_0000) as u64
}

/// `rand::random::<u32>()`: 32 bits from the thread-local generator of the
/// `rand` crate. Nothing is claimed of the bits. The generator seeds itself
/// from the operating system on its first use in a thread, and panics where
/// the system has no entropy to give.
#[verifier::external_body]
fn thread_bits() -> (bits: u32) {
    rand::random::<u32>()
}

impl RandomSource {
    /// Whether every draw is a function of the source's state.
    pub open spec fn deterministic(self) -> bool {
        !(self is Thread)
    }

    /// The source after one draw.
    pub open spec fn advance(self) -> RandomSource {
        match self {
            RandomSource::Thread => RandomSource::Thread,
            RandomSource::Fixed(bits) => RandomSource::Fixed(bits),
            RandomSource::Seeded(state) => RandomSource::Seeded(lcg_step(state)),
        }
    }

    /// The next draw of a deterministic source.
    pub open spec fn peek(self) -> Scalar {
        match self {
            RandomSource::Thread => Scalar { raw: 0 },
            RandomSource::Fixed(bits) => Scalar { raw: bits as i64 },
            RandomSource::Seeded(state) => Scalar {
                raw: (lcg_step(state) / 0x1_0000_0000) as i64,
            },
        }
    }

    /// Draws a number in `[0, 1)`.
    pub fn next(&mut self) -> (r: Scalar)
        ensures
            0 <= r@ < ONE_RAW,
            old(self).deterministic() ==> r == old(self).peek(),
            *final(self) == old(self).advance(),
    {
        match *self {
            RandomSource::Thread => Scalar { raw: thread_bits() as i64 },
            RandomSource::Fixed(bits) => Scalar { raw: bits as i64 },
            RandomSource::Seeded(state) => {
                assert(state * LCG_MUL <= 0xffff_ffff_ffff_ffff * 0xffff_ffff_ffff_ffff)
                    by (nonlinear_arith)
                    requires
                        state <= 0xffff_ffff_ffff_ffff,
                        LCG_MUL <= 0xffff_ffff_ffff_ffff,
                ;
                let wide: u128 = (state as u128) * (LCG_MUL as u128) + (LCG_INC as u128);
                let following: u64 = (wide % 0x1_0000_0000_0000_0000u128) as u64;
                *self = RandomSource::Seeded(following);
                Scalar { raw: (following / 0x1_0000_0000u64) as i64 }
            },
        }
    }
}

/// The angle in radians: `degrees * pi / 180`.
pub open spec fn degrees_to_radians_spec(degrees: Scalar) -> Scalar {
    degrees.mul_spec(Scalar { raw: PI_RAW }).div_spec(Scalar::int_spec(180))
}

pub fn degrees_to_radians(degrees: Scalar) -> (r: Scalar)
    ensures
        r == degrees_to_radians_spec(degrees),
{
    degrees.mul(Scalar::from_raw(PI_RAW)).div(Scalar::from_int(180))
}

/// A random number in `[0, 1)`.
pub fn random_double(rng: &mut RandomSource) -> (r: Scalar)
    ensures
        0 <= r@ < ONE_RAW,
        old(rng).deterministic() ==> r == old(rng).peek(),
        *final(rng) == old(rng).advance(),
{
    rng.next()
}

/// The number that `random_double_from` makes of the draw `u`.
pub open spec fn stretch(min: Scalar, max: Scalar, u: Scalar) -> Scalar {
    min.add_spec(max.sub_spec(min).mul_spec(u))
}

/// A draw stretched to a range that is not empty lies in the range, and
/// below its upper end.
pub proof fn lemma_stretch_range(min: Scalar, max: Scalar, u: Scalar)
    requires
        0 <= u@ < ONE_RAW,
        min@ < max@,
        max@ - min@ <= MAX_RAW,
    ensures
        min@ <= stretch(min, max, u)@ < max@,
{
    let w = max@ - min@;
    assert(0 <= w * u@ < w * ONE_RAW) by (nonlinear_arith)
        requires
            0 <= u@ < ONE_RAW,
            w > 0,
    ;
    vstd::arithmetic::div_mod::lemma_fundamental_div_mod(w * u@, ONE_RAW as int);
    vstd::arithmetic::div_mod::lemma_div_pos_is_pos(w * u@, ONE_RAW as int);
}

/// A random number in `[min, max)`: `min + (max - min) * u` for a draw `u`.
pub fn random_double_from(min: Scalar, max: Scalar, rng: &mut RandomSource) -> (r: Scalar)
    ensures
        exists|u: Scalar| 0 <= u@ < ONE_RAW && r == #[trigger] stretch(min, max, u),
        min@ < max@ && max@ - min@ <= MAX_RAW ==> min@ <= r@ < max@,
        old(rng).deterministic() ==> r == stretch(min, max, old(rng).peek()),
        *final(rng) == old(rng).advance(),
{
    let u = random_double(rng);
    let r = min.add(max.sub(min).mul(u));
    assert(r == stretch(min, max, u));
    proof {
        if min@ < max@ && max@ - min@ <= MAX_RAW {
            lemma_stretch_range(min, max, u);
        }
    }
    r
}

} // verus!

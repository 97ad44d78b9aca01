//! Vectors of three fixed-point numbers, used as points, directions and colors.

use crate::scalar::is_isqrt;
use crate::scalar::Scalar;
use crate::scalar::ONE_RAW;
use crate::utils::random_double;
use crate::utils::random_double_from;
use crate::utils::stretch;
use crate::utils::RandomSource;
use vstd::prelude::*;

verus! {

#[derive(Clone, Copy, Debug, PartialEq, Eq, Structural)]
pub struct Vec3 {
    pub x: Scalar,
    pub y: Scalar,
    pub z: Scalar,
}

/// A point in space.
pub type Point3 = Vec3;

/// Whether `u` can be a draw of the random source: a number in `[0, 1)`.
pub open spec fn is_draw(u: Scalar) -> bool {
    0 <= u@ < ONE_RAW
}

/// The vector that `random_in` makes of the draws `a`, `b` and `c`.
pub open spec fn stretched(min: Scalar, max: Scalar, a: Scalar, b: Scalar, c: Scalar) -> Vec3 {
    Vec3 { x: stretch(min, max, a), y: stretch(min, max, b), z: stretch(min, max, c) }
}

/// How often a random point is drawn before a sampler gives up.
pub const SAMPLE_TRIES: u32 = 64;

/// A square is never negative.
pub proof fn lemma_square_nonnegative(a: Scalar)
    ensures
        a.mul_spec(a)@ >= 0,
{
    assert(a@ * a@ >= 0) by (nonlinear_arith);
}

/// Three draws in a row, as the coordinates of a vector, and the source after them.
pub open spec fn random_spec(rng: RandomSource) -> (Vec3, RandomSource) {
    let r1 = rng.advance();
    let r2 = r1.advance();
    (Vec3 { x: rng.peek(), y: r1.peek(), z: r2.peek() }, r2.advance())
}

/// Three draws in a row, each stretched to `[min, max)`, and the source after them.
pub open spec fn random_in_spec(min: Scalar, max: Scalar, rng: RandomSource) -> (
    Vec3,
    RandomSource,
) {
    let r1 = rng.advance();
    let r2 = r1.advance();
    (
        Vec3 {
            x: stretch(min, max, rng.peek()),
            y: stretch(min, max, r1.peek()),
            z: stretch(min, max, r2.peek()),
        },
        r2.advance(),
    )
}

/// Whether `p` is a point of the unit disk in the plane `z = 0`.
pub open spec fn in_unit_disk(p: Vec3) -> bool {
    p.dot_square_spec()@ < ONE_RAW && p.z@ == 0
}

/// Whether the rejection sampler of the unit sphere keeps the point `p`.
pub open spec fn inside_unit_sphere(p: Vec3) -> bool {
    0 < p.dot_square_spec()@ < ONE_RAW
}

/// The unit vector that the rejection sampler returns with `tries` draws left,
/// and the source after it: the first point kept, scaled to length one, or the
/// first axis when every point was rejected.
pub open spec fn random_unit_spec(rng: RandomSource, tries: nat) -> (Vec3, RandomSource)
    decreases tries,
{
    if tries == 0 {
        (Vec3::axis_spec(), rng)
    } else {
        let (p, following) = random_in_spec(Scalar::int_spec(-1), Scalar::int_spec(1), rng);
        if inside_unit_sphere(p) {
            (p.unit_spec(), following)
        } else {
            random_unit_spec(following, (tries - 1) as nat)
        }
    }
}

/// The vector `u` or its opposite, whichever lies on the side of `normal`.
pub open spec fn toward(u: Vec3, normal: Vec3) -> Vec3 {
    if u.dot_spec(normal)@ > 0 {
        u
    } else {
        u.neg_spec()
    }
}

/// Two draws in a row, each stretched to `[-1, 1)`, as a point of the plane `z = 0`.
pub open spec fn random_planar_spec(rng: RandomSource) -> (Vec3, RandomSource) {
    let r1 = rng.advance();
    (
        Vec3 {
            x: stretch(Scalar::int_spec(-1), Scalar::int_spec(1), rng.peek()),
            y: stretch(Scalar::int_spec(-1), Scalar::int_spec(1), r1.peek()),
            z: Scalar { raw: 0 },
        },
        r1.advance(),
    )
}

/// The point of the unit disk that the rejection sampler returns with `tries`
/// draws left: the first point kept, or the center when every point was rejected.
pub open spec fn random_in_unit_disk_spec(rng: RandomSource, tries: nat) -> (Vec3, RandomSource)
    decreases tries,
{
    if tries == 0 {
        (Vec3::zero_spec(), rng)
    } else {
        let (p, following) = random_planar_spec(rng);
        if p.dot_square_spec()@ < ONE_RAW {
            (p, following)
        } else {
            random_in_unit_disk_spec(following, (tries - 1) as nat)
        }
    }
}

impl Vec3 {
    pub open spec fn zero_spec() -> Vec3 {
        Vec3 { x: Scalar { raw: 0 }, y: Scalar { raw: 0 }, z: Scalar { raw: 0 } }
    }

    /// The unit vector along the first axis.
    pub open spec fn axis_spec() -> Vec3 {
        Vec3 { x: Scalar { raw: ONE_RAW }, y: Scalar { raw: 0 }, z: Scalar { raw: 0 } }
    }

    pub open spec fn add_spec(self, rhs: Vec3) -> Vec3 {
        Vec3 {
            x: self.x.add_spec(rhs.x),
            y: self.y.add_spec(rhs.y),
            z: self.z.add_spec(rhs.z),
        }
    }

    pub open spec fn sub_spec(self, rhs: Vec3) -> Vec3 {
        Vec3 {
            x: self.x.sub_spec(rhs.x),
            y: self.y.sub_spec(rhs.y),
            z: self.z.sub_spec(rhs.z),
        }
    }

    pub open spec fn neg_spec(self) -> Vec3 {
        Vec3 { x: self.x.neg_spec(), y: self.y.neg_spec(), z: self.z.neg_spec() }
    }

    /// Every coordinate times `t`.
    pub open spec fn mul_spec(self, t: Scalar) -> Vec3 {
        Vec3 { x: self.x.mul_spec(t), y: self.y.mul_spec(t), z: self.z.mul_spec(t) }
    }

    /// Every coordinate divided by `t`.
    pub open spec fn div_spec(self, t: Scalar) -> Vec3 {
        Vec3 { x: self.x.div_spec(t), y: self.y.div_spec(t), z: self.z.div_spec(t) }
    }

    /// The product coordinate by coordinate, as of a color and an attenuation.
    pub open spec fn hadamard_spec(self, rhs: Vec3) -> Vec3 {
        Vec3 {
            x: self.x.mul_spec(rhs.x),
            y: self.y.mul_spec(rhs.y),
            z: self.z.mul_spec(rhs.z),
        }
    }

    pub open spec fn dot_spec(self, rhs: Vec3) -> Scalar {
        self.x.mul_spec(rhs.x).add_spec(self.y.mul_spec(rhs.y)).add_spec(self.z.mul_spec(rhs.z))
    }

    /// The squared length.
    pub open spec fn dot_square_spec(self) -> Scalar {
        self.dot_spec(self)
    }

    pub open spec fn length_spec(self) -> Scalar {
        self.dot_square_spec().sqrt_spec()
    }

    pub open spec fn cross_spec(self, rhs: Vec3) -> Vec3 {
        Vec3 {
            x: self.y.mul_spec(rhs.z).sub_spec(self.z.mul_spec(rhs.y)),
            y: self.x.mul_spec(rhs.z).sub_spec(self.z.mul_spec(rhs.x)).neg_spec(),
            z: self.x.mul_spec(rhs.y).sub_spec(self.y.mul_spec(rhs.x)),
        }
    }

    /// The vector divided by its length.
    pub open spec fn unit_spec(self) -> Vec3 {
        self.div_spec(self.length_spec())
    }

    /// A squared length is never negative.
    pub proof fn lemma_dot_square_nonnegative(self)
        ensures
            self.dot_square_spec()@ >= 0,
    {
        lemma_square_nonnegative(self.x);
        lemma_square_nonnegative(self.y);
        lemma_square_nonnegative(self.z);
    }

    pub fn zero() -> (r: Vec3)
        ensures
            r == Vec3::zero_spec(),
    {
        Vec3 { x: Scalar::zero(), y: Scalar::zero(), z: Scalar::zero() }
    }

    pub fn same(v: Scalar) -> (r: Vec3)
        ensures
            r == (Vec3 { x: v, y: v, z: v }),
    {
        Vec3 { x: v, y: v, z: v }
    }

    pub fn new(x: Scalar, y: Scalar, z: Scalar) -> (r: Vec3)
        ensures
            r == (Vec3 { x, y, z }),
    {
        Vec3 { x, y, z }
    }

    /// A vector of three random numbers in `[0, 1)`.
    pub fn random(rng: &mut RandomSource) -> (r: Vec3)
        ensures
            0 <= r.x@ < ONE_RAW,
            0 <= r.y@ < ONE_RAW,
            0 <= r.z@ < ONE_RAW,
            old(rng).deterministic() ==> r == random_spec(*old(rng)).0,
            *final(rng) == random_spec(*old(rng)).1,
    {
        let x = random_double(rng);
        let y = random_double(rng);
        let z = random_double(rng);
        Vec3 { x, y, z }
    }

    /// A vector of three random numbers in `[min, max)`.
    pub fn random_in(min: Scalar, max: Scalar, rng: &mut RandomSource) -> (r: Vec3)
        ensures
            exists|a: Scalar, b: Scalar, c: Scalar|
                is_draw(a) && is_draw(b) && is_draw(c) && r == #[trigger] stretched(
                    min,
                    max,
                    a,
                    b,
                    c,
                ),
            old(rng).deterministic() ==> r == random_in_spec(min, max, *old(rng)).0,
            *final(rng) == random_in_spec(min, max, *old(rng)).1,
    {
        let x = random_double_from(min, max, rng);
        let y = random_double_from(min, max, rng);
        let z = random_double_from(min, max, rng);
        proof {
            let a = choose|u: Scalar| 0 <= u@ < ONE_RAW && x == #[trigger] stretch(min, max, u);
            let b = choose|u: Scalar| 0 <= u@ < ONE_RAW && y == #[trigger] stretch(min, max, u);
            let c = choose|u: Scalar| 0 <= u@ < ONE_RAW && z == #[trigger] stretch(min, max, u);
            assert(is_draw(a) && is_draw(b) && is_draw(c));
            assert((Vec3 { x, y, z }) == stretched(min, max, a, b, c));
        }
        Vec3 { x, y, z }
    }

    /// A random direction: points of the cube `[-1, 1)^3` are drawn until one
    /// lies inside the unit sphere and away from its center, and that one is
    /// scaled to length one. After `SAMPLE_TRIES` rejections the first axis is
    /// returned.
    pub fn random_unit(rng: &mut RandomSource) -> (r: Vec3)
        ensures
            r == Vec3::axis_spec() || exists|p: Vec3|
                inside_unit_sphere(p) && r == #[trigger] p.unit_spec(),
            old(rng).deterministic() ==> r == random_unit_spec(
                *old(rng),
                SAMPLE_TRIES as nat,
            ).0,
            old(rng).deterministic() ==> *final(rng) == random_unit_spec(
                *old(rng),
                SAMPLE_TRIES as nat,
            ).1,
            final(rng).deterministic() == old(rng).deterministic(),
    {
        let mut left: u32 = SAMPLE_TRIES;
        while left > 0
            invariant
                rng.deterministic() == old(rng).deterministic(),
                rng.deterministic() ==> random_unit_spec(*rng, left as nat) == random_unit_spec(
                    *old(rng),
                    SAMPLE_TRIES as nat,
                ),
            decreases left,
        {
            let p = Vec3::random_in(Scalar::from_int(-1), Scalar::from_int(1), rng);
            let d = p.dot_square();
            if 0 < d.raw && d.raw < ONE_RAW {
                let u = p.unit();
                assert(inside_unit_sphere(p));
                return u;
            }
            left = left - 1;
        }
        Vec3 { x: Scalar::one(), y: Scalar::zero(), z: Scalar::zero() }
    }

    /// A random direction on the side of `normal`.
    pub fn random_on_hemi(normal: &Vec3, rng: &mut RandomSource) -> (r: Vec3)
        ensures
            exists|u: Vec3| r == #[trigger] toward(u, *normal),
            old(rng).deterministic() ==> r == toward(
                random_unit_spec(*old(rng), SAMPLE_TRIES as nat).0,
                *normal,
            ),
            old(rng).deterministic() ==> *final(rng) == random_unit_spec(
                *old(rng),
                SAMPLE_TRIES as nat,
            ).1,
            final(rng).deterministic() == old(rng).deterministic(),
    {
        let u = Vec3::random_unit(rng);
        let r = if u.dot(normal).raw > 0 {
            u
        } else {
            u.neg()
        };
        assert(r == toward(u, *normal));
        r
    }

    /// A random point of the unit disk in the plane `z = 0`: points of the
    /// square `[-1, 1)^2` are drawn until one lies inside the disk. After
    /// `SAMPLE_TRIES` rejections the center is returned.
    pub fn random_in_unit_disk(rng: &mut RandomSource) -> (r: Vec3)
        ensures
            in_unit_disk(r),
            old(rng).deterministic() ==> r == random_in_unit_disk_spec(
                *old(rng),
                SAMPLE_TRIES as nat,
            ).0,
            old(rng).deterministic() ==> *final(rng) == random_in_unit_disk_spec(
                *old(rng),
                SAMPLE_TRIES as nat,
            ).1,
            final(rng).deterministic() == old(rng).deterministic(),
    {
        let mut left: u32 = SAMPLE_TRIES;
        while left > 0
            invariant
                rng.deterministic() == old(rng).deterministic(),
                rng.deterministic() ==> random_in_unit_disk_spec(*rng, left as nat)
                    == random_in_unit_disk_spec(*old(rng), SAMPLE_TRIES as nat),
            decreases left,
        {
            let x = random_double_from(Scalar::from_int(-1), Scalar::from_int(1), rng);
            let y = random_double_from(Scalar::from_int(-1), Scalar::from_int(1), rng);
            let p = Vec3 { x, y, z: Scalar::zero() };
            if p.dot_square().raw < ONE_RAW {
                return p;
            }
            left = left - 1;
        }
        let center = Vec3::zero();
        assert(center.dot_square_spec()@ == 0);
        center
    }

    pub fn x(&self) -> (r: Scalar)
        ensures
            r == self.x,
    {
        self.x
    }

    pub fn y(&self) -> (r: Scalar)
        ensures
            r == self.y,
    {
        self.y
    }

    pub fn z(&self) -> (r: Scalar)
        ensures
            r == self.z,
    {
        self.z
    }

    pub fn length(&self) -> (r: Scalar)
        ensures
            r == self.length_spec(),
            is_isqrt(self.dot_square_spec()@ * ONE_RAW, r@),
    {
        proof {
            self.lemma_dot_square_nonnegative();
        }
        self.dot_square().sqrt()
    }

    pub fn dot(&self, rhs: &Vec3) -> (r: Scalar)
        ensures
            r == self.dot_spec(*rhs),
    {
        self.x.mul(rhs.x).add(self.y.mul(rhs.y)).add(self.z.mul(rhs.z))
    }

    pub fn dot_square(&self) -> (r: Scalar)
        ensures
            r == self.dot_square_spec(),
    {
        self.dot(self)
    }

    pub fn cross(&self, rhs: &Vec3) -> (r: Vec3)
        ensures
            r == self.cross_spec(*rhs),
    {
        Vec3 {
            x: self.y.mul(rhs.z).sub(self.z.mul(rhs.y)),
            y: self.x.mul(rhs.z).sub(self.z.mul(rhs.x)).neg(),
            z: self.x.mul(rhs.y).sub(self.y.mul(rhs.x)),
        }
    }

    /// The vector scaled to length one. The squared length must not be zero.
    pub fn unit(&self) -> (r: Vec3)
        requires
            self.dot_square_spec()@ > 0,
        ensures
            r == self.unit_spec(),
    {
        let len = self.length();
        assert(len@ > 0) by {
            lemma_positive_root(self.dot_square_spec()@ * ONE_RAW, len@);
        }
        self.div(len)
    }

    pub fn add(self, rhs: Vec3) -> (r: Vec3)
        ensures
            r == self.add_spec(rhs),
    {
        Vec3 { x: self.x.add(rhs.x), y: self.y.add(rhs.y), z: self.z.add(rhs.z) }
    }

    pub fn add_assign(&mut self, rhs: Vec3)
        ensures
            *final(self) == old(self).add_spec(rhs),
    {
        *self = self.add(rhs);
    }

    pub fn sub(self, rhs: Vec3) -> (r: Vec3)
        ensures
            r == self.sub_spec(rhs),
    {
        Vec3 { x: self.x.sub(rhs.x), y: self.y.sub(rhs.y), z: self.z.sub(rhs.z) }
    }

    pub fn neg(self) -> (r: Vec3)
        ensures
            r == self.neg_spec(),
    {
        Vec3 { x: self.x.neg(), y: self.y.neg(), z: self.z.neg() }
    }

    pub fn mul(self, t: Scalar) -> (r: Vec3)
        ensures
            r == self.mul_spec(t),
    {
        Vec3 { x: self.x.mul(t), y: self.y.mul(t), z: self.z.mul(t) }
    }

    pub fn div(self, t: Scalar) -> (r: Vec3)
        requires
            t@ != 0,
        ensures
            r == self.div_spec(t),
    {
        Vec3 { x: self.x.div(t), y: self.y.div(t), z: self.z.div(t) }
    }

    pub fn hadamard(self, rhs: Vec3) -> (r: Vec3)
        ensures
            r == self.hadamard_spec(rhs),
    {
        Vec3 { x: self.x.mul(rhs.x), y: self.y.mul(rhs.y), z: self.z.mul(rhs.z) }
    }
}

/// The integer square root of a positive number is positive.
pub proof fn lemma_positive_root(n: int, r: int)
    requires
        n > 0,
        is_isqrt(n, r),
    ensures
        r > 0,
{
    if r == 0 {
        assert((r + 1) * (r + 1) == 1) by (nonlinear_arith)
            requires
                r == 0,
        ;
    }
}

} // verus!

//! How surfaces scatter light: diffuse, mirror-like and glass-like materials.

use crate::hittable::HitRecord;
use crate::ray::Ray;
use crate::scalar::lemma_mul_fraction;
use crate::scalar::lemma_mul_one;
use crate::scalar::lemma_sqrt_at_most_one;
use crate::scalar::Scalar;
use crate::scalar::ONE_RAW;
use crate::utils::RandomSource;
use crate::vec3::lemma_square_nonnegative;
use crate::vec3::random_unit_spec;
use crate::vec3::Vec3;
use crate::vec3::SAMPLE_TRIES;
use vstd::prelude::*;

verus! {

/// What a material makes of an incoming ray: the share of light that it passes
/// on, channel by channel, and the ray that carries it.
#[derive(Clone, Copy, Debug, PartialEq, Eq, Structural)]
pub struct Scatter {
    pub attenuation: Vec3,
    pub scattered: Ray,
}

/// The mirror image of `v` at a surface with normal `n`: `v - 2 (v . n) n`.
pub open spec fn reflect_spec(v: Vec3, n: Vec3) -> Vec3 {
    v.sub_spec(n.mul_spec(Scalar::int_spec(2).mul_spec(v.dot_spec(n))))
}

/// The cosine of the angle between the reversed unit direction `uv` and the
/// normal `n`, capped at one.
pub open spec fn cos_theta_spec(uv: Vec3, n: Vec3) -> Scalar {
    uv.neg_spec().dot_spec(n).min_spec(Scalar::int_spec(1))
}

/// The part of the refracted direction that runs along the surface.
pub open spec fn refract_perp_spec(uv: Vec3, n: Vec3, ratio: Scalar) -> Vec3 {
    uv.add_spec(n.mul_spec(cos_theta_spec(uv, n))).mul_spec(ratio)
}

/// The length of the part of the refracted direction that runs against the normal.
pub open spec fn refract_depth_spec(uv: Vec3, n: Vec3, ratio: Scalar) -> Scalar {
    Scalar::int_spec(1).sub_spec(
        refract_perp_spec(uv, n, ratio).dot_square_spec(),
    ).abs_spec().sqrt_spec()
}

/// The direction of the unit vector `uv` after it passes a surface with normal
/// `n`, by Snell's law with the ratio `ratio` of the refractive indices.
pub open spec fn refract_spec(uv: Vec3, n: Vec3, ratio: Scalar) -> Vec3 {
    refract_perp_spec(uv, n, ratio).add_spec(
        n.mul_spec(refract_depth_spec(uv, n, ratio).neg_spec()),
    )
}

/// The fifth power.
pub open spec fn pow5_spec(x: Scalar) -> Scalar {
    x.mul_spec(x).mul_spec(x.mul_spec(x)).mul_spec(x)
}

/// Schlick's approximation of the share of light that glass reflects.
pub open spec fn reflectance_spec(cosine: Scalar, ratio: Scalar) -> Scalar {
    let one = Scalar::int_spec(1);
    let root = one.sub_spec(ratio).div_spec(one.add_spec(ratio));
    let r0 = root.mul_spec(root);
    r0.add_spec(one.sub_spec(r0).mul_spec(pow5_spec(one.sub_spec(cosine))))
}

/// The sine that belongs to the cosine `cosine`; zero where rounding has
/// taken the cosine's square above one.
pub open spec fn sin_theta_spec(cosine: Scalar) -> Scalar {
    let rest = Scalar::int_spec(1).sub_spec(cosine.mul_spec(cosine));
    if rest@ >= 0 {
        rest.sqrt_spec()
    } else {
        Scalar { raw: 0 }
    }
}

/// The direction of diffuse scattering for the random unit vector `u`: the
/// normal plus `u`, or the normal alone where that sum has no length.
pub open spec fn lambert_direction(normal: Vec3, u: Vec3) -> Vec3 {
    let d = normal.add_spec(u);
    if d.dot_square_spec()@ == 0 {
        normal
    } else {
        d
    }
}

pub fn reflect(v: Vec3, n: Vec3) -> (r: Vec3)
    ensures
        r == reflect_spec(v, n),
{
    v.sub(n.mul(Scalar::from_int(2).mul(v.dot(&n))))
}

pub fn refract(uv: Vec3, n: Vec3, ratio: Scalar) -> (r: Vec3)
    ensures
        r == refract_spec(uv, n, ratio),
{
    let cos_theta = uv.neg().dot(&n).min(Scalar::from_int(1));
    let perp = uv.add(n.mul(cos_theta)).mul(ratio);
    let rest = Scalar::from_int(1).sub(perp.dot_square()).abs();
    assert(rest@ >= 0);
    let depth = rest.sqrt();
    perp.add(n.mul(depth.neg()))
}

pub fn reflectance(cosine: Scalar, ratio: Scalar) -> (r: Scalar)
    requires
        Scalar::int_spec(1).add_spec(ratio)@ != 0,
    ensures
        r == reflectance_spec(cosine, ratio),
{
    let one = Scalar::from_int(1);
    let root = one.sub(ratio).div(one.add(ratio));
    let r0 = root.mul(root);
    let x = one.sub(cosine);
    let x5 = x.mul(x).mul(x.mul(x)).mul(x);
    r0.add(one.sub(r0).mul(x5))
}

/// The contract of materials.
pub trait Material {
    /// Whether the material's parameters allow scattering to be computed.
    spec fn wf(&self) -> bool;

    /// What the material makes of the ray `r_in` at the hit `rec` when its
    /// random numbers come from the deterministic source `rng`, and the source
    /// after that. `None` stands for a ray that is absorbed.
    spec fn scatter_spec(&self, r_in: Ray, rec: HitRecord, rng: RandomSource) -> (
        Option<Scatter>,
        RandomSource,
    );

    fn scatter(&self, r_in: &Ray, rec: &HitRecord, rng: &mut RandomSource) -> (res: Option<
        Scatter,
    >)
        requires
            self.wf(),
            r_in.directed(),
        ensures
            old(rng).deterministic() ==> res == self.scatter_spec(*r_in, *rec, *old(rng)).0,
            old(rng).deterministic() ==> *final(rng) == self.scatter_spec(
                *r_in,
                *rec,
                *old(rng),
            ).1,
            final(rng).deterministic() == old(rng).deterministic(),
    ;
}

/// The material that absorbs every ray.
#[derive(Clone, Copy, Debug, PartialEq, Eq, Structural)]
pub struct DefaultMaterial {}

impl DefaultMaterial {
    pub fn new() -> (r: DefaultMaterial)
        ensures
            r == (DefaultMaterial {  }),
    {
        DefaultMaterial {  }
    }
}

impl Material for DefaultMaterial {
    open spec fn wf(&self) -> bool {
        true
    }

    open spec fn scatter_spec(&self, r_in: Ray, rec: HitRecord, rng: RandomSource) -> (
        Option<Scatter>,
        RandomSource,
    ) {
        (None, rng)
    }

    fn scatter(&self, r_in: &Ray, rec: &HitRecord, rng: &mut RandomSource) -> (res: Option<
        Scatter,
    >)
        ensures
            res is None,
            *final(rng) == *old(rng),
    {
        None
    }
}

/// A diffuse material.
#[derive(Clone, Copy, Debug, PartialEq, Eq, Structural)]
pub struct Lambertian {
    pub albedo: Vec3,
}

impl Lambertian {
    /// What the material makes of the hit `rec` for the random unit vector `u`.
    pub open spec fn outcome(self, rec: HitRecord, u: Vec3) -> Scatter {
        Scatter {
            attenuation: self.albedo,
            scattered: Ray { origin: rec.p, direction: lambert_direction(rec.normal, u) },
        }
    }

    pub fn new(albedo: Vec3) -> (r: Lambertian)
        ensures
            r == (Lambertian { albedo }),
    {
        Lambertian { albedo }
    }

    /// Scatters along the normal plus `u`.
    pub fn scatter_along(&self, rec: &HitRecord, u: Vec3) -> (res: Scatter)
        ensures
            res == self.outcome(*rec, u),
    {
        let mut direction = rec.normal.add(u);
        if direction.dot_square().raw == 0 {
            direction = rec.normal;
        }
        Scatter { attenuation: self.albedo, scattered: Ray::new(rec.p, direction) }
    }
}

impl Material for Lambertian {
    open spec fn wf(&self) -> bool {
        true
    }

    open spec fn scatter_spec(&self, r_in: Ray, rec: HitRecord, rng: RandomSource) -> (
        Option<Scatter>,
        RandomSource,
    ) {
        let (u, following) = random_unit_spec(rng, SAMPLE_TRIES as nat);
        (Some(self.outcome(rec, u)), following)
    }

    fn scatter(&self, r_in: &Ray, rec: &HitRecord, rng: &mut RandomSource) -> (res: Option<
        Scatter,
    >)
        ensures
            exists|u: Vec3| res == Some(#[trigger] self.outcome(*rec, u)),
            res matches Some(s) && s.attenuation == self.albedo && s.scattered.origin == rec.p,
    {
        let u = Vec3::random_unit(rng);
        let s = self.scatter_along(rec, u);
        assert(s == self.outcome(*rec, u));
        Some(s)
    }
}

/// A mirror-like material; `fuzz` in `[0, 1]` blurs the mirror image.
#[derive(Clone, Copy, Debug, PartialEq, Eq, Structural)]
pub struct Metal {
    pub albedo: Vec3,
    pub fuzz: Scalar,
}

impl Metal {
    /// The direction in which the ray `r_in` leaves for the random unit vector `u`.
    pub open spec fn direction(self, r_in: Ray, rec: HitRecord, u: Vec3) -> Vec3 {
        reflect_spec(r_in.direction.unit_spec(), rec.normal).add_spec(u.mul_spec(self.fuzz))
    }

    /// What the material makes of the ray `r_in` for the random unit vector
    /// `u`: the blurred mirror image, or nothing where that points into the
    /// surface.
    pub open spec fn outcome(self, r_in: Ray, rec: HitRecord, u: Vec3) -> Option<Scatter> {
        let direction = self.direction(r_in, rec, u);
        if direction.dot_spec(rec.normal)@ > 0 {
            Some(Scatter { attenuation: self.albedo, scattered: Ray { origin: rec.p, direction } })
        } else {
            None
        }
    }

    /// A metal with `fuzz` brought into `[0, 1]`.
    pub fn new(albedo: Vec3, fuzz: Scalar) -> (r: Metal)
        ensures
            r.albedo == albedo,
            0 <= r.fuzz@ <= ONE_RAW,
            0 <= fuzz@ <= ONE_RAW ==> r.fuzz == fuzz,
            fuzz@ < 0 ==> r.fuzz@ == 0,
            fuzz@ > ONE_RAW ==> r.fuzz@ == ONE_RAW,
    {
        let fuzz = if fuzz.raw < 0 {
            Scalar::zero()
        } else if fuzz.raw > ONE_RAW {
            Scalar::one()
        } else {
            fuzz
        };
        Metal { albedo, fuzz }
    }

    /// Reflects the ray and blurs the mirror image by `fuzz * u`.
    pub fn scatter_along(&self, r_in: &Ray, rec: &HitRecord, u: Vec3) -> (res: Option<Scatter>)
        requires
            r_in.directed(),
        ensures
            res == self.outcome(*r_in, *rec, u),
    {
        let reflected = reflect(r_in.direction.unit(), rec.normal);
        let direction = reflected.add(u.mul(self.fuzz));
        if direction.dot(&rec.normal).raw > 0 {
            Some(Scatter { attenuation: self.albedo, scattered: Ray::new(rec.p, direction) })
        } else {
            None
        }
    }
}

impl Material for Metal {
    open spec fn wf(&self) -> bool {
        true
    }

    open spec fn scatter_spec(&self, r_in: Ray, rec: HitRecord, rng: RandomSource) -> (
        Option<Scatter>,
        RandomSource,
    ) {
        let (u, following) = random_unit_spec(rng, SAMPLE_TRIES as nat);
        (self.outcome(r_in, rec, u), following)
    }

    fn scatter(&self, r_in: &Ray, rec: &HitRecord, rng: &mut RandomSource) -> (res: Option<
        Scatter,
    >)
        ensures
            exists|u: Vec3| res == #[trigger] self.outcome(*r_in, *rec, u),
            res matches Some(s) ==> s.attenuation == self.albedo && s.scattered.origin == rec.p
                && s.scattered.direction.dot_spec(rec.normal)@ > 0,
    {
        let u = Vec3::random_unit(rng);
        let res = self.scatter_along(r_in, rec, u);
        assert(res == self.outcome(*r_in, *rec, u));
        res
    }
}

/// A clear material such as glass, which bends or reflects every ray.
#[derive(Clone, Copy, Debug, PartialEq, Eq, Structural)]
pub struct Dielectric {
    pub refractive_index: Scalar,
}

impl Dielectric {
    /// The ratio of the refractive indices on the two sides of the surface, in
    /// the order in which the ray passes them.
    pub open spec fn ratio(self, rec: HitRecord) -> Scalar {
        if rec.front_face {
            Scalar::int_spec(1).div_spec(self.refractive_index)
        } else {
            self.refractive_index
        }
    }

    /// Whether Snell's law has no solution, so that all light is reflected.
    pub open spec fn blocked(self, r_in: Ray, rec: HitRecord) -> bool {
        let cosine = cos_theta_spec(r_in.direction.unit_spec(), rec.normal);
        self.ratio(rec).mul_spec(sin_theta_spec(cosine))@ > ONE_RAW
    }

    /// Whether the ray is reflected when the random number `draw` decides.
    pub open spec fn reflects(self, r_in: Ray, rec: HitRecord, draw: Scalar) -> bool {
        let cosine = cos_theta_spec(r_in.direction.unit_spec(), rec.normal);
        self.blocked(r_in, rec) || reflectance_spec(cosine, self.ratio(rec))@ > draw@
    }

    /// What the material makes of the ray `r_in` when the random number `draw`
    /// decides between reflection and refraction.
    pub open spec fn outcome(self, r_in: Ray, rec: HitRecord, draw: Scalar) -> Scatter {
        let uv = r_in.direction.unit_spec();
        Scatter {
            attenuation: Vec3 {
                x: Scalar::int_spec(1),
                y: Scalar::int_spec(1),
                z: Scalar::int_spec(1),
            },
            scattered: Ray {
                origin: rec.p,
                direction: if self.reflects(r_in, rec, draw) {
                    reflect_spec(uv, rec.normal)
                } else {
                    refract_spec(uv, rec.normal, self.ratio(rec))
                },
            },
        }
    }

    /// The refractive index must be positive.
    pub fn new(refractive_index: Scalar) -> (r: Dielectric)
        requires
            refractive_index@ > 0,
        ensures
            r == (Dielectric { refractive_index }),
            r.wf(),
    {
        Dielectric { refractive_index }
    }

    /// The ratio of the refractive indices for the hit `rec`.
    fn ratio_at(&self, rec: &HitRecord) -> (r: Scalar)
        requires
            self.refractive_index@ > 0,
        ensures
            r == self.ratio(*rec),
            r@ >= 0,
    {
        if rec.front_face {
            let r = Scalar::from_int(1).div(self.refractive_index);
            assert(r@ >= 0) by {
                vstd::arithmetic::div_mod::lemma_div_pos_is_pos(
                    ONE_RAW * ONE_RAW,
                    self.refractive_index@,
                );
            }
            r
        } else {
            self.refractive_index
        }
    }

    /// Whether all light is reflected at the hit `rec`.
    pub fn is_blocked(&self, r_in: &Ray, rec: &HitRecord) -> (r: bool)
        requires
            self.wf(),
            r_in.directed(),
        ensures
            r == self.blocked(*r_in, *rec),
    {
        let ratio = self.ratio_at(rec);
        let uv = r_in.direction.unit();
        let cosine = uv.neg().dot(&rec.normal).min(Scalar::from_int(1));
        let rest = Scalar::from_int(1).sub(cosine.mul(cosine));
        let sine = if rest.raw >= 0 {
            rest.sqrt()
        } else {
            Scalar::zero()
        };
        ratio.mul(sine).raw > ONE_RAW
    }

    /// Reflects or refracts the ray; `draw` decides where both are possible.
    pub fn scatter_given(&self, r_in: &Ray, rec: &HitRecord, draw: Scalar) -> (res: Scatter)
        requires
            self.wf(),
            r_in.directed(),
        ensures
            res == self.outcome(*r_in, *rec, draw),
    {
        let ratio = self.ratio_at(rec);
        let uv = r_in.direction.unit();
        let cosine = uv.neg().dot(&rec.normal).min(Scalar::from_int(1));
        let direction = if self.is_blocked(r_in, rec) || reflectance(cosine, ratio).raw
            > draw.raw {
            reflect(uv, rec.normal)
        } else {
            refract(uv, rec.normal, ratio)
        };
        Scatter {
            attenuation: Vec3::same(Scalar::from_int(1)),
            scattered: Ray::new(rec.p, direction),
        }
    }
}

impl Material for Dielectric {
    open spec fn wf(&self) -> bool {
        self.refractive_index@ > 0
    }

    open spec fn scatter_spec(&self, r_in: Ray, rec: HitRecord, rng: RandomSource) -> (
        Option<Scatter>,
        RandomSource,
    ) {
        if self.blocked(r_in, rec) {
            (Some(self.outcome(r_in, rec, Scalar { raw: 0 })), rng)
        } else {
            (Some(self.outcome(r_in, rec, rng.peek())), rng.advance())
        }
    }

    fn scatter(&self, r_in: &Ray, rec: &HitRecord, rng: &mut RandomSource) -> (res: Option<
        Scatter,
    >)
        ensures
            exists|draw: Scalar|
                0 <= draw@ < ONE_RAW && res == Some(#[trigger] self.outcome(*r_in, *rec, draw)),
    {
        let draw = if self.is_blocked(r_in, rec) {
            Scalar::zero()
        } else {
            rng.next()
        };
        let s = self.scatter_given(r_in, rec, draw);
        assert(s == self.outcome(*r_in, *rec, draw));
        Some(s)
    }
}

/// One of the materials that a surface can have.
#[derive(Clone, Copy, Debug, PartialEq, Eq, Structural)]
pub enum Surface {
    Default(DefaultMaterial),
    Lambertian(Lambertian),
    Metal(Metal),
    Dielectric(Dielectric),
}

impl Material for Surface {
    open spec fn wf(&self) -> bool {
        match *self {
            Surface::Default(m) => m.wf(),
            Surface::Lambertian(m) => m.wf(),
            Surface::Metal(m) => m.wf(),
            Surface::Dielectric(m) => m.wf(),
        }
    }

    open spec fn scatter_spec(&self, r_in: Ray, rec: HitRecord, rng: RandomSource) -> (
        Option<Scatter>,
        RandomSource,
    ) {
        match *self {
            Surface::Default(m) => m.scatter_spec(r_in, rec, rng),
            Surface::Lambertian(m) => m.scatter_spec(r_in, rec, rng),
            Surface::Metal(m) => m.scatter_spec(r_in, rec, rng),
            Surface::Dielectric(m) => m.scatter_spec(r_in, rec, rng),
        }
    }

    fn scatter(&self, r_in: &Ray, rec: &HitRecord, rng: &mut RandomSource) -> (res: Option<
        Scatter,
    >)
        ensures
            res matches Some(s) ==> s.scattered.origin == rec.p,
    {
        match self {
            Surface::Default(m) => m.scatter(r_in, rec, rng),
            Surface::Lambertian(m) => m.scatter(r_in, rec, rng),
            Surface::Metal(m) => m.scatter(r_in, rec, rng),
            Surface::Dielectric(m) => m.scatter(r_in, rec, rng),
        }
    }
}

/// A diffuse material always scatters, and the attenuation of a diffuse or a
/// mirror-like material is its albedo: no channel of it is above the albedo's.
pub proof fn lemma_attenuation_is_albedo(m: Surface, r_in: Ray, rec: HitRecord, rng: RandomSource)
    ensures
        m matches Surface::Lambertian(l) ==> (m.scatter_spec(r_in, rec, rng).0 matches Some(s)
            && s.attenuation == l.albedo),
        m matches Surface::Metal(k) ==> (m.scatter_spec(r_in, rec, rng).0 matches Some(s)
            ==> s.attenuation == k.albedo),
{
}

/// Light that is attenuated by an albedo with channels in `[0, 1]` grows in
/// no channel.
pub proof fn lemma_attenuation_dims(albedo: Vec3, light: Vec3)
    requires
        0 <= albedo.x@ <= ONE_RAW,
        0 <= albedo.y@ <= ONE_RAW,
        0 <= albedo.z@ <= ONE_RAW,
        light.x@ >= 0,
        light.y@ >= 0,
        light.z@ >= 0,
    ensures
        0 <= albedo.hadamard_spec(light).x@ <= light.x@,
        0 <= albedo.hadamard_spec(light).y@ <= light.y@,
        0 <= albedo.hadamard_spec(light).z@ <= light.z@,
{
    lemma_mul_fraction(albedo.x, light.x);
    lemma_mul_fraction(albedo.y, light.y);
    lemma_mul_fraction(albedo.z, light.z);
}

/// Glass with the refractive index one never reflects all light, from either
/// side. Where the random number does not choose reflection either, the ray
/// leaves in its own direction `uv` plus the normal times the difference
/// between the cosine of the angle of incidence and the computed depth of the
/// refracted direction: the ray is bent nowhere but along the normal.
pub proof fn lemma_clear_glass(r_in: Ray, rec: HitRecord, draw: Scalar)
    ensures
        ({
            let glass = Dielectric { refractive_index: Scalar { raw: ONE_RAW } };
            let uv = r_in.direction.unit_spec();
            let n = rec.normal;
            &&& glass.ratio(rec)@ == ONE_RAW
            &&& !glass.blocked(r_in, rec)
            &&& !glass.reflects(r_in, rec, draw) ==> glass.outcome(
                r_in,
                rec,
                draw,
            ).scattered.direction == uv.add_spec(n.mul_spec(cos_theta_spec(uv, n))).add_spec(
                n.mul_spec(refract_depth_spec(uv, n, Scalar { raw: ONE_RAW }).neg_spec()),
            )
        }),
{
    let one = Scalar { raw: ONE_RAW };
    let glass = Dielectric { refractive_index: one };
    let uv = r_in.direction.unit_spec();
    let n = rec.normal;
    assert((ONE_RAW * ONE_RAW) / (ONE_RAW as int) == ONE_RAW) by {
        vstd::arithmetic::div_mod::lemma_div_multiples_vanish(ONE_RAW as int, ONE_RAW as int);
    }
    assert(glass.ratio(rec) == one);
    let cosine = cos_theta_spec(uv, n);
    lemma_square_nonnegative(cosine);
    let rest = Scalar::int_spec(1).sub_spec(cosine.mul_spec(cosine));
    let sine = sin_theta_spec(cosine);
    if rest@ >= 0 {
        lemma_sqrt_at_most_one(rest);
    }
    lemma_mul_one(sine);
    let sum = uv.add_spec(n.mul_spec(cosine));
    lemma_mul_one(sum.x);
    lemma_mul_one(sum.y);
    lemma_mul_one(sum.z);
    assert(refract_perp_spec(uv, n, one) == sum);
}

} // verus!

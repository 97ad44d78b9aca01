//! Spheres and their intersection with rays.

use crate::hittable::HitRecord;
use crate::hittable::Hittable;
use crate::interval::Interval;
use crate::material::Material;
use crate::material::Surface;
use crate::ray::Ray;
use crate::scalar::fits;
use crate::scalar::lemma_div_monotone;
use crate::scalar::lemma_div_nonpositive;
use crate::scalar::lemma_sqrt_nonnegative;
use crate::scalar::lemma_sqrt_of_square;
use crate::scalar::Scalar;
use crate::vec3::lemma_square_nonnegative;
use crate::vec3::Vec3;
use vstd::prelude::*;

verus! {

/// A sphere. A negative radius turns the surface inside out: the geometry is
/// that of the radius's magnitude, and the outward normal points to the center.
#[derive(Clone, Copy, Debug)]
pub struct Sphere {
    pub center: Vec3,
    pub radius: Scalar,
    pub mat: Surface,
}

impl Sphere {
    /// The vector from the center to the ray's origin.
    pub open spec fn offset(self, r: Ray) -> Vec3 {
        r.origin.sub_spec(self.center)
    }

    /// Half the linear coefficient of the quadratic in the ray parameter.
    pub open spec fn half_b(self, r: Ray) -> Scalar {
        self.offset(r).dot_spec(r.direction)
    }

    /// The constant coefficient: the squared distance of the origin from the
    /// center, less the squared radius.
    pub open spec fn excess(self, r: Ray) -> Scalar {
        self.offset(r).dot_square_spec().sub_spec(self.radius.mul_spec(self.radius))
    }

    /// A quarter of the quadratic's discriminant.
    pub open spec fn discriminant(self, r: Ray) -> Scalar {
        self.half_b(r).mul_spec(self.half_b(r)).sub_spec(
            r.direction.dot_square_spec().mul_spec(self.excess(r)),
        )
    }

    /// The smaller root of the quadratic.
    pub open spec fn near_root(self, r: Ray) -> Scalar {
        self.half_b(r).neg_spec().sub_spec(self.discriminant(r).sqrt_spec()).div_spec(
            r.direction.dot_square_spec(),
        )
    }

    /// The larger root of the quadratic.
    pub open spec fn far_root(self, r: Ray) -> Scalar {
        self.half_b(r).neg_spec().add_spec(self.discriminant(r).sqrt_spec()).div_spec(
            r.direction.dot_square_spec(),
        )
    }

    /// The parameter at which the ray meets the sphere inside `ray_t`: the
    /// smaller root where the range holds it, else the larger one.
    #[verifier::opaque]
    pub open spec fn root_in(self, r: Ray, ray_t: Interval) -> Option<Scalar> {
        if self.discriminant(r)@ < 0 {
            None
        } else if ray_t.contains_spec(self.near_root(r)) {
            Some(self.near_root(r))
        } else if ray_t.contains_spec(self.far_root(r)) {
            Some(self.far_root(r))
        } else {
            None
        }
    }

    /// The outward normal at the point `p` of the surface.
    pub open spec fn outward_normal(self, p: Vec3) -> Vec3 {
        p.sub_spec(self.center).div_spec(self.radius)
    }

    /// The record of the meeting at the parameter `t`.
    #[verifier::opaque]
    pub open spec fn record_at(self, r: Ray, t: Scalar) -> HitRecord {
        let p = r.at_spec(t);
        (HitRecord { p, normal: Vec3::zero_spec(), mat: self.mat, t, front_face: false })
            .face_normal_spec(r, self.outward_normal(p))
    }

    /// The radius must not be zero.
    pub fn new(center: Vec3, radius: Scalar, mat: Surface) -> (r: Sphere)
        requires
            radius@ != 0,
            mat.wf(),
        ensures
            r == (Sphere { center, radius, mat }),
            r.wf(),
    {
        Sphere { center, radius, mat }
    }
}

impl Hittable for Sphere {
    open spec fn wf(&self) -> bool {
        self.radius@ != 0 && self.mat.wf()
    }

    open spec fn hit_spec(&self, r: Ray, ray_t: Interval) -> Option<HitRecord> {
        match self.root_in(r, ray_t) {
            Some(t) => Some(self.record_at(r, t)),
            None => None,
        }
    }

    fn hit(&self, r: &Ray, ray_t: Interval) -> (res: Option<HitRecord>) {
        proof {
            reveal(Sphere::root_in);
            reveal(Sphere::record_at);
        }
        let oc = r.origin().sub(self.center);
        let a = r.direction().dot_square();
        let half_b = oc.dot(&r.direction());
        let c = oc.dot_square().sub(self.radius.mul(self.radius));
        let discriminant = half_b.mul(half_b).sub(a.mul(c));

        if discriminant.raw < 0 {
            return None;
        }
        let sqrtd = discriminant.sqrt();

        let mut root = half_b.neg().sub(sqrtd).div(a);
        if !ray_t.contains(root) {
            root = half_b.neg().add(sqrtd).div(a);
            if !ray_t.contains(root) {
                return None;
            }
        }
        let mut rec = HitRecord::new();
        rec.t = root;
        rec.p = r.at(rec.t);
        let outward_normal = rec.p.sub(self.center).div(self.radius);
        rec.set_face_normal(r, &outward_normal);
        rec.mat = self.mat;
        Some(rec)
    }
}

/// Whether every coordinate of `p + v` is the coordinate of a point.
pub open spec fn shift_fits(p: Vec3, v: Vec3) -> bool {
    fits(p.x@ + v.x@) && fits(p.y@ + v.y@) && fits(p.z@ + v.z@)
}

/// Where the discriminant is not negative, the smaller root is not above the
/// larger one.
pub proof fn lemma_roots_ordered(s: Sphere, r: Ray)
    requires
        r.directed(),
        s.discriminant(r)@ >= 0,
    ensures
        s.near_root(r)@ <= s.far_root(r)@,
{
    lemma_sqrt_nonnegative(s.discriminant(r));
    let root = s.discriminant(r).sqrt_spec();
    let base = s.half_b(r).neg_spec();
    lemma_div_monotone(base.sub_spec(root), base.add_spec(root), r.direction.dot_square_spec());
}

/// Lowering the upper end of the range keeps a hit that lies below the new
/// end and loses every other.
pub proof fn lemma_hit_shrink(s: Sphere, r: Ray, ray_t: Interval, max: Scalar)
    requires
        r.directed(),
        max@ <= ray_t.max@,
    ensures
        s.hit_spec(r, Interval { min: ray_t.min, max }) == (match s.hit_spec(r, ray_t) {
            Some(h) => if h.t@ <= max@ {
                Some(h)
            } else {
                None
            },
            None => None,
        }),
        s.hit_spec(r, ray_t) matches Some(h) ==> ray_t.contains_spec(h.t),
{
    reveal(Sphere::root_in);
    reveal(Sphere::record_at);
    if s.discriminant(r)@ >= 0 {
        lemma_roots_ordered(s, r);
    }
}

/// A ray that starts on the sphere and points away from it does not hit the
/// sphere again: no range that starts above zero holds a root.
pub proof fn lemma_no_self_hit(s: Sphere, r: Ray, ray_t: Interval)
    requires
        r.directed(),
        s.offset(r).dot_square_spec() == s.radius.mul_spec(s.radius),
        s.half_b(r)@ > 0,
        ray_t.min@ > 0,
    ensures
        s.hit_spec(r, ray_t) is None,
{
    reveal(Sphere::root_in);
    let hb = s.half_b(r);
    let a = r.direction.dot_square_spec();
    assert(s.excess(r)@ == 0);
    assert(a.mul_spec(s.excess(r))@ == 0) by {
        assert(a@ * 0 == 0);
    }
    lemma_sqrt_of_square(hb);
    lemma_square_nonnegative(hb);
    assert(s.discriminant(r) == hb.mul_spec(hb));
    let root = s.discriminant(r).sqrt_spec();
    lemma_div_nonpositive(hb.neg_spec().sub_spec(root), a);
    lemma_div_nonpositive(hb.neg_spec().add_spec(root), a);
}

/// Moving the ray's origin and the sphere's center by the same vector `v`
/// moves the hit point by `v` and changes nothing else, as long as the moved
/// points stay in the range of the coordinates.
pub proof fn lemma_shift(s: Sphere, r: Ray, ray_t: Interval, v: Vec3)
    requires
        shift_fits(r.origin, v),
        shift_fits(s.center, v),
        s.hit_spec(r, ray_t) matches Some(h) ==> shift_fits(h.p, v) && shift_fits(
            r.origin,
            r.direction.mul_spec(h.t),
        ),
    ensures
        (Sphere { center: s.center.add_spec(v), ..s }).hit_spec(
            Ray { origin: r.origin.add_spec(v), ..r },
            ray_t,
        ) == (match s.hit_spec(r, ray_t) {
            Some(h) => Some(HitRecord { p: h.p.add_spec(v), ..h }),
            None => None,
        }),
{
    reveal(Sphere::root_in);
    reveal(Sphere::record_at);
    let s2 = Sphere { center: s.center.add_spec(v), ..s };
    let r2 = Ray { origin: r.origin.add_spec(v), ..r };
    assert(s2.offset(r2) == s.offset(r));
    assert(s2.root_in(r2, ray_t) == s.root_in(r, ray_t));
    match s.root_in(r, ray_t) {
        Some(t) => {
            let p = r.at_spec(t);
            let p2 = r2.at_spec(t);
            assert(p2 == p.add_spec(v));
            assert(s2.outward_normal(p2) == s.outward_normal(p));
        },
        None => {},
    }
}

} // verus!

//! What a ray learns where it meets a surface, and the contract of surfaces.

use crate::interval::Interval;
use crate::material::Material;
use crate::material::Surface;
use crate::ray::Ray;
use crate::scalar::Scalar;
use crate::vec3::Vec3;
use vstd::prelude::*;

verus! {

/// One meeting of a ray and a surface.
///
/// `normal` points against the ray; `front_face` says whether the ray came
/// from outside the surface.
#[derive(Clone, Copy, Debug)]
pub struct HitRecord {
    pub p: Vec3,
    pub normal: Vec3,
    pub mat: Surface,
    pub t: Scalar,
    pub front_face: bool,
}

impl HitRecord {
    /// Whether the ray `r` comes from the side to which `outward_normal` points.
    pub open spec fn faces(r: Ray, outward_normal: Vec3) -> bool {
        r.direction.dot_spec(outward_normal)@ < 0
    }

    /// The record with its normal turned against the ray `r`.
    pub open spec fn face_normal_spec(self, r: Ray, outward_normal: Vec3) -> HitRecord {
        HitRecord {
            front_face: HitRecord::faces(r, outward_normal),
            normal: if HitRecord::faces(r, outward_normal) {
                outward_normal
            } else {
                outward_normal.neg_spec()
            },
            ..self
        }
    }

    /// The record at the origin, with no normal and the material that absorbs.
    pub open spec fn blank() -> HitRecord {
        HitRecord {
            p: Vec3::zero_spec(),
            normal: Vec3::zero_spec(),
            mat: Surface::Default(crate::material::DefaultMaterial {  }),
            t: Scalar { raw: 0 },
            front_face: false,
        }
    }

    pub fn new() -> (r: HitRecord)
        ensures
            r == HitRecord::blank(),
    {
        HitRecord {
            p: Vec3::zero(),
            normal: Vec3::zero(),
            mat: Surface::Default(crate::material::DefaultMaterial::new()),
            t: Scalar::zero(),
            front_face: false,
        }
    }

    /// Sets the normal and the side from the surface's outward normal.
    pub fn set_face_normal(&mut self, r: &Ray, outward_normal: &Vec3)
        ensures
            *final(self) == old(self).face_normal_spec(*r, *outward_normal),
    {
        self.front_face = r.direction().dot(outward_normal).raw < 0;
        self.normal = if self.front_face {
            *outward_normal
        } else {
            outward_normal.neg()
        };
    }
}

/// A surface that a ray can meet.
pub trait Hittable {
    /// Whether the surface is fit for intersection tests.
    spec fn wf(&self) -> bool;

    /// The meeting of the ray `r` and the surface at a parameter inside `ray_t`.
    spec fn hit_spec(&self, r: Ray, ray_t: Interval) -> Option<HitRecord>;

    fn hit(&self, r: &Ray, ray_t: Interval) -> (res: Option<HitRecord>)
        requires
            self.wf(),
            r.directed(),
        ensures
            res == self.hit_spec(*r, ray_t),
            res matches Some(h) ==> ray_t.contains_spec(h.t) && h.mat.wf(),
    ;
}

} // verus!

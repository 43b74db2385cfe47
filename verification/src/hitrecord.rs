//! The intersection record handed from surfaces to materials.

use vstd::prelude::*;

verus! {

use crate::fixed::lemma_mul_fx_neg;
use crate::materials::Material;
use crate::ray::Ray;
use crate::vec3::{
    UNIT_MAX, Point3, Vec3, bounded3, dot3, lemma_fx_cap_du, lemma_unit3v_not_near_zero,
    near_zero3, neg3v, unit3v,
};

/// The result of a successful intersection query.  The stored normal is unit
/// length and always opposes the incoming ray (the front-face convention),
/// so materials can rely on sidedness without re-checking it.
#[derive(Clone, Copy, Debug, PartialEq, Eq, Structural)]
pub struct HitRecord {
    pub p: Point3,
    pub normal: Vec3,
    pub mat: Material,
    pub t: i64,
    pub front_face: bool,
}

/// Whether the ray strikes the front face: its direction and the normalized
/// outward normal point against each other.
pub open spec fn hr_front_face(r: Ray, outward: Vec3) -> bool {
    dot3(r.direction, unit3v(outward)) < 0
}

/// The normal a hit record stores: the normalized outward normal, negated
/// when the ray strikes from the back, so that it always opposes the ray.
pub open spec fn hr_normal(r: Ray, outward: Vec3) -> Vec3 {
    if hr_front_face(r, outward) {
        unit3v(outward)
    } else {
        neg3v(unit3v(outward))
    }
}

impl HitRecord {
    /// Builds the record from the raw outward normal, normalizing it and
    /// orienting it against the incoming ray.
    pub fn new(p: Point3, r: &Ray, outward_normal: Vec3, mat: Material, t: i64) -> (rec: HitRecord)
        requires
            bounded3(outward_normal, 0x1000_0000_0000_0000),
            dot3(outward_normal, outward_normal) >= 1,
            bounded3(r.direction, 0x1_0000_0000_0000),
        ensures
            rec.p == p,
            rec.t == t,
            rec.mat == mat,
            rec.front_face == hr_front_face(*r, outward_normal),
            rec.normal == hr_normal(*r, outward_normal),
            bounded3(rec.normal, UNIT_MAX as int),
            dot3(r.direction, rec.normal) <= 0,
            !near_zero3(rec.normal),
    {
        proof {
            lemma_unit3v_not_near_zero(outward_normal);
        }
        let u = outward_normal.unit_vector();
        proof {
            lemma_fx_cap_du(r.direction.x as int, u.x as int);
            lemma_fx_cap_du(r.direction.y as int, u.y as int);
            lemma_fx_cap_du(r.direction.z as int, u.z as int);
        }
        let d = r.direction.dot(&u);
        let front_face = d < 0;
        let normal = if front_face {
            u
        } else {
            proof {
                lemma_mul_fx_neg(r.direction.x as int, u.x as int);
                lemma_mul_fx_neg(r.direction.y as int, u.y as int);
                lemma_mul_fx_neg(r.direction.z as int, u.z as int);
            }
            u.neg()
        };
        HitRecord { p, normal, mat, t, front_face }
    }

    /// The point of impact.
    pub fn get_inpact_point(&self) -> (r: Point3)
        ensures
            r == self.p,
    {
        self.p
    }

    /// The stored unit normal, opposing the incoming ray.
    pub fn normal(&self) -> (r: Vec3)
        ensures
            r == self.normal,
    {
        self.normal
    }

    /// The ray parameter of the intersection.
    pub fn get_t(&self) -> (r: i64)
        ensures
            r == self.t,
    {
        self.t
    }

    /// Whether the front face was struck.
    pub fn hit_frontface(&self) -> (r: bool)
        ensures
            r == self.front_face,
    {
        self.front_face
    }

    /// The material of the surface that was hit.
    pub fn mat(&self) -> (r: Material)
        ensures
            r == self.mat,
    {
        self.mat
    }
}

} // verus!

//! Rays: origin plus direction, with parametrized point evaluation.

use vstd::prelude::*;

verus! {

use crate::fixed::{abs_int, mul_fx};
use crate::vec3::{Point3, Vec3};

/// A parametrized half-line `origin + t * direction`.  The direction need
/// not be unit length.
#[derive(Clone, Copy, Debug, PartialEq, Eq, Structural)]
pub struct Ray {
    pub origin: Point3,
    pub direction: Vec3,
}

/// The point reached after parameter `t`, as a component triple:
/// `origin + t * direction` in fixed-point arithmetic.
pub open spec fn ray_at3(r: Ray, t: int) -> (int, int, int) {
    (
        r.origin.x + mul_fx(r.direction.x as int, t),
        r.origin.y + mul_fx(r.direction.y as int, t),
        r.origin.z + mul_fx(r.direction.z as int, t),
    )
}

/// The point reached after parameter `t`, as a vector.
pub open spec fn at3v(r: Ray, t: int) -> crate::vec3::Vec3 {
    crate::vec3::Vec3 {
        x: ray_at3(r, t).0 as i64,
        y: ray_at3(r, t).1 as i64,
        z: ray_at3(r, t).2 as i64,
    }
}

impl Ray {
    /// Builds the ray from an origin and a direction.
    pub fn new(origin: Point3, direction: Vec3) -> (r: Ray)
        ensures
            r.origin == origin,
            r.direction == direction,
    {
        Ray { origin, direction }
    }

    /// The ray's origin.
    pub fn origin(&self) -> (r: Point3)
        ensures
            r == self.origin,
    {
        self.origin
    }

    /// The ray's direction.
    pub fn direction(&self) -> (r: Vec3)
        ensures
            r == self.direction,
    {
        self.direction
    }

    /// The point at parameter `t` along the ray.
    pub fn at(&self, t: i64) -> (r: Point3)
        requires
            abs_int(mul_fx(self.direction.x as int, t as int)) <= i64::MAX,
            abs_int(mul_fx(self.direction.y as int, t as int)) <= i64::MAX,
            abs_int(mul_fx(self.direction.z as int, t as int)) <= i64::MAX,
            abs_int(self.origin.x + mul_fx(self.direction.x as int, t as int)) <= i64::MAX,
            abs_int(self.origin.y + mul_fx(self.direction.y as int, t as int)) <= i64::MAX,
            abs_int(self.origin.z + mul_fx(self.direction.z as int, t as int)) <= i64::MAX,
        ensures
            r.x == ray_at3(*self, t as int).0,
            r.y == ray_at3(*self, t as int).1,
            r.z == ray_at3(*self, t as int).2,
            r == at3v(*self, t as int),
    {
        let step = self.direction.scale(t);
        self.origin.add(&step)
    }
}

} // verus!

//! Surfaces a ray can strike: spheres, and an ordered collection of them.

use vstd::prelude::*;

verus! {

use crate::fixed::{
    SCALE, abs_int, div_trunc, divi_fx, is_isqrt, isqrt_u128, lemma_div_trunc_mag,
    lemma_isqrt_below, lemma_isqrt_unique, lemma_mul_fx_bound, lemma_mul_mag_bound, mul_fx,
    sqrt_fx,
};
use crate::hitrecord::{HitRecord, hr_front_face, hr_normal};
use crate::materials::{Material, material_valid};
use crate::ray::{Ray, at3v};
use crate::vec3::{
    UNIT_MAX, Point3, Vec3, bounded3, div3v, dot3, lemma_not_near_zero_dot, near_zero3, sub3v,
};

/// The largest coordinate magnitude a scene point may carry.
pub const CENTER_MAX: i64 = 0x1000_0000_0000;

/// The largest coordinate magnitude a ray origin may carry; bounces move
/// origins outward, so the envelope is wider than the scene itself.
pub const ORIGIN_MAX: i64 = 0x2000_0000_0000;

/// The largest component magnitude a ray direction may carry.
pub const DIR_MAX: i64 = 0x80_0000;

/// The largest query parameter: how far along a ray an intersection may lie.
pub const T_MAX: i64 = 0x400_0000;

/// The smallest usable sphere radius magnitude; anything smaller would blow
/// up the normal computation.
pub const RADIUS_MIN: i64 = 16;

/// The largest usable sphere radius magnitude.
pub const RADIUS_MAX: i64 = 0x4000_0000;

/// An analytic sphere.  A negative radius yields a sphere whose stored
/// normals point inward, which models a hollow sphere.
#[derive(Clone, Copy, Debug, PartialEq, Eq, Structural)]
pub struct Sphere {
    pub center: Point3,
    pub radius: i64,
    pub material: Material,
}

/// The bounds under which the intersection arithmetic stays in range.
pub open spec fn sphere_wf(s: Sphere) -> bool {
    &&& bounded3(s.center, CENTER_MAX as int)
    &&& RADIUS_MIN <= abs_int(s.radius as int) <= RADIUS_MAX
    &&& material_valid(s.material)
}

/// The bounds under which a query ray stays in range.
pub open spec fn ray_wf(r: Ray) -> bool {
    &&& bounded3(r.origin, ORIGIN_MAX as int)
    &&& bounded3(r.direction, DIR_MAX as int)
}

/// The vector from the sphere's center to the ray's origin.
pub open spec fn sphere_oc(s: Sphere, r: Ray) -> Vec3 {
    sub3v(r.origin, s.center)
}

/// The quadratic coefficient `a`: the squared length of the direction.
pub open spec fn sphere_qa(s: Sphere, r: Ray) -> int {
    dot3(r.direction, r.direction)
}

/// The half coefficient `b/2`: direction dotted with the center offset.
pub open spec fn sphere_qhb(s: Sphere, r: Ray) -> int {
    dot3(r.direction, sphere_oc(s, r))
}

/// The constant coefficient `c`: squared center offset minus squared radius.
pub open spec fn sphere_qc(s: Sphere, r: Ray) -> int {
    dot3(sphere_oc(s, r), sphere_oc(s, r)) - mul_fx(s.radius as int, s.radius as int)
}

/// The discriminant of the intersection quadratic.
pub open spec fn sphere_disc(s: Sphere, r: Ray) -> int {
    mul_fx(sphere_qhb(s, r), sphere_qhb(s, r)) - mul_fx(sphere_qa(s, r), sphere_qc(s, r))
}

/// The smaller root of the quadratic.
pub open spec fn sphere_root1(s: Sphere, r: Ray) -> int {
    divi_fx(-sphere_qhb(s, r) - sqrt_fx(sphere_disc(s, r)), sphere_qa(s, r))
}

/// The larger root of the quadratic.
pub open spec fn sphere_root2(s: Sphere, r: Ray) -> int {
    divi_fx(-sphere_qhb(s, r) + sqrt_fx(sphere_disc(s, r)), sphere_qa(s, r))
}

/// The raw outward normal at parameter `t`: the hit point minus the center,
/// divided by the radius (which flips it inward for a negative radius).
pub open spec fn sphere_outward(s: Sphere, r: Ray, t: int) -> Vec3 {
    div3v(sub3v(at3v(r, t), s.center), s.radius as int)
}

/// The parameter at which the sphere is hit, if any: the nearest root
/// strictly inside `(t_min, t_max)`.  Degenerate queries miss: a direction
/// too short to square to one unit, or a hit point so close to the center
/// that no normal can be normalized from it.
pub open spec fn sphere_hit_t(s: Sphere, r: Ray, t_min: int, t_max: int) -> Option<int> {
    if sphere_qa(s, r) < 1 {
        None
    } else if sphere_disc(s, r) < 0 {
        None
    } else {
        let r1 = sphere_root1(s, r);
        let r2 = sphere_root2(s, r);
        if t_min < r1 && r1 < t_max {
            if near_zero3(sphere_outward(s, r, r1)) {
                None
            } else {
                Some(r1)
            }
        } else if t_min < r2 && r2 < t_max {
            if near_zero3(sphere_outward(s, r, r2)) {
                None
            } else {
                Some(r2)
            }
        } else {
            None
        }
    }
}

/// What a returned hit record holds, given the sphere, the ray and the
/// parameter: the point on the ray, the sphere's material, and the oriented
/// unit normal with the front-face convention.
pub open spec fn sphere_rec_ok(s: Sphere, r: Ray, rec: HitRecord) -> bool {
    &&& rec.p == at3v(r, rec.t as int)
    &&& rec.mat == s.material
    &&& rec.front_face == hr_front_face(r, sphere_outward(s, r, rec.t as int))
    &&& rec.normal == hr_normal(r, sphere_outward(s, r, rec.t as int))
    &&& bounded3(rec.normal, UNIT_MAX as int)
    &&& !near_zero3(rec.normal)
    &&& dot3(r.direction, rec.normal) <= 0
    &&& bounded3(rec.p, ORIGIN_MAX as int + 0x2_0000_0000)
}

/// Budget for a direction component squared.
proof fn lemma_fx_cap_dd(a: int, b: int)
    requires
        abs_int(a) <= 0x80_0000,
        abs_int(b) <= 0x80_0000,
    ensures
        abs_int(mul_fx(a, b)) <= 0x4000_0000,
{
    lemma_mul_fx_bound(a, b, 0x80_0000, 0x80_0000);
}

/// Budget for a direction component times a center-offset component.
proof fn lemma_fx_cap_do(a: int, b: int)
    requires
        abs_int(a) <= 0x80_0000,
        abs_int(b) <= 0x3000_0000_0000,
    ensures
        abs_int(mul_fx(a, b)) <= 0x18_0000_0000_0000,
{
    lemma_mul_fx_bound(a, b, 0x80_0000, 0x3000_0000_0000);
}

/// Budget for the squared radius.
proof fn lemma_fx_cap_rad(a: int, b: int)
    requires
        abs_int(a) <= 0x4000_0000,
        abs_int(b) <= 0x4000_0000,
    ensures
        abs_int(mul_fx(a, b)) <= 0x1_0000_0000_0000,
{
    lemma_mul_fx_bound(a, b, 0x4000_0000, 0x4000_0000);
}

/// Budget for a squared center-offset component, computed wide.
proof fn lemma_fx_cap_oo(a: int, b: int)
    requires
        abs_int(a) <= 0x3000_0000_0000,
        abs_int(b) <= 0x3000_0000_0000,
    ensures
        abs_int(mul_fx(a, b)) <= 0x9_0000_0000_0000_0000_0000,
{
    lemma_mul_fx_bound(a, b, 0x3000_0000_0000, 0x3000_0000_0000);
}

/// The half-coefficient squared stays within the wide word.
proof fn lemma_hb_sq_ok(a: int)
    requires
        abs_int(a) <= 0x48_0000_0000_0000,
    ensures
        abs_int(a * a) <= 0x14A0_0000_0000_0000_0000_0000_0000,
{
    lemma_mul_mag_bound(a, a, 0x48_0000_0000_0000, 0x48_0000_0000_0000);
    assert(0x48_0000_0000_0000int * 0x48_0000_0000_0000 <= 0x14A0_0000_0000_0000_0000_0000_0000);
}

/// The `a * c` product stays within the wide word.
proof fn lemma_ac_ok(a: int, c: int)
    requires
        0 <= a <= 0xC000_0000,
        abs_int(c) <= 0x1C_0000_0000_0000_0000_0000,
    ensures
        abs_int(a * c) <= 0x150000000000000000000000000000,
{
    lemma_mul_mag_bound(a, c, 0xC000_0000, 0x1C_0000_0000_0000_0000_0000);
    assert(0xC000_0000int * 0x1C_0000_0000_0000_0000_0000 <= 0x150000000000000000000000000000);
}

/// The discriminant's square root stays within a machine word.
proof fn lemma_sq_cap(r: int, n: int)
    requires
        is_isqrt(r, n),
        0 <= n < 0x4000_0000_0000_0000_0000_0000_0000_0000,
    ensures
        0 <= r < 0x8000_0000_0000_0000,
{
    lemma_isqrt_below(r, n, 0x8000_0000_0000_0000);
    assert(0x4000_0000_0000_0000_0000_0000_0000_0000
        <= 0x8000_0000_0000_0000int * 0x8000_0000_0000_0000);
}

/// Budget for a point-at-parameter step.
proof fn lemma_fx_cap_dt(a: int, b: int)
    requires
        abs_int(a) <= 0x80_0000,
        abs_int(b) <= 0x400_0000,
    ensures
        abs_int(mul_fx(a, b)) <= 0x2_0000_0000,
{
    lemma_mul_fx_bound(a, b, 0x80_0000, 0x400_0000);
}

/// The outward normal components stay well inside the normalizer's range.
proof fn lemma_outward_bound(x: int, rad: int)
    requires
        abs_int(x) <= 0x4000_0000_0000,
        16 <= abs_int(rad),
    ensures
        abs_int(divi_fx(x, rad)) <= 0x400_0000_0000_0000,
{
    lemma_div_trunc_mag(x * 65536, rad);
    crate::fixed::lemma_abs_mul(x, 65536);
    vstd::arithmetic::div_mod::lemma_div_is_ordered_by_denominator(
        abs_int(x) * 65536,
        16,
        abs_int(rad),
    );
    vstd::arithmetic::div_mod::lemma_div_is_ordered(
        abs_int(x) * 65536,
        0x4000_0000_0000int * 65536,
        16,
    );
}

impl Sphere {
    /// Builds the sphere from its center, radius and material.
    pub fn new(center: Point3, radius: i64, material: Material) -> (s: Sphere)
        ensures
            s.center == center,
            s.radius == radius,
            s.material == material,
    {
        Sphere { center, radius, material }
    }

    /// The nearest intersection with the ray strictly inside
    /// `(t_min, t_max)`, or nothing.
    pub fn hit(&self, r: &Ray, t_min: i64, t_max: i64) -> (res: Option<HitRecord>)
        requires
            sphere_wf(*self),
            ray_wf(*r),
            0 <= t_min <= t_max <= T_MAX,
        ensures
            res is None ==> sphere_hit_t(*self, *r, t_min as int, t_max as int) is None,
            res matches Some(rec) ==> {
                &&& sphere_hit_t(*self, *r, t_min as int, t_max as int) == Some(rec.t as int)
                &&& t_min < rec.t < t_max
                &&& sphere_rec_ok(*self, *r, rec)
                &&& dot3(r.direction, r.direction) >= 1
            },
    {
        let oc = r.origin.sub(&self.center);
        proof {
            lemma_fx_cap_dd(r.direction.x as int, r.direction.x as int);
            lemma_fx_cap_dd(r.direction.y as int, r.direction.y as int);
            lemma_fx_cap_dd(r.direction.z as int, r.direction.z as int);
            crate::vec3::lemma_len2_nonneg(r.direction);
        }
        let a = r.direction.dot(&r.direction);
        if a < 1 {
            // a direction this short cannot square to one unit; treat the
            // query as a miss rather than divide by zero
            return None;
        }
        proof {
            lemma_fx_cap_do(r.direction.x as int, oc.x as int);
            lemma_fx_cap_do(r.direction.y as int, oc.y as int);
            lemma_fx_cap_do(r.direction.z as int, oc.z as int);
        }
        let half_b = r.direction.dot(&oc);
        proof {
            lemma_fx_cap_rad(self.radius as int, self.radius as int);
        }
        let rad2 = crate::fixed::fmul(self.radius, self.radius);
        proof {
            lemma_fx_cap_oo(oc.x as int, oc.x as int);
            lemma_fx_cap_oo(oc.y as int, oc.y as int);
            lemma_fx_cap_oo(oc.z as int, oc.z as int);
            lemma_mul_mag_bound(oc.x as int, oc.x as int, 0x3000_0000_0000, 0x3000_0000_0000);
            lemma_mul_mag_bound(oc.y as int, oc.y as int, 0x3000_0000_0000, 0x3000_0000_0000);
            lemma_mul_mag_bound(oc.z as int, oc.z as int, 0x3000_0000_0000, 0x3000_0000_0000);
        }
        let ox: i128 = ((oc.x as i128) * (oc.x as i128)) / 65536;
        let oy: i128 = ((oc.y as i128) * (oc.y as i128)) / 65536;
        let oz: i128 = ((oc.z as i128) * (oc.z as i128)) / 65536;
        proof {
            lemma_div_trunc_mag((oc.x as int) * (oc.x as int), 65536);
            lemma_div_trunc_mag((oc.y as int) * (oc.y as int), 65536);
            lemma_div_trunc_mag((oc.z as int) * (oc.z as int), 65536);
            assert(ox == mul_fx(oc.x as int, oc.x as int));
            assert(oy == mul_fx(oc.y as int, oc.y as int));
            assert(oz == mul_fx(oc.z as int, oc.z as int));
        }
        let c: i128 = ox + oy + oz - (rad2 as i128);
        proof {
            assert(c == sphere_qc(*self, *r));
            lemma_hb_sq_ok(half_b as int);
            lemma_ac_ok(a as int, c as int);
        }
        let hb2: i128 = ((half_b as i128) * (half_b as i128)) / 65536;
        let ac: i128 = ((a as i128) * c) / 65536;
        proof {
            lemma_div_trunc_mag((half_b as int) * (half_b as int), 65536);
            lemma_div_trunc_mag((a as int) * (c as int), 65536);
            assert(hb2 == mul_fx(half_b as int, half_b as int));
            assert(ac == mul_fx(a as int, c as int));
        }
        let disc: i128 = hb2 - ac;
        proof {
            assert(disc == sphere_disc(*self, *r));
        }
        if disc < 0 {
            return None;
        }
        let n: u128 = (disc as u128) * 65536;
        proof {
            assert(n as int == disc * 65536);
        }
        let sq_wide = isqrt_u128(n);
        proof {
            lemma_sq_cap(sq_wide as int, n as int);
            lemma_isqrt_unique((disc as int) * 65536, sq_wide as int);
            assert(sq_wide as int == sqrt_fx(disc as int));
        }
        let sq: i128 = sq_wide as i128;
        let num1: i128 = -(half_b as i128) - sq;
        let num2: i128 = -(half_b as i128) + sq;
        let root1: i128 = (num1 * 65536) / (a as i128);
        let root2: i128 = (num2 * 65536) / (a as i128);
        proof {
            lemma_div_trunc_mag(num1 * 65536, a as int);
            lemma_div_trunc_mag(num2 * 65536, a as int);
            assert(root1 == div_trunc(num1 * 65536, a as int));
            assert(root2 == div_trunc(num2 * 65536, a as int));
            assert(root1 == sphere_root1(*self, *r));
            assert(root2 == sphere_root2(*self, *r));
        }
        let root: i64 = if (t_min as i128) < root1 && root1 < (t_max as i128) {
            root1 as i64
        } else if (t_min as i128) < root2 && root2 < (t_max as i128) {
            root2 as i64
        } else {
            return None;
        };
        proof {
            lemma_fx_cap_dt(r.direction.x as int, root as int);
            lemma_fx_cap_dt(r.direction.y as int, root as int);
            lemma_fx_cap_dt(r.direction.z as int, root as int);
        }
        let p = r.at(root);
        let pc = p.sub(&self.center);
        proof {
            lemma_outward_bound(pc.x as int, self.radius as int);
            lemma_outward_bound(pc.y as int, self.radius as int);
            lemma_outward_bound(pc.z as int, self.radius as int);
        }
        let outward = pc.div_scalar(self.radius);
        if outward.near_zero() {
            // the hit point collapses onto the center: no normal can be
            // recovered, so the query counts as a miss
            return None;
        }
        proof {
            lemma_not_near_zero_dot(outward);
        }
        Some(HitRecord::new(p, r, outward, self.material, root))
    }
}

/// Sphere intersection is idempotent under re-query: any two results that
/// the intersection contract admits for identical arguments carry the same
/// parameter, because the contract pins the result to a function of the
/// query alone.
pub proof fn lemma_hit_idempotent(
    s: Sphere,
    r: Ray,
    t_min: int,
    t_max: int,
    first: Option<int>,
    second: Option<int>,
)
    requires
        first == sphere_hit_t(s, r, t_min, t_max),
        second == sphere_hit_t(s, r, t_min, t_max),
    ensures
        first == second,
{
}

/// List of surfaces that can be queried together.
pub struct HittableList {
    pub objects: Vec<Sphere>,
}

/// All members stay within the intersection arithmetic's envelope.
pub open spec fn list_wf(l: HittableList) -> bool {
    forall|i: int| 0 <= i < l.objects@.len() ==> sphere_wf(#[trigger] l.objects@[i])
}

/// The index and parameter of the nearest intersection across the members,
/// mirroring the linear scan: each member is queried with the closest
/// parameter seen so far as the shrinking upper bound.
pub open spec fn list_hit(objs: Seq<Sphere>, r: Ray, t_min: int, t_max: int) -> Option<(int, int)>
    decreases objs.len(),
{
    if objs.len() == 0 {
        None
    } else {
        let pre = list_hit(objs.drop_last(), r, t_min, t_max);
        let bound = if pre is Some {
            pre->Some_0.1
        } else {
            t_max
        };
        match sphere_hit_t(objs.last(), r, t_min, bound) {
            Some(t) => Some(((objs.len() - 1) as int, t)),
            None => pre,
        }
    }
}

impl HittableList {
    /// Builds the list around a first surface.
    pub fn new(object: Sphere) -> (l: HittableList)
        ensures
            l.objects@ =~= seq![object],
    {
        HittableList { objects: vec![object] }
    }

    /// Builds the empty list.
    pub fn empty() -> (l: HittableList)
        ensures
            l.objects@ =~= Seq::<Sphere>::empty(),
    {
        HittableList { objects: Vec::new() }
    }

    /// Appends a surface.
    pub fn add(&mut self, object: Sphere)
        ensures
            final (self).objects@ =~= old(self).objects@.push(object),
    {
        self.objects.push(object);
    }

    /// Removes every surface.
    pub fn clear(&mut self)
        ensures
            final (self).objects@ =~= Seq::<Sphere>::empty(),
    {
        self.objects.clear();
    }

    /// The nearest intersection across all members strictly inside
    /// `(t_min, t_max)`: a linear scan that shrinks the upper bound to the
    /// closest parameter seen so far.
    pub fn hit(&self, r: &Ray, t_min: i64, t_max: i64) -> (res: Option<HitRecord>)
        requires
            list_wf(*self),
            ray_wf(*r),
            0 <= t_min <= t_max <= T_MAX,
        ensures
            res is None ==> list_hit(self.objects@, *r, t_min as int, t_max as int) is None,
            res matches Some(rec) ==> {
                &&& list_hit(self.objects@, *r, t_min as int, t_max as int) matches Some(jt)
                    && 0 <= jt.0 < self.objects@.len() && jt.1 == rec.t && sphere_rec_ok(
                    self.objects@[jt.0],
                    *r,
                    rec,
                )
                &&& t_min < rec.t < t_max
                &&& dot3(r.direction, r.direction) >= 1
            },
    {
        let mut closest: i64 = t_max;
        let mut rec: Option<HitRecord> = None;
        let mut i: usize = 0;
        while i < self.objects.len()
            invariant
                list_wf(*self),
                ray_wf(*r),
                0 <= t_min <= t_max <= T_MAX,
                0 <= i <= self.objects@.len(),
                rec is None ==> {
                    &&& list_hit(self.objects@.take(i as int), *r, t_min as int, t_max as int)
                        is None
                    &&& closest == t_max
                },
                rec matches Some(rc) ==> {
                    &&& list_hit(self.objects@.take(i as int), *r, t_min as int, t_max as int)
                        matches Some(jt) && 0 <= jt.0 < i && jt.1 == rc.t && sphere_rec_ok(
                        self.objects@[jt.0],
                        *r,
                        rc,
                    )
                    &&& closest == rc.t
                    &&& t_min < rc.t < t_max
                    &&& dot3(r.direction, r.direction) >= 1
                },
            decreases self.objects@.len() - i,
        {
            let s = self.objects[i];
            proof {
                assert(sphere_wf(self.objects@[i as int]));
            }
            let this_hit = s.hit(r, t_min, closest);
            proof {
                assert(self.objects@.take(i as int + 1).drop_last() =~= self.objects@.take(
                    i as int,
                ));
                assert(self.objects@.take(i as int + 1).last() == self.objects@[i as int]);
            }
            match this_hit {
                Some(h) => {
                    closest = h.get_t();
                    rec = Some(h);
                },
                None => {
                },
            }
            i = i + 1;
        }
        proof {
            assert(self.objects@.take(self.objects@.len() as int) =~= self.objects@);
        }
        rec
    }
}

/// A hit parameter always lies strictly inside the query range.
pub proof fn lemma_sphere_hit_range(s: Sphere, r: Ray, t_min: int, t_max: int)
    ensures
        sphere_hit_t(s, r, t_min, t_max) matches Some(t) ==> t_min < t < t_max,
{
}

/// Shrinking the upper bound of a sphere query keeps a hit that is still in
/// range, drops one that is not, and can never conjure a new one.
pub proof fn lemma_sphere_hit_shrink(s: Sphere, r: Ray, t_min: int, b1: int, b2: int)
    requires
        b1 <= b2,
    ensures
        sphere_hit_t(s, r, t_min, b2) is None ==> sphere_hit_t(s, r, t_min, b1) is None,
        sphere_hit_t(s, r, t_min, b2) matches Some(t) ==> {
            &&& t < b1 ==> sphere_hit_t(s, r, t_min, b1) == Some(t)
            &&& t >= b1 ==> sphere_hit_t(s, r, t_min, b1) is None
        },
{
    if sphere_qa(s, r) < 1 {
    } else if sphere_disc(s, r) < 0 {
    } else {
        crate::fixed::lemma_isqrt_exists(sphere_disc(s, r) * 65536);
        let q = sqrt_fx(sphere_disc(s, r));
        let hb = sphere_qhb(s, r);
        let a = sphere_qa(s, r);
        assert((-hb - q) * 65536 <= (-hb + q) * 65536) by (nonlinear_arith)
            requires
                q >= 0,
        ;
        crate::fixed::lemma_div_trunc_ordered((-hb - q) * 65536, (-hb + q) * 65536, a);
        assert(sphere_root1(s, r) <= sphere_root2(s, r));
    }
}

/// SurfaceList queries return the globally nearest intersection: what the
/// shrinking linear scan computes equals the minimum over every member's
/// own full-range query.
pub proof fn lemma_list_hit_nearest(objs: Seq<Sphere>, r: Ray, t_min: int, t_max: int)
    ensures
        list_hit(objs, r, t_min, t_max) is None ==> forall|i: int|
            0 <= i < objs.len() ==> (#[trigger] sphere_hit_t(objs[i], r, t_min, t_max)) is None,
        list_hit(objs, r, t_min, t_max) matches Some(jt) ==> {
            &&& 0 <= jt.0 < objs.len()
            &&& sphere_hit_t(objs[jt.0], r, t_min, t_max) == Some(jt.1)
            &&& t_min < jt.1 < t_max
            &&& forall|i: int|
                0 <= i < objs.len() ==> ((#[trigger] sphere_hit_t(objs[i], r, t_min, t_max))
                    matches Some(ti) ==> ti >= jt.1)
        },
    decreases objs.len(),
{
    if objs.len() == 0 {
    } else {
        let prefix = objs.drop_last();
        let s = objs.last();
        lemma_list_hit_nearest(prefix, r, t_min, t_max);
        let pre = list_hit(prefix, r, t_min, t_max);
        let bound = if pre is Some {
            pre->Some_0.1
        } else {
            t_max
        };
        lemma_sphere_hit_shrink(s, r, t_min, bound, t_max);
        lemma_sphere_hit_range(s, r, t_min, t_max);
        lemma_sphere_hit_range(s, r, t_min, bound);
        assert(forall|i: int| 0 <= i < prefix.len() ==> prefix[i] == objs[i]);
        assert(s == objs[objs.len() - 1]);
        match sphere_hit_t(s, r, t_min, bound) {
            Some(t) => {
                assert(sphere_hit_t(s, r, t_min, t_max) == Some(t) && t < bound) by {
                    match sphere_hit_t(s, r, t_min, t_max) {
                        Some(tf) => {
                            if tf >= bound {
                                assert(sphere_hit_t(s, r, t_min, bound) is None);
                            }
                        },
                        None => {
                            assert(sphere_hit_t(s, r, t_min, bound) is None);
                        },
                    }
                }
            },
            None => {
            },
        }
    }
}

} // verus!

//! Materials: diffuse, fuzzy-specular and dielectric scattering.

use vstd::prelude::*;

verus! {

use crate::color::{Color, color_valid};
use crate::fixed::{SCALE, abs_int, div_trunc, fdiv, fmul, fsqrt, is_isqrt, divi_fx, mul_fx, sqrt_fx};
use crate::hitrecord::HitRecord;
use crate::ray::Ray;
use crate::vec3::{
    UNIT_MAX, Vec3, add3v, bounded3, clamp_int, dot3, lemma_fx_cap_pp, lemma_fx_cap_p5,
    lemma_fx_cap_rr, lemma_fx_cap_sp, lemma_fx_cap_ss, lemma_fx_cap_mn, lemma_fx_cap_uu,
    lemma_square_fx_nonneg, lemma_sqrt_unit, near_zero3, neg3v, reflect3v, refract3v, scale3v,
    unit3v,
};

/// A diffuse surface: scatters into the hemisphere around the normal and
/// attenuates by its albedo.
#[derive(Clone, Copy, Debug, PartialEq, Eq, Structural)]
pub struct Lambertian {
    pub albedo: Color,
}

/// A reflective surface: mirrors the incoming direction, perturbed by a
/// fuzz-scaled random offset, and absorbs rays that dip below the horizon.
#[derive(Clone, Copy, Debug, PartialEq, Eq, Structural)]
pub struct Metal {
    /// Color of the material.
    pub albedo: Color,
    /// Radius of the sphere used to randomize the reflected ray.
    pub fuzz: i64,
}

/// A clear refractive surface with a fixed refraction index.
#[derive(Clone, Copy, Debug, PartialEq, Eq, Structural)]
pub struct Dielectric {
    /// Refraction index of the dielectric material.
    pub ref_index: i64,
}

/// The scattering behaviours a surface can carry.
#[derive(Clone, Copy, Debug, PartialEq, Eq, Structural)]
pub enum Material {
    Lambertian(Lambertian),
    Metal(Metal),
    Dielectric(Dielectric),
}

/// The invariants the constructors establish: unit-interval albedo channels,
/// nonnegative fuzz, refraction index at least one.  The upper caps are
/// machine limits of the fixed-point envelope, far beyond physical use: a
/// fuzz radius past 16 or an index past 4 could push a scattered direction
/// out of the range the tracer accepts.
pub open spec fn material_valid(m: Material) -> bool {
    match m {
        Material::Lambertian(l) => color_valid(l.albedo),
        Material::Metal(mt) => color_valid(mt.albedo) && 0 <= mt.fuzz <= 16 * SCALE,
        Material::Dielectric(d) => SCALE <= d.ref_index <= 4 * SCALE,
    }
}

/// The attenuation a material reports on a scatter: its albedo, or white
/// for clear glass.
pub open spec fn material_albedo(m: Material) -> Color {
    match m {
        Material::Lambertian(l) => l.albedo,
        Material::Metal(mt) => mt.albedo,
        Material::Dielectric(_) => Color { r: SCALE, g: SCALE, b: SCALE },
    }
}

/// The direction a diffuse surface scatters into, given the sampled unit
/// offset: the offset added to the normal, or the normal itself when the sum
/// degenerates to near zero.
pub open spec fn lambertian_dir(n: Vec3, sample: Vec3) -> Vec3 {
    let d = add3v(n, sample);
    if near_zero3(d) {
        n
    } else {
        d
    }
}

/// The direction a metal surface scatters into, given the sampled in-sphere
/// offset: the mirrored unit direction plus the fuzz-scaled offset.
pub open spec fn metal_dir(r_in: Ray, n: Vec3, fuzz: int, sample: Vec3) -> Vec3 {
    add3v(reflect3v(unit3v(r_in.direction), n), scale3v(sample, fuzz))
}

/// Schlick's reflectance approximation in fixed-point arithmetic:
/// `r0 + (1 - r0) * (1 - cos)^5` with `r0 = ((1 - ratio) / (1 + ratio))^2`.
pub open spec fn schlick(cos: int, ratio: int) -> int {
    let q = divi_fx(65536 - ratio, 65536 + ratio);
    let r0 = mul_fx(q, q);
    let omc = 65536 - cos;
    let p5 = mul_fx(mul_fx(mul_fx(omc, omc), mul_fx(omc, omc)), omc);
    r0 + mul_fx(65536 - r0, p5)
}

/// The refraction ratio a dielectric uses: the reciprocal of the index when
/// the ray enters from the front face, the index itself when it exits.
pub open spec fn dielectric_ratio(ir: int, front: bool) -> int {
    if front {
        divi_fx(65536, ir)
    } else {
        ir
    }
}

/// The cosine between the reversed unit incoming direction and the normal,
/// clamped to the unit interval against truncation slop.
pub open spec fn dielectric_cos(r_in: Ray, n: Vec3) -> int {
    clamp_int(-dot3(unit3v(r_in.direction), n), -65536, 65536)
}

/// The direction a dielectric scatters into, given the uniform draw `rnd`:
/// reflection on total internal reflection or a draw below the Schlick
/// reflectance, refraction otherwise.
pub open spec fn dielectric_dir(r_in: Ray, n: Vec3, ir: int, front: bool, rnd: int) -> Vec3 {
    let ratio = dielectric_ratio(ir, front);
    let u = unit3v(r_in.direction);
    let cos = dielectric_cos(r_in, n);
    let sin = sqrt_fx(65536 - mul_fx(cos, cos));
    if mul_fx(ratio, sin) > 65536 || schlick(cos, ratio) > rnd {
        reflect3v(u, n)
    } else {
        refract3v(u, n, ratio)
    }
}

impl Lambertian {
    /// Builds the material; the albedo must be a valid color.
    pub fn new(albedo: Color) -> (m: Lambertian)
        requires
            color_valid(albedo),
        ensures
            m.albedo == albedo,
    {
        Lambertian { albedo }
    }

    /// The deterministic core of the scatter: everything after the random
    /// unit offset has been drawn.
    pub fn scatter_with(&self, rec: &HitRecord, sample: Vec3) -> (r: (Color, Ray))
        requires
            color_valid(self.albedo),
            bounded3(rec.normal, UNIT_MAX as int),
            !near_zero3(rec.normal),
            bounded3(sample, UNIT_MAX as int),
        ensures
            r.0 == self.albedo,
            r.1.origin == rec.p,
            r.1.direction == lambertian_dir(rec.normal, sample),
            bounded3(r.1.direction, 0x80_0000),
            !near_zero3(r.1.direction),
    {
        let d0 = rec.normal.add(&sample);
        let dir = if d0.near_zero() {
            rec.normal
        } else {
            d0
        };
        (self.albedo, Ray::new(rec.p, dir))
    }

    /// Diffuse scattering: always scatters, never absorbs.
    pub fn scatter(&self, _r_in: &Ray, rec: &HitRecord) -> (r: Option<(Color, Ray)>)
        requires
            color_valid(self.albedo),
            bounded3(rec.normal, UNIT_MAX as int),
            !near_zero3(rec.normal),
        ensures
            r is Some,
            r matches Some(v) ==> {
                &&& v.0 == self.albedo
                &&& v.1.origin == rec.p
                &&& bounded3(v.1.direction, 0x80_0000)
                &&& !near_zero3(v.1.direction)
                &&& exists|s: Vec3|
                    bounded3(s, UNIT_MAX as int) && v.1.direction == lambertian_dir(rec.normal, s)
            },
    {
        let sample = Vec3::random_unit_vector();
        let out = self.scatter_with(rec, sample);
        proof {
            assert(bounded3(sample, UNIT_MAX as int) && out.1.direction == lambertian_dir(
                rec.normal,
                sample,
            ));
        }
        Some(out)
    }
}

impl Metal {
    /// Builds the material; the albedo must be a valid color and the fuzz
    /// radius nonnegative, within the arithmetic envelope.
    pub fn new(albedo: Color, fuzz: i64) -> (m: Metal)
        requires
            color_valid(albedo),
            0 <= fuzz <= 16 * SCALE,
        ensures
            m.albedo == albedo,
            m.fuzz == fuzz,
    {
        Metal { albedo, fuzz }
    }

    /// The deterministic core of the scatter: absorbs exactly when the
    /// fuzzed reflection points into the surface.
    pub fn scatter_with(&self, r_in: &Ray, rec: &HitRecord, sample: Vec3) -> (r: Option<
        (Color, Ray),
    >)
        requires
            color_valid(self.albedo),
            0 <= self.fuzz <= 16 * SCALE,
            bounded3(rec.normal, UNIT_MAX as int),
            bounded3(sample, SCALE as int),
            bounded3(r_in.direction, 0x1_0000_0000_0000),
            dot3(r_in.direction, r_in.direction) >= 1,
        ensures
            r is Some <==> dot3(metal_dir(*r_in, rec.normal, self.fuzz as int, sample), rec.normal)
                > 0,
            r matches Some(v) ==> {
                &&& v.0 == self.albedo
                &&& v.1.origin == rec.p
                &&& v.1.direction == metal_dir(*r_in, rec.normal, self.fuzz as int, sample)
                &&& bounded3(v.1.direction, 0x80_0000)
            },
    {
        let unit_dir = r_in.direction.unit_vector();
        let reflected = unit_dir.reflect(&rec.normal);
        proof {
            crate::vec3::lemma_fx_cap_sf(sample.x as int, self.fuzz as int);
            crate::vec3::lemma_fx_cap_sf(sample.y as int, self.fuzz as int);
            crate::vec3::lemma_fx_cap_sf(sample.z as int, self.fuzz as int);
        }
        let offset = sample.scale(self.fuzz);
        let scattered = reflected.add(&offset);
        proof {
            lemma_fx_cap_mn(scattered.x as int, rec.normal.x as int);
            lemma_fx_cap_mn(scattered.y as int, rec.normal.y as int);
            lemma_fx_cap_mn(scattered.z as int, rec.normal.z as int);
        }
        let d = scattered.dot(&rec.normal);
        if d > 0 {
            Some((self.albedo, Ray::new(rec.p, scattered)))
        } else {
            None
        }
    }

    /// Fuzzy specular scattering: absorbs when the perturbed reflection
    /// dips below the surface plane.  Without fuzz nothing is random, and
    /// success is decided by the mirrored direction alone.
    pub fn scatter(&self, r_in: &Ray, rec: &HitRecord) -> (r: Option<(Color, Ray)>)
        requires
            color_valid(self.albedo),
            0 <= self.fuzz <= 16 * SCALE,
            bounded3(rec.normal, UNIT_MAX as int),
            bounded3(r_in.direction, 0x1_0000_0000_0000),
            dot3(r_in.direction, r_in.direction) >= 1,
        ensures
            self.fuzz == 0 ==> (r is Some <==> dot3(
                reflect3v(unit3v(r_in.direction), rec.normal),
                rec.normal,
            ) > 0),
            r matches Some(v) ==> {
                &&& v.0 == self.albedo
                &&& v.1.origin == rec.p
                &&& dot3(v.1.direction, rec.normal) > 0
                &&& bounded3(v.1.direction, 0x80_0000)
                &&& exists|s: Vec3|
                    bounded3(s, SCALE as int) && v.1.direction == metal_dir(
                        *r_in,
                        rec.normal,
                        self.fuzz as int,
                        s,
                    )
            },
    {
        let sample = Vec3::random_in_unit_sphere();
        let out = self.scatter_with(r_in, rec, sample);
        proof {
            if out is Some {
                assert(bounded3(sample, SCALE as int) && out->Some_0.1.direction == metal_dir(
                    *r_in,
                    rec.normal,
                    self.fuzz as int,
                    sample,
                ));
            }
            if self.fuzz == 0 {
                crate::vec3::lemma_scale3v_zero(sample);
                assert(metal_dir(*r_in, rec.normal, 0, sample) == reflect3v(
                    unit3v(r_in.direction),
                    rec.normal,
                ));
            }
        }
        out
    }
}

impl Dielectric {
    /// Builds the material.  The refraction index cannot be lower than one;
    /// an upper bound of four keeps the refraction arithmetic in range.
    pub fn new(ref_index: i64) -> (m: Dielectric)
        requires
            SCALE <= ref_index <= 4 * SCALE,
        ensures
            m.ref_index == ref_index,
    {
        Dielectric { ref_index }
    }

    /// Returns the share of light that is reflected, using Schlick's
    /// approximation.
    pub fn reflectance(cos: i64, ref_index: i64) -> (r: i64)
        requires
            abs_int(cos as int) <= SCALE,
            0 <= ref_index <= 4 * SCALE,
        ensures
            r == schlick(cos as int, ref_index as int),
    {
        proof {
            lemma_ratio_quotient_unit(ref_index as int);
        }
        let q = fdiv(SCALE - ref_index, SCALE + ref_index);
        proof {
            lemma_fx_cap_ss(q as int, q as int);
            lemma_square_fx_nonneg(q as int);
        }
        let r0 = fmul(q, q);
        let omc = SCALE - cos;
        proof {
            lemma_fx_cap_rr(omc as int, omc as int);
        }
        let omc2 = fmul(omc, omc);
        proof {
            lemma_fx_cap_pp(omc2 as int, omc2 as int);
        }
        let omc4 = fmul(omc2, omc2);
        proof {
            lemma_fx_cap_p5(omc4 as int, omc as int);
        }
        let p5 = fmul(omc4, omc);
        proof {
            lemma_fx_cap_sp((SCALE - r0) as int, p5 as int);
        }
        r0 + fmul(SCALE - r0, p5)
    }

    /// The deterministic core of the scatter: everything after the uniform
    /// draw that decides between reflection and refraction.
    pub fn scatter_with(&self, r_in: &Ray, rec: &HitRecord, rnd: i64) -> (r: (Color, Ray))
        requires
            SCALE <= self.ref_index <= 4 * SCALE,
            bounded3(rec.normal, UNIT_MAX as int),
            bounded3(r_in.direction, 0x1_0000_0000_0000),
            dot3(r_in.direction, r_in.direction) >= 1,
            rnd >= 0,
        ensures
            color_valid(r.0),
            r.0 == (Color { r: SCALE, g: SCALE, b: SCALE }),
            r.1.origin == rec.p,
            r.1.direction == dielectric_dir(
                *r_in,
                rec.normal,
                self.ref_index as int,
                rec.front_face,
                rnd as int,
            ),
            bounded3(r.1.direction, 0x80_0000),
    {
        let ratio: i64 = if rec.front_face {
            proof {
                lemma_ratio_reciprocal_unit(self.ref_index as int);
            }
            fdiv(SCALE, self.ref_index)
        } else {
            self.ref_index
        };
        let unit_dir = r_in.direction.unit_vector();
        proof {
            lemma_fx_cap_uu(unit_dir.x as int, rec.normal.x as int);
            lemma_fx_cap_uu(unit_dir.y as int, rec.normal.y as int);
            lemma_fx_cap_uu(unit_dir.z as int, rec.normal.z as int);
        }
        let d = unit_dir.dot(&rec.normal);
        let neg_d = -d;
        let cos: i64 = if neg_d > SCALE {
            SCALE
        } else if neg_d < -SCALE {
            -SCALE
        } else {
            neg_d
        };
        proof {
            lemma_fx_cap_ss(cos as int, cos as int);
            lemma_square_fx_nonneg(cos as int);
        }
        let cos2 = fmul(cos, cos);
        let sin = fsqrt(SCALE - cos2);
        proof {
            lemma_sqrt_unit(sin as int, (SCALE - cos2) as int);
            lemma_fx_cap_rr(ratio as int, sin as int);
        }
        let cannot_refract = fmul(ratio, sin) > SCALE;
        let refl = Self::reflectance(cos, ratio);
        let dir = if cannot_refract || refl > rnd {
            unit_dir.reflect(&rec.normal)
        } else {
            unit_dir.refract(&rec.normal, ratio)
        };
        (Color::new(SCALE, SCALE, SCALE), Ray::new(rec.p, dir))
    }

    /// Dielectric scattering: always scatters, with clear-glass attenuation.
    pub fn scatter(&self, r_in: &Ray, rec: &HitRecord) -> (r: Option<(Color, Ray)>)
        requires
            SCALE <= self.ref_index <= 4 * SCALE,
            bounded3(rec.normal, UNIT_MAX as int),
            bounded3(r_in.direction, 0x1_0000_0000_0000),
            dot3(r_in.direction, r_in.direction) >= 1,
        ensures
            r is Some,
            r matches Some(v) ==> {
                &&& v.0 == (Color { r: SCALE, g: SCALE, b: SCALE })
                &&& v.1.origin == rec.p
                &&& bounded3(v.1.direction, 0x80_0000)
                &&& exists|rnd: int|
                    0 <= rnd < SCALE && v.1.direction == dielectric_dir(
                        *r_in,
                        rec.normal,
                        self.ref_index as int,
                        rec.front_face,
                        rnd,
                    )
            },
    {
        let rnd = crate::utils::random_double();
        let out = self.scatter_with(r_in, rec, rnd);
        proof {
            assert(0 <= (rnd as int) < SCALE && out.1.direction == dielectric_dir(
                *r_in,
                rec.normal,
                self.ref_index as int,
                rec.front_face,
                rnd as int,
            ));
        }
        Some(out)
    }
}

impl Material {
    /// Scatters the incoming ray at the given intersection: diffuse and
    /// dielectric surfaces always scatter; a metal surface absorbs the ray
    /// when its fuzzed reflection dips below the surface plane.
    pub fn scatter(&self, r_in: &Ray, rec: &HitRecord) -> (r: Option<(Color, Ray)>)
        requires
            material_valid(*self),
            bounded3(rec.normal, UNIT_MAX as int),
            !near_zero3(rec.normal),
            bounded3(r_in.direction, 0x1_0000_0000_0000),
            dot3(r_in.direction, r_in.direction) >= 1,
        ensures
            self is Lambertian ==> r is Some,
            self is Dielectric ==> r is Some,
            self is Lambertian ==> (r matches Some(v) ==> !near_zero3(v.1.direction)),
            r matches Some(v) ==> {
                &&& v.1.origin == rec.p
                &&& bounded3(v.1.direction, 0x80_0000)
                &&& color_valid(v.0)
                &&& v.0 == material_albedo(*self)
            },
            self matches Material::Metal(m) ==> (m.fuzz == 0 ==> (r is Some <==> dot3(
                reflect3v(unit3v(r_in.direction), rec.normal),
                rec.normal,
            ) > 0)),
            self matches Material::Lambertian(l) ==> (r matches Some(v) ==> v.0 == l.albedo),
            self matches Material::Metal(m) ==> (r matches Some(v) ==> (v.0 == m.albedo && dot3(
                v.1.direction,
                rec.normal,
            ) > 0)),
            self is Dielectric ==> (r matches Some(v) ==> v.0 == (Color {
                r: SCALE,
                g: SCALE,
                b: SCALE,
            })),
    {
        match self {
            Material::Lambertian(l) => l.scatter(r_in, rec),
            Material::Metal(m) => m.scatter(r_in, rec),
            Material::Dielectric(d) => d.scatter(r_in, rec),
        }
    }
}

/// A dielectric of refraction index exactly one passes a head-on ray
/// straight through, whatever the uniform draw: the ratio is one, Schlick's
/// reflectance vanishes at normal incidence, and refraction by ratio one is
/// the identity on the incoming unit direction.  The normal must carry a
/// full unit of squared length, as an axis-aligned normal does; truncation
/// can cost other normals the last bit of the cosine.
pub proof fn lemma_dielectric_identity_head_on(r_in: Ray, n: Vec3, rnd: int)
    requires
        bounded3(n, UNIT_MAX as int),
        unit3v(r_in.direction) == neg3v(n),
        dot3(n, n) >= SCALE,
        rnd >= 0,
    ensures
        dielectric_dir(r_in, n, SCALE as int, true, rnd) == unit3v(r_in.direction),
{
    let u = unit3v(r_in.direction);
    // the ratio of an index-one front-face hit is exactly one
    assert(65536int * 65536 == 4294967296);
    assert(abs_int(4294967296) == 4294967296);
    assert(4294967296int / 65536int == 65536);
    assert(divi_fx(65536, 65536) == 65536);
    assert(dielectric_ratio(65536, true) == 65536);
    // the incoming unit direction is the exact opposite of the normal
    assert(u.x as int == -(n.x as int));
    assert(u.y as int == -(n.y as int));
    assert(u.z as int == -(n.z as int));
    crate::fixed::lemma_mul_fx_neg(n.x as int, n.x as int);
    crate::fixed::lemma_mul_fx_neg(n.y as int, n.y as int);
    crate::fixed::lemma_mul_fx_neg(n.z as int, n.z as int);
    assert(dot3(u, n) == -dot3(n, n));
    // so the clamped cosine is exactly one
    assert(dielectric_cos(r_in, n) == 65536);
    // the sine vanishes, and with it total internal reflection
    crate::vec3::lemma_fx_consts();
    assert(is_isqrt(0, 0));
    crate::fixed::lemma_isqrt_unique(0, 0);
    assert(0int * 65536 == 0);
    assert(sqrt_fx(0) == 0);
    assert(div_trunc(0, 65536) == 0);
    assert(65536int * 0 == 0);
    assert(mul_fx(65536, 0) == 0);
    // Schlick's reflectance is zero at normal incidence through matched media
    assert(0int * 65536 == 0);
    assert(div_trunc(0, 131072) == 0);
    assert(divi_fx(0, 131072) == 0);
    assert(mul_fx(0, 0) == 0);
    assert(schlick(65536, 65536) == 0);
    // every branch test fails, so the direction is the refraction
    assert(dielectric_dir(r_in, n, 65536, true, rnd) == refract3v(u, n, 65536));
    // refraction by ratio one is the identity on the opposite of the normal
    crate::fixed::lemma_mul_fx_identity(n.x as int);
    crate::fixed::lemma_mul_fx_identity(n.y as int);
    crate::fixed::lemma_mul_fx_identity(n.z as int);
    crate::fixed::lemma_mul_fx_identity(0);
    assert(crate::vec3::refract3(u, n, 65536).0 == 0 - mul_fx(n.x as int, sqrt_fx(
        abs_int(65536 - 0),
    )));
    assert(is_isqrt(65536, 4294967296)) by {
        assert(65536int * 65536 == 4294967296);
        assert(65537int * 65537 == 4295098369);
    }
    crate::fixed::lemma_isqrt_unique(4294967296, 65536);
    assert(sqrt_fx(65536) == 65536);
    assert(crate::vec3::refract3(u, n, 65536).0 == -(n.x as int));
    assert(crate::vec3::refract3(u, n, 65536).1 == -(n.y as int));
    assert(crate::vec3::refract3(u, n, 65536).2 == -(n.z as int));
    assert(refract3v(u, n, 65536) == u);
}

/// The quotient `(1 - ratio) / (1 + ratio)` stays in the unit interval for
/// nonnegative ratios.
proof fn lemma_ratio_quotient_unit(ratio: int)
    requires
        0 <= ratio <= 262144,
    ensures
        abs_int(divi_fx(65536 - ratio, 65536 + ratio)) <= 65536,
{
    let num = 65536 - ratio;
    let den = 65536 + ratio;
    crate::fixed::lemma_div_trunc_mag(num * 65536, den);
    crate::fixed::lemma_abs_mul(num, 65536);
    assert(abs_int(num) * 65536 <= den * 65536) by (nonlinear_arith)
        requires
            abs_int(num) <= den,
    ;
    vstd::arithmetic::div_mod::lemma_div_is_ordered(abs_int(num) * 65536, den * 65536, den);
    vstd::arithmetic::div_mod::lemma_div_multiples_vanish(65536, den);
}

/// The reciprocal of a refraction index of at least one stays in the unit
/// interval.
proof fn lemma_ratio_reciprocal_unit(ir: int)
    requires
        65536 <= ir <= 262144,
    ensures
        0 <= divi_fx(65536, ir) <= 65536,
{
    crate::fixed::lemma_div_trunc_mag(65536int * 65536, ir);
    vstd::arithmetic::div_mod::lemma_div_is_ordered_by_denominator(65536int * 65536, 65536, ir);
    vstd::arithmetic::div_mod::lemma_div_multiples_vanish(65536, 65536);
    assert(65536int * 65536 >= 0) by (nonlinear_arith);
}

} // verus!

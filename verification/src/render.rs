//! The recursive radiance estimator.

use vstd::prelude::*;

verus! {

use crate::color::{Color, attenuate3, color_valid};
use crate::fixed::{SCALE, abs_int, div_trunc, fmul, mul_fx};
use crate::hittables::{DIR_MAX, HittableList, ORIGIN_MAX, T_MAX, list_hit, list_wf};
use crate::materials::material_albedo;
use crate::ray::Ray;
use crate::vec3::{Vec3, bounded3, clamp_int, dot3, unit3v};

/// The lower bound of every scene query: a small epsilon that keeps a
/// bounced ray from re-intersecting the surface it just left.
pub const ACNE_EPS: i64 = 66;

/// The deepest recursion the integrator accepts in one call.
pub const MAX_DEPTH: usize = 1024;

/// How far a single bounce can move a ray origin.
pub const BOUNCE_STEP: i64 = 0x2_0000_0000;

/// The background gradient: white at the horizon blending to sky blue at
/// the zenith, driven by the y component of the normalized direction
/// (clamped against truncation slop so the blend stays a color).
pub open spec fn sky3(r: Ray) -> Color {
    let uy = unit3v(r.direction).y;
    let t = clamp_int(div_trunc(uy + 65536, 2), 0, 65536);
    Color {
        r: (65536 - t + mul_fx(t, 32768)) as i64,
        g: (65536 - t + mul_fx(t, 45875)) as i64,
        b: (65536 - t + mul_fx(t, 65536)) as i64,
    }
}

/// A gradient weight applied to a unit-interval channel never exceeds the
/// weight itself.
proof fn lemma_sky_channel(t: int, ch: int)
    requires
        0 <= t <= 65536,
        0 <= ch <= 65536,
    ensures
        0 <= mul_fx(t, ch) <= t,
{
    crate::color::lemma_channel_mul_valid(t, ch);
    crate::fixed::lemma_div_trunc_mag(t * ch, 65536);
    assert(0 <= t * ch <= t * 65536) by (nonlinear_arith)
        requires
            0 <= t,
            0 <= ch <= 65536,
    ;
    vstd::arithmetic::div_mod::lemma_div_is_ordered(t * ch, t * 65536, 65536);
    vstd::arithmetic::div_mod::lemma_div_multiples_vanish(t, 65536);
    assert(t * 65536 == 65536 * t) by (nonlinear_arith);
}

/// One radiance estimate for a ray: black once the bounce budget is spent,
/// the background gradient on a miss, and on a hit the scattered estimate
/// attenuated by the material — or black when the material absorbs the ray.
/// A ray whose direction is too short to square to one fixed-point unit is
/// degenerate; it sees neither the scene nor the gradient and yields black.
pub fn ray_color(r: &Ray, world: &HittableList, depth: usize) -> (c: Color)
    requires
        list_wf(*world),
        bounded3(r.direction, DIR_MAX as int),
        depth <= MAX_DEPTH,
        bounded3(r.origin, ORIGIN_MAX as int - depth * BOUNCE_STEP),
    ensures
        color_valid(c),
        depth == 0 ==> c == (Color { r: 0, g: 0, b: 0 }),
        depth > 0 && dot3(r.direction, r.direction) < 1 ==> c == (Color { r: 0, g: 0, b: 0 }),
        depth > 0 && dot3(r.direction, r.direction) >= 1 && list_hit(
            world.objects@,
            *r,
            ACNE_EPS as int,
            T_MAX as int,
        ) is None ==> c == sky3(*r),
        depth > 0 && dot3(r.direction, r.direction) >= 1 ==> (list_hit(
            world.objects@,
            *r,
            ACNE_EPS as int,
            T_MAX as int,
        ) matches Some(jt) ==> (c == (Color { r: 0, g: 0, b: 0 }) || exists|base: Color|
            color_valid(base) && c == attenuate3(
                material_albedo(world.objects@[jt.0].material),
                base,
            ))),
        depth == 1 && dot3(r.direction, r.direction) >= 1 && list_hit(
            world.objects@,
            *r,
            ACNE_EPS as int,
            T_MAX as int,
        ) is Some ==> c == (Color { r: 0, g: 0, b: 0 }),
    decreases depth,
{
    if depth == 0 {
        return Color::new(0, 0, 0);
    }
    proof {
        crate::vec3::lemma_len2_nonneg(r.direction);
        lemma_dir_caps(r.direction);
    }
    let a = r.direction.dot(&r.direction);
    if a < 1 {
        return Color::new(0, 0, 0);
    }
    match world.hit(r, ACNE_EPS, T_MAX) {
        Some(rec) => {
            match rec.mat.scatter(r, &rec) {
                Some((attenuation, scattered)) => {
                    proof {
                        lemma_p_growth(*r, rec.t as int);
                    }
                    let bounced = ray_color(&scattered, world, depth - 1);
                    let shaded = attenuation.mul(&bounced);
                    proof {
                        assert(attenuation == material_albedo(rec.mat));
                        assert(color_valid(bounced) && shaded == attenuate3(
                            attenuation,
                            bounced,
                        ));
                        if depth == 1 {
                            crate::color::lemma_attenuate_black(attenuation);
                        }
                    }
                    shaded
                },
                None => Color::new(0, 0, 0),
            }
        },
        None => {
            let unit = r.direction.unit_vector();
            let t0 = (unit.y + SCALE) / 2;
            proof {
                crate::fixed::lemma_div_trunc_mag((unit.y + SCALE) as int, 2);
            }
            let t: i64 = if t0 > SCALE {
                SCALE
            } else if t0 < 0 {
                0
            } else {
                t0
            };
            proof {
                lemma_sky_channel(t as int, 32768);
                lemma_sky_channel(t as int, 45875);
                lemma_sky_channel(t as int, 65536);
            }
            let w = SCALE - t;
            let cr = w + fmul(t, 32768);
            let cg = w + fmul(t, 45875);
            let cb = w + fmul(t, 65536);
            Color::new(cr, cg, cb)
        },
    }
}

/// Budgets for the direction dot product of the integrator's query ray.
proof fn lemma_dir_caps(d: Vec3)
    requires
        bounded3(d, DIR_MAX as int),
    ensures
        abs_int(mul_fx(d.x as int, d.x as int)) <= 0x4000_0000,
        abs_int(mul_fx(d.y as int, d.y as int)) <= 0x4000_0000,
        abs_int(mul_fx(d.z as int, d.z as int)) <= 0x4000_0000,
{
    crate::fixed::lemma_mul_fx_bound(d.x as int, d.x as int, 0x80_0000, 0x80_0000);
    crate::fixed::lemma_mul_fx_bound(d.y as int, d.y as int, 0x80_0000, 0x80_0000);
    crate::fixed::lemma_mul_fx_bound(d.z as int, d.z as int, 0x80_0000, 0x80_0000);
}

/// One bounce moves the hit point at most one step away from the origin.
proof fn lemma_p_growth(r: Ray, t: int)
    requires
        bounded3(r.direction, DIR_MAX as int),
        abs_int(t) <= T_MAX,
    ensures
        abs_int(mul_fx(r.direction.x as int, t)) <= BOUNCE_STEP,
        abs_int(mul_fx(r.direction.y as int, t)) <= BOUNCE_STEP,
        abs_int(mul_fx(r.direction.z as int, t)) <= BOUNCE_STEP,
{
    crate::fixed::lemma_mul_fx_bound(r.direction.x as int, t, 0x80_0000, 0x400_0000);
    crate::fixed::lemma_mul_fx_bound(r.direction.y as int, t, 0x80_0000, 0x400_0000);
    crate::fixed::lemma_mul_fx_bound(r.direction.z as int, t, 0x80_0000, 0x400_0000);
}

} // verus!

//! The camera: from normalized image coordinates to scene rays.

use vstd::prelude::*;

verus! {

use crate::fixed::{SCALE, abs_int, div_trunc, fmul, mul_fx};
use crate::hittables::{CENTER_MAX, DIR_MAX};
use crate::ray::Ray;
use crate::fixed::lemma_mul_fx_bound;
use crate::vec3::{
    UNIT_MAX, Point3, Vec3, add3v, bounded3, cross3v, div3v, dot3, lemma_fx_cap_ss,
    lemma_fx_cap_uc, lemma_fx_cap_uu, lemma_len2_nonneg, lemma_mul_fx_mono,
    lemma_square_at_least_unit, scale3v, sub3v, unit3v,
};

/// The largest span component a well-formed camera may carry.
pub const SPAN_MAX: i64 = 0x1F_0000;

/// The largest offset from the eye to the lower-left corner.
pub const CORNER_MAX: i64 = 0x3E_0000;

/// Converts a normalized image coordinate into a ray, optionally through a
/// thin lens for depth of field.
#[derive(Clone, Copy, Debug, PartialEq, Eq, Structural)]
pub struct Camera {
    pub origin: Point3,
    pub lower_left_corner: Point3,
    pub horizontal: Vec3,
    pub vertical: Vec3,
    pub lens_radius: i64,
}

/// The bounds every constructor establishes: the eye inside the scene
/// envelope, spans that keep generated ray directions within the tracing
/// range, spans long enough to normalize, and a unit-interval lens radius.
pub open spec fn camera_wf(c: Camera) -> bool {
    &&& bounded3(c.origin, CENTER_MAX as int)
    &&& bounded3(c.horizontal, SPAN_MAX as int)
    &&& bounded3(c.vertical, SPAN_MAX as int)
    &&& dot3(c.horizontal, c.horizontal) >= 1
    &&& dot3(c.vertical, c.vertical) >= 1
    &&& abs_int(c.lower_left_corner.x - c.origin.x) <= CORNER_MAX
    &&& abs_int(c.lower_left_corner.y - c.origin.y) <= CORNER_MAX
    &&& abs_int(c.lower_left_corner.z - c.origin.z) <= CORNER_MAX
    &&& 0 <= c.lens_radius <= SCALE
}

/// The ray the camera casts for image coordinates `(s, t)` and lens sample
/// `rnd`: from the lens point toward the viewport point.
pub open spec fn cam_ray(c: Camera, s: int, t: int, rnd: Vec3) -> Ray {
    let rc = scale3v(rnd, c.lens_radius as int);
    let offset = add3v(
        scale3v(unit3v(c.horizontal), rc.x as int),
        scale3v(unit3v(c.vertical), rc.y as int),
    );
    Ray {
        origin: add3v(c.origin, offset),
        direction: sub3v(
            sub3v(
                add3v(
                    add3v(c.lower_left_corner, scale3v(c.horizontal, s)),
                    scale3v(c.vertical, t),
                ),
                c.origin,
            ),
            offset,
        ),
    }
}

/// The orthonormal-basis vectors a positioned camera derives.
pub open spec fn cam_w(origin: Vec3, lookat: Vec3) -> Vec3 {
    unit3v(sub3v(origin, lookat))
}

/// The rightward basis vector: the up hint crossed with `w`, normalized.
pub open spec fn cam_u(vup: Vec3, w: Vec3) -> Vec3 {
    unit3v(cross3v(vup, w))
}

/// The candidate fields of a positioned camera, before validation.
pub open spec fn cam_focusable(
    origin: Vec3,
    lookat: Vec3,
    vup: Vec3,
    h_tan: int,
    aspect: int,
    aperture: int,
    focus_dist: int,
) -> Camera {
    let w = cam_w(origin, lookat);
    let u = cam_u(vup, w);
    let v = cross3v(w, u);
    let vh = 2 * h_tan;
    let vw = mul_fx(aspect, vh);
    let horizontal = scale3v(u, mul_fx(focus_dist, vw));
    let vertical = scale3v(v, mul_fx(focus_dist, vh));
    let llc = sub3v(
        sub3v(
            sub3v(origin, div3v(horizontal, 131072)),
            div3v(vertical, 131072),
        ),
        scale3v(w, focus_dist),
    );
    Camera {
        origin,
        lower_left_corner: llc,
        horizontal,
        vertical,
        lens_radius: div_trunc(aperture, 2) as i64,
    }
}

/// Whether a positioned camera can be built at all: the eye must stand away
/// from the target, the up hint must not be parallel to the view axis, and
/// the derived spans must stay inside the tracing envelope.
pub open spec fn cam_focusable_valid(
    origin: Vec3,
    lookat: Vec3,
    vup: Vec3,
    h_tan: int,
    aspect: int,
    aperture: int,
    focus_dist: int,
) -> bool {
    let gaze = sub3v(origin, lookat);
    let cr = cross3v(vup, cam_w(origin, lookat));
    let c = cam_focusable(origin, lookat, vup, h_tan, aspect, aperture, focus_dist);
    &&& dot3(gaze, gaze) >= 1
    &&& dot3(cr, cr) >= 1
    &&& bounded3(c.horizontal, SPAN_MAX as int)
    &&& bounded3(c.vertical, SPAN_MAX as int)
    &&& dot3(c.horizontal, c.horizontal) >= 1
    &&& dot3(c.vertical, c.vertical) >= 1
    &&& abs_int(c.lower_left_corner.x - c.origin.x) <= CORNER_MAX
    &&& abs_int(c.lower_left_corner.y - c.origin.y) <= CORNER_MAX
    &&& abs_int(c.lower_left_corner.z - c.origin.z) <= CORNER_MAX
}

impl Camera {
    /// Returns a camera placed at the coordinate origin looking down the
    /// negative z axis.
    ///
    /// Arguments:
    ///
    /// * `h_tan`: tangent of half the vertical field of view, as a
    ///   fixed-point scalar; the caller computes it with its host trig.
    /// * `aspect_ratio`: width over height of the viewport, between a
    ///   quarter and four — the span the fixed-point viewport arithmetic
    ///   covers.
    pub fn new(h_tan: i64, aspect_ratio: i64) -> (c: Camera)
        requires
            512 <= h_tan <= 0x2_0000,
            SCALE / 4 <= aspect_ratio <= 4 * SCALE,
        ensures
            camera_wf(c),
            c.origin == (Vec3 { x: 0, y: 0, z: 0 }),
            c.lens_radius == 0,
            c.vertical == (Vec3 { x: 0, y: (2 * h_tan) as i64, z: 0 }),
            c.horizontal == (Vec3 { x: mul_fx(aspect_ratio as int, 2 * h_tan) as i64, y: 0, z: 0 }),
            c.lower_left_corner == (Vec3 {
                x: (-div_trunc(mul_fx(aspect_ratio as int, 2 * h_tan), 2)) as i64,
                y: (-h_tan) as i64,
                z: (-SCALE) as i64,
            }),
    {
        let viewport_height: i64 = 2 * h_tan;
        proof {
            lemma_mul_fx_bound(aspect_ratio as int, viewport_height as int, 262144, 0x4_0000);
            lemma_quarter_width_unit(aspect_ratio as int, viewport_height as int);
            lemma_square_at_least_unit(viewport_height as int);
        }
        let viewport_width: i64 = fmul(aspect_ratio, viewport_height);
        proof {
            lemma_square_at_least_unit(viewport_width as int);
            crate::fixed::lemma_div_trunc_mag(viewport_width as int, 2);
            lemma_fx_cap_ss(0, 0);
        }
        let origin = Vec3 { x: 0, y: 0, z: 0 };
        let horizontal = Vec3 { x: viewport_width, y: 0, z: 0 };
        let vertical = Vec3 { x: 0, y: viewport_height, z: 0 };
        let lower_left_corner = Vec3 { x: -(viewport_width / 2), y: -h_tan, z: -SCALE };
        proof {
            lemma_len2_nonneg(horizontal);
            lemma_len2_nonneg(vertical);
        }
        Camera { origin, lower_left_corner, horizontal, vertical, lens_radius: 0 }
    }

    /// Returns a camera at an explicit eye position with everything in
    /// focus, or nothing when the placement degenerates.
    pub fn new_positional(
        origin: Point3,
        lookat: Point3,
        vup: Vec3,
        h_tan: i64,
        aspect_ratio: i64,
    ) -> (c: Option<Camera>)
        requires
            bounded3(origin, 0x4000_0000),
            bounded3(lookat, 0x4000_0000),
            bounded3(vup, 0x10_0000),
            512 <= h_tan <= 0x2_0000,
            SCALE / 4 <= aspect_ratio <= 4 * SCALE,
        ensures
            c is Some <==> cam_focusable_valid(
                origin,
                lookat,
                vup,
                h_tan as int,
                aspect_ratio as int,
                0,
                SCALE as int,
            ),
            c matches Some(cam) ==> {
                &&& camera_wf(cam)
                &&& cam == cam_focusable(
                    origin,
                    lookat,
                    vup,
                    h_tan as int,
                    aspect_ratio as int,
                    0,
                    SCALE as int,
                )
            },
    {
        Self::new_focusable(origin, lookat, vup, h_tan, aspect_ratio, 0, SCALE)
    }

    /// Returns a camera at an explicit eye position with a thin lens, or
    /// nothing when the placement degenerates.
    ///
    /// Arguments:
    ///
    /// * `aperture`: diameter of the lens; a larger aperture gives more
    ///   focus blur, zero gives a pinhole camera.
    /// * `focus_dist`: distance from the eye to the plane in focus.
    #[verifier::rlimit(100)]
    pub fn new_focusable(
        origin: Point3,
        lookat: Point3,
        vup: Vec3,
        h_tan: i64,
        aspect_ratio: i64,
        aperture: i64,
        focus_dist: i64,
    ) -> (c: Option<Camera>)
        requires
            bounded3(origin, 0x4000_0000),
            bounded3(lookat, 0x4000_0000),
            bounded3(vup, 0x10_0000),
            512 <= h_tan <= 0x2_0000,
            SCALE / 4 <= aspect_ratio <= 4 * SCALE,
            0 <= aperture <= 2 * SCALE,
            SCALE / 16 <= focus_dist <= 0x100_0000,
        ensures
            c is Some <==> cam_focusable_valid(
                origin,
                lookat,
                vup,
                h_tan as int,
                aspect_ratio as int,
                aperture as int,
                focus_dist as int,
            ),
            c matches Some(cam) ==> {
                &&& camera_wf(cam)
                &&& cam == cam_focusable(
                    origin,
                    lookat,
                    vup,
                    h_tan as int,
                    aspect_ratio as int,
                    aperture as int,
                    focus_dist as int,
                )
            },
    {
        let gaze = origin.sub(&lookat);
        proof {
            lemma_gaze_caps(gaze);
        }
        let g2 = gaze.dot(&gaze);
        if g2 < 1 {
            return None;
        }
        let w = gaze.unit_vector();
        proof {
            lemma_cross_caps(vup, w);
        }
        let cr = vup.cross(&w);
        proof {
            lemma_cross_self_caps(cr);
        }
        let c2 = cr.dot(&cr);
        if c2 < 1 {
            return None;
        }
        let u = cr.unit_vector();
        proof {
            lemma_unit_cross_caps(w, u);
        }
        let v = w.cross(&u);
        let viewport_height: i64 = 2 * h_tan;
        proof {
            lemma_mul_fx_bound(aspect_ratio as int, viewport_height as int, 262144, 0x4_0000);
        }
        let viewport_width: i64 = fmul(aspect_ratio, viewport_height);
        proof {
            lemma_mul_fx_bound(focus_dist as int, viewport_width as int, 0x100_0000, 0x10_0000);
            lemma_mul_fx_bound(focus_dist as int, viewport_height as int, 0x100_0000, 0x4_0000);
        }
        let hspan = fmul(focus_dist, viewport_width);
        let vspan = fmul(focus_dist, viewport_height);
        proof {
            lemma_span_scale_caps(u, hspan as int);
            lemma_span_scale_caps(v, vspan as int);
            lemma_span_scale_caps(w, focus_dist as int);
        }
        let horizontal = u.scale(hspan);
        let vertical = v.scale(vspan);
        let fw = w.scale(focus_dist);
        if !(in_span(&horizontal) && in_span(&vertical)) {
            return None;
        }
        proof {
            lemma_len2_nonneg(horizontal);
            lemma_len2_nonneg(vertical);
            lemma_half_caps(horizontal);
            lemma_half_caps(vertical);
            lemma_span_dot_caps(horizontal);
            lemma_span_dot_caps(vertical);
        }
        let h2 = horizontal.dot(&horizontal);
        let v2 = vertical.dot(&vertical);
        if h2 < 1 || v2 < 1 {
            return None;
        }
        let half_h = horizontal.div_scalar(2 * SCALE);
        let half_v = vertical.div_scalar(2 * SCALE);
        let llc = origin.sub(&half_h).sub(&half_v).sub(&fw);
        let d = llc.sub(&origin);
        if !(-CORNER_MAX <= d.x && d.x <= CORNER_MAX && -CORNER_MAX <= d.y && d.y <= CORNER_MAX
            && -CORNER_MAX <= d.z && d.z <= CORNER_MAX) {
            return None;
        }
        proof {
            crate::fixed::lemma_div_trunc_mag(aperture as int, 2);
        }
        Some(
            Camera {
                origin,
                lower_left_corner: llc,
                horizontal,
                vertical,
                lens_radius: aperture / 2,
            },
        )
    }

    /// Casts the ray through image coordinates `(s, t)`, each in the unit
    /// interval, jittered across the lens when the aperture is open.
    #[verifier::rlimit(60)]
    pub fn get_ray(&self, s: i64, t: i64) -> (r: Ray)
        requires
            camera_wf(*self),
            0 <= s <= SCALE,
            0 <= t <= SCALE,
        ensures
            bounded3(r.direction, DIR_MAX as int),
            bounded3(r.origin, CENTER_MAX as int + 0x4_0000),
            exists|rnd: Vec3|
                {
                    &&& bounded3(rnd, SCALE as int)
                    &&& rnd.z == 0
                    &&& dot3(rnd, rnd) < SCALE
                    &&& r == cam_ray(*self, s as int, t as int, rnd)
                },
            self.lens_radius == 0 ==> r.origin == self.origin,
    {
        let rnd = Vec3::random_in_unit_circle();
        proof {
            lemma_fx_cap_ss(rnd.x as int, self.lens_radius as int);
            lemma_fx_cap_ss(rnd.y as int, self.lens_radius as int);
            lemma_fx_cap_ss(rnd.z as int, self.lens_radius as int);
        }
        let rc = rnd.scale(self.lens_radius);
        let uh = self.horizontal.unit_vector();
        let uv = self.vertical.unit_vector();
        proof {
            lemma_fx_cap_uc(uh.x as int, rc.x as int);
            lemma_fx_cap_uc(uh.y as int, rc.x as int);
            lemma_fx_cap_uc(uh.z as int, rc.x as int);
            lemma_fx_cap_uc(uv.x as int, rc.y as int);
            lemma_fx_cap_uc(uv.y as int, rc.y as int);
            lemma_fx_cap_uc(uv.z as int, rc.y as int);
        }
        let o1 = uh.scale(rc.x);
        let o2 = uv.scale(rc.y);
        let offset = o1.add(&o2);
        proof {
            lemma_span_unit_caps(self.horizontal, s as int);
            lemma_span_unit_caps(self.vertical, t as int);
        }
        let sh = self.horizontal.scale(s);
        let sv = self.vertical.scale(t);
        let dir = self.lower_left_corner.add(&sh).add(&sv).sub(&self.origin).sub(&offset);
        let eye = self.origin.add(&offset);
        proof {
            if self.lens_radius == 0 {
                crate::vec3::lemma_scale3v_zero(rnd);
                lemma_zero_scale2(uh, uv);
            }
        }
        Ray::new(eye, dir)
    }
}

impl Default for Camera {
    /// The pinhole camera of a 16:9 viewport of height 2.0 at the origin,
    /// looking down the negative z axis.
    fn default() -> (c: Camera)
        ensures
            camera_wf(c),
            c.origin == (Vec3 { x: 0, y: 0, z: 0 }),
            c.lens_radius == 0,
            c.horizontal == (Vec3 { x: 233016, y: 0, z: 0 }),
            c.vertical == (Vec3 { x: 0, y: 131072, z: 0 }),
            c.lower_left_corner == (Vec3 { x: -116508i64, y: -65536i64, z: -65536i64 }),
    {
        let c = Camera::new(SCALE, 116508);
        proof {
            lemma_default_viewport();
        }
        c
    }
}

/// The viewport arithmetic of the default camera, folded to its values: a
/// 16:9 aspect ratio at viewport height 2.0 gives width 32/9.
proof fn lemma_default_viewport()
    ensures
        mul_fx(116508, 131072) == 233016,
        div_trunc(233016, 2) == 116508,
{
    assert(116508int * 131072 == 15270936576);
    assert(abs_int(15270936576) == 15270936576);
    assert(15270936576int / 65536int == 233016);
    assert(abs_int(233016) == 233016);
    assert(233016int / 2int == 116508);
}

/// Whether both spans of a candidate camera stay inside the envelope.
fn in_span(a: &Vec3) -> (r: bool)
    ensures
        r == bounded3(*a, SPAN_MAX as int),
{
    -SPAN_MAX <= a.x && a.x <= SPAN_MAX && -SPAN_MAX <= a.y && a.y <= SPAN_MAX && -SPAN_MAX <= a.z
        && a.z <= SPAN_MAX
}

/// Budgets for the gaze vector's squared length.
proof fn lemma_gaze_caps(g: Vec3)
    requires
        bounded3(g, 0x8000_0000),
    ensures
        abs_int(mul_fx(g.x as int, g.x as int)) <= 0x4000_0000_0000,
        abs_int(mul_fx(g.y as int, g.y as int)) <= 0x4000_0000_0000,
        abs_int(mul_fx(g.z as int, g.z as int)) <= 0x4000_0000_0000,
{
    lemma_mul_fx_bound(g.x as int, g.x as int, 0x8000_0000, 0x8000_0000);
    lemma_mul_fx_bound(g.y as int, g.y as int, 0x8000_0000, 0x8000_0000);
    lemma_mul_fx_bound(g.z as int, g.z as int, 0x8000_0000, 0x8000_0000);
}

/// Budgets for the up-hint cross product.
proof fn lemma_cross_caps(a: Vec3, w: Vec3)
    requires
        bounded3(a, 0x10_0000),
        bounded3(w, UNIT_MAX as int),
    ensures
        abs_int(mul_fx(a.x as int, w.x as int)) <= 0x20_0000,
        abs_int(mul_fx(a.x as int, w.y as int)) <= 0x20_0000,
        abs_int(mul_fx(a.x as int, w.z as int)) <= 0x20_0000,
        abs_int(mul_fx(a.y as int, w.x as int)) <= 0x20_0000,
        abs_int(mul_fx(a.y as int, w.y as int)) <= 0x20_0000,
        abs_int(mul_fx(a.y as int, w.z as int)) <= 0x20_0000,
        abs_int(mul_fx(a.z as int, w.x as int)) <= 0x20_0000,
        abs_int(mul_fx(a.z as int, w.y as int)) <= 0x20_0000,
        abs_int(mul_fx(a.z as int, w.z as int)) <= 0x20_0000,
{
    lemma_mul_fx_bound(a.x as int, w.x as int, 0x10_0000, UNIT_MAX as int);
    lemma_mul_fx_bound(a.x as int, w.y as int, 0x10_0000, UNIT_MAX as int);
    lemma_mul_fx_bound(a.x as int, w.z as int, 0x10_0000, UNIT_MAX as int);
    lemma_mul_fx_bound(a.y as int, w.x as int, 0x10_0000, UNIT_MAX as int);
    lemma_mul_fx_bound(a.y as int, w.y as int, 0x10_0000, UNIT_MAX as int);
    lemma_mul_fx_bound(a.y as int, w.z as int, 0x10_0000, UNIT_MAX as int);
    lemma_mul_fx_bound(a.z as int, w.x as int, 0x10_0000, UNIT_MAX as int);
    lemma_mul_fx_bound(a.z as int, w.y as int, 0x10_0000, UNIT_MAX as int);
    lemma_mul_fx_bound(a.z as int, w.z as int, 0x10_0000, UNIT_MAX as int);
}

/// Budgets for the squared length of the up-hint cross product.
proof fn lemma_cross_self_caps(c: Vec3)
    requires
        bounded3(c, 0x40_0000),
    ensures
        abs_int(mul_fx(c.x as int, c.x as int)) <= 0x10_0000_0000,
        abs_int(mul_fx(c.y as int, c.y as int)) <= 0x10_0000_0000,
        abs_int(mul_fx(c.z as int, c.z as int)) <= 0x10_0000_0000,
{
    lemma_mul_fx_bound(c.x as int, c.x as int, 0x40_0000, 0x40_0000);
    lemma_mul_fx_bound(c.y as int, c.y as int, 0x40_0000, 0x40_0000);
    lemma_mul_fx_bound(c.z as int, c.z as int, 0x40_0000, 0x40_0000);
}

/// Budgets for the cross product of the two normalized basis vectors.
proof fn lemma_unit_cross_caps(w: Vec3, u: Vec3)
    requires
        bounded3(w, UNIT_MAX as int),
        bounded3(u, UNIT_MAX as int),
    ensures
        abs_int(mul_fx(w.x as int, u.x as int)) <= 262144,
        abs_int(mul_fx(w.x as int, u.y as int)) <= 262144,
        abs_int(mul_fx(w.x as int, u.z as int)) <= 262144,
        abs_int(mul_fx(w.y as int, u.x as int)) <= 262144,
        abs_int(mul_fx(w.y as int, u.y as int)) <= 262144,
        abs_int(mul_fx(w.y as int, u.z as int)) <= 262144,
        abs_int(mul_fx(w.z as int, u.x as int)) <= 262144,
        abs_int(mul_fx(w.z as int, u.y as int)) <= 262144,
        abs_int(mul_fx(w.z as int, u.z as int)) <= 262144,
{
    lemma_fx_cap_uu(w.x as int, u.x as int);
    lemma_fx_cap_uu(w.x as int, u.y as int);
    lemma_fx_cap_uu(w.x as int, u.z as int);
    lemma_fx_cap_uu(w.y as int, u.x as int);
    lemma_fx_cap_uu(w.y as int, u.y as int);
    lemma_fx_cap_uu(w.y as int, u.z as int);
    lemma_fx_cap_uu(w.z as int, u.x as int);
    lemma_fx_cap_uu(w.z as int, u.y as int);
    lemma_fx_cap_uu(w.z as int, u.z as int);
}

/// Budgets for scaling a basis vector by a span.
proof fn lemma_span_scale_caps(b: Vec3, s: int)
    requires
        bounded3(b, 0x80_0000),
        abs_int(s) <= 0x4000_0000,
    ensures
        abs_int(mul_fx(b.x as int, s)) <= 0x2_0000_0000_0000,
        abs_int(mul_fx(b.y as int, s)) <= 0x2_0000_0000_0000,
        abs_int(mul_fx(b.z as int, s)) <= 0x2_0000_0000_0000,
{
    lemma_mul_fx_bound(b.x as int, s, 0x80_0000, 0x4000_0000);
    lemma_mul_fx_bound(b.y as int, s, 0x80_0000, 0x4000_0000);
    lemma_mul_fx_bound(b.z as int, s, 0x80_0000, 0x4000_0000);
}

/// Budgets for halving a span.
proof fn lemma_half_caps(h: Vec3)
    requires
        bounded3(h, SPAN_MAX as int),
    ensures
        abs_int(crate::fixed::divi_fx(h.x as int, 131072)) <= SPAN_MAX,
        abs_int(crate::fixed::divi_fx(h.y as int, 131072)) <= SPAN_MAX,
        abs_int(crate::fixed::divi_fx(h.z as int, 131072)) <= SPAN_MAX,
{
    crate::fixed::lemma_div_trunc_mag((h.x as int) * 65536, 131072);
    crate::fixed::lemma_div_trunc_mag((h.y as int) * 65536, 131072);
    crate::fixed::lemma_div_trunc_mag((h.z as int) * 65536, 131072);
    crate::fixed::lemma_abs_mul(h.x as int, 65536);
    crate::fixed::lemma_abs_mul(h.y as int, 65536);
    crate::fixed::lemma_abs_mul(h.z as int, 65536);
    vstd::arithmetic::div_mod::lemma_div_is_ordered(
        abs_int(h.x as int) * 65536,
        (SPAN_MAX as int) * 65536,
        131072,
    );
    vstd::arithmetic::div_mod::lemma_div_is_ordered(
        abs_int(h.y as int) * 65536,
        (SPAN_MAX as int) * 65536,
        131072,
    );
    vstd::arithmetic::div_mod::lemma_div_is_ordered(
        abs_int(h.z as int) * 65536,
        (SPAN_MAX as int) * 65536,
        131072,
    );
}

/// Even the narrowest accepted aspect ratio keeps the viewport width long
/// enough to normalize.
proof fn lemma_quarter_width_unit(aspect: int, vh: int)
    requires
        16384 <= aspect,
        1024 <= vh <= 0x4_0000,
    ensures
        mul_fx(aspect, vh) >= 256,
{
    lemma_mul_fx_mono(aspect, 16384, vh);
    crate::fixed::lemma_div_trunc_mag(16384 * vh, 65536);
    assert(16384 * vh >= 16777216);
    vstd::arithmetic::div_mod::lemma_div_is_ordered(16777216, 16384 * vh, 65536);
    assert(16777216int / 65536int == 256);
}

/// Budgets for the squared length of a span.
proof fn lemma_span_dot_caps(h: Vec3)
    requires
        bounded3(h, SPAN_MAX as int),
    ensures
        abs_int(mul_fx(h.x as int, h.x as int)) <= 0x4000_0000,
        abs_int(mul_fx(h.y as int, h.y as int)) <= 0x4000_0000,
        abs_int(mul_fx(h.z as int, h.z as int)) <= 0x4000_0000,
{
    lemma_mul_fx_bound(h.x as int, h.x as int, SPAN_MAX as int, SPAN_MAX as int);
    lemma_mul_fx_bound(h.y as int, h.y as int, SPAN_MAX as int, SPAN_MAX as int);
    lemma_mul_fx_bound(h.z as int, h.z as int, SPAN_MAX as int, SPAN_MAX as int);
}

/// Budgets for walking the viewport by a unit-interval coordinate.
proof fn lemma_span_unit_caps(h: Vec3, s: int)
    requires
        bounded3(h, SPAN_MAX as int),
        0 <= s <= 65536,
    ensures
        abs_int(mul_fx(h.x as int, s)) <= SPAN_MAX,
        abs_int(mul_fx(h.y as int, s)) <= SPAN_MAX,
        abs_int(mul_fx(h.z as int, s)) <= SPAN_MAX,
{
    lemma_mul_fx_bound(h.x as int, s, SPAN_MAX as int, 65536);
    lemma_mul_fx_bound(h.y as int, s, SPAN_MAX as int, 65536);
    lemma_mul_fx_bound(h.z as int, s, SPAN_MAX as int, 65536);
}

/// A zero lens sample moves the eye by nothing.
proof fn lemma_zero_scale2(uh: Vec3, uv: Vec3)
    ensures
        add3v(scale3v(uh, 0), scale3v(uv, 0)) == (Vec3 { x: 0, y: 0, z: 0 }),
{
    crate::vec3::lemma_scale3v_zero(uh);
    crate::vec3::lemma_scale3v_zero(uv);
}

} // verus!

use raytracer::camera::Camera;
use raytracer::fixed::SCALE;
use raytracer::hittables::{HittableList, Sphere};
use raytracer::materials::{Dielectric, Lambertian, Material, Metal};
use raytracer::render::ray_color;
use raytracer::{Color, HitRecord, Ray, Vec3};

fn head_on_record(mat: Material) -> (Ray, HitRecord) {
    let r = Ray::new(Vec3::new(0, 0, 0), Vec3::new(0, 0, -SCALE));
    let rec = HitRecord::new(Vec3::new(0, 0, -SCALE), &r, Vec3::new(0, 0, SCALE), mat, SCALE);
    (r, rec)
}

#[test]
fn write_color_round_trip() {
    let c = Color::new(0, SCALE / 2, SCALE);
    let (r, g, b) = c.write_color();
    // round(channel * 255) for each channel
    assert_eq!(r, 0);
    assert_eq!(g, 128);
    assert_eq!(b, 255);
    let quarter = Color::new(SCALE / 4, SCALE / 4, SCALE / 4);
    assert_eq!(quarter.write_color(), (64, 64, 64));
}

#[test]
fn color_validity_and_products() {
    let c = Color::new(SCALE / 2, SCALE, 0);
    assert!(c.valid());
    let p = c.mul(&c);
    assert_eq!(p.red(), SCALE / 4);
    assert_eq!(p.green(), SCALE);
    assert_eq!(p.blue(), 0);
    let g = Color::new(SCALE / 4, 0, SCALE).gamma2();
    assert_eq!(g.red(), SCALE / 2);
    assert_eq!(g.blue(), SCALE);
}

#[test]
fn color_from_vec_rejects_out_of_range() {
    assert!(Color::from_vec(&Vec3::new(0, SCALE, SCALE / 3)).is_some());
    assert!(Color::from_vec(&Vec3::new(-1, 0, 0)).is_none());
    assert!(Color::from_vec(&Vec3::new(0, SCALE + 1, 0)).is_none());
}

#[test]
fn lambertian_never_absorbs() {
    let albedo = Color::new(SCALE / 2, SCALE / 2, SCALE / 2);
    let (r, rec) = head_on_record(Material::Lambertian(Lambertian::new(albedo)));
    let lam = Lambertian::new(albedo);
    for _ in 0..32 {
        let out = lam.scatter(&r, &rec).expect("diffuse scatter always succeeds");
        assert_eq!(out.0, albedo);
        assert_eq!(out.1.origin(), rec.get_inpact_point());
        // the scattered direction is never degenerate: some component
        // clears the near-zero epsilon
        let d = out.1.direction();
        assert!(d.x().abs() >= 256 || d.y().abs() >= 256 || d.z().abs() >= 256);
    }
}

#[test]
fn dielectric_never_absorbs() {
    let glass = Dielectric::new(3 * SCALE / 2);
    let (r, rec) = head_on_record(Material::Dielectric(glass));
    for _ in 0..32 {
        let out = glass.scatter(&r, &rec).expect("glass scatter always succeeds");
        // clear glass: no color absorption
        assert_eq!(out.0, Color::new(SCALE, SCALE, SCALE));
    }
}

#[test]
fn metal_reflects_head_on() {
    let albedo = Color::new(SCALE / 2, SCALE / 2, SCALE / 2);
    let metal = Metal::new(albedo, 0);
    let (r, rec) = head_on_record(Material::Metal(metal));
    let out = metal.scatter_with(&r, &rec, Vec3::new(0, 0, 0)).expect("mirror must reflect");
    assert_eq!(out.1.direction(), Vec3::new(0, 0, SCALE));
}

#[test]
fn metal_absorbs_below_horizon() {
    let albedo = Color::new(SCALE / 2, SCALE / 2, SCALE / 2);
    let metal = Metal::new(albedo, SCALE);
    // grazing incidence: the reflection barely clears the surface, so a
    // fuzz sample pointing inward flips it below the horizon
    let r = Ray::new(Vec3::new(0, 0, SCALE), Vec3::new(SCALE, 0, -256));
    let rec = HitRecord::new(
        Vec3::new(SCALE, 0, SCALE),
        &r,
        Vec3::new(0, 0, SCALE),
        Material::Metal(metal),
        SCALE,
    );
    let absorbed = metal.scatter_with(&r, &rec, Vec3::new(0, 0, -SCALE / 2));
    assert!(absorbed.is_none());
    // the same geometry without fuzz scatters fine
    let mirror = Metal::new(albedo, 0);
    assert!(mirror.scatter_with(&r, &rec, Vec3::new(0, 0, -SCALE / 2)).is_some());
}

#[test]
fn metal_without_fuzz_is_deterministic() {
    // with no fuzz the random draw cannot matter: every scatter succeeds
    // with exactly the mirrored direction
    let albedo = Color::new(SCALE / 2, SCALE / 2, SCALE / 2);
    let metal = Metal::new(albedo, 0);
    let (r, rec) = head_on_record(Material::Metal(metal));
    for _ in 0..32 {
        let out = metal.scatter(&r, &rec).expect("a fuzz-free mirror always reflects head-on");
        assert_eq!(out.1.direction(), Vec3::new(0, 0, SCALE));
    }
}

#[test]
fn metal_fuzz_above_one_is_accepted() {
    // the envelope admits fuzz radii well past one; the offset scales with it
    let albedo = Color::new(SCALE / 2, SCALE / 2, SCALE / 2);
    let rough = Metal::new(albedo, 2 * SCALE);
    let (r, rec) = head_on_record(Material::Metal(rough));
    let out = rough
        .scatter_with(&r, &rec, Vec3::new(SCALE / 2, 0, 0))
        .expect("an in-plane offset keeps the reflection above the horizon");
    // reflected (0,0,1) plus twice the sample (0.5,0,0)
    assert_eq!(out.1.direction(), Vec3::new(SCALE, 0, SCALE));
}

#[test]
fn portrait_camera_builds() {
    // an aspect ratio below one (a portrait viewport) is accepted
    let narrow = Camera::new(SCALE, SCALE / 4);
    let ray = narrow.get_ray(SCALE / 2, SCALE / 2);
    assert!(ray.direction().z() < 0);
    let eye = Vec3::new(3 * SCALE, 3 * SCALE, 2 * SCALE);
    let lookat = Vec3::new(0, 0, -SCALE);
    let vup = Vec3::new(0, SCALE, 0);
    assert!(Camera::new_positional(eye, lookat, vup, 11556, SCALE / 2).is_some());
}

#[test]
fn dielectric_index_one_passes_head_on_ray_through() {
    let vacuum = Dielectric::new(SCALE);
    let (r, rec) = head_on_record(Material::Dielectric(vacuum));
    // a draw of zero never selects the Schlick reflection branch, whose
    // reflectance is exactly zero at normal incidence with ratio one
    let out = vacuum.scatter_with(&r, &rec, 0);
    assert_eq!(out.0, Color::new(SCALE, SCALE, SCALE));
    assert_eq!(out.1.direction(), r.direction());
    assert_eq!(out.1.origin(), rec.get_inpact_point());
}

#[test]
fn schlick_reflectance_values() {
    // normal incidence through matched media reflects nothing
    assert_eq!(Dielectric::reflectance(SCALE, SCALE), 0);
    // grazing incidence reflects everything
    assert!(Dielectric::reflectance(0, SCALE) > 0);
}

#[test]
fn ray_color_depth_zero_is_black() {
    let mut world = HittableList::new(Sphere::new(
        Vec3::new(0, 0, -2 * SCALE),
        SCALE,
        Material::Lambertian(Lambertian::new(Color::new(SCALE / 2, SCALE / 2, SCALE / 2))),
    ));
    world.add(Sphere::new(
        Vec3::new(0, -100 * SCALE, -2 * SCALE),
        50 * SCALE,
        Material::Metal(Metal::new(Color::new(SCALE, SCALE, SCALE), 0)),
    ));
    let r = Ray::new(Vec3::new(0, 0, 0), Vec3::new(SCALE / 2, SCALE / 3, -SCALE));
    assert_eq!(ray_color(&r, &world, 0), Color::new(0, 0, 0));
}

#[test]
fn ray_color_miss_is_sky_gradient() {
    let world = HittableList::new(Sphere::new(
        Vec3::new(0, 0, -4 * SCALE),
        SCALE,
        Material::Lambertian(Lambertian::new(Color::new(SCALE / 2, SCALE / 2, SCALE / 2))),
    ));
    // straight up: pure sky blue
    let up = Ray::new(Vec3::new(0, 0, 0), Vec3::new(0, SCALE, 0));
    let c = ray_color(&up, &world, 4);
    assert_eq!(c, Color::new(SCALE / 2, 45875, SCALE));
    // horizontal: halfway between white and sky blue
    let level = Ray::new(Vec3::new(0, 0, 0), Vec3::new(SCALE, 0, 0));
    assert_eq!(ray_color(&level, &world, 4), Color::new(49152, 55705, SCALE));
}

#[test]
fn small_render_sphere_covers_center() {
    let world = HittableList::new(Sphere::new(
        Vec3::new(0, 0, -SCALE),
        SCALE / 2,
        Material::Lambertian(Lambertian::new(Color::new(SCALE / 2, SCALE / 2, SCALE / 2))),
    ));
    // narrow field of view: all four pixel centers of a 2x2 image hit the
    // sphere; with one bounce left the diffuse hit comes back black
    let narrow = Camera::new(512, SCALE);
    for &s in &[SCALE / 4, 3 * SCALE / 4] {
        for &t in &[SCALE / 4, 3 * SCALE / 4] {
            let ray = narrow.get_ray(s, t);
            let c = ray_color(&ray, &world, 1);
            assert_eq!(c, Color::new(0, 0, 0), "expected a surface hit, not background");
        }
    }
    // wide field of view: the footprint shrinks below a pixel and every
    // sample sees the gradient, whose blue channel is always full
    let wide = Camera::new(0x2_0000, SCALE);
    for &s in &[SCALE / 4, 3 * SCALE / 4] {
        for &t in &[SCALE / 4, 3 * SCALE / 4] {
            let ray = wide.get_ray(s, t);
            let c = ray_color(&ray, &world, 1);
            assert_ne!(c, Color::new(0, 0, 0), "expected background, not a hit");
            assert_eq!(c.blue(), SCALE);
        }
    }
}

#[test]
fn camera_positional_builds_and_degenerates() {
    let eye = Vec3::new(3 * SCALE, 3 * SCALE, 2 * SCALE);
    let lookat = Vec3::new(0, 0, -SCALE);
    let vup = Vec3::new(0, SCALE, 0);
    let cam = Camera::new_positional(eye, lookat, vup, 11556, 116508);
    assert!(cam.is_some());
    let ray = cam.unwrap().get_ray(SCALE / 2, SCALE / 2);
    // a centered ray points from the eye roughly toward the target
    assert!(ray.direction().x() < 0);
    assert!(ray.direction().y() < 0);
    assert!(ray.direction().z() < 0);
    // an up hint parallel to the gaze leaves no usable basis
    let gaze_up = Camera::new_positional(
        Vec3::new(0, 3 * SCALE, 0),
        Vec3::new(0, 0, 0),
        vup,
        11556,
        116508,
    );
    assert!(gaze_up.is_none());
}

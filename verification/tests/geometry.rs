use raytracer::fixed::{fdiv, fmul, fsqrt, SCALE};
use raytracer::hittables::{HittableList, Sphere};
use raytracer::materials::{Lambertian, Material};
use raytracer::{Color, Ray, Vec3};

fn gray() -> Material {
    Material::Lambertian(Lambertian::new(Color::new(SCALE / 2, SCALE / 2, SCALE / 2)))
}

#[test]
fn fixed_point_basics() {
    assert_eq!(fmul(SCALE, SCALE), SCALE);
    assert_eq!(fmul(SCALE / 2, SCALE / 2), SCALE / 4);
    assert_eq!(fmul(-SCALE / 2, SCALE / 2), -SCALE / 4);
    assert_eq!(fdiv(SCALE, 2 * SCALE), SCALE / 2);
    assert_eq!(fdiv(-SCALE, 2 * SCALE), -SCALE / 2);
    assert_eq!(fsqrt(SCALE), SCALE);
    assert_eq!(fsqrt(4 * SCALE), 2 * SCALE);
    assert_eq!(fsqrt(0), 0);
}

#[test]
fn unit_vector_axis() {
    let v = Vec3::new(2 * SCALE, 0, 0);
    let u = v.unit_vector();
    assert_eq!(u, Vec3::new(SCALE, 0, 0));
    let w = Vec3::new(0, 0, -3 * SCALE).unit_vector();
    assert_eq!(w, Vec3::new(0, 0, -SCALE));
}

#[test]
fn reflect_flips_normal_component() {
    let v = Vec3::new(SCALE, -SCALE, 0);
    let n = Vec3::new(0, SCALE, 0);
    let r = v.reflect(&n);
    assert_eq!(r, Vec3::new(SCALE, SCALE, 0));
    // the normal component of the dot product is negated exactly
    assert_eq!(r.dot(&n), -v.dot(&n));
}

#[test]
fn dot_and_cross() {
    let x = Vec3::new(SCALE, 0, 0);
    let y = Vec3::new(0, SCALE, 0);
    let z = Vec3::new(0, 0, SCALE);
    assert_eq!(x.dot(&y), 0);
    assert_eq!(x.dot(&x), SCALE);
    assert_eq!(x.cross(&y), z);
    assert_eq!(y.cross(&x), z.neg());
}

#[test]
fn ray_at_walks_the_line() {
    let r = Ray::new(Vec3::new(SCALE, 0, 0), Vec3::new(0, 0, -SCALE));
    let p = r.at(2 * SCALE);
    assert_eq!(p, Vec3::new(SCALE, 0, -2 * SCALE));
}

#[test]
fn sphere_hit_head_on() {
    let s = Sphere::new(Vec3::new(0, 0, -2 * SCALE), SCALE, gray());
    let r = Ray::new(Vec3::new(0, 0, 0), Vec3::new(0, 0, -SCALE));
    let rec = s.hit(&r, 0, 100 * SCALE).expect("must hit");
    assert_eq!(rec.get_t(), SCALE);
    assert_eq!(rec.normal(), Vec3::new(0, 0, SCALE));
    assert!(rec.hit_frontface());
    assert_eq!(rec.get_inpact_point(), Vec3::new(0, 0, -SCALE));
}

#[test]
fn sphere_hit_is_idempotent() {
    let s = Sphere::new(Vec3::new(0, 0, -2 * SCALE), SCALE, gray());
    let r = Ray::new(Vec3::new(0, 0, 0), Vec3::new(0, 0, -SCALE));
    let first = s.hit(&r, 0, 100 * SCALE).expect("must hit");
    let second = s.hit(&r, 0, 100 * SCALE).expect("must hit");
    assert_eq!(first.get_t(), second.get_t());
    assert_eq!(first.normal(), second.normal());
}

#[test]
fn sphere_miss() {
    let s = Sphere::new(Vec3::new(0, 0, -2 * SCALE), SCALE, gray());
    let r = Ray::new(Vec3::new(0, 0, 0), Vec3::new(0, 0, SCALE));
    assert!(s.hit(&r, 0, 100 * SCALE).is_none());
}

#[test]
fn front_face_convention_from_inside() {
    // a ray cast from the center hits the back face; the stored normal
    // still opposes the ray
    let s = Sphere::new(Vec3::new(0, 0, 0), SCALE, gray());
    let r = Ray::new(Vec3::new(0, 0, 0), Vec3::new(0, 0, -SCALE));
    let rec = s.hit(&r, 0, 100 * SCALE).expect("must hit");
    assert!(!rec.hit_frontface());
    assert!(rec.normal().dot(&r.direction()) <= 0);
}

#[test]
fn list_hit_returns_nearest() {
    let far = Sphere::new(Vec3::new(0, 0, -8 * SCALE), SCALE, gray());
    let near = Sphere::new(Vec3::new(0, 0, -4 * SCALE), SCALE, gray());
    let mut world = HittableList::new(far);
    world.add(near);
    let r = Ray::new(Vec3::new(0, 0, 0), Vec3::new(0, 0, -SCALE));
    let rec = world.hit(&r, 0, 100 * SCALE).expect("must hit");
    // nearest member wins: the brute-force minimum over both members
    let t_far = far.hit(&r, 0, 100 * SCALE).unwrap().get_t();
    let t_near = near.hit(&r, 0, 100 * SCALE).unwrap().get_t();
    assert_eq!(rec.get_t(), t_near.min(t_far));
    assert_eq!(rec.get_t(), 3 * SCALE);
}

#[test]
fn hollow_sphere_negative_radius_inverts_normal() {
    let s = Sphere::new(Vec3::new(0, 0, -2 * SCALE), -SCALE, gray());
    let r = Ray::new(Vec3::new(0, 0, 0), Vec3::new(0, 0, -SCALE));
    let rec = s.hit(&r, 0, 100 * SCALE).expect("must hit");
    // the outward normal flips sign, so the ray now strikes a back face
    assert!(!rec.hit_frontface());
    assert_eq!(rec.normal(), Vec3::new(0, 0, SCALE));
}

#[test]
fn list_clear_empties() {
    let mut world = HittableList::new(Sphere::new(Vec3::new(0, 0, -2 * SCALE), SCALE, gray()));
    world.clear();
    let r = Ray::new(Vec3::new(0, 0, 0), Vec3::new(0, 0, -SCALE));
    assert!(world.hit(&r, 0, 100 * SCALE).is_none());
}

use graphics_exercises::material::{Lambertian, Material};
use graphics_exercises::ray::hittable::{HitRecord, HittableList, Roots, Sphere};
use graphics_exercises::ray::Ray;
use graphics_exercises::scalar::Scalar;
use graphics_exercises::vector::Vec3;

fn s(x: f64) -> Scalar {
    Scalar::from_bits(x.to_bits())
}

fn f(x: Scalar) -> f64 {
    f64::from_bits(x.to_bits())
}

fn v(x: f64, y: f64, z: f64) -> Vec3 {
    Vec3::new(s(x), s(y), s(z))
}

fn grey() -> Material {
    Material::Lambertian(Lambertian::new(v(0.5, 0.5, 0.5)))
}

/// The quadratic of the unit sphere at `center` and the ray from `origin` along `dir`.
fn roots(center: [f64; 3], radius: f64, origin: [f64; 3], dir: [f64; 3]) -> Roots {
    let oc = [
        origin[0] - center[0],
        origin[1] - center[1],
        origin[2] - center[2],
    ];
    let a = dir[0] * dir[0] + dir[1] * dir[1] + dir[2] * dir[2];
    let half_b = oc[0] * dir[0] + oc[1] * dir[1] + oc[2] * dir[2];
    let c = oc[0] * oc[0] + oc[1] * oc[1] + oc[2] * oc[2] - radius * radius;
    let discriminant = half_b * half_b - a * c;
    let sqrtd = discriminant.sqrt();
    Roots {
        discriminant: s(discriminant),
        near: s((-half_b - sqrtd) / a),
        far: s((-half_b + sqrtd) / a),
    }
}

#[test]
fn a_ray_through_the_centre_hits_at_the_smaller_root() {
    let r = roots([0., 0., -5.], 1., [0., 0., 0.], [0., 0., -1.]);
    assert_eq!(f(r.near), 4.0);
    assert_eq!(f(r.far), 6.0);
    // The roots lie symmetric about -half_b / a, which is 5.
    assert_eq!((f(r.near) + f(r.far)) / 2.0, 5.0);
    let t = r.first_within(s(0.001), s(f64::INFINITY)).unwrap();
    assert_eq!(f(t), 4.0);
}

#[test]
fn the_far_root_counts_where_the_near_one_is_out_of_the_interval() {
    let r = roots([0., 0., -5.], 1., [0., 0., 0.], [0., 0., -1.]);
    assert_eq!(f(r.first_within(s(4.5), s(100.)).unwrap()), 6.0);
    assert!(r.first_within(s(4.5), s(5.5)).is_none());
    assert!(r.first_within(s(6.5), s(100.)).is_none());
    assert!(r.first_within(s(0.0), s(3.0)).is_none());
}

#[test]
fn the_bounds_of_the_interval_are_excluded() {
    let r = roots([0., 0., -5.], 1., [0., 0., 0.], [0., 0., -1.]);
    assert_eq!(f(r.first_within(s(4.0), s(100.)).unwrap()), 6.0);
    assert!(r.first_within(s(4.0), s(6.0)).is_none());
    assert!(r.first_within(s(0.0), s(4.0)).is_none());
}

#[test]
fn a_ray_that_passes_by_hits_nothing() {
    let r = roots([0., 5., -5.], 1., [0., 0., 0.], [0., 0., -1.]);
    assert!(f(r.discriminant) < 0.);
    assert!(r.first_within(s(0.001), s(f64::INFINITY)).is_none());
}

#[test]
fn a_ray_without_direction_hits_nothing() {
    let r = roots([0., 0., -5.], 1., [0., 0., 0.], [0., 0., 0.]);
    assert!(r.first_within(s(0.001), s(f64::INFINITY)).is_none());
}

#[test]
fn a_scattered_ray_does_not_hit_the_sphere_it_leaves() {
    // A ray that starts on the surface and leaves along the normal: the near root is
    // zero up to rounding, the far one lies behind the start.
    let r = roots([0., 0., 0.], 1., [0., 0., 1.], [0., 0., 1.]);
    assert_eq!(f(r.far), 0.0);
    assert!(r.first_within(s(0.001), s(f64::INFINITY)).is_none());
    // One that starts a rounding error inside the surface has its far root just above
    // zero, and still below the lower bound.
    let r = roots([0., 0., 0.], 1., [0., 0., 0.9999999], [0., 0., 1.]);
    assert!(f(r.far) > 0.0);
    assert!(r.first_within(s(0.001), s(f64::INFINITY)).is_none());
    assert!(r.first_within(s(0.0), s(f64::INFINITY)).is_some());
}

#[test]
fn sphere_hit_is_the_root_that_counts() {
    let sphere = Sphere::new(v(0., 0., -5.), s(1.), grey());
    let r = roots([0., 0., -5.], 1., [0., 0., 0.], [0., 0., -1.]);
    assert_eq!(f(sphere.hit(r, s(0.001), s(f64::INFINITY)).unwrap()), 4.0);
    let rec = sphere.record(s(4.0), v(0., 0., -4.), v(0., 0., 1.), s(-1.0));
    assert!(rec.front_face);
    assert_eq!(f(rec.t), 4.0);
    assert_eq!(f(rec.normal.z), 1.0);
    assert!(matches!(rec.mat_ptr, Material::Lambertian(_)));
}

#[test]
fn the_normal_is_turned_against_the_ray() {
    let outward = v(0., 0., 1.);
    let front = HitRecord::new(s(1.), v(0., 0., 0.), outward, s(-0.3), grey());
    assert!(front.front_face);
    assert_eq!(f(front.normal.z), 1.0);
    let back = HitRecord::new(s(1.), v(0., 0., 0.), outward, s(0.3), grey());
    assert!(!back.front_face);
    assert_eq!(f(back.normal.z), -1.0);
    let tangent = HitRecord::new(s(1.), v(0., 0., 0.), outward, s(0.0), grey());
    assert!(!tangent.front_face);
    assert_eq!(f(tangent.normal.z), -1.0);
    let mut again = front;
    again.set_face_normal(s(2.0), v(1., 0., 0.));
    assert!(!again.front_face);
    assert_eq!(f(again.normal.x), -1.0);
    assert_eq!(f(again.t), 1.0);
}

#[test]
fn the_nearest_sphere_of_a_list_is_struck() {
    let mut world = HittableList::default();
    assert_eq!(world.len(), 0);
    let centers = [[0., 0., -9.], [0., 0., -5.], [0., 7., -5.], [0., 0., -7.]];
    for c in centers {
        world.add(Sphere::new(v(c[0], c[1], c[2]), s(1.), grey()));
    }
    assert_eq!(world.len(), 4);
    let all: Vec<Roots> = centers
        .iter()
        .map(|c| roots(*c, 1., [0., 0., 0.], [0., 0., -1.]))
        .collect();
    let nearest = world.hit(&all, s(0.001), s(f64::INFINITY)).unwrap();
    assert_eq!(nearest.index, 1);
    assert_eq!(f(nearest.t), 4.0);
    assert_eq!(f(world.get(nearest.index).unwrap().center.z), -5.);
    // With the upper bound before every sphere nothing is struck.
    assert!(world.hit(&all, s(0.001), s(3.0)).is_none());
    // From the far side of the second sphere on, the first and the fourth are struck at
    // the same distance, and the first stays.
    let nearest = world.hit(&all, s(6.0), s(f64::INFINITY)).unwrap();
    assert_eq!(nearest.index, 0);
    assert_eq!(f(nearest.t), 8.0);
    // From inside the second sphere on, the place where the ray leaves it is the nearest.
    let nearest = world.hit(&all, s(5.0), s(f64::INFINITY)).unwrap();
    assert_eq!(nearest.index, 1);
    assert_eq!(f(nearest.t), 6.0);
    // Between the centre of the second sphere and its far side there is nothing.
    assert!(world.hit(&all, s(5.0), s(6.0)).is_none());
}

#[test]
fn of_two_spheres_at_the_same_distance_the_first_is_struck() {
    let mut world = HittableList::new(Sphere::new(v(0., 0., -5.), s(1.), grey()));
    world.add(Sphere::new(v(0., 0., -5.), s(1.), grey()));
    let r = roots([0., 0., -5.], 1., [0., 0., 0.], [0., 0., -1.]);
    let nearest = world.hit(&vec![r, r], s(0.001), s(f64::INFINITY)).unwrap();
    assert_eq!(nearest.index, 0);
}

#[test]
fn an_empty_scene_is_never_struck() {
    let mut world = HittableList::new(Sphere::new(v(0., 0., -5.), s(1.), grey()));
    world.clear();
    assert_eq!(world.len(), 0);
    assert!(world.get(0).is_none());
    assert!(world.hit(&vec![], s(0.001), s(f64::INFINITY)).is_none());
}

#[test]
fn a_ray_keeps_origin_and_direction() {
    let ray = Ray::new(v(1., 2., 3.), v(0., 0., -1.));
    assert_eq!(f(ray.origin().y), 2.);
    assert_eq!(f(ray.direction().z), -1.);
    let nothing = Ray::default();
    assert_eq!(nothing.origin().x.to_bits(), 0);
    assert_eq!(nothing.direction().z.to_bits(), 0);
}

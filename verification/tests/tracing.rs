//! Intersection, scattering, camera and integrator tests.

use raytracer::ray::{T_EPSILON, T_FAR};
use raytracer::{
    dot, reflect, Camera, Dialectric, HitList, HitRecord, Hittable, Lambertian, Material, Metal,
    Ray, Sphere, Vec3, SCALE,
};

const S: i64 = SCALE;

fn gray() -> Material {
    Material::Lambertian(Lambertian::new(Vec3::new(S / 2, S / 2, S / 2)))
}

fn unit_sphere_at(z: i64) -> Sphere {
    Sphere { center: Vec3::new(0, 0, z), radius: S, material: gray() }
}

#[test]
fn ray_at_walks_the_ray() {
    let r = Ray::new(Vec3::new(S, 2 * S, 3 * S), Vec3::new(S, 0, -S));
    assert_eq!(r.at(2 * S), Vec3::new(3 * S, 2 * S, S));
    assert_eq!(r.at(0), Vec3::new(S, 2 * S, 3 * S));
}

#[test]
fn sphere_hit_from_outside() {
    // Unit sphere at the origin, ray from (0,0,-5) toward +z: the nearer
    // root t = 4 wins, the hit point and outward normal sit at (0,0,-1),
    // and the ray arrives from outside.
    let sphere = unit_sphere_at(0);
    let ray = Ray::new(Vec3::new(0, 0, -5 * S), Vec3::new(0, 0, S));
    let rec = sphere.hit(&ray, T_EPSILON, T_FAR).expect("must hit");
    assert_eq!(rec.t, 4 * S);
    assert_eq!(rec.p, Vec3::new(0, 0, -S));
    assert_eq!(rec.normal, Vec3::new(0, 0, -S));
    assert!(rec.front_face);
}

#[test]
fn sphere_hit_from_inside() {
    // Same sphere, ray from the center: the nearer root is negative and
    // rejected, the farther root t = 1 is returned, the normal still
    // points outward and the flag alone records the inside arrival.
    let sphere = unit_sphere_at(0);
    let ray = Ray::new(Vec3::new(0, 0, 0), Vec3::new(0, 0, S));
    let rec = sphere.hit(&ray, T_EPSILON, T_FAR).expect("must hit");
    assert_eq!(rec.t, S);
    assert_eq!(rec.p, Vec3::new(0, 0, S));
    assert_eq!(rec.normal, Vec3::new(0, 0, S));
    assert!(!rec.front_face);
}

#[test]
fn sphere_miss_returns_none() {
    let sphere = unit_sphere_at(0);
    let ray = Ray::new(Vec3::new(0, 3 * S, -5 * S), Vec3::new(0, 0, S));
    assert!(sphere.hit(&ray, T_EPSILON, T_FAR).is_none());
}

#[test]
fn sphere_range_excludes_roots() {
    let sphere = unit_sphere_at(0);
    let ray = Ray::new(Vec3::new(0, 0, -5 * S), Vec3::new(0, 0, S));
    // Both roots (4 and 6) lie beyond the range.
    assert!(sphere.hit(&ray, T_EPSILON, 3 * S).is_none());
    // The nearer root is excluded, the farther one (t = 6) is taken.
    let rec = sphere.hit(&ray, 5 * S, T_FAR).expect("must hit");
    assert_eq!(rec.t, 6 * S);
    assert!(!rec.front_face);
}

#[test]
fn scene_returns_closest_member_hit() {
    let mut world = HitList::new();
    world.add(Hittable::Sphere(unit_sphere_at(5 * S)));
    world.add(Hittable::Sphere(unit_sphere_at(2 * S)));
    let ray = Ray::new(Vec3::new(0, 0, 0), Vec3::new(0, 0, S));
    // Both spheres are hit (t = 4 and t = 1); the closest wins regardless
    // of insertion order.
    let rec = world.hit(&ray, T_EPSILON, 10 * S).expect("must hit");
    assert_eq!(rec.t, S);
}

#[test]
fn scene_falls_back_to_farther_sphere() {
    let mut world = HitList::new();
    world.add(Hittable::Sphere(unit_sphere_at(2 * S)));
    world.add(Hittable::Sphere(unit_sphere_at(5 * S)));
    let ray = Ray::new(Vec3::new(0, 0, 0), Vec3::new(0, 0, S));
    // With t_min at 3.5 the near sphere's roots (1 and 3) are both out of
    // range; only the farther sphere's entry at t = 4 remains.
    let rec = world.hit(&ray, 7 * S / 2, 10 * S).expect("must hit");
    assert_eq!(rec.t, 4 * S);
    assert_eq!(rec.p, Vec3::new(0, 0, 4 * S));
}

#[test]
fn empty_scene_misses() {
    let world = HitList::new();
    let ray = Ray::new(Vec3::new(0, 0, 0), Vec3::new(0, 0, S));
    assert!(world.hit(&ray, T_EPSILON, T_FAR).is_none());
}

#[test]
fn scene_clear_empties_it() {
    let mut world = HitList::new();
    world.add(Hittable::Sphere(unit_sphere_at(0)));
    assert_eq!(world.objects.len(), 1);
    world.clear();
    assert_eq!(world.objects.len(), 0);
}

#[test]
fn lambertian_always_scatters_with_albedo() {
    let albedo = Vec3::new(S / 2, S / 4, S / 8);
    let mat = Lambertian::new(albedo);
    let rec = HitRecord {
        p: Vec3::new(S, 2 * S, 3 * S),
        normal: Vec3::new(0, S, 0),
        t: S,
        front_face: true,
        material: Material::Lambertian(mat),
    };
    let ray = Ray::new(Vec3::new(0, 0, 0), Vec3::new(S, 0, 0));
    let out = mat.scatter(&ray, &rec).expect("lambertian never absorbs");
    assert_eq!(out.attenuation, albedo);
    assert_eq!(out.scattered.orig, rec.p);
}

#[test]
fn metal_zero_fuzz_reflects_exactly() {
    let albedo = Vec3::new(4 * S / 5, 4 * S / 5, 4 * S / 5);
    let mat = Metal::new(albedo, 0);
    let rec = HitRecord {
        p: Vec3::new(0, 0, 0),
        normal: Vec3::new(0, S, 0),
        t: S,
        front_face: true,
        material: Material::Metal(mat),
    };
    let ray = Ray::new(Vec3::new(-S, S, 0), Vec3::new(S, -S, 0));
    let out = mat.scatter(&ray, &rec).expect("must scatter upward");
    let expected = reflect(ray.dir.unit_vector(), rec.normal);
    assert_eq!(out.scattered.dir, expected);
    assert_eq!(out.attenuation, albedo);
    assert!(dot(out.scattered.dir, rec.normal) > 0);
}

#[test]
fn metal_absorbs_reflection_into_surface() {
    let mat = Metal::new(Vec3::new(S, S, S), 0);
    let rec = HitRecord {
        p: Vec3::new(0, 0, 0),
        normal: Vec3::new(0, S, 0),
        t: S,
        front_face: true,
        material: Material::Metal(mat),
    };
    // The reflection of an outgoing direction points into the surface.
    let ray = Ray::new(Vec3::new(0, -S, 0), Vec3::new(S, S, 0));
    assert!(mat.scatter(&ray, &rec).is_none());
}

#[test]
fn dielectric_identity_index_passes_straight() {
    // Index 1: refraction at the boundary is a no-op, the scattered ray
    // continues along the incoming unit direction, untinted.
    let mat = Dialectric::new(S);
    let rec = HitRecord {
        p: Vec3::new(0, 0, -S),
        normal: Vec3::new(0, 0, -S),
        t: S,
        front_face: true,
        material: Material::Dialectric(mat),
    };
    let ray = Ray::new(Vec3::new(0, 0, -3 * S), Vec3::new(0, 0, S));
    let out = mat.scatter(&ray, &rec).expect("dielectric never absorbs");
    assert_eq!(out.scattered.dir, Vec3::new(0, 0, S));
    assert_eq!(out.scattered.orig, rec.p);
    assert_eq!(out.attenuation, Vec3::new(S, S, S));
}

#[test]
fn dielectric_total_internal_reflection() {
    // Leaving glass at a glancing angle: Snell's law has no solution and
    // the ray reflects instead.
    let mat = Dialectric::new(3 * S / 2);
    let rec = HitRecord {
        p: Vec3::new(0, 0, 0),
        normal: Vec3::new(0, S, 0),
        t: S,
        front_face: false,
        material: Material::Dialectric(mat),
    };
    let ray = Ray::new(Vec3::new(-4 * S, S, 0), Vec3::new(4 * S, -S, 0));
    let out = mat.scatter(&ray, &rec).expect("dielectric never absorbs");
    let expected = reflect(ray.dir.unit_vector(), rec.normal);
    assert_eq!(out.scattered.dir, expected);
}

#[test]
fn color_depth_zero_is_black() {
    let mut world = HitList::new();
    world.add(Hittable::Sphere(unit_sphere_at(2 * S)));
    let ray = Ray::new(Vec3::new(0, 0, 0), Vec3::new(0, 0, S));
    assert_eq!(ray.color(&world, 0), Vec3::new(0, 0, 0));
    assert_eq!(ray.color(&world, -3), Vec3::new(0, 0, 0));
}

#[test]
fn color_miss_is_background_gradient() {
    let world = HitList::new();
    // Straight up: t = 1, pure sky blue.
    let up = Ray::new(Vec3::new(0, 0, 0), Vec3::new(0, S, 0));
    assert_eq!(up.color(&world, 5), Vec3::new(S / 2, 45875, S));
    // Straight down: t = 0, pure white.
    let down = Ray::new(Vec3::new(0, 0, 0), Vec3::new(0, -S, 0));
    assert_eq!(down.color(&world, 5), Vec3::new(S, S, S));
}

#[test]
fn color_absorption_is_black() {
    // A metal floor that reflects every ray into itself absorbs it.
    let mat = Metal::new(Vec3::new(S, S, S), 0);
    let mut world = HitList::new();
    world.add(
        Hittable::Sphere(Sphere { center: Vec3::new(0, 0, 2 * S), radius: S, material:
            Material::Metal(mat) }),
    );
    let ray = Ray::new(Vec3::new(0, 0, 0), Vec3::new(0, 0, S));
    // Head-on hit: the reflection points straight back, dot with the
    // normal is positive, so it scatters; after bouncing it escapes and
    // sees the gradient attenuated by white, i.e. the gradient itself at
    // the horizon: direction (0,0,-1) gives t = 1/2.
    let c = ray.color(&world, 5);
    assert_eq!(c, Vec3::new(3 * S / 4, 55705, S));
}

#[test]
fn camera_center_ray_points_down_axis() {
    let cam = Camera::new(2 * S);
    let r = cam.get_ray(S / 2, S / 2);
    assert_eq!(r.orig, Vec3::new(0, 0, 0));
    assert_eq!(r.dir, Vec3::new(0, 0, -S));
}

#[test]
fn camera_corner_ray_hits_lower_left() {
    let cam = Camera::new(2 * S);
    let r = cam.get_ray(0, 0);
    assert_eq!(r.dir, Vec3::new(-2 * S, -S, -S));
}

#[test]
fn camera_ray_feeds_integrator() {
    let mut world = HitList::new();
    world.add(Hittable::Sphere(unit_sphere_at(-2 * S)));
    let cam = Camera::new(2 * S);
    let ray = cam.get_ray(S / 2, S / 2);
    let c = ray.color(&world, 8);
    assert!(c.x.abs() <= 4 * S && c.y.abs() <= 4 * S && c.z.abs() <= 4 * S);
}

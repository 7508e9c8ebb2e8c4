use raytrace::fixed::SCALE;
use raytrace::hittable::HittableArray;
use raytrace::material::{Lambertian, Material};
use raytrace::ray::{Interval, Ray};
use raytrace::sphere::Sphere;
use raytrace::vec3::Vec3f;

const S: i64 = SCALE;

fn grey() -> Material {
    Material::Lambertian(Lambertian::new(Vec3f::new(S / 2, S / 2, S / 2)))
}

fn forward_ray(origin: Vec3f, direction: Vec3f) -> Ray {
    Ray::new(&origin, &direction)
}

#[test]
fn ray_at_walks_the_parametrized_line() {
    let r = forward_ray(Vec3f::new(S, 2 * S, 3 * S), Vec3f::new(0, 0, -S));
    let p = r.at(2 * S);
    assert_eq!((p.x, p.y, p.z), (S, 2 * S, S));
}

#[test]
fn head_on_hit_is_exact() {
    // a ray two units from the center of a unit sphere hits the near
    // surface at t exactly one, with the exact unit outward normal
    let sphere = Sphere::new(0, 0, -2 * S, S, grey());
    let ray = forward_ray(Vec3f::zero(), Vec3f::new(0, 0, -S));
    let hit = sphere.hit(&ray, &Interval::forward()).expect("head-on ray must hit");
    assert_eq!(hit.at, S);
    assert_eq!((hit.location.x, hit.location.y, hit.location.z), (0, 0, -S));
    assert_eq!((hit.normal.x, hit.normal.y, hit.normal.z), (0, 0, S));
}

#[test]
fn origin_on_surface_passes_through_to_far_side() {
    // with the origin exactly on the surface the near root is zero,
    // which the epsilon lower bound rejects; the far root is accepted
    let sphere = Sphere::new(0, 0, -S, S, grey());
    let ray = forward_ray(Vec3f::zero(), Vec3f::new(0, 0, -S));
    let hit = sphere.hit(&ray, &Interval::forward()).expect("must exit the far side");
    assert_eq!(hit.at, 2 * S);
}

#[test]
fn no_false_hits_when_closest_approach_exceeds_radius() {
    // unit sphere three units down the z axis; rays whose closest
    // approach to the center exceeds one must all miss
    let sphere = Sphere::new(0, 0, -3 * S, S, grey());
    let misses = [
        Vec3f::new(S, 0, 0),
        Vec3f::new(0, S, 0),
        Vec3f::new(-S, 0, 0),
        Vec3f::new(0, -S, 0),
        Vec3f::new(S, S, 0),
        Vec3f::new(0, 0, S),
        Vec3f::new(S, -S, S / 2),
    ];
    for d in misses {
        let ray = forward_ray(Vec3f::zero(), d);
        assert!(sphere.hit(&ray, &Interval::forward()).is_none());
    }
    // a parallel ray offset by more than the radius misses too
    let offset = forward_ray(Vec3f::new(2 * S, 0, 0), Vec3f::new(0, 0, -S));
    assert!(sphere.hit(&offset, &Interval::forward()).is_none());
}

#[test]
fn degenerate_geometry_misses() {
    let sphere = Sphere::new(0, 0, -3 * S, S, grey());
    let zero_dir = forward_ray(Vec3f::zero(), Vec3f::zero());
    assert!(sphere.hit(&zero_dir, &Interval::forward()).is_none());
    let flat = Sphere::new(0, 0, -3 * S, 0, grey());
    let ray = forward_ray(Vec3f::zero(), Vec3f::new(0, 0, -S));
    assert!(flat.hit(&ray, &Interval::forward()).is_none());
}

#[test]
fn nearest_hit_wins_with_overlapping_spheres() {
    let near_albedo = Vec3f::new(S / 4, S / 4, S / 4);
    let far_albedo = Vec3f::new(3 * S / 4, 3 * S / 4, 3 * S / 4);
    let near = Sphere::new(0, 0, -2 * S, S, Material::Lambertian(Lambertian::new(near_albedo)));
    let far = Sphere::new(0, 0, -3 * S, S, Material::Lambertian(Lambertian::new(far_albedo)));

    // the ray passes through both; the nearer surface must win in
    // either insertion order
    for reversed in [false, true] {
        let mut world = HittableArray::new();
        if reversed {
            world.add(far);
            world.add(near);
        } else {
            world.add(near);
            world.add(far);
        }
        let ray = forward_ray(Vec3f::zero(), Vec3f::new(0, 0, -S));
        let hit = world.hit(&ray, &Interval::forward()).expect("both spheres are ahead");
        assert_eq!(hit.at, S);
        assert_eq!(hit.material, Material::Lambertian(Lambertian::new(near_albedo)));
    }
}

#[test]
fn empty_scene_never_hits() {
    let world = HittableArray::new();
    let ray = forward_ray(Vec3f::zero(), Vec3f::new(0, 0, -S));
    assert!(world.hit(&ray, &Interval::forward()).is_none());
}

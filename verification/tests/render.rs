use raytrace::camera::{add_images, average_image, Camera, CameraError};
use raytrace::fixed::SCALE;
use raytrace::hittable::{HitResult, HittableArray};
use raytrace::material::{reflectance, Dielectric, Lambertian, Material, Metal};
use raytrace::ray::Ray;
use raytrace::sphere::Sphere;
use raytrace::vec3::{Colour, Vec3f};

const S: i64 = SCALE;

fn simple_camera() -> Camera {
    // 90 degree vertical field of view: tan(45) = 1
    Camera::new((400, 225), Vec3f::zero(), Vec3f::new(0, 0, -S), S, 0, S).expect("valid camera")
}

fn lambertian_world(albedo: Colour) -> HittableArray {
    let mut world = HittableArray::new();
    world.add(Sphere::new(0, 0, -2 * S, S, Material::Lambertian(Lambertian::new(albedo))));
    world
}

#[test]
fn depth_zero_is_exactly_black() {
    let camera = simple_camera();
    let world = lambertian_world(Vec3f::new(S / 2, S / 2, S / 2));
    let ray = Ray::new(&Vec3f::zero(), &Vec3f::new(0, 0, -S));
    for depth in [0, -1, -100] {
        let c = camera.ray_colour(&ray, &world, depth);
        assert_eq!((c.x, c.y, c.z), (0, 0, 0));
    }
}

#[test]
fn single_bounce_budget_absorbs_the_sphere() {
    // the ray hits the Lambertian sphere, which always scatters; with a
    // budget of one the recursion is cut to black, while a deep budget
    // lets almost every sample escape to the sky
    let camera = simple_camera();
    let world = lambertian_world(Vec3f::new(S / 2, S / 2, S / 2));
    let ray = Ray::new(&Vec3f::zero(), &Vec3f::new(0, 0, -S));
    let shallow = camera.ray_colour(&ray, &world, 1);
    assert_eq!((shallow.x, shallow.y, shallow.z), (0, 0, 0));

    let mut sum: i64 = 0;
    for _ in 0..100 {
        let c = camera.ray_colour(&ray, &world, 20);
        assert!(0 <= c.x && c.x <= S);
        assert!(0 <= c.y && c.y <= S);
        assert!(0 <= c.z && c.z <= S);
        sum += c.z;
    }
    assert!(sum > 0);
}

#[test]
fn miss_gives_the_sky_gradient() {
    let camera = simple_camera();
    let world = HittableArray::new();
    // straight up: unit y is one, so the colour is pure sky blue
    let up = camera.ray_colour(&Ray::new(&Vec3f::zero(), &Vec3f::new(0, S, 0)), &world, 20);
    assert_eq!((up.x, up.y, up.z), (S / 2, 45875, S));
    // straight down: the blend weight is zero, pure white
    let down = camera.ray_colour(&Ray::new(&Vec3f::zero(), &Vec3f::new(0, -S, 0)), &world, 20);
    assert_eq!((down.x, down.y, down.z), (S, S, S));
    // any miss keeps the blue channel at one and orders r <= g <= b
    let slanted = camera.ray_colour(&Ray::new(&Vec3f::zero(), &Vec3f::new(S, S / 3, 0)), &world, 20);
    assert_eq!(slanted.z, S);
    assert!(slanted.x <= slanted.y && slanted.y <= slanted.z);
}

#[test]
fn lambertian_scatter_reports_albedo_from_the_hit_point() {
    let albedo = Vec3f::new(S / 4, S / 2, 3 * S / 4);
    let material = Lambertian::new(albedo);
    let hit = HitResult {
        at: S,
        location: Vec3f::new(0, 0, -S),
        normal: Vec3f::new(0, 0, S),
        material: Material::Lambertian(material),
    };
    let in_ray = Ray::new(&Vec3f::zero(), &Vec3f::new(0, 0, -S));
    for _ in 0..16 {
        let sc = material.scatter(&in_ray, &hit);
        assert!(sc.scattered);
        assert_eq!(sc.attenuation, albedo);
        assert_eq!(sc.ray.origin, hit.location);
        // the nearly-zero fallback means the direction is never degenerate
        assert!(!sc.ray.direction.is_nearly_zero());
    }
}

#[test]
fn metal_accepts_fuzz_beyond_one() {
    let albedo = Vec3f::new(S / 2, S / 2, S / 2);
    let material = Metal::new(albedo, 2 * S);
    let hit = HitResult {
        at: S,
        location: Vec3f::new(0, 0, -S),
        normal: Vec3f::new(0, 0, S),
        material: Material::Metal(material),
    };
    let in_ray = Ray::new(&Vec3f::zero(), &Vec3f::new(0, 0, -S));
    let sc = material.scatter(&in_ray, &hit);
    assert_eq!(sc.attenuation, albedo);
    assert_eq!(sc.ray.origin, hit.location);
}

#[test]
fn metal_scatter_keeps_albedo_and_origin() {
    let albedo = Vec3f::new(3 * S / 4, S / 2, S / 4);
    let material = Metal::new(albedo, 0);
    let hit = HitResult {
        at: S,
        location: Vec3f::new(0, 0, -S),
        normal: Vec3f::new(0, 0, S),
        material: Material::Metal(material),
    };
    // head-on reflection with zero fuzz bounces straight back out
    let in_ray = Ray::new(&Vec3f::zero(), &Vec3f::new(0, 0, -S));
    let sc = material.scatter(&in_ray, &hit);
    assert!(sc.scattered);
    assert_eq!(sc.attenuation, albedo);
    assert_eq!(sc.ray.origin, hit.location);
    assert!(sc.ray.direction.z > 0);
}

#[test]
fn refraction_ratio_one_does_not_bend() {
    // a dielectric with index one is vacuum: at head-on incidence the
    // Schlick reflectance is exactly r0 = 0, so the ray refracts and
    // the outgoing direction equals the incoming unit direction
    let material = Dielectric::new(S);
    let hit = HitResult {
        at: S,
        location: Vec3f::new(0, 0, -S),
        normal: Vec3f::new(0, 0, S),
        material: Material::Dielectric(material),
    };
    let in_ray = Ray::new(&Vec3f::zero(), &Vec3f::new(0, 0, -S));
    let sc = material.scatter(&in_ray, &hit);
    assert!(sc.scattered);
    assert_eq!(sc.attenuation, Vec3f::new(S, S, S));
    assert_eq!((sc.ray.direction.x, sc.ray.direction.y, sc.ray.direction.z), (0, 0, -S));
}

#[test]
fn schlick_reflectance_head_on_is_r0() {
    // ratio one: r0 = 0 exactly
    assert_eq!(reflectance(S, S), 0);
    // glass entered from air: ratio = 1/1.5 = 43690/65536;
    // r0 = ((65536-43690)*65536/109226)^2 / 65536 = 13107^2/65536 = 2621
    assert_eq!(reflectance(S, 43690), 2621);
}

#[test]
fn end_to_end_small_scene() {
    // ground sphere below, small Lambertian sphere ahead, 90 degree
    // vertical field of view at 400x225
    let mut world = HittableArray::new();
    world.add(Sphere::new(
        0,
        -6586368,  // -100.5
        -S,
        100 * S,
        Material::Lambertian(Lambertian::new(Vec3f::new(52429, 52429, 0))),
    ));
    world.add(Sphere::new(
        0,
        0,
        -S,
        S / 2,
        Material::Lambertian(Lambertian::new(Vec3f::new(6554, 13107, 32768))),
    ));
    let camera = simple_camera();

    // the top edge looks at the sky: the blue channel is exactly one
    let top = camera.ray_colour(&camera.get_ray(200, 0), &world, 20);
    assert_eq!(top.z, S);
    assert!(top.x <= top.y && top.y <= top.z);

    // a ray at the foreground sphere: averaged over samples, the blue
    // channel dominates the red one as the albedo (0.1, 0.2, 0.5) does
    let center_ray = Ray::new(&Vec3f::zero(), &Vec3f::new(0, 0, -S));
    let mut sum_x: i64 = 0;
    let mut sum_z: i64 = 0;
    for _ in 0..60 {
        let c = camera.ray_colour(&center_ray, &world, 20);
        sum_x += c.x;
        sum_z += c.z;
    }
    assert!(sum_z > sum_x);

    // one full pass has one colour per pixel, all within [0, 1]
    let image = camera.render_iteration(&world);
    assert_eq!(image.len(), 400 * 225);
    for px in &image {
        assert!(0 <= px.x && px.x <= S);
        assert!(0 <= px.y && px.y <= S);
        assert!(0 <= px.z && px.z <= S);
    }
    // the first pixel of the top row is sky
    assert_eq!(image[0].z, S);
}

#[test]
fn parallel_sum_equals_serial_sum() {
    let layer = |a: i64, b: i64, c: i64| -> Vec<Colour> {
        vec![Vec3f::new(a, b, c), Vec3f::new(a + 1, b + 1, c + 1)]
    };
    let layers = [layer(1, 2, 3), layer(10, 20, 30), layer(100, 200, 300), layer(5, 5, 5)];

    // two workers of two samples each
    let mut worker1 = vec![Vec3f::zero(), Vec3f::zero()];
    add_images(&mut worker1, &layers[0]);
    add_images(&mut worker1, &layers[1]);
    let mut worker2 = vec![Vec3f::zero(), Vec3f::zero()];
    add_images(&mut worker2, &layers[2]);
    add_images(&mut worker2, &layers[3]);
    let mut merged = vec![Vec3f::zero(), Vec3f::zero()];
    add_images(&mut merged, &worker1);
    add_images(&mut merged, &worker2);

    // all four samples serially
    let mut serial = vec![Vec3f::zero(), Vec3f::zero()];
    for l in &layers {
        add_images(&mut serial, l);
    }
    assert_eq!(merged, serial);

    let averaged = average_image(&merged, 4);
    assert_eq!(averaged[0], Vec3f::new(116 / 4, 227 / 4, 338 / 4));
}

#[test]
fn hemisphere_samples_point_out_of_the_surface() {
    let normal = Vec3f::new(0, S, 0);
    for _ in 0..32 {
        let v = Camera::random_on_hemisphere(normal);
        assert!(v.y >= 0);
        assert!(v.x.abs() <= 2 * S && v.y.abs() <= 2 * S && v.z.abs() <= 2 * S);
    }
}

#[test]
fn camera_configuration_is_validated() {
    let eye = Vec3f::zero();
    let look = Vec3f::new(0, 0, -S);
    assert_eq!(Camera::new((0, 10), eye, look, S, 0, S), Err(CameraError::EmptyImage));
    assert_eq!(Camera::new((10, 0), eye, look, S, 0, S), Err(CameraError::EmptyImage));
    assert_eq!(Camera::new((40000, 10), eye, look, S, 0, S), Err(CameraError::ImageTooLarge));
    assert_eq!(Camera::new((10, 40000), eye, look, S, 0, S), Err(CameraError::ImageTooLarge));
    // an extreme aspect ratio pushes the pixel grid past the
    // representable world
    assert_eq!(
        Camera::new((32768, 1), eye, look, 0x10_0000, 0, raytrace::vec3::WORLD_BOUND),
        Err(CameraError::ViewportTooLarge)
    );
    let mut cam = Camera::new((16, 9), eye, look, S, 0, S).expect("valid");
    assert_eq!(cam.image_size, (16, 9));
    assert_eq!(cam.samples, 10);
    assert_eq!(cam.thread_count, 10);
    assert_eq!(cam.sample_depth, 20);
    // the sampling surface is configurable, but zero counts are rejected
    assert_eq!(cam.configure_sampling(0, 4, 8), Err(CameraError::InvalidSampling));
    assert_eq!(cam.configure_sampling(4, 0, 8), Err(CameraError::InvalidSampling));
    assert_eq!(cam.configure_sampling(4, 2, -1), Err(CameraError::InvalidSampling));
    assert_eq!(cam.samples, 10);
    assert_eq!(cam.configure_sampling(4, 2, 8), Ok(()));
    assert_eq!((cam.samples, cam.thread_count, cam.sample_depth), (4, 2, 8));
}

#[test]
fn gamma_corrected_pixels_render_as_text() {
    // 0.25 -> 0.5 -> 127; 1.0 -> 1.0 -> 255; negative clamps to 0
    assert_eq!(Camera::to_colour(Vec3f::new(S / 4, S, -S)), "127 255 0");
    assert_eq!(Camera::linear_to_gamma(S / 4), S / 2);
    assert_eq!(Camera::linear_to_gamma(0), 0);
    assert_eq!(Camera::linear_to_gamma(-5), 0);
}

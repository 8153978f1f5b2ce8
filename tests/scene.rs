use raytracer::color::COLOR_ONE;
use raytracer::fixed::ONE;
use raytracer::material::reflect;
use raytracer::random::{
    accept_candidate, lift_to_shell, rand_displacement, random_in_unit_sphere, random_unit_vector,
};
use raytracer::render::{
    average, pixel_coords, pixel_from_samples, ray_color, render_pixel, sample_coord, sky_color,
    T_INFINITY,
    T_MIN,
};
use raytracer::{Camera, Color, HitRecord, Hittable, Material, Point3, Ray, Scene, Sphere, Vec3};

fn gray() -> Color {
    Color::new(512, 512, 512)
}

fn lambertian_sphere(x: i64, y: i64, z: i64, radius: i64) -> Sphere {
    Sphere::new(Point3::new(x, y, z), radius, Material::new_lambertian(gray()))
}

#[test]
fn ray_through_center_meets_sphere_at_distance_minus_radius() {
    let s = lambertian_sphere(0, 0, -5 * ONE, ONE);
    let r = Ray::new(Point3::new(0, 0, 0), Vec3::new(0, 0, -ONE));
    let h = s.hit(&r, T_MIN, T_INFINITY).unwrap();
    assert_eq!(h.t(), 4 * ONE);
    assert_eq!(h.hit_point(), Point3::new(0, 0, -4 * ONE));
    assert_eq!(h.normal(), Vec3::new(0, 0, ONE));
    assert!(h.front_face());
    let far = s.hit(&r, 4 * ONE + 1, T_INFINITY).unwrap();
    assert_eq!(far.t(), 6 * ONE);
    assert!(!far.front_face());
    assert_eq!(far.normal(), Vec3::new(0, 0, ONE));
    assert!(s.hit(&r, 6 * ONE + 1, T_INFINITY).is_none());
    assert!(s.hit(&r, T_MIN, 4 * ONE - 1).is_none());
}

#[test]
fn ray_missing_sphere_has_no_hit() {
    let s = lambertian_sphere(0, 0, -5 * ONE, ONE);
    let r = Ray::new(Point3::new(0, 2 * ONE, 0), Vec3::new(0, 0, -ONE));
    assert!(s.hit(&r, T_MIN, T_INFINITY).is_none());
}

#[test]
fn tangent_ray_has_single_root() {
    let s = lambertian_sphere(0, 0, -5 * ONE, ONE);
    let r = Ray::new(Point3::new(0, ONE, 0), Vec3::new(0, 0, -ONE));
    let h = s.hit(&r, T_MIN, T_INFINITY).unwrap();
    assert_eq!(h.t(), 5 * ONE);
    assert_eq!(h.hit_point(), Point3::new(0, ONE, -5 * ONE));
    assert!(s.hit(&r, 5 * ONE + 1, T_INFINITY).is_none());
}

#[test]
fn scene_returns_nearest_hit_in_any_order() {
    let near = lambertian_sphere(0, 0, -3 * ONE, ONE / 2);
    let far = lambertian_sphere(0, 0, -8 * ONE, ONE);
    let r = Ray::new(Point3::new(0, 0, 0), Vec3::new(0, 0, -ONE));
    let a = Scene { objects: vec![near, far] };
    let b = Scene { objects: vec![far, near] };
    assert_eq!(a.hit(&r, T_MIN, T_INFINITY).unwrap().t(), 5 * ONE / 2);
    assert_eq!(b.hit(&r, T_MIN, T_INFINITY).unwrap().t(), 5 * ONE / 2);
    let empty = Scene { objects: vec![] };
    assert!(empty.hit(&r, T_MIN, T_INFINITY).is_none());
}

fn record(normal: Vec3, material: Material) -> HitRecord {
    HitRecord::new(Point3::new(ONE, 2 * ONE, 3 * ONE), normal, ONE, true, material)
}

#[test]
fn lambertian_scatter_keeps_albedo_and_hit_point() {
    let albedo = Color::new(819, 614, 204);
    let m = Material::new_lambertian(albedo);
    let rec = record(Vec3::new(0, ONE, 0), m);
    let r_in = Ray::new(Point3::new(0, 0, 0), Vec3::new(0, -ONE, 0));
    let mut rng = rand::thread_rng();
    for _ in 0..100 {
        let (att, scattered) = m.scatter(&r_in, &rec, &mut rng).unwrap();
        assert_eq!(att, albedo);
        assert_eq!(scattered.origin(), rec.hit_point());
        let d = scattered.direction();
        assert!(d.x != 0 || d.y != 0 || d.z != 0);
    }
}

#[test]
fn lambertian_scatter_with_given_direction() {
    let albedo = Color::new(819, 614, 204);
    let l = raytracer::Lambertian { albedo };
    let rec = record(Vec3::new(0, ONE, 0), Material::Lambertian(l));
    let (att, r) = l.scatter_with(&rec, Vec3::new(ONE, 0, 0));
    assert_eq!(att, albedo);
    assert_eq!(r.direction(), Vec3::new(ONE, ONE, 0));
    let (_, r) = l.scatter_with(&rec, Vec3::new(0, -ONE, 0));
    assert_eq!(r.direction(), Vec3::new(0, ONE, 0));
}

#[test]
fn metal_reflects_by_law_of_reflection() {
    let albedo = Color::new(819, 819, 819);
    let metal = raytracer::Metal { albedo };
    let rec = record(Vec3::new(0, ONE, 0), Material::Metal(metal));
    let r_in = Ray::new(Point3::new(0, 0, 0), Vec3::new(ONE, -ONE, 0));
    let (att, out) = metal.scatter(&r_in, &rec).unwrap();
    assert_eq!(att, albedo);
    assert_eq!(out.origin(), rec.hit_point());
    assert_eq!(out.direction(), Vec3::new(46341, 46342, 0));
    let straight = Ray::new(Point3::new(0, 0, 0), Vec3::new(0, -3 * ONE, 0));
    let (_, back) = metal.scatter(&straight, &rec).unwrap();
    assert_eq!(back.direction(), Vec3::new(0, ONE, 0));
}

#[test]
fn metal_absorbs_ray_leaving_through_surface() {
    let metal = Material::new_metal(Color::new(819, 819, 819));
    let rec = record(Vec3::new(0, ONE, 0), metal);
    let up = Ray::new(Point3::new(0, 0, 0), Vec3::new(0, ONE, 0));
    assert!(metal.scatter(&up, &rec, &mut rand::thread_rng()).is_none());
    let grazing = Ray::new(Point3::new(0, 0, 0), Vec3::new(ONE, 0, 0));
    assert!(metal.scatter(&grazing, &rec, &mut rand::thread_rng()).is_none());
}

#[test]
fn reflect_mirrors_about_normal() {
    assert_eq!(reflect(Vec3::new(ONE, -ONE, 0), Vec3::new(0, ONE, 0)), Vec3::new(ONE, ONE, 0));
    assert_eq!(reflect(Vec3::new(0, 0, -ONE), Vec3::new(0, 0, ONE)), Vec3::new(0, 0, ONE));
}

#[test]
fn random_vectors_stay_in_the_unit_ball() {
    let mut rng = rand::thread_rng();
    for _ in 0..200 {
        let v = random_in_unit_sphere(&mut rng);
        let n = (v.x as i128).pow(2) + (v.y as i128).pow(2) + (v.z as i128).pow(2);
        assert!(0 < n && n < (ONE as i128) * (ONE as i128));
        let u = random_unit_vector(&mut rng);
        assert!(u.x.abs() <= ONE && u.y.abs() <= ONE && u.z.abs() <= ONE);
        let len2 = (u.x as i128).pow(2) + (u.y as i128).pow(2) + (u.z as i128).pow(2);
        assert!(len2 <= (ONE as i128) * (ONE as i128) * 101 / 100);
        assert!(len2 > (ONE as i128) * (ONE as i128) * 99 / 100);
    }
}

#[test]
fn displacements_lie_in_unit_square() {
    let mut rng = rand::thread_rng();
    let dp = rand_displacement(50, &mut rng);
    assert_eq!(dp.len(), 50);
    assert!(dp.iter().all(|&(x, y)| (0..ONE).contains(&x) && (0..ONE).contains(&y)));
    assert!(rand_displacement(0, &mut rng).is_empty());
}

#[test]
fn depth_zero_gives_black() {
    let world = Scene { objects: vec![lambertian_sphere(0, 0, -ONE, ONE / 2)] };
    let r = Ray::new(Point3::new(0, 0, 0), Vec3::new(0, 0, -ONE));
    let mut rng = rand::thread_rng();
    assert_eq!(ray_color(&r, &world, 0, &mut rng), Color::black());
    assert_eq!(ray_color(&r, &world, -3, &mut rng), Color::black());
    let sky = Ray::new(Point3::new(0, 0, 0), Vec3::new(0, ONE, 0));
    assert_eq!(ray_color(&sky, &world, 0, &mut rng), Color::black());
}

#[test]
fn missing_ray_gets_sky_gradient() {
    let world = Scene { objects: vec![] };
    let mut rng = rand::thread_rng();
    let o = Point3::new(0, 0, 0);
    let up = Ray::new(o, Vec3::new(0, 5 * ONE, 0));
    assert_eq!(ray_color(&up, &world, 5, &mut rng), Color::new(512, 716, COLOR_ONE));
    let down = Ray::new(o, Vec3::new(0, -ONE, 0));
    assert_eq!(ray_color(&down, &world, 5, &mut rng), Color::new(COLOR_ONE, COLOR_ONE, COLOR_ONE));
    let ahead = Ray::new(o, Vec3::new(0, 0, -ONE));
    assert_eq!(ray_color(&ahead, &world, 5, &mut rng), Color::new(768, 870, COLOR_ONE));
    let other_x = Ray::new(o, Vec3::new(ONE, 0, 0));
    assert_eq!(ray_color(&other_x, &world, 5, &mut rng), Color::new(768, 870, COLOR_ONE));
    assert_eq!(sky_color(Vec3::new(0, 0, -ONE)), Color::new(768, 870, COLOR_ONE));
}

#[test]
fn mirror_facing_sky_attenuates_sky_colour() {
    let albedo = Color::new(512, COLOR_ONE, 0);
    let floor = Sphere::new(Point3::new(0, -1001 * ONE, 0), 1000 * ONE, Material::new_metal(albedo));
    let world = Scene { objects: vec![floor] };
    let r = Ray::new(Point3::new(0, 0, 0), Vec3::new(0, -ONE, 0));
    let c = ray_color(&r, &world, 5, &mut rand::thread_rng());
    assert_eq!(c, Color::new(256, 716, 0));
    let black = ray_color(&r, &world, 1, &mut rand::thread_rng());
    assert_eq!(black, Color::black());
}

#[test]
fn averaging_identical_samples_is_exact() {
    let c = Color::new(100, 600, 1000);
    assert_eq!(average(&vec![c; 7]), c);
    assert_eq!(pixel_from_samples(&vec![c; 7]), pixel_from_samples(&vec![c]));
    let mixed = vec![Color::new(0, 0, 0), Color::new(3, 1024, 5)];
    assert_eq!(average(&mixed), Color::new(1, 512, 2));
}

#[test]
fn sample_coordinates_span_the_image() {
    assert_eq!(sample_coord(0, 0, 101), 0);
    assert_eq!(sample_coord(100, 0, 101), ONE);
    assert_eq!(sample_coord(50, 0, 101), ONE / 2);
    assert_eq!(sample_coord(1, ONE / 2, 4), ONE / 2);
}

#[test]
fn default_camera_looks_down_negative_z() {
    let cam = Camera::new();
    assert_eq!(cam.origin, Point3::new(0, 0, 0));
    assert_eq!(cam.horizontal, Vec3::new(233016, 0, 0));
    assert_eq!(cam.vertical, Vec3::new(0, 2 * ONE, 0));
    assert_eq!(cam.ll_corner, Point3::new(-116508, -ONE, -ONE));
    let r = cam.get_ray(0, 0);
    assert_eq!(r.direction(), Vec3::new(-116508, -ONE, -ONE));
    let r = cam.get_ray(ONE, ONE);
    assert_eq!(r.direction(), Vec3::new(116508, ONE, -ONE));
}

#[test]
fn center_pixel_ray_hits_sphere_facing_camera() {
    let world = Scene { objects: vec![lambertian_sphere(0, 0, -ONE, ONE / 2)] };
    let cam = Camera::new();
    let r = cam.get_ray(ONE / 2, ONE / 2);
    assert_eq!(r.origin(), Point3::new(0, 0, 0));
    assert_eq!(r.direction(), Vec3::new(0, 0, -ONE));
    let h = world.hit(&r, T_MIN, T_INFINITY).unwrap();
    assert!(h.front_face());
    assert!(h.normal().z > 0);
    assert_eq!(h.normal(), Vec3::new(0, 0, ONE));
    assert_eq!(h.t(), ONE / 2);
    assert_eq!(h.hit_point(), Point3::new(0, 0, -ONE / 2));
}

#[test]
fn render_pixel_of_sky_and_black_scene() {
    let cam = Camera::new();
    let offsets = vec![(0, 0), (ONE / 2, ONE / 2)];
    let mut rng = rand::thread_rng();
    let empty = Scene { objects: vec![] };
    let p = render_pixel(2, 2, 5, 5, &offsets, &cam, &empty, 5, &mut rng);
    assert_eq!(p[2], 255);
    let world = Scene { objects: vec![lambertian_sphere(0, 0, -ONE, ONE / 2)] };
    let dark = render_pixel(2, 2, 5, 5, &vec![(0, 0)], &cam, &world, 0, &mut rng);
    assert_eq!(dark, [0, 0, 0]);
}

#[test]
fn random_draws_vary() {
    let mut rng = rand::thread_rng();
    let first = random_in_unit_sphere(&mut rng);
    assert!((0..50).any(|_| random_in_unit_sphere(&mut rng) != first));
    let dp = rand_displacement(50, &mut rng);
    assert!(dp.iter().any(|&d| d != dp[0]));
    assert!(dp.iter().any(|&(x, _)| x > ONE / 2));
}

#[test]
fn pixel_index_is_row_major() {
    assert_eq!(pixel_coords(0, 4, 3), (0, 0));
    assert_eq!(pixel_coords(3, 4, 3), (3, 0));
    assert_eq!(pixel_coords(4, 4, 3), (0, 1));
    assert_eq!(pixel_coords(11, 4, 3), (3, 2));
}

#[test]
fn diffuse_hit_at_depth_one_is_black() {
    let world = Scene {
        objects: vec![Sphere::new(
            Point3::new(0, 0, -ONE),
            ONE / 2,
            Material::new_lambertian(Color::new(716, 307, 307)),
        )],
    };
    let r = Ray::new(Point3::new(0, 0, 0), Vec3::new(0, 0, -ONE));
    let mut rng = rand::thread_rng();
    for _ in 0..20 {
        assert_eq!(ray_color(&r, &world, 1, &mut rng), Color::black());
    }
}

#[test]
fn metal_bounce_into_sky_is_attenuated_sky() {
    let world = Scene {
        objects: vec![Sphere::new(
            Point3::new(0, 0, -ONE),
            ONE / 2,
            Material::new_metal(Color::new(819, 614, 204)),
        )],
    };
    let r = Ray::new(Point3::new(0, 0, 0), Vec3::new(0, 0, -ONE));
    let c = ray_color(&r, &world, 2, &mut rand::thread_rng());
    assert_eq!(c, Color::new(614, 521, 204));
}

#[test]
fn unit_vectors_are_near_unit_length() {
    let mut rng = rand::thread_rng();
    let one2 = (ONE as i128) * (ONE as i128);
    for _ in 0..500 {
        let v = random_in_unit_sphere(&mut rng);
        let n = (v.x as i128).pow(2) + (v.y as i128).pow(2) + (v.z as i128).pow(2);
        assert!(0 < n && n < one2);
        let u = random_unit_vector(&mut rng);
        let len2 = (u.x as i128).pow(2) + (u.y as i128).pow(2) + (u.z as i128).pow(2);
        assert!(one2 - 24 * (ONE as i128) <= len2 && len2 <= one2 + 35 * (ONE as i128));
    }
}

#[test]
fn hit_range_is_half_open() {
    let s = lambertian_sphere(0, 0, -ONE, ONE / 2);
    let r = Ray::new(Point3::new(0, 0, 0), Vec3::new(0, 0, -ONE));
    assert!(s.hit(&r, T_MIN, ONE / 2).is_none());
    assert_eq!(s.hit(&r, T_MIN, ONE / 2 + 1).unwrap().t(), ONE / 2);
    assert_eq!(s.hit(&r, ONE / 2, T_INFINITY).unwrap().t(), ONE / 2);
    let tangent_sphere = lambertian_sphere(0, 0, -5 * ONE, ONE);
    let tangent = Ray::new(Point3::new(0, ONE, 0), Vec3::new(0, 0, -ONE));
    assert!(tangent_sphere.hit(&tangent, T_MIN, 5 * ONE).is_none());
    assert_eq!(tangent_sphere.hit(&tangent, T_MIN, 5 * ONE + 1).unwrap().t(), 5 * ONE);
}

#[test]
fn scene_keeps_first_of_equal_hits() {
    let first = Sphere::new(Point3::new(0, 0, -ONE), ONE / 2, Material::new_metal(gray()));
    let second = lambertian_sphere(0, 0, -ONE, ONE / 2);
    let r = Ray::new(Point3::new(0, 0, 0), Vec3::new(0, 0, -ONE));
    let world = Scene { objects: vec![first, second] };
    let h = world.hit(&r, T_MIN, T_INFINITY).unwrap();
    assert_eq!(h.material(), Material::new_metal(gray()));
}

#[test]
fn sampler_accepts_every_nonzero_point_of_the_ball() {
    assert!(accept_candidate(Vec3::new(ONE / 8, 0, 0)));
    assert!(accept_candidate(Vec3::new(1, 0, 0)));
    assert!(!accept_candidate(Vec3::new(0, 0, 0)));
    assert!(!accept_candidate(Vec3::new(ONE, 0, 0)));
    assert!(!accept_candidate(Vec3::new(ONE / 2 + 10000, ONE / 2 + 10000, ONE / 2 + 10000)));
}

#[test]
fn short_points_are_doubled_before_normalizing() {
    assert_eq!(lift_to_shell(Vec3::new(ONE / 8, 0, 0)), Vec3::new(ONE / 2, 0, 0));
    assert_eq!(lift_to_shell(Vec3::new(3, -1, 0)), Vec3::new(3 << 14, -1 << 14, 0));
    assert_eq!(lift_to_shell(Vec3::new(0, 40000, 0)), Vec3::new(0, 40000, 0));
}

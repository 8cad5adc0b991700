use raytracer::camera::{index_scalar, shade, to_scalar, Camera};
use raytracer::hittable::Hittable;
use raytracer::hittable_list::HittableList;
use raytracer::material::{DiffuseLight, Lambertian, Material, Metal};
use raytracer::quad::Quad;
use raytracer::ray::Ray;
use raytracer::scalar::{INFINITY, NEG_INFINITY, ONE};
use raytracer::sphere::Sphere;
use raytracer::vec3::{Point, Vec3};

fn p(x: i64, y: i64, z: i64) -> Point {
    Vec3::new(x * ONE, y * ONE, z * ONE)
}

fn sky() -> Vec3<i64> {
    Vec3::new(ONE / 2, 7 * ONE / 10, ONE)
}

/// A camera at (0, 0, 5) that looks down the third axis at a square image.
fn camera(width: i32, samples: i32, depth: i32) -> Camera {
    let mut c = Camera::default();
    c.image_width = width;
    c.aspect_ratio = ONE;
    c.samples_per_pixel = samples;
    c.max_depth = depth;
    c.background = sky();
    c.vfov = 90 * ONE;
    c.lookfrom = p(0, 0, 5);
    c.lookat = p(0, 0, 0);
    c.vup = p(0, 1, 0);
    c.defocus_angle = 0;
    c.focus_dist = 5 * ONE;
    c.with_initialized()
}

fn near(a: Point, b: Point, tolerance: i64) -> bool {
    (a.e0 - b.e0).abs() <= tolerance
        && (a.e1 - b.e1).abs() <= tolerance
        && (a.e2 - b.e2).abs() <= tolerance
}

fn lit_ball() -> (HittableList<Sphere>, Vec<Box<dyn Material>>) {
    let mut world = HittableList::new();
    world.add(Sphere::new(p(0, 0, 0), 3 * ONE, 0));
    let materials: Vec<Box<dyn Material>> = vec![Box::new(DiffuseLight::from(p(3, 2, 1)))];
    (world, materials)
}

#[test]
fn whole_numbers_become_scalars() {
    assert_eq!(to_scalar(7), 7 * ONE);
    assert_eq!(to_scalar(-7), -7 * ONE);
    assert_eq!(to_scalar(i64::MAX), INFINITY);
    assert_eq!(to_scalar(i64::MIN), NEG_INFINITY);
    assert_eq!(index_scalar(12), 12 * ONE);
    assert_eq!(index_scalar(usize::MAX), INFINITY);
}

#[test]
fn the_height_follows_from_width_and_aspect_ratio() {
    let mut c = camera(400, 1, 1);
    assert_eq!(c.image_height, 400);
    c.aspect_ratio = 16 * ONE / 9;
    assert_eq!(c.with_initialized().image_height, 225);
    c.aspect_ratio = 1000 * ONE;
    assert_eq!(c.with_initialized().image_height, 1);
    c.image_width = 0;
    assert_eq!(c.with_initialized().image_height, 1);
}

#[test]
fn what_the_camera_works_out() {
    let c = camera(4, 10, 1);
    assert_eq!(c.pixel_samples_scale, ONE / 10);
    assert_eq!(c.center, p(0, 0, 5));
    assert_eq!(c.w, p(0, 0, 1));
    assert_eq!(c.u, p(1, 0, 0));
    assert_eq!(c.v, p(0, 1, 0));
    // A view of 90 degrees at the distance 5 is 10 high and wide: 2.5 for each pixel.
    assert!(near(c.pixel_delta_u, Vec3::new(5 * ONE / 2, 0, 0), 100));
    assert!(near(c.pixel_delta_v, Vec3::new(0, -5 * ONE / 2, 0), 100));
    assert!(near(c.pixel00_loc, Vec3::new(-15 * ONE / 4, 15 * ONE / 4, 0), 200));
    assert_eq!(c.defocus_disk_u, p(0, 0, 0));
    assert_eq!(c.defocus_disk_v, p(0, 0, 0));
}

#[test]
fn without_a_focus_distance_the_camera_focuses_on_what_it_looks_at() {
    let mut c = camera(4, 1, 1);
    c.focus_dist = 0;
    c.lookat = p(0, 3, 1);
    assert_eq!(c.with_initialized().focus_dist, 5 * ONE);
}

#[test]
fn an_open_lens_has_a_disc() {
    let mut c = camera(4, 1, 1);
    c.defocus_angle = 90 * ONE;
    let c = c.with_initialized();
    // The radius is 5 tan(45 degrees) = 5.
    assert!(near(c.defocus_disk_u, p(5, 0, 0), 200));
    assert!(near(c.defocus_disk_v, p(0, 5, 0), 200));
    let lens = Vec3::new(ONE / 2, -ONE / 4, 0);
    assert!(near(c.defocus_disk_point(&lens), Vec3::new(5 * ONE / 2, -5 * ONE / 4, 5 * ONE), 200));
    let r = c.ray_through(0, 0, &p(0, 0, 0), &lens, 0);
    assert!(near(r.orig, Vec3::new(5 * ONE / 2, -5 * ONE / 4, 5 * ONE), 200));
    for _ in 0..50 {
        let at = c.defocus_disk_sample();
        assert_eq!(at.e2, 5 * ONE);
        assert!(at.e0.abs() <= 5 * ONE + 200 && at.e1.abs() <= 5 * ONE + 200);
    }
}

#[test]
fn rays_go_through_their_pixels() {
    let c = camera(4, 1, 1);
    let none = p(0, 0, 0);
    let r = c.ray_through(0, 0, &none, &none, ONE / 3);
    assert_eq!(r.orig, p(0, 0, 5));
    assert_eq!(r.tm, ONE / 3);
    assert!(near(r.dir, Vec3::new(-15 * ONE / 4, 15 * ONE / 4, -5 * ONE), 200));
    let r = c.ray_through(3, 1, &none, &none, 0);
    assert!(near(r.dir, Vec3::new(15 * ONE / 4, 5 * ONE / 4, -5 * ONE), 400));
    let r = c.ray_through(1, 2, &Vec3::new(ONE / 2, -ONE / 2, 0), &none, 0);
    assert!(near(r.dir, Vec3::new(0, 0, -5 * ONE), 400));
}

#[test]
fn sampled_rays_stay_within_their_pixel() {
    let c = camera(4, 1, 1);
    let mut moved = false;
    for _ in 0..200 {
        let r = c.get_ray(1, 2);
        assert_eq!(r.orig, p(0, 0, 5));
        assert!(r.tm >= 0 && r.tm < ONE);
        assert!(r.dir.e0 >= -5 * ONE / 2 - 400 && r.dir.e0 <= 400);
        assert!(r.dir.e1 >= -5 * ONE / 2 - 400 && r.dir.e1 <= 400);
        if r.dir.e0 != -5 * ONE / 4 {
            moved = true;
        }
    }
    assert!(moved);
    let offset = Camera::sample_square();
    assert!(offset.e0 >= -ONE / 2 && offset.e0 < ONE / 2 && offset.e2 == 0);
    let lens = Camera::random_in_unit_disk();
    assert!(lens.length_squared() < ONE && lens.e2 == 0);
}

#[test]
fn no_bounce_left_is_black() {
    let (world, materials) = lit_ball();
    let c = camera(4, 1, 5);
    let at_the_ball = Ray::new(p(0, 0, 5), p(0, 0, -1));
    let past_the_ball = Ray::new(p(0, 0, 5), p(0, 1, 0));
    for depth in [0, -1, i32::MIN] {
        assert_eq!(c.ray_color(&at_the_ball, depth, &world, &materials), Vec3::zero());
        assert_eq!(c.ray_color(&past_the_ball, depth, &world, &materials), Vec3::zero());
    }
}

#[test]
fn a_ray_that_hits_nothing_brings_the_background() {
    let (world, materials) = lit_ball();
    let c = camera(4, 1, 5);
    assert_eq!(c.ray_color(&Ray::new(p(0, 0, 5), p(0, 1, 0)), 1, &world, &materials), sky());
}

#[test]
fn a_ray_that_hits_a_lamp_brings_its_light() {
    let (world, materials) = lit_ball();
    let c = camera(4, 1, 5);
    assert_eq!(c.ray_color(&Ray::new(p(0, 0, 5), p(0, 0, -1)), 1, &world, &materials), p(3, 2, 1));
}

#[test]
fn a_surface_without_a_material_is_black() {
    let (world, _) = lit_ball();
    let none: Vec<Box<dyn Material>> = Vec::new();
    let c = camera(4, 1, 5);
    assert_eq!(c.ray_color(&Ray::new(p(0, 0, 5), p(0, 0, -1)), 3, &world, &none), Vec3::zero());
}

#[test]
fn light_at_a_hit_is_emission_plus_share_times_incoming() {
    let emission = Vec3::new(ONE / 10, 0, ONE);
    assert_eq!(shade(emission, None), emission);
    let share = Vec3::new(ONE / 2, ONE / 4, 0);
    let incoming = Vec3::new(2 * ONE, 4 * ONE, 9 * ONE);
    assert_eq!(shade(emission, Some((share, incoming))), Vec3::new(11 * ONE / 10, ONE, ONE));
}

#[test]
fn a_mirror_passes_the_background_on() {
    // A mirror that faces the camera straight on reflects the ray back into the sky.
    let mut world = HittableList::new();
    world.add(Sphere::new(p(0, 0, 0), ONE, 0));
    let share = Vec3::new(ONE / 2, ONE / 2, ONE / 4);
    let materials = vec![Metal::new(share, 0)];
    let c = camera(4, 1, 5);
    let r = Ray::new(p(0, 0, 5), p(0, 0, -1));
    assert_eq!(c.ray_color(&r, 2, &world, &materials), Vec3::new(ONE / 4, 7 * ONE / 20, ONE / 4));
    // With one bounce only, the reflected ray brings nothing.
    assert_eq!(c.ray_color(&r, 1, &world, &materials), Vec3::zero());
}

#[test]
fn no_channel_of_a_pixel_is_negative() {
    let mut world = HittableList::new();
    world.add(Sphere::new(p(0, 0, 0), ONE, 0));
    world.add(Sphere::new(p(0, -101, 0), 100 * ONE, 1));
    world.add(Sphere::new(p(2, 1, 0), ONE / 2, 2));
    let materials: Vec<Box<dyn Material>> = vec![
        Box::new(Lambertian::from(Vec3::new(ONE / 2, ONE / 3, ONE / 4))),
        Box::new(Metal::new(Vec3::new(ONE, ONE / 2, ONE / 4), ONE / 10)),
        Box::new(DiffuseLight::from(p(4, 4, 4))),
    ];
    let c = camera(8, 4, 6);
    for j in 0..8 {
        for i in 0..8 {
            let colour = c.pixel_color(i, j, &world, &materials);
            assert!(colour.e0 >= 0 && colour.e1 >= 0 && colour.e2 >= 0, "pixel {:?}", colour);
        }
    }
}

#[test]
fn a_pixel_is_the_mean_of_its_samples() {
    let (world, materials) = lit_ball();
    let c = camera(5, 8, 2);
    // The middle pixel sees the lamp in every sample, the corner the sky.
    assert_eq!(c.pixel_color(2, 2, &world, &materials), p(3, 2, 1));
    assert_eq!(c.pixel_color(0, 0, &world, &materials), sky());
    let none = camera(5, 0, 2);
    assert_eq!(none.pixel_color(2, 2, &world, &materials), Vec3::zero());
}

#[test]
fn an_image_is_rendered_row_by_row() {
    // A lamp fills the upper left quarter of the view.
    let mut world = HittableList::new();
    world.add(Quad::new(p(-20, 0, 0), p(20, 0, 0), p(0, 20, 0), 0));
    let materials = vec![DiffuseLight::from(Vec3::new(ONE / 4, ONE, 4 * ONE))];
    let c = camera(4, 3, 2);
    let buffer = c.render(&world, &materials);
    assert_eq!(buffer.len(), 4 * 4 * 3);
    // The sky through gamma: sqrt(0.5), sqrt(0.7) and 1.
    let sky_bytes = [181, 214, 255];
    let lamp_bytes = [127, 255, 255];
    for j in 0..4 {
        for i in 0..4 {
            let at = 3 * (4 * j + i);
            let want = if i < 2 && j < 2 { lamp_bytes } else { sky_bytes };
            assert_eq!(&buffer[at..at + 3], &want, "pixel {} of row {}", i, j);
        }
        assert_eq!(c.render_row(j, &world, &materials), buffer[12 * j..12 * (j + 1)].to_vec());
    }
}

#[test]
fn rows_follow_the_width() {
    let (world, materials) = lit_ball();
    let mut c = camera(6, 1, 1);
    c.aspect_ratio = 2 * ONE;
    let c = c.with_initialized();
    assert_eq!(c.image_height, 3);
    assert_eq!(c.render_row(0, &world, &materials).len(), 18);
    assert_eq!(c.render(&world, &materials).len(), 54);
    assert_eq!(world.bounding_box().e0.min, -3 * ONE);
}

#[test]
fn a_draw_inside_the_disc_is_taken() {
    let inside = Vec3::new(ONE / 2, -ONE / 2, 0);
    assert_eq!(Camera::accept_disk(&inside), Some(inside));
    assert_eq!(Camera::accept_disk(&Vec3::zero()), Some(Vec3::zero()));
    assert_eq!(Camera::accept_disk(&Vec3::new(ONE, 0, 0)), None);
    assert_eq!(Camera::accept_disk(&Vec3::new(-ONE, -ONE, 0)), None);
    assert_eq!(Camera::accept_disk(&Vec3::new(800_000_000, 600_000_000, 0)), None);
    assert_eq!(
        Camera::accept_disk(&Vec3::new(800_000_000, 599_999_999, 0)),
        Some(Vec3::new(800_000_000, 599_999_999, 0))
    );
    for _ in 0..200 {
        let lens = Camera::random_in_unit_disk();
        assert_eq!(Camera::accept_disk(&lens), Some(lens));
        assert!(-ONE <= lens.e0 && lens.e0 < ONE && -ONE <= lens.e1 && lens.e1 < ONE);
    }
}

/// The room of 555 with its lamp, as its scene builds it, and its camera.
fn room() -> (HittableList<Quad>, Vec<Box<dyn Material>>, Camera) {
    let mut world = HittableList::new();
    world.add(Quad::new(p(555, 0, 0), p(0, 555, 0), p(0, 0, 555), 1));
    world.add(Quad::new(p(0, 0, 0), p(0, 555, 0), p(0, 0, 555), 0));
    world.add(Quad::new(p(343, 554, 332), p(-130, 0, 0), p(0, 0, -105), 3));
    world.add(Quad::new(p(0, 0, 0), p(555, 0, 0), p(0, 0, 555), 2));
    world.add(Quad::new(p(555, 555, 555), p(-555, 0, 0), p(0, 0, -555), 2));
    world.add(Quad::new(p(0, 0, 555), p(555, 0, 0), p(0, 555, 0), 2));
    let materials: Vec<Box<dyn Material>> = vec![
        Box::new(Lambertian::from(Vec3::new(650_000_000, 50_000_000, 50_000_000))),
        Box::new(Lambertian::from(Vec3::new(120_000_000, 450_000_000, 150_000_000))),
        Box::new(Lambertian::from(Vec3::new(730_000_000, 730_000_000, 730_000_000))),
        Box::new(DiffuseLight::from(p(15, 15, 15))),
    ];
    let mut c = Camera::default();
    c.image_width = 8;
    c.aspect_ratio = ONE;
    c.samples_per_pixel = 4;
    c.max_depth = 6;
    c.background = Vec3::zero();
    c.vfov = 40 * ONE;
    c.lookfrom = p(278, 278, -800);
    c.lookat = p(278, 278, 0);
    c.vup = p(0, 1, 0);
    c.defocus_angle = 0;
    (world, materials, c.with_initialized())
}

#[test]
fn the_camera_of_a_room_sees_the_room() {
    let (world, materials, c) = room();
    assert_eq!(c.image_height, 8);
    // The middle of the image looks at the middle of the back wall.
    for _ in 0..20 {
        let r = c.get_ray(4, 4);
        let rec = world.hit(&r, raytracer::interval::Interval::from(ONE / 1000, INFINITY)).unwrap();
        assert_eq!(rec.mat, 2);
        assert!((rec.p.e2 - 555 * ONE).abs() <= 1000, "{:?}", rec.p);
        // A pixel of the wall is 123 wide, and this one lies beside the middle.
        assert!((rec.p.e0 - 278 * ONE).abs() <= 124 * ONE && (rec.p.e1 - 278 * ONE).abs() <= 124 * ONE);
    }
    // A ray at the lamp brings its light, whatever the bounces left.
    let at_lamp = Ray::new(p(278, 278, -800), p(0, 276, 1080));
    assert_eq!(c.ray_color(&at_lamp, 1, &world, &materials), p(15, 15, 15));
    assert_eq!(c.ray_color(&at_lamp, 6, &world, &materials), p(15, 15, 15));
    // With one bounce left a wall is dark; no channel of any pixel is negative, and the
    // light of the lamp reaches some pixel by way of the walls.
    let at_wall = Ray::new(p(278, 278, -800), p(0, 0, 1));
    assert_eq!(c.ray_color(&at_wall, 1, &world, &materials), Vec3::zero());
    let mut lit = 0;
    for j in 0..8 {
        for i in 0..8 {
            let colour = c.pixel_color(i, j, &world, &materials);
            assert!(colour.e0 >= 0 && colour.e1 >= 0 && colour.e2 >= 0);
            if colour.e0 > 0 || colour.e1 > 0 || colour.e2 > 0 {
                lit += 1;
            }
        }
    }
    assert!(lit > 0);
    let bytes = c.render(&world, &materials);
    assert_eq!(bytes.len(), 3 * 8 * 8);
}

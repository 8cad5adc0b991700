use raytracer::interval::Interval;
use raytracer::perlin::Perlin;
use raytracer::rtwimage::RtwImage;
use raytracer::scalar::ONE;
use raytracer::texture::{
    CheckerTexture, ImageTexture, NoiseTexture, SolidColor, StackedPaddedTexture, Texture,
};
use raytracer::vec3::{Point, Vec3};

fn p(x: i64, y: i64, z: i64) -> Point {
    Vec3::new(x * ONE, y * ONE, z * ONE)
}

fn red() -> Vec3<i64> {
    p(1, 0, 0)
}

fn blue() -> Vec3<i64> {
    p(0, 0, 1)
}

/// Two by two pixels: red, green, blue and white.
fn four_pixels() -> RtwImage {
    RtwImage::from_raw(2, 2, vec![255, 0, 0, 0, 255, 0, 0, 0, 255, 255, 255, 255]).unwrap()
}

#[test]
fn a_solid_colour_is_the_same_everywhere() {
    let t = SolidColor::from(red());
    assert_eq!(t.value(0, 0, &p(0, 0, 0)), red());
    assert_eq!(t.value(ONE, ONE / 3, &p(5, -7, 9)), red());
}

#[test]
fn a_checker_changes_from_cube_to_cube() {
    let t = CheckerTexture::from(ONE, red(), blue());
    let at = |x: i64, y: i64, z: i64| t.value(0, 0, &Vec3::new(x, y, z));
    let half = ONE / 2;
    assert_eq!(at(half, half, half), red());
    assert_eq!(at(3 * half, half, half), blue());
    assert_eq!(at(3 * half, 3 * half, half), red());
    assert_eq!(at(3 * half, 3 * half, 3 * half), blue());
    // Below zero the cubes go on: the cube from -1 to 0 has the number -1.
    assert_eq!(at(-half, half, half), blue());
    assert_eq!(at(-half, -half, half), red());
    assert_eq!(at(-3 * half, half, half), red());
}

#[test]
fn the_scale_of_a_checker_is_the_size_of_its_cubes() {
    let t = CheckerTexture::from(ONE / 2, red(), blue());
    assert_eq!(t.inv_scale, 2 * ONE);
    assert_eq!(t.value(0, 0, &Vec3::new(ONE / 4, 0, 0)), red());
    assert_eq!(t.value(0, 0, &Vec3::new(3 * ONE / 4, 0, 0)), blue());
    assert_eq!(t.value(0, 0, &Vec3::new(5 * ONE / 4, 0, 0)), red());
    let nested = CheckerTexture::new(ONE, CheckerTexture::from(ONE / 2, red(), blue()), SolidColor::from(p(1, 1, 1)));
    assert_eq!(nested.value(0, 0, &Vec3::new(3 * ONE / 4, 0, 0)), blue());
    assert_eq!(nested.value(0, 0, &Vec3::new(3 * ONE / 2, 0, 0)), p(1, 1, 1));
}

#[test]
fn an_image_texture_reads_its_pixels() {
    let t = ImageTexture::new(four_pixels());
    let anywhere = p(0, 0, 0);
    // v counts from the bottom of the image: the upper row is at v close to one.
    let full = ONE;
    assert_eq!(t.value(ONE / 4, 3 * ONE / 4, &anywhere), Vec3::new(full, 0, 0));
    assert_eq!(t.value(3 * ONE / 4, 3 * ONE / 4, &anywhere), Vec3::new(0, full, 0));
    assert_eq!(t.value(ONE / 4, ONE / 4, &anywhere), Vec3::new(0, 0, full));
    assert_eq!(t.value(3 * ONE / 4, ONE / 4, &anywhere), Vec3::new(full, full, full));
}

#[test]
fn image_coordinates_are_held_between_zero_and_one() {
    let t = ImageTexture::new(four_pixels());
    let anywhere = p(0, 0, 0);
    assert_eq!(t.value(-5 * ONE, 3 * ONE / 4, &anywhere), t.value(0, 3 * ONE / 4, &anywhere));
    assert_eq!(t.value(ONE / 4, 7 * ONE, &anywhere), t.value(ONE / 4, ONE, &anywhere));
}

#[test]
fn the_far_edge_of_an_image_is_magenta() {
    // A coordinate of one names the column after the last.
    let t = ImageTexture::new(four_pixels());
    let full = ONE;
    assert_eq!(t.value(ONE, ONE / 2, &p(0, 0, 0)), Vec3::new(full, 0, full));
    assert_eq!(t.value(ONE / 2, 0, &p(0, 0, 0)), Vec3::new(full, 0, full));
}

#[test]
fn a_texture_without_an_image_is_cyan() {
    let t = ImageTexture::new(RtwImage::missing());
    assert_eq!(t.value(ONE / 2, ONE / 2, &p(0, 0, 0)), Vec3::new(0, ONE, ONE));
}

#[test]
fn bytes_become_squared_shares_of_255() {
    let image = RtwImage::from_raw(1, 1, vec![128, 51, 0]).unwrap();
    let c = ImageTexture::new(image).value(ONE / 2, ONE / 2, &p(0, 0, 0));
    let want = |byte: f64| (byte / 255.0).powi(2);
    assert!((c.e0 as f64 / 1e9 - want(128.0)).abs() < 1e-7);
    assert!((c.e1 as f64 / 1e9 - want(51.0)).abs() < 1e-7);
    assert_eq!(c.e2, 0);
}

#[test]
fn a_patch_lies_over_a_texture() {
    let t = StackedPaddedTexture::new(
        CheckerTexture::from(ONE, red(), blue()),
        SolidColor::from(p(1, 1, 1)),
        Interval::from(ONE / 4, 3 * ONE / 4),
        Interval::from(0, ONE / 2),
    );
    assert_eq!(t.value(ONE / 2, ONE / 4, &p(0, 0, 0)), red());
    assert_eq!(t.value(ONE / 2, ONE / 4, &Vec3::new(3 * ONE / 2, 0, 0)), blue());
    assert_eq!(t.value(ONE / 4, ONE / 2, &p(0, 0, 0)), red());
    assert_eq!(t.value(ONE / 8, ONE / 4, &p(0, 0, 0)), p(1, 1, 1));
    assert_eq!(t.value(ONE / 2, 3 * ONE / 4, &p(0, 0, 0)), p(1, 1, 1));
}

#[test]
fn the_patch_sees_its_own_coordinates() {
    let picture = ImageTexture::new(four_pixels());
    let t = StackedPaddedTexture::new(
        picture,
        SolidColor::from(p(0, 0, 0)),
        Interval::from(ONE / 2, ONE),
        Interval::from(ONE / 2, ONE),
    );
    let full = ONE;
    // (0.625, 0.875) of the whole is (0.25, 0.75) of the patch: the red pixel.
    assert_eq!(t.value(5 * ONE / 8, 7 * ONE / 8, &p(0, 0, 0)), Vec3::new(full, 0, 0));
    assert_eq!(t.value(7 * ONE / 8, 5 * ONE / 8, &p(0, 0, 0)), Vec3::new(full, full, full));
}

#[test]
fn noise_gives_greys_between_black_and_white() {
    let t = NoiseTexture::new(4 * ONE);
    assert_eq!(t.scale, 4 * ONE);
    for k in 0..200 {
        let at = Vec3::new(k * 37_000_000, -k * 91_000_000, k * 13_000_000);
        let c = t.value(0, 0, &at);
        assert_eq!(c.e0, c.e1);
        assert_eq!(c.e1, c.e2);
        assert!(c.e0 >= -10 && c.e0 <= ONE + 10, "grey {}", c.e0);
        assert_eq!(t.value(ONE / 3, ONE / 7, &at), c);
    }
}

#[test]
fn noise_over_a_flat_lattice_is_a_sine_of_the_depth() {
    // With every lattice vector at nothing the turbulence is nothing.
    let tables: Vec<usize> = (0..256).collect();
    let flat = Perlin::from_tables(vec![Vec3::zero(); 256], tables.clone(), tables.clone(), tables).unwrap();
    let t = NoiseTexture::with_noise(flat, 2 * ONE);
    let c = t.value(0, 0, &Vec3::new(0, 0, ONE / 4));
    let want = 0.5 * (1.0 + 0.5f64.sin());
    assert!((c.e0 as f64 / 1e9 - want).abs() < 1e-7);
}

#[test]
fn boxed_textures_act_as_what_they_hold() {
    let t: Box<dyn Texture> = Box::new(SolidColor::from(blue()));
    assert_eq!(t.value(0, 0, &p(0, 0, 0)), blue());
    let checker = CheckerTexture::new(ONE, t, Box::new(SolidColor::from(red())));
    assert_eq!(checker.value(0, 0, &Vec3::new(3 * ONE / 2, 0, 0)), red());
}

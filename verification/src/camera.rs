//! The camera and the path-tracing integrator.

use vstd::prelude::*;
use crate::color::{Color, ColorU8, color_bytes_spec};
use crate::hittable::{HitRecord, Hittable};
use crate::interval::Interval;
use crate::material::{Material, material_non_negative};
use crate::math::{degrees_to_radians, degrees_to_radians_spec, tan, tan_spec, whole, whole_spec, HALF};
use crate::ray::Ray;
use crate::scalar::{
    Scalar, ONE, TWO, MINUS_ONE, INFINITY, NEG_INFINITY, add_spec, mul_spec, div_spec,
    neg_spec, saturate, fx_add, fx_mul, fx_div, fx_neg, uniform, lemma_mul_non_negative,
};
use crate::vec3::{Point, Vec3, Vector};

verus! {

/// Hits nearer than this to the start of a ray are passed over, so that a
/// scattered ray does not hit the surface that it leaves.
pub const SHADOW_ACNE: Scalar = 1_000_000;

/// Below this angle of the lens, in degrees, every ray starts at the centre
/// of the camera.
pub const SHARP: Scalar = 1_000_000;

/// How often a point is drawn before the search for one inside the unit
/// disc gives up.
pub const DISK_DRAWS: usize = 256;

/// The whole number `n` as a scalar.
pub open spec fn to_scalar_spec(n: int) -> Scalar {
    saturate(n * ONE)
}

/// The whole number `n` as a scalar.
pub fn to_scalar(n: i64) -> (r: Scalar)
    ensures
        r == to_scalar_spec(n as int),
{
    assert(-0x8000_0000_0000_0000 * 1_000_000_000 <= n * ONE <= 0x8000_0000_0000_0000
        * 1_000_000_000) by (nonlinear_arith)
        requires
            -0x8000_0000_0000_0000 <= n < 0x8000_0000_0000_0000,
            ONE == 1_000_000_000,
    ;
    let wide: i128 = n as i128 * ONE as i128;
    if wide >= INFINITY as i128 {
        INFINITY
    } else if wide <= NEG_INFINITY as i128 {
        NEG_INFINITY
    } else {
        wide as i64
    }
}

/// The number of a row or column as a scalar.
pub fn index_scalar(i: usize) -> (r: Scalar)
    ensures
        r == to_scalar_spec(i as int),
{
    let wide: u64 = i as u64;
    if wide >= 9_223_372_037 {
        INFINITY
    } else {
        (wide as i64) * ONE
    }
}

/// What the user sets, and what `with_initialized` works out from it.
#[derive(Clone, Copy, Debug, PartialEq, Eq)]
pub struct Camera {
    /// Rendered image width in pixels.
    pub image_width: i32,
    /// Ratio of image width over height.
    pub aspect_ratio: Scalar,
    /// Count of random samples for each pixel.
    pub samples_per_pixel: i32,
    /// Maximum number of ray bounces into the scene.
    pub max_depth: i32,
    /// Scene background colour.
    pub background: Color,
    /// Vertical view angle (field of view), in degrees.
    pub vfov: Scalar,
    /// Point the camera is looking from.
    pub lookfrom: Point,
    /// Point the camera is looking at.
    pub lookat: Point,
    /// Camera-relative "up" direction.
    pub vup: Vector,
    /// Variation angle of rays through each pixel, in degrees.
    pub defocus_angle: Scalar,
    /// Distance from the camera to the plane of perfect focus.
    pub focus_dist: Scalar,
    /// Rendered image height.
    pub image_height: i32,
    /// Colour scale factor for a sum of pixel samples.
    pub pixel_samples_scale: Scalar,
    /// Camera centre.
    pub center: Point,
    /// Location of pixel 0, 0.
    pub pixel00_loc: Point,
    /// Offset to the pixel to the right.
    pub pixel_delta_u: Vector,
    /// Offset to the pixel below.
    pub pixel_delta_v: Vector,
    /// Camera frame basis vectors.
    pub u: Vector,
    pub v: Vector,
    pub w: Vector,
    /// Defocus disc horizontal radius.
    pub defocus_disk_u: Vector,
    /// Defocus disc vertical radius.
    pub defocus_disk_v: Vector,
}

/// The light at a hit: what the surface gives off, plus, where the ray is
/// scattered, the light that comes in along the scattered ray, channel by
/// channel times the share that gets through.
pub open spec fn shade_spec(emission: Color, scattered: Option<(Color, Color)>) -> Color {
    match scattered {
        Some((attenuation, incoming)) => emission.plus_spec(attenuation.times_spec(incoming)),
        None => emission,
    }
}

/// The light at a hit.
pub fn shade(emission: Color, scattered: Option<(Color, Color)>) -> (c: Color)
    ensures
        c == shade_spec(emission, scattered),
        emission.non_negative() && (scattered matches Some((a, i)) ==> a.non_negative()
            && i.non_negative()) ==> c.non_negative(),
{
    match scattered {
        Some((attenuation, incoming)) => {
            proof {
                if attenuation.non_negative() && incoming.non_negative() {
                    lemma_mul_non_negative(attenuation.e0, incoming.e0);
                    lemma_mul_non_negative(attenuation.e1, incoming.e1);
                    lemma_mul_non_negative(attenuation.e2, incoming.e2);
                }
            }
            let color_from_scatter = attenuation.times(&incoming);
            emission.plus(&color_from_scatter)
        },
        None => emission,
    }
}

/// Whether `c` is a light that can come back along the ray `r` with `depth`
/// bounces left. With none left it is black. Else the world reports a hit
/// or none: something that it can report from the least distance of a hit
/// onwards, for a steady world what `hit_spec` names. A ray that hits
/// nothing brings the background. A hit on a surface whose material is not
/// in the table brings black. Any other hit brings what the material gives
/// off, plus, for one of the ways in which the material can scatter the
/// ray, the light that can come back along the scattered ray with one
/// bounce fewer, times the share that gets through.
pub open spec fn radiance_spec<W: Hittable, M: Material>(
    background: Color,
    world: &W,
    materials: Seq<M>,
    r: Ray,
    depth: int,
    c: Color,
) -> bool
    decreases depth,
{
    if depth <= 0 {
        c == Vec3::all_spec(0)
    } else {
        exists|seen: Option<HitRecord>| #[trigger]
            world.hit_ok(r, Interval { min: SHADOW_ACNE, max: INFINITY }, seen) && (world.steady()
                ==> seen == world.hit_spec(r, Interval { min: SHADOW_ACNE, max: INFINITY }))
                && (seen matches Some(rec) ==> rec.t >= SHADOW_ACNE) && match seen {
                None => c == background,
                Some(rec) => if rec.mat >= materials.len() {
                    c == Vec3::all_spec(0)
                } else {
                    let m = materials[rec.mat as int];
                    let emission = m.emitted_spec(rec.u, rec.v, rec.p);
                    exists|scattered: Option<(Ray, Color)>| #[trigger]
                        m.scatter_spec(r, rec, scattered) && match scattered {
                            None => c == emission,
                            Some((ray, attenuation)) => exists|incoming: Color|
                                radiance_spec(
                                    background,
                                    world,
                                    materials,
                                    ray,
                                    depth - 1,
                                    incoming,
                                ) && c == #[trigger] shade_spec(
                                    emission,
                                    Some((attenuation, incoming)),
                                ),
                        }
                },
            }
    }
}

/// No light that can come back along a ray is negative, as long as the
/// background and the materials give none that is.
pub proof fn lemma_radiance_non_negative<W: Hittable, M: Material>(
    background: Color,
    world: &W,
    materials: Seq<M>,
    r: Ray,
    depth: int,
    c: Color,
)
    requires
        radiance_spec(background, world, materials, r, depth, c),
        background.non_negative(),
        forall|i: int| 0 <= i < materials.len() ==> material_non_negative(&#[trigger] materials[i]),
    ensures
        c.non_negative(),
    decreases depth,
{
    if depth > 0 {
        let range = Interval { min: SHADOW_ACNE, max: INFINITY };
        let seen = choose|seen: Option<HitRecord>| #[trigger]
            world.hit_ok(r, range, seen) && match seen {
                None => c == background,
                Some(rec) => if rec.mat >= materials.len() {
                    c == Vec3::<Scalar>::all_spec(0)
                } else {
                    let m = materials[rec.mat as int];
                    let emission = m.emitted_spec(rec.u, rec.v, rec.p);
                    exists|scattered: Option<(Ray, Color)>| #[trigger]
                        m.scatter_spec(r, rec, scattered) && match scattered {
                            None => c == emission,
                            Some((ray, attenuation)) => exists|incoming: Color|
                                radiance_spec(
                                    background,
                                    world,
                                    materials,
                                    ray,
                                    depth - 1,
                                    incoming,
                                ) && c == #[trigger] shade_spec(
                                    emission,
                                    Some((attenuation, incoming)),
                                ),
                        }
                },
            };
        match seen {
            None => {},
            Some(rec) => {
                if rec.mat < materials.len() {
                    let m = materials[rec.mat as int];
                    let emission = m.emitted_spec(rec.u, rec.v, rec.p);
                    assert(material_non_negative(&m));
                    let scattered = choose|scattered: Option<(Ray, Color)>| #[trigger]
                        m.scatter_spec(r, rec, scattered) && match scattered {
                            None => c == emission,
                            Some((ray, attenuation)) => exists|incoming: Color|
                                radiance_spec(
                                    background,
                                    world,
                                    materials,
                                    ray,
                                    depth - 1,
                                    incoming,
                                ) && c == #[trigger] shade_spec(
                                    emission,
                                    Some((attenuation, incoming)),
                                ),
                        };
                    match scattered {
                        None => {},
                        Some((ray, attenuation)) => {
                            let incoming = choose|incoming: Color|
                                radiance_spec(
                                    background,
                                    world,
                                    materials,
                                    ray,
                                    depth - 1,
                                    incoming,
                                ) && c == #[trigger] shade_spec(
                                    emission,
                                    Some((attenuation, incoming)),
                                );
                            lemma_radiance_non_negative(
                                background,
                                world,
                                materials,
                                ray,
                                depth - 1,
                                incoming,
                            );
                            assert(m.scatter_spec(r, rec, Some((ray, attenuation))));
                            lemma_mul_non_negative(attenuation.e0, incoming.e0);
                            lemma_mul_non_negative(attenuation.e1, incoming.e1);
                            lemma_mul_non_negative(attenuation.e2, incoming.e2);
                        },
                    }
                }
            },
        }
    }
}

/// With no bounce left, only black comes back along a ray.
pub proof fn lemma_radiance_depth_zero<W: Hittable, M: Material>(
    background: Color,
    world: &W,
    materials: Seq<M>,
    r: Ray,
    c: Color,
)
    requires
        radiance_spec(background, world, materials, r, 0, c),
    ensures
        c == Vec3::<Scalar>::all_spec(0),
{
}

impl Camera {
    /// The height of the image: its width over the aspect ratio, and one at
    /// least.
    pub open spec fn height_spec(self) -> i32 {
        let h = whole_spec(div_spec(to_scalar_spec(self.image_width as int), self.aspect_ratio));
        if h < 1 {
            1
        } else if h > i32::MAX {
            i32::MAX
        } else {
            h as i32
        }
    }

    /// The camera with everything worked out that rendering needs.
    pub open spec fn initialized_spec(self) -> Camera {
        let image_height = self.height_spec();
        let pixel_samples_scale = div_spec(ONE, to_scalar_spec(self.samples_per_pixel as int));
        let center = self.lookfrom;
        let focus_dist = if self.focus_dist < 1 {
            self.lookat.minus_spec(self.lookfrom).length_spec()
        } else {
            self.focus_dist
        };
        let theta = degrees_to_radians_spec(self.vfov);
        let h = tan_spec(div_spec(theta, TWO));
        let viewport_height = mul_spec(mul_spec(TWO, h), focus_dist);
        let viewport_width = mul_spec(
            viewport_height,
            div_spec(to_scalar_spec(self.image_width as int), to_scalar_spec(image_height as int)),
        );
        let w = self.lookfrom.minus_spec(self.lookat).unit_vector_spec();
        let u = self.vup.cross_spec(w).unit_vector_spec();
        let v = w.cross_spec(u);
        let viewport_u = u.scaled_spec(viewport_width);
        let viewport_v = v.scaled_spec(neg_spec(viewport_height));
        let pixel_delta_u = viewport_u.divided_spec(to_scalar_spec(self.image_width as int));
        let pixel_delta_v = viewport_v.divided_spec(to_scalar_spec(image_height as int));
        let viewport_upper_left = center.minus_spec(w.scaled_spec(focus_dist)).minus_spec(
            viewport_u.divided_spec(TWO),
        ).minus_spec(viewport_v.divided_spec(TWO));
        let pixel00_loc = viewport_upper_left.plus_spec(
            pixel_delta_u.plus_spec(pixel_delta_v).scaled_spec(HALF),
        );
        let defocus_radius = mul_spec(
            focus_dist,
            tan_spec(degrees_to_radians_spec(div_spec(self.defocus_angle, TWO))),
        );
        Camera {
            image_height,
            pixel_samples_scale,
            center,
            focus_dist,
            pixel00_loc,
            pixel_delta_u,
            pixel_delta_v,
            u,
            v,
            w,
            defocus_disk_u: u.scaled_spec(defocus_radius),
            defocus_disk_v: v.scaled_spec(defocus_radius),
            ..self
        }
    }

    /// The ray through the pixel in column `i` of row `j` for three random
    /// draws: `offset` moves the aim within the pixel, `lens` picks the
    /// start on the lens where the lens is open, and `time` is the moment
    /// of the ray.
    pub open spec fn ray_through_spec(
        self,
        i: usize,
        j: usize,
        offset: Vector,
        lens: Vector,
        time: Scalar,
    ) -> Ray {
        let pixel_sample = self.pixel00_loc.plus_spec(
            self.pixel_delta_u.scaled_spec(add_spec(to_scalar_spec(i as int), offset.e0)),
        ).plus_spec(self.pixel_delta_v.scaled_spec(add_spec(to_scalar_spec(j as int), offset.e1)));
        let ray_origin = if self.defocus_angle < SHARP {
            self.center
        } else {
            self.center.plus_spec(self.defocus_disk_u.scaled_spec(lens.e0)).plus_spec(
                self.defocus_disk_v.scaled_spec(lens.e1),
            )
        };
        Ray { orig: ray_origin, dir: pixel_sample.minus_spec(ray_origin), tm: time }
    }

    /// Whether `r` is a ray that `get_ray` can give for the pixel.
    pub open spec fn ray_spec(self, i: usize, j: usize, r: Ray) -> bool {
        exists|offset: Vector, lens: Vector, time: Scalar|
            offset.e0 >= -HALF && offset.e0 < HALF && offset.e1 >= -HALF && offset.e1 < HALF
                && offset.e2 == 0 && Self::drawn_disk(lens) && 0 <= time < ONE && r
                == #[trigger] self.ray_through_spec(
                i,
                j,
                offset,
                lens,
                time,
            )
    }

    /// The camera with every setting at zero.
    pub open spec fn blank_spec() -> Camera {
        let zero: Vector = Vec3::all_spec(0);
        Camera {
            image_width: 0,
            aspect_ratio: 0,
            samples_per_pixel: 0,
            max_depth: 0,
            background: zero,
            vfov: 0,
            lookfrom: zero,
            lookat: zero,
            vup: zero,
            defocus_angle: 0,
            focus_dist: 0,
            image_height: 0,
            pixel_samples_scale: 0,
            center: zero,
            pixel00_loc: zero,
            pixel_delta_u: zero,
            pixel_delta_v: zero,
            u: zero,
            v: zero,
            w: zero,
            defocus_disk_u: zero,
            defocus_disk_v: zero,
        }
    }

    /// The camera at the origin with every setting at zero.
    pub fn new() -> (c: Self)
        ensures
            c == Self::blank_spec(),
    {
        let zero = Vec3::zero();
        Camera {
            image_width: 0,
            aspect_ratio: 0,
            samples_per_pixel: 0,
            max_depth: 0,
            background: zero,
            vfov: 0,
            lookfrom: zero,
            lookat: zero,
            vup: zero,
            defocus_angle: 0,
            focus_dist: 0,
            image_height: 0,
            pixel_samples_scale: 0,
            center: zero,
            pixel00_loc: zero,
            pixel_delta_u: zero,
            pixel_delta_v: zero,
            u: zero,
            v: zero,
            w: zero,
            defocus_disk_u: zero,
            defocus_disk_v: zero,
        }
    }

    /// Works out what rendering needs from what the user has set. The
    /// camera must look at a point other than the one it looks from.
    pub fn with_initialized(self) -> (c: Self)
        requires
            self.lookfrom != self.lookat,
        ensures
            c == self.initialized_spec(),
            c.image_height >= 1,
    {
        let mut cam = self;
        // The image height, which is at least 1.
        let width: Scalar = to_scalar(cam.image_width as i64);
        let rows: i64 = whole(fx_div(width, cam.aspect_ratio));
        cam.image_height = if rows < 1 {
            1
        } else if rows > i32::MAX as i64 {
            i32::MAX
        } else {
            rows as i32
        };
        let height: Scalar = to_scalar(cam.image_height as i64);

        cam.pixel_samples_scale = fx_div(ONE, to_scalar(cam.samples_per_pixel as i64));

        cam.center = cam.lookfrom;
        if cam.focus_dist < 1 {
            cam.focus_dist = cam.lookat.minus(&cam.lookfrom).length();
        }
        // The viewport dimensions.
        let theta: Scalar = degrees_to_radians(cam.vfov);
        let h: Scalar = tan(fx_div(theta, TWO));
        let viewport_height: Scalar = fx_mul(fx_mul(TWO, h), cam.focus_dist);
        let viewport_width: Scalar = fx_mul(viewport_height, fx_div(width, height));

        // The u, v, w unit basis vectors of the camera frame.
        cam.w = cam.lookfrom.minus(&cam.lookat).into_unit_vector();
        cam.u = cam.vup.cross(&cam.w).into_unit_vector();
        cam.v = cam.w.cross(&cam.u);

        // The vectors across the horizontal and down the vertical viewport edges.
        let viewport_u = cam.u.scaled(viewport_width);
        let viewport_v = cam.v.scaled(fx_neg(viewport_height));

        // The horizontal and vertical delta vectors from pixel to pixel.
        cam.pixel_delta_u = viewport_u.divided(width);
        cam.pixel_delta_v = viewport_v.divided(height);

        // The location of the upper left pixel.
        let viewport_upper_left = cam.center.minus(&cam.w.scaled(cam.focus_dist)).minus(
            &viewport_u.divided(TWO),
        ).minus(&viewport_v.divided(TWO));
        cam.pixel00_loc = viewport_upper_left.plus(
            &cam.pixel_delta_u.plus(&cam.pixel_delta_v).scaled(HALF),
        );

        // The camera defocus disc basis vectors.
        let defocus_radius: Scalar = fx_mul(
            cam.focus_dist,
            tan(degrees_to_radians(fx_div(cam.defocus_angle, TWO))),
        );
        cam.defocus_disk_u = cam.u.scaled(defocus_radius);
        cam.defocus_disk_v = cam.v.scaled(defocus_radius);
        cam
    }

    /// The ray through a pixel for given random draws.
    pub fn ray_through(&self, i: usize, j: usize, offset: &Vector, lens: &Vector, time: Scalar) -> (r:
        Ray)
        ensures
            r == self.ray_through_spec(i, j, *offset, *lens, time),
    {
        let pixel_sample = self.pixel00_loc.plus(
            &self.pixel_delta_u.scaled(fx_add(index_scalar(i), offset.e0)),
        ).plus(&self.pixel_delta_v.scaled(fx_add(index_scalar(j), offset.e1)));
        let ray_origin = if self.defocus_angle < SHARP {
            self.center
        } else {
            self.defocus_disk_point(lens)
        };
        let ray_direction = pixel_sample.minus(&ray_origin);
        Ray::with_time(ray_origin, ray_direction, time)
    }

    /// A camera ray from the lens towards a randomly sampled point round
    /// the pixel in column `i` of row `j`.
    pub fn get_ray(&self, i: usize, j: usize) -> (r: Ray)
        ensures
            self.ray_spec(i, j, r),
    {
        let offset = Self::sample_square();
        let lens = Self::random_in_unit_disk();
        let ray_time: Scalar = uniform(0, ONE);
        let r = self.ray_through(i, j, &offset, &lens, ray_time);
        assert(r == self.ray_through_spec(i, j, offset, lens, ray_time));
        r
    }

    /// The vector to a random point in the square of side one round the
    /// origin.
    pub fn sample_square() -> (offset: Vector)
        ensures
            offset.e0 >= -HALF && offset.e0 < HALF,
            offset.e1 >= -HALF && offset.e1 < HALF,
            offset.e2 == 0,
    {
        Vec3::new(uniform(-HALF, HALF), uniform(-HALF, HALF), 0)
    }

    /// What becomes of a point `p` drawn from the square round the unit
    /// disc: inside the disc it is taken, and else it is turned down.
    pub open spec fn disk_accepted(p: Vector) -> Option<Vector> {
        if p.length_squared_spec() < ONE {
            Some(p)
        } else {
            None
        }
    }

    /// Whether `v` can come out of `random_in_unit_disk`: it is the centre,
    /// or an accepted draw from the square.
    pub open spec fn drawn_disk(v: Vector) -> bool {
        v == Vec3::<Scalar>::all_spec(0) || exists|p: Vector|
            MINUS_ONE <= p.e0 < ONE && MINUS_ONE <= p.e1 < ONE && p.e2 == 0
                && #[trigger] Self::disk_accepted(p) == Some(v)
    }

    /// Tests one draw from the square.
    pub fn accept_disk(p: &Vector) -> (r: Option<Vector>)
        ensures
            r == Self::disk_accepted(*p),
    {
        if p.length_squared() < ONE {
            Some(*p)
        } else {
            None
        }
    }

    /// A random point of the unit disc in the plane of the first two axes:
    /// the first of up to `DISK_DRAWS` draws from the square round the disc
    /// that falls inside it, or the centre if none does.
    pub fn random_in_unit_disk() -> (p: Vector)
        ensures
            Self::drawn_disk(p),
            p.e2 == 0,
            p.length_squared_spec() < ONE,
    {
        let mut draws: usize = 0;
        while draws < DISK_DRAWS
            invariant
                draws <= DISK_DRAWS,
            decreases DISK_DRAWS - draws,
        {
            let p = Vec3::new(uniform(MINUS_ONE, ONE), uniform(MINUS_ONE, ONE), 0);
            if let Some(v) = Self::accept_disk(&p) {
                return v;
            }
            draws = draws + 1;
        }
        Vec3::zero()
    }

    /// The point of the lens for the point `lens` of the unit disc.
    pub fn defocus_disk_point(&self, lens: &Vector) -> (p: Point)
        ensures
            p == self.center.plus_spec(self.defocus_disk_u.scaled_spec(lens.e0)).plus_spec(
                self.defocus_disk_v.scaled_spec(lens.e1),
            ),
    {
        self.center.plus(&self.defocus_disk_u.scaled(lens.e0)).plus(
            &self.defocus_disk_v.scaled(lens.e1),
        )
    }

    /// A random point in the camera defocus disc.
    pub fn defocus_disk_sample(&self) -> (p: Point)
        ensures
            exists|lens: Vector|
                Self::drawn_disk(lens) && (#[trigger] lens.length_squared_spec()) < ONE && p
                    == self.center.plus_spec(
                    self.defocus_disk_u.scaled_spec(lens.e0),
                ).plus_spec(self.defocus_disk_v.scaled_spec(lens.e1)),
    {
        let lens = Self::random_in_unit_disk();
        let p = self.defocus_disk_point(&lens);
        assert(lens.length_squared_spec() < ONE);
        p
    }

    /// The light that comes back along the ray `r`, with `depth` bounces
    /// left.
    pub fn ray_color<W: Hittable, M: Material>(
        &self,
        r: &Ray,
        depth: i32,
        world: &W,
        materials: &Vec<M>,
    ) -> (c: Color)
        ensures
            radiance_spec(self.background, world, materials@, *r, depth as int, c),
            depth <= 0 ==> c == Vec3::<Scalar>::all_spec(0),
        decreases depth,
    {
        // With the bounce limit exceeded, no more light is gathered.
        if depth <= 0 {
            return Vec3::zero();
        }
        match world.hit(r, Interval::from(SHADOW_ACNE, INFINITY)) {
            Some(rec) => {
                if rec.mat >= materials.len() {
                    return Vec3::zero();
                }
                let m = &materials[rec.mat];
                let color_from_emission = m.emitted(rec.u, rec.v, &rec.p);
                match m.scatter(r, &rec) {
                    Some((scattered, attenuation)) => {
                        let incoming = self.ray_color(&scattered, depth - 1, world, materials);
                        shade(color_from_emission, Some((attenuation, incoming)))
                    },
                    None => {
                        shade(color_from_emission, None)
                    },
                }
            },
            None => {
                self.background
            },
        }
    }
}

/// The sum of the first `n` of `samples`.
pub open spec fn sum_spec(samples: Seq<Color>, n: int) -> Color
    decreases n,
{
    if n <= 0 {
        Vec3::all_spec(0)
    } else {
        sum_spec(samples, n - 1).plus_spec(samples[n - 1])
    }
}

/// The number of samples that a count stands for: none where it is
/// negative.
pub open spec fn count_spec(n: i32) -> nat {
    if n > 0 {
        n as nat
    } else {
        0
    }
}

impl Camera {
    /// Whether `c` is a light that one sample of the pixel can bring: the
    /// light that can come back along one of the rays through the pixel.
    pub open spec fn sample_spec<W: Hittable, M: Material>(
        self,
        world: &W,
        materials: Seq<M>,
        i: usize,
        j: usize,
        c: Color,
    ) -> bool {
        exists|r: Ray|
            self.ray_spec(i, j, r) && #[trigger] radiance_spec(
                self.background,
                world,
                materials,
                r,
                self.max_depth as int,
                c,
            )
    }

    /// Whether `c` is a colour that the pixel can get: the sum of its
    /// samples, times the scale for a sum of samples.
    pub open spec fn pixel_spec<W: Hittable, M: Material>(
        self,
        world: &W,
        materials: Seq<M>,
        i: usize,
        j: usize,
        c: Color,
    ) -> bool {
        exists|samples: Seq<Color>|
            {
                &&& samples.len() == count_spec(self.samples_per_pixel)
                &&& forall|k: int|
                    0 <= k < samples.len() ==> self.sample_spec(
                        world,
                        materials,
                        i,
                        j,
                        #[trigger] samples[k],
                    )
                &&& c == (#[trigger] sum_spec(samples, samples.len() as int)).scaled_spec(
                    self.pixel_samples_scale,
                )
            }
    }

    /// Whether the three bytes are ones that the pixel can get: those of one
    /// of its colours.
    pub open spec fn pixel_bytes_spec<W: Hittable, M: Material>(
        self,
        world: &W,
        materials: Seq<M>,
        i: usize,
        j: usize,
        bytes: ColorU8,
    ) -> bool {
        exists|c: Color| #[trigger]
            self.pixel_spec(world, materials, i, j, c) && bytes == color_bytes_spec(c)
    }

    /// The colour of the pixel in column `i` of row `j`.
    pub fn pixel_color<W: Hittable, M: Material>(
        &self,
        i: usize,
        j: usize,
        world: &W,
        materials: &Vec<M>,
    ) -> (c: Color)
        ensures
            self.pixel_spec(world, materials@, i, j, c),
    {
        let mut color: Color = Vec3::zero();
        let ghost mut samples: Seq<Color> = Seq::empty();
        let mut done: i32 = 0;
        while done < self.samples_per_pixel
            invariant
                0 <= done,
                self.samples_per_pixel > 0 ==> done <= self.samples_per_pixel,
                self.samples_per_pixel <= 0 ==> done == 0,
                samples.len() == done,
                color == sum_spec(samples, done as int),
                forall|k: int|
                    0 <= k < samples.len() ==> self.sample_spec(
                        world,
                        materials@,
                        i,
                        j,
                        #[trigger] samples[k],
                    ),
            decreases self.samples_per_pixel - done,
        {
            let r = self.get_ray(i, j);
            let sample = self.ray_color(&r, self.max_depth, world, materials);
            proof {
                assert(self.sample_spec(world, materials@, i, j, sample));
                let before = samples;
                samples = samples.push(sample);
                assert(samples.drop_last() == before);
                lemma_sum_prefix(samples, before, done as int);
            }
            color = color.plus(&sample);
            done = done + 1;
        }
        let c = color.scaled(self.pixel_samples_scale);
        proof {
            assert(c == sum_spec(samples, samples.len() as int).scaled_spec(
                self.pixel_samples_scale,
            ));
        }
        c
    }

    /// The bytes of row `j` of the image: three for each pixel, from left
    /// to right.
    pub fn render_row<W: Hittable, M: Material>(&self, j: usize, world: &W, materials: &Vec<M>) -> (row:
        Vec<u8>)
        requires
            self.image_width >= 0,
        ensures
            row@.len() == 3 * self.image_width,
            forall|i: int|
                0 <= i < self.image_width ==> self.pixel_bytes_spec(
                    world,
                    materials@,
                    i as usize,
                    j,
                    #[trigger] pixel_at(row@, i),
                ),
    {
        let width: usize = self.image_width as usize;
        let mut row: Vec<u8> = Vec::new();
        let mut i: usize = 0;
        while i < width
            invariant
                i <= width,
                width == self.image_width,
                row@.len() == 3 * i,
                forall|k: int|
                    0 <= k < i ==> self.pixel_bytes_spec(
                        world,
                        materials@,
                        k as usize,
                        j,
                        #[trigger] pixel_at(row@, k),
                    ),
            decreases width - i,
        {
            let color = self.pixel_color(i, j, world, materials);
            let bytes: ColorU8 = ColorU8::from(color);
            let ghost before = row@;
            row.push(bytes.e0);
            row.push(bytes.e1);
            row.push(bytes.e2);
            proof {
                assert(pixel_at(row@, i as int) == bytes);
                assert(self.pixel_bytes_spec(world, materials@, i, j, bytes));
                assert forall|k: int| 0 <= k < i + 1 implies self.pixel_bytes_spec(
                    world,
                    materials@,
                    k as usize,
                    j,
                    #[trigger] pixel_at(row@, k),
                ) by {
                    if k < i {
                        assert(pixel_at(row@, k) == pixel_at(before, k));
                        assert(self.pixel_bytes_spec(
                            world,
                            materials@,
                            k as usize,
                            j,
                            pixel_at(before, k),
                        ));
                    }
                }
            }
            i = i + 1;
        }
        row
    }

    /// The bytes of the whole image, row by row from the top.
    pub fn render<W: Hittable, M: Material>(&self, world: &W, materials: &Vec<M>) -> (buffer: Vec<
        u8,
    >)
        requires
            self.image_width >= 0,
            self.image_height >= 0,
        ensures
            buffer@.len() == 3 * self.image_width * self.image_height,
            forall|i: int, j: int|
                0 <= i < self.image_width && 0 <= j < self.image_height
                    ==> self.pixel_bytes_spec(
                    world,
                    materials@,
                    i as usize,
                    j as usize,
                    #[trigger] pixel_at(buffer@, j * self.image_width + i),
                ),
    {
        let height: usize = self.image_height as usize;
        let ghost width: int = self.image_width as int;
        let mut buffer: Vec<u8> = Vec::new();
        let mut j: usize = 0;
        while j < height
            invariant
                j <= height,
                height == self.image_height,
                width == self.image_width,
                width >= 0,
                buffer@.len() == 3 * width * j,
                forall|a: int, b: int|
                    0 <= a < width && 0 <= b < j ==> self.pixel_bytes_spec(
                        world,
                        materials@,
                        a as usize,
                        b as usize,
                        #[trigger] pixel_at(buffer@, b * width + a),
                    ),
            decreases height - j,
        {
            let mut row = self.render_row(j, world, materials);
            let ghost before = buffer@;
            let ghost fresh = row@;
            buffer.append(&mut row);
            proof {
                assert(3 * width * (j + 1) == 3 * width * j + 3 * width) by (nonlinear_arith);
                assert forall|a: int, b: int| 0 <= a < width && 0 <= b < j + 1 implies self.pixel_bytes_spec(
                    world,
                    materials@,
                    a as usize,
                    b as usize,
                    #[trigger] pixel_at(buffer@, b * width + a),
                ) by {
                    if b < j {
                        assert(3 * (b * width + a) + 3 <= 3 * width * j) by (nonlinear_arith)
                            requires
                                0 <= a < width,
                                0 <= b < j,
                        ;
                        assert(pixel_at(buffer@, b * width + a) == pixel_at(before, b * width + a));
                    } else {
                        assert(3 * (b * width + a) == 3 * width * j + 3 * a) by (nonlinear_arith)
                            requires
                                b == j,
                        ;
                        assert(pixel_at(buffer@, b * width + a) == pixel_at(fresh, a));
                    }
                }
            }
            j = j + 1;
        }
        buffer
    }
}

/// The three bytes of pixel `n` of a buffer.
pub open spec fn pixel_at(buffer: Seq<u8>, n: int) -> ColorU8 {
    Vec3 { e0: buffer[3 * n], e1: buffer[3 * n + 1], e2: buffer[3 * n + 2] }
}

/// A sum does not look past the samples that it adds up.
pub proof fn lemma_sum_prefix(samples: Seq<Color>, prefix: Seq<Color>, n: int)
    requires
        0 <= n <= prefix.len() <= samples.len(),
        forall|k: int| 0 <= k < n ==> samples[k] == prefix[k],
    ensures
        sum_spec(samples, n) == sum_spec(prefix, n),
    decreases n,
{
    if n > 0 {
        lemma_sum_prefix(samples, prefix, n - 1);
    }
}

/// A sum of colours none of which is negative is not negative.
pub proof fn lemma_sum_non_negative(samples: Seq<Color>, n: int)
    requires
        0 <= n <= samples.len(),
        forall|k: int| 0 <= k < samples.len() ==> (#[trigger] samples[k]).non_negative(),
    ensures
        sum_spec(samples, n).non_negative(),
    decreases n,
{
    if n > 0 {
        lemma_sum_non_negative(samples, n - 1);
    }
}

/// The scale for a sum of samples is not negative where the count of
/// samples is not.
pub proof fn lemma_scale_non_negative(camera: Camera)
    requires
        camera.samples_per_pixel >= 0,
    ensures
        camera.initialized_spec().pixel_samples_scale >= 0,
{
    let n = to_scalar_spec(camera.samples_per_pixel as int);
    assert(camera.samples_per_pixel * ONE >= 0) by (nonlinear_arith)
        requires
            camera.samples_per_pixel >= 0,
    ;
    if n != 0 && n < INFINITY {
        assert(ONE * ONE >= 0);
        vstd::arithmetic::div_mod::lemma_div_pos_is_pos(ONE * ONE, n as int);
    }
}

/// No channel of a pixel is negative, as long as the background and the
/// materials give no negative light and the scale for the sum of samples is
/// not negative.
pub proof fn lemma_pixel_non_negative<W: Hittable, M: Material>(
    camera: Camera,
    world: &W,
    materials: Seq<M>,
    i: usize,
    j: usize,
    c: Color,
)
    requires
        camera.pixel_spec(world, materials, i, j, c),
        camera.background.non_negative(),
        camera.pixel_samples_scale >= 0,
        forall|k: int| 0 <= k < materials.len() ==> material_non_negative(&#[trigger] materials[k]),
    ensures
        c.non_negative(),
{
    let samples = choose|samples: Seq<Color>|
        {
            &&& samples.len() == count_spec(camera.samples_per_pixel)
            &&& forall|k: int|
                0 <= k < samples.len() ==> camera.sample_spec(
                    world,
                    materials,
                    i,
                    j,
                    #[trigger] samples[k],
                )
            &&& c == (#[trigger] sum_spec(samples, samples.len() as int)).scaled_spec(
                camera.pixel_samples_scale,
            )
        };
    assert forall|k: int| 0 <= k < samples.len() implies (#[trigger] samples[k]).non_negative() by {
        assert(camera.sample_spec(world, materials, i, j, samples[k]));
        let r = choose|r: Ray|
            camera.ray_spec(i, j, r) && #[trigger] radiance_spec(
                camera.background,
                world,
                materials,
                r,
                camera.max_depth as int,
                samples[k],
            );
        lemma_radiance_non_negative(
            camera.background,
            world,
            materials,
            r,
            camera.max_depth as int,
            samples[k],
        );
    }
    lemma_sum_non_negative(samples, samples.len() as int);
    let sum = sum_spec(samples, samples.len() as int);
    lemma_mul_non_negative(sum.e0, camera.pixel_samples_scale);
    lemma_mul_non_negative(sum.e1, camera.pixel_samples_scale);
    lemma_mul_non_negative(sum.e2, camera.pixel_samples_scale);
}

impl Default for Camera {
    fn default() -> (c: Self)
        ensures
            c == Self::blank_spec(),
    {
        Self::new()
    }
}

} // verus!

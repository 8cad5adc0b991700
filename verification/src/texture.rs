//! Textures: colours as a function of the place on a surface and in space.

use vstd::prelude::*;
use crate::color::Color;
use crate::interval::Interval;
use crate::math::{whole, whole_spec, sin_cos, sin_cos_spec, powi, powi_spec, HALF};
use crate::perlin::Perlin;
use crate::rtwimage::RtwImage;
use crate::scalar::{
    Scalar, ONE, add_spec, sub_spec, mul_spec, div_spec, fx_add, fx_sub, fx_mul, fx_div,
};
use crate::vec3::{Point, Vec3};

verus! {

/// The greatest byte, as a scalar.
pub const BYTE_MAX: Scalar = 255_000_000_000;

/// The number of octaves in the turbulence of a noise texture.
pub const TURBULENCE_DEPTH: i32 = 7;

/// A colour for every place.
pub trait Texture: Send + Sync {
    /// The colour at the surface coordinates `u`, `v` and the point `p`.
    /// Every texture of this library says what it is; a texture from
    /// elsewhere may leave it open.
    open spec fn value_spec(&self, u: Scalar, v: Scalar, p: Point) -> Color {
        arbitrary()
    }

    fn value(&self, u: Scalar, v: Scalar, p: &Point) -> (c: Color)
        ensures
            c == self.value_spec(u, v, *p),
    ;
}

/// The texture has no negative colour anywhere.
pub open spec fn texture_non_negative<T: Texture + ?Sized>(t: &T) -> bool {
    forall|u: Scalar, v: Scalar, p: Point| (#[trigger] t.value_spec(u, v, p)).non_negative()
}

impl<T: Texture + ?Sized> Texture for Box<T> {
    open spec fn value_spec(&self, u: Scalar, v: Scalar, p: Point) -> Color {
        (**self).value_spec(u, v, p)
    }

    fn value(&self, u: Scalar, v: Scalar, p: &Point) -> (c: Color) {
        (**self).value(u, v, p)
    }
}

/// One colour everywhere.
pub struct SolidColor {
    pub albedo: Color,
}

impl SolidColor {
/// The texture of the colour `albedo`.
    pub fn from(albedo: Color) -> (t: Self)
        ensures
            t.albedo == albedo,
    {
        SolidColor { albedo }
    }
}

impl Texture for SolidColor {
    open spec fn value_spec(&self, u: Scalar, v: Scalar, p: Point) -> Color {
        self.albedo
    }

    fn value(&self, _u: Scalar, _v: Scalar, _p: &Point) -> (c: Color) {
        self.albedo
    }
}

/// Two textures in turn, in cubes of one size.
pub struct CheckerTexture<E, O> {
    pub inv_scale: Scalar,
    pub even: E,
    pub odd: O,
}

/// The number of the cube that holds the coordinate `x`, for cubes whose
/// size is one over `inv_scale`.
pub open spec fn cube_spec(inv_scale: Scalar, x: Scalar) -> int {
    whole_spec(mul_spec(inv_scale, x))
}

impl<E: Texture, O: Texture> CheckerTexture<E, O> {
/// A checker of two textures in cubes of the size `scale`.
    pub fn new(scale: Scalar, even: E, odd: O) -> (t: Self)
        ensures
            t.inv_scale == div_spec(ONE, scale),
            t.even == even,
            t.odd == odd,
    {
        CheckerTexture { inv_scale: fx_div(ONE, scale), even, odd }
    }

    /// Whether `p` lies in a cube of the even texture: the numbers of its
    /// cube on the three axes add up to an even number.
    pub open spec fn is_even_spec(&self, p: Point) -> bool {
        (cube_spec(self.inv_scale, p.e0) + cube_spec(self.inv_scale, p.e1) + cube_spec(
            self.inv_scale,
            p.e2,
        )) % 2 == 0
    }
}

impl CheckerTexture<SolidColor, SolidColor> {
    /// A checker of two plain colours.
    pub fn from(scale: Scalar, c1: Color, c2: Color) -> (t: Self)
        ensures
            t.inv_scale == div_spec(ONE, scale),
            t.even.albedo == c1,
            t.odd.albedo == c2,
    {
        Self::new(scale, SolidColor::from(c1), SolidColor::from(c2))
    }
}

impl<E: Texture, O: Texture> Texture for CheckerTexture<E, O> {
    open spec fn value_spec(&self, u: Scalar, v: Scalar, p: Point) -> Color {
        if self.is_even_spec(p) {
            self.even.value_spec(u, v, p)
        } else {
            self.odd.value_spec(u, v, p)
        }
    }

    fn value(&self, u: Scalar, v: Scalar, p: &Point) -> (c: Color) {
        let x: i64 = whole(fx_mul(self.inv_scale, p.e0));
        let y: i64 = whole(fx_mul(self.inv_scale, p.e1));
        let z: i64 = whole(fx_mul(self.inv_scale, p.e2));
        let sum: i128 = x as i128 + y as i128 + z as i128;
        let even: bool = if sum >= 0 {
            sum % 2 == 0
        } else {
            (-sum) % 2 == 0
        };
        if even {
            self.even.value(u, v, p)
        } else {
            self.odd.value(u, v, p)
        }
    }
}

/// A texture read from an image.
pub struct ImageTexture {
    pub image: RtwImage,
}

/// The strength of a byte of an image: its share of 255, squared.
pub open spec fn channel_spec(byte: u8) -> Scalar {
    powi_spec(div_spec((byte as int * ONE) as Scalar, BYTE_MAX), 2)
}

/// The column or row of an image of `size` pixels for a coordinate from
/// zero to one.
pub open spec fn pixel_index_spec(coordinate: Scalar, size: u32) -> u32 {
    whole_spec(mul_spec(coordinate, (size as int * ONE) as Scalar)) as u32
}

impl ImageTexture {
/// The texture of an image.
    pub fn new(image: RtwImage) -> (t: Self)
        ensures
            t.image == image,
    {
        ImageTexture { image }
    }

    /// The column of the image for the coordinate `u`, held between zero
    /// and one.
    pub open spec fn column_spec(&self, u: Scalar) -> u32 {
        pixel_index_spec((Interval { min: 0, max: ONE }).clamp_spec(u), self.image.width_spec())
    }

    /// The row of the image for the coordinate `v`, held between zero and
    /// one and counted from the top.
    pub open spec fn row_spec(&self, v: Scalar) -> u32 {
        pixel_index_spec(
            sub_spec(ONE, (Interval { min: 0, max: ONE }).clamp_spec(v)),
            self.image.height_spec(),
        )
    }

    fn pixel_index(coordinate: Scalar, size: u32) -> (i: u32)
        requires
            0 <= coordinate <= ONE,
        ensures
            i == pixel_index_spec(coordinate, size),
    {
        let scaled: Scalar = fx_mul(coordinate, size as i64 * ONE);
        proof {
            crate::scalar::lemma_mul_monotone(0, coordinate, (size as int * ONE) as Scalar);
            crate::scalar::lemma_mul_monotone(coordinate, ONE, (size as int * ONE) as Scalar);
            crate::scalar::lemma_mul_one((size as int * ONE) as Scalar);
        }
        whole(scaled) as u32
    }

    fn channel(byte: u8) -> (r: Scalar)
        ensures
            r == channel_spec(byte),
    {
        powi(fx_div(byte as i64 * ONE, BYTE_MAX), 2)
    }
}

impl Texture for ImageTexture {
    open spec fn value_spec(&self, u: Scalar, v: Scalar, p: Point) -> Color {
        if self.image.data_spec() is None {
            Vec3 { e0: 0, e1: ONE, e2: ONE }
        } else {
            let pixel = self.image.pixel_spec(self.column_spec(u), self.row_spec(v));
            Vec3 {
                e0: channel_spec(pixel[0]),
                e1: channel_spec(pixel[1]),
                e2: channel_spec(pixel[2]),
            }
        }
    }

    fn value(&self, u: Scalar, v: Scalar, _p: &Point) -> (c: Color) {
        // Without an image the texture is plain cyan.
        if self.image.no_data() {
            return Vec3::new(0, ONE, ONE);
        }
        let u: Scalar = Interval::unit().clamp(u);
        let v: Scalar = fx_sub(ONE, Interval::unit().clamp(v));
        let pixel = self.image.pixel_data(
            Self::pixel_index(u, self.image.width()),
            Self::pixel_index(v, self.image.height()),
        );
        Vec3::new(Self::channel(pixel[0]), Self::channel(pixel[1]), Self::channel(pixel[2]))
    }
}

/// Marble-like bands of grey, stirred by turbulence.
pub struct NoiseTexture {
    pub noise: Perlin,
    pub scale: Scalar,
}

impl NoiseTexture {
    /// A texture over fresh random noise.
    pub fn new(scale: Scalar) -> (t: Self)
        ensures
            t.scale == scale,
            t.noise.fresh_spec(),
    {
        NoiseTexture { noise: Perlin::default(), scale }
    }

    /// A texture over the given noise.
    pub fn with_noise(noise: Perlin, scale: Scalar) -> (t: Self)
        ensures
            t.noise == noise,
            t.scale == scale,
    {
        NoiseTexture { noise, scale }
    }

    /// The grey at `p`: a half of one plus the sine of the depth, scaled,
    /// plus ten times the turbulence.
    pub open spec fn grey_spec(&self, p: Point) -> Scalar {
        mul_spec(
            HALF,
            add_spec(
                ONE,
                sin_cos_spec(
                    add_spec(
                        mul_spec(self.scale, p.e2),
                        mul_spec(10_000_000_000, self.noise.turb_spec(p, TURBULENCE_DEPTH)),
                    ),
                ).0,
            ),
        )
    }
}

impl Texture for NoiseTexture {
    open spec fn value_spec(&self, u: Scalar, v: Scalar, p: Point) -> Color {
        Vec3::all_spec(self.grey_spec(p))
    }

    fn value(&self, _u: Scalar, _v: Scalar, p: &Point) -> (c: Color) {
        let angle: Scalar = fx_add(
            fx_mul(self.scale, p.e2),
            fx_mul(10_000_000_000, self.noise.turb(p, TURBULENCE_DEPTH)),
        );
        let (sine, _cosine): (Scalar, Scalar) = sin_cos(angle);
        Vec3::all(fx_mul(HALF, fx_add(ONE, sine)))
    }
}

/// One texture laid over a patch of another.
pub struct StackedPaddedTexture<F, B> {
    pub front: F,
    pub back: B,
    pub i_u: Interval,
    pub i_v: Interval,
}

impl<F: Texture, B: Texture> StackedPaddedTexture<F, B> {
/// The texture `front` over the patch of `back` that `i_u` and `i_v` span.
    pub fn new(front: F, back: B, i_u: Interval, i_v: Interval) -> (t: Self)
        ensures
            t.front == front,
            t.back == back,
            t.i_u == i_u,
            t.i_v == i_v,
    {
        StackedPaddedTexture { front, back, i_u, i_v }
    }
}

impl<F: Texture, B: Texture> Texture for StackedPaddedTexture<F, B> {
    open spec fn value_spec(&self, u: Scalar, v: Scalar, p: Point) -> Color {
        if self.i_u.contains_spec(u) && self.i_v.contains_spec(v) {
            self.front.value_spec(
                div_spec(sub_spec(u, self.i_u.min), self.i_u.size_spec()),
                div_spec(sub_spec(v, self.i_v.min), self.i_v.size_spec()),
                p,
            )
        } else {
            self.back.value_spec(u, v, p)
        }
    }

    fn value(&self, u: Scalar, v: Scalar, p: &Point) -> (c: Color) {
        if self.i_u.contains(u) && self.i_v.contains(v) {
            self.front.value(
                fx_div(fx_sub(u, self.i_u.min), self.i_u.size()),
                fx_div(fx_sub(v, self.i_v.min), self.i_v.size()),
                p,
            )
        } else {
            self.back.value(u, v, p)
        }
    }
}

/// A plain colour without a negative channel is a texture without a
/// negative colour.
pub proof fn lemma_solid_non_negative(t: &SolidColor)
    requires
        t.albedo.non_negative(),
    ensures
        texture_non_negative(t),
{
}

/// A checker of two textures without a negative colour has none either.
pub proof fn lemma_checker_non_negative<E: Texture, O: Texture>(t: &CheckerTexture<E, O>)
    requires
        texture_non_negative(&t.even),
        texture_non_negative(&t.odd),
    ensures
        texture_non_negative(t),
{
    assert forall|u: Scalar, v: Scalar, p: Point| (#[trigger] t.value_spec(
        u,
        v,
        p,
    )).non_negative() by {
        assert(t.even.value_spec(u, v, p).non_negative());
        assert(t.odd.value_spec(u, v, p).non_negative());
    }
}

} // verus!

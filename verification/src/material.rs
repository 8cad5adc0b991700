//! Materials: what becomes of a ray at a hit, and what light the surface
//! gives off.

use vstd::prelude::*;
use crate::color::Color;
use crate::hittable::HitRecord;
use crate::math::{powi, powi_spec};
use crate::ray::Ray;
use crate::scalar::{
    Scalar, ONE, add_spec, sub_spec, mul_spec, div_spec, neg_spec, min_spec, sqrt_spec, fx_add,
    fx_sub, fx_mul, fx_div, fx_neg, fx_min, fx_sqrt, uniform,
};
use crate::texture::{SolidColor, Texture, texture_non_negative};
use crate::vec3::{Point, Vec3, Vector};

verus! {

/// A rule for scattering and for giving off light.
pub trait Material: Send + Sync {
    /// Whether `res` is a way in which the ray `r_in` can go on from the hit
    /// `rec`: a scattered ray and the share of its light that gets through,
    /// or nothing where the ray is taken up. Every material of this library
    /// says what its ways are; a material from elsewhere may leave it open.
    open spec fn scatter_spec(&self, r_in: Ray, rec: HitRecord, res: Option<(Ray, Color)>) -> bool {
        arbitrary()
    }

    /// The light given off at the surface coordinates `u`, `v` and the
    /// point `p`.
    open spec fn emitted_spec(&self, u: Scalar, v: Scalar, p: Point) -> Color {
        arbitrary()
    }

    fn scatter(&self, r_in: &Ray, rec: &HitRecord) -> (res: Option<(Ray, Color)>)
        ensures
            self.scatter_spec(*r_in, *rec, res),
    ;

    fn emitted(&self, u: Scalar, v: Scalar, p: &Point) -> (c: Color)
        ensures
            c == self.emitted_spec(u, v, *p),
    ;
}

/// The material gives off no negative light and lets no negative share of
/// light through.
pub open spec fn material_non_negative<M: Material + ?Sized>(m: &M) -> bool {
    &&& forall|u: Scalar, v: Scalar, p: Point| (#[trigger] m.emitted_spec(u, v, p)).non_negative()
    &&& forall|r_in: Ray, rec: HitRecord, ray: Ray, attenuation: Color| #[trigger]
        m.scatter_spec(r_in, rec, Some((ray, attenuation))) ==> attenuation.non_negative()
}

impl<T: Material + ?Sized> Material for Box<T> {
    open spec fn scatter_spec(&self, r_in: Ray, rec: HitRecord, res: Option<(Ray, Color)>) -> bool {
        (**self).scatter_spec(r_in, rec, res)
    }

    open spec fn emitted_spec(&self, u: Scalar, v: Scalar, p: Point) -> Color {
        (**self).emitted_spec(u, v, p)
    }

    fn scatter(&self, r_in: &Ray, rec: &HitRecord) -> (res: Option<(Ray, Color)>) {
        (**self).scatter(r_in, rec)
    }

    fn emitted(&self, u: Scalar, v: Scalar, p: &Point) -> (c: Color) {
        (**self).emitted(u, v, p)
    }
}

/// A matt surface: it scatters every ray, about the normal.
pub struct Lambertian<T> {
    pub tex: T,
}

impl<T: Texture> Lambertian<T> {
    pub fn new(tex: T) -> (m: Self)
        ensures
            m.tex == tex,
    {
        Lambertian { tex }
    }

    /// The scattered ray and its share of light for the random direction
    /// `sample`: the ray leaves the hit along the normal plus `sample`, or
    /// along the normal where that sum is close to nothing.
    pub open spec fn scattered_spec(&self, rec: HitRecord, sample: Vector) -> (Ray, Color) {
        let sum = rec.normal.plus_spec(sample);
        let scatter_direction = if sum.near_zero_spec() {
            rec.normal
        } else {
            sum
        };
        (
            Ray { orig: rec.p, dir: scatter_direction, tm: 0 },
            self.tex.value_spec(rec.u, rec.v, rec.p),
        )
    }

    /// The scattered ray and its share of light for a given random
    /// direction.
    pub fn scatter_with(&self, rec: &HitRecord, sample: Vector) -> (res: (Ray, Color))
        ensures
            res == self.scattered_spec(*rec, sample),
    {
        let mut scatter_direction = rec.normal.plus(&sample);
        // Catch a degenerate scatter direction.
        if scatter_direction.near_zero() {
            scatter_direction = rec.normal;
        }
        let scattered = Ray::new(rec.p, scatter_direction);
        let attenuation = self.tex.value(rec.u, rec.v, &rec.p);
        (scattered, attenuation)
    }
}

impl Lambertian<SolidColor> {
    /// A matt surface of one colour.
    pub fn from(albedo: Color) -> (m: Self)
        ensures
            m.tex.albedo == albedo,
    {
        Lambertian { tex: SolidColor::from(albedo) }
    }
}

impl<T: Texture> Material for Lambertian<T> {
    open spec fn scatter_spec(&self, r_in: Ray, rec: HitRecord, res: Option<(Ray, Color)>) -> bool {
        exists|sample: Vector|
            Vec3::drawn_unit(sample) && res == Some(#[trigger] self.scattered_spec(rec, sample))
    }

    open spec fn emitted_spec(&self, u: Scalar, v: Scalar, p: Point) -> Color {
        Vec3::all_spec(0)
    }

    fn scatter(&self, _r_in: &Ray, rec: &HitRecord) -> (res: Option<(Ray, Color)>) {
        let sample = Vec3::random_unit_vector();
        let res = Some(self.scatter_with(rec, sample));
        assert(res == Some(self.scattered_spec(*rec, sample)));
        res
    }

    fn emitted(&self, _u: Scalar, _v: Scalar, _p: &Point) -> (c: Color) {
        Vec3::zero()
    }
}

/// A mirror, blurred by `fuzz`.
pub struct Metal {
    pub albedo: Color,
    pub fuzz: Scalar,
}

impl Metal {
    pub fn new(albedo: Color, fuzz: Scalar) -> (m: Self)
        ensures
            m.albedo == albedo,
            m.fuzz == fuzz,
    {
        Metal { albedo, fuzz }
    }

    /// The direction of the mirrored ray for the random direction `sample`:
    /// the mirror image of the ray, at length one, plus `sample` times the
    /// fuzz.
    pub open spec fn reflected_spec(&self, r_in: Ray, rec: HitRecord, sample: Vector) -> Vector {
        r_in.dir.reflect_spec(rec.normal).unit_vector_spec().plus_spec(
            sample.scaled_spec(self.fuzz),
        )
    }

    /// The scattered ray for the random direction `sample`, or nothing
    /// where it would point into the surface.
    pub open spec fn scattered_spec(&self, r_in: Ray, rec: HitRecord, sample: Vector) -> Option<
        (Ray, Color),
    > {
        let reflected = self.reflected_spec(r_in, rec, sample);
        if reflected.dot_spec(rec.normal) > 0 {
            Some((Ray { orig: rec.p, dir: reflected, tm: 0 }, self.albedo))
        } else {
            None
        }
    }

    /// The scattered ray for a given random direction.
    pub fn scatter_with(&self, r_in: &Ray, rec: &HitRecord, sample: Vector) -> (res: Option<
        (Ray, Color),
    >)
        ensures
            res == self.scattered_spec(*r_in, *rec, sample),
    {
        let mut reflected = r_in.direction().reflect(&rec.normal);
        reflected = reflected.into_unit_vector().plus(&sample.scaled(self.fuzz));
        if reflected.dot(&rec.normal) > 0 {
            let scattered = Ray::new(rec.p, reflected);
            Some((scattered, self.albedo))
        } else {
            None
        }
    }
}

impl Material for Metal {
    open spec fn scatter_spec(&self, r_in: Ray, rec: HitRecord, res: Option<(Ray, Color)>) -> bool {
        exists|sample: Vector|
            Vec3::drawn_unit(sample) && res == #[trigger] self.scattered_spec(r_in, rec, sample)
    }

    open spec fn emitted_spec(&self, u: Scalar, v: Scalar, p: Point) -> Color {
        Vec3::all_spec(0)
    }

    fn scatter(&self, r_in: &Ray, rec: &HitRecord) -> (res: Option<(Ray, Color)>) {
        let sample = Vec3::random_unit_vector();
        let res = self.scatter_with(r_in, rec, sample);
        assert(res == self.scattered_spec(*r_in, *rec, sample));
        res
    }

    fn emitted(&self, _u: Scalar, _v: Scalar, _p: &Point) -> (c: Color) {
        Vec3::zero()
    }
}

/// Glass: it lets every ray on, bent or mirrored.
pub struct Dielectric {
    /// The refractive index of the material over that of what lies round it.
    pub refraction_index: Scalar,
}

/// Schlick's approximation of the share of light that a surface mirrors.
pub open spec fn reflectance_spec(cosine: Scalar, refraction_index: Scalar) -> Scalar {
    let r = div_spec(sub_spec(ONE, refraction_index), add_spec(ONE, refraction_index));
    let r0 = mul_spec(r, r);
    add_spec(r0, mul_spec(sub_spec(ONE, r0), powi_spec(sub_spec(ONE, cosine), 5)))
}

impl Dielectric {
    pub fn new(refraction_index: Scalar) -> (m: Self)
        ensures
            m.refraction_index == refraction_index,
    {
        Dielectric { refraction_index }
    }

    /// The share of light that the surface mirrors.
    pub fn reflectance(cosine: Scalar, refraction_index: Scalar) -> (r: Scalar)
        ensures
            r == reflectance_spec(cosine, refraction_index),
    {
        let mut r0: Scalar = fx_div(fx_sub(ONE, refraction_index), fx_add(ONE, refraction_index));
        r0 = fx_mul(r0, r0);
        fx_add(r0, fx_mul(fx_sub(ONE, r0), powi(fx_sub(ONE, cosine), 5)))
    }

    /// The ray that goes on for the random number `sample`, drawn from zero
    /// up to one: mirrored where the angle allows no bending or where the
    /// mirrored share is above `sample`, and else bent.
    pub open spec fn scattered_spec(&self, r_in: Ray, rec: HitRecord, sample: Scalar) -> (
        Ray,
        Color,
    ) {
        let ri = if rec.front_face {
            div_spec(ONE, self.refraction_index)
        } else {
            self.refraction_index
        };
        let unit_direction = r_in.dir.unit_vector_spec();
        let cos_theta = min_spec(neg_spec(unit_direction.dot_spec(rec.normal)), ONE);
        let sin_theta = sqrt_spec(sub_spec(ONE, mul_spec(cos_theta, cos_theta)));
        let cannot_refract = mul_spec(ri, sin_theta) > ONE;
        let direction = if cannot_refract || reflectance_spec(cos_theta, ri) > sample {
            unit_direction.reflect_spec(rec.normal)
        } else {
            unit_direction.refract_spec(rec.normal, ri)
        };
        (Ray { orig: rec.p, dir: direction, tm: 0 }, Vec3::all_spec(ONE))
    }

    /// The ray that goes on for a given random number.
    pub fn scatter_with(&self, r_in: &Ray, rec: &HitRecord, sample: Scalar) -> (res: (Ray, Color))
        ensures
            res == self.scattered_spec(*r_in, *rec, sample),
    {
        let ri: Scalar = if rec.front_face {
            fx_div(ONE, self.refraction_index)
        } else {
            self.refraction_index
        };
        let unit_direction = r_in.direction().unit_vector();
        let cos_theta: Scalar = fx_min(fx_neg(unit_direction.dot(&rec.normal)), ONE);
        let sin_theta: Scalar = fx_sqrt(fx_sub(ONE, fx_mul(cos_theta, cos_theta)));
        let cannot_refract: bool = fx_mul(ri, sin_theta) > ONE;
        let direction = if cannot_refract || Self::reflectance(cos_theta, ri) > sample {
            unit_direction.reflect(&rec.normal)
        } else {
            unit_direction.refract(&rec.normal, ri)
        };
        (Ray::new(rec.p, direction), Vec3::one())
    }
}

impl Material for Dielectric {
    open spec fn scatter_spec(&self, r_in: Ray, rec: HitRecord, res: Option<(Ray, Color)>) -> bool {
        exists|sample: Scalar|
            0 <= sample < ONE && res == Some(#[trigger] self.scattered_spec(r_in, rec, sample))
    }

    open spec fn emitted_spec(&self, u: Scalar, v: Scalar, p: Point) -> Color {
        Vec3::all_spec(0)
    }

    fn scatter(&self, r_in: &Ray, rec: &HitRecord) -> (res: Option<(Ray, Color)>) {
        let sample: Scalar = uniform(0, ONE);
        let res = Some(self.scatter_with(r_in, rec, sample));
        assert(res == Some(self.scattered_spec(*r_in, *rec, sample)));
        res
    }

    fn emitted(&self, _u: Scalar, _v: Scalar, _p: &Point) -> (c: Color) {
        Vec3::zero()
    }
}

/// A lamp: it gives off the light of its texture and scatters nothing.
pub struct DiffuseLight<T> {
    pub tex: T,
}

impl<T: Texture> DiffuseLight<T> {
    pub fn new(tex: T) -> (m: Self)
        ensures
            m.tex == tex,
    {
        DiffuseLight { tex }
    }
}

impl DiffuseLight<SolidColor> {
    /// A lamp of one colour.
    pub fn from(emit: Color) -> (m: Self)
        ensures
            m.tex.albedo == emit,
    {
        DiffuseLight { tex: SolidColor::from(emit) }
    }
}

impl<T: Texture> Material for DiffuseLight<T> {
    open spec fn scatter_spec(&self, r_in: Ray, rec: HitRecord, res: Option<(Ray, Color)>) -> bool {
        res is None
    }

    open spec fn emitted_spec(&self, u: Scalar, v: Scalar, p: Point) -> Color {
        self.tex.value_spec(u, v, p)
    }

    fn scatter(&self, _r_in: &Ray, _rec: &HitRecord) -> (res: Option<(Ray, Color)>) {
        None
    }

    fn emitted(&self, u: Scalar, v: Scalar, p: &Point) -> (c: Color) {
        self.tex.value(u, v, p)
    }
}

/// The stuff of a mist: it scatters every ray evenly to all sides.
pub struct Isotropic<T> {
    pub tex: T,
}

impl<T: Texture> Isotropic<T> {
    pub fn new(tex: T) -> (m: Self)
        ensures
            m.tex == tex,
    {
        Isotropic { tex }
    }

    /// The scattered ray and its share of light for the random direction
    /// `sample`.
    pub open spec fn scattered_spec(&self, rec: HitRecord, sample: Vector) -> (Ray, Color) {
        (Ray { orig: rec.p, dir: sample, tm: 0 }, self.tex.value_spec(rec.u, rec.v, rec.p))
    }

    /// The scattered ray and its share of light for a given random
    /// direction.
    pub fn scatter_with(&self, rec: &HitRecord, sample: Vector) -> (res: (Ray, Color))
        ensures
            res == self.scattered_spec(*rec, sample),
    {
        (Ray::new(rec.p, sample), self.tex.value(rec.u, rec.v, &rec.p))
    }
}

impl Isotropic<SolidColor> {
    /// A mist of one colour.
    pub fn from(albedo: Color) -> (m: Self)
        ensures
            m.tex.albedo == albedo,
    {
        Isotropic { tex: SolidColor::from(albedo) }
    }
}

impl<T: Texture> Material for Isotropic<T> {
    open spec fn scatter_spec(&self, r_in: Ray, rec: HitRecord, res: Option<(Ray, Color)>) -> bool {
        exists|sample: Vector|
            Vec3::drawn_unit(sample) && res == Some(#[trigger] self.scattered_spec(rec, sample))
    }

    open spec fn emitted_spec(&self, u: Scalar, v: Scalar, p: Point) -> Color {
        Vec3::all_spec(0)
    }

    fn scatter(&self, _r_in: &Ray, rec: &HitRecord) -> (res: Option<(Ray, Color)>) {
        let sample = Vec3::random_unit_vector();
        let res = Some(self.scatter_with(rec, sample));
        assert(res == Some(self.scattered_spec(*rec, sample)));
        res
    }

    fn emitted(&self, _u: Scalar, _v: Scalar, _p: &Point) -> (c: Color) {
        Vec3::zero()
    }
}

/// A matt surface whose texture has no negative colour lets no negative
/// share of light through.
pub proof fn lemma_lambertian_non_negative<T: Texture>(m: &Lambertian<T>)
    requires
        texture_non_negative(&m.tex),
    ensures
        material_non_negative(m),
{
    assert forall|r_in: Ray, rec: HitRecord, ray: Ray, attenuation: Color| #[trigger]
        m.scatter_spec(r_in, rec, Some((ray, attenuation))) implies attenuation.non_negative() by {
        assert(m.tex.value_spec(rec.u, rec.v, rec.p).non_negative());
    }
}

/// A mirror whose colour has no negative channel lets no negative share of
/// light through.
pub proof fn lemma_metal_non_negative(m: &Metal)
    requires
        m.albedo.non_negative(),
    ensures
        material_non_negative(m),
{
}

/// Glass lets all light through and gives off none.
pub proof fn lemma_dielectric_non_negative(m: &Dielectric)
    ensures
        material_non_negative(m),
{
}

/// A lamp whose texture has no negative colour gives off no negative
/// light.
pub proof fn lemma_light_non_negative<T: Texture>(m: &DiffuseLight<T>)
    requires
        texture_non_negative(&m.tex),
    ensures
        material_non_negative(m),
{
    assert forall|u: Scalar, v: Scalar, p: Point| (#[trigger] m.emitted_spec(
        u,
        v,
        p,
    )).non_negative() by {
        assert(m.tex.value_spec(u, v, p).non_negative());
    }
}

/// A mist whose texture has no negative colour lets no negative share of
/// light through.
pub proof fn lemma_isotropic_non_negative<T: Texture>(m: &Isotropic<T>)
    requires
        texture_non_negative(&m.tex),
    ensures
        material_non_negative(m),
{
    assert forall|r_in: Ray, rec: HitRecord, ray: Ray, attenuation: Color| #[trigger]
        m.scatter_spec(r_in, rec, Some((ray, attenuation))) implies attenuation.non_negative() by {
        assert(m.tex.value_spec(rec.u, rec.v, rec.p).non_negative());
    }
}

} // verus!

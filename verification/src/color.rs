//! Colours, and their way from light to bytes.

use vstd::prelude::*;
use vstd::std_specs::convert::FromSpecImpl;
use crate::interval::Interval;
use crate::scalar::{
    Scalar, ONE, mul_spec, sqrt_spec, fx_mul, fx_sqrt, lemma_mul_monotone, lemma_mul_one,
};
use crate::vec3::Vec3;

verus! {

/// Red, green and blue light, each from zero for none.
pub type Color = Vec3<Scalar>;

/// Red, green and blue as bytes.
pub type ColorU8 = Vec3<u8>;

/// Just below 256: what the full strength of a channel is scaled to before
/// the fraction is cut off.
pub const BYTE_SCALE: Scalar = 255_999_000_000;

/// The gamma-2 transform: the square root of a positive strength, and zero
/// for the others.
pub open spec fn linear_to_gamma_spec(linear_component: Scalar) -> Scalar {
    if linear_component > 0 {
        sqrt_spec(linear_component)
    } else {
        0
    }
}

/// The byte of a strength after the gamma transform: the strength held
/// between zero and one, scaled, and its fraction cut off.
pub open spec fn byte_spec(component: Scalar) -> u8 {
    (mul_spec((Interval { min: 0, max: ONE }).clamp_spec(component), BYTE_SCALE) / ONE) as u8
}

/// The bytes of a colour: each channel through the gamma transform and then
/// to its byte.
pub open spec fn color_bytes_spec(value: Color) -> ColorU8 {
    Vec3 {
        e0: byte_spec(linear_to_gamma_spec(value.e0)),
        e1: byte_spec(linear_to_gamma_spec(value.e1)),
        e2: byte_spec(linear_to_gamma_spec(value.e2)),
    }
}

/// The gamma-2 transform of a strength.
pub fn linear_to_gamma(linear_component: Scalar) -> (r: Scalar)
    ensures
        r == linear_to_gamma_spec(linear_component),
{
    if linear_component > 0 {
        fx_sqrt(linear_component)
    } else {
        0
    }
}

/// The byte of a strength after the gamma transform.
pub fn to_byte(component: Scalar) -> (b: u8)
    ensures
        b == byte_spec(component),
{
    let held: Scalar = Interval::unit().clamp(component);
    let scaled: Scalar = fx_mul(held, BYTE_SCALE);
    proof {
        lemma_mul_monotone(0, held, BYTE_SCALE);
        lemma_mul_monotone(held, ONE, BYTE_SCALE);
        lemma_mul_one(BYTE_SCALE);
    }
    (scaled / ONE) as u8
}

impl From<Color> for ColorU8 {
    fn from(value: Color) -> (bytes: ColorU8) {
        let r: Scalar = linear_to_gamma(value.e0);
        let g: Scalar = linear_to_gamma(value.e1);
        let b: Scalar = linear_to_gamma(value.e2);
        Vec3 { e0: to_byte(r), e1: to_byte(g), e2: to_byte(b) }
    }
}

impl FromSpecImpl<Color> for ColorU8 {
    open spec fn obeys_from_spec() -> bool {
        true
    }

    open spec fn from_spec(value: Color) -> ColorU8 {
        color_bytes_spec(value)
    }
}

} // verus!

//! A ray-tracing kernel over fixed-point numbers: bounding boxes, the
//! bounding-volume hierarchy, composable surfaces and the path-tracing
//! integrator.
//!
//! Every number is a [`scalar::Scalar`], a count of billionths whose
//! arithmetic is total: what leaves the range becomes an infinity. On top
//! of it stand vectors, intervals and boxes; the surfaces and the wrappers
//! that move, turn and group them; textures and materials; and the camera,
//! which follows rays through the world and turns light into bytes.
//!
//! Products that feed a quotient or a root are formed exactly, in wide
//! integers, and rounded once: the length of a vector, the vector over its
//! length, and the crossings of a sphere. [`vec3::SCENE_LIMIT`] names the
//! range of a scene, fifteen thousand either way, within which the hit
//! tests are shown to work: a wall is hit in its middle, a sphere at the
//! distance of its centre less its radius, and a turn there and back
//! leaves a point near where it was.
//!
//! Every surface says what it can report for a ray, by
//! [`hittable::Hittable::hit_ok`]; the wrappers and groups state their
//! reports over those of what they hold, also where a surface, like mist,
//! answers by chance. What the groups of steady surfaces promise is stated
//! in [`nearest`]: a list and a hierarchy over the same surfaces report the
//! same nearest hit.

pub mod scalar;
pub mod math;
pub mod vec3;
pub mod interval;
pub mod ray;
pub mod aabb;
pub mod hittable;
pub mod nearest;
pub mod hittable_list;
pub mod bvh;
pub mod sphere;
pub mod quad;
pub mod constant_medium;
pub mod model;
pub mod rtwimage;
pub mod color;
pub mod perlin;
pub mod texture;
pub mod material;
pub mod camera;

//! A path tracer for scenes of spheres.
//!
//! A camera sends rays into a scene; each ray is followed from surface to
//! surface, attenuated by the materials it meets, until it escapes to the sky
//! or runs out of bounces. Many jittered samples are averaged for each pixel.
//!
//! All numbers are fixed-point numbers with 32 fractional bits and saturating
//! arithmetic ([`fixed`]), so that every result is defined exactly and the
//! contracts can say what it is. Each type has a model made of integers: a
//! vector is the triple of its raw components ([`vec3::V3`]), and so on for
//! rays, materials, hit records, spheres, scenes and cameras. The spec
//! functions over these models define what the executable functions compute.
//!
//! Randomness enters through one function ([`random::random_fraction`]).
//! What is decided from a random number is decided by a function that takes
//! the number as an argument and is specified exactly; the contract of a
//! function that draws says which results are possible, for some numbers of
//! the right range.

pub mod camera;
pub mod color;
pub mod fixed;
pub mod hit_accuracy;
pub mod hittable;
pub mod hittable_list;
pub mod image;
pub mod material;
pub mod orthogonality;
pub mod ppm;
pub mod random;
pub mod ray;
pub mod render;
pub mod rtweekend;
pub mod scene;
pub mod sphere;
pub mod trig;
pub mod unit_length;
pub mod vec3;

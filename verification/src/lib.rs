//! The verified core of an offline path tracer: bounding boxes, the
//! bounding-volume hierarchy, the choices that intersection and scattering
//! make, and the recursion that turns a ray into a colour.
//!
//! The core does no floating-point arithmetic. Numbers come in as their
//! bit patterns ([`scalar::Scalar`]), on which ordering, thresholds and
//! sign flips are exact; sums, products, roots and random samples are made
//! by the caller and handed in, as values or as functions that the
//! searches and loops call.
//!
//! - [`scalar`], [`value`], [`vector`], [`interval`]: numbers by their
//!   bits, what they stand for, triples of them, ranges of them.
//! - [`aabb`]: boxes, their union, and the slab test.
//! - [`primitive`], [`ray`]: which root a sphere takes, whether a quad is
//!   hit, and the record of a hit.
//! - [`collection`], [`bvh`], [`probe`], [`agreement`]: the flat list of
//!   objects and the hierarchy over it, their searches, and the proof that
//!   the two searches agree.
//! - [`material`], [`integrator`], [`render`]: scattering, the path of a
//!   ray, and the loops over samples and pixels.
//! - [`texture`], [`random`]: textures, and the draw of an axis.

pub mod aabb;
pub mod agreement;
pub mod bvh;
pub mod collection;
pub mod integrator;
pub mod interval;
pub mod material;
pub mod primitive;
pub mod probe;
pub mod random;
pub mod ray;
pub mod render;
pub mod scalar;
pub mod texture;
pub mod value;
pub mod vector;

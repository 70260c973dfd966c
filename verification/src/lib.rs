//! Verified core of an offline Monte-Carlo path tracer.
//!
//! The crate holds the combinatorial part of the renderer: the ordering of
//! scalars, bounding boxes and their union, the bounding-volume hierarchy, the
//! nearest-hit protocol of lists and trees, the acceptance rules of the
//! primitives and materials, and the state machine of a traced path.
//!
//! Real numbers never appear as such. A scalar is the order-preserving
//! 64-bit code of a binary64 number (see [`vec3::Scalar`]); the library
//! compares and selects codes and never does arithmetic on them. Every
//! numeric formula is evaluated by the embedding program and reaches the
//! library either as a plain value or through a closure.
mod rng;
pub mod vec3;
pub mod ray;
pub mod aabb;
pub mod bvh;
pub mod hitable;
pub mod onb;
pub mod material;
pub mod pdf;
pub mod render;

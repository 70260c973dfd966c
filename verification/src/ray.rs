//! Rays.
use vstd::prelude::*;
use crate::vec3::Vec3;

verus! {

/// A half-line: the points `a + t * b` for a parameter `t`.
///
/// The direction `b` is not normalised.
#[derive(Debug, Clone, Copy, PartialEq, Eq, Structural)]
pub struct Ray {
    pub a: Vec3,
    pub b: Vec3,
}

impl Ray {
    /// The ray from `a` along `b`.
    pub fn new(a: Vec3, b: Vec3) -> (r: Self)
        ensures
            r == (Ray { a, b }),
    {
        Self { a, b }
    }

    /// Where the ray starts.
    pub fn origin(&self) -> (o: Vec3)
        ensures
            o == self.a,
    {
        self.a
    }

    /// Where the ray points.
    pub fn direction(&self) -> (d: Vec3)
        ensures
            d == self.b,
    {
        self.b
    }
}

} // verus!

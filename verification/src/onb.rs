//! Orthonormal bases.
use vstd::prelude::*;
use crate::vec3::{
    above, below, defined, spec_above, spec_below, spec_defined, Scalar, Vec3, ONE, ZERO,
};

verus! {

/// The code of nine tenths.
pub const NINE_TENTHS: Scalar = 0x3FEC_CCCC_CCCC_CCCD;

/// The code of minus nine tenths.
pub const MINUS_NINE_TENTHS: Scalar = -0x3FEC_CCCC_CCCC_CCCE;

/// An orthonormal basis.
#[derive(Debug, Clone, Copy, PartialEq, Eq)]
pub struct ONB {
    pub u: Vec3,
    pub v: Vec3,
    pub w: Vec3,
}

impl ONB {
    /// The axis that the basis around `w` is completed with: the y axis
    /// when `w` leans towards x by more than nine tenths, else the x axis.
    pub open spec fn helper_axis(w: Vec3) -> Vec3 {
        if spec_above(spec_defined(w.x), NINE_TENTHS) || spec_below(
            spec_defined(w.x),
            MINUS_NINE_TENTHS,
        ) {
            Vec3 { x: ZERO, y: ONE, z: ZERO }
        } else {
            Vec3 { x: ONE, y: ZERO, z: ZERO }
        }
    }

    /// The basis whose third vector is the unit vector `w`. `complete` is
    /// handed `w` and the helper axis, and gives the other two vectors, `v`
    /// first.
    pub fn build_from_w<F: FnOnce(Vec3, Vec3) -> (Vec3, Vec3)>(w: Vec3, complete: F) -> (onb: Self)
        requires
            forall|a: Vec3| call_requires(complete, (w, a)),
        ensures
            onb.w == w,
            call_ensures(complete, (w, Self::helper_axis(w)), (onb.v, onb.u)),
    {
        let a = if above(defined(w.x), NINE_TENTHS) || below(defined(w.x), MINUS_NINE_TENTHS) {
            Vec3::new(ZERO, ONE, ZERO)
        } else {
            Vec3::new(ONE, ZERO, ZERO)
        };
        let (v, u) = complete(w, a);
        Self { u, v, w }
    }
}

} // verus!

//! Triples of scalars, used alike for points, directions and colours.

use crate::scalar::Scalar;
use vstd::prelude::*;

verus! {

/// The encoding of 1e-8: a component below it in absolute value counts as zero.
pub const NEAR_ZERO_BITS: u64 = 0x3e45_798e_e230_8c3a;

/// An ordered triple of scalars.
#[derive(Clone, Copy, Debug)]
pub struct Vec3 {
    pub x: Scalar,
    pub y: Scalar,
    pub z: Scalar,
}

/// An RGB colour; the same triple under another name.
pub type Color = Vec3;

impl Vec3 {
    /// The triple of the three components.
    pub fn new(x: Scalar, y: Scalar, z: Scalar) -> (v: Vec3)
        ensures
            v == (Vec3 { x, y, z }),
    {
        Vec3 { x, y, z }
    }

    /// The triple with every component negated.
    pub open spec fn spec_neg(self) -> Vec3 {
        Vec3 { x: self.x.neg(), y: self.y.neg(), z: self.z.neg() }
    }

    /// The triple with every component negated.
    #[verifier::when_used_as_spec(spec_neg)]
    pub fn neg(self) -> (v: Vec3)
        ensures
            v == self.spec_neg(),
    {
        Vec3 { x: self.x.neg(), y: self.y.neg(), z: self.z.neg() }
    }

    /// Every component is smaller than 1e-8 in absolute value.
    pub open spec fn spec_near_zero(&self) -> bool {
        let eps = Scalar { bits: NEAR_ZERO_BITS };
        self.x.abs().lt(eps) && self.y.abs().lt(eps) && self.z.abs().lt(eps)
    }

    /// Whether the triple is too short to serve as a direction.
    #[verifier::when_used_as_spec(spec_near_zero)]
    pub fn near_zero(&self) -> (r: bool)
        ensures
            r == self.spec_near_zero(),
    {
        let eps = Scalar::from_bits(NEAR_ZERO_BITS);
        self.x.abs().lt(eps) && self.y.abs().lt(eps) && self.z.abs().lt(eps)
    }

    /// Whether rejection sampling keeps a candidate drawn from the cube `[-1, 1)^3` (or,
    /// for the lens, from the square): it does where the candidate lies strictly inside
    /// the unit ball. `magnitude2` is the candidate's squared length.
    pub fn inside_unit_ball(magnitude2: Scalar) -> (keep: bool)
        ensures
            keep == magnitude2.lt(Scalar::one()),
    {
        magnitude2.lt(Scalar::one())
    }

    /// The triple itself where it points into the hemisphere of a normal, its negation
    /// where it does not. `facing` is the dot product of the triple with the normal.
    pub fn into_hemisphere(self, facing: Scalar) -> (v: Vec3)
        ensures
            v == if facing.gt(Scalar::zero()) { self } else { self.neg() },
    {
        if facing.gt(Scalar::zero()) {
            self
        } else {
            self.neg()
        }
    }
}

} // verus!

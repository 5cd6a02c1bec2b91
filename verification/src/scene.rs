//! The choices made while a random field of small spheres is laid out.

use crate::scalar::Scalar;
use vstd::prelude::*;

verus! {

/// The encoding of 0.8: draws below it make a sphere diffuse.
pub const DIFFUSE_BELOW_BITS: u64 = 0x3fe9_9999_9999_999a;

/// The encoding of 0.95: draws below it, and not below 0.8, make a sphere metallic.
pub const METAL_BELOW_BITS: u64 = 0x3fee_6666_6666_6666;

/// The encoding of 0.9: a small sphere must be further than this from the landmark.
pub const CLEARANCE_BITS: u64 = 0x3fec_cccc_cccc_cccd;

/// The kind of surface a small sphere is given.
#[derive(Clone, Copy, Debug, PartialEq, Eq, Structural)]
pub enum Surface {
    Diffuse,
    Metal,
    Glass,
}

/// The surface that a uniform draw from `[0, 1)` selects: diffuse for four spheres in
/// five, metal for three in twenty, glass for the rest.
pub open spec fn surface_of(draw: Scalar) -> Surface {
    if draw.lt(Scalar { bits: DIFFUSE_BELOW_BITS }) {
        Surface::Diffuse
    } else if draw.lt(Scalar { bits: METAL_BELOW_BITS }) {
        Surface::Metal
    } else {
        Surface::Glass
    }
}

/// The surface of a small sphere, by a uniform draw from `[0, 1)`.
pub fn choose_surface(draw: Scalar) -> (surface: Surface)
    ensures
        surface == surface_of(draw),
{
    if draw.lt(Scalar::from_bits(DIFFUSE_BELOW_BITS)) {
        Surface::Diffuse
    } else if draw.lt(Scalar::from_bits(METAL_BELOW_BITS)) {
        Surface::Metal
    } else {
        Surface::Glass
    }
}

/// Whether a small sphere may stand where it was drawn: only where its centre is
/// further than 0.9 from the centre of the landmark sphere. `distance` is that distance.
pub fn clear_of_landmark(distance: Scalar) -> (clear: bool)
    ensures
        clear == distance.gt(Scalar { bits: CLEARANCE_BITS }),
{
    distance.gt(Scalar::from_bits(CLEARANCE_BITS))
}

} // verus!

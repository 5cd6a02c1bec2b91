//! Rays, and the bookkeeping of a path through the scene.

pub mod hittable;

use crate::scalar::{Scalar, INFINITY_BITS};
use crate::vector::Vec3;
use vstd::prelude::*;

verus! {

/// The encoding of 0.001. A ray is intersected from here on, not from zero, so that it
/// does not strike again the surface it has just left.
pub const T_MIN_BITS: u64 = 0x3f50_624d_d2f1_a9fc;

/// A half-line: the points `origin + t * direction`.
#[derive(Clone, Copy, Debug)]
pub struct Ray {
    orig: Vec3,
    dir: Vec3,
}

/// What became of a ray that was sent into the scene.
#[derive(Clone, Copy, Debug, PartialEq, Eq, Structural)]
pub enum Bounce {
    /// It struck nothing.
    Miss,
    /// It struck a surface that swallowed it.
    Absorbed,
    /// It struck a surface that sent it on.
    Scattered,
}

/// The colour of a ray, as far as it is decided without arithmetic.
#[derive(Clone, Copy, Debug, PartialEq, Eq, Structural)]
pub enum Shade {
    /// No light.
    Black,
    /// The background gradient in the ray's direction.
    Sky,
    /// The attenuation, times the colour of the scattered ray traced with this budget.
    Attenuated { depth: i32 },
}

impl Ray {
    /// Where the ray starts.
    pub closed spec fn spec_origin(&self) -> Vec3 {
        self.orig
    }

    /// Where the ray goes; not normalised.
    pub closed spec fn spec_direction(&self) -> Vec3 {
        self.dir
    }

    /// The ray from `orig` along `dir`.
    pub fn new(orig: Vec3, dir: Vec3) -> (r: Self)
        ensures
            r.origin() == orig,
            r.direction() == dir,
    {
        Self { orig, dir }
    }

    /// Where the ray starts.
    #[verifier::when_used_as_spec(spec_origin)]
    pub fn origin(&self) -> (o: Vec3)
        ensures
            o == self.spec_origin(),
    {
        self.orig
    }

    /// Where the ray goes; not normalised.
    #[verifier::when_used_as_spec(spec_direction)]
    pub fn direction(&self) -> (d: Vec3)
        ensures
            d == self.spec_direction(),
    {
        self.dir
    }

    /// The interval of ray parameters in which a path looks for surfaces: from 0.001,
    /// exclusive, without upper end.
    pub fn interval() -> (bounds: (Scalar, Scalar))
        ensures
            bounds.0.bits == T_MIN_BITS,
            bounds.1.bits == INFINITY_BITS,
    {
        (Scalar::from_bits(T_MIN_BITS), Scalar::infinity())
    }

    /// Whether a ray with this budget is black without being traced at all.
    pub fn exhausted(depth: i32) -> (r: bool)
        ensures
            r == (depth <= 0),
    {
        depth <= 0
    }

    /// The colour of a ray with budget `depth` that met with `bounce`.
    pub open spec fn spec_color(depth: i32, bounce: Bounce) -> Shade {
        if depth <= 0 {
            Shade::Black
        } else {
            match bounce {
                Bounce::Miss => Shade::Sky,
                Bounce::Absorbed => Shade::Black,
                Bounce::Scattered => Shade::Attenuated { depth: (depth - 1) as i32 },
            }
        }
    }

    /// One level of the colour recursion. Without budget the ray is black whatever it
    /// met. With budget, a miss shows the sky, an absorbed ray is black, and a scattered
    /// ray hands on a budget that is smaller by one.
    #[verifier::when_used_as_spec(spec_color)]
    pub fn color(depth: i32, bounce: Bounce) -> (shade: Shade)
        ensures
            shade == Self::spec_color(depth, bounce),
    {
        if depth <= 0 {
            Shade::Black
        } else {
            match bounce {
                Bounce::Miss => Shade::Sky,
                Bounce::Absorbed => Shade::Black,
                Bounce::Scattered => Shade::Attenuated { depth: depth - 1 },
            }
        }
    }

    /// How many rays a path traces before its colour is settled, when the rays it sends
    /// meet with `bounces` in turn, and whether it ends in the sky. A path with no
    /// budget traces none; a path whose budget outlasts the bounces on record is cut
    /// where the record ends.
    pub open spec fn path(depth: i32, bounces: Seq<Bounce>) -> (nat, bool)
        decreases bounces.len(),
    {
        if depth <= 0 || bounces.len() == 0 {
            (0, false)
        } else {
            match Self::spec_color(depth, bounces[0]) {
                Shade::Sky => (1, true),
                Shade::Black => (1, false),
                Shade::Attenuated { depth: left } => {
                    let rest = Self::path(left, bounces.subrange(1, bounces.len() as int));
                    (1 + rest.0, rest.1)
                },
            }
        }
    }

    /// The recursion ends: a path never traces more rays than its budget. With no budget
    /// it traces none, and its colour is black whatever the ray would have met.
    pub proof fn lemma_path_is_bounded(depth: i32, bounces: Seq<Bounce>)
        ensures
            Self::path(depth, bounces).0 <= if depth > 0 { depth as int } else { 0 },
            Self::path(depth, bounces).0 <= bounces.len(),
            depth <= 0 ==> Self::path(depth, bounces) == (0nat, false),
            depth <= 0 ==> forall|bounce: Bounce| Self::spec_color(depth, bounce) == Shade::Black,
        decreases bounces.len(),
    {
        if depth > 0 && bounces.len() > 0 && bounces[0] == Bounce::Scattered {
            Self::lemma_path_is_bounded((depth - 1) as i32, bounces.subrange(1, bounces.len() as int));
        }
    }
}

impl Default for Ray {
    /// The ray from the origin with no direction.
    fn default() -> (r: Self)
        ensures
            r.origin() == (Vec3 { x: Scalar::zero(), y: Scalar::zero(), z: Scalar::zero() }),
            r.direction() == r.origin(),
    {
        let zero = Vec3::new(Scalar::zero(), Scalar::zero(), Scalar::zero());
        Self { orig: zero, dir: zero }
    }
}

} // verus!

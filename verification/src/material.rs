//! Surfaces: what a diffuse, a metallic and a glass material decide when a ray strikes.
//!
//! A material owns the decision, not the arithmetic. The caller reflects, refracts and
//! draws random numbers; each `scatter` is handed what came of that and says whether the
//! ray goes on, with which direction, and how it is tinted.

use crate::ray::hittable::HitRecord;
use crate::ray::Ray;
use crate::scalar::{Scalar, ONE_BITS};
use crate::vector::{Color, Vec3};
use vstd::prelude::*;

verus! {

/// A diffuse surface.
#[derive(Clone, Copy, Debug)]
pub struct Lambertian {
    albedo: Color,
}

/// A mirror, more or less polished.
#[derive(Clone, Copy, Debug)]
pub struct Metal {
    albedo: Color,
    fuzz: Scalar,
}

/// Clear glass.
#[derive(Clone, Copy, Debug)]
pub struct Dielectric {
    ir: Scalar,
}

/// The closed set of surfaces a sphere can have.
#[derive(Clone, Copy, Debug)]
pub enum Material {
    Lambertian(Lambertian),
    Metal(Metal),
    Dielectric(Dielectric),
}

/// What the caller computed for a ray that struck glass.
#[derive(Clone, Copy, Debug)]
pub struct Refraction {
    /// The refraction ratio times the sine of the angle of incidence.
    pub ratio_sin: Scalar,
    /// Schlick's approximation of the reflectance at this angle.
    pub reflectance: Scalar,
    /// A uniform draw from `[0, 1)`.
    pub draw: Scalar,
    /// The unit direction mirrored at the normal.
    pub reflected: Vec3,
    /// The unit direction bent by Snell's law.
    pub refracted: Vec3,
}

impl Lambertian {
    /// The colour the surface gives to what it scatters.
    pub closed spec fn spec_albedo(&self) -> Color {
        self.albedo
    }

    /// The diffuse surface of the given colour.
    pub fn new(albedo: Color) -> (m: Self)
        ensures
            m.albedo() == albedo,
    {
        Self { albedo }
    }

    /// The colour the surface gives to what it scatters.
    #[verifier::when_used_as_spec(spec_albedo)]
    pub fn albedo(&self) -> (c: Color)
        ensures
            c == self.spec_albedo(),
    {
        self.albedo
    }

    /// The direction a diffuse bounce takes: the candidate the caller sampled (the
    /// normal plus a random unit vector), or the normal itself where the two cancelled.
    pub open spec fn direction(rec: &HitRecord, candidate: Vec3) -> Vec3 {
        if candidate.near_zero() {
            rec.normal
        } else {
            candidate
        }
    }

    /// A diffuse surface never absorbs: the ray leaves the point of impact in
    /// [`Self::direction`], tinted by the albedo.
    pub fn scatter(&self, rec: &HitRecord, candidate: Vec3) -> (r: Option<(Color, Ray)>)
        ensures
            r matches Some((attenuation, scattered))
            && attenuation == self.albedo()
            && scattered.origin() == rec.p
            && scattered.direction() == Self::direction(rec, candidate),
    {
        let direction = if candidate.near_zero() {
            rec.normal
        } else {
            candidate
        };
        Some((self.albedo, Ray::new(rec.p, direction)))
    }
}

impl Metal {
    /// The colour the surface gives to what it scatters.
    pub closed spec fn spec_albedo(&self) -> Color {
        self.albedo
    }

    /// The roughness of the mirror.
    pub closed spec fn spec_fuzz(&self) -> Scalar {
        self.fuzz
    }

    #[verifier::type_invariant]
    spec fn fuzz_in_unit_interval(self) -> bool {
        Scalar::zero().le(self.fuzz) && self.fuzz.le(Scalar::one())
    }

    /// The roughness a metal is built with: the given one held to `[0, 1]`. Anything
    /// that is not below one, NaN included, becomes one; anything below zero, zero.
    pub open spec fn clamped_fuzz(fuzz: Scalar) -> Scalar {
        if fuzz.lt(Scalar::one()) {
            if fuzz.lt(Scalar::zero()) {
                Scalar::zero()
            } else {
                fuzz
            }
        } else {
            Scalar::one()
        }
    }

    /// The metal of the given colour, with the roughness held to `[0, 1]`.
    pub fn new(albedo: Color, fuzz: Scalar) -> (m: Self)
        ensures
            m.albedo() == albedo,
            m.fuzz() == Self::clamped_fuzz(fuzz),
    {
        let fuzz = if fuzz.lt(Scalar::one()) {
            if fuzz.lt(Scalar::zero()) {
                Scalar::zero()
            } else {
                fuzz
            }
        } else {
            Scalar::one()
        };
        Self { albedo, fuzz }
    }

    /// The colour the surface gives to what it scatters.
    #[verifier::when_used_as_spec(spec_albedo)]
    pub fn albedo(&self) -> (c: Color)
        ensures
            c == self.spec_albedo(),
    {
        self.albedo
    }

    /// The roughness, which lies in `[0, 1]` for every metal there is.
    #[verifier::when_used_as_spec(spec_fuzz)]
    pub fn fuzz(&self) -> (f: Scalar)
        ensures
            f == self.spec_fuzz(),
            Scalar::zero().le(f),
            f.le(Scalar::one()),
    {
        proof {
            use_type_invariant(self);
        }
        self.fuzz
    }

    /// A metal passes the ray on only where the perturbed reflection leaves the surface.
    /// `direction` is the mirrored unit direction plus `fuzz` times a random point of the
    /// unit ball; `facing` is its dot product with the normal. Where that is not
    /// positive the ray is absorbed.
    pub fn scatter(&self, rec: &HitRecord, direction: Vec3, facing: Scalar) -> (r: Option<(Color, Ray)>)
        ensures
            r is Some <==> facing.gt(Scalar::zero()),
            r matches Some((attenuation, scattered)) ==> attenuation == self.albedo()
                && scattered.origin() == rec.p && scattered.direction() == direction,
    {
        if facing.gt(Scalar::zero()) {
            Some((self.albedo, Ray::new(rec.p, direction)))
        } else {
            None
        }
    }
}

impl Dielectric {
    /// The index of refraction.
    pub closed spec fn spec_ir(&self) -> Scalar {
        self.ir
    }

    /// The glass with the given index of refraction.
    pub fn new(ir: Scalar) -> (m: Self)
        ensures
            m.ir() == ir,
    {
        Self { ir }
    }

    /// The index of refraction.
    #[verifier::when_used_as_spec(spec_ir)]
    pub fn ir(&self) -> (i: Scalar)
        ensures
            i == self.spec_ir(),
    {
        self.ir
    }

    /// The ratio of the indices on the two sides of the surface: `reciprocal`, which is
    /// to be one over the index, for a ray that enters; the index for one that leaves.
    pub fn refraction_ratio(&self, front_face: bool, reciprocal: Scalar) -> (ratio: Scalar)
        ensures
            ratio == if front_face { reciprocal } else { self.ir() },
    {
        if front_face {
            reciprocal
        } else {
            self.ir
        }
    }

    /// The cosine of the angle of incidence: the dot product of the reversed unit
    /// direction with the normal, held to at most one.
    pub fn cos_theta(dot: Scalar) -> (cos: Scalar)
        ensures
            cos == dot.min(Scalar::one()),
    {
        dot.min(Scalar::one())
    }

    /// Whether the ray is mirrored: always under total internal reflection, and else
    /// where the reflectance beats the draw.
    pub open spec fn reflects(optics: &Refraction) -> bool {
        optics.ratio_sin.gt(Scalar::one()) || optics.reflectance.gt(optics.draw)
    }

    /// Glass absorbs nothing: the attenuation is white, and the ray leaves the point of
    /// impact mirrored where [`Self::reflects`] says so, bent otherwise.
    pub fn scatter(&self, rec: &HitRecord, optics: &Refraction) -> (r: Option<(Color, Ray)>)
        ensures
            r matches Some((attenuation, scattered))
            && attenuation.x.bits == ONE_BITS && attenuation.y.bits == ONE_BITS
            && attenuation.z.bits == ONE_BITS
            && scattered.origin() == rec.p
            && scattered.direction() == if Self::reflects(optics) {
                optics.reflected
            } else {
                optics.refracted
            },
    {
        let attenuation = Vec3::new(Scalar::one(), Scalar::one(), Scalar::one());
        let direction = if optics.ratio_sin.gt(Scalar::one()) || optics.reflectance.gt(optics.draw) {
            optics.reflected
        } else {
            optics.refracted
        };
        Some((attenuation, Ray::new(rec.p, direction)))
    }
}

} // verus!

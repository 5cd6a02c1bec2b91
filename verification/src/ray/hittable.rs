//! Spheres, the list of them, and the choice of the nearest intersection.
//!
//! Intersecting a ray with a sphere is solving a quadratic: that is arithmetic, and the
//! caller's. What is decided here is which of the roots counts, which sphere of a scene
//! is struck first, and which way the normal at the point of impact is turned.

use crate::material::Material;
use crate::scalar::Scalar;
use crate::vector::Vec3;
use vstd::prelude::*;

verus! {

/// What the quadratic of one sphere and one ray came to.
#[derive(Clone, Copy, Debug)]
pub struct Roots {
    /// `half_b^2 - a*c`.
    pub discriminant: Scalar,
    /// `(-half_b - sqrt(discriminant)) / a`, where the ray enters.
    pub near: Scalar,
    /// `(-half_b + sqrt(discriminant)) / a`, where it leaves.
    pub far: Scalar,
}

/// An intersection: where on the ray, where in space, and what was struck.
#[derive(Clone, Copy, Debug)]
pub struct HitRecord {
    pub t: Scalar,
    pub p: Vec3,
    /// The surface normal, turned against the incoming ray.
    pub normal: Vec3,
    /// Whether the ray struck the surface from outside.
    pub front_face: bool,
    pub mat_ptr: Material,
}

/// A sphere and its surface.
#[derive(Clone, Copy, Debug)]
pub struct Sphere {
    pub center: Vec3,
    pub radius: Scalar,
    pub mat_ptr: Material,
}

/// The spheres of a scene, in the order in which they were added.
#[derive(Debug)]
pub struct HittableList {
    objects: Vec<Sphere>,
}

/// Which sphere of a list a ray strikes first, and where on the ray.
#[derive(Clone, Copy, Debug)]
pub struct Nearest {
    pub index: usize,
    pub t: Scalar,
}

/// `t` lies in the open interval from `t_min` to `t_max`. A NaN lies in no interval.
pub open spec fn strictly_between(t: Scalar, t_min: Scalar, t_max: Scalar) -> bool {
    t_min.lt(t) && t.lt(t_max)
}

impl Roots {
    /// `r` is one of the two roots, the quadratic has real roots, and `r` lies in the
    /// open interval.
    pub open spec fn has_root_within(self, r: Scalar, t_min: Scalar, t_max: Scalar) -> bool {
        &&& !self.discriminant.lt(Scalar::zero())
        &&& r == self.near || r == self.far
        &&& strictly_between(r, t_min, t_max)
    }

    /// The roots are in their natural order: the far one is not before the near one.
    pub open spec fn ordered(self) -> bool {
        !self.far.lt(self.near)
    }

    /// The root that counts: none where the discriminant is negative; else the near
    /// root where it lies in the open interval; else the far root where that does; else
    /// none.
    pub open spec fn spec_first_within(self, t_min: Scalar, t_max: Scalar) -> Option<Scalar> {
        if self.discriminant.lt(Scalar::zero()) {
            None
        } else if strictly_between(self.near, t_min, t_max) {
            Some(self.near)
        } else if strictly_between(self.far, t_min, t_max) {
            Some(self.far)
        } else {
            None
        }
    }

    /// The root that counts, as [`Self::spec_first_within`] defines it.
    #[verifier::when_used_as_spec(spec_first_within)]
    pub fn first_within(self, t_min: Scalar, t_max: Scalar) -> (t: Option<Scalar>)
        ensures
            t == self.spec_first_within(t_min, t_max),
    {
        if self.discriminant.lt(Scalar::zero()) {
            None
        } else if t_min.lt(self.near) && self.near.lt(t_max) {
            Some(self.near)
        } else if t_min.lt(self.far) && self.far.lt(t_max) {
            Some(self.far)
        } else {
            None
        }
    }

    /// The root that counts lies strictly inside the interval, so never at the lower
    /// bound itself; there is one exactly when some root lies inside; and where the
    /// roots are in their natural order it is the smaller of those that do.
    pub proof fn lemma_first_within_is_smallest(self, t_min: Scalar, t_max: Scalar)
        ensures
            self.first_within(t_min, t_max) matches Some(t) ==> self.has_root_within(t, t_min, t_max),
            self.first_within(t_min, t_max) is None ==> forall|r: Scalar|
                !self.has_root_within(r, t_min, t_max),
            self.ordered() ==> forall|r: Scalar|
                self.has_root_within(r, t_min, t_max) ==> self.first_within(t_min, t_max).unwrap().le(r),
    {
    }
}

impl HitRecord {
    /// The dot product of the ray's direction with the normal as it is stored, given the
    /// one with the outward normal: turning a vector round turns the sign of its dot
    /// products, and nothing else.
    pub open spec fn stored_facing(facing: Scalar) -> Scalar {
        if facing.lt(Scalar::zero()) {
            facing
        } else {
            facing.neg()
        }
    }

    /// Builds the record of an intersection. `facing` is the dot product of the ray's
    /// direction with `outward_normal`; it decides the orientation as
    /// [`Self::set_face_normal`] tells.
    pub fn new(t: Scalar, p: Vec3, outward_normal: Vec3, facing: Scalar, mat_ptr: Material) -> (hr: Self)
        ensures
            hr.t == t,
            hr.p == p,
            hr.mat_ptr == mat_ptr,
            hr.front_face == facing.lt(Scalar::zero()),
            hr.normal == if hr.front_face { outward_normal } else { outward_normal.neg() },
    {
        let zero = Vec3::new(Scalar::zero(), Scalar::zero(), Scalar::zero());
        let mut hr = Self { t, p, normal: zero, front_face: false, mat_ptr };
        hr.set_face_normal(facing, outward_normal);
        hr
    }

    /// Turns the normal against the ray. The ray struck the front where its direction
    /// and the outward normal point apart (`facing` below zero): the outward normal is
    /// kept. Otherwise it struck from inside and the normal is reversed.
    pub fn set_face_normal(&mut self, facing: Scalar, outward_normal: Vec3)
        ensures
            final(self).front_face == facing.lt(Scalar::zero()),
            final(self).normal == if final(self).front_face { outward_normal } else { outward_normal.neg() },
            final(self).t == old(self).t,
            final(self).p == old(self).p,
            final(self).mat_ptr == old(self).mat_ptr,
    {
        self.front_face = facing.lt(Scalar::zero());
        self.normal = if self.front_face {
            outward_normal
        } else {
            outward_normal.neg()
        };
    }

    /// The stored normal never points along the ray: the dot product of the two is not
    /// above zero, and it is below zero for every ray that is not tangent to the surface.
    pub proof fn lemma_normal_opposes_ray(facing: Scalar)
        ensures
            !Self::stored_facing(facing).gt(Scalar::zero()),
            !facing.is_nan() && !facing.is_zero() ==> Self::stored_facing(facing).lt(Scalar::zero()),
    {
    }
}

impl Sphere {
    /// The sphere with the given centre, radius and surface.
    pub fn new(center: Vec3, radius: Scalar, mat_ptr: Material) -> (s: Self)
        ensures
            s.center == center,
            s.radius == radius,
            s.mat_ptr == mat_ptr,
    {
        Self { center, radius, mat_ptr }
    }

    /// Where a ray strikes this sphere, if it does within the open interval from `t_min`
    /// to `t_max`: at the smaller root that lies there. `roots` is the quadratic of this
    /// sphere and the ray.
    pub fn hit(&self, roots: Roots, t_min: Scalar, t_max: Scalar) -> (t: Option<Scalar>)
        ensures
            t == roots.first_within(t_min, t_max),
    {
        roots.first_within(t_min, t_max)
    }

    /// The record of a ray striking this sphere at `t`: it carries the sphere's
    /// material. `p` is the point at `t`, `outward_normal` the unit vector from the
    /// centre to `p`, `facing` the dot product of the ray's direction with it.
    pub fn record(&self, t: Scalar, p: Vec3, outward_normal: Vec3, facing: Scalar) -> (hr: HitRecord)
        ensures
            hr.t == t,
            hr.p == p,
            hr.mat_ptr == self.mat_ptr,
            hr.front_face == facing.lt(Scalar::zero()),
            hr.normal == if hr.front_face { outward_normal } else { outward_normal.neg() },
    {
        HitRecord::new(t, p, outward_normal, facing, self.mat_ptr)
    }
}

impl View for HittableList {
    type V = Seq<Sphere>;

    closed spec fn view(&self) -> Seq<Sphere> {
        self.objects@
    }
}

impl HittableList {
    /// The list that holds one sphere.
    pub fn new(object: Sphere) -> (lst: Self)
        ensures
            lst@ == seq![object],
    {
        let mut lst = Self::default();
        lst.add(object);
        lst
    }

    /// Puts a sphere at the end of the list.
    pub fn add(&mut self, object: Sphere)
        ensures
            final(self)@ == old(self)@.push(object),
    {
        self.objects.push(object);
    }

    /// Empties the list.
    pub fn clear(&mut self)
        ensures
            final(self)@.len() == 0,
    {
        self.objects.clear();
    }

    /// The number of spheres.
    pub fn len(&self) -> (n: usize)
        ensures
            n == self@.len(),
    {
        self.objects.len()
    }

    /// The sphere at a place of the list, if there is one.
    pub fn get(&self, index: usize) -> (s: Option<&Sphere>)
        ensures
            index < self@.len() ==> s == Some(&self@[index as int]),
            index >= self@.len() ==> s is None,
    {
        if index < self.objects.len() {
            Some(&self.objects[index])
        } else {
            None
        }
    }

    /// The nearest intersection of a ray with a row of spheres, found as the scan finds
    /// it: child by child, each against an interval whose upper end is the nearest
    /// intersection so far.
    pub open spec fn closest(roots: Seq<Roots>, t_min: Scalar, t_max: Scalar) -> Option<Nearest>
        decreases roots.len(),
    {
        if roots.len() == 0 {
            None
        } else {
            let before = Self::closest(roots.drop_last(), t_min, t_max);
            let bound = match before {
                Some(nearest) => nearest.t,
                None => t_max,
            };
            match roots.last().first_within(t_min, bound) {
                Some(t) => Some(Nearest { index: (roots.len() - 1) as usize, t }),
                None => before,
            }
        }
    }

    /// Which sphere a ray strikes first within the open interval from `t_min` to
    /// `t_max`, and where. `roots[i]` is the quadratic of the ray and the sphere at `i`.
    pub fn hit(&self, roots: &Vec<Roots>, t_min: Scalar, t_max: Scalar) -> (nearest: Option<Nearest>)
        requires
            roots.len() == self@.len(),
        ensures
            nearest == Self::closest(roots@, t_min, t_max),
    {
        let mut nearest: Option<Nearest> = None;
        let mut closest_so_far = t_max;
        let mut i: usize = 0;
        while i < roots.len()
            invariant
                i <= roots.len(),
                nearest == Self::closest(roots@.take(i as int), t_min, t_max),
                closest_so_far == match nearest {
                    Some(n) => n.t,
                    None => t_max,
                },
            decreases roots.len() - i,
        {
            proof {
                assert(roots@.take(i + 1).drop_last() == roots@.take(i as int));
            }
            if let Some(t) = roots[i].first_within(t_min, closest_so_far) {
                closest_so_far = t;
                nearest = Some(Nearest { index: i, t });
            }
            i += 1;
        }
        proof {
            assert(roots@.take(i as int) == roots@);
        }
        nearest
    }

    /// What the scan finds is an intersection: a root of the sphere it names, inside the
    /// interval. It finds none only where no sphere has a root inside the interval.
    pub proof fn lemma_closest_is_a_hit(roots: Seq<Roots>, t_min: Scalar, t_max: Scalar)
        requires
            roots.len() <= usize::MAX,
        ensures
            Self::closest(roots, t_min, t_max) matches Some(n) ==> n.index < roots.len()
                && roots[n.index as int].has_root_within(n.t, t_min, t_max),
            Self::closest(roots, t_min, t_max) is None ==> forall|j: int, r: Scalar|
                0 <= j < roots.len() ==> !#[trigger] roots[j].has_root_within(r, t_min, t_max),
        decreases roots.len(),
    {
        if roots.len() > 0 {
            let front = roots.drop_last();
            Self::lemma_closest_is_a_hit(front, t_min, t_max);
            let before = Self::closest(front, t_min, t_max);
            match before {
                None => {
                    roots.last().lemma_first_within_is_smallest(t_min, t_max);
                    assert forall|j: int, r: Scalar|
                        Self::closest(roots, t_min, t_max) is None && 0 <= j < roots.len()
                        implies !#[trigger] roots[j].has_root_within(r, t_min, t_max) by {
                        if j < roots.len() - 1 {
                            assert(roots[j] == front[j]);
                        }
                    }
                },
                Some(n) => {
                    roots.last().lemma_first_within_is_smallest(t_min, n.t);
                    assert(roots[n.index as int] == front[n.index as int]);
                },
            }
        }
    }

    /// What the scan finds is the nearest intersection: where every sphere's roots are in
    /// their natural order, no sphere has a root inside the interval that comes before it.
    pub proof fn lemma_closest_is_nearest(roots: Seq<Roots>, t_min: Scalar, t_max: Scalar)
        requires
            roots.len() <= usize::MAX,
            forall|j: int| 0 <= j < roots.len() ==> #[trigger] roots[j].ordered(),
        ensures
            Self::closest(roots, t_min, t_max) matches Some(n) ==> forall|j: int, r: Scalar|
                0 <= j < roots.len() && #[trigger] roots[j].has_root_within(r, t_min, t_max)
                    ==> n.t.le(r),
        decreases roots.len(),
    {
        if roots.len() > 0 {
            let front = roots.drop_last();
            assert forall|j: int| 0 <= j < front.len() implies #[trigger] front[j].ordered() by {
                assert(front[j] == roots[j]);
            }
            Self::lemma_closest_is_nearest(front, t_min, t_max);
            Self::lemma_closest_is_a_hit(front, t_min, t_max);
            let before = Self::closest(front, t_min, t_max);
            let bound = match before {
                Some(nearest) => nearest.t,
                None => t_max,
            };
            let last = roots.last();
            last.lemma_first_within_is_smallest(t_min, bound);
            if let Some(n) = Self::closest(roots, t_min, t_max) {
                assert forall|j: int, r: Scalar|
                    0 <= j < roots.len() && #[trigger] roots[j].has_root_within(r, t_min, t_max)
                    implies n.t.le(r) by {
                    if j < roots.len() - 1 {
                        assert(roots[j] == front[j]);
                        assert(front[j].has_root_within(r, t_min, t_max));
                        assert(before is Some);
                        assert(before.unwrap().t.le(r));
                    } else {
                        assert(roots[j] == last);
                        if r.lt(bound) {
                            assert(last.has_root_within(r, t_min, bound));
                        }
                    }
                }
            }
        }
    }
}

impl Default for HittableList {
    /// The empty scene.
    fn default() -> (lst: Self)
        ensures
            lst@.len() == 0,
    {
        Self { objects: Vec::new() }
    }
}

} // verus!

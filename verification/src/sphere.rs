//! Spheres, and the choice between the two places where a ray crosses one.
//!
//! The intersection test leaves its arithmetic to two functions of the
//! caller, held in a [`Geometry`]: one solves the quadratic for the places
//! where the line of the ray crosses the sphere, the other gives the surface
//! at the place that was chosen. The choice between the places, and the
//! record of the hit, are made here.
use vstd::prelude::*;
use crate::material::Material;
use crate::ray::{Intersection, Ray};
use crate::scalar::Scalar;
use crate::vec3::Vec3;

verus! {

/// A sphere with its material. A negative radius turns the surface inside
/// out.
#[derive(Clone, Copy, Debug)]
pub struct Sphere {
    pub center: Vec3,
    pub radius: Scalar,
    pub material: Material,
}

/// The two places where the line of a ray crosses a sphere, as the solutions
/// of the quadratic `a*t*t + 2*half_b*t + c = 0`: the discriminant
/// `half_b*half_b - a*c`, the smaller solution `near` and the larger one
/// `far`. Where the discriminant is negative the other two mean nothing.
#[derive(Clone, Copy, Debug)]
pub struct Roots {
    pub discriminant: Scalar,
    pub near: Scalar,
    pub far: Scalar,
}

/// `t` lies in the window from `t_min` to `t_max`, both ends included: it is
/// neither below `t_min` nor above `t_max`. A `t` that is no number passes,
/// as it is neither.
pub open spec fn in_window(t: Scalar, t_min: Scalar, t_max: Scalar) -> bool {
    !t.less(t_min) && !t_max.less(t)
}

impl Roots {
    /// The parameter at which the ray hits: none where the discriminant is
    /// negative; else the smaller solution where it lies in the window; else
    /// the larger one where that lies in the window; else none.
    pub open spec fn chosen(self, t_min: Scalar, t_max: Scalar) -> Option<Scalar> {
        if self.discriminant.less(Scalar { bits: 0 }) {
            None
        } else if in_window(self.near, t_min, t_max) {
            Some(self.near)
        } else if in_window(self.far, t_min, t_max) {
            Some(self.far)
        } else {
            None
        }
    }

    /// The solutions as computed from the ray and the sphere.
    pub fn new(discriminant: Scalar, near: Scalar, far: Scalar) -> (r: Roots)
        ensures
            r == (Roots { discriminant, near, far }),
    {
        Roots { discriminant, near, far }
    }

    /// Chooses the parameter at which the ray hits the sphere within the
    /// window from `t_min` to `t_max`, the nearer crossing first.
    pub fn select(&self, t_min: Scalar, t_max: Scalar) -> (root: Option<Scalar>)
        ensures
            root == self.chosen(t_min, t_max),
    {
        if self.discriminant.lt(Scalar::zero()) {
            return None;
        }
        let mut root = self.near;
        if root.lt(t_min) || t_max.lt(root) {
            root = self.far;
            if root.lt(t_min) || t_max.lt(root) {
                return None;
            }
        }
        Some(root)
    }
}

/// The surface of a sphere where a ray crosses it.
#[derive(Clone, Copy, Debug)]
pub struct Surface {
    /// The point where the ray crosses.
    pub point: Vec3,
    /// The normal at that point, away from the centre: the point minus the
    /// centre, divided by the radius.
    pub outward_normal: Vec3,
    /// The dot product of the outward normal and the direction of the ray.
    pub facing: Scalar,
}

/// The arithmetic of the intersection test.
pub struct Geometry<Q, P> {
    /// Solves the quadratic of a sphere and a ray: `roots(sphere, ray)`.
    pub roots: Q,
    /// The surface of a sphere where a ray crosses it at a parameter:
    /// `surface(sphere, ray, t)`.
    pub surface: P,
}

impl Sphere {
    /// The record of a hit of this sphere at the parameter `t`: the point of
    /// the surface, the normal turned against the ray, the face, and the
    /// material of this sphere.
    pub open spec fn record<'a>(&'a self, t: Scalar, surface: Surface) -> Intersection<'a> {
        let front_face = surface.facing.less(Scalar { bits: 0 });
        Intersection {
            point: surface.point,
            normal: if front_face {
                surface.outward_normal
            } else {
                surface.outward_normal.negated()
            },
            t,
            front_face,
            material: &self.material,
        }
    }

    /// `found` is what the test of the ray `r` against this sphere may
    /// return in the window from `t_min` to `t_max`, when the quadratic was
    /// solved as `solved`: nothing where no parameter is chosen, else the
    /// record of the hit at the chosen parameter, on a surface that the
    /// geometry gives for that parameter.
    pub open spec fn answers<'a, Q: Fn(&Sphere, &Ray) -> Roots, P: Fn(&Sphere, &Ray, Scalar) -> Surface>(
        &'a self,
        geometry: Geometry<Q, P>,
        r: Ray,
        solved: Roots,
        t_min: Scalar,
        t_max: Scalar,
        found: Option<Intersection<'a>>,
    ) -> bool {
        &&& call_ensures(geometry.roots, (self, &r), solved)
        &&& match solved.chosen(t_min, t_max) {
            None => found is None,
            Some(t) => exists|s: Surface| #[trigger]
                call_ensures(geometry.surface, (self, &r, t), s) && found == Some(
                    self.record(t, s),
                ),
        }
    }

    /// The sphere round `center`.
    pub fn new(center: Vec3, radius: Scalar, material: Material) -> (s: Sphere)
        ensures
            s == (Sphere { center, radius, material }),
    {
        Sphere { center, radius, material }
    }

    /// Tests the ray `r` against this sphere in the window from `t_min` to
    /// `t_max`. The quadratic is solved once; the surface is asked for once,
    /// at the parameter that was chosen, or not at all where the ray misses.
    pub fn hit<'a, Q: Fn(&Sphere, &Ray) -> Roots, P: Fn(&Sphere, &Ray, Scalar) -> Surface>(
        &'a self,
        r: &Ray,
        t_min: Scalar,
        t_max: Scalar,
        geometry: &Geometry<Q, P>,
    ) -> (found: Option<Intersection<'a>>)
        requires
            call_requires(geometry.roots, (self, r)),
            forall|t: Scalar| call_requires(geometry.surface, (self, r, t)),
        ensures
            exists|solved: Roots| #[trigger]
                self.answers(*geometry, *r, solved, t_min, t_max, found),
    {
        let solved = (geometry.roots)(self, r);
        let root = match solved.select(t_min, t_max) {
            Some(root) => root,
            None => {
                proof {
                    assert(self.answers(*geometry, *r, solved, t_min, t_max, None));
                }
                return None;
            },
        };
        let at = (geometry.surface)(self, r, root);
        let mut intersection = Intersection::new(
            at.point,
            at.outward_normal,
            root,
            &self.material,
        );
        intersection.set_face_normal(at.facing, at.outward_normal);
        proof {
            assert(self.answers(*geometry, *r, solved, t_min, t_max, Some(intersection)));
        }
        Some(intersection)
    }
}

/// A parameter that was chosen is one of the two solutions, the
/// discriminant is not negative, and the parameter is neither below the
/// window nor above it.
pub proof fn lemma_chosen_lies_in_window(roots: Roots, t_min: Scalar, t_max: Scalar)
    ensures
        roots.chosen(t_min, t_max) matches Some(t) ==> {
            &&& t == roots.near || t == roots.far
            &&& !roots.discriminant.less(Scalar { bits: 0 })
            &&& in_window(t, t_min, t_max)
        },
{
}

} // verus!

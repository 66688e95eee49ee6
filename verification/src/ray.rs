//! Rays and the record of where one meets a surface.
use vstd::prelude::*;
use crate::material::Material;
use crate::scalar::Scalar;
use crate::vec3::Vec3;
use core::ops::Neg;

verus! {

/// A ray: the points `origin + t * direction`. The direction need not have
/// length one, so `t` counts in lengths of `direction`.
#[derive(Clone, Copy, Debug)]
pub struct Ray {
    pub origin: Vec3,
    pub direction: Vec3,
}

impl Ray {
    /// The ray from `origin` along `direction`.
    pub fn new(origin: Vec3, direction: Vec3) -> (r: Ray)
        ensures
            r == (Ray { origin, direction }),
    {
        Ray { origin, direction }
    }
}

/// Where a ray meets a surface. The normal points against the ray;
/// `front_face` tells whether the ray came from outside. The material is that
/// of the surface that was hit, borrowed from the scene.
#[derive(Clone, Copy, Debug)]
pub struct Intersection<'a> {
    pub point: Vec3,
    pub normal: Vec3,
    pub t: Scalar,
    pub front_face: bool,
    pub material: &'a Material,
}

impl<'a> Intersection<'a> {
    /// The record of a hit at `point`, at the parameter `t` of the ray, with
    /// the normal as given and the face not yet decided.
    pub fn new(point: Vec3, normal: Vec3, t: Scalar, material: &'a Material) -> (i: Intersection<
        'a,
    >)
        ensures
            i == (Intersection { point, normal, t, front_face: false, material }),
    {
        Intersection { point, normal, t, front_face: false, material }
    }

    /// Turns the normal against the ray. `facing` is the dot product of
    /// `outward_normal` and the direction of the ray: where it is below
    /// zero the ray comes from outside, the normal is the outward one and the
    /// face is the front; otherwise, also where `facing` is no number, the
    /// normal is the outward one with every sign flipped and the face is the
    /// back.
    pub fn set_face_normal(&mut self, facing: Scalar, outward_normal: Vec3)
        ensures
            final(self).front_face == facing.less(Scalar { bits: 0 }),
            final(self).normal == if facing.less(Scalar { bits: 0 }) {
                outward_normal
            } else {
                outward_normal.negated()
            },
            final(self).point == old(self).point,
            final(self).t == old(self).t,
            final(self).material == old(self).material,
    {
        if facing.lt(Scalar::zero()) {
            self.normal = outward_normal;
            self.front_face = true;
        } else {
            self.normal = outward_normal.neg();
            self.front_face = false;
        }
    }
}

} // verus!

//! The three ways in which a surface scatters light.
//!
//! Each law is split in two. The directions and numbers that it needs are
//! computed by the caller: they take vector arithmetic and random draws. What
//! the law decides from them is decided here: whether the ray is scattered or
//! absorbed, with which attenuation, and along which of the directions.
use vstd::prelude::*;
use crate::ray::{Intersection, Ray};
use crate::scalar::Scalar;
use crate::vec3::{black, Vec3};

verus! {

/// Which scattering law a material follows.
#[derive(Clone, Copy, Debug, PartialEq, Eq, Structural)]
pub enum MaterialType {
    Diffuse,
    Metal,
    Dielectric,
}

/// A surface material. Which of the fields count depends on the law: a
/// diffuse surface has an albedo, a metal an albedo and a roughness, a
/// dielectric a refractive index.
#[derive(Clone, Copy, Debug)]
pub struct Material {
    pub albedo: Vec3,
    pub roughness: Scalar,
    pub ir: Scalar,
    pub material_type: MaterialType,
}

/// What the metal law needs of the caller.
#[derive(Clone, Copy, Debug)]
pub struct MetalSample {
    /// The mirrored direction of the incoming ray, blurred by the roughness
    /// of the metal times a random point of the unit ball.
    pub direction: Vec3,
    /// The dot product of `direction` and the normal of the surface.
    pub facing: Scalar,
}

/// What the dielectric law needs of the caller.
#[derive(Clone, Copy, Debug)]
pub struct DielectricSample {
    /// The ratio of the refractive indices times the sine of the angle of
    /// incidence.
    pub bend: Scalar,
    /// The share of the light that is mirrored at this angle.
    pub reflectance: Scalar,
    /// The mirrored direction.
    pub reflected: Vec3,
    /// The refracted direction.
    pub refracted: Vec3,
}

/// The arithmetic and the chance of the three laws.
pub struct Sampling<D, M, G, R> {
    /// The target of the diffuse law: `diffuse(ray, intersection)` gives the
    /// normal of the surface plus a random unit vector.
    pub diffuse: D,
    /// The sample of the metal law: `metal(ray, intersection)`.
    pub metal: M,
    /// The sample of the dielectric law: `dielectric(ray, intersection)`.
    pub dielectric: G,
    /// A random number, uniform from zero up to one: `draw()`.
    pub draw: R,
}

/// White: the attenuation of a medium without colour.
pub open spec fn white() -> Vec3 {
    Vec3 {
        x: Scalar { bits: 0x3F80_0000 },
        y: Scalar { bits: 0x3F80_0000 },
        z: Scalar { bits: 0x3F80_0000 },
    }
}

impl DielectricSample {
    /// The bend is above one: no refracted ray exists, and all light is
    /// mirrored.
    pub open spec fn total_reflection(self) -> bool {
        (Scalar { bits: 0x3F80_0000 }).less(self.bend)
    }

    /// `reflects` is a choice between mirroring and refracting that the law
    /// allows. Under total reflection the ray is mirrored and `draw` is not
    /// asked. Otherwise `draw` is asked for one random number, and the ray is
    /// mirrored where the reflectance is above that number.
    pub open spec fn chooses<R: Fn() -> Scalar>(self, draw: R, reflects: bool) -> bool {
        if self.total_reflection() {
            reflects
        } else {
            exists|drawn: Scalar| #[trigger]
                call_ensures(draw, (), drawn) && reflects == drawn.less(self.reflectance)
        }
    }
}

impl Material {
    /// The outcome of the diffuse law: always scattered, attenuated by the
    /// albedo, from the point of the hit along `target`, or along the normal
    /// where `target` is close to zero.
    pub open spec fn lambertian(self, h: Intersection, target: Vec3) -> (bool, Vec3, Ray) {
        (
            true,
            self.albedo,
            Ray { origin: h.point, direction: if target.is_near_zero() {
                h.normal
            } else {
                target
            } },
        )
    }

    /// The outcome of the metal law: scattered where the blurred direction
    /// points away from the surface, absorbed otherwise; attenuated by the
    /// albedo; from the point of the hit along the blurred direction.
    pub open spec fn metal(self, h: Intersection, sample: MetalSample) -> (bool, Vec3, Ray) {
        (
            (Scalar { bits: 0 }).less(sample.facing),
            self.albedo,
            Ray { origin: h.point, direction: sample.direction },
        )
    }

    /// The outcome of the dielectric law: always scattered, not attenuated,
    /// from the point of the hit along the mirrored direction where
    /// `reflects` holds, else along the refracted one.
    pub open spec fn dielectric(self, h: Intersection, sample: DielectricSample, reflects: bool) -> (
        bool,
        Vec3,
        Ray,
    ) {
        (
            true,
            white(),
            Ray { origin: h.point, direction: if reflects {
                sample.reflected
            } else {
                sample.refracted
            } },
        )
    }

    /// The material with the given fields.
    pub fn new(albedo: Vec3, roughness: Scalar, ir: Scalar, material_type: MaterialType) -> (m:
        Material)
        ensures
            m == (Material { albedo, roughness, ir, material_type }),
    {
        Material { albedo, roughness, ir, material_type }
    }

    /// The ratio of refractive indices that a ray meets: `inverse`, which is
    /// one over the index of the material, where the ray enters from outside;
    /// the index itself where it leaves.
    pub fn refraction_ratio(&self, front_face: bool, inverse: Scalar) -> (ratio: Scalar)
        ensures
            ratio == if front_face {
                inverse
            } else {
                self.ir
            },
    {
        if front_face {
            inverse
        } else {
            self.ir
        }
    }

    /// The diffuse law. `target` is the normal of the surface plus a random
    /// unit vector.
    pub fn lambertian_scatter(&self, intersection: &Intersection, target: Vec3) -> (outcome: (
        bool,
        Vec3,
        Ray,
    ))
        ensures
            outcome == self.lambertian(*intersection, target),
            outcome.0,
            outcome.1 == self.albedo,
    {
        let mut scatter_direction = target;
        if scatter_direction.near_zero() {
            scatter_direction = intersection.normal;
        }
        let scattered = Ray::new(intersection.point, scatter_direction);
        (true, self.albedo, scattered)
    }

    /// The metal law.
    pub fn metal_scatter(&self, intersection: &Intersection, sample: MetalSample) -> (outcome: (
        bool,
        Vec3,
        Ray,
    ))
        ensures
            outcome == self.metal(*intersection, sample),
    {
        let scattered = Ray::new(intersection.point, sample.direction);
        let attenuation = self.albedo;
        if sample.facing.gt(Scalar::zero()) {
            (true, attenuation, scattered)
        } else {
            (false, attenuation, scattered)
        }
    }

    /// The dielectric law. `draw` gives a random number, uniform from zero
    /// up to one; it is asked at most once, and not at all under total
    /// reflection.
    pub fn dielectric_scatter<R: Fn() -> Scalar>(
        &self,
        intersection: &Intersection,
        sample: DielectricSample,
        draw: &R,
    ) -> (outcome: (bool, Vec3, Ray))
        requires
            call_requires(*draw, ()),
        ensures
            exists|reflects: bool| #[trigger]
                sample.chooses(*draw, reflects) && outcome == self.dielectric(
                    *intersection,
                    sample,
                    reflects,
                ),
            outcome.0,
            outcome.1 == white(),
            outcome.2.origin == intersection.point,
            sample.total_reflection() ==> outcome.2.direction == sample.reflected,
    {
        let attenuation = Vec3::new(Scalar::one(), Scalar::one(), Scalar::one());
        let mut total_reflection = false;
        if sample.bend.gt(Scalar::one()) {
            total_reflection = true;
        }
        let reflects = total_reflection || sample.reflectance.gt(draw());
        let direction = if reflects {
            sample.reflected
        } else {
            sample.refracted
        };
        let scattered = Ray::new(intersection.point, direction);
        proof {
            assert(sample.chooses(*draw, reflects));
        }
        (true, attenuation, scattered)
    }

    /// Scatters the ray `r_in` at `intersection` by the law of this
    /// material. Only the functions of that law are called: `diffuse` for the
    /// diffuse law, `metal` for the metal law, `dielectric` and, unless all
    /// light is mirrored, `draw` for the dielectric law.
    pub fn scatter<
        D: Fn(&Ray, &Intersection) -> Vec3,
        M: Fn(&Ray, &Intersection) -> MetalSample,
        G: Fn(&Ray, &Intersection) -> DielectricSample,
        R: Fn() -> Scalar,
    >(&self, r_in: &Ray, intersection: &Intersection, sampling: &Sampling<D, M, G, R>) -> (outcome: (
        bool,
        Vec3,
        Ray,
    ))
        requires
            call_requires(sampling.diffuse, (r_in, intersection)),
            call_requires(sampling.metal, (r_in, intersection)),
            call_requires(sampling.dielectric, (r_in, intersection)),
            call_requires(sampling.draw, ()),
        ensures
            match self.material_type {
                MaterialType::Diffuse => exists|target: Vec3| #[trigger]
                    call_ensures(sampling.diffuse, (r_in, intersection), target) && outcome
                        == self.lambertian(*intersection, target),
                MaterialType::Metal => exists|sample: MetalSample| #[trigger]
                    call_ensures(sampling.metal, (r_in, intersection), sample) && outcome
                        == self.metal(*intersection, sample),
                MaterialType::Dielectric => exists|sample: DielectricSample, reflects: bool|
                    call_ensures(sampling.dielectric, (r_in, intersection), sample)
                        && #[trigger] sample.chooses(sampling.draw, reflects) && outcome
                        == self.dielectric(*intersection, sample, reflects),
            },
            self.material_type == MaterialType::Diffuse ==> outcome.0 && outcome.1 == self.albedo,
            self.material_type == MaterialType::Metal ==> outcome.1 == self.albedo,
            self.material_type == MaterialType::Dielectric ==> outcome.0 && outcome.1 == white(),
            outcome.2.origin == intersection.point,
    {
        match self.material_type {
            MaterialType::Diffuse => {
                let target = (sampling.diffuse)(r_in, intersection);
                self.lambertian_scatter(intersection, target)
            },
            MaterialType::Metal => {
                let sample = (sampling.metal)(r_in, intersection);
                self.metal_scatter(intersection, sample)
            },
            MaterialType::Dielectric => {
                let sample = (sampling.dielectric)(r_in, intersection);
                self.dielectric_scatter(intersection, sample, &sampling.draw)
            },
        }
    }
}

impl Default for Material {
    /// A diffuse material with a black albedo.
    fn default() -> (m: Material)
        ensures
            m.albedo == black(),
            m.roughness.bits == 0,
            m.ir.bits == 0,
            m.material_type == MaterialType::Diffuse,
    {
        Material {
            albedo: Vec3::zero(),
            roughness: Scalar::zero(),
            ir: Scalar::zero(),
            material_type: MaterialType::Diffuse,
        }
    }
}

} // verus!

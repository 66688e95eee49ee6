//! Vector value types.
use vstd::prelude::*;
use crate::scalar::Scalar;

verus! {

/// The bound below which a component counts as zero: 0.0001.
pub const NEAR_ZERO_BITS: u32 = 0x38D1_B717;

/// A vector of three single-precision components: a point, a direction or a
/// colour. It is a plain value; every operation gives a new one.
#[derive(Clone, Copy, Debug)]
pub struct Vec3 {
    pub x: Scalar,
    pub y: Scalar,
    pub z: Scalar,
}

/// Black: three positive zeros. It is the colour of a path that gathers no
/// light, and the colour to which samples are added.
pub open spec fn black() -> Vec3 {
    Vec3 { x: Scalar { bits: 0 }, y: Scalar { bits: 0 }, z: Scalar { bits: 0 } }
}

impl Vec3 {
    /// The vector with every sign flipped.
    pub open spec fn negated(self) -> Vec3 {
        Vec3 { x: self.x.negated(), y: self.y.negated(), z: self.z.negated() }
    }

    /// Every component has a magnitude below 0.0001.
    pub open spec fn is_near_zero(self) -> bool {
        let s = Scalar { bits: NEAR_ZERO_BITS };
        self.x.absolute().less(s) && self.y.absolute().less(s) && self.z.absolute().less(s)
    }

    /// The vector with the given components.
    pub fn new(x: Scalar, y: Scalar, z: Scalar) -> (v: Vec3)
        ensures
            v == (Vec3 { x, y, z }),
    {
        Vec3 { x, y, z }
    }

    /// The vector of three positive zeros.
    pub fn zero() -> (v: Vec3)
        ensures
            v == black(),
    {
        Vec3 { x: Scalar::zero(), y: Scalar::zero(), z: Scalar::zero() }
    }

    /// Whether the vector is close to zero in every dimension.
    pub fn near_zero(&self) -> (r: bool)
        ensures
            r == self.is_near_zero(),
    {
        let s = Scalar::from_bits(NEAR_ZERO_BITS);
        self.x.abs().lt(s) && self.y.abs().lt(s) && self.z.abs().lt(s)
    }
}

impl Default for Vec3 {
    fn default() -> (v: Vec3)
        ensures
            v == black(),
    {
        Vec3::zero()
    }
}

impl core::ops::Neg for Vec3 {
    type Output = Vec3;

    fn neg(self) -> (v: Vec3) {
        Vec3 { x: self.x.neg(), y: self.y.neg(), z: self.z.neg() }
    }
}

impl vstd::std_specs::ops::NegSpecImpl for Vec3 {
    open spec fn obeys_neg_spec() -> bool {
        true
    }

    open spec fn neg_req(self) -> bool {
        true
    }

    open spec fn neg_spec(self) -> Vec3 {
        self.negated()
    }
}

/// A finished pixel: red, green and blue in `x`, `y` and `z`, each scaled to
/// the range of an 8-bit channel.
#[derive(Clone, Copy, Debug, PartialEq, Eq, Structural)]
pub struct IVec3 {
    pub x: i32,
    pub y: i32,
    pub z: i32,
}

} // verus!

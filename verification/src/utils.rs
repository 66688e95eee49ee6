//! Small helpers on numbers.
use vstd::prelude::*;
use crate::scalar::Scalar;

verus! {

/// `x` held between `min` and `max`: `min` where `x` is below it, `max` where
/// `x` is above it, else `x` itself. An `x` that is no number is neither
/// below nor above, and stays.
pub open spec fn clamped(x: Scalar, min: Scalar, max: Scalar) -> Scalar {
    if x.less(min) {
        min
    } else if max.less(x) {
        max
    } else {
        x
    }
}

/// Holds `x` between `min` and `max`.
pub fn clamp(x: Scalar, min: Scalar, max: Scalar) -> (r: Scalar)
    ensures
        r == clamped(x, min, max),
{
    if x.lt(min) {
        min
    } else if x.gt(max) {
        max
    } else {
        x
    }
}

/// Between bounds that are in order, a number is clamped to a number that is
/// neither below the lower bound nor above the upper one, and a number that
/// lies between the bounds already is left as it is.
pub proof fn lemma_clamped_lies_between(x: Scalar, min: Scalar, max: Scalar)
    requires
        !x.nan(),
        !min.nan(),
        !max.nan(),
        !max.less(min),
    ensures
        !clamped(x, min, max).nan(),
        !clamped(x, min, max).less(min),
        !max.less(clamped(x, min, max)),
        !x.less(min) && !max.less(x) ==> clamped(x, min, max) == x,
{
}

} // verus!

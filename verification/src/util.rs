//! Small decisions on scalars.

use crate::scalar::Scalar;
use vstd::prelude::*;

verus! {

/// `x` brought into the range from `min` to `max`: `min` where `x` is
/// below it, `max` where `x` is above it, and `x` itself otherwise, which
/// includes a NaN.
pub open spec fn clamp_spec(x: Scalar, min: Scalar, max: Scalar) -> Scalar {
    if x.lt_spec(min) {
        min
    } else if x.gt_spec(max) {
        max
    } else {
        x
    }
}

pub fn clamp(x: Scalar, min: Scalar, max: Scalar) -> (r: Scalar)
    ensures
        r == clamp_spec(x, min, max),
        !x.is_nan_spec() && !min.gt_spec(max) ==> !r.lt_spec(min) && !r.gt_spec(max),
{
    if x.lt(min) {
        min
    } else if x.gt(max) {
        max
    } else {
        x
    }
}

/// Whether the rejection sampler keeps a point whose squared length is
/// `length_squared`: it draws again exactly while that is above 1.0.
pub fn in_unit_sphere(length_squared: Scalar) -> (kept: bool)
    ensures
        kept == !length_squared.gt_spec(Scalar::one_spec()),
{
    !length_squared.gt(Scalar::one())
}

} // verus!

//! Points, directions and colours: three scalars each.

use crate::scalar::Scalar;
use vstd::prelude::*;

verus! {

/// Three scalars. The tracer carries vectors through unchanged; their
/// arithmetic belongs to whoever computes with floating point.
#[derive(Clone, Copy, Debug)]
pub struct Vector3 {
    pub x: Scalar,
    pub y: Scalar,
    pub z: Scalar,
}

impl Vector3 {
    pub fn new(x: Scalar, y: Scalar, z: Scalar) -> (v: Vector3)
        ensures
            v == (Vector3 { x, y, z }),
    {
        Vector3 { x, y, z }
    }

    /// The vector whose components are all 0.0: the origin, and the colour black.
    pub open spec fn zero_spec() -> Vector3 {
        Vector3 { x: Scalar::zero_spec(), y: Scalar::zero_spec(), z: Scalar::zero_spec() }
    }

    /// The vector whose components are all 1.0: the colour white.
    pub open spec fn one_spec() -> Vector3 {
        Vector3 { x: Scalar::one_spec(), y: Scalar::one_spec(), z: Scalar::one_spec() }
    }

    /// Whether a vector of this length can be scaled to unit length: the
    /// length is a number above zero. Dividing by the length of a zero
    /// vector is an error of the caller, not a result.
    pub fn can_normalize(length: Scalar) -> (ok: bool)
        ensures
            ok == length.gt_spec(Scalar::zero_spec()),
    {
        length.gt(Scalar::zero())
    }

    pub fn zero() -> (v: Vector3)
        ensures
            v == Vector3::zero_spec(),
    {
        Vector3 { x: Scalar::zero(), y: Scalar::zero(), z: Scalar::zero() }
    }

    pub fn one() -> (v: Vector3)
        ensures
            v == Vector3::one_spec(),
    {
        Vector3 { x: Scalar::one(), y: Scalar::one(), z: Scalar::one() }
    }
}

} // verus!

//! Rays, and what a ray reports when it meets a surface.

use crate::materials::Material;
use crate::scalar::Scalar;
use crate::vecmath::Vector3;
use std::rc::Rc;
use vstd::prelude::*;

verus! {

/// A half-line: the points `origin + direction * t`.
#[derive(Clone, Copy, Debug)]
pub struct Ray {
    pub origin: Vector3,
    pub direction: Vector3,
}

impl Ray {
    pub fn new(origin: Vector3, direction: Vector3) -> (ray: Ray)
        ensures
            ray == (Ray { origin, direction }),
    {
        Ray { origin, direction }
    }
}

/// Where a ray meets a surface: the ray parameter, the point, and the
/// outward unit normal there.
#[derive(Clone, Copy, Debug)]
pub struct HitGeometry {
    pub t: Scalar,
    pub point: Vector3,
    pub normal: Vector3,
}

/// A hit together with the material of the surface that was hit. The
/// material is shared by every hit on that surface.
pub struct HitResult<M: Material> {
    pub geometry: HitGeometry,
    pub material: Rc<M>,
}

/// Another handle on a shared value. This is `Rc::clone`, which Verus does
/// not read: the contract claims what its documentation says, that the new
/// handle points at the allocation that the old one points at.
#[verifier::external_body]
pub(crate) fn share<T>(handle: &Rc<T>) -> (other: Rc<T>)
    ensures
        other == *handle,
{
    Rc::clone(handle)
}

/// Something that a ray can hit.
pub trait Hittable {
    /// The materials that surfaces of this kind carry.
    type Surface: Material;

    /// The hit of `ray` on this object whose parameter lies strictly between
    /// `t_min` and `t_max`, if there is one. A hit that is reported always
    /// lies in that window; in particular its parameter is not NaN.
    fn hit(&self, ray: Ray, t_min: Scalar, t_max: Scalar) -> (r: Option<HitResult<Self::Surface>>)
        ensures
            r matches Some(h) ==> h.geometry.t.within(t_min, t_max),
    ;
}

impl<T: Hittable + ?Sized> Hittable for Box<T> {
    type Surface = T::Surface;

    fn hit(&self, ray: Ray, t_min: Scalar, t_max: Scalar) -> (r: Option<HitResult<T::Surface>>)
        ensures
            call_ensures(T::hit, (&**self, ray, t_min, t_max), r),
    {
        (**self).hit(ray, t_min, t_max)
    }
}

} // verus!

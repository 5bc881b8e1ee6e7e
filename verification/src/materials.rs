//! Surfaces: how a ray leaves the point where it hit.

use crate::rays::{HitGeometry, Ray};
use crate::scalar::Scalar;
use crate::vecmath::Vector3;
use vstd::prelude::*;

verus! {

/// What a surface makes of an incoming ray: the ray that leaves, and the
/// factor by which each colour channel of the light along it is multiplied.
#[derive(Clone, Copy, Debug)]
pub struct ScatterResult {
    pub attenuation: Vector3,
    pub scattered_ray: Ray,
}

/// A scattering policy. `None` means that the surface absorbs the ray.
/// Nothing is promised of the outcome: a surface may scatter at random.
pub trait Material {
    fn scatter(&self, input_ray: Ray, hit: &HitGeometry) -> Option<ScatterResult>;
}

impl<T: Material + ?Sized> Material for Box<T> {
    fn scatter(&self, input_ray: Ray, hit: &HitGeometry) -> (r: Option<ScatterResult>)
        ensures
            call_ensures(T::scatter, (&**self, input_ray, hit), r),
    {
        (**self).scatter(input_ray, hit)
    }
}

/// A diffuse surface. It scatters every ray, in a direction that its caller
/// draws around the normal, and tints the light by its albedo.
pub struct Lambertian {
    pub albedo: Vector3,
}

impl Lambertian {
    pub fn new(albedo: Vector3) -> (surface: Lambertian)
        ensures
            surface.albedo == albedo,
    {
        Lambertian { albedo }
    }

    /// Scatters from the hit point along `direction`. A diffuse surface
    /// never absorbs.
    pub fn scatter(&self, hit: &HitGeometry, direction: Vector3) -> (r: Option<ScatterResult>)
        ensures
            r == Some(
                ScatterResult {
                    attenuation: self.albedo,
                    scattered_ray: Ray { origin: hit.point, direction },
                },
            ),
    {
        Some(ScatterResult { attenuation: self.albedo, scattered_ray: Ray::new(hit.point, direction) })
    }
}

/// A fraction: a scalar from 0.0 to 1.0, both included.
pub open spec fn is_fraction(s: Scalar) -> bool {
    !s.is_nan_spec() && 0 <= s.rank() <= Scalar::one_spec().rank()
}

/// A mirror whose reflection is blurred by `fuzz`, a fraction.
pub struct Metal {
    albedo: Vector3,
    fuzz: Scalar,
}

impl Metal {
    #[verifier::type_invariant]
    spec fn fuzz_is_fraction(self) -> bool {
        is_fraction(self.fuzz)
    }

    pub closed spec fn albedo_spec(self) -> Vector3 {
        self.albedo
    }

    pub closed spec fn fuzz_spec(self) -> Scalar {
        self.fuzz
    }

    /// The fuzz that a surface gets when `fuzz` is asked for: `fuzz` itself
    /// if it is a fraction, 0.0 if it is below, and 1.0 if it is above or
    /// NaN.
    pub open spec fn clamp_fuzz(fuzz: Scalar) -> Scalar {
        if !fuzz.lt_spec(Scalar::one_spec()) {
            Scalar::one_spec()
        } else if fuzz.lt_spec(Scalar::zero_spec()) {
            Scalar::zero_spec()
        } else {
            fuzz
        }
    }

    /// A fuzz outside the fractions is not refused: it is brought to the
    /// nearer end.
    pub fn new(albedo: Vector3, fuzz: Scalar) -> (surface: Metal)
        ensures
            surface.albedo_spec() == albedo,
            surface.fuzz_spec() == Metal::clamp_fuzz(fuzz),
            is_fraction(surface.fuzz_spec()),
    {
        let fuzz = if !fuzz.lt(Scalar::one()) {
            Scalar::one()
        } else if fuzz.lt(Scalar::zero()) {
            Scalar::zero()
        } else {
            fuzz
        };
        Metal { albedo, fuzz }
    }

    pub fn albedo(&self) -> (albedo: Vector3)
        ensures
            albedo == self.albedo_spec(),
    {
        self.albedo
    }

    pub fn fuzz(&self) -> (fuzz: Scalar)
        ensures
            fuzz == self.fuzz_spec(),
            is_fraction(fuzz),
    {
        proof {
            use_type_invariant(self);
        }
        self.fuzz
    }

    /// Scatters from the hit point along `direction`, the blurred
    /// reflection, unless that direction points into the surface. `facing`
    /// is the component of `direction` along the normal: the surface
    /// scatters where it is above 0.0 and absorbs where it is not.
    pub fn scatter(&self, hit: &HitGeometry, direction: Vector3, facing: Scalar) -> (r: Option<ScatterResult>)
        ensures
            r == if facing.gt_spec(Scalar::zero_spec()) {
                Some(
                    ScatterResult {
                        attenuation: self.albedo_spec(),
                        scattered_ray: Ray { origin: hit.point, direction },
                    },
                )
            } else {
                None
            },
    {
        if facing.gt(Scalar::zero()) {
            Some(ScatterResult { attenuation: self.albedo, scattered_ray: Ray::new(hit.point, direction) })
        } else {
            None
        }
    }
}

} // verus!

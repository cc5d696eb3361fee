//! What each kind of surface does with a ray, once the vectors are known.
//!
//! Reflection, refraction and the sampling of directions are arithmetic
//! and come in from outside. What is decided here is which direction the
//! ray takes and what a scatter hands back.

use vstd::prelude::*;
use crate::ray::{HitRecord, Ray};
use crate::scalar::{Scalar, ONE_BITS, SIXTY_FOUR_BITS, ZERO_BITS};
use crate::vector::{Color, Vector3};

verus! {

/// What a surface makes of a ray: how much of the light that comes back
/// along the new ray is kept, channel by channel, and the new ray, or none
/// where the path ends at the surface.
#[derive(Clone, Copy, Debug, PartialEq, Eq, Structural)]
pub struct ScatterResult {
    pub attenuation: Color,
    pub new_ray: Option<Ray>,
}

/// The ray that leaves the hit point in `direction`, at the moment of the
/// incoming ray.
pub open spec fn leaving(incoming: Ray, hit: HitRecord, direction: Vector3) -> Ray {
    Ray { origin: hit.point, direction, time: incoming.time }
}

/// A diffuse surface.
#[derive(Clone, Copy, Debug, PartialEq, Eq, Structural)]
pub struct Lambertian;

/// A mirror, more or less blurred.
#[derive(Clone, Copy, Debug, PartialEq, Eq, Structural)]
pub struct Metal;

/// Glass: a surface that reflects or refracts.
#[derive(Clone, Copy, Debug, PartialEq, Eq, Structural)]
pub struct Dielectric {
    pub refraction_index: Scalar,
}

/// A surface that gives light and ends the path.
#[derive(Clone, Copy, Debug, PartialEq, Eq, Structural)]
pub struct Light;

impl Lambertian {
    /// The direction in which a diffuse surface scatters: the sum of the
    /// normal and a random unit vector, `candidate`, unless the two nearly
    /// cancel, in which case the normal itself.
    pub open spec fn direction(candidate: Vector3, normal: Vector3) -> Vector3 {
        if candidate.vanishing() {
            normal
        } else {
            candidate
        }
    }

    /// Scatters a ray off a diffuse surface. `candidate` is the sum of the
    /// hit's normal and a random unit vector, `albedo` the surface's
    /// texture at the hit.
    pub fn scatter(incoming: &Ray, hit: &HitRecord, candidate: Vector3, albedo: Color) -> (r:
        ScatterResult)
        ensures
            r.attenuation == albedo,
            r.new_ray == Some(
                leaving(*incoming, *hit, Lambertian::direction(candidate, hit.normal)),
            ),
    {
        let mut direction = candidate;
        if direction.near_zero() {
            direction = hit.normal;
        }
        ScatterResult {
            attenuation: albedo,
            new_ray: Some(Ray::new(hit.point, direction, incoming.time)),
        }
    }
}

impl Metal {
    /// Scatters a ray off a metal. `direction` is the mirror image of the
    /// incoming direction, moved by the fuzz times a random unit vector; it
    /// is taken as it comes, also where it points into the surface.
    /// `albedo` is the surface's texture at the hit.
    pub fn scatter(incoming: &Ray, hit: &HitRecord, direction: Vector3, albedo: Color) -> (r:
        ScatterResult)
        ensures
            r.attenuation == albedo,
            r.new_ray == Some(leaving(*incoming, *hit, direction)),
    {
        ScatterResult {
            attenuation: albedo,
            new_ray: Some(Ray::new(hit.point, direction, incoming.time)),
        }
    }
}

impl Dielectric {
    /// The ratio of refraction indices that a ray meets: `inverse`, which
    /// is one over the index, where the ray goes from the inside out, that
    /// is where it does not meet the front face, and the index itself
    /// where it meets the front.
    pub open spec fn ratio(self, front_face: bool, inverse: Scalar) -> Scalar {
        if front_face {
            self.refraction_index
        } else {
            inverse
        }
    }

    /// Whether the ray is reflected: refraction is impossible
    /// (`ratio_sine`, the ratio times the sine of the angle of incidence,
    /// is above one), or the reflectance is above the random `sample`.
    pub open spec fn reflects(ratio_sine: Scalar, reflectance: Scalar, sample: Scalar) -> bool {
        Scalar::of(ONE_BITS).less(ratio_sine) || sample.less(reflectance)
    }

    /// White: glass takes nothing away.
    pub open spec fn clear() -> Color {
        Color(
            Vector3 { x: Scalar::of(ONE_BITS), y: Scalar::of(ONE_BITS), z: Scalar::of(ONE_BITS) },
        )
    }

    pub fn new(refraction_index: Scalar) -> (r: Dielectric)
        ensures
            r.refraction_index == refraction_index,
    {
        Dielectric { refraction_index }
    }

    /// The ratio of refraction indices that a ray meets, see
    /// [`Dielectric::ratio`].
    pub fn refraction_ratio(&self, front_face: bool, inverse: Scalar) -> (r: Scalar)
        ensures
            r == self.ratio(front_face, inverse),
    {
        if front_face {
            self.refraction_index
        } else {
            inverse
        }
    }

    /// Scatters a ray at a glass surface: along `reflected` where
    /// [`Dielectric::reflects`] says so, else along `refracted`, and always
    /// with nothing taken away.
    pub fn scatter(
        incoming: &Ray,
        hit: &HitRecord,
        ratio_sine: Scalar,
        reflectance: Scalar,
        sample: Scalar,
        reflected: Vector3,
        refracted: Vector3,
    ) -> (r: ScatterResult)
        ensures
            r.attenuation == Dielectric::clear(),
            r.new_ray == Some(
                leaving(
                    *incoming,
                    *hit,
                    if Dielectric::reflects(ratio_sine, reflectance, sample) {
                        reflected
                    } else {
                        refracted
                    },
                ),
            ),
    {
        let cannot_refract = ratio_sine.gt(Scalar::one());
        let direction = if cannot_refract || reflectance.gt(sample) {
            reflected
        } else {
            refracted
        };
        ScatterResult {
            attenuation: Color::new(Scalar::one(), Scalar::one(), Scalar::one()),
            new_ray: Some(Ray::new(hit.point, direction, incoming.time)),
        }
    }
}

impl Light {
    /// How many times brighter than its texture a light shines: `64.0`.
    pub fn luminosity() -> (r: Scalar)
        ensures
            r == Scalar::of(SIXTY_FOUR_BITS),
    {
        Scalar::from_bits(SIXTY_FOUR_BITS)
    }

    /// A light sends no ray on. `albedo` is its texture at the hit.
    pub fn scatter(albedo: Color) -> (r: ScatterResult)
        ensures
            r.attenuation == albedo,
            r.new_ray is None,
    {
        ScatterResult { attenuation: albedo, new_ray: None }
    }
}

/// Glass that reflects nothing refracts: where refraction is possible and
/// the reflectance is not above zero, no sample from zero upwards makes
/// the ray reflect.
pub proof fn lemma_no_reflectance_refracts(ratio_sine: Scalar, reflectance: Scalar, sample: Scalar)
    requires
        ratio_sine.at_most(Scalar::of(ONE_BITS)),
        reflectance.at_most(Scalar::of(ZERO_BITS)),
        Scalar::of(ZERO_BITS).at_most(sample),
    ensures
        !Dielectric::reflects(ratio_sine, reflectance, sample),
{
}

} // verus!

//! Rays and the record of where one meets a surface.

use vstd::prelude::*;
use crate::scalar::{Scalar, ZERO_BITS};
use crate::vector::Vector3;

verus! {

/// A ray: where it starts, where it goes (any length), and the moment at
/// which it was fired, which moving objects are placed by.
#[derive(Clone, Copy, Debug, PartialEq, Eq, Structural)]
pub struct Ray {
    pub origin: Vector3,
    pub direction: Vector3,
    pub time: Scalar,
}

impl Ray {
    pub fn new(origin: Vector3, direction: Vector3, time: Scalar) -> (r: Ray)
        ensures
            r == (Ray { origin, direction, time }),
    {
        Ray { origin, direction, time }
    }
}

/// Where a ray met a surface.
///
/// `normal` always faces the ray; `front_face` tells whether that is the
/// surface's own outward normal or its reverse. `material` is the index of
/// the surface's material in the scene's list of materials.
#[derive(Clone, Copy, Debug, PartialEq, Eq, Structural)]
pub struct HitRecord {
    pub point: Vector3,
    pub normal: Vector3,
    pub material: usize,
    pub t: Scalar,
    pub front_face: bool,
    pub u: Scalar,
    pub v: Scalar,
}

impl HitRecord {
    /// The record of a hit at distance `t`, where `facing` is the dot
    /// product of the ray's direction and the surface's outward normal: the
    /// ray meets the front exactly when that is below zero, and otherwise
    /// the normal is reversed to face it.
    pub open spec fn oriented(
        facing: Scalar,
        point: Vector3,
        outward_normal: Vector3,
        t: Scalar,
        material: usize,
        u: Scalar,
        v: Scalar,
    ) -> HitRecord {
        let front_face = facing.less(Scalar::of(ZERO_BITS));
        HitRecord {
            point,
            normal: if front_face {
                outward_normal
            } else {
                outward_normal.negated()
            },
            material,
            t,
            front_face,
            u,
            v,
        }
    }

    /// Builds the record of a hit, see [`HitRecord::oriented`].
    pub fn new(
        facing: Scalar,
        point: Vector3,
        outward_normal: Vector3,
        t: Scalar,
        material: usize,
        u: Scalar,
        v: Scalar,
    ) -> (r: HitRecord)
        ensures
            r == HitRecord::oriented(facing, point, outward_normal, t, material, u, v),
    {
        let front_face = facing.lt(Scalar::zero());
        let normal = if front_face {
            outward_normal
        } else {
            outward_normal.neg()
        };
        HitRecord { point, normal, material, t, front_face, u, v }
    }
}

} // verus!

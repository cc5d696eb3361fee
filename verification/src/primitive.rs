//! What a sphere and a quad decide once the arithmetic of an intersection
//! is done.

use vstd::prelude::*;
use crate::interval::Interval;
use crate::scalar::{Scalar, ONE_BITS, TINY_BITS, ZERO_BITS};

verus! {

/// The outcome of solving `|O + tD - C|^2 = r^2` for a sphere.
///
/// `nearer` is `(-b - sqrt(disc)) / a` and `farther` is
/// `(-b + sqrt(disc)) / a`, with `b` half the linear coefficient.
#[derive(Clone, Copy, Debug, PartialEq, Eq, Structural)]
pub struct SphereRoots {
    pub discriminant: Scalar,
    pub nearer: Scalar,
    pub farther: Scalar,
}

impl SphereRoots {
    /// The distance at which the ray hits the sphere within `range`: none
    /// where the discriminant is below zero; else the nearer root if the
    /// range holds it, else the farther root if the range holds that.
    pub open spec fn chosen(self, range: Interval) -> Option<Scalar> {
        if self.discriminant.less(Scalar::of(ZERO_BITS)) {
            None
        } else if range.holds(self.nearer) {
            Some(self.nearer)
        } else if range.holds(self.farther) {
            Some(self.farther)
        } else {
            None
        }
    }

    /// The roots come in order, as they do for a direction of positive
    /// length; a root that is not a number is never chosen and does not
    /// count.
    pub open spec fn in_order(self) -> bool {
        self.nearer.nan() || self.farther.nan() || self.nearer.at_most(self.farther)
    }

    /// Selects the root at which the ray hits, see [`SphereRoots::chosen`].
    pub fn select(&self, range: &Interval) -> (r: Option<Scalar>)
        ensures
            r == self.chosen(*range),
            r matches Some(t) ==> range.holds(t),
    {
        if self.discriminant.lt(Scalar::zero()) {
            return None;
        }
        let mut root = self.nearer;
        if !range.contains(root) {
            root = self.farther;
            if !range.contains(root) {
                return None;
            }
        }
        Some(root)
    }
}

/// The outcome of intersecting a ray with the plane of a quad.
///
/// `denominator` is the dot product of the plane's normal and the ray's
/// direction, `t` the distance to the plane, and `alpha` and `beta` the
/// coordinates of the point in the plane along the quad's two edges.
#[derive(Clone, Copy, Debug, PartialEq, Eq, Structural)]
pub struct QuadCrossing {
    pub denominator: Scalar,
    pub t: Scalar,
    pub alpha: Scalar,
    pub beta: Scalar,
}

impl QuadCrossing {
    /// The ray runs so nearly along the plane that it counts as parallel:
    /// the denominator is closer to zero than `1e-8`.
    pub open spec fn parallel(self) -> bool {
        self.denominator.absolute().less(Scalar::of(TINY_BITS))
    }

    /// The point lies on the quad: both coordinates are in `0.0..1.0`.
    pub open spec fn inside(self) -> bool {
        let unit = Interval { start: Scalar::of(ZERO_BITS), end: Scalar::of(ONE_BITS) };
        unit.holds(self.alpha) && unit.holds(self.beta)
    }

    /// The distance at which the ray hits the quad within `range`: `t`,
    /// unless the ray is parallel, `t` is out of range or the point lies
    /// off the quad.
    pub open spec fn chosen(self, range: Interval) -> Option<Scalar> {
        if !self.parallel() && range.holds(self.t) && self.inside() {
            Some(self.t)
        } else {
            None
        }
    }

    /// Decides whether the ray hits the quad, see [`QuadCrossing::chosen`].
    pub fn select(&self, range: &Interval) -> (r: Option<Scalar>)
        ensures
            r == self.chosen(*range),
            r matches Some(t) ==> range.holds(t),
    {
        if self.denominator.abs().lt(Scalar::from_bits(TINY_BITS)) {
            return None;
        }
        if !range.contains(self.t) {
            return None;
        }
        let unit = Interval::new(Scalar::zero(), Scalar::one());
        if !unit.contains(self.alpha) || !unit.contains(self.beta) {
            return None;
        }
        Some(self.t)
    }
}

/// What the arithmetic of one ray gave for one object: the roots for a
/// sphere, the crossing for a quad.
pub enum Solved {
    Sphere(SphereRoots),
    Quad(QuadCrossing),
}

impl Solved {
    /// The distance at which the ray hits the object within `range`.
    pub open spec fn chosen(self, range: Interval) -> Option<Scalar> {
        match self {
            Solved::Sphere(roots) => roots.chosen(range),
            Solved::Quad(crossing) => crossing.chosen(range),
        }
    }

    /// The roots of a sphere come in order; of a quad nothing is asked.
    pub open spec fn in_order(self) -> bool {
        match self {
            Solved::Sphere(roots) => roots.in_order(),
            Solved::Quad(_) => true,
        }
    }
}

/// A sphere answers with its nearest root: in a window cut off lower, it
/// still gives the same distance if that is below the cut, and nothing
/// otherwise.
pub proof fn lemma_sphere_nearest_first(roots: SphereRoots, range: Interval, cut: Scalar)
    requires
        roots.in_order(),
        cut.at_most(range.end) || cut.nan(),
    ensures
        roots.chosen(range.until(cut)) == match roots.chosen(range) {
            Some(t) => if t.less(cut) {
                Some(t)
            } else {
                None
            },
            None => None,
        },
{
}

/// A quad has one distance to offer: in a window cut off lower, it still
/// gives it if it is below the cut, and nothing otherwise.
pub proof fn lemma_quad_nearest_first(crossing: QuadCrossing, range: Interval, cut: Scalar)
    requires
        cut.at_most(range.end) || cut.nan(),
    ensures
        crossing.chosen(range.until(cut)) == match crossing.chosen(range) {
            Some(t) => if t.less(cut) {
                Some(t)
            } else {
                None
            },
            None => None,
        },
{
}

} // verus!

//! Half-open ranges of numbers.

use vstd::prelude::*;
use crate::scalar::{Scalar, MAX_BITS, NEAR_BITS};

verus! {

/// The numbers from `start` up to, not including, `end`.
///
/// It serves as the extent of a box along one axis and as the window of
/// distances at which a hit counts. Nothing keeps `start` below `end`: an
/// interval with `end < start` holds no number and is how "nothing" is
/// written down.
#[derive(Clone, Copy, Debug, PartialEq, Eq, Structural)]
pub struct Interval {
    pub start: Scalar,
    pub end: Scalar,
}

impl Interval {
    /// `start <= t < end`, numerically.
    pub open spec fn holds(self, t: Scalar) -> bool {
        self.start.at_most(t) && t.less(self.end)
    }

    /// `end < start`, numerically: the interval has been squeezed shut.
    pub open spec fn inverted(self) -> bool {
        self.end.less(self.start)
    }

    /// The smallest interval that reaches over both.
    pub open spec fn hull(a: Interval, b: Interval) -> Interval {
        Interval { start: a.start.min_of(b.start), end: a.end.max_of(b.end) }
    }

    /// The same interval, cut off at `end`.
    pub open spec fn until(self, end: Scalar) -> Interval {
        Interval { start: self.start, end }
    }

    /// The window in which a ray from the camera or from a bounce may hit:
    /// from `0.001`, so that it does not hit the surface it leaves, to the
    /// largest finite number.
    pub open spec fn visible() -> Interval {
        Interval { start: Scalar { bits: NEAR_BITS }, end: Scalar { bits: MAX_BITS } }
    }

    pub fn new(start: Scalar, end: Scalar) -> (r: Interval)
        ensures
            r == (Interval { start, end }),
    {
        Interval { start, end }
    }

    /// Whether `t` lies in the interval.
    pub fn contains(&self, t: Scalar) -> (r: bool)
        ensures
            r == self.holds(t),
    {
        self.start.le(t) && t.lt(self.end)
    }

    /// Whether the interval has been squeezed shut.
    pub fn is_inverted(&self) -> (r: bool)
        ensures
            r == self.inverted(),
    {
        self.end.lt(self.start)
    }

    /// The smallest interval that reaches over both.
    pub fn from_intervals(a: &Interval, b: &Interval) -> (r: Interval)
        ensures
            r == Interval::hull(*a, *b),
    {
        Interval { start: a.start.min(b.start), end: a.end.max(b.end) }
    }

    /// The same interval, cut off at `end`.
    pub fn with_end(&self, end: Scalar) -> (r: Interval)
        ensures
            r == self.until(end),
    {
        Interval { start: self.start, end }
    }

    /// The window in which a ray may hit, see [`Interval::visible`].
    pub fn ray_window() -> (r: Interval)
        ensures
            r == Interval::visible(),
    {
        Interval { start: Scalar { bits: NEAR_BITS }, end: Scalar { bits: MAX_BITS } }
    }
}

/// The hull does not depend on the order of its arguments and may be
/// regrouped.
pub proof fn lemma_hull_commutative_associative(a: Interval, b: Interval, c: Interval)
    ensures
        Interval::hull(a, b) == Interval::hull(b, a),
        Interval::hull(Interval::hull(a, b), c) == Interval::hull(a, Interval::hull(b, c)),
        Interval::hull(a, a) == a,
{
    crate::scalar::lemma_min_max_lattice(a.start, b.start, c.start);
    crate::scalar::lemma_min_max_lattice(a.end, b.end, c.end);
}

} // verus!

//! Axis-aligned bounding boxes and the slab test.

use vstd::prelude::*;
use crate::interval::Interval;
use crate::scalar::{Scalar, INFINITY_BITS, MAX_BITS, MIN_BITS, THIN_BITS, ZERO_BITS};
use crate::vector::Vector3;

verus! {

/// Where a ray crosses the two planes that bound a box along one axis.
///
/// For a box extent `start..end`, a ray origin `o` and a direction `d` on
/// that axis, the caller computes `inverse_direction = 1 / d`,
/// `at_start = (start - o) * inverse_direction` and
/// `at_end = (end - o) * inverse_direction`.
#[derive(Clone, Copy, Debug, PartialEq, Eq, Structural)]
pub struct Crossing {
    pub inverse_direction: Scalar,
    pub at_start: Scalar,
    pub at_end: Scalar,
}

/// Whether `product` has the sign that the product of `x` and `y` has: it
/// is a number, and negative exactly where one of the two is negative and
/// the other is not. Zeros and infinities carry signs like any number.
pub open spec fn signed_as_product(product: Scalar, x: Scalar, y: Scalar) -> bool {
    !product.nan() && (product.negative() <==> (x.negative() != y.negative()))
}

impl Crossing {
    /// The ray runs against the axis, so it meets the `end` plane first.
    pub open spec fn backwards(self) -> bool {
        self.inverse_direction.less(Scalar { bits: ZERO_BITS })
    }

    /// The distance at which the ray enters the slab.
    pub open spec fn entry(self) -> Scalar {
        if self.backwards() {
            self.at_end
        } else {
            self.at_start
        }
    }

    /// The distance at which the ray leaves the slab.
    pub open spec fn exit(self) -> Scalar {
        if self.backwards() {
            self.at_start
        } else {
            self.at_end
        }
    }

    /// The part of `range` that lies inside the slab: the start moves up to
    /// the entry where that is later, the end moves down to the exit where
    /// that is earlier.
    pub open spec fn clip(self, range: Interval) -> Interval {
        Interval {
            start: if range.start.less(self.entry()) {
                self.entry()
            } else {
                range.start
            },
            end: if self.exit().less(range.end) {
                self.exit()
            } else {
                range.end
            },
        }
    }

    /// The distance `t` lies inside the slab, bounds included.
    pub open spec fn straddles(self, t: Scalar) -> bool {
        self.entry().at_most(t) && t.at_most(self.exit())
    }
}

/// Whether a ray passes through all the slabs somewhere within `range`:
/// the range is clipped slab by slab, in order, and the ray is turned away
/// at the first slab that squeezes it shut.
pub open spec fn slabs_admit(crossings: Seq<Crossing>, range: Interval) -> bool
    decreases crossings.len(),
{
    if crossings.len() == 0 {
        true
    } else {
        let clipped = crossings[0].clip(range);
        !clipped.inverted() && slabs_admit(crossings.drop_first(), clipped)
    }
}

/// An axis-aligned box: one interval per axis.
#[derive(Clone, Copy, Debug, PartialEq, Eq, Structural)]
pub struct Aabb {
    pub x: Interval,
    pub y: Interval,
    pub z: Interval,
}

impl Aabb {
    /// The box that holds nothing: on every axis it runs from the largest
    /// finite number down to the most negative one.
    pub open spec fn nothing() -> Aabb {
        let shut = Interval { start: Scalar { bits: MAX_BITS }, end: Scalar { bits: MIN_BITS } };
        Aabb { x: shut, y: shut, z: shut }
    }

    /// The smallest box with the corners `a` and `b`.
    pub open spec fn spanning(a: Vector3, b: Vector3) -> Aabb {
        Aabb {
            x: Interval { start: a.x.min_of(b.x), end: a.x.max_of(b.x) },
            y: Interval { start: a.y.min_of(b.y), end: a.y.max_of(b.y) },
            z: Interval { start: a.z.min_of(b.z), end: a.z.max_of(b.z) },
        }
    }

    /// The smallest box around both boxes.
    pub open spec fn union(a: Aabb, b: Aabb) -> Aabb {
        Aabb {
            x: Interval::hull(a.x, b.x),
            y: Interval::hull(a.y, b.y),
            z: Interval::hull(a.z, b.z),
        }
    }

    /// The extent on axis `a`: 1 is y, 2 is z, anything else is x.
    pub open spec fn extent(self, a: int) -> Interval {
        if a == 1 {
            self.y
        } else if a == 2 {
            self.z
        } else {
            self.x
        }
    }

    /// The point lies in the box or on one of its faces: on every axis its
    /// coordinate is at least the lower and at most the upper bound.
    pub open spec fn reaches(self, p: Vector3) -> bool {
        forall|a: int|
            0 <= a < 3 ==> (#[trigger] self.extent(a)).start.at_most(p.component(a))
                && p.component(a).at_most(self.extent(a).end)
    }

    /// Every lower bound is a number below positive infinity and every upper
    /// bound a number above negative infinity. These are the boxes that a
    /// union with [`Aabb::nothing`] leaves as they are.
    pub open spec fn bounded(self) -> bool {
        forall|a: int|
            0 <= a < 3 ==> {
                let e = #[trigger] self.extent(a);
                &&& !e.start.nan()
                &&& !e.end.nan()
                &&& e.start.bits != INFINITY_BITS
                &&& e.end.bits != INFINITY_BITS + 0x8000_0000
            }
    }

    /// The box in which every axis whose measured thickness is below
    /// `0.0001` has been replaced by that axis of `widened`.
    pub open spec fn padded(self, thickness: Vector3, widened: Aabb) -> Aabb {
        let thin = Scalar::of(THIN_BITS);
        Aabb {
            x: if thickness.x.less(thin) {
                widened.x
            } else {
                self.x
            },
            y: if thickness.y.less(thin) {
                widened.y
            } else {
                self.y
            },
            z: if thickness.z.less(thin) {
                widened.z
            } else {
                self.z
            },
        }
    }

    /// The box that holds nothing, see [`Aabb::nothing`].
    pub fn empty() -> (r: Aabb)
        ensures
            r == Aabb::nothing(),
    {
        let shut = Interval { start: Scalar { bits: MAX_BITS }, end: Scalar { bits: MIN_BITS } };
        Aabb { x: shut, y: shut, z: shut }
    }

    pub fn new(x: Interval, y: Interval, z: Interval) -> (r: Aabb)
        ensures
            r == (Aabb { x, y, z }),
    {
        Aabb { x, y, z }
    }

    /// The smallest box with the corners `a` and `b`.
    pub fn from_points(a: Vector3, b: Vector3) -> (r: Aabb)
        ensures
            r == Aabb::spanning(a, b),
    {
        Aabb {
            x: Interval { start: a.x.min(b.x), end: a.x.max(b.x) },
            y: Interval { start: a.y.min(b.y), end: a.y.max(b.y) },
            z: Interval { start: a.z.min(b.z), end: a.z.max(b.z) },
        }
    }

    /// The smallest box around the four corners of a quad: `origin`, the
    /// ends of the two edges that start there, and the corner across.
    pub fn from_quad(origin: Vector3, end_u: Vector3, end_v: Vector3, across: Vector3) -> (r: Aabb)
        ensures
            r == Aabb::union(Aabb::spanning(origin, across), Aabb::spanning(end_u, end_v)),
    {
        let one = Aabb::from_points(origin, across);
        let other = Aabb::from_points(end_u, end_v);
        Aabb::from_boxes(&one, &other)
    }

    /// The smallest box around both boxes.
    pub fn from_boxes(a: &Aabb, b: &Aabb) -> (r: Aabb)
        ensures
            r == Aabb::union(*a, *b),
    {
        Aabb {
            x: Interval::from_intervals(&a.x, &b.x),
            y: Interval::from_intervals(&a.y, &b.y),
            z: Interval::from_intervals(&a.z, &b.z),
        }
    }

    /// The extent on axis `a`: 1 is y, 2 is z, anything else is x.
    pub fn axis(&self, a: usize) -> (r: &Interval)
        ensures
            *r == self.extent(a as int),
    {
        match a {
            1 => &self.y,
            2 => &self.z,
            _ => &self.x,
        }
    }

    /// The slab test: whether a ray with the given crossings, one per axis
    /// of some box, passes through that box within `range`.
    pub fn hit(crossings: &[Crossing; 3], range: &Interval) -> (r: bool)
        ensures
            r == slabs_admit(crossings@, *range),
    {
        let mut window = *range;
        let zero = Scalar { bits: ZERO_BITS };
        let mut a: usize = 0;
        assert(crossings@.subrange(0, 3) == crossings@);
        while a < 3
            invariant
                a <= 3,
                zero.bits == ZERO_BITS,
                slabs_admit(crossings@, *range) == slabs_admit(crossings@.subrange(a as int, 3), window),
            decreases 3 - a,
        {
            let crossing = crossings[a];
            let mut t0 = crossing.at_start;
            let mut t1 = crossing.at_end;
            if crossing.inverse_direction.lt(zero) {
                t0 = crossing.at_end;
                t1 = crossing.at_start;
            }
            let ghost before = window;
            if t0.gt(window.start) {
                window.start = t0;
            }
            if t1.lt(window.end) {
                window.end = t1;
            }
            proof {
                let rest = crossings@.subrange(a as int, 3);
                assert(rest[0] == crossing);
                assert(rest.drop_first() == crossings@.subrange(a as int + 1, 3));
                assert(window == crossing.clip(before));
            }
            if window.end.lt(window.start) {
                return false;
            }
            a = a + 1;
        }
        true
    }

    /// Widens the axes on which the box is too thin for the slab test, as
    /// the box of a flat shape is on one axis. The caller measures the box
    /// (`thickness`, end minus start per axis) and supplies the widened
    /// extents; an axis is replaced where its thickness is below `0.0001`.
    pub fn pad(&self, thickness: &Vector3, widened: &Aabb) -> (r: Aabb)
        ensures
            r == self.padded(*thickness, *widened),
    {
        let thin = Scalar::from_bits(THIN_BITS);
        Aabb {
            x: if thickness.x.lt(thin) {
                widened.x
            } else {
                self.x
            },
            y: if thickness.y.lt(thin) {
                widened.y
            } else {
                self.y
            },
            z: if thickness.z.lt(thin) {
                widened.z
            } else {
                self.z
            },
        }
    }
}

/// The union of boxes does not depend on the order of the boxes.
pub proof fn lemma_union_commutative(a: Aabb, b: Aabb)
    ensures
        Aabb::union(a, b) == Aabb::union(b, a),
{
    crate::interval::lemma_hull_commutative_associative(a.x, b.x, a.x);
    crate::interval::lemma_hull_commutative_associative(a.y, b.y, a.y);
    crate::interval::lemma_hull_commutative_associative(a.z, b.z, a.z);
}

/// The union of three boxes does not depend on how they are grouped.
pub proof fn lemma_union_associative(a: Aabb, b: Aabb, c: Aabb)
    ensures
        Aabb::union(Aabb::union(a, b), c) == Aabb::union(a, Aabb::union(b, c)),
{
    crate::interval::lemma_hull_commutative_associative(a.x, b.x, c.x);
    crate::interval::lemma_hull_commutative_associative(a.y, b.y, c.y);
    crate::interval::lemma_hull_commutative_associative(a.z, b.z, c.z);
}

/// The box that holds nothing is neutral: the union with it is the other
/// box, exactly for the boxes that are [`Aabb::bounded`].
pub proof fn lemma_union_with_nothing(a: Aabb)
    ensures
        a.bounded() <==> Aabb::union(a, Aabb::nothing()) == a,
        a.bounded() <==> Aabb::union(Aabb::nothing(), a) == a,
{
    lemma_union_commutative(a, Aabb::nothing());
    assert(a.extent(0) == a.x);
    assert(a.extent(1) == a.y);
    assert(a.extent(2) == a.z);
}

/// The hull of the range between two numbers and the range between two
/// others reaches all four.
proof fn lemma_hull_reaches_four(a: Scalar, b: Scalar, c: Scalar, d: Scalar)
    requires
        !a.nan(),
        !b.nan(),
        !c.nan(),
        !d.nan(),
    ensures
        ({
            let h = Interval::hull(
                Interval { start: a.min_of(b), end: a.max_of(b) },
                Interval { start: c.min_of(d), end: c.max_of(d) },
            );
            &&& h.start.at_most(a) && a.at_most(h.end)
            &&& h.start.at_most(b) && b.at_most(h.end)
            &&& h.start.at_most(c) && c.at_most(h.end)
            &&& h.start.at_most(d) && d.at_most(h.end)
        }),
{
    crate::scalar::lemma_min_max_bound(a, b);
    crate::scalar::lemma_min_max_bound(c, d);
    crate::scalar::lemma_min_max_bound(a.min_of(b), c.min_of(d));
    crate::scalar::lemma_min_max_bound(a.max_of(b), c.max_of(d));
}

/// The box of a quad reaches all four of its corners, as long as their
/// coordinates are numbers.
pub proof fn lemma_quad_box_reaches_corners(
    origin: Vector3,
    end_u: Vector3,
    end_v: Vector3,
    across: Vector3,
)
    requires
        forall|a: int|
            0 <= a < 3 ==> !(#[trigger] origin.component(a)).nan() && !end_u.component(a).nan()
                && !end_v.component(a).nan() && !across.component(a).nan(),
    ensures
        ({
            let b = Aabb::union(Aabb::spanning(origin, across), Aabb::spanning(end_u, end_v));
            b.reaches(origin) && b.reaches(end_u) && b.reaches(end_v) && b.reaches(across)
        }),
{
    let b = Aabb::union(Aabb::spanning(origin, across), Aabb::spanning(end_u, end_v));
    assert(!origin.component(0).nan() && !origin.component(1).nan() && !origin.component(2).nan());
    lemma_hull_reaches_four(origin.x, across.x, end_u.x, end_v.x);
    lemma_hull_reaches_four(origin.y, across.y, end_u.y, end_v.y);
    lemma_hull_reaches_four(origin.z, across.z, end_u.z, end_v.z);
}

/// One clipping step keeps a distance in the window that lies in the slab
/// and in the window before it, ends included.
pub proof fn lemma_clip_keeps(c: Crossing, range: Interval, t: Scalar)
    requires
        range.start.at_most(t),
        t.at_most(range.end),
        c.straddles(t),
    ensures
        c.clip(range).start.at_most(t),
        t.at_most(c.clip(range).end),
        !c.clip(range).inverted(),
{
}

/// The slab test lets a ray through whenever some distance within the
/// window, ends included, lies inside every slab.
pub proof fn lemma_slabs_admit_witness(crossings: Seq<Crossing>, range: Interval, t: Scalar)
    requires
        range.start.at_most(t),
        t.at_most(range.end),
        forall|i: int| 0 <= i < crossings.len() ==> (#[trigger] crossings[i]).straddles(t),
    ensures
        slabs_admit(crossings, range),
    decreases crossings.len(),
{
    if crossings.len() > 0 {
        lemma_clip_keeps(crossings[0], range, t);
        let rest = crossings.drop_first();
        assert forall|i: int| 0 <= i < rest.len() implies (#[trigger] rest[i]).straddles(t) by {
            assert(rest[i] == crossings[i + 1]);
        }
        lemma_slabs_admit_witness(rest, crossings[0].clip(range), t);
    }
}

/// A ray that starts between the two planes of a slab is in the slab at
/// distance zero. `below` is the lower plane minus the origin, which is
/// negative, and `above` the upper plane minus the origin, which is not;
/// the inverse direction is any number but zero, infinite for a ray along
/// the planes. All that is asked of the two crossings is that they carry
/// the signs of the products they are.
pub proof fn lemma_inside_straddles(c: Crossing, below: Scalar, above: Scalar)
    requires
        below.negative(),
        !above.negative(),
        !c.inverse_direction.nan(),
        !c.inverse_direction.same_number(Scalar::of(ZERO_BITS)),
        signed_as_product(c.at_start, below, c.inverse_direction),
        signed_as_product(c.at_end, above, c.inverse_direction),
    ensures
        c.straddles(Scalar::of(ZERO_BITS)),
{
}

/// A ray that starts inside a box is let through, in whatever direction it
/// goes: with the origin between the planes of every slab, as in
/// [`lemma_inside_straddles`], the test passes for any window that starts
/// at zero and does not end before it.
pub proof fn lemma_inside_box_hits(
    crossings: Seq<Crossing>,
    below: Seq<Scalar>,
    above: Seq<Scalar>,
    range: Interval,
)
    requires
        below.len() == crossings.len(),
        above.len() == crossings.len(),
        range.start.same_number(Scalar::of(ZERO_BITS)),
        Scalar::of(ZERO_BITS).at_most(range.end),
        forall|i: int|
            0 <= i < crossings.len() ==> {
                let c = #[trigger] crossings[i];
                &&& below[i].negative()
                &&& !above[i].negative()
                &&& !c.inverse_direction.nan()
                &&& !c.inverse_direction.same_number(Scalar::of(ZERO_BITS))
                &&& signed_as_product(c.at_start, below[i], c.inverse_direction)
                &&& signed_as_product(c.at_end, above[i], c.inverse_direction)
            },
    ensures
        slabs_admit(crossings, range),
{
    assert forall|i: int| 0 <= i < crossings.len() implies (#[trigger] crossings[i]).straddles(
        Scalar::of(ZERO_BITS),
    ) by {
        lemma_inside_straddles(crossings[i], below[i], above[i]);
    }
    lemma_origin_inside_hits(crossings, range);
}

/// A ray that starts inside a box is let through: where every slab is
/// entered at or before distance zero and left at or after it, the test
/// passes for any window that starts at zero and does not end before it.
pub proof fn lemma_origin_inside_hits(crossings: Seq<Crossing>, range: Interval)
    requires
        range.start.same_number(Scalar::of(ZERO_BITS)),
        Scalar::of(ZERO_BITS).at_most(range.end),
        forall|i: int|
            0 <= i < crossings.len() ==> (#[trigger] crossings[i]).straddles(Scalar::of(ZERO_BITS)),
    ensures
        slabs_admit(crossings, range),
{
    lemma_slabs_admit_witness(crossings, range, Scalar::of(ZERO_BITS));
}

} // verus!

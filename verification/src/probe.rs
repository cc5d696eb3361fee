//! What one ray does to a scene, seen from the core.
//!
//! The arithmetic of intersecting a ray with a box or an object is not
//! done here: the searches take it as functions. Their contracts are
//! stated against a [`Probe`], the mathematical description of what those
//! functions answer.

use vstd::prelude::*;
use crate::aabb::{Aabb, Crossing, slabs_admit};
use crate::interval::Interval;
use crate::ray::HitRecord;
use crate::scalar::Scalar;

verus! {

/// The answers that one ray gives: for a box, where the ray crosses its
/// three slabs; for an object (by its number) and a window of distances,
/// the hit within that window, if there is one.
pub struct Probe {
    pub crossings: spec_fn(Aabb) -> Seq<Crossing>,
    pub hits: spec_fn(usize, Interval) -> Option<HitRecord>,
}

impl Probe {
    /// The ray gets through the box within the window.
    pub open spec fn admits(self, bbox: Aabb, range: Interval) -> bool {
        slabs_admit((self.crossings)(bbox), range)
    }

    /// The function `slabs` answers for boxes as this probe says.
    pub open spec fn describes_slabs<B: Fn(&Aabb) -> [Crossing; 3]>(self, slabs: B) -> bool {
        forall|bbox: &Aabb, out: [Crossing; 3]|
            call_ensures(slabs, (bbox,), out) ==> out@ == (self.crossings)(*bbox)
    }

    /// The function `objects` answers for objects as this probe says.
    pub open spec fn describes_objects<O: Fn(usize, &Interval) -> Option<HitRecord>>(
        self,
        objects: O,
    ) -> bool {
        forall|object: usize, range: &Interval, out: Option<HitRecord>|
            call_ensures(objects, (object, range), out) ==> out == (self.hits)(object, *range)
    }

    /// Every hit lies in the window that was asked for.
    pub open spec fn within_range(self) -> bool {
        forall|object: usize, range: Interval|
            (#[trigger] (self.hits)(object, range)) matches Some(hit) ==> range.holds(hit.t)
    }

    /// Every object answers with its nearest hit: asked again with the
    /// window cut off lower, it gives the same hit if that lies below the
    /// cut, and none otherwise.
    pub open spec fn nearest_first(self) -> bool {
        forall|object: usize, range: Interval, cut: Scalar|
            cut.at_most(range.end) ==> #[trigger] (self.hits)(object, range.until(cut)) == (match (
                self.hits
            )(object, range) {
                Some(hit) => if hit.t.less(cut) {
                    Some(hit)
                } else {
                    None
                },
                None => None,
            })
    }

    /// The box of an object is in the way of every ray that hits the
    /// object: where the object is hit within a window, the ray gets
    /// through its box within that window.
    pub open spec fn box_holds(self, object: usize, bbox: Aabb) -> bool {
        forall|range: Interval|
            (#[trigger] (self.hits)(object, range)) is Some ==> self.admits(bbox, range)
    }

    /// A ray that gets through a box gets through every box around it.
    pub open spec fn boxes_nest(self) -> bool {
        forall|a: Aabb, b: Aabb, range: Interval|
            #![trigger self.admits(Aabb::union(a, b), range)]
            self.admits(a, range) || self.admits(b, range) ==> self.admits(Aabb::union(a, b), range)
    }
}

/// The window that is left to search once `found` is known: up to the
/// distance of that hit, or all of it where nothing was found.
pub open spec fn narrowed(range: Interval, found: Option<HitRecord>) -> Interval {
    match found {
        Some(hit) => range.until(hit.t),
        None => range,
    }
}

/// The first hit unless the second exists.
pub open spec fn or_else(second: Option<HitRecord>, first: Option<HitRecord>) -> Option<
    HitRecord,
> {
    if second is Some {
        second
    } else {
        first
    }
}

} // verus!

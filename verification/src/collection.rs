//! The flat collection of a scene's objects, searched one by one.

use vstd::prelude::*;
use crate::aabb::Aabb;
use crate::bvh::{BVHNode, Item};
use crate::interval::Interval;
use crate::probe::Probe;
use crate::ray::HitRecord;

verus! {

/// Whether hit `a` is to be preferred to hit `b`: it is nearer, or `b` has
/// no distance to compare with. Among hits at one distance neither is
/// preferred, so the earlier one stays.
pub open spec fn closer(a: HitRecord, b: HitRecord) -> bool {
    a.t.less(b.t) || (!a.t.nan() && b.t.nan())
}

/// The better of the best hit so far and the next one.
pub open spec fn better(best: Option<HitRecord>, next: Option<HitRecord>) -> Option<HitRecord> {
    match (best, next) {
        (_, None) => best,
        (None, Some(_)) => next,
        (Some(b), Some(n)) => if closer(n, b) {
            next
        } else {
            best
        },
    }
}

/// What a scan of `items` finds for a ray within `range`: every object is
/// asked in the whole window, and the nearest answer is kept, the first
/// one among equals.
pub open spec fn scan(items: Seq<Item>, probe: Probe, range: Interval) -> Option<HitRecord>
    decreases items.len(),
{
    if items.len() == 0 {
        None
    } else {
        better(scan(items.drop_last(), probe, range), (probe.hits)(items.last().object, range))
    }
}

/// Whether `found` is what a scan of `items` can give for a ray within
/// `range`, with `objects` answering as it may: every object is asked in
/// the whole window, and the nearest answer is kept, the first one among
/// equals.
pub open spec fn scans<O: Fn(usize, &Interval) -> Option<HitRecord>>(
    items: Seq<Item>,
    objects: O,
    range: Interval,
    found: Option<HitRecord>,
) -> bool
    decreases items.len(),
{
    if items.len() == 0 {
        found is None
    } else {
        exists|before: Option<HitRecord>, next: Option<HitRecord>|
            #![trigger better(before, next)]
            scans(items.drop_last(), objects, range, before) && call_ensures(
                objects,
                (items.last().object, &range),
                next,
            ) && found == better(before, next)
    }
}

/// The union of the boxes of `items`, starting from the box that holds
/// nothing.
pub open spec fn union_all(items: Seq<Item>) -> Aabb
    decreases items.len(),
{
    if items.len() == 0 {
        Aabb::nothing()
    } else {
        Aabb::union(union_all(items.drop_last()), items.last().bbox)
    }
}

/// The objects of a scene in the order in which they were added, those
/// among them that give light, and the box around them all.
///
/// An object is known here by its number, which is its place in the list,
/// and by its box; the geometry stays with whoever does the arithmetic.
#[derive(Debug)]
pub struct ObjectCollection {
    objects: Vec<Item>,
    lights: Vec<usize>,
    bbox: Aabb,
}

impl ObjectCollection {
    /// The objects, in the order in which they were added.
    pub closed spec fn items(&self) -> Seq<Item> {
        self.objects@
    }

    /// The numbers of the objects that give light, in the order in which
    /// they were added.
    pub closed spec fn light_numbers(&self) -> Seq<usize> {
        self.lights@
    }

    /// The box around all the objects.
    pub closed spec fn bounds(&self) -> Aabb {
        self.bbox
    }

    /// Every object carries its place in the list as its number, every
    /// light is one of the objects, and the box is the union of all boxes.
    pub open spec fn well_formed(&self) -> bool {
        &&& forall|i: int| 0 <= i < self.items().len() ==> (#[trigger] self.items()[i]).object == i
        &&& forall|k: int|
            0 <= k < self.light_numbers().len() ==> (#[trigger] self.light_numbers()[k])
                < self.items().len()
        &&& self.bounds() == union_all(self.items())
    }

    /// A collection without objects.
    pub fn new() -> (r: ObjectCollection)
        ensures
            r.well_formed(),
            r.items() == Seq::<Item>::empty(),
            r.light_numbers() == Seq::<usize>::empty(),
            r.bounds() == Aabb::nothing(),
    {
        ObjectCollection { objects: Vec::new(), lights: Vec::new(), bbox: Aabb::empty() }
    }

    /// Adds an object with the box `bbox`. Its number is the number of
    /// objects that were there before.
    pub fn add(&mut self, bbox: Aabb)
        requires
            old(self).well_formed(),
        ensures
            final(self).well_formed(),
            final(self).items() == old(self).items().push(
                Item { object: old(self).items().len() as usize, bbox },
            ),
            final(self).light_numbers() == old(self).light_numbers(),
            final(self).bounds() == Aabb::union(old(self).bounds(), bbox),
    {
        let object = self.objects.len();
        self.bbox = Aabb::from_boxes(&self.bbox, &bbox);
        self.objects.push(Item { object, bbox });
        proof {
            assert(self.objects@.drop_last() == old(self).objects@);
            assert(self.objects@.last() == Item { object, bbox });
            assert forall|i: int| 0 <= i < self.items().len() implies (#[trigger] self.items()[i]).object
                == i by {
                if i < old(self).items().len() {
                    assert(self.items()[i] == old(self).items()[i]);
                }
            }
            assert forall|k: int| 0 <= k < self.light_numbers().len() implies (
            #[trigger] self.light_numbers()[k]) < self.items().len() by {
                assert(self.light_numbers()[k] == old(self).light_numbers()[k]);
            }
            assert(self.bounds() == union_all(self.items()));
        }
    }

    /// Adds an object with the box `bbox` that gives light.
    pub fn add_light(&mut self, bbox: Aabb)
        requires
            old(self).well_formed(),
        ensures
            final(self).well_formed(),
            final(self).items() == old(self).items().push(
                Item { object: old(self).items().len() as usize, bbox },
            ),
            final(self).light_numbers() == old(self).light_numbers().push(
                old(self).items().len() as usize,
            ),
            final(self).bounds() == Aabb::union(old(self).bounds(), bbox),
    {
        let object = self.objects.len();
        self.bbox = Aabb::from_boxes(&self.bbox, &bbox);
        self.objects.push(Item { object, bbox });
        self.lights.push(object);
        proof {
            assert(self.objects@.drop_last() == old(self).objects@);
            assert(self.objects@.last() == Item { object, bbox });
            assert forall|i: int| 0 <= i < self.items().len() implies (#[trigger] self.items()[i]).object
                == i by {
                if i < old(self).items().len() {
                    assert(self.items()[i] == old(self).items()[i]);
                }
            }
            assert forall|k: int| 0 <= k < self.light_numbers().len() implies (
            #[trigger] self.light_numbers()[k]) < self.items().len() by {
                if k < old(self).light_numbers().len() {
                    assert(self.light_numbers()[k] == old(self).light_numbers()[k]);
                }
            }
            assert(self.bounds() == union_all(self.items()));
        }
    }

    /// The objects, in the order in which they were added.
    pub fn objects(&self) -> (r: &Vec<Item>)
        ensures
            r@ == self.items(),
    {
        &self.objects
    }

    /// The numbers of the objects that give light.
    pub fn lights(&self) -> (r: &Vec<usize>)
        ensures
            r@ == self.light_numbers(),
    {
        &self.lights
    }

    /// The box around all the objects.
    pub fn bounding_box(&self) -> (r: &Aabb)
        ensures
            *r == self.bounds(),
    {
        &self.bbox
    }

    /// Every object's box is [`Aabb::bounded`].
    pub open spec fn boxes_bounded(&self) -> bool {
        forall|i: int| 0 <= i < self.items().len() ==> (#[trigger] self.items()[i]).bbox.bounded()
    }

    /// The hierarchy over the objects, or nothing for a collection without
    /// objects, over which there is none. The collection stays as it is.
    /// Where the boxes of the objects are bounded, the box of the hierarchy
    /// is the box of the collection.
    pub fn as_bvh(&self) -> (r: Option<BVHNode>)
        ensures
            r is Some <==> self.items().len() > 0,
            r matches Some(node) ==> node.arranged(self.items()),
            r matches Some(node) ==> (self.well_formed() && self.boxes_bounded() ==> node.bbox
                == self.bounds()),
    {
        if self.objects.len() == 0 {
            None
        } else {
            let node = BVHNode::new(&self.objects);
            proof {
                if self.well_formed() && self.boxes_bounded() {
                    crate::agreement::lemma_hierarchy_box_is_union(node, self.items());
                }
            }
            Some(node)
        }
    }

    /// Searches the collection for the nearest hit of a ray within
    /// `range`, by asking every object.
    ///
    /// The ray is known to `objects` only, which intersects it with the
    /// object of a given number within a given window. Whatever it
    /// answers, the result is one that [`scans`] allows; and where a
    /// [`Probe`] describes it, the result is [`scan`] for that probe.
    pub fn hit<O>(&self, objects: &O, range: &Interval) -> (r: Option<HitRecord>) where
        O: Fn(usize, &Interval) -> Option<HitRecord>,

        requires
            forall|object: usize, window: &Interval| call_requires(*objects, (object, window)),
        ensures
            scans(self.items(), *objects, *range, r),
            forall|probe: Probe| #[trigger]
                probe.describes_objects(*objects) ==> r == scan(self.items(), probe, *range),
    {
        let mut best: Option<HitRecord> = None;
        let mut i: usize = 0;
        assert(self.objects@.subrange(0, 0) == Seq::<Item>::empty());
        while i < self.objects.len()
            invariant
                i <= self.objects.len(),
                forall|object: usize, window: &Interval| call_requires(*objects, (object, window)),
                scans(self.objects@.subrange(0, i as int), *objects, *range, best),
                forall|probe: Probe| #[trigger]
                    probe.describes_objects(*objects) ==> best == scan(
                        self.objects@.subrange(0, i as int),
                        probe,
                        *range,
                    ),
            decreases self.objects.len() - i,
        {
            let next = objects(self.objects[i].object, range);
            let ghost before = best;
            best = Self::prefer(best, next);
            proof {
                let upto = self.objects@.subrange(0, i as int + 1);
                assert(upto.drop_last() == self.objects@.subrange(0, i as int));
                assert(upto.last() == self.objects@[i as int]);
                assert(scans(upto.drop_last(), *objects, *range, before) && call_ensures(
                    *objects,
                    (upto.last().object, range),
                    next,
                ) && best == better(before, next));
                assert(scans(upto, *objects, *range, best));
            }
            i = i + 1;
        }
        assert(self.objects@.subrange(0, i as int) == self.objects@);
        best
    }

    /// The better of the best hit so far and the next one, see [`better`].
    pub fn prefer(best: Option<HitRecord>, next: Option<HitRecord>) -> (r: Option<HitRecord>)
        ensures
            r == better(best, next),
    {
        match (best, next) {
            (_, None) => best,
            (None, Some(_)) => next,
            (Some(b), Some(n)) => {
                if n.t.lt(b.t) || (!n.t.is_nan() && b.t.is_nan()) {
                    next
                } else {
                    best
                }
            },
        }
    }
}

} // verus!

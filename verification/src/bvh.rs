//! The bounding-volume hierarchy: a binary tree of nested boxes over the
//! objects of a scene, built once and then only searched.

use vstd::prelude::*;
use crate::aabb::{slabs_admit, Aabb, Crossing};
use crate::interval::Interval;
use crate::probe::{narrowed, or_else, Probe};
use crate::random::random_int;
use crate::ray::HitRecord;

verus! {

/// An object as the hierarchy knows it: its number in the scene's list of
/// objects, and the box around it.
#[derive(Clone, Copy, Debug, PartialEq, Eq, Structural)]
pub struct Item {
    pub object: usize,
    pub bbox: Aabb,
}

impl Item {
    /// The key by which objects are ordered along an axis: the place of the
    /// box's lower bound on that axis in the total order of numbers.
    pub open spec fn key(self, axis: int) -> int {
        self.bbox.extent(axis).start.rank()
    }

    /// Whether the lower bound of `self` on `axis` stands strictly before
    /// that of `other`.
    pub fn before(&self, other: &Item, axis: usize) -> (r: bool)
        ensures
            r == (self.key(axis as int) < other.key(axis as int)),
    {
        self.bbox.axis(axis).start.total_lt(other.bbox.axis(axis).start)
    }
}

/// One side of a node: an object, or a node below.
#[derive(Debug, PartialEq, Eq)]
pub enum Child {
    Leaf(Item),
    Node(Box<BVHNode>),
}

/// A node of the hierarchy. It owns both its sides, and its box is the
/// union of theirs.
#[derive(Debug, PartialEq, Eq)]
pub struct BVHNode {
    pub left: Child,
    pub right: Child,
    pub bbox: Aabb,
}

/// No key goes down from one place of the sequence to the next.
pub open spec fn sorted_on(s: Seq<Item>, axis: int) -> bool {
    forall|i: int, j: int| 0 <= i <= j < s.len() ==> s[i].key(axis) <= s[j].key(axis)
}

/// The sorted sequence with one more object in it: the object goes behind
/// every object whose key is not larger than its own.
pub open spec fn inserted(sorted: Seq<Item>, item: Item, axis: int) -> Seq<Item>
    decreases sorted.len(),
{
    if sorted.len() == 0 || sorted.last().key(axis) <= item.key(axis) {
        sorted.push(item)
    } else {
        inserted(sorted.drop_last(), item, axis).push(sorted.last())
    }
}

/// The objects ordered by their keys on an axis, those with one key in the
/// order in which they came.
pub open spec fn ordered(s: Seq<Item>, axis: int) -> Seq<Item>
    decreases s.len(),
{
    if s.len() == 0 {
        s
    } else {
        inserted(ordered(s.drop_last(), axis), s.last(), axis)
    }
}

/// The objects ordered on an axis and split in the middle: the first half,
/// rounded down, and the rest.
pub open spec fn halves(s: Seq<Item>, axis: int) -> (Seq<Item>, Seq<Item>) {
    let o = ordered(s, axis);
    (o.subrange(0, s.len() as int / 2), o.subrange(s.len() as int / 2, s.len() as int))
}

/// The two objects with the one whose key is strictly smaller first, and
/// swapped where it is not.
pub open spec fn paired(one: Item, two: Item, axis: int) -> (Item, Item) {
    if one.key(axis) < two.key(axis) {
        (one, two)
    } else {
        (two, one)
    }
}

impl Child {
    /// The box around this side.
    pub open spec fn bounds(self) -> Aabb {
        match self {
            Child::Leaf(item) => item.bbox,
            Child::Node(node) => node.bbox,
        }
    }

    /// Every node below has the union of its sides' boxes as its box.
    pub open spec fn well_formed(self) -> bool
        decreases self,
    {
        match self {
            Child::Leaf(_) => true,
            Child::Node(node) => node.well_formed(),
        }
    }

    /// The object is one of those below this side.
    pub open spec fn reaches(self, item: Item) -> bool
        decreases self,
    {
        match self {
            Child::Leaf(leaf) => leaf == item,
            Child::Node(node) => node.reaches(item),
        }
    }

    /// Whether `found` is what a search of this side can give, see
    /// [`BVHNode::finds`].
    pub open spec fn finds<B, O>(
        self,
        slabs: B,
        objects: O,
        range: Interval,
        found: Option<HitRecord>,
    ) -> bool where B: Fn(&Aabb) -> [Crossing; 3], O: Fn(usize, &Interval) -> Option<HitRecord>
        decreases self,
    {
        match self {
            Child::Leaf(item) => call_ensures(objects, (item.object, &range), found),
            Child::Node(node) => node.finds(slabs, objects, range, found),
        }
    }

    /// What a search of this side finds, see [`BVHNode::nearest`].
    pub open spec fn nearest(self, probe: Probe, range: Interval) -> Option<HitRecord>
        decreases self,
    {
        match self {
            Child::Leaf(item) => (probe.hits)(item.object, range),
            Child::Node(node) => node.nearest(probe, range),
        }
    }

    /// The box around this side.
    pub fn bounding_box(&self) -> (r: &Aabb)
        ensures
            *r == self.bounds(),
    {
        match self {
            Child::Leaf(item) => &item.bbox,
            Child::Node(node) => &node.bbox,
        }
    }

    /// Searches this side, see [`BVHNode::hit`].
    pub fn hit<B, O>(&self, slabs: &B, objects: &O, range: &Interval) -> (r: Option<HitRecord>) where
        B: Fn(&Aabb) -> [Crossing; 3],
        O: Fn(usize, &Interval) -> Option<HitRecord>,

        requires
            forall|bbox: &Aabb| call_requires(*slabs, (bbox,)),
            forall|object: usize, window: &Interval| call_requires(*objects, (object, window)),
        ensures
            self.finds(*slabs, *objects, *range, r),
            forall|probe: Probe|
                probe.describes_slabs(*slabs) && #[trigger] probe.describes_objects(*objects) ==> r
                    == self.nearest(probe, *range),
        decreases self,
    {
        match self {
            Child::Leaf(item) => objects(item.object, range),
            Child::Node(node) => node.hit(slabs, objects, range),
        }
    }
}

impl BVHNode {
    /// Whether this node is a hierarchy over the objects `s`, with the axes
    /// drawn as they may.
    ///
    /// Its box is the union of the boxes of its sides. Over one object,
    /// both sides are that object. Over two, the sides are the two in the
    /// order [`paired`] on one of the three axes. Over more, the objects
    /// are [`ordered`] on one of the three axes, and the sides are
    /// hierarchies over the first half of them, rounded down, and over the
    /// rest.
    pub open spec fn arranged(self, s: Seq<Item>) -> bool
        decreases self,
    {
        &&& s.len() >= 1
        &&& self.bbox == Aabb::union(self.left.bounds(), self.right.bounds())
        &&& if s.len() == 1 {
            self.left == Child::Leaf(s[0]) && self.right == Child::Leaf(s[0])
        } else if s.len() == 2 {
            match (self.left, self.right) {
                (Child::Leaf(l), Child::Leaf(r)) => {
                    ||| (l, r) == paired(s[0], s[1], 0)
                    ||| (l, r) == paired(s[0], s[1], 1)
                    ||| (l, r) == paired(s[0], s[1], 2)
                },
                _ => false,
            }
        } else {
            match (self.left, self.right) {
                (Child::Node(l), Child::Node(r)) => {
                    ||| l.arranged(halves(s, 0).0) && r.arranged(halves(s, 0).1)
                    ||| l.arranged(halves(s, 1).0) && r.arranged(halves(s, 1).1)
                    ||| l.arranged(halves(s, 2).0) && r.arranged(halves(s, 2).1)
                },
                _ => false,
            }
        }
    }

    /// This node and every node below has the union of its sides' boxes
    /// as its box.
    pub open spec fn well_formed(self) -> bool
        decreases self,
    {
        &&& self.bbox == Aabb::union(self.left.bounds(), self.right.bounds())
        &&& self.left.well_formed()
        &&& self.right.well_formed()
    }

    /// The object is one of those below this node.
    pub open spec fn reaches(self, item: Item) -> bool
        decreases self,
    {
        self.left.reaches(item) || self.right.reaches(item)
    }

    /// Whether `found` is what a search below this node can give for a ray
    /// within `range`, with the two functions answering as they may.
    ///
    /// The node's box is put to `slabs`. Where the crossings that come back
    /// do not let the ray through within `range`, nothing is found. Else
    /// the left side is searched in the whole window and the right side in
    /// what is left of it, up to the hit on the left if there was one; a
    /// hit on the right wins over one on the left. An object is searched by
    /// putting its number and the window to `objects`.
    pub open spec fn finds<B, O>(
        self,
        slabs: B,
        objects: O,
        range: Interval,
        found: Option<HitRecord>,
    ) -> bool where B: Fn(&Aabb) -> [Crossing; 3], O: Fn(usize, &Interval) -> Option<HitRecord>
        decreases self,
    {
        exists|crossings: [Crossing; 3]| #[trigger]
            call_ensures(slabs, (&self.bbox,), crossings) && if !slabs_admit(crossings@, range) {
                found is None
            } else {
                exists|first: Option<HitRecord>, second: Option<HitRecord>|
                    #![trigger or_else(second, first)]
                    self.left.finds(slabs, objects, range, first) && self.right.finds(
                        slabs,
                        objects,
                        narrowed(range, first),
                        second,
                    ) && found == or_else(second, first)
            }
    }

    /// What a search below this node finds for a ray within `range`.
    ///
    /// Nothing, where the ray does not get through the node's box. Else the
    /// left side is searched in the whole window and the right side in what
    /// is left of it, up to the hit on the left if there was one; a hit on
    /// the right wins over one on the left.
    pub open spec fn nearest(self, probe: Probe, range: Interval) -> Option<HitRecord>
        decreases self,
    {
        if !probe.admits(self.bbox, range) {
            None
        } else {
            let found = self.left.nearest(probe, range);
            or_else(self.right.nearest(probe, narrowed(range, found)), found)
        }
    }

    /// The two objects in the order in which a node over them holds them,
    /// see [`paired`].
    pub fn pair_on_axis(one: Item, two: Item, axis: usize) -> (r: (Item, Item))
        ensures
            r == paired(one, two, axis as int),
    {
        if one.before(&two, axis) {
            (one, two)
        } else {
            (two, one)
        }
    }

    /// The objects `source[start..end]`, ordered by their keys on `axis`;
    /// objects with one key stay in the order in which they stand in
    /// `source`.
    pub fn order_on_axis(source: &Vec<Item>, start: usize, end: usize, axis: usize) -> (r: Vec<
        Item,
    >)
        requires
            start <= end <= source.len(),
        ensures
            r@ == ordered(source@.subrange(start as int, end as int), axis as int),
            r@.to_multiset() == source@.subrange(start as int, end as int).to_multiset(),
            sorted_on(r@, axis as int),
            r.len() == end - start,
    {
        let mut out: Vec<Item> = Vec::new();
        let mut i: usize = start;
        assert(source@.subrange(start as int, start as int) == Seq::<Item>::empty());
        while i < end
            invariant
                start <= i <= end <= source.len(),
                out@ == ordered(source@.subrange(start as int, i as int), axis as int),
                out.len() == i - start,
            decreases end - i,
        {
            let item = source[i];
            let ghost before = out@;
            let mut at: usize = out.len();
            assert(before.subrange(0, at as int) == before);
            assert(before.subrange(at as int, before.len() as int) == Seq::<Item>::empty());
            while at > 0 && item.before(&out[at - 1], axis)
                invariant
                    at <= out.len(),
                    out@ == before,
                    inserted(before, item, axis as int) == inserted(
                        before.subrange(0, at as int),
                        item,
                        axis as int,
                    ) + before.subrange(at as int, before.len() as int),
                decreases at,
            {
                proof {
                    let head = before.subrange(0, at as int);
                    assert(head.last() == before[at - 1]);
                    assert(head.drop_last() == before.subrange(0, at - 1));
                    assert(seq![before[at - 1]] + before.subrange(at as int, before.len() as int)
                        == before.subrange(at - 1, before.len() as int));
                    assert(inserted(head, item, axis as int) == inserted(
                        head.drop_last(),
                        item,
                        axis as int,
                    ).push(head.last()));
                }
                at = at - 1;
            }
            proof {
                let head = before.subrange(0, at as int);
                if at > 0 {
                    assert(head.last() == before[at - 1]);
                }
                assert(inserted(head, item, axis as int) == head.push(item));
                assert(head.push(item) + before.subrange(at as int, before.len() as int)
                    == before.insert(at as int, item));
                let upto = source@.subrange(start as int, i + 1);
                assert(upto.drop_last() == source@.subrange(start as int, i as int));
                assert(upto.last() == item);
            }
            out.insert(at, item);
            i = i + 1;
        }
        proof {
            lemma_ordered(source@.subrange(start as int, end as int), axis as int);
        }
        out
    }

    /// Builds the hierarchy over all the objects of `list`.
    pub fn new(list: &Vec<Item>) -> (r: BVHNode)
        requires
            list.len() > 0,
        ensures
            r.arranged(list@),
    {
        let len = list.len();
        assert(list@.subrange(0, len as int) == list@);
        Self::from_object_range(list, 0, len)
    }

    /// Builds the hierarchy over the objects `source[start..end]`.
    ///
    /// At each node an axis is drawn at random. One object fills both sides
    /// of its node; two are put in the order of their keys on the axis;
    /// more are ordered by their keys on the axis and split in the middle,
    /// each half going into a node of its own. Whatever axes are drawn, the
    /// result is [`BVHNode::arranged`] over the objects of the range.
    pub fn from_object_range(source: &Vec<Item>, start: usize, end: usize) -> (r: BVHNode)
        requires
            start < end <= source.len(),
        ensures
            r.arranged(source@.subrange(start as int, end as int)),
        decreases end - start,
    {
        let axis = random_int(0..3);
        let span = end - start;
        let ghost part = source@.subrange(start as int, end as int);
        if span == 1 {
            let item = source[start];
            let left = Child::Leaf(item);
            let right = Child::Leaf(item);
            let bbox = Aabb::from_boxes(left.bounding_box(), right.bounding_box());
            BVHNode { left, right, bbox }
        } else if span == 2 {
            let (first, second) = Self::pair_on_axis(source[start], source[start + 1], axis);
            let left = Child::Leaf(first);
            let right = Child::Leaf(second);
            let bbox = Aabb::from_boxes(left.bounding_box(), right.bounding_box());
            BVHNode { left, right, bbox }
        } else {
            let sorted = Self::order_on_axis(source, start, end, axis);
            let mid = span / 2;
            let low = Self::from_object_range(&sorted, 0, mid);
            let high = Self::from_object_range(&sorted, mid, span);
            assert(halves(part, axis as int) == (
                sorted@.subrange(0, mid as int),
                sorted@.subrange(mid as int, span as int),
            ));
            let left = Child::Node(Box::new(low));
            let right = Child::Node(Box::new(high));
            let bbox = Aabb::from_boxes(left.bounding_box(), right.bounding_box());
            BVHNode { left, right, bbox }
        }
    }

    /// Searches the hierarchy for the hit of a ray within `range`.
    ///
    /// The ray itself is known to the two functions only: `slabs` tells
    /// where it crosses the slabs of a box, `objects` intersects it with
    /// the object of a given number within a given window. The search
    /// skips what lies below a box that the ray misses, and never looks
    /// beyond a hit it already has. Whatever the two functions answer, the
    /// result is one that [`BVHNode::finds`] allows; and where a [`Probe`]
    /// describes them, it is [`BVHNode::nearest`] for that probe.
    pub fn hit<B, O>(&self, slabs: &B, objects: &O, range: &Interval) -> (r: Option<HitRecord>) where
        B: Fn(&Aabb) -> [Crossing; 3],
        O: Fn(usize, &Interval) -> Option<HitRecord>,

        requires
            forall|bbox: &Aabb| call_requires(*slabs, (bbox,)),
            forall|object: usize, window: &Interval| call_requires(*objects, (object, window)),
        ensures
            self.finds(*slabs, *objects, *range, r),
            forall|probe: Probe|
                probe.describes_slabs(*slabs) && #[trigger] probe.describes_objects(*objects) ==> r
                    == self.nearest(probe, *range),
        decreases self,
    {
        let crossings = slabs(&self.bbox);
        assert(call_ensures(*slabs, (&self.bbox,), crossings));
        if !Aabb::hit(&crossings, range) {
            return None;
        }
        let left_hit = self.left.hit(slabs, objects, range);
        let new_range = match &left_hit {
            Some(hit) => range.with_end(hit.t),
            None => *range,
        };
        let right_hit = self.right.hit(slabs, objects, &new_range);
        let found = if right_hit.is_some() {
            right_hit
        } else {
            left_hit
        };
        proof {
            assert(self.left.finds(*slabs, *objects, *range, left_hit) && self.right.finds(
                *slabs,
                *objects,
                narrowed(*range, left_hit),
                right_hit,
            ) && found == or_else(right_hit, left_hit));
        }
        found
    }

    /// The box around everything below this node.
    pub fn bounding_box(&self) -> (r: &Aabb)
        ensures
            *r == self.bbox,
    {
        &self.bbox
    }
}

/// Putting an object into a sorted sequence keeps it sorted and adds just
/// that object.
pub proof fn lemma_inserted(sorted: Seq<Item>, item: Item, axis: int)
    requires
        sorted_on(sorted, axis),
    ensures
        sorted_on(inserted(sorted, item, axis), axis),
        inserted(sorted, item, axis).to_multiset() == sorted.to_multiset().insert(item),
        inserted(sorted, item, axis).len() == sorted.len() + 1,
    decreases sorted.len(),
{
    broadcast use vstd::seq_lib::group_to_multiset_ensures;

    let out = inserted(sorted, item, axis);
    if sorted.len() == 0 || sorted.last().key(axis) <= item.key(axis) {
        assert forall|i: int, j: int| 0 <= i <= j < out.len() implies out[i].key(axis) <= out[j].key(
            axis,
        ) by {
            if j == sorted.len() && i < j {
                assert(out[i] == sorted[i]);
                assert(sorted[i].key(axis) <= sorted.last().key(axis));
            }
        }
    } else {
        let front = sorted.drop_last();
        let last = sorted.last();
        lemma_inserted(front, item, axis);
        let inner = inserted(front, item, axis);
        assert(sorted == front.push(last));
        inner.to_multiset_ensures();
        front.to_multiset_ensures();
        assert(out.to_multiset() =~= sorted.to_multiset().insert(item));
        assert forall|i: int, j: int| 0 <= i <= j < out.len() implies out[i].key(axis) <= out[j].key(
            axis,
        ) by {
            if j == inner.len() && i < j {
                // every object of `inner` is `item` or an object of `front`
                assert(inner.contains(inner[i]));
                assert(inner.to_multiset().count(inner[i]) > 0);
                if inner[i] != item {
                    assert(front.to_multiset().count(inner[i]) > 0);
                    assert(front.contains(inner[i]));
                    let k = choose|k: int| 0 <= k < front.len() && front[k] == inner[i];
                    assert(sorted[k] == front[k]);
                }
            }
        }
    }
}

/// Ordering a sequence sorts it and keeps its objects, each as often as it
/// was there.
pub proof fn lemma_ordered(s: Seq<Item>, axis: int)
    ensures
        sorted_on(ordered(s, axis), axis),
        ordered(s, axis).to_multiset() == s.to_multiset(),
        ordered(s, axis).len() == s.len(),
    decreases s.len(),
{
    broadcast use vstd::seq_lib::group_to_multiset_ensures;

    if s.len() > 0 {
        lemma_ordered(s.drop_last(), axis);
        lemma_inserted(ordered(s.drop_last(), axis), s.last(), axis);
        assert(s == s.drop_last().push(s.last()));
        s.drop_last().to_multiset_ensures();
    }
}

} // verus!

//! The hierarchy finds what the scan finds.
//!
//! Both searches are stated against a [`Probe`]. For a probe that answers
//! as objects and boxes should, a search of a hierarchy over a list of
//! objects and a scan of that list agree: both find nothing, or both find
//! a hit at the one nearest distance.

use vstd::prelude::*;
use crate::aabb::Aabb;
use crate::bvh::{halves, lemma_ordered, ordered, BVHNode, Child, Item};
use crate::collection::{scan, union_all};
use crate::interval::Interval;
use crate::primitive::{lemma_quad_nearest_first, lemma_sphere_nearest_first, Solved};
use crate::probe::{narrowed, Probe};
use crate::ray::HitRecord;
use crate::scalar::{lemma_keys_injective, Scalar};

verus! {

/// `found` is the nearest of the hits that the objects accepted by `among`
/// give within `range`: it is the hit of one of them, and no other hit of
/// theirs is nearer.
pub open spec fn least_among(
    found: Option<HitRecord>,
    among: spec_fn(Item) -> bool,
    probe: Probe,
    range: Interval,
) -> bool {
    &&& found matches Some(hit) ==> exists|item: Item| #[trigger]
        among(item) && (probe.hits)(item.object, range) == Some(hit)
    &&& forall|item: Item| #[trigger]
        among(item) && (probe.hits)(item.object, range) is Some ==> found is Some && found.unwrap().t.at_most(
            (probe.hits)(item.object, range).unwrap().t,
        )
}

/// Hits at one distance are one hit: no two objects of the list are hit
/// at the same distance within `range`, unless with the same record.
pub open spec fn distances_tell_apart(list: Seq<Item>, probe: Probe, range: Interval) -> bool {
    forall|i: int, j: int|
        0 <= i < list.len() && 0 <= j < list.len() ==> {
            let a = (probe.hits)((#[trigger] list[i]).object, range);
            let b = (probe.hits)((#[trigger] list[j]).object, range);
            a is Some && b is Some && a.unwrap().t.same_number(b.unwrap().t) ==> a == b
        }
}

/// A member of one of two sequences is a member of the two joined.
proof fn lemma_concat_contains(a: Seq<Item>, b: Seq<Item>, x: Item)
    ensures
        (a + b).contains(x) <==> a.contains(x) || b.contains(x),
{
    if a.contains(x) {
        let i = choose|i: int| 0 <= i < a.len() && a[i] == x;
        assert((a + b)[i] == x);
    }
    if b.contains(x) {
        let i = choose|i: int| 0 <= i < b.len() && b[i] == x;
        assert((a + b)[a.len() + i] == x);
    }
    if (a + b).contains(x) {
        let i = choose|i: int| 0 <= i < (a + b).len() && (a + b)[i] == x;
        if i < a.len() {
            assert(a[i] == x);
        } else {
            assert(b[i - a.len()] == x);
        }
    }
}

/// A hierarchy over a list of objects is well formed, and the objects
/// below it are those of the list.
pub proof fn lemma_arranged_covers(node: BVHNode, list: Seq<Item>)
    requires
        node.arranged(list),
    ensures
        node.well_formed(),
        forall|item: Item| node.reaches(item) <==> list.contains(item),
    decreases node,
{
    let n = list.len() as int;
    if n == 1 {
        assert forall|item: Item| node.reaches(item) <==> list.contains(item) by {
            assert(node.left.reaches(item) == (list[0] == item));
            assert(node.right.reaches(item) == (list[0] == item));
        }
    } else if n == 2 {
        let l = node.left->Leaf_0;
        let r = node.right->Leaf_0;
        assert forall|item: Item| node.reaches(item) <==> list.contains(item) by {
            assert(node.left.reaches(item) == (l == item));
            assert(node.right.reaches(item) == (r == item));
            assert(list[0] == l && list[1] == r || list[0] == r && list[1] == l);
        }
    } else {
        let l = *node.left->Node_0;
        let r = *node.right->Node_0;
        let axis: int = if l.arranged(halves(list, 0).0) && r.arranged(halves(list, 0).1) {
            0
        } else if l.arranged(halves(list, 1).0) && r.arranged(halves(list, 1).1) {
            1
        } else {
            2
        };
        let o = ordered(list, axis);
        let (lo, hi) = halves(list, axis);
        lemma_arranged_covers(l, lo);
        lemma_arranged_covers(r, hi);
        lemma_ordered(list, axis);
        assert(lo + hi == o);
        list.to_multiset_ensures();
        o.to_multiset_ensures();
        assert forall|item: Item| node.reaches(item) <==> list.contains(item) by {
            assert(node.left.reaches(item) == l.reaches(item));
            assert(node.right.reaches(item) == r.reaches(item));
            lemma_concat_contains(lo, hi, item);
            assert(o.contains(item) <==> o.to_multiset().count(item) > 0);
            assert(list.contains(item) <==> list.to_multiset().count(item) > 0);
        }
    }
}

/// A ray that gets through the box of an object gets through the box of
/// every side that the object lies below.
proof fn lemma_child_box_admits(c: Child, item: Item, probe: Probe, range: Interval)
    requires
        c.well_formed(),
        c.reaches(item),
        probe.boxes_nest(),
        probe.admits(item.bbox, range),
    ensures
        probe.admits(c.bounds(), range),
    decreases c,
{
    match c {
        Child::Leaf(_) => {},
        Child::Node(node) => {
            if node.left.reaches(item) {
                lemma_child_box_admits(node.left, item, probe, range);
                assert(probe.admits(
                    crate::aabb::Aabb::union(node.left.bounds(), node.right.bounds()),
                    range,
                ));
            } else {
                lemma_child_box_admits(node.right, item, probe, range);
                assert(probe.admits(
                    crate::aabb::Aabb::union(node.left.bounds(), node.right.bounds()),
                    range,
                ));
            }
        },
    }
}

/// A search of one side of a node finds the nearest hit among the objects
/// below that side.
pub proof fn lemma_child_search_finds_least(c: Child, probe: Probe, range: Interval)
    requires
        c.well_formed(),
        probe.within_range(),
        probe.nearest_first(),
        probe.boxes_nest(),
        forall|item: Item| #[trigger] c.reaches(item) ==> probe.box_holds(item.object, item.bbox),
    ensures
        least_among(c.nearest(probe, range), |item: Item| c.reaches(item), probe, range),
    decreases c,
{
    let among = |item: Item| c.reaches(item);
    match c {
        Child::Leaf(leaf) => {
            let found = c.nearest(probe, range);
            if found is Some {
                assert(among(leaf));
            }
        },
        Child::Node(boxed) => {
            let node = *boxed;
            let found = node.nearest(probe, range);
            let on_left = |item: Item| node.left.reaches(item);
            let on_right = |item: Item| node.right.reaches(item);
            if !probe.admits(node.bbox, range) {
                assert forall|item: Item| #[trigger]
                    among(item) && (probe.hits)(item.object, range) is Some implies false by {
                    assert(c.reaches(item));
                    assert(probe.box_holds(item.object, item.bbox));
                    lemma_child_box_admits(c, item, probe, range);
                }
            } else {
                let first = node.left.nearest(probe, range);
                let rest = narrowed(range, first);
                let second = node.right.nearest(probe, rest);
                assert forall|item: Item| #[trigger]
                    node.left.reaches(item) implies probe.box_holds(item.object, item.bbox) by {
                    assert(c.reaches(item));
                }
                assert forall|item: Item| #[trigger]
                    node.right.reaches(item) implies probe.box_holds(item.object, item.bbox) by {
                    assert(c.reaches(item));
                }
                lemma_child_search_finds_least(node.left, probe, range);
                lemma_child_search_finds_least(node.right, probe, rest);
                assert(least_among(first, on_left, probe, range));
                assert(least_among(second, on_right, probe, rest));
                // The hit on the left, if any, lies in the window.
                if first is Some {
                    let w = choose|item: Item| #[trigger]
                        on_left(item) && (probe.hits)(item.object, range) == first;
                    assert(range.holds(first.unwrap().t));
                }
                // A hit on the right was found in the rest of the window, so
                // it lies below the hit on the left and is a hit in the whole
                // window too.
                if second is Some {
                    let w = choose|item: Item| #[trigger]
                        on_right(item) && (probe.hits)(item.object, rest) == second;
                    assert(rest.holds(second.unwrap().t));
                    if first is Some {
                        let cut = first.unwrap().t;
                        assert(rest == range.until(cut));
                        assert((probe.hits)(w.object, range.until(cut)) == second);
                        assert((probe.hits)(w.object, range) == second);
                    }
                    assert(among(w) && (probe.hits)(w.object, range) == found);
                } else if first is Some {
                    let w = choose|item: Item| #[trigger]
                        on_left(item) && (probe.hits)(item.object, range) == first;
                    assert(among(w) && (probe.hits)(w.object, range) == found);
                }
                assert forall|item: Item| #[trigger]
                    among(item) && (probe.hits)(item.object, range) is Some implies found is Some
                    && found.unwrap().t.at_most((probe.hits)(item.object, range).unwrap().t) by {
                    let hit = (probe.hits)(item.object, range).unwrap();
                    assert(range.holds(hit.t));
                    assert(c.reaches(item));
                    if node.left.reaches(item) {
                        assert(on_left(item));
                        assert(first is Some && first.unwrap().t.at_most(hit.t));
                    } else {
                        assert(on_right(item));
                        if first is Some {
                            let cut = first.unwrap().t;
                            assert(rest == range.until(cut));
                            let again = (probe.hits)(item.object, range.until(cut));
                            if hit.t.less(cut) {
                                assert(again == Some(hit));
                                assert(second is Some && second.unwrap().t.at_most(hit.t));
                            }
                        } else {
                            assert(second is Some && second.unwrap().t.at_most(hit.t));
                        }
                    }
                }
            }
        },
    }
}

/// A scan of a list finds the nearest hit among the objects of the list.
pub proof fn lemma_scan_finds_least(list: Seq<Item>, probe: Probe, range: Interval)
    requires
        probe.within_range(),
    ensures
        least_among(scan(list, probe, range), |item: Item| list.contains(item), probe, range),
    decreases list.len(),
{
    let among = |item: Item| list.contains(item);
    let found = scan(list, probe, range);
    if list.len() > 0 {
        let front = list.drop_last();
        let last = list.last();
        let before = scan(front, probe, range);
        let next = (probe.hits)(last.object, range);
        let among_front = |item: Item| front.contains(item);
        lemma_scan_finds_least(front, probe, range);
        assert(least_among(before, among_front, probe, range));
        assert(list[list.len() - 1] == last);
        if found is Some {
            if found == next {
                assert(among(last));
            } else {
                let w = choose|item: Item| #[trigger]
                    among_front(item) && (probe.hits)(item.object, range) == before;
                let k = choose|k: int| 0 <= k < front.len() && front[k] == w;
                assert(list[k] == w);
                assert(among(w) && (probe.hits)(w.object, range) == found);
            }
        }
        if before is Some {
            let w = choose|item: Item| #[trigger]
                among_front(item) && (probe.hits)(item.object, range) == before;
            assert(range.holds(before.unwrap().t));
        }
        if next is Some {
            assert(range.holds(next.unwrap().t));
        }
        assert forall|item: Item| #[trigger]
            among(item) && (probe.hits)(item.object, range) is Some implies found is Some
            && found.unwrap().t.at_most((probe.hits)(item.object, range).unwrap().t) by {
            let hit = (probe.hits)(item.object, range).unwrap();
            assert(range.holds(hit.t));
            let k = choose|k: int| 0 <= k < list.len() && list[k] == item;
            if k < front.len() {
                assert(front[k] == item);
                assert(among_front(item));
            } else {
                assert(item == last);
            }
        }
    }
}

/// What a search of a hierarchy finds lies in the window that was asked
/// for, as long as every object keeps to the window it is asked in.
pub proof fn lemma_search_within_range(c: Child, probe: Probe, range: Interval)
    requires
        probe.within_range(),
    ensures
        c.nearest(probe, range) matches Some(hit) ==> range.holds(hit.t),
    decreases c,
{
    match c {
        Child::Leaf(_) => {},
        Child::Node(boxed) => {
            let node = *boxed;
            if probe.admits(node.bbox, range) {
                let first = node.left.nearest(probe, range);
                lemma_search_within_range(node.left, probe, range);
                lemma_search_within_range(node.right, probe, narrowed(range, first));
            }
        },
    }
}

/// What a scan of a list finds lies in the window that was asked for, as
/// long as every object keeps to the window it is asked in.
pub proof fn lemma_scan_within_range(list: Seq<Item>, probe: Probe, range: Interval)
    requires
        probe.within_range(),
    ensures
        scan(list, probe, range) matches Some(hit) ==> range.holds(hit.t),
    decreases list.len(),
{
    if list.len() > 0 {
        lemma_scan_within_range(list.drop_last(), probe, range);
    }
}

/// The search of a hierarchy and the scan of the list it was built over
/// agree.
///
/// The probe has to answer as a scene does: hits lie in the window asked
/// for, an object answers with its nearest hit, the box of an object is in
/// the way of every ray that hits the object, and a ray that gets through a
/// box gets through the boxes around it. Then both searches find nothing,
/// or both find a hit at the same distance; and they find the very same
/// hit where no two objects are hit at one distance.
pub proof fn lemma_search_agrees_with_scan(
    node: BVHNode,
    list: Seq<Item>,
    probe: Probe,
    range: Interval,
)
    requires
        node.arranged(list),
        probe.within_range(),
        probe.nearest_first(),
        probe.boxes_nest(),
        forall|i: int|
            0 <= i < list.len() ==> probe.box_holds((#[trigger] list[i]).object, list[i].bbox),
    ensures
        node.nearest(probe, range) is None <==> scan(list, probe, range) is None,
        node.nearest(probe, range) matches Some(a) ==> scan(list, probe, range) matches Some(b)
            && a.t.same_number(b.t),
        distances_tell_apart(list, probe, range) ==> node.nearest(probe, range) == scan(
            list,
            probe,
            range,
        ),
{
    let c = Child::Node(Box::new(node));
    let searched = node.nearest(probe, range);
    let scanned = scan(list, probe, range);
    let below = |item: Item| c.reaches(item);
    let listed = |item: Item| list.contains(item);
    lemma_arranged_covers(node, list);
    assert forall|item: Item| c.reaches(item) <==> list.contains(item) by {
        assert(c.reaches(item) == node.reaches(item));
    }
    assert forall|item: Item| #[trigger] c.reaches(item) implies probe.box_holds(
        item.object,
        item.bbox,
    ) by {
        let k = choose|k: int| 0 <= k < list.len() && list[k] == item;
        assert(probe.box_holds(list[k].object, list[k].bbox));
    }
    lemma_child_search_finds_least(c, probe, range);
    lemma_scan_finds_least(list, probe, range);
    assert(least_among(searched, below, probe, range));
    assert(least_among(scanned, listed, probe, range));
    if searched is Some {
        let w = choose|item: Item| #[trigger]
            below(item) && (probe.hits)(item.object, range) == searched;
        assert(listed(w));
        assert(scanned is Some);
    }
    if scanned is Some {
        let v = choose|item: Item| #[trigger]
            listed(item) && (probe.hits)(item.object, range) == scanned;
        assert(below(v));
        assert(searched is Some);
    }
    if searched is Some && scanned is Some {
        let w = choose|item: Item| #[trigger]
            below(item) && (probe.hits)(item.object, range) == searched;
        let v = choose|item: Item| #[trigger]
            listed(item) && (probe.hits)(item.object, range) == scanned;
        assert(listed(w));
        assert(below(v));
        assert(searched.unwrap().t.at_most(scanned.unwrap().t));
        assert(scanned.unwrap().t.at_most(searched.unwrap().t));
        if distances_tell_apart(list, probe, range) {
            let i = choose|i: int| 0 <= i < list.len() && list[i] == w;
            let j = choose|j: int| 0 <= j < list.len() && list[j] == v;
            assert((probe.hits)(list[i].object, range) == searched);
            assert((probe.hits)(list[j].object, range) == scanned);
        }
    }
}

/// Whether, on one axis, `bbox` is the smallest box around the boxes of
/// the objects that `among` accepts: each of its two bounds is the bound
/// of such an object, and the one that `min` or `max` would choose among
/// them all.
pub open spec fn tight_on(bbox: Aabb, among: spec_fn(Item) -> bool, axis: int) -> bool {
    let e = bbox.extent(axis);
    &&& exists|item: Item| #[trigger] among(item) && item.bbox.extent(axis).start == e.start
    &&& exists|item: Item| #[trigger] among(item) && item.bbox.extent(axis).end == e.end
    &&& forall|item: Item| #[trigger]
        among(item) ==> e.start.low_key() <= item.bbox.extent(axis).start.low_key()
            && item.bbox.extent(axis).end.high_key() <= e.end.high_key()
}

/// Whether `bbox` is the smallest box around the boxes of the objects that
/// `among` accepts, on all three axes.
pub open spec fn tight(bbox: Aabb, among: spec_fn(Item) -> bool) -> bool {
    tight_on(bbox, among, 0) && tight_on(bbox, among, 1) && tight_on(bbox, among, 2)
}

/// The union of the smallest boxes around two groups of objects is the
/// smallest box around both groups.
proof fn lemma_union_tight_on(
    one: Aabb,
    other: Aabb,
    among_one: spec_fn(Item) -> bool,
    among_other: spec_fn(Item) -> bool,
    among: spec_fn(Item) -> bool,
    axis: int,
)
    requires
        tight_on(one, among_one, axis),
        tight_on(other, among_other, axis),
        forall|item: Item| #[trigger] among(item) ==> among_one(item) || among_other(item),
        forall|item: Item| #[trigger] among_one(item) ==> among(item),
        forall|item: Item| #[trigger] among_other(item) ==> among(item),
    ensures
        tight_on(Aabb::union(one, other), among, axis),
{
    let u = Aabb::union(one, other).extent(axis);
    let a = one.extent(axis);
    let b = other.extent(axis);
    assert(u == Interval::hull(a, b));
    let s1 = choose|item: Item| #[trigger] among_one(item) && item.bbox.extent(axis).start == a.start;
    let s2 = choose|item: Item| #[trigger]
        among_other(item) && item.bbox.extent(axis).start == b.start;
    let e1 = choose|item: Item| #[trigger] among_one(item) && item.bbox.extent(axis).end == a.end;
    let e2 = choose|item: Item| #[trigger] among_other(item) && item.bbox.extent(axis).end == b.end;
    if u.start == a.start {
        assert(among(s1) && s1.bbox.extent(axis).start == u.start);
    } else {
        assert(among(s2) && s2.bbox.extent(axis).start == u.start);
    }
    if u.end == a.end {
        assert(among(e1) && e1.bbox.extent(axis).end == u.end);
    } else {
        assert(among(e2) && e2.bbox.extent(axis).end == u.end);
    }
    assert forall|item: Item| #[trigger] among(item) implies u.start.low_key()
        <= item.bbox.extent(axis).start.low_key() && item.bbox.extent(axis).end.high_key()
        <= u.end.high_key() by {
        if among_one(item) {
        } else {
            assert(among_other(item));
        }
    }
}

/// The box of one side of a well-formed node is the smallest box around
/// the objects below that side.
proof fn lemma_child_box_tight(c: Child)
    requires
        c.well_formed(),
    ensures
        tight(c.bounds(), |item: Item| c.reaches(item)),
    decreases c,
{
    let among = |item: Item| c.reaches(item);
    match c {
        Child::Leaf(leaf) => {
            assert(among(leaf));
        },
        Child::Node(boxed) => {
            let node = *boxed;
            let on_left = |item: Item| node.left.reaches(item);
            let on_right = |item: Item| node.right.reaches(item);
            lemma_child_box_tight(node.left);
            lemma_child_box_tight(node.right);
            assert forall|item: Item| #[trigger] among(item) implies on_left(item) || on_right(
                item,
            ) by {
                assert(c.reaches(item) == node.reaches(item));
            }
            assert forall|item: Item| #[trigger] on_left(item) implies among(item) by {
                assert(c.reaches(item) == node.reaches(item));
            }
            assert forall|item: Item| #[trigger] on_right(item) implies among(item) by {
                assert(c.reaches(item) == node.reaches(item));
            }
            lemma_union_tight_on(node.left.bounds(), node.right.bounds(), on_left, on_right, among, 0);
            lemma_union_tight_on(node.left.bounds(), node.right.bounds(), on_left, on_right, among, 1);
            lemma_union_tight_on(node.left.bounds(), node.right.bounds(), on_left, on_right, among, 2);
        },
    }
}

/// The box of a collection of bounded boxes is the smallest box around
/// its objects.
proof fn lemma_union_all_tight(list: Seq<Item>)
    requires
        list.len() > 0,
        forall|i: int| 0 <= i < list.len() ==> (#[trigger] list[i]).bbox.bounded(),
    ensures
        tight(union_all(list), |item: Item| list.contains(item)),
    decreases list.len(),
{
    let among = |item: Item| list.contains(item);
    let front = list.drop_last();
    let last = list.last();
    let only_last = |item: Item| item == last;
    assert(list[list.len() - 1] == last);
    assert(only_last(last));
    assert(tight(last.bbox, only_last));
    if front.len() == 0 {
        assert(union_all(front) == Aabb::nothing());
        crate::aabb::lemma_union_with_nothing(last.bbox);
        assert(union_all(list) == last.bbox);
        assert(among(last));
        assert forall|item: Item| #[trigger] among(item) implies item == last by {
            let k = choose|k: int| 0 <= k < list.len() && list[k] == item;
        }
    } else {
        let among_front = |item: Item| front.contains(item);
        assert forall|i: int| 0 <= i < front.len() implies (#[trigger] front[i]).bbox.bounded() by {
            assert(front[i] == list[i]);
        }
        lemma_union_all_tight(front);
        assert forall|item: Item| #[trigger] among(item) implies among_front(item) || only_last(
            item,
        ) by {
            let k = choose|k: int| 0 <= k < list.len() && list[k] == item;
            if k < front.len() {
                assert(front[k] == item);
            }
        }
        assert forall|item: Item| #[trigger] among_front(item) implies among(item) by {
            let k = choose|k: int| 0 <= k < front.len() && front[k] == item;
            assert(list[k] == item);
        }
        assert forall|item: Item| #[trigger] only_last(item) implies among(item) by {}
        lemma_union_tight_on(union_all(front), last.bbox, among_front, only_last, among, 0);
        lemma_union_tight_on(union_all(front), last.bbox, among_front, only_last, among, 1);
        lemma_union_tight_on(union_all(front), last.bbox, among_front, only_last, among, 2);
    }
}

/// There is one smallest box around a group of objects.
proof fn lemma_tight_is_one(
    one: Aabb,
    other: Aabb,
    among_one: spec_fn(Item) -> bool,
    among_other: spec_fn(Item) -> bool,
)
    requires
        tight(one, among_one),
        tight(other, among_other),
        forall|item: Item| #[trigger] among_one(item) ==> among_other(item),
        forall|item: Item| #[trigger] among_other(item) ==> among_one(item),
    ensures
        one == other,
{
    assert forall|axis: int| 0 <= axis < 3 implies one.extent(axis) == other.extent(axis) by {
        let a = one.extent(axis);
        let b = other.extent(axis);
        assert(tight_on(one, among_one, axis) && tight_on(other, among_other, axis));
        let s1 = choose|item: Item| #[trigger]
            among_one(item) && item.bbox.extent(axis).start == a.start;
        let s2 = choose|item: Item| #[trigger]
            among_other(item) && item.bbox.extent(axis).start == b.start;
        let e1 = choose|item: Item| #[trigger] among_one(item) && item.bbox.extent(axis).end == a.end;
        let e2 = choose|item: Item| #[trigger]
            among_other(item) && item.bbox.extent(axis).end == b.end;
        assert(among_other(s1) && among_one(s2) && among_other(e1) && among_one(e2));
        lemma_keys_injective(a.start, b.start);
        lemma_keys_injective(a.end, b.end);
    }
    assert(one.extent(0) == one.x && one.extent(1) == one.y && one.extent(2) == one.z);
    assert(other.extent(0) == other.x && other.extent(1) == other.y && other.extent(2) == other.z);
}

/// The box of a hierarchy over a list of objects is the box of the
/// collection of those objects, as long as the boxes of the objects are
/// bounded.
pub proof fn lemma_hierarchy_box_is_union(node: BVHNode, list: Seq<Item>)
    requires
        node.arranged(list),
        forall|i: int| 0 <= i < list.len() ==> (#[trigger] list[i]).bbox.bounded(),
    ensures
        node.bbox == union_all(list),
{
    let c = Child::Node(Box::new(node));
    lemma_arranged_covers(node, list);
    lemma_child_box_tight(c);
    lemma_union_all_tight(list);
    let below = |item: Item| c.reaches(item);
    let listed = |item: Item| list.contains(item);
    assert forall|item: Item| #[trigger] below(item) implies listed(item) by {
        assert(c.reaches(item) == node.reaches(item));
    }
    assert forall|item: Item| #[trigger] listed(item) implies below(item) by {
        assert(c.reaches(item) == node.reaches(item));
    }
    lemma_tight_is_one(c.bounds(), union_all(list), below, listed);
}

/// Spheres and quads answer as the agreement of the two searches asks of
/// objects. Where every hit is the record at the distance that the
/// object's sphere roots or quad crossing choose within the window, and
/// the roots of the spheres come in order, every hit lies in its window
/// and every object answers with its nearest hit.
pub proof fn lemma_shapes_answer_nearest_first(
    probe: Probe,
    solved: spec_fn(usize) -> Solved,
    record: spec_fn(usize, Scalar) -> HitRecord,
)
    requires
        forall|object: usize| (#[trigger] solved(object)).in_order(),
        forall|object: usize, t: Scalar| (#[trigger] record(object, t)).t == t,
        forall|object: usize, range: Interval| #[trigger]
            (probe.hits)(object, range) == (match solved(object).chosen(range) {
                Some(t) => Some(record(object, t)),
                None => None,
            }),
    ensures
        probe.within_range(),
        probe.nearest_first(),
{
    assert forall|object: usize, range: Interval|
        (#[trigger] (probe.hits)(object, range)) is Some implies range.holds(
        (probe.hits)(object, range).unwrap().t,
    ) by {
        let t = solved(object).chosen(range).unwrap();
        assert(record(object, t).t == t);
    }
    assert forall|object: usize, range: Interval, cut: Scalar|
        cut.at_most(range.end) implies #[trigger] (probe.hits)(object, range.until(cut)) == (match (
            probe.hits
        )(object, range) {
            Some(hit) => if hit.t.less(cut) {
                Some(hit)
            } else {
                None
            },
            None => None,
        }) by {
        assert(solved(object).in_order());
        match solved(object) {
            Solved::Sphere(roots) => {
                lemma_sphere_nearest_first(roots, range, cut);
            },
            Solved::Quad(crossing) => {
                lemma_quad_nearest_first(crossing, range, cut);
            },
        }
        if solved(object).chosen(range) is Some {
            let t = solved(object).chosen(range).unwrap();
            assert(record(object, t).t == t);
        }
    }
}

/// For a scene of spheres and quads, the search of a hierarchy and the
/// scan of the list it was built over agree, and what they find lies in
/// the window: both find nothing, or both find a hit at the same distance
/// within the window, and the very same hit where no two objects are hit
/// at one distance.
///
/// Of the objects it is asked that every hit is the record at the distance
/// that the sphere's roots or the quad's crossing choose, with the roots
/// in order. Of the boxes it is asked that the box of an object is in the
/// way of every ray that hits it, and that a ray that gets through a box
/// gets through the boxes around it.
pub proof fn lemma_search_agrees_for_shapes(
    node: BVHNode,
    list: Seq<Item>,
    probe: Probe,
    solved: spec_fn(usize) -> Solved,
    record: spec_fn(usize, Scalar) -> HitRecord,
    range: Interval,
)
    requires
        node.arranged(list),
        forall|object: usize| (#[trigger] solved(object)).in_order(),
        forall|object: usize, t: Scalar| (#[trigger] record(object, t)).t == t,
        forall|object: usize, window: Interval| #[trigger]
            (probe.hits)(object, window) == (match solved(object).chosen(window) {
                Some(t) => Some(record(object, t)),
                None => None,
            }),
        probe.boxes_nest(),
        forall|i: int|
            0 <= i < list.len() ==> probe.box_holds((#[trigger] list[i]).object, list[i].bbox),
    ensures
        node.nearest(probe, range) is None <==> scan(list, probe, range) is None,
        node.nearest(probe, range) matches Some(a) ==> scan(list, probe, range) matches Some(b)
            && a.t.same_number(b.t) && range.holds(a.t) && range.holds(b.t),
        distances_tell_apart(list, probe, range) ==> node.nearest(probe, range) == scan(
            list,
            probe,
            range,
        ),
{
    lemma_shapes_answer_nearest_first(probe, solved, record);
    lemma_search_agrees_with_scan(node, list, probe, range);
    lemma_search_within_range(Child::Node(Box::new(node)), probe, range);
    lemma_scan_within_range(list, probe, range);
}

} // verus!

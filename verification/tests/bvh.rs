use pathtracer::aabb::{Aabb, Crossing};
use pathtracer::bvh::{BVHNode, Child, Item};
use pathtracer::collection::ObjectCollection;
use pathtracer::interval::Interval;
use pathtracer::primitive::{QuadCrossing, SphereRoots};
use pathtracer::ray::HitRecord;
use pathtracer::scalar::Scalar;
use pathtracer::vector::Vector3;

fn s(x: f32) -> Scalar {
    Scalar::from_bits(x.to_bits())
}

fn f(x: Scalar) -> f32 {
    f32::from_bits(x.to_bits())
}

fn v(p: [f32; 3]) -> Vector3 {
    Vector3::new(s(p[0]), s(p[1]), s(p[2]))
}

fn iv(a: f32, b: f32) -> Interval {
    Interval::new(s(a), s(b))
}

fn add(a: [f32; 3], b: [f32; 3]) -> [f32; 3] {
    [a[0] + b[0], a[1] + b[1], a[2] + b[2]]
}

fn sub(a: [f32; 3], b: [f32; 3]) -> [f32; 3] {
    [a[0] - b[0], a[1] - b[1], a[2] - b[2]]
}

fn scale(a: [f32; 3], k: f32) -> [f32; 3] {
    [a[0] * k, a[1] * k, a[2] * k]
}

fn dot(a: [f32; 3], b: [f32; 3]) -> f32 {
    a[0] * b[0] + a[1] * b[1] + a[2] * b[2]
}

fn cross(a: [f32; 3], b: [f32; 3]) -> [f32; 3] {
    [a[1] * b[2] - a[2] * b[1], a[2] * b[0] - a[0] * b[2], a[0] * b[1] - a[1] * b[0]]
}

#[derive(Clone, Copy)]
enum Shape {
    Sphere { center: [f32; 3], radius: f32 },
    Quad { origin: [f32; 3], u: [f32; 3], v: [f32; 3] },
}

impl Shape {
    fn bbox(&self) -> Aabb {
        match *self {
            Shape::Sphere { center, radius } => {
                let r = [radius + 0.01, radius + 0.01, radius + 0.01];
                Aabb::from_points(v(sub(center, r)), v(add(center, r)))
            }
            Shape::Quad { origin, u, v: side } => {
                let tight = Aabb::from_quad(
                    v(origin),
                    v(add(origin, u)),
                    v(add(origin, side)),
                    v(add(add(origin, u), side)),
                );
                let grow = |a: usize| {
                    iv(f(tight.axis(a).start) - 0.01, f(tight.axis(a).end) + 0.01)
                };
                Aabb::new(grow(0), grow(1), grow(2))
            }
        }
    }

    fn hit(&self, number: usize, origin: [f32; 3], direction: [f32; 3], window: &Interval) -> Option<HitRecord> {
        match *self {
            Shape::Sphere { center, radius } => {
                let oc = sub(origin, center);
                let a = dot(direction, direction);
                let half_b = dot(oc, direction);
                let c = dot(oc, oc) - radius * radius;
                let discriminant = half_b * half_b - a * c;
                let sqrtd = discriminant.sqrt();
                let roots = SphereRoots {
                    discriminant: s(discriminant),
                    nearer: s((-half_b - sqrtd) / a),
                    farther: s((-half_b + sqrtd) / a),
                };
                let t = roots.select(window)?;
                let point = add(origin, scale(direction, f(t)));
                let normal = scale(sub(point, center), 1.0 / radius);
                Some(HitRecord::new(s(dot(direction, normal)), v(point), v(normal), t, number, s(0.0), s(0.0)))
            }
            Shape::Quad { origin: q, u, v: side } => {
                let n = cross(u, side);
                let length = dot(n, n).sqrt();
                let normal = scale(n, 1.0 / length);
                let d = dot(normal, q);
                let w = scale(n, 1.0 / dot(n, n));
                let denominator = dot(normal, direction);
                let t = (d - dot(normal, origin)) / denominator;
                let point = add(origin, scale(direction, t));
                let planar = sub(point, q);
                let crossing = QuadCrossing {
                    denominator: s(denominator),
                    t: s(t),
                    alpha: s(dot(w, cross(planar, side))),
                    beta: s(dot(w, cross(u, planar))),
                };
                let t = crossing.select(window)?;
                Some(HitRecord::new(
                    s(dot(direction, normal)),
                    v(point),
                    v(normal),
                    t,
                    number,
                    crossing.alpha,
                    crossing.beta,
                ))
            }
        }
    }
}

fn crossings(b: &Aabb, origin: [f32; 3], direction: [f32; 3]) -> [Crossing; 3] {
    let one = |a: usize| {
        let inverse = 1.0 / direction[a];
        let extent = b.axis(a);
        Crossing {
            inverse_direction: s(inverse),
            at_start: s((f(extent.start) - origin[a]) * inverse),
            at_end: s((f(extent.end) - origin[a]) * inverse),
        }
    };
    [one(0), one(1), one(2)]
}

struct Lcg(u64);

impl Lcg {
    fn next(&mut self) -> f32 {
        self.0 = self.0.wrapping_mul(6_364_136_223_846_793_005).wrapping_add(1_442_695_040_888_963_407);
        ((self.0 >> 40) as f32) / ((1u64 << 24) as f32)
    }

    fn within(&mut self, lo: f32, hi: f32) -> f32 {
        lo + (hi - lo) * self.next()
    }

    fn point(&mut self, reach: f32) -> [f32; 3] {
        [self.within(-reach, reach), self.within(-reach, reach), self.within(-reach, reach)]
    }
}

fn random_scene(rng: &mut Lcg, n: usize) -> Vec<Shape> {
    let mut shapes = Vec::new();
    for k in 0..n {
        if k % 3 == 2 {
            shapes.push(Shape::Quad { origin: rng.point(6.0), u: rng.point(2.0), v: rng.point(2.0) });
        } else {
            shapes.push(Shape::Sphere { center: rng.point(6.0), radius: rng.within(0.2, 1.5) });
        }
    }
    shapes
}

fn collect(shapes: &[Shape]) -> ObjectCollection {
    let mut world = ObjectCollection::new();
    for shape in shapes {
        world.add(shape.bbox());
    }
    world
}

fn item(object: usize, lo: [f32; 3], hi: [f32; 3]) -> Item {
    Item { object, bbox: Aabb::from_points(v(lo), v(hi)) }
}

fn leaves(child: &Child, out: &mut Vec<Item>) {
    match child {
        Child::Leaf(item) => out.push(*item),
        Child::Node(node) => {
            leaves(&node.left, out);
            leaves(&node.right, out);
        }
    }
}

fn side_box(child: &Child) -> Aabb {
    *child.bounding_box()
}

/// Checks the shape of a node over `n` objects and returns them.
fn check_shape(node: &BVHNode, n: usize) -> Vec<Item> {
    assert_eq!(node.bbox, Aabb::from_boxes(&side_box(&node.left), &side_box(&node.right)));
    assert_eq!(*node.bounding_box(), node.bbox);
    match (&node.left, &node.right) {
        (Child::Leaf(l), Child::Leaf(r)) => {
            if n == 1 {
                assert_eq!(l, r);
                vec![*l]
            } else {
                assert_eq!(n, 2);
                let ordered = (0..3).any(|a| !r.before(l, a));
                assert!(ordered);
                vec![*l, *r]
            }
        }
        (Child::Node(l), Child::Node(r)) => {
            assert!(n > 2);
            let mut low = check_shape(l, n / 2);
            let high = check_shape(r, n - n / 2);
            assert_eq!(low.len(), n / 2);
            assert_eq!(high.len(), n - n / 2);
            let apart = (0..3).any(|a| low.iter().all(|x| high.iter().all(|y| !y.before(x, a))));
            assert!(apart);
            low.extend(high);
            low
        }
        _ => panic!("a node has a leaf on one side and a node on the other"),
    }
}

#[test]
fn a_node_over_one_object_holds_it_on_both_sides() {
    let only = item(7, [0.0, 0.0, 0.0], [1.0, 2.0, 3.0]);
    let node = BVHNode::new(&vec![only]);
    assert_eq!(node.left, Child::Leaf(only));
    assert_eq!(node.right, Child::Leaf(only));
    assert_eq!(node.bbox, only.bbox);
}

#[test]
fn a_node_over_two_objects_orders_them_on_some_axis() {
    let a = item(0, [5.0, 0.0, -3.0], [6.0, 1.0, -2.0]);
    let b = item(1, [1.0, 2.0, -1.0], [2.0, 3.0, 0.0]);
    for _ in 0..50 {
        let node = BVHNode::new(&vec![a, b]);
        let on_x_or_z = node.left == Child::Leaf(b) && node.right == Child::Leaf(a);
        let on_y = node.left == Child::Leaf(a) && node.right == Child::Leaf(b);
        assert!(on_x_or_z || on_y);
        assert_eq!(node.bbox, Aabb::from_boxes(&a.bbox, &b.bbox));
    }
}

#[test]
fn the_pair_on_an_axis_is_swapped_unless_the_first_is_strictly_lower() {
    let a = item(0, [5.0, 0.0, 1.0], [6.0, 1.0, 2.0]);
    let b = item(1, [1.0, 2.0, 1.0], [2.0, 3.0, 2.0]);
    assert_eq!(BVHNode::pair_on_axis(a, b, 0), (b, a));
    assert_eq!(BVHNode::pair_on_axis(a, b, 1), (a, b));
    assert_eq!(BVHNode::pair_on_axis(a, b, 2), (b, a));
    assert_eq!(BVHNode::pair_on_axis(b, a, 2), (a, b));
    assert!(b.before(&a, 0));
    assert!(!a.before(&b, 0));
    assert!(!a.before(&b, 2));
}

#[test]
fn ordering_on_an_axis_sorts_the_range_and_keeps_its_objects() {
    let list = vec![
        item(0, [9.0, 9.0, 9.0], [9.5, 9.5, 9.5]),
        item(1, [5.0, 0.0, 3.0], [6.0, 1.0, 4.0]),
        item(2, [1.0, 2.0, 2.0], [2.0, 3.0, 3.0]),
        item(3, [3.0, 1.0, 1.0], [4.0, 2.0, 2.0]),
        item(4, [-1.0, 5.0, 0.0], [0.0, 6.0, 1.0]),
        item(5, [0.0, 0.0, 0.0], [0.5, 0.5, 0.5]),
    ];
    let on_x: Vec<usize> = BVHNode::order_on_axis(&list, 1, 5, 0).iter().map(|i| i.object).collect();
    assert_eq!(on_x, vec![4, 2, 3, 1]);
    let on_y: Vec<usize> = BVHNode::order_on_axis(&list, 1, 5, 1).iter().map(|i| i.object).collect();
    assert_eq!(on_y, vec![1, 3, 2, 4]);
    let on_z: Vec<usize> = BVHNode::order_on_axis(&list, 0, 6, 2).iter().map(|i| i.object).collect();
    assert_eq!(on_z, vec![4, 5, 3, 2, 1, 0]);
    assert!(BVHNode::order_on_axis(&list, 3, 3, 0).is_empty());
}

#[test]
fn ordering_puts_negative_zero_before_zero() {
    let list = vec![item(0, [0.0, 0.0, 0.0], [1.0, 1.0, 1.0]), item(1, [-0.0, 0.0, 0.0], [1.0, 1.0, 1.0])];
    let on_x: Vec<usize> = BVHNode::order_on_axis(&list, 0, 2, 0).iter().map(|i| i.object).collect();
    assert_eq!(on_x, vec![1, 0]);
}

#[test]
fn a_hierarchy_holds_every_object_once_and_has_the_shape() {
    let mut rng = Lcg(5);
    for n in 1..40usize {
        let shapes = random_scene(&mut rng, n);
        let world = collect(&shapes);
        let node = world.as_bvh().unwrap();
        let mut held: Vec<usize> = check_shape(&node, n).iter().map(|i| i.object).collect();
        held.sort();
        assert_eq!(held, (0..n).collect::<Vec<usize>>());
        assert_eq!(node.bbox, *world.bounding_box());
    }
}

#[test]
fn a_hierarchy_over_a_range_holds_the_objects_of_the_range() {
    let mut rng = Lcg(11);
    let shapes = random_scene(&mut rng, 20);
    let world = collect(&shapes);
    let node = BVHNode::from_object_range(world.objects(), 4, 13);
    let mut held: Vec<usize> = check_shape(&node, 9).iter().map(|i| i.object).collect();
    held.sort();
    assert_eq!(held, (4..13).collect::<Vec<usize>>());
    let mut all = Vec::new();
    leaves(&node.left, &mut all);
    leaves(&node.right, &mut all);
    assert!(all.iter().all(|i| (4..13).contains(&i.object)));
}

#[test]
fn the_box_of_the_hierarchy_is_the_box_of_the_collection() {
    let mut rng = Lcg(77);
    for n in 1..25usize {
        let shapes = random_scene(&mut rng, n);
        let world = collect(&shapes);
        for _ in 0..5 {
            let node = world.as_bvh().unwrap();
            assert_eq!(*node.bounding_box(), *world.bounding_box());
        }
        assert_eq!(world.objects().len(), n);
    }
}

#[test]
fn the_collection_numbers_its_objects_and_keeps_its_lights() {
    let mut world = ObjectCollection::new();
    assert!(world.objects().is_empty());
    assert!(world.lights().is_empty());
    assert_eq!(*world.bounding_box(), Aabb::empty());
    assert!(world.as_bvh().is_none());
    let a = Aabb::from_points(v([0.0, 0.0, 0.0]), v([1.0, 1.0, 1.0]));
    let b = Aabb::from_points(v([2.0, -1.0, 0.0]), v([3.0, 0.0, 1.0]));
    let c = Aabb::from_points(v([-4.0, 0.0, 5.0]), v([-3.0, 1.0, 6.0]));
    world.add(a);
    world.add_light(b);
    world.add(c);
    world.add_light(a);
    assert_eq!(
        *world.objects(),
        vec![
            Item { object: 0, bbox: a },
            Item { object: 1, bbox: b },
            Item { object: 2, bbox: c },
            Item { object: 3, bbox: a },
        ]
    );
    assert_eq!(*world.lights(), vec![1, 3]);
    assert_eq!(
        *world.bounding_box(),
        Aabb::from_points(v([-4.0, -1.0, 0.0]), v([3.0, 1.0, 6.0]))
    );
    assert!(world.as_bvh().is_some());
}

#[test]
fn the_scan_keeps_the_nearest_hit_and_the_first_among_equals() {
    let mut world = ObjectCollection::new();
    for _ in 0..5 {
        world.add(Aabb::empty());
    }
    let at = |t: f32, number: usize| {
        Some(HitRecord::new(s(-1.0), v([0.0; 3]), v([0.0, 0.0, 1.0]), s(t), number, s(0.0), s(0.0)))
    };
    let window = iv(0.001, f32::MAX);
    let answers = [at(5.0, 0), None, at(2.0, 2), at(2.0, 3), at(7.0, 4)];
    let found = world.hit(&|i: usize, _w: &Interval| answers[i], &window);
    assert_eq!(found, at(2.0, 2));
    let none = world.hit(&|_i: usize, _w: &Interval| None, &window);
    assert_eq!(none, None);
    let zeros = [at(0.0, 0), at(-0.0, 1), None, None, None];
    assert_eq!(world.hit(&|i: usize, _w: &Interval| zeros[i], &window), at(0.0, 0));
}

#[test]
fn the_scan_puts_a_distance_that_is_no_number_last() {
    let at = |t: f32, number: usize| {
        Some(HitRecord::new(s(-1.0), v([0.0; 3]), v([0.0, 0.0, 1.0]), s(t), number, s(0.0), s(0.0)))
    };
    assert_eq!(ObjectCollection::prefer(at(f32::NAN, 0), at(3.0, 1)), at(3.0, 1));
    assert_eq!(ObjectCollection::prefer(at(3.0, 0), at(f32::NAN, 1)), at(3.0, 0));
    assert_eq!(ObjectCollection::prefer(at(f32::NAN, 0), at(f32::NAN, 1)), at(f32::NAN, 0));
    assert_eq!(ObjectCollection::prefer(None, at(f32::NAN, 1)), at(f32::NAN, 1));
    assert_eq!(ObjectCollection::prefer(at(3.0, 0), None), at(3.0, 0));
    assert_eq!(ObjectCollection::prefer(at(3.0, 0), at(3.0, 1)), at(3.0, 0));
    assert_eq!(ObjectCollection::prefer(at(3.0, 0), at(2.5, 1)), at(2.5, 1));
    assert_eq!(ObjectCollection::prefer(None, None), None);
}

#[test]
fn the_search_asks_the_right_side_only_up_to_the_hit_on_the_left() {
    let a = item(0, [0.0, 0.0, 0.0], [1.0, 1.0, 1.0]);
    let b = item(1, [0.0, 0.0, 0.0], [1.0, 1.0, 1.0]);
    let node = BVHNode {
        left: Child::Leaf(a),
        right: Child::Leaf(b),
        bbox: Aabb::from_boxes(&a.bbox, &b.bbox),
    };
    let open = Crossing { inverse_direction: s(1.0), at_start: s(-100.0), at_end: s(100.0) };
    let at = |t: f32, number: usize| {
        Some(HitRecord::new(s(-1.0), v([0.0; 3]), v([0.0, 0.0, 1.0]), s(t), number, s(0.0), s(0.0)))
    };
    let asked = std::cell::RefCell::new(Vec::new());
    let objects = |i: usize, w: &Interval| {
        asked.borrow_mut().push((i, *w));
        if i == 0 {
            at(5.0, 0)
        } else if w.contains(s(3.0)) {
            at(3.0, 1)
        } else {
            None
        }
    };
    let found = node.hit(&|_b: &Aabb| [open, open, open], &objects, &iv(0.001, f32::MAX));
    assert_eq!(found, at(3.0, 1));
    assert_eq!(*asked.borrow(), vec![(0, iv(0.001, f32::MAX)), (1, iv(0.001, 5.0))]);
}

#[test]
fn the_search_keeps_the_hit_on_the_left_when_the_right_has_none() {
    let a = item(0, [0.0, 0.0, 0.0], [1.0, 1.0, 1.0]);
    let b = item(1, [0.0, 0.0, 0.0], [1.0, 1.0, 1.0]);
    let node = BVHNode {
        left: Child::Leaf(a),
        right: Child::Leaf(b),
        bbox: Aabb::from_boxes(&a.bbox, &b.bbox),
    };
    let open = Crossing { inverse_direction: s(1.0), at_start: s(-100.0), at_end: s(100.0) };
    let at = |t: f32, number: usize| {
        Some(HitRecord::new(s(-1.0), v([0.0; 3]), v([0.0, 0.0, 1.0]), s(t), number, s(0.0), s(0.0)))
    };
    let objects = |i: usize, w: &Interval| {
        let t = if i == 0 { 2.0 } else { 6.0 };
        if w.contains(s(t)) {
            at(t, i)
        } else {
            None
        }
    };
    let found = node.hit(&|_b: &Aabb| [open, open, open], &objects, &iv(0.001, f32::MAX));
    assert_eq!(found, at(2.0, 0));
}

#[test]
fn the_search_skips_what_lies_below_a_box_that_the_ray_misses() {
    let a = item(0, [0.0, 0.0, 0.0], [1.0, 1.0, 1.0]);
    let node = BVHNode::new(&vec![a]);
    let shut = Crossing { inverse_direction: s(1.0), at_start: s(20.0), at_end: s(10.0) };
    let asked = std::cell::Cell::new(0);
    let objects = |_i: usize, _w: &Interval| {
        asked.set(asked.get() + 1);
        Some(HitRecord::new(s(-1.0), v([0.0; 3]), v([0.0, 0.0, 1.0]), s(1.0), 0, s(0.0), s(0.0)))
    };
    let found = node.hit(&|_b: &Aabb| [shut, shut, shut], &objects, &iv(0.001, f32::MAX));
    assert_eq!(found, None);
    assert_eq!(asked.get(), 0);
}

#[test]
fn the_search_finds_what_the_scan_finds() {
    let mut rng = Lcg(2024);
    let mut hits = 0;
    let mut misses = 0;
    for round in 0..60 {
        let n = 1 + (round % 30);
        let shapes = random_scene(&mut rng, n);
        let world = collect(&shapes);
        let node = world.as_bvh().unwrap();
        for _ in 0..400 {
            let origin = rng.point(10.0);
            let target = rng.point(6.0);
            let direction = sub(target, origin);
            let end = if rng.next() < 0.7 { f32::MAX } else { rng.within(0.0, 3.0) };
            let window = iv(0.001, end);
            let objects = |i: usize, w: &Interval| shapes[i].hit(i, origin, direction, w);
            let slabs = |b: &Aabb| crossings(b, origin, direction);
            let searched = node.hit(&slabs, &objects, &window);
            let scanned = world.hit(&objects, &window);
            match (searched, scanned) {
                (None, None) => misses += 1,
                (Some(a), Some(b)) => {
                    assert_eq!(f(a.t), f(b.t));
                    assert!(window.contains(a.t));
                    if a.material == b.material {
                        assert_eq!(a, b);
                    }
                    hits += 1;
                }
                _ => panic!("one search found a hit and the other did not"),
            }
        }
    }
    assert!(hits > 2000, "{} hits", hits);
    assert!(misses > 2000, "{} misses", misses);
}

use pathtracer::aabb::{surrounding_box, Aabb, Slab};
use pathtracer::bvh::{closer, Bounded, BuildError, BvhNode};
use pathtracer::hitable::{HitRecord, HitableList, PlaneCrossing, Roots, Sphere, Surface, XYRect};
use pathtracer::vec3::{defined, vec3, Scalar, Vec3};

fn code(x: f64) -> Scalar {
    let b = (x + 0.0).to_bits() as i64;
    b ^ ((((b >> 63) as u64) >> 1) as i64)
}

fn number(k: Scalar) -> f64 {
    f64::from_bits((k ^ ((((k >> 63) as u64) >> 1) as i64)) as u64)
}

fn point(p: [f64; 3]) -> Vec3 {
    vec3(code(p[0]), code(p[1]), code(p[2]))
}

fn record(t: f64, material: usize) -> HitRecord {
    HitRecord { t: code(t), material: Some(material), ..HitRecord::default() }
}

/// A small generator, so that every run sees the same scenes.
struct Lcg(u64);

impl Lcg {
    fn next(&mut self) -> f64 {
        self.0 = self.0.wrapping_mul(6364136223846793005).wrapping_add(1442695040888963407);
        ((self.0 >> 11) as f64) / ((1u64 << 53) as f64)
    }

    fn between(&mut self, lo: f64, hi: f64) -> f64 {
        lo + (hi - lo) * self.next()
    }
}

#[derive(Clone, Copy)]
enum Shape {
    Ball { center: [f64; 3], radius: f64, material: usize },
    Plate { x0: f64, x1: f64, y0: f64, y1: f64, k: f64, material: usize },
}

fn box_of(s: &Shape) -> Aabb {
    match *s {
        Shape::Ball { center: c, radius: r, .. } => {
            Aabb::new(point([c[0] - r, c[1] - r, c[2] - r]), point([c[0] + r, c[1] + r, c[2] + r]))
        }
        Shape::Plate { x0, x1, y0, y1, k, .. } => {
            Aabb::new(point([x0, y0, k - 0.0001]), point([x1, y1, k + 0.0001]))
        }
    }
}

fn hit_shape(s: &Shape, o: [f64; 3], d: [f64; 3], lo: Scalar, hi: Scalar) -> Option<HitRecord> {
    match *s {
        Shape::Ball { center: c, radius: r, material } => {
            let oc = [o[0] - c[0], o[1] - c[1], o[2] - c[2]];
            let a = d[0] * d[0] + d[1] * d[1] + d[2] * d[2];
            let b = oc[0] * d[0] + oc[1] * d[1] + oc[2] * d[2];
            let cc = oc[0] * oc[0] + oc[1] * oc[1] + oc[2] * oc[2] - r * r;
            let disc = b * b - a * cc;
            let roots = Roots {
                discriminant: defined(code(disc)),
                near: defined(code((-b - disc.sqrt()) / a)),
                far: defined(code((-b + disc.sqrt()) / a)),
            };
            let surface = |t: Scalar| {
                let t = number(t);
                let p = [o[0] + t * d[0], o[1] + t * d[1], o[2] + t * d[2]];
                Surface {
                    u: code(0.0),
                    v: code(0.0),
                    p: point(p),
                    normal: point([(p[0] - c[0]) / r, (p[1] - c[1]) / r, (p[2] - c[2]) / r]),
                }
            };
            Sphere::new(point(c), code(r), material).hit(&roots, &surface, lo, hi)
        }
        Shape::Plate { x0, x1, y0, y1, k, material } => {
            let t = (k - o[2]) / d[2];
            let x = o[0] + t * d[0];
            let y = o[1] + t * d[1];
            let c = PlaneCrossing {
                t: defined(code(t)),
                a: defined(code(x)),
                b: defined(code(y)),
                u: code((x - x0) / (x1 - x0)),
                v: code((y - y0) / (y1 - y0)),
                p: point([x, y, o[2] + t * d[2]]),
            };
            XYRect::new(code(x0), code(x1), code(y0), code(y1), code(k), material).hit(&c, lo, hi)
        }
    }
}

fn slab_of(o: [f64; 3], d: [f64; 3]) -> impl Fn(usize, Scalar, Scalar) -> Slab {
    move |axis: usize, lo: Scalar, hi: Scalar| {
        let inv_d = 1.0 / d[axis];
        Slab {
            inv_d: defined(code(inv_d)),
            t0: defined(code((number(lo) - o[axis]) * inv_d)),
            t1: defined(code((number(hi) - o[axis]) * inv_d)),
        }
    }
}

fn scene(rng: &mut Lcg, n: usize) -> Vec<Shape> {
    let mut shapes = Vec::new();
    for material in 0..n {
        if rng.next() < 0.6 {
            shapes.push(Shape::Ball {
                center: [
                    rng.between(-10.0, 10.0),
                    rng.between(-10.0, 10.0),
                    rng.between(-10.0, 10.0),
                ],
                radius: rng.between(0.2, 2.5),
                material,
            });
        } else {
            let x0 = rng.between(-10.0, 8.0);
            let y0 = rng.between(-10.0, 8.0);
            shapes.push(Shape::Plate {
                x0,
                x1: x0 + rng.between(0.5, 6.0),
                y0,
                y1: y0 + rng.between(0.5, 6.0),
                k: rng.between(-10.0, 10.0),
                material,
            });
        }
    }
    shapes
}

fn entries(shapes: &[Shape]) -> Vec<Bounded<usize>> {
    shapes.iter().enumerate().map(|(i, s)| Bounded { item: i, boxy: box_of(s) }).collect()
}

/// The leaves of a tree from left to right, after checking its shape.
fn leaves(node: &BvhNode<usize>, out: &mut Vec<(usize, Aabb)>) {
    match (&node.contents, &node.left, &node.right) {
        (Some(c), None, None) => out.push((*c, node.boxy)),
        (None, Some(l), Some(r)) => {
            assert_eq!(node.boxy, surrounding_box(l.boxy, r.boxy));
            let before = out.len();
            leaves(l, out);
            let middle = out.len();
            leaves(r, out);
            assert_eq!(middle - before, (out.len() - before) / 2);
            let separated = (0..3).any(|axis| {
                let low = out[before..middle].iter().map(|e| e.1.min.index(axis)).max().unwrap();
                let high = out[middle..].iter().map(|e| e.1.min.index(axis)).min().unwrap();
                low <= high
            });
            assert!(separated);
        }
        _ => panic!("a node is neither a leaf nor an inner node"),
    }
}

#[test]
fn tree_over_one_primitive_is_a_leaf() {
    let b = Aabb::new(point([0.0; 3]), point([1.0; 3]));
    let mut l = vec![Bounded { item: 42usize, boxy: b }];
    let tree = BvhNode::new(&mut l);
    assert_eq!(tree.contents, Some(42));
    assert!(tree.left.is_none() && tree.right.is_none());
    assert_eq!(tree.boxy, b);
    assert_eq!(tree.bounding_box(), Some(b));
}

#[test]
fn tree_over_two_primitives_has_two_leaves() {
    let a = Aabb::new(point([0.0; 3]), point([1.0; 3]));
    let b = Aabb::new(point([5.0; 3]), point([6.0; 3]));
    let mut l = vec![Bounded { item: 1usize, boxy: b }, Bounded { item: 0usize, boxy: a }];
    let tree = BvhNode::new(&mut l);
    assert_eq!(tree.contents, None);
    assert_eq!(tree.boxy, Aabb::new(point([0.0; 3]), point([6.0; 3])));
    // Whatever the axis, the box that begins first goes to the left.
    assert_eq!(tree.left.as_ref().unwrap().contents, Some(0));
    assert_eq!(tree.right.as_ref().unwrap().contents, Some(1));
    assert_eq!((l[0].item, l[1].item), (0, 1));
}

#[test]
fn tree_holds_every_primitive_once() {
    let mut rng = Lcg(7);
    for n in [1usize, 2, 3, 4, 5, 8, 13, 64, 100] {
        let shapes = scene(&mut rng, n);
        let mut l = entries(&shapes);
        let tree = BvhNode::new(&mut l);
        let mut found = Vec::new();
        leaves(&tree, &mut found);
        assert_eq!(found.len(), n);
        // The tree lists the primitives in the order in which the call left them.
        for (leaf, entry) in found.iter().zip(l.iter()) {
            assert_eq!(leaf.0, entry.item);
            assert_eq!(leaf.1, entry.boxy);
            assert_eq!(leaf.1, box_of(&shapes[leaf.0]));
        }
        let mut ids: Vec<usize> = found.iter().map(|e| e.0).collect();
        ids.sort();
        assert_eq!(ids, (0..n).collect::<Vec<usize>>());
    }
}

#[test]
fn tree_root_box_encloses_every_primitive() {
    let mut rng = Lcg(11);
    let shapes = scene(&mut rng, 50);
    let mut l = entries(&shapes);
    let tree = BvhNode::new(&mut l);
    for s in &shapes {
        let b = box_of(s);
        assert_eq!(surrounding_box(tree.boxy, b), tree.boxy);
    }
}

#[test]
fn closer_prefers_the_smaller_parameter() {
    assert_eq!(closer(Some(record(1.0, 1)), Some(record(2.0, 2))), Some(record(1.0, 1)));
    assert_eq!(closer(Some(record(3.0, 1)), Some(record(2.0, 2))), Some(record(2.0, 2)));
    assert_eq!(closer(Some(record(2.0, 1)), Some(record(2.0, 2))), Some(record(2.0, 2)));
    assert_eq!(closer(Some(record(1.0, 1)), None), Some(record(1.0, 1)));
    assert_eq!(closer(None, Some(record(2.0, 2))), Some(record(2.0, 2)));
    assert_eq!(closer(None, None), None);
}

#[test]
fn traversal_skips_a_subtree_whose_box_is_missed() {
    let a = Aabb::new(point([-1.0, -1.0, -1.0]), point([1.0, 1.0, 1.0]));
    let b = Aabb::new(point([9.0, 9.0, 9.0]), point([10.0, 10.0, 10.0]));
    let mut l = vec![Bounded { item: 0usize, boxy: a }, Bounded { item: 1usize, boxy: b }];
    let tree = BvhNode::new(&mut l);
    let slab = slab_of([0.0, 0.0, 5.0], [0.0, 0.0, -1.0]);
    // The probe claims a hit of every primitive; only the one whose box the
    // ray passes is asked.
    let probe = |i: &usize, _lo: Scalar, _hi: Scalar| {
        assert_eq!(*i, 0);
        Some(record(4.0, *i))
    };
    assert_eq!(tree.hit(&slab, &probe, code(0.001), code(f64::INFINITY)), Some(record(4.0, 0)));
    let away = slab_of([0.0, 0.0, 5.0], [0.0, 0.0, 1.0]);
    let never = |_i: &usize, _lo: Scalar, _hi: Scalar| -> Option<HitRecord> {
        panic!("no primitive is asked")
    };
    assert_eq!(tree.hit(&away, &never, code(0.001), code(f64::INFINITY)), None);
}

#[test]
fn traversal_and_linear_scan_agree_on_random_scenes() {
    let mut rng = Lcg(2024);
    let mut hits = 0;
    for round in 0..40 {
        let shapes = scene(&mut rng, 1 + round * 3);
        let mut l = entries(&shapes);
        let tree = BvhNode::new(&mut l);
        let list = HitableList::new((0..shapes.len()).collect::<Vec<usize>>());
        for _ in 0..200 {
            let o = [rng.between(-20.0, 20.0), rng.between(-20.0, 20.0), rng.between(-20.0, 20.0)];
            let target =
                [rng.between(-10.0, 10.0), rng.between(-10.0, 10.0), rng.between(-10.0, 10.0)];
            let d = [target[0] - o[0], target[1] - o[1], target[2] - o[2]];
            let probe = |i: &usize, lo: Scalar, hi: Scalar| hit_shape(&shapes[*i], o, d, lo, hi);
            let slab = slab_of(o, d);
            let by_tree = tree.hit(&slab, &probe, code(0.001), code(f64::INFINITY));
            let by_scan = list.hit(&probe, code(0.001), code(f64::INFINITY));
            assert_eq!(by_tree, by_scan);
            if let Some(rec) = by_scan {
                hits += 1;
                assert!(rec.material.is_some());
                for s in &shapes {
                    if let Some(other) = hit_shape(s, o, d, code(0.001), code(f64::INFINITY)) {
                        assert!(rec.t <= other.t);
                    }
                }
            }
        }
    }
    assert!(hits > 1000);
}

#[test]
fn traversal_and_scan_may_differ_in_material_on_a_tie() {
    // Two plates in one plane: the ray crosses both at the same parameter.
    let shapes = vec![
        Shape::Plate { x0: -2.0, x1: 2.0, y0: -2.0, y1: 2.0, k: 0.0, material: 0 },
        Shape::Plate { x0: -1.0, x1: 1.0, y0: -1.0, y1: 1.0, k: 0.0, material: 1 },
    ];
    let o = [0.0, 0.0, 5.0];
    let d = [0.0, 0.0, -1.0];
    let probe = |i: &usize, lo: Scalar, hi: Scalar| hit_shape(&shapes[*i], o, d, lo, hi);
    let mut l = entries(&shapes);
    let tree = BvhNode::new(&mut l);
    let list = HitableList::new(vec![0usize, 1]);
    let by_tree = tree.hit(&slab_of(o, d), &probe, code(0.001), code(f64::INFINITY)).unwrap();
    let by_scan = list.hit(&probe, code(0.001), code(f64::INFINITY)).unwrap();
    assert_eq!(number(by_tree.t), 5.0);
    assert_eq!(by_tree.t, by_scan.t);
    // The scan keeps the first of two equal hits. The tree keeps the one
    // on its right, and which plate stands there is for the build to say.
    assert_eq!(by_scan.material, Some(0));
    assert!(by_tree.material == Some(0) || by_tree.material == Some(1));
    let right = tree.right.as_ref().unwrap().contents;
    assert_eq!(by_tree.material, right);
}

#[test]
fn no_tree_over_nothing() {
    let none: Vec<(usize, Option<Aabb>)> = vec![];
    assert_eq!(BvhNode::try_new(&none).err(), Some(BuildError::Empty));
}

#[test]
fn no_tree_over_an_unbounded_primitive() {
    let b = Aabb::new(point([0.0; 3]), point([1.0; 3]));
    for l in [
        vec![(0usize, None)],
        vec![(0, Some(b)), (1, None)],
        vec![(0, None), (1, Some(b)), (2, Some(b))],
    ] {
        assert_eq!(BvhNode::try_new(&l).err(), Some(BuildError::Unbounded));
    }
}

#[test]
fn checked_build_holds_every_primitive() {
    let mut rng = Lcg(3);
    let shapes = scene(&mut rng, 17);
    let l: Vec<(usize, Option<Aabb>)> =
        shapes.iter().enumerate().map(|(i, s)| (i, Some(box_of(s)))).collect();
    let tree = BvhNode::try_new(&l).unwrap();
    let mut found = Vec::new();
    leaves(&tree, &mut found);
    let mut ids: Vec<usize> = found.iter().map(|e| e.0).collect();
    ids.sort();
    assert_eq!(ids, (0..17).collect::<Vec<usize>>());
    for leaf in &found {
        assert_eq!(leaf.1, box_of(&shapes[leaf.0]));
    }
}

use hw_raytracer::bound::{union, Bound3};
use hw_raytracer::bvh::{
    get_intersection, get_sample, recursive_build, BVHAccel, BVHBuildNode, BVHPrimitiveInfo,
    SplitMethod,
};
use hw_raytracer::fixed::{Fixed, SCALE};
use hw_raytracer::intersection::Intersection;
use hw_raytracer::material::Material;
use hw_raytracer::objects::sphere::Sphere;
use hw_raytracer::objects::triangle::Triangle;
use hw_raytracer::objects::{Object, SampleDraws};
use hw_raytracer::ray::Ray;
use hw_raytracer::render::trace;
use hw_raytracer::vector::Vector3;

fn value(f: Fixed) -> f64 {
    f.raw as f64 / 4294967296.0
}

struct Lcg(u64);

impl Lcg {
    fn next(&mut self) -> u32 {
        self.0 = self.0.wrapping_mul(6364136223846793005).wrapping_add(1442695040888963407);
        (self.0 >> 32) as u32
    }

    fn coordinate(&mut self, span: i64) -> Fixed {
        Fixed::from_raw((self.next() as i64 % (2 * span * 1024) - span * 1024) * (SCALE / 1024))
    }

    fn point(&mut self, span: i64) -> Vector3 {
        Vector3::new(self.coordinate(span), self.coordinate(span), self.coordinate(span))
    }
}

fn info(index: usize, at: (i32, i32, i32), area: i32) -> BVHPrimitiveInfo {
    BVHPrimitiveInfo {
        index,
        bounds: Bound3::new(
            Vector3::from_ints(at.0 - 1, at.1 - 1, at.2 - 1),
            Vector3::from_ints(at.0 + 1, at.1 + 1, at.2 + 1),
        ),
        area: Fixed::from_int(area),
    }
}

fn leaves(node: &BVHBuildNode, out: &mut Vec<usize>) {
    match node {
        BVHBuildNode::Leaf { obj, .. } => out.push(*obj),
        BVHBuildNode::Internal { left, right, .. } => {
            leaves(left, out);
            leaves(right, out);
        }
    }
}

fn check_nodes(node: &BVHBuildNode, infos: &Vec<BVHPrimitiveInfo>) {
    match node {
        BVHBuildNode::Leaf { bounds, area, obj } => {
            assert_eq!(*bounds, infos[*obj].bounds);
            assert_eq!(*area, infos[*obj].area);
        }
        BVHBuildNode::Internal { bounds, area, left, right } => {
            assert_eq!(*bounds, union(&left.get_bounds(), &right.get_bounds()));
            assert_eq!(*area, left.get_area().saturating_add(right.get_area()));
            let mut l = vec![];
            let mut r = vec![];
            leaves(left, &mut l);
            leaves(right, &mut r);
            assert_eq!(l.len(), (l.len() + r.len()) / 2);
            check_nodes(left, infos);
            check_nodes(right, infos);
        }
    }
}

fn triangle_at(p: Vector3, size: i32) -> Triangle {
    Triangle::new(
        [
            p,
            p.saturating_add(Vector3::from_ints(0, 0, size)),
            p.saturating_add(Vector3::from_ints(size, 0, 0)),
        ],
        Some(Material::default()),
    )
    .expect("the triangle has area")
}

#[test]
fn no_primitives_give_no_tree() {
    let none: Vec<Triangle> = vec![];
    let accel = BVHAccel::new(&none, 1, SplitMethod::NAIVE);
    assert!(accel.root.is_none());
    let ray = Ray::new(Vector3::zero(), Vector3::from_ints(0, 0, 1), Fixed::zero());
    assert!(!accel.intersect(&none, &ray).happened);
    let draws = SampleDraws { pick: Fixed::zero(), u1: Fixed::zero(), u2: Fixed::zero() };
    assert_eq!(accel.sample_at(&none, &draws).1, Fixed::zero());
}

#[test]
fn one_primitive_becomes_a_leaf() {
    let infos = vec![info(7, (1, 2, 3), 5)];
    match recursive_build(infos.clone()) {
        BVHBuildNode::Leaf { bounds, area, obj } => {
            assert_eq!(obj, 7);
            assert_eq!(bounds, infos[0].bounds);
            assert_eq!(area, Fixed::from_int(5));
        }
        BVHBuildNode::Internal { .. } => panic!("a leaf was expected"),
    }
}

#[test]
fn two_primitives_become_one_leaf_on_each_side() {
    let infos = vec![info(0, (9, 0, 0), 2), info(1, (-9, 0, 0), 3)];
    match recursive_build(infos.clone()) {
        BVHBuildNode::Internal { bounds, area, left, right } => {
            assert_eq!(bounds, union(&infos[0].bounds, &infos[1].bounds));
            assert_eq!(area, Fixed::from_int(5));
            match (*left, *right) {
                (
                    BVHBuildNode::Leaf { obj: first, .. },
                    BVHBuildNode::Leaf { obj: second, .. },
                ) => {
                    assert_eq!(first, 0);
                    assert_eq!(second, 1);
                }
                _ => panic!("two leaves were expected"),
            }
        }
        BVHBuildNode::Leaf { .. } => panic!("an inner node was expected"),
    }
}

#[test]
fn three_or_more_are_split_at_the_median_of_the_longest_axis() {
    // The centroids spread most along the second axis.
    let infos = vec![
        info(0, (0, 50, 1), 1),
        info(1, (1, -20, 0), 1),
        info(2, (2, 30, 2), 1),
        info(3, (0, -40, 1), 1),
        info(4, (1, 10, 0), 1),
    ];
    let root = recursive_build(infos.clone());
    check_nodes(&root, &infos);
    assert_eq!(root.get_area(), Fixed::from_int(5));
    match &root {
        BVHBuildNode::Internal { left, right, .. } => {
            let mut l = vec![];
            let mut r = vec![];
            leaves(left, &mut l);
            leaves(right, &mut r);
            assert_eq!(l, vec![3, 1]);
            l.sort();
            r.sort();
            assert_eq!(l, vec![1, 3]);
            assert_eq!(r, vec![0, 2, 4]);
        }
        BVHBuildNode::Leaf { .. } => panic!("an inner node was expected"),
    }
    let mut all = vec![];
    leaves(&root, &mut all);
    all.sort();
    assert_eq!(all, vec![0, 1, 2, 3, 4]);
}

#[test]
fn equal_centroids_keep_their_order() {
    let infos = vec![info(0, (5, 5, 5), 1), info(1, (5, 5, 5), 1), info(2, (5, 5, 5), 1), info(3, (5, 5, 5), 1)];
    let root = recursive_build(infos.clone());
    let mut all = vec![];
    leaves(&root, &mut all);
    assert_eq!(all, vec![0, 1, 2, 3]);
}

#[test]
fn every_primitive_stands_under_one_leaf() {
    let mut rng = Lcg(5);
    let mut n = 1;
    while n <= 40 {
        let mut infos = vec![];
        let mut k = 0;
        while k < n {
            let p = rng.point(100);
            infos.push(BVHPrimitiveInfo {
                index: k,
                bounds: Bound3::new(p, p.saturating_add(Vector3::from_ints(1, 2, 3))),
                area: Fixed::from_int(1 + (k as i32 % 3)),
            });
            k += 1;
        }
        let root = recursive_build(infos.clone());
        check_nodes(&root, &infos);
        let mut all = vec![];
        leaves(&root, &mut all);
        all.sort();
        let expected: Vec<usize> = (0..n).collect();
        assert_eq!(all, expected);
        n += 1;
    }
}

#[test]
fn traversal_finds_what_a_scan_of_all_primitives_finds() {
    let mut rng = Lcg(2024);
    let mut scenes = 0;
    while scenes < 6 {
        let mut prims = vec![];
        let count = 1 + scenes * 39;
        let mut k = 0;
        while k < count {
            let size = 5 + (rng.next() % 40) as i32;
            prims.push(triangle_at(rng.point(200), size));
            k += 1;
        }
        let accel = BVHAccel::new(&prims, 1, SplitMethod::NAIVE);
        let mut hits = 0;
        let mut r = 0;
        while r < 400 {
            let origin = Vector3::new(rng.coordinate(200), Fixed::from_int(300), rng.coordinate(200));
            let target = prims[(rng.next() as usize) % prims.len()];
            let aim = target
                .v0
                .saturating_add(target.e1.scale(Fixed::from_ratio(1, 4)))
                .saturating_add(target.e2.scale(Fixed::from_ratio(1, 4)));
            let ray = Ray::new(origin, aim.saturating_sub(origin), Fixed::zero());
            let by_tree: Intersection = accel.intersect(&prims, &ray);
            match trace(&ray, &prims) {
                None => assert!(!by_tree.happened),
                Some(payload) => {
                    hits += 1;
                    assert!(by_tree.happened);
                    assert_eq!(by_tree.distance, payload.t_near);
                    assert_eq!(
                        prims[payload.index].get_intersection(&ray).distance,
                        payload.t_near
                    );
                }
            }
            r += 1;
        }
        assert!(hits > 300);
        scenes += 1;
    }
}

#[test]
fn traversal_returns_the_nearer_of_two_spheres() {
    let near = Sphere::new(Vector3::from_ints(0, 0, 5), Fixed::one()).expect("positive radius");
    let far = Sphere::new(Vector3::from_ints(0, 0, 9), Fixed::one()).expect("positive radius");
    let prims = vec![far, near];
    let accel = BVHAccel::new(&prims, 1, SplitMethod::SAH);
    let ray = Ray::new(Vector3::zero(), Vector3::from_ints(0, 0, 1), Fixed::zero());
    let found = accel.intersect(&prims, &ray);
    assert!(found.happened);
    assert_eq!(found.distance, Fixed::from_int(4));
    let root = accel.root.as_ref().expect("there are primitives");
    assert_eq!(get_intersection(root, &ray, &prims).distance, Fixed::from_int(4));
    let back = Ray::new(Vector3::from_ints(0, 0, 20), Vector3::from_ints(0, 0, -1), Fixed::zero());
    assert_eq!(accel.intersect(&prims, &back).distance, Fixed::from_int(10));
    let payload = trace(&back, &prims).expect("the far sphere is hit");
    assert_eq!(payload.index, 0);
    assert_eq!(payload.t_near, Fixed::from_int(10));
}

#[test]
fn sampling_reaches_every_leaf_in_proportion_to_its_area() {
    // Areas 2, 8 and 18, far apart along the first axis.
    let prims = vec![
        triangle_at(Vector3::from_ints(0, 0, 0), 2),
        triangle_at(Vector3::from_ints(100, 0, 0), 4),
        triangle_at(Vector3::from_ints(200, 0, 0), 6),
    ];
    let accel = BVHAccel::new(&prims, 1, SplitMethod::NAIVE);
    let root = accel.root.as_ref().expect("there are primitives");
    assert_eq!(root.get_area(), Fixed::from_int(28));
    let mut counts = [0; 3];
    // 4096 positions, each in the middle of its step, so that none meets a boundary.
    let steps: i64 = 4096;
    let mut k = 0;
    while k < steps {
        let draws = SampleDraws {
            pick: Fixed::from_raw(k * (SCALE / steps) + SCALE / steps / 2),
            u1: Fixed::from_ratio(1, 3),
            u2: Fixed::from_ratio(2, 3),
        };
        let (pos, pdf) = accel.sample_at(&prims, &draws);
        assert!((value(pdf) - 1.0 / 28.0).abs() < 1e-8);
        let x = value(pos.coords.x);
        let which = if x < 50.0 { 0 } else if x < 150.0 { 1 } else { 2 };
        counts[which] += 1;
        k += 1;
    }
    // 4096 * 2 / 28 = 292.6, 4096 * 10 / 28 = 1462.9
    assert_eq!(counts, [293, 1170, 2633]);
}

#[test]
fn the_position_is_handed_down_less_the_area_on_the_left() {
    let prims = vec![
        triangle_at(Vector3::from_ints(0, 0, 0), 2),
        triangle_at(Vector3::from_ints(100, 0, 0), 4),
    ];
    let accel = BVHAccel::new(&prims, 1, SplitMethod::NAIVE);
    let root = accel.root.as_ref().expect("there are primitives");
    let draws = SampleDraws { pick: Fixed::zero(), u1: Fixed::zero(), u2: Fixed::zero() };
    let (on_first, pdf) = get_sample(root, Fixed::from_ratio(3, 2), &draws, &prims);
    assert_eq!(on_first.coords, Vector3::from_ints(0, 0, 0));
    assert_eq!(pdf, Fixed::one());
    let (on_second, pdf) = get_sample(root, Fixed::from_int(2), &draws, &prims);
    assert_eq!(on_second.coords, Vector3::from_ints(100, 0, 0));
    assert_eq!(pdf, Fixed::one());
}

#[test]
fn a_random_sample_lies_on_a_primitive() {
    let prims = vec![
        triangle_at(Vector3::from_ints(0, 0, 0), 2),
        triangle_at(Vector3::from_ints(100, 0, 0), 4),
    ];
    let accel = BVHAccel::new(&prims, 1, SplitMethod::NAIVE);
    let mut k = 0;
    while k < 100 {
        let mut pos = Intersection::default();
        let mut pdf = Fixed::zero();
        accel.sample(&prims, &mut pos, &mut pdf);
        assert!((value(pdf) - 0.1).abs() < 1e-8);
        assert_eq!(pos.coords.y.raw, 0);
        let x = value(pos.coords.x);
        assert!((0.0..=2.0).contains(&x) || (100.0..=104.0).contains(&x));
        k += 1;
    }
}

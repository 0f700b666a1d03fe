use hw_raytracer::bound::{union, Bound3};
use hw_raytracer::bvh::{BVHBuildNode, BVHPrimitiveInfo, SplitMethod};
use hw_raytracer::fixed::{Fixed, SCALE};
use hw_raytracer::material::Material;
use hw_raytracer::objects::triangle::Triangle;
use hw_raytracer::ray::Ray;
use hw_raytracer::render::trace;
use hw_raytracer::sah::{recursive_build, SAHAccel};
use hw_raytracer::vector::Vector3;

struct Lcg(u64);

impl Lcg {
    fn next(&mut self) -> u32 {
        self.0 = self.0.wrapping_mul(6364136223846793005).wrapping_add(1442695040888963407);
        (self.0 >> 32) as u32
    }

    fn coordinate(&mut self, span: i64) -> Fixed {
        Fixed::from_raw((self.next() as i64 % (2 * span * 1024) - span * 1024) * (SCALE / 1024))
    }

    fn point(&mut self, span: i64) -> Vector3 {
        Vector3::new(self.coordinate(span), self.coordinate(span), self.coordinate(span))
    }
}

fn info(index: usize, x: i32) -> BVHPrimitiveInfo {
    BVHPrimitiveInfo {
        index,
        bounds: Bound3::new(Vector3::from_ints(x - 1, -1, -1), Vector3::from_ints(x + 1, 1, 1)),
        area: Fixed::one(),
    }
}

fn leaves(node: &BVHBuildNode, out: &mut Vec<usize>) {
    match node {
        BVHBuildNode::Leaf { obj, .. } => out.push(*obj),
        BVHBuildNode::Internal { left, right, .. } => {
            leaves(left, out);
            leaves(right, out);
        }
    }
}

fn sides(node: &BVHBuildNode) -> (Vec<usize>, Vec<usize>) {
    match node {
        BVHBuildNode::Internal { left, right, .. } => {
            let mut l = vec![];
            let mut r = vec![];
            leaves(left, &mut l);
            leaves(right, &mut r);
            (l, r)
        }
        BVHBuildNode::Leaf { .. } => panic!("an inner node was expected"),
    }
}

fn check_nodes(node: &BVHBuildNode) {
    if let BVHBuildNode::Internal { bounds, area, left, right } = node {
        assert_eq!(*bounds, union(&left.get_bounds(), &right.get_bounds()));
        assert_eq!(*area, left.get_area().saturating_add(right.get_area()));
        check_nodes(left);
        check_nodes(right);
    }
}

#[test]
fn two_clusters_are_divided_between_them() {
    // Buckets 0, 0, 4, 4 along the first axis: every boundary costs the same and the first wins.
    let infos = vec![info(0, 10), info(1, 0), info(2, 9), info(3, 1)];
    let root = recursive_build(infos);
    check_nodes(&root);
    assert_eq!(sides(&root), (vec![1, 3], vec![0, 2]));
}

#[test]
fn the_cheapest_boundary_is_chosen() {
    // One primitive in each of the five buckets: dividing before the third bucket costs
    // 5 + 2 * 3 * 2 + 2 * 2 * 3 = 29, before the second or fourth 33, before the fifth 45.
    let infos = vec![info(0, 0), info(1, 3), info(2, 6), info(3, 9), info(4, 12)];
    let root = recursive_build(infos);
    check_nodes(&root);
    assert_eq!(sides(&root), (vec![0, 1], vec![2, 3, 4]));
}

#[test]
fn primitives_in_one_bucket_are_halved() {
    let infos = vec![info(0, 5), info(1, 5), info(2, 5), info(3, 5), info(4, 5)];
    let root = recursive_build(infos);
    check_nodes(&root);
    assert_eq!(sides(&root), (vec![0, 1], vec![2, 3, 4]));
    let mut all = vec![];
    leaves(&root, &mut all);
    assert_eq!(all, vec![0, 1, 2, 3, 4]);
}

#[test]
fn one_and_two_primitives_need_no_buckets() {
    assert!(matches!(recursive_build(vec![info(3, 0)]), BVHBuildNode::Leaf { obj: 3, .. }));
    assert_eq!(sides(&recursive_build(vec![info(0, 9), info(1, 0)])), (vec![0], vec![1]));
}

#[test]
fn the_heuristic_tree_finds_what_a_scan_finds() {
    let mut rng = Lcg(77);
    let mut prims = vec![];
    let mut k = 0;
    while k < 150 {
        let p = rng.point(200);
        let size = 5 + (rng.next() % 40) as i32;
        prims.push(
            Triangle::new(
                [
                    p,
                    p.saturating_add(Vector3::from_ints(0, 0, size)),
                    p.saturating_add(Vector3::from_ints(size, 0, 0)),
                ],
                Some(Material::default()),
            )
            .expect("the triangle has area"),
        );
        k += 1;
    }
    let accel = SAHAccel::new(&prims, 1, SplitMethod::SAH);
    let root = accel.root.as_ref().expect("there are primitives");
    check_nodes(root);
    let mut all = vec![];
    leaves(root, &mut all);
    all.sort();
    let expected: Vec<usize> = (0..150).collect();
    assert_eq!(all, expected);
    let mut hits = 0;
    let mut r = 0;
    while r < 500 {
        let origin = Vector3::new(rng.coordinate(200), Fixed::from_int(300), rng.coordinate(200));
        let target = prims[(rng.next() as usize) % prims.len()];
        let aim = target
            .v0
            .saturating_add(target.e1.scale(Fixed::from_ratio(1, 4)))
            .saturating_add(target.e2.scale(Fixed::from_ratio(1, 4)));
        let ray = Ray::new(origin, aim.saturating_sub(origin), Fixed::zero());
        let by_tree = accel.intersect(&prims, &ray);
        match trace(&ray, &prims) {
            None => assert!(!by_tree.happened),
            Some(payload) => {
                hits += 1;
                assert!(by_tree.happened);
                assert_eq!(by_tree.distance, payload.t_near);
            }
        }
        r += 1;
    }
    assert!(hits > 400);
}

#[test]
fn no_primitives_give_no_heuristic_tree() {
    let none: Vec<Triangle> = vec![];
    let accel = SAHAccel::new(&none, 1, SplitMethod::SAH);
    assert!(accel.root.is_none());
    let ray = Ray::new(Vector3::zero(), Vector3::from_ints(0, 0, 1), Fixed::zero());
    assert!(!accel.intersect(&none, &ray).happened);
}

use hw_raytracer::bound::{union, union_point, Bound3};
use hw_raytracer::fixed::{Fixed, SCALE};
use hw_raytracer::ray::Ray;
use hw_raytracer::vector::Vector3;

fn boxed(lo: (i32, i32, i32), hi: (i32, i32, i32)) -> Bound3 {
    Bound3::new(Vector3::from_ints(lo.0, lo.1, lo.2), Vector3::from_ints(hi.0, hi.1, hi.2))
}

fn hits(b: &Bound3, origin: (i32, i32, i32), direction: (i32, i32, i32)) -> bool {
    let ray = Ray::new(
        Vector3::from_ints(origin.0, origin.1, origin.2),
        Vector3::from_ints(direction.0, direction.1, direction.2),
        Fixed::zero(),
    );
    b.intersect_ray(&ray, &ray.direction_inv, &ray.dir_is_neg())
}

#[test]
fn corners_are_ordered_on_construction() {
    let b = Bound3::new(Vector3::from_ints(3, -1, 5), Vector3::from_ints(1, 2, 4));
    assert_eq!(b.p_min, Vector3::from_ints(1, -1, 4));
    assert_eq!(b.p_max, Vector3::from_ints(3, 2, 5));
}

#[test]
fn the_default_box_is_empty() {
    let empty = Bound3::default();
    assert_eq!(empty.p_min, Vector3::from_element(Fixed::max_value()));
    assert_eq!(empty.p_max, Vector3::from_element(Fixed::min_value()));
    let p = Vector3::from_ints(1, 2, 3);
    let around = union_point(&empty, &p);
    assert_eq!(around.p_min, p);
    assert_eq!(around.p_max, p);
    let b = boxed((0, 0, 0), (1, 1, 1));
    assert_eq!(union(&empty, &b), b);
}

#[test]
fn union_is_commutative_associative_and_idempotent() {
    let boxes = [
        boxed((0, 0, 0), (1, 1, 1)),
        boxed((-3, 2, 1), (4, 5, 2)),
        boxed((2, -7, -1), (3, -6, 9)),
        boxed((5, 5, 5), (5, 5, 5)),
    ];
    for a in boxes.iter() {
        assert_eq!(union(a, a), *a);
        for b in boxes.iter() {
            let ab = union(a, b);
            assert_eq!(ab, union(b, a));
            assert!(Bound3::inside(&a.p_min, &ab) && Bound3::inside(&a.p_max, &ab));
            assert!(Bound3::inside(&b.p_min, &ab) && Bound3::inside(&b.p_max, &ab));
            for c in boxes.iter() {
                assert_eq!(union(&ab, c), union(a, &union(b, c)));
            }
        }
    }
}

#[test]
fn union_of_two_boxes() {
    let u = union(&boxed((0, 0, 0), (1, 1, 1)), &boxed((-3, 2, 1), (4, 5, 2)));
    assert_eq!(u, boxed((-3, 0, 0), (4, 5, 2)));
}

#[test]
fn diagonal_area_and_centroid() {
    let b = boxed((1, 1, 1), (2, 3, 4));
    assert_eq!(b.diagonal(), Vector3::from_ints(1, 2, 3));
    assert_eq!(b.surface_area().raw, 22 * SCALE);
    assert_eq!(b.centroid().x.raw, 3 * SCALE / 2);
    assert_eq!(b.centroid().y.raw, 2 * SCALE);
    assert_eq!(b.centroid().z.raw, 5 * SCALE / 2);
}

#[test]
fn the_longest_axis_and_its_ties() {
    assert_eq!(boxed((0, 0, 0), (3, 2, 1)).max_extent(), 0);
    assert_eq!(boxed((0, 0, 0), (1, 3, 2)).max_extent(), 1);
    assert_eq!(boxed((0, 0, 0), (1, 2, 3)).max_extent(), 2);
    assert_eq!(boxed((0, 0, 0), (2, 2, 1)).max_extent(), 0);
    assert_eq!(boxed((0, 0, 0), (1, 2, 2)).max_extent(), 1);
    assert_eq!(boxed((0, 0, 0), (2, 1, 2)).max_extent(), 0);
    assert_eq!(boxed((0, 0, 0), (2, 2, 2)).max_extent(), 0);
}

#[test]
fn overlap_and_containment_include_the_faces() {
    let a = boxed((0, 0, 0), (2, 2, 2));
    assert!(Bound3::overlaps(&a, &boxed((2, 2, 2), (3, 3, 3))));
    assert!(!Bound3::overlaps(&a, &boxed((3, 0, 0), (4, 2, 2))));
    assert!(Bound3::inside(&Vector3::from_ints(2, 0, 1), &a));
    assert!(!Bound3::inside(&Vector3::from_ints(3, 0, 1), &a));
}

#[test]
fn the_hull_of_two_boxes() {
    let a = boxed((0, 0, 0), (1, 1, 1));
    let b = boxed((2, -1, 0), (3, 0, 5));
    assert_eq!(a.intersect(&b), boxed((0, -1, 0), (3, 1, 5)));
}

#[test]
fn offset_is_relative_on_the_first_two_axes() {
    let b = boxed((0, 0, 0), (2, 4, 8));
    let o = b.offset(&Vector3::from_ints(1, 1, 2));
    assert_eq!(o.x.raw, SCALE / 2);
    assert_eq!(o.y.raw, SCALE / 4);
    assert_eq!(o.z.raw, 2 * SCALE);
    let flat = boxed((1, 1, 1), (1, 1, 1));
    assert_eq!(flat.offset(&Vector3::from_ints(3, 4, 5)), Vector3::from_ints(2, 3, 4));
}

#[test]
fn a_ray_through_the_box_hits() {
    let b = boxed((-1, -1, 4), (1, 1, 6));
    assert!(hits(&b, (0, 0, 0), (0, 0, 1)));
    assert!(hits(&b, (0, 0, 10), (0, 0, -1)));
    assert!(hits(&b, (0, 0, 5), (1, 0, 0)));
    assert!(hits(&b, (-3, -3, 2), (1, 1, 1)));
}

#[test]
fn a_ray_beside_or_away_from_the_box_misses() {
    let b = boxed((-1, -1, 4), (1, 1, 6));
    assert!(!hits(&b, (0, 0, 0), (0, 0, -1)));
    assert!(!hits(&b, (5, 0, 0), (0, 0, 1)));
    assert!(!hits(&b, (0, 0, 0), (1, 0, 0)));
    assert!(!hits(&b, (0, 0, 7), (0, 0, 1)));
}

#[test]
fn a_ray_that_leaves_at_its_origin_misses() {
    let b = boxed((-1, -1, 4), (1, 1, 6));
    assert!(!hits(&b, (0, 0, 6), (0, 0, 1)));
    assert!(hits(&b, (0, 0, 6), (0, 0, -1)));
}

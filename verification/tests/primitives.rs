use hw_raytracer::bound::Bound3;
use hw_raytracer::fixed::{Fixed, SCALE};
use hw_raytracer::intersection::Intersection;
use hw_raytracer::material::{Material, MaterialType};
use hw_raytracer::objects::sphere::Sphere;
use hw_raytracer::objects::triangle::Triangle;
use hw_raytracer::objects::{DegenerateGeometryError, Object, SampleDraws};
use hw_raytracer::ray::Ray;
use hw_raytracer::vector::Vector3;

fn value(f: Fixed) -> f64 {
    f.raw as f64 / 4294967296.0
}

fn ray(origin: (i32, i32, i32), direction: (i32, i32, i32)) -> Ray {
    Ray::new(
        Vector3::from_ints(origin.0, origin.1, origin.2),
        Vector3::from_ints(direction.0, direction.1, direction.2),
        Fixed::zero(),
    )
}

fn draws(pick: i64, u1: i64, u2: i64) -> SampleDraws {
    SampleDraws { pick: Fixed::from_raw(pick), u1: Fixed::from_raw(u1), u2: Fixed::from_raw(u2) }
}

fn glowing() -> Material {
    Material::new(MaterialType::DiffuseAndGlossy, Vector3::from_ints(5, 6, 7))
}

fn floor_triangle(material: Option<Material>) -> Triangle {
    // In the plane y = 0, facing up.
    Triangle::new(
        [Vector3::from_ints(0, 0, 0), Vector3::from_ints(0, 0, 4), Vector3::from_ints(3, 0, 0)],
        material,
    )
    .expect("the triangle has area")
}

#[test]
fn a_ray_keeps_its_parts_and_the_reciprocal_of_its_direction() {
    let r = ray((1, 2, 3), (2, -4, 0));
    assert_eq!(r.origin, Vector3::from_ints(1, 2, 3));
    assert_eq!(r.direction, Vector3::from_ints(2, -4, 0));
    assert_eq!(r.direction_inv.x, Fixed::from_ratio(1, 2));
    assert_eq!(r.direction_inv.y, Fixed::from_ratio(-1, 4));
    assert_eq!(r.direction_inv.z, Fixed::max_value());
    assert_eq!(r.t_min, Fixed::zero());
    assert_eq!(r.t_max, Fixed::max_value());
    assert_eq!(r.dir_is_neg(), [false, true, false]);
    assert_eq!(r.at(Fixed::from_int(3)), Vector3::from_ints(7, -10, 3));
}

#[test]
fn no_hit_lies_at_an_unbounded_distance() {
    let none = Intersection::default();
    assert!(!none.happened);
    assert_eq!(none.distance, Fixed::max_value());
    assert!(none.m.is_none());
    assert!(!none.has_emit());
}

#[test]
fn a_sphere_needs_a_positive_radius() {
    let c = Vector3::zero();
    assert_eq!(Sphere::new(c, Fixed::zero()).err(), Some(DegenerateGeometryError {}));
    assert_eq!(Sphere::new(c, Fixed::from_int(-1)).err(), Some(DegenerateGeometryError {}));
    assert!(Sphere::new(c, Fixed::from_raw(1)).is_ok());
}

#[test]
fn a_sphere_knows_its_area_and_box() {
    let s = Sphere::new(Vector3::from_ints(1, 2, 3), Fixed::from_int(2)).expect("positive radius");
    assert_eq!(s.radius2, Fixed::from_int(4));
    assert!((value(s.get_area()) - 16.0 * std::f64::consts::PI).abs() < 1e-8);
    assert_eq!(
        s.get_bounds(),
        Bound3::new(Vector3::from_ints(-1, 0, 1), Vector3::from_ints(3, 4, 5))
    );
    assert!(!s.has_emit());
}

#[test]
fn a_ray_meets_a_sphere_at_the_nearer_root() {
    let s = Sphere::new(Vector3::from_ints(0, 0, 5), Fixed::one()).expect("positive radius");
    assert_eq!(s.intersect(&ray((0, 0, 0), (0, 0, 1))), Some((Fixed::from_int(4), 0)));
    let found = s.get_intersection(&ray((0, 0, 0), (0, 0, 1)));
    assert!(found.happened);
    assert_eq!(found.distance, Fixed::from_int(4));
    assert_eq!(found.coords, Vector3::from_ints(0, 0, 4));
    assert_eq!(found.normal, Vector3::from_ints(0, 0, -1));
    assert_eq!(found.m, Some(Material::default()));
    assert_eq!(found.emit, Vector3::zero());
}

#[test]
fn a_ray_from_inside_a_sphere_meets_it_at_the_far_root() {
    let s = Sphere::new(Vector3::from_ints(0, 0, 0), Fixed::from_int(2)).expect("positive radius");
    assert_eq!(s.intersect(&ray((0, 0, 0), (0, 1, 0))), Some((Fixed::from_int(2), 0)));
}

#[test]
fn a_ray_past_or_away_from_a_sphere_misses() {
    let s = Sphere::new(Vector3::from_ints(0, 0, 5), Fixed::one()).expect("positive radius");
    assert_eq!(s.intersect(&ray((0, 0, 0), (0, 0, -1))), None);
    assert_eq!(s.intersect(&ray((3, 0, 0), (0, 0, 1))), None);
    assert!(!s.get_intersection(&ray((3, 0, 0), (0, 0, 1))).happened);
}

#[test]
fn a_long_direction_scales_the_parameter() {
    let s = Sphere::new(Vector3::from_ints(0, 0, 500), Fixed::from_int(100)).expect("positive radius");
    let found = s.get_intersection(&ray((0, 0, 0), (0, 0, 400)));
    assert!(found.happened);
    assert_eq!(found.distance, Fixed::one());
}

#[test]
fn an_emitting_sphere_reports_its_emission() {
    let mut s = Sphere::new(Vector3::from_ints(0, 0, 5), Fixed::one()).expect("positive radius");
    s.material = glowing();
    assert!(s.has_emit());
    let found = s.get_intersection(&ray((0, 0, 0), (0, 0, 1)));
    assert_eq!(found.emit, Vector3::from_ints(5, 6, 7));
    assert!(found.has_emit());
}

#[test]
fn points_drawn_on_a_sphere_lie_on_it() {
    let mut s = Sphere::new(Vector3::from_ints(1, 2, 3), Fixed::from_int(2)).expect("positive radius");
    s.material = glowing();
    let mut a = 0;
    while a < 12 {
        let mut b = 0;
        while b < 12 {
            let (pos, pdf) = s.sample_at(&draws(0, a * (SCALE / 12), b * (SCALE / 12)));
            let from_center = pos.coords.saturating_sub(s.center);
            assert!((value(from_center.norm()) - 2.0).abs() < 1e-6);
            assert!((value(pos.normal.norm()) - 1.0).abs() < 1e-6);
            assert_eq!(pos.emit, Vector3::from_ints(5, 6, 7));
            assert!((value(pdf) - 1.0 / (16.0 * std::f64::consts::PI)).abs() < 1e-9);
            b += 1;
        }
        a += 1;
    }
    let (pole, _) = s.sample_at(&draws(0, 0, 0));
    assert_eq!(pole.coords, Vector3::from_ints(3, 2, 3));
}

#[test]
fn a_triangle_without_area_is_refused() {
    let a = Vector3::from_ints(0, 0, 0);
    let b = Vector3::from_ints(1, 1, 1);
    let c = Vector3::from_ints(2, 2, 2);
    assert_eq!(Triangle::new([a, b, c], None).err(), Some(DegenerateGeometryError {}));
    assert_eq!(Triangle::new([a, a, b], None).err(), Some(DegenerateGeometryError {}));
}

#[test]
fn a_triangle_knows_its_edges_normal_area_and_box() {
    let t = floor_triangle(None);
    assert_eq!(t.e1, Vector3::from_ints(0, 0, 4));
    assert_eq!(t.e2, Vector3::from_ints(3, 0, 0));
    assert_eq!(t.normal, Vector3::from_ints(0, 1, 0));
    assert_eq!(t.get_area(), Fixed::from_int(6));
    assert_eq!(
        t.get_bounds(),
        Bound3::new(Vector3::from_ints(0, 0, 0), Vector3::from_ints(3, 0, 4))
    );
    assert!(!t.has_emit());
    assert!(floor_triangle(Some(glowing())).has_emit());
}

#[test]
fn a_ray_against_the_normal_hits_the_triangle() {
    let t = floor_triangle(Some(glowing()));
    let found = t.get_intersection(&ray((1, 5, 1), (0, -1, 0)));
    assert!(found.happened);
    assert_eq!(found.distance, Fixed::from_int(5));
    assert_eq!(found.coords, Vector3::from_ints(1, 0, 1));
    assert_eq!(found.normal, Vector3::from_ints(0, 1, 0));
    assert_eq!(found.m, Some(glowing()));
    assert_eq!(found.emit, Vector3::from_ints(5, 6, 7));
}

#[test]
fn a_ray_along_the_normal_is_culled() {
    let t = floor_triangle(None);
    assert!(!t.get_intersection(&ray((1, -5, 1), (0, 1, 0))).happened);
}

#[test]
fn rays_beside_behind_or_along_the_triangle_miss() {
    let t = floor_triangle(None);
    assert!(!t.get_intersection(&ray((3, 5, 4), (0, -1, 0))).happened);
    assert!(!t.get_intersection(&ray((-1, 5, 1), (0, -1, 0))).happened);
    assert!(!t.get_intersection(&ray((1, -5, 1), (0, -1, 0))).happened);
    assert!(!t.get_intersection(&ray((1, 0, 1), (1, 0, 0))).happened);
}

#[test]
fn a_ray_through_a_corner_or_an_edge_hits() {
    let t = floor_triangle(None);
    assert!(t.get_intersection(&ray((0, 5, 0), (0, -1, 0))).happened);
    assert!(t.get_intersection(&ray((0, 5, 2), (0, -1, 0))).happened);
}

#[test]
fn a_ray_that_starts_on_the_triangle_hits_at_zero() {
    let t = floor_triangle(None);
    let found = t.get_intersection(&ray((1, 0, 1), (0, -1, 0)));
    assert!(found.happened);
    assert_eq!(found.distance, Fixed::zero());
}

#[test]
fn points_drawn_on_a_triangle_are_weighted_vertices() {
    let t = floor_triangle(Some(glowing()));
    let (at_v0, pdf) = t.sample_at(&draws(0, 0, 0));
    assert_eq!(at_v0.coords, Vector3::from_ints(0, 0, 0));
    assert_eq!(pdf, Fixed::from_ratio(1, 6));
    assert_eq!(at_v0.normal, Vector3::from_ints(0, 1, 0));
    assert_eq!(at_v0.emit, Vector3::from_ints(5, 6, 7));
    // x = sqrt(1/4) = 1/2, y = 1/2: weights 1/2, 1/4, 1/4
    let (inner, _) = t.sample_at(&draws(0, SCALE / 4, SCALE / 2));
    assert_eq!(inner.coords, Vector3::new(Fixed::from_ratio(3, 4), Fixed::zero(), Fixed::one()));
    let mut a = 0;
    while a < 10 {
        let mut b = 0;
        while b < 10 {
            let (pos, _) = t.sample_at(&draws(0, a * (SCALE / 10), b * (SCALE / 10)));
            assert!(pos.coords.x.raw >= 0 && pos.coords.z.raw >= 0);
            assert_eq!(pos.coords.y.raw, 0);
            assert!(value(pos.coords.x) / 3.0 + value(pos.coords.z) / 4.0 <= 1.0 + 1e-9);
            b += 1;
        }
        a += 1;
    }
}

#[test]
fn the_default_ray_has_no_direction() {
    let r = Ray::default();
    assert_eq!(r.origin, Vector3::zero());
    assert_eq!(r.direction, Vector3::zero());
    assert_eq!(r.direction_inv, Vector3::zero());
    assert_eq!(r.t, Fixed::zero());
    assert_eq!(r.t_min, Fixed::zero());
    assert_eq!(r.t_max, Fixed::max_value());
}

#[test]
fn random_points_lie_on_their_primitive() {
    let mut s = Sphere::new(Vector3::from_ints(1, 2, 3), Fixed::from_int(2)).expect("positive radius");
    s.material = glowing();
    let t = floor_triangle(Some(glowing()));
    let mut k = 0;
    while k < 100 {
        let mut pos = Intersection::default();
        let mut pdf = Fixed::zero();
        s.sample(&mut pos, &mut pdf);
        assert!((value(pos.coords.saturating_sub(s.center).norm()) - 2.0).abs() < 1e-6);
        assert!((value(pdf) - 1.0 / (16.0 * std::f64::consts::PI)).abs() < 1e-9);
        t.sample(&mut pos, &mut pdf);
        assert_eq!(pos.coords.y.raw, 0);
        assert!(value(pos.coords.x) / 3.0 + value(pos.coords.z) / 4.0 <= 1.0 + 1e-9);
        assert_eq!(pdf, Fixed::from_ratio(1, 6));
        k += 1;
    }
}

use hw_raytracer::bound::Bound3;
use hw_raytracer::fixed::{Fixed, SCALE};
use hw_raytracer::material::{Material, MaterialType};
use hw_raytracer::objects::triangle::MeshTriangle;
use hw_raytracer::objects::{DegenerateGeometryError, Object, SampleDraws};
use hw_raytracer::ray::Ray;
use hw_raytracer::vector::Vector3;

fn value(f: Fixed) -> f64 {
    f.raw as f64 / 4294967296.0
}

fn square_vertices() -> Vec<Vector3> {
    vec![
        Vector3::from_ints(0, 0, 0),
        Vector3::from_ints(0, 0, 2),
        Vector3::from_ints(2, 0, 2),
        Vector3::from_ints(2, 0, 0),
    ]
}

fn glowing() -> Material {
    Material::new(MaterialType::DiffuseAndGlossy, Vector3::from_ints(5, 6, 7))
}

fn square(m: Material) -> MeshTriangle {
    MeshTriangle::new(&square_vertices(), &vec![0, 1, 2, 0, 2, 3], m).expect("two sound faces")
}

#[test]
fn a_mesh_holds_one_triangle_for_every_three_indices() {
    let mesh = square(glowing());
    assert_eq!(mesh.triangles.len(), 2);
    assert_eq!(mesh.triangles[0].v0, Vector3::from_ints(0, 0, 0));
    assert_eq!(mesh.triangles[0].v1, Vector3::from_ints(0, 0, 2));
    assert_eq!(mesh.triangles[0].v2, Vector3::from_ints(2, 0, 2));
    assert_eq!(mesh.triangles[1].v0, Vector3::from_ints(0, 0, 0));
    assert_eq!(mesh.triangles[1].v1, Vector3::from_ints(2, 0, 2));
    assert_eq!(mesh.triangles[1].v2, Vector3::from_ints(2, 0, 0));
    assert_eq!(mesh.triangles[0].material, Some(glowing()));
    assert_eq!(mesh.triangles[1].material, Some(glowing()));
    assert_eq!(mesh.m, glowing());
    assert!(mesh.bvh.root.is_some());
}

#[test]
fn a_mesh_adds_up_the_areas_and_boxes_of_its_faces() {
    let mesh = square(glowing());
    assert_eq!(mesh.get_area(), Fixed::from_int(4));
    assert_eq!(
        mesh.get_bounds(),
        Bound3::new(Vector3::from_ints(0, 0, 0), Vector3::from_ints(2, 0, 2))
    );
    assert!(mesh.has_emit());
    assert!(!square(Material::default()).has_emit());
}

#[test]
fn malformed_meshes_are_refused() {
    let v = square_vertices();
    let m = Material::default();
    let refused = Some(DegenerateGeometryError {});
    assert_eq!(MeshTriangle::new(&v, &vec![], m).err(), refused);
    assert_eq!(MeshTriangle::new(&v, &vec![0, 1], m).err(), refused);
    assert_eq!(MeshTriangle::new(&v, &vec![0, 1, 2, 3], m).err(), refused);
    assert_eq!(MeshTriangle::new(&v, &vec![0, 1, 4], m).err(), refused);
    assert_eq!(MeshTriangle::new(&v, &vec![0, 1, 2, 0, 0, 3], m).err(), refused);
    assert_eq!(MeshTriangle::new(&vec![], &vec![0, 1, 2], m).err(), refused);
    assert!(MeshTriangle::new(&v, &vec![0, 1, 2], m).is_ok());
}

#[test]
fn a_ray_hits_the_face_that_it_crosses() {
    let mesh = square(glowing());
    let down = Vector3::from_ints(0, -1, 0);
    let over_first = Ray::new(
        Vector3::new(Fixed::from_ratio(1, 2), Fixed::from_int(3), Fixed::from_ratio(3, 2)),
        down,
        Fixed::zero(),
    );
    let found = mesh.get_intersection(&over_first);
    assert!(found.happened);
    assert_eq!(found.distance, Fixed::from_int(3));
    assert_eq!(found.normal, Vector3::from_ints(0, 1, 0));
    assert_eq!(found.m, Some(glowing()));
    assert_eq!(found.emit, Vector3::from_ints(5, 6, 7));
    let beside = Ray::new(Vector3::from_ints(3, 3, 1), down, Fixed::zero());
    assert!(!mesh.get_intersection(&beside).happened);
    let from_below = Ray::new(Vector3::from_ints(1, -3, 1), Vector3::from_ints(0, 1, 0), Fixed::zero());
    assert!(!mesh.get_intersection(&from_below).happened);
}

#[test]
fn points_drawn_on_a_mesh_cover_both_faces_evenly() {
    let mesh = square(glowing());
    let mut on_first = 0;
    let mut on_second = 0;
    let steps: i64 = 20;
    let mut a = 0;
    while a < steps {
        let mut b = 0;
        while b < steps {
            let mut c = 0;
            while c < steps {
                let draws = SampleDraws {
                    pick: Fixed::from_raw(a * (SCALE / steps) + 777),
                    u1: Fixed::from_raw(b * (SCALE / steps) + 555),
                    u2: Fixed::from_raw(c * (SCALE / steps) + 333),
                };
                let (pos, pdf) = mesh.sample_at(&draws);
                assert!((value(pdf) - 0.25).abs() < 1e-8);
                assert_eq!(pos.emit, Vector3::from_ints(5, 6, 7));
                assert_eq!(pos.normal, Vector3::from_ints(0, 1, 0));
                assert_eq!(pos.coords.y.raw, 0);
                assert!(0 <= pos.coords.x.raw && pos.coords.x.raw <= 2 * SCALE);
                assert!(0 <= pos.coords.z.raw && pos.coords.z.raw <= 2 * SCALE);
                if pos.coords.z.raw >= pos.coords.x.raw {
                    on_first += 1;
                } else {
                    on_second += 1;
                }
                c += 1;
            }
            b += 1;
        }
        a += 1;
    }
    assert_eq!(on_first + on_second, 8000);
    assert!((on_first as i64 - 4000).abs() < 400);
}

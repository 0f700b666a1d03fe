use hw_raytracer::fixed::Fixed;
use hw_raytracer::material::{Material, MaterialType};
use hw_raytracer::objects::triangle::MeshTriangle;
use hw_raytracer::objects::Shape;
use hw_raytracer::render::render;
use hw_raytracer::scene::Scene;
use hw_raytracer::vector::Vector3;

fn diffuse(r: i32, g: i32, b: i32) -> Material {
    let mut m = Material::default();
    m.kd = Vector3::new(Fixed::from_ratio(r, 1000), Fixed::from_ratio(g, 1000), Fixed::from_ratio(b, 1000));
    m
}

fn quad(corners: [(i32, i32, i32); 4], m: Material) -> Shape {
    let vertices: Vec<Vector3> =
        corners.iter().map(|c| Vector3::from_ints(c.0, c.1, c.2)).collect();
    let indices: Vec<usize> = vec![0, 1, 2, 0, 2, 3];
    Shape::MeshTriangle(MeshTriangle::new(&vertices, &indices, m).expect("a quad has area"))
}

fn cornell_box(width: usize, height: usize) -> Scene {
    let white = diffuse(725, 710, 680);
    let red = diffuse(630, 65, 50);
    let green = diffuse(140, 450, 91);
    let mut light = Material::new(
        MaterialType::DiffuseAndGlossy,
        Vector3::new(Fixed::from_ratio(47835, 1000), Fixed::from_ratio(38283, 1000), Fixed::from_ratio(31081, 1000)),
    );
    light.kd = Vector3::from_element(Fixed::from_ratio(65, 100));
    let mut scene = Scene::new(width, height);
    scene.background_color = Vector3::zero();
    scene.add_obj(quad([(553, 0, 0), (0, 0, 0), (0, 0, 559), (550, 0, 559)], white));
    scene.add_obj(quad([(556, 549, 0), (556, 549, 559), (0, 549, 559), (0, 549, 0)], white));
    scene.add_obj(quad([(550, 0, 559), (0, 0, 559), (0, 549, 559), (556, 549, 559)], white));
    scene.add_obj(quad([(0, 0, 559), (0, 0, 0), (0, 549, 0), (0, 549, 559)], green));
    scene.add_obj(quad([(553, 0, 0), (550, 0, 559), (556, 549, 559), (556, 549, 0)], red));
    scene.add_obj(quad([(343, 548, 227), (343, 548, 332), (213, 548, 332), (213, 548, 227)], light));
    scene.build_bvh();
    scene
}

#[test]
fn cornell_box_has_no_negative_and_no_black_interior_pixel() {
    let scene = cornell_box(16, 16);
    let picture = render(&scene, 16).expect("the tree is built");
    assert_eq!(picture.len(), 256);
    for colour in picture.iter() {
        assert!(colour.x.raw >= 0 && colour.y.raw >= 0 && colour.z.raw >= 0);
    }
    // The box fills the middle of the view: every ray through it ends on a wall.
    for j in 3..13 {
        for i in 3..13 {
            let colour = picture[j * 16 + i];
            assert!(
                colour.x.raw > 0 || colour.y.raw > 0 || colour.z.raw > 0,
                "pixel {} {} is black",
                i,
                j
            );
        }
    }
}

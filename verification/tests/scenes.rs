use hw_raytracer::fixed::{Fixed, SCALE};
use hw_raytracer::intersection::Intersection;
use hw_raytracer::light::{AreaLight, Light};
use hw_raytracer::material::{Material, MaterialType};
use hw_raytracer::objects::sphere::Sphere;
use hw_raytracer::objects::triangle::{MeshTriangle, Triangle};
use hw_raytracer::objects::{SampleDraws, Shape};
use hw_raytracer::ray::Ray;
use hw_raytracer::scene::{Scene, SceneNotBuiltError};
use hw_raytracer::vector::Vector3;

fn value(f: Fixed) -> f64 {
    f.raw as f64 / 4294967296.0
}

fn glowing() -> Material {
    Material::new(MaterialType::DiffuseAndGlossy, Vector3::from_ints(5, 6, 7))
}

fn triangle_at(x: i32, size: i32, m: Material) -> Shape {
    Shape::Triangle(
        Triangle::new(
            [
                Vector3::from_ints(x, 0, 0),
                Vector3::from_ints(x, 0, size),
                Vector3::from_ints(x + size, 0, 0),
            ],
            Some(m),
        )
        .expect("the triangle has area"),
    )
}

fn draws(pick: i64) -> (SampleDraws, Fixed) {
    (
        SampleDraws { pick: Fixed::zero(), u1: Fixed::from_ratio(1, 3), u2: Fixed::from_ratio(1, 3) },
        Fixed::from_raw(pick),
    )
}

#[test]
fn a_new_scene_has_the_default_settings() {
    let scene = Scene::new(640, 480);
    assert_eq!(scene.width, 640);
    assert_eq!(scene.height, 480);
    assert_eq!(scene.fov, Fixed::from_int(40));
    assert!((value(scene.background_color.x) - 0.23529).abs() < 1e-9);
    assert!((value(scene.background_color.y) - 0.67451).abs() < 1e-9);
    assert!((value(scene.background_color.z) - 0.843137).abs() < 1e-9);
    assert_eq!(scene.max_depth, 1);
    assert!((value(scene.epsilon) - 0.00001).abs() < 1e-9);
    assert!((value(scene.russian_roulette) - 0.8).abs() < 1e-9);
    assert!(scene.get_objs().is_empty());
    assert!(scene.get_lights().is_empty());
    assert!(scene.bvh.is_none());
    let default = Scene::default();
    assert_eq!(default.width, 1280);
    assert_eq!(default.height, 960);
}

#[test]
fn objects_and_lights_are_kept_in_order() {
    let mut scene = Scene::new(4, 4);
    scene.add_obj(triangle_at(0, 2, Material::default()));
    scene.add_obj(Shape::Sphere(Sphere::new(Vector3::zero(), Fixed::one()).expect("positive radius")));
    scene.add_light(Light::new(Vector3::from_ints(1, 2, 3), Vector3::from_ints(4, 5, 6)));
    assert_eq!(scene.get_objs().len(), 2);
    assert!(matches!(scene.get_objs()[0], Shape::Triangle(_)));
    assert!(matches!(scene.get_objs()[1], Shape::Sphere(_)));
    assert_eq!(scene.get_lights().len(), 1);
    assert_eq!(scene.get_lights()[0].position, Vector3::from_ints(1, 2, 3));
    assert_eq!(scene.get_lights()[0].intensity, Vector3::from_ints(4, 5, 6));
}

#[test]
fn an_area_light_faces_down() {
    let light = AreaLight::new(&Vector3::from_ints(1, 2, 3), &Vector3::from_ints(4, 5, 6));
    assert_eq!(light.base, Light::new(Vector3::from_ints(1, 2, 3), Vector3::from_ints(4, 5, 6)));
    assert_eq!(light.length, Fixed::from_int(100));
    assert_eq!(light.normal, Vector3::from_ints(0, -1, 0));
    assert_eq!(light.u, Vector3::from_ints(1, 0, 0));
    assert_eq!(light.v, Vector3::from_ints(0, 0, 1));
}

#[test]
fn intersection_fails_until_the_tree_is_built() {
    let mut scene = Scene::new(4, 4);
    scene.add_obj(triangle_at(0, 4, Material::default()));
    let ray = Ray::new(Vector3::from_ints(1, 5, 1), Vector3::from_ints(0, -1, 0), Fixed::zero());
    assert_eq!(scene.intersect(&ray).err(), Some(SceneNotBuiltError {}));
    scene.build_bvh();
    let found = scene.intersect(&ray).expect("the tree is built");
    assert!(found.happened);
    assert_eq!(found.distance, Fixed::from_int(5));
}

#[test]
fn adding_an_object_drops_the_tree() {
    let mut scene = Scene::new(4, 4);
    scene.add_obj(triangle_at(0, 4, Material::default()));
    scene.build_bvh();
    scene.add_obj(triangle_at(10, 4, Material::default()));
    let ray = Ray::new(Vector3::from_ints(11, 5, 1), Vector3::from_ints(0, -1, 0), Fixed::zero());
    assert_eq!(scene.intersect(&ray).err(), Some(SceneNotBuiltError {}));
    scene.build_bvh();
    assert!(scene.intersect(&ray).expect("the tree is built").happened);
}

#[test]
fn an_empty_scene_can_be_built_and_holds_nothing() {
    let mut scene = Scene::new(4, 4);
    scene.build_bvh();
    let ray = Ray::new(Vector3::zero(), Vector3::from_ints(0, 0, 1), Fixed::zero());
    assert!(!scene.intersect(&ray).expect("the tree is built").happened);
}

#[test]
fn without_a_light_there_is_nothing_to_sample() {
    let mut scene = Scene::new(4, 4);
    scene.add_obj(triangle_at(0, 4, Material::default()));
    scene.build_bvh();
    assert_eq!(scene.emit_area(), Fixed::zero());
    let (d, pick) = draws(SCALE / 2);
    let (pos, pdf) = scene.sample_light_at(&d, pick);
    assert_eq!(pdf, Fixed::zero());
    assert!(!pos.happened);
    let mut pos = Intersection::default();
    let mut pdf = Fixed::one();
    scene.sample_light(&mut pos, &mut pdf);
    assert_eq!(pdf, Fixed::zero());
}

#[test]
fn lights_are_chosen_in_proportion_to_their_areas() {
    // Areas 2, (dark) 8, 8 and 18: the lights cover 28.
    let mut scene = Scene::new(4, 4);
    scene.add_obj(triangle_at(0, 2, glowing()));
    scene.add_obj(triangle_at(100, 4, Material::default()));
    scene.add_obj(triangle_at(200, 4, glowing()));
    scene.add_obj(triangle_at(300, 6, glowing()));
    scene.build_bvh();
    assert_eq!(scene.emit_area(), Fixed::from_int(28));
    let mut counts = [0; 4];
    let steps: i64 = 4096;
    let mut k = 0;
    while k < steps {
        let (d, pick) = draws(k * (SCALE / steps) + SCALE / steps / 2);
        let (pos, pdf) = scene.sample_light_at(&d, pick);
        assert!((value(pdf) - 1.0 / 28.0).abs() < 1e-8);
        assert_eq!(pos.emit, Vector3::from_ints(5, 6, 7));
        counts[(value(pos.coords.x) / 100.0) as usize] += 1;
        k += 1;
    }
    // 4096 * 2 / 28 = 292.6, 4096 * 10 / 28 = 1462.9
    assert_eq!(counts, [293, 0, 1170, 2633]);
}

#[test]
fn a_mesh_light_is_sampled_through_its_own_tree() {
    let vertices = vec![
        Vector3::from_ints(0, 0, 0),
        Vector3::from_ints(0, 0, 2),
        Vector3::from_ints(2, 0, 2),
        Vector3::from_ints(2, 0, 0),
    ];
    let mesh = MeshTriangle::new(&vertices, &vec![0, 1, 2, 0, 2, 3], glowing()).expect("two faces");
    let mut scene = Scene::new(4, 4);
    scene.add_obj(Shape::MeshTriangle(mesh));
    scene.build_bvh();
    let mut on_first = 0;
    let steps: i64 = 1000;
    let mut k = 0;
    while k < steps {
        let (d, pick) = draws(k * (SCALE / steps) + SCALE / steps / 2);
        let (pos, pdf) = scene.sample_light_at(&d, pick);
        assert!((value(pdf) - 0.25).abs() < 1e-8);
        if pos.coords.z.raw >= pos.coords.x.raw {
            on_first += 1;
        }
        k += 1;
    }
    assert_eq!(on_first, 500);
}

#[test]
fn random_light_samples_lie_on_a_light() {
    let mut scene = Scene::new(4, 4);
    scene.add_obj(triangle_at(0, 2, glowing()));
    scene.add_obj(triangle_at(100, 4, Material::default()));
    scene.build_bvh();
    let mut k = 0;
    while k < 100 {
        let mut pos = Intersection::default();
        let mut pdf = Fixed::zero();
        scene.sample_light(&mut pos, &mut pdf);
        assert_eq!(pdf, Fixed::from_ratio(1, 2));
        assert!(value(pos.coords.x) <= 2.0);
        k += 1;
    }
}

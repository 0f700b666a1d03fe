//! What every primitive of a scene can do: be hit by a ray, be enclosed in a
//! box, be measured, be sampled, and say whether it gives off light.
use crate::bound::{Bound3, B3};
use crate::fixed::{Fixed, SCALE};
use crate::global::get_random_float;
use crate::intersection::{no_hit, Hit, Intersection};
use crate::material::Material;
use crate::objects::sphere::Sphere;
use crate::objects::triangle::{MeshTriangle, Triangle};
use crate::ray::{Ray, R3};
use crate::vector::{v3_nonnegative, v3_zero, V3};
use vstd::prelude::*;

pub mod sphere;
pub mod triangle;

verus! {

/// Mathematical model of [`SampleDraws`].
pub struct D3 {
    pub pick: int,
    pub u1: int,
    pub u2: int,
}

/// The three uniform numbers that sampling a point of a surface consumes:
/// `pick` selects a part of a composite surface, `u1` and `u2` a point on it.
#[derive(Clone, Copy, Debug, PartialEq, Eq, Structural)]
pub struct SampleDraws {
    pub pick: Fixed,
    pub u1: Fixed,
    pub u2: Fixed,
}

impl View for SampleDraws {
    type V = D3;

    open spec fn view(&self) -> D3 {
        D3 { pick: self.pick@, u1: self.u1@, u2: self.u2@ }
    }
}

/// Each of the three numbers lies between zero and one, one excluded.
pub open spec fn uniform_draws(draws: D3) -> bool {
    &&& 0 <= draws.pick < SCALE
    &&& 0 <= draws.u1 < SCALE
    &&& 0 <= draws.u2 < SCALE
}

/// Three fresh uniform numbers.
pub fn draw_sample() -> (draws: SampleDraws)
    ensures
        uniform_draws(draws@),
{
    let pick: Fixed = get_random_float();
    let u1: Fixed = get_random_float();
    let u2: Fixed = get_random_float();
    SampleDraws { pick, u1, u2 }
}

/// Geometry that has no surface: a triangle without area, a sphere whose
/// radius is not positive, a mesh without faces or with a face that names a
/// vertex that does not exist.
#[derive(Clone, Copy, Debug, PartialEq, Eq, Structural)]
pub struct DegenerateGeometryError {}

/// Radiance that a hit on a surface of material `m` reports: the material's
/// emission if it gives off light, else nothing.
pub open spec fn emitted(m: Option<Material>) -> V3 {
    match m {
        Some(m) => if m.emits() {
            m.emission@
        } else {
            v3_zero()
        },
        None => v3_zero(),
    }
}

/// The record of a point drawn on a surface: its place, normal and
/// emission. It is no hit of a ray.
pub open spec fn sampled(coords: V3, normal: V3, emit: V3) -> Hit {
    Hit { coords, normal, emit, ..no_hit() }
}

/// Whether a material is absent or of the diffuse kind.
pub open spec fn shadeable(m: Option<Material>) -> bool {
    match m {
        Some(m) => m.is_diffuse(),
        None => true,
    }
}

/// Whether a material, if there is one, reflects and emits no negative
/// amount of light.
pub open spec fn physical(m: Option<Material>) -> bool {
    match m {
        Some(m) => v3_nonnegative(m.kd@) && v3_nonnegative(m.emission@),
        None => true,
    }
}

/// A primitive of a scene.
pub trait Object {
    /// The primitive's derived data belong to its defining data.
    spec fn wf(&self) -> bool;

    /// The box around the primitive.
    spec fn bounds(&self) -> B3;

    /// The primitive's surface area.
    spec fn area(&self) -> int;

    /// Whether the primitive gives off light.
    spec fn emits(&self) -> bool;

    /// What the ray finds of the primitive.
    spec fn hit(&self, ray: R3) -> Hit;

    /// The point of the surface that `draws` stand for, and the density with
    /// which it is drawn, per unit of area.
    spec fn sample_point(&self, draws: D3) -> (Hit, int);

    /// Whether the primitive's material reflects and emits no negative
    /// amount of light.
    spec fn physical(&self) -> bool;

    /// What a ray finds, and what sampling draws, of a primitive with a
    /// physical material has a physical material and no negative emission.
    proof fn lemma_physical(&self, ray: R3, draws: D3)
        requires
            self.wf(),
            self.physical(),
        ensures
            physical(self.hit(ray).m),
            v3_nonnegative(self.sample_point(draws).0.emit),
    ;

    /// A ray finds nothing, or a surface whose material can be shaded and
    /// gives off light exactly if the primitive does.
    proof fn lemma_shadeable(&self, ray: R3, draws: D3)
        requires
            self.wf(),
        ensures
            shadeable(self.hit(ray).m),
            !self.hit(ray).happened ==> self.hit(ray) == no_hit(),
            self.hit(ray).m matches Some(m) ==> m.emits() == self.emits(),
    ;

    /// Exact intersection of the ray with the primitive.
    fn get_intersection(&self, ray: &Ray) -> (r: Intersection)
        requires
            self.wf(),
        ensures
            r@ == self.hit(ray@),
    ;

    /// The box around the primitive.
    fn get_bounds(&self) -> (b: Bound3)
        ensures
            b@ == self.bounds(),
    ;

    /// The primitive's surface area.
    fn get_area(&self) -> (a: Fixed)
        ensures
            a@ == self.area(),
    ;

    /// The point of the surface that `draws` stand for, uniform by area when
    /// the draws are uniform, and its density.
    fn sample_at(&self, draws: &SampleDraws) -> (r: (Intersection, Fixed))
        requires
            self.wf(),
        ensures
            (r.0@, r.1@) == self.sample_point(draws@),
    ;

    /// A point drawn from the surface at random, uniform by area, and its
    /// density per unit of area.
    fn sample(&self, pos: &mut Intersection, pdf: &mut Fixed)
        requires
            self.wf(),
        ensures
            exists|draws: D3|
                uniform_draws(draws) && (final(pos)@, final(pdf)@) == #[trigger] self.sample_point(
                    draws,
                ),
    ;

    /// Whether the primitive gives off light.
    fn has_emit(&self) -> (r: bool)
        ensures
            r == self.emits(),
    ;
}

/// Radiance that a hit on a surface of material `m` reports.
pub fn emitted_radiance(m: &Option<Material>) -> (r: crate::vector::Vector3)
    ensures
        r@ == emitted(*m),
{
    match m {
        Some(m) => if m.has_emission() {
            m.emission
        } else {
            crate::vector::Vector3::zero()
        },
        None => crate::vector::Vector3::zero(),
    }
}

/// The primitives that a scene can hold.
#[derive(Debug)]
pub enum Shape {
    Sphere(Sphere),
    Triangle(Triangle),
    MeshTriangle(MeshTriangle),
}

impl Object for Shape {
    open spec fn wf(&self) -> bool {
        match self {
            Shape::Sphere(s) => s.wf(),
            Shape::Triangle(t) => t.wf(),
            Shape::MeshTriangle(m) => m.wf(),
        }
    }

    open spec fn bounds(&self) -> B3 {
        match self {
            Shape::Sphere(s) => s.bounds(),
            Shape::Triangle(t) => t.bounds(),
            Shape::MeshTriangle(m) => m.bounds(),
        }
    }

    open spec fn area(&self) -> int {
        match self {
            Shape::Sphere(s) => s.area(),
            Shape::Triangle(t) => t.area(),
            Shape::MeshTriangle(m) => m.area(),
        }
    }

    open spec fn emits(&self) -> bool {
        match self {
            Shape::Sphere(s) => s.emits(),
            Shape::Triangle(t) => t.emits(),
            Shape::MeshTriangle(m) => m.emits(),
        }
    }

    open spec fn hit(&self, ray: R3) -> Hit {
        match self {
            Shape::Sphere(s) => s.hit(ray),
            Shape::Triangle(t) => t.hit(ray),
            Shape::MeshTriangle(m) => m.hit(ray),
        }
    }

    open spec fn sample_point(&self, draws: D3) -> (Hit, int) {
        match self {
            Shape::Sphere(s) => s.sample_point(draws),
            Shape::Triangle(t) => t.sample_point(draws),
            Shape::MeshTriangle(m) => m.sample_point(draws),
        }
    }

    open spec fn physical(&self) -> bool {
        match self {
            Shape::Sphere(s) => s.physical(),
            Shape::Triangle(t) => t.physical(),
            Shape::MeshTriangle(m) => m.physical(),
        }
    }

    proof fn lemma_physical(&self, ray: R3, draws: D3) {
        match self {
            Shape::Sphere(s) => s.lemma_physical(ray, draws),
            Shape::Triangle(t) => t.lemma_physical(ray, draws),
            Shape::MeshTriangle(m) => m.lemma_physical(ray, draws),
        }
    }

    proof fn lemma_shadeable(&self, ray: R3, draws: D3) {
        match self {
            Shape::Sphere(s) => s.lemma_shadeable(ray, draws),
            Shape::Triangle(t) => t.lemma_shadeable(ray, draws),
            Shape::MeshTriangle(m) => m.lemma_shadeable(ray, draws),
        }
    }

    fn get_intersection(&self, ray: &Ray) -> (r: Intersection) {
        match self {
            Shape::Sphere(s) => s.get_intersection(ray),
            Shape::Triangle(t) => t.get_intersection(ray),
            Shape::MeshTriangle(m) => m.get_intersection(ray),
        }
    }

    fn get_bounds(&self) -> (b: Bound3) {
        match self {
            Shape::Sphere(s) => s.get_bounds(),
            Shape::Triangle(t) => t.get_bounds(),
            Shape::MeshTriangle(m) => m.get_bounds(),
        }
    }

    fn get_area(&self) -> (a: Fixed) {
        match self {
            Shape::Sphere(s) => s.get_area(),
            Shape::Triangle(t) => t.get_area(),
            Shape::MeshTriangle(m) => m.get_area(),
        }
    }

    fn sample_at(&self, draws: &SampleDraws) -> (r: (Intersection, Fixed)) {
        match self {
            Shape::Sphere(s) => s.sample_at(draws),
            Shape::Triangle(t) => t.sample_at(draws),
            Shape::MeshTriangle(m) => m.sample_at(draws),
        }
    }

    fn sample(&self, pos: &mut Intersection, pdf: &mut Fixed) {
        let draws: SampleDraws = draw_sample();
        let (point, density): (Intersection, Fixed) = self.sample_at(&draws);
        *pos = point;
        *pdf = density;
    }

    fn has_emit(&self) -> (r: bool) {
        match self {
            Shape::Sphere(s) => s.has_emit(),
            Shape::Triangle(t) => t.has_emit(),
            Shape::MeshTriangle(m) => m.has_emit(),
        }
    }
}

} // verus!

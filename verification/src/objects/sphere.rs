//! Spheres.
use crate::bound::{b3_of_points, Bound3, B3};
use crate::fixed::{fx_add, fx_div, fx_mul, fx_sub, trunc_div, Fixed, SCALE};
use crate::global::{quadratic_roots, solve_quadratic};
use crate::intersection::{no_hit, Hit, Intersection};
use crate::material::Material;
use crate::objects::{
    draw_sample, emitted, emitted_radiance, physical, sampled, DegenerateGeometryError, Object,
    SampleDraws, D3,
};
use crate::ray::{ray_at, Ray, R3};
use crate::trig::{sin_cos_of_turns, sin_cos_turns};
use crate::vector::{v3_add, v3_dot, v3_normalize, v3_scale, v3_sub, v3_zero, Vector3, V3};
use vstd::prelude::*;

verus! {

/// Raw value of `4 pi`.
pub const FOUR_PI_RAW: i64 = 53972150818;

/// Area of the sphere with squared radius `radius2`: `4 pi r^2`.
pub open spec fn sphere_area(radius2: int) -> int {
    fx_mul(FOUR_PI_RAW as int, radius2)
}

/// Ray parameter at which the ray meets the sphere: the smaller root of
/// `|origin + t direction - center|^2 = r^2` that is not negative; `None`
/// if there is no real root or both roots are negative.
pub open spec fn sphere_hit_parameter(center: V3, radius2: int, ray: R3) -> Option<int> {
    let l = v3_sub(ray.origin, center);
    let a = v3_dot(ray.direction, ray.direction);
    let half_b = v3_dot(ray.direction, l);
    let c = fx_sub(v3_dot(l, l), radius2);
    match quadratic_roots(a, fx_add(half_b, half_b), c) {
        None => None,
        Some((t0, t1)) => if t0 < 0 && t1 < 0 {
            None
        } else if t0 < 0 {
            Some(t1)
        } else {
            Some(t0)
        },
    }
}

/// The unit direction with polar angle `pi * u2` from the first axis and
/// azimuth `2 pi * u1` around it.
pub open spec fn sphere_direction(u1: int, u2: int) -> V3 {
    let (sin_theta, cos_theta) = sin_cos_of_turns(u1);
    let (sin_phi, cos_phi) = sin_cos_of_turns(trunc_div(u2, 2));
    V3 { x: cos_phi, y: fx_mul(sin_phi, cos_theta), z: fx_mul(sin_phi, sin_theta) }
}

/// A sphere, with the square of its radius and its area kept beside it.
#[derive(Clone, Copy, Debug, PartialEq, Eq, Structural)]
pub struct Sphere {
    pub center: Vector3,
    pub radius: Fixed,
    pub radius2: Fixed,
    pub area: Fixed,
    pub material: Material,
}

impl Sphere {
    /// The sphere around `center` with the given radius and the default
    /// material. A radius that is not positive is refused.
    pub fn new(center: Vector3, radius: Fixed) -> (r: Result<Sphere, DegenerateGeometryError>)
        ensures
            r is Ok <==> radius@ > 0,
            r matches Ok(s) ==> s.wf() && s.center == center && s.radius == radius && s.material
                == Material::default_spec(),
    {
        if radius.raw <= 0 {
            return Err(DegenerateGeometryError {  });
        }
        let radius2: Fixed = radius.saturating_mul(radius);
        Ok(
            Sphere {
                center,
                radius,
                radius2,
                area: Fixed { raw: FOUR_PI_RAW }.saturating_mul(radius2),
                material: Material::default(),
            },
        )
    }

    /// Ray parameter of the nearest point of the sphere on the ray, with the
    /// index of the face that was hit, which is always zero.
    pub fn intersect(&self, ray: &Ray) -> (r: Option<(Fixed, usize)>)
        ensures
            match r {
                Some((t, index)) => sphere_hit_parameter(self.center@, self.radius2@, ray@)
                    == Some(t@) && index == 0,
                None => sphere_hit_parameter(self.center@, self.radius2@, ray@) is None,
            },
    {
        let l: Vector3 = ray.origin.saturating_sub(self.center);
        let a: Fixed = ray.direction.dot(&ray.direction);
        let half_b: Fixed = ray.direction.dot(&l);
        let c: Fixed = l.dot(&l).saturating_sub(self.radius2);
        match solve_quadratic(a, half_b.saturating_add(half_b), c) {
            None => None,
            Some((t0, t1)) => {
                if t0.raw < 0 && t1.raw < 0 {
                    None
                } else if t0.raw < 0 {
                    Some((t1, 0))
                } else {
                    Some((t0, 0))
                }
            },
        }
    }
}

impl Object for Sphere {
    /// The radius is positive, its square and the area belong to it, and
    /// the material is diffuse.
    open spec fn wf(&self) -> bool {
        &&& self.radius@ > 0
        &&& self.radius2@ == fx_mul(self.radius@, self.radius@)
        &&& self.area@ == sphere_area(self.radius2@)
        &&& self.material.is_diffuse()
    }

    /// The box from `center - radius` to `center + radius`.
    open spec fn bounds(&self) -> B3 {
        let offset = V3 { x: self.radius@, y: self.radius@, z: self.radius@ };
        b3_of_points(v3_sub(self.center@, offset), v3_add(self.center@, offset))
    }

    open spec fn area(&self) -> int {
        self.area@
    }

    open spec fn emits(&self) -> bool {
        self.material.emits()
    }

    /// The nearest point of the sphere on the ray, with the outward normal.
    open spec fn hit(&self, ray: R3) -> Hit {
        match sphere_hit_parameter(self.center@, self.radius2@, ray) {
            None => no_hit(),
            Some(t) => {
                let coords = ray_at(ray.origin, ray.direction, t);
                Hit {
                    happened: true,
                    coords,
                    tcoords: v3_zero(),
                    normal: v3_normalize(v3_sub(coords, self.center@)),
                    emit: emitted(Some(self.material)),
                    distance: t,
                    m: Some(self.material),
                }
            },
        }
    }

    /// The point `center + radius * d`, where `d` is the direction that
    /// `u1` and `u2` stand for, with density `1 / area`.
    open spec fn sample_point(&self, draws: D3) -> (Hit, int) {
        let dir = sphere_direction(draws.u1, draws.u2);
        (
            sampled(
                v3_add(self.center@, v3_scale(dir, self.radius@)),
                dir,
                self.material.emission@,
            ),
            fx_div(SCALE as int, self.area@),
        )
    }

    open spec fn physical(&self) -> bool {
        physical(Some(self.material))
    }

    proof fn lemma_physical(&self, ray: R3, draws: D3) {
    }

    proof fn lemma_shadeable(&self, ray: R3, draws: D3) {
    }

    fn get_intersection(&self, ray: &Ray) -> (r: Intersection) {
        match self.intersect(ray) {
            None => Intersection::default(),
            Some((t, _)) => {
                let coords: Vector3 = ray.at(t);
                Intersection {
                    happened: true,
                    coords,
                    tcoords: Vector3::zero(),
                    normal: coords.saturating_sub(self.center).normalize(),
                    emit: emitted_radiance(&Some(self.material)),
                    distance: t,
                    m: Some(self.material),
                }
            },
        }
    }

    fn get_bounds(&self) -> (b: Bound3) {
        let offset: Vector3 = Vector3::from_element(self.radius);
        Bound3::new(self.center.saturating_sub(offset), self.center.saturating_add(offset))
    }

    fn get_area(&self) -> (a: Fixed) {
        self.area
    }

    fn sample_at(&self, draws: &SampleDraws) -> (r: (Intersection, Fixed)) {
        let (sin_theta, cos_theta): (Fixed, Fixed) = sin_cos_turns(draws.u1);
        let (sin_phi, cos_phi): (Fixed, Fixed) = sin_cos_turns(draws.u2.half());
        let dir: Vector3 = Vector3 {
            x: cos_phi,
            y: sin_phi.saturating_mul(cos_theta),
            z: sin_phi.saturating_mul(sin_theta),
        };
        let pos: Intersection = Intersection {
            happened: false,
            coords: self.center.saturating_add(dir.scale(self.radius)),
            tcoords: Vector3::zero(),
            normal: dir,
            emit: self.material.emission,
            distance: Fixed::max_value(),
            m: None,
        };
        (pos, Fixed::one().saturating_div(self.area))
    }

    fn sample(&self, pos: &mut Intersection, pdf: &mut Fixed) {
        let draws: SampleDraws = draw_sample();
        let (point, density): (Intersection, Fixed) = self.sample_at(&draws);
        *pos = point;
        *pdf = density;
    }

    fn has_emit(&self) -> (r: bool) {
        self.material.has_emission()
    }
}

} // verus!

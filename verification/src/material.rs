//! Surface materials: emission and the diffuse reflection model.
use crate::fixed::{fx_abs, fx_add, fx_div, fx_mul, fx_neg, fx_sqrt, fx_sub, Fixed, SCALE};
use crate::global::{epsilon, get_random_float, pi, EPSILON_RAW, PI_RAW};
use crate::trig::{sin_cos_of_turns, sin_cos_turns};
use crate::vector::{
    v3_add, v3_cross, v3_div, v3_dot, v3_norm, v3_normalize, v3_scale, v3_zero, Vector3, V3,
};
use vstd::prelude::*;

verus! {

/// The reflection models. Only the diffuse one can be evaluated and sampled.
#[derive(Clone, Copy, Debug, PartialEq, Eq, Structural)]
pub enum MaterialType {
    DiffuseAndGlossy,
    ReflectionAndRefraction,
    Reflection,
}

impl Default for MaterialType {
    /// The diffuse kind.
    fn default() -> (r: MaterialType)
        ensures
            r == MaterialType::DiffuseAndGlossy,
    {
        MaterialType::DiffuseAndGlossy
    }
}

/// A surface material: what it emits and how it reflects.
#[derive(Clone, Copy, Debug, PartialEq, Eq, Structural)]
pub struct Material {
    pub material_type: MaterialType,
    /// Emitted radiance.
    pub emission: Vector3,
    /// Index of refraction.
    pub ior: Fixed,
    /// Diffuse reflectance.
    pub kd: Vector3,
    /// Specular term.
    pub ks: Vector3,
    pub specular_exponent: i32,
}

/// Raw value of one half.
pub const HALF: i64 = 0x8000_0000;

/// Reflected fraction of a diffuse surface with reflectance `kd` and normal
/// `n` toward `wo`: `kd / pi` on the side of the normal, nothing behind it.
pub open spec fn diffuse_eval(kd: V3, wo: V3, n: V3) -> V3 {
    if v3_dot(n, wo) > 0 {
        v3_div(kd, PI_RAW as int)
    } else {
        v3_zero()
    }
}

/// Density with which a direction `wo` is drawn over the hemisphere around
/// `n`: `1 / (2 pi)` on the side of the normal, nothing behind it.
pub open spec fn diffuse_pdf(wo: V3, n: V3) -> int {
    if v3_dot(wo, n) > 0 {
        fx_div(HALF as int, PI_RAW as int)
    } else {
        0
    }
}

/// The direction on the unit hemisphere around the third axis that the
/// uniform numbers `u1` and `u2` stand for: height `z = |1 - 2 u1|`, radius
/// `r = sqrt(1 - z^2)`, angle `2 pi u2`.
pub open spec fn hemisphere_direction(u1: int, u2: int) -> V3 {
    let z = fx_abs(fx_sub(SCALE as int, fx_add(u1, u1)));
    let r = fx_sqrt(fx_sub(SCALE as int, fx_mul(z, z)));
    let (sin, cos) = sin_cos_of_turns(u2);
    V3 { x: fx_mul(r, cos), y: fx_mul(r, sin), z }
}

/// A unit vector at right angles to `n`: in the plane of the first and third
/// axis where `n` leans more to the first axis than to the second, else in
/// the plane of the second and third.
pub open spec fn tangent_of(n: V3) -> V3 {
    if fx_abs(n.x) > fx_abs(n.y) {
        v3_normalize(V3 { x: n.z, y: 0, z: fx_neg(n.x) })
    } else {
        v3_normalize(V3 { x: 0, y: n.z, z: fx_neg(n.y) })
    }
}

/// The vector with coordinates `a` in the frame made of `cross(c, n)`, `c`
/// and `n`, where `c` is the tangent of `n`.
pub open spec fn to_world_spec(a: V3, n: V3) -> V3 {
    let c = tangent_of(n);
    let b = v3_cross(c, n);
    v3_add(v3_add(v3_scale(b, a.x), v3_scale(c, a.y)), v3_scale(n, a.z))
}

impl Default for Material {
    /// A diffuse material that emits and reflects nothing.
    fn default() -> (r: Material)
        ensures
            r == Material::default_spec(),
    {
        Material {
            material_type: MaterialType::DiffuseAndGlossy,
            emission: Vector3::zero(),
            ior: Fixed::zero(),
            kd: Vector3::zero(),
            ks: Vector3::zero(),
            specular_exponent: 0,
        }
    }
}

impl Material {
    /// The material that `default` returns.
    pub open spec fn default_spec() -> Material {
        Material {
            material_type: MaterialType::DiffuseAndGlossy,
            emission: Vector3 { x: Fixed { raw: 0 }, y: Fixed { raw: 0 }, z: Fixed { raw: 0 } },
            ior: Fixed { raw: 0 },
            kd: Vector3 { x: Fixed { raw: 0 }, y: Fixed { raw: 0 }, z: Fixed { raw: 0 } },
            ks: Vector3 { x: Fixed { raw: 0 }, y: Fixed { raw: 0 }, z: Fixed { raw: 0 } },
            specular_exponent: 0,
        }
    }

    /// Whether the material is of the diffuse kind, the one that can be
    /// evaluated and sampled.
    pub open spec fn is_diffuse(&self) -> bool {
        self.material_type == MaterialType::DiffuseAndGlossy
    }

    /// Whether the emitted radiance is longer than the tolerance.
    pub open spec fn emits(&self) -> bool {
        v3_norm(self.emission@) > EPSILON_RAW
    }

    /// A material of the given kind and emission that reflects nothing.
    pub fn new(material_type: MaterialType, emission: Vector3) -> (r: Material)
        ensures
            r == (Material { material_type, emission, ..Material::default_spec() }),
    {
        Material {
            material_type,
            emission,
            ior: Fixed::zero(),
            kd: Vector3::zero(),
            ks: Vector3::zero(),
            specular_exponent: 0,
        }
    }

    /// Whether the surface gives off light.
    pub fn has_emission(&self) -> (r: bool)
        ensures
            r == self.emits(),
    {
        self.emission.norm().raw > epsilon().raw
    }

    /// Colour of the surface at texture coordinates `u`, `v`: always black.
    pub fn get_color_at(&self, _u: Fixed, _v: Fixed) -> (r: Vector3)
        ensures
            r@ == v3_zero(),
    {
        Vector3::zero()
    }

    /// The direction on the hemisphere around `n` that the uniform numbers
    /// `u1` and `u2` stand for.
    pub fn sample_at(&self, _wi: &Vector3, n: &Vector3, u1: Fixed, u2: Fixed) -> (r: Vector3)
        requires
            self.is_diffuse(),
        ensures
            r@ == to_world_spec(hemisphere_direction(u1@, u2@), n@),
    {
        let z: Fixed = Fixed::one().saturating_sub(u1.saturating_add(u1)).saturating_abs();
        let r: Fixed = Fixed::one().saturating_sub(z.saturating_mul(z)).sqrt();
        let (sin, cos): (Fixed, Fixed) = sin_cos_turns(u2);
        let local: Vector3 = Vector3 { x: r.saturating_mul(cos), y: r.saturating_mul(sin), z };
        to_world(&local, n)
    }

    /// A direction drawn uniformly over the hemisphere around `n`.
    pub fn sample(&self, wi: &Vector3, n: &Vector3) -> (r: Vector3)
        requires
            self.is_diffuse(),
        ensures
            exists|u1: int, u2: int|
                0 <= u1 < SCALE && 0 <= u2 < SCALE && r@ == to_world_spec(
                    #[trigger] hemisphere_direction(u1, u2),
                    n@,
                ),
    {
        let u1: Fixed = get_random_float();
        let u2: Fixed = get_random_float();
        self.sample_at(wi, n, u1, u2)
    }

    /// Density of `sample` at the direction `wo`.
    pub fn pdf(&self, _wi: &Vector3, wo: &Vector3, n: &Vector3) -> (r: Fixed)
        requires
            self.is_diffuse(),
        ensures
            r@ == diffuse_pdf(wo@, n@),
            r@ >= 0,
    {
        if wo.dot(n).raw > 0 {
            Fixed { raw: HALF }.saturating_div(pi())
        } else {
            Fixed::zero()
        }
    }

    /// Fraction of the light from `wi` that the surface with normal `n`
    /// reflects toward `wo`.
    pub fn eval(&self, _wi: &Vector3, wo: &Vector3, n: &Vector3) -> (r: Vector3)
        requires
            self.is_diffuse(),
        ensures
            r@ == diffuse_eval(self.kd@, wo@, n@),
    {
        if n.dot(wo).raw > 0 {
            self.kd.unscale(pi())
        } else {
            Vector3::zero()
        }
    }
}

/// Turns the vector `a`, given in the frame of the normal `n`, into world
/// coordinates.
fn to_world(a: &Vector3, n: &Vector3) -> (r: Vector3)
    ensures
        r@ == to_world_spec(a@, n@),
{
    let c: Vector3 = if n.x.saturating_abs().raw > n.y.saturating_abs().raw {
        Vector3 { x: n.z, y: Fixed::zero(), z: n.x.saturating_neg() }.normalize()
    } else {
        Vector3 { x: Fixed::zero(), y: n.z, z: n.y.saturating_neg() }.normalize()
    };
    let b: Vector3 = c.cross(n);
    b.scale(a.x).saturating_add(c.scale(a.y)).saturating_add(n.scale(a.z))
}

} // verus!

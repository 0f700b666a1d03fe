//! Rays: an origin, a direction and the reciprocal of the direction.
use crate::fixed::{fx_div, Fixed, RAW_MAX, SCALE};
use crate::vector::{v3_add, v3_scale, v3_zero, Vector3, V3};
use vstd::prelude::*;

verus! {

/// Component-wise reciprocal of a direction.
pub open spec fn v3_recip(d: V3) -> V3 {
    V3 { x: fx_div(SCALE as int, d.x), y: fx_div(SCALE as int, d.y), z: fx_div(SCALE as int, d.z) }
}

/// The point `origin + t * direction`.
pub open spec fn ray_at(origin: V3, direction: V3, t: int) -> V3 {
    v3_add(origin, v3_scale(direction, t))
}

/// Mathematical model of a ray: what intersection tests read of it.
pub struct R3 {
    pub origin: V3,
    pub direction: V3,
    pub inv: V3,
}

/// For each axis, whether the direction `d` points down that axis.
pub open spec fn direction_signs(d: V3) -> Seq<bool> {
    seq![d.x < 0, d.y < 0, d.z < 0]
}

/// A half-line `origin + t * direction`, with the reciprocal of its direction
/// kept for box tests and the parameter range in which hits count.
#[derive(Clone, Copy, Debug, PartialEq, Eq, Structural)]
pub struct Ray {
    pub origin: Vector3,
    pub direction: Vector3,
    pub direction_inv: Vector3,
    pub t: Fixed,
    pub t_min: Fixed,
    pub t_max: Fixed,
}

impl View for Ray {
    type V = R3;

    open spec fn view(&self) -> R3 {
        R3 { origin: self.origin@, direction: self.direction@, inv: self.direction_inv@ }
    }
}

impl Default for Ray {
    /// The ray at the origin without direction, with parameter range from
    /// zero to the largest number.
    fn default() -> (r: Ray)
        ensures
            r.origin@ == v3_zero(),
            r.direction@ == v3_zero(),
            r.direction_inv@ == v3_zero(),
            r.t@ == 0,
            r.t_min@ == 0,
            r.t_max@ == RAW_MAX,
    {
        Ray {
            origin: Vector3::zero(),
            direction: Vector3::zero(),
            direction_inv: Vector3::zero(),
            t: Fixed::zero(),
            t_min: Fixed::zero(),
            t_max: Fixed::max_value(),
        }
    }
}

impl Ray {
    /// Whether the stored reciprocal belongs to the stored direction.
    pub open spec fn wf(&self) -> bool {
        self.direction_inv@ == v3_recip(self.direction@)
    }

    /// The ray from `origin` along `direction`, with parameter range from zero
    /// to the largest number.
    pub fn new(origin: Vector3, direction: Vector3, t: Fixed) -> (r: Ray)
        ensures
            r.origin == origin,
            r.direction == direction,
            r.t == t,
            r.t_min@ == 0,
            r.t_max@ == RAW_MAX,
            r.wf(),
    {
        Ray {
            origin,
            direction,
            direction_inv: Vector3 {
                x: Fixed::one().saturating_div(direction.x),
                y: Fixed::one().saturating_div(direction.y),
                z: Fixed::one().saturating_div(direction.z),
            },
            t,
            t_min: Fixed::zero(),
            t_max: Fixed::max_value(),
        }
    }

    /// For each axis, whether the ray points down that axis.
    pub fn dir_is_neg(&self) -> (r: [bool; 3])
        ensures
            r@ == direction_signs(self.direction@),
    {
        let r: [bool; 3] = [
            self.direction.x.raw < 0,
            self.direction.y.raw < 0,
            self.direction.z.raw < 0,
        ];
        proof {
            assert(r@ =~= direction_signs(self.direction@));
        }
        r
    }

    /// The point of the ray at parameter `t`.
    pub fn at(&self, t: Fixed) -> (p: Vector3)
        ensures
            p@ == ray_at(self.origin@, self.direction@, t@),
    {
        self.origin.saturating_add(self.direction.scale(t))
    }
}

} // verus!

//! Point lights and area lights of the direct-lighting path.
use crate::fixed::{Fixed, SCALE};
use crate::vector::{Vector3, V3};
use vstd::prelude::*;

verus! {

/// A point light.
#[derive(Clone, Copy, Debug, PartialEq, Eq, Structural)]
pub struct Light {
    pub position: Vector3,
    pub intensity: Vector3,
}

impl Light {
    /// The light at `position` of the given intensity.
    pub fn new(position: Vector3, intensity: Vector3) -> (r: Light)
        ensures
            r == (Light { position, intensity }),
    {
        Light { position, intensity }
    }
}

/// A square light: a point light with a side length, a normal and the two
/// directions of its sides.
#[derive(Clone, Copy, Debug, PartialEq, Eq, Structural)]
pub struct AreaLight {
    pub base: Light,
    pub length: Fixed,
    pub normal: Vector3,
    pub u: Vector3,
    pub v: Vector3,
}

impl AreaLight {
    /// The square light at `p` of intensity `i`, with sides of length one
    /// hundred along the first and third axis, facing down the second axis.
    pub fn new(p: &Vector3, i: &Vector3) -> (r: AreaLight)
        ensures
            r.base == (Light { position: *p, intensity: *i }),
            r.length@ == 100 * SCALE,
            r.normal@ == (V3 { x: 0, y: -SCALE, z: 0 }),
            r.u@ == (V3 { x: SCALE as int, y: 0, z: 0 }),
            r.v@ == (V3 { x: 0, y: 0, z: SCALE as int }),
    {
        AreaLight {
            base: Light::new(*p, *i),
            length: Fixed::from_int(100),
            normal: Vector3::from_ints(0, -1, 0),
            u: Vector3::from_ints(1, 0, 0),
            v: Vector3::from_ints(0, 0, 1),
        }
    }
}

} // verus!

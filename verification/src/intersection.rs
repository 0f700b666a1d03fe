//! What a ray found: whether it hit, where, and what surface.
use crate::fixed::{Fixed, RAW_MAX};
use crate::material::Material;
use crate::vector::{v3_zero, Vector3, V3};
use vstd::prelude::*;

verus! {

/// Mathematical model of an [`Intersection`].
pub struct Hit {
    pub happened: bool,
    pub coords: V3,
    pub tcoords: V3,
    pub normal: V3,
    pub emit: V3,
    pub distance: int,
    pub m: Option<Material>,
}

/// The result that stands for "nothing was hit": at an unbounded distance.
pub open spec fn no_hit() -> Hit {
    Hit {
        happened: false,
        coords: v3_zero(),
        tcoords: v3_zero(),
        normal: v3_zero(),
        emit: v3_zero(),
        distance: RAW_MAX as int,
        m: None,
    }
}

/// The record of where a ray met a surface.
#[derive(Clone, Copy, Debug)]
pub struct Intersection {
    /// Whether anything was hit. The other fields count only if it was.
    pub happened: bool,
    /// The point that was hit.
    pub coords: Vector3,
    /// Texture coordinates of the point.
    pub tcoords: Vector3,
    /// Surface normal at the point.
    pub normal: Vector3,
    /// Radiance that the surface emits.
    pub emit: Vector3,
    /// Ray parameter of the point.
    pub distance: Fixed,
    /// Material of the surface.
    pub m: Option<Material>,
}

impl View for Intersection {
    type V = Hit;

    open spec fn view(&self) -> Hit {
        Hit {
            happened: self.happened,
            coords: self.coords@,
            tcoords: self.tcoords@,
            normal: self.normal@,
            emit: self.emit@,
            distance: self.distance@,
            m: self.m,
        }
    }
}

impl Default for Intersection {
    /// The result that stands for "nothing was hit".
    fn default() -> (r: Intersection)
        ensures
            r@ == no_hit(),
    {
        Intersection {
            happened: false,
            coords: Vector3::zero(),
            tcoords: Vector3::zero(),
            normal: Vector3::zero(),
            emit: Vector3::zero(),
            distance: Fixed::max_value(),
            m: None,
        }
    }
}

impl Intersection {
    /// Whether the surface that was hit gives off light.
    pub open spec fn emits(&self) -> bool {
        match self.m {
            Some(m) => m.emits(),
            None => false,
        }
    }

    /// Whether the surface that was hit gives off light.
    pub fn has_emit(&self) -> (r: bool)
        ensures
            r == self.emits(),
    {
        match self.m {
            Some(m) => m.has_emission(),
            None => false,
        }
    }
}

} // verus!

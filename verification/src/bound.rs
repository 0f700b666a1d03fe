//! Axis-aligned bounding boxes.
use crate::fixed::{
    fx_div, fx_max, fx_min, fx_mul, fx_sub, saturate, trunc_div, Fixed, RAW_MAX, RAW_MIN,
};
use crate::ray::Ray;
use crate::vector::{
    mul_raw, narrow, v3_axis, v3_max, v3_min, v3_sub, v3max, v3min, wide_mul, Vector3, V3,
};
use vstd::prelude::*;

verus! {

/// Mathematical model of a box: its two corners.
pub struct B3 {
    pub lo: V3,
    pub hi: V3,
}

/// The box that holds nothing: every minimum is the largest number and every
/// maximum the smallest.
pub open spec fn b3_empty() -> B3 {
    B3 {
        lo: V3 { x: RAW_MAX as int, y: RAW_MAX as int, z: RAW_MAX as int },
        hi: V3 { x: RAW_MIN as int, y: RAW_MIN as int, z: RAW_MIN as int },
    }
}

/// The smallest box around two points.
pub open spec fn b3_of_points(p1: V3, p2: V3) -> B3 {
    B3 { lo: v3_min(p1, p2), hi: v3_max(p1, p2) }
}

/// The smallest box around two boxes.
pub open spec fn b3_union(a: B3, b: B3) -> B3 {
    B3 { lo: v3_min(a.lo, b.lo), hi: v3_max(a.hi, b.hi) }
}

/// The smallest box around a box and a point.
pub open spec fn b3_union_point(a: B3, p: V3) -> B3 {
    B3 { lo: v3_min(a.lo, p), hi: v3_max(a.hi, p) }
}

/// `a <= b` in every component.
pub open spec fn v3_le(a: V3, b: V3) -> bool {
    a.x <= b.x && a.y <= b.y && a.z <= b.z
}

/// The minimum corner does not exceed the maximum corner.
pub open spec fn b3_valid(b: B3) -> bool {
    v3_le(b.lo, b.hi)
}

/// `inner` lies within `outer`.
pub open spec fn b3_contains(outer: B3, inner: B3) -> bool {
    v3_le(outer.lo, inner.lo) && v3_le(inner.hi, outer.hi)
}

/// The point `p` lies within `b`, faces included.
pub open spec fn b3_inside(p: V3, b: B3) -> bool {
    v3_le(b.lo, p) && v3_le(p, b.hi)
}

/// The two boxes share a point, faces included.
pub open spec fn b3_overlaps(a: B3, b: B3) -> bool {
    v3_le(b.lo, a.hi) && v3_le(a.lo, b.hi)
}

/// The vector from the minimum to the maximum corner.
pub open spec fn b3_diagonal(b: B3) -> V3 {
    v3_sub(b.hi, b.lo)
}

/// First axis on which `d` is largest.
pub open spec fn max_axis(d: V3) -> int {
    if d.x >= d.y && d.x >= d.z {
        0
    } else if d.y >= d.z {
        1
    } else {
        2
    }
}

/// Twice the sum of the three face areas of a box with diagonal `d`.
pub open spec fn b3_surface_area(b: B3) -> int {
    let d = b3_diagonal(b);
    saturate(2 * (mul_raw(d.x, d.y) + mul_raw(d.x, d.z) + mul_raw(d.y, d.z)))
}

/// Midpoint of the two corners, each component rounded toward zero.
pub open spec fn b3_centroid(b: B3) -> V3 {
    V3 {
        x: trunc_div(b.lo.x + b.hi.x, 2),
        y: trunc_div(b.lo.y + b.hi.y, 2),
        z: trunc_div(b.lo.z + b.hi.z, 2),
    }
}

/// Where `p` lies relative to the corners of `b`: measured from the minimum
/// corner, and, on the first and second axis, as a fraction of the box's
/// extent where that extent is positive. On the third axis the distance
/// itself is given.
pub open spec fn b3_offset(b: B3, p: V3) -> V3 {
    let o = v3_sub(p, b.lo);
    V3 {
        x: if b.hi.x > b.lo.x {
            fx_div(o.x, fx_sub(b.hi.x, b.lo.x))
        } else {
            o.x
        },
        y: if b.hi.y > b.lo.y {
            fx_div(o.y, fx_sub(b.hi.y, b.lo.y))
        } else {
            o.y
        },
        z: o.z,
    }
}

/// Ray parameter at which the ray meets the plane `bound` of one axis:
/// `(bound - origin) * inv`.
pub open spec fn slab_t(bound: int, origin: int, inv: int) -> int {
    fx_mul(fx_sub(bound, origin), inv)
}

/// Parameter at which the ray enters the slab of `axis`.
pub open spec fn slab_near(b: B3, origin: V3, inv: V3, neg: Seq<bool>, axis: int) -> int {
    if neg[axis] {
        slab_t(v3_axis(b.hi, axis), v3_axis(origin, axis), v3_axis(inv, axis))
    } else {
        slab_t(v3_axis(b.lo, axis), v3_axis(origin, axis), v3_axis(inv, axis))
    }
}

/// Parameter at which the ray leaves the slab of `axis`.
pub open spec fn slab_far(b: B3, origin: V3, inv: V3, neg: Seq<bool>, axis: int) -> int {
    if neg[axis] {
        slab_t(v3_axis(b.lo, axis), v3_axis(origin, axis), v3_axis(inv, axis))
    } else {
        slab_t(v3_axis(b.hi, axis), v3_axis(origin, axis), v3_axis(inv, axis))
    }
}

/// Largest of the three entry parameters.
pub open spec fn slab_enter(b: B3, origin: V3, inv: V3, neg: Seq<bool>) -> int {
    fx_max(
        fx_max(slab_near(b, origin, inv, neg, 0), slab_near(b, origin, inv, neg, 1)),
        slab_near(b, origin, inv, neg, 2),
    )
}

/// Smallest of the three exit parameters.
pub open spec fn slab_exit(b: B3, origin: V3, inv: V3, neg: Seq<bool>) -> int {
    fx_min(
        fx_min(slab_far(b, origin, inv, neg, 0), slab_far(b, origin, inv, neg, 1)),
        slab_far(b, origin, inv, neg, 2),
    )
}

/// Slab test: the ray leaves the box after its origin and not before it
/// enters.
pub open spec fn b3_hit_by(b: B3, origin: V3, inv: V3, neg: Seq<bool>) -> bool {
    slab_exit(b, origin, inv, neg) > 0 && slab_enter(b, origin, inv, neg) <= slab_exit(
        b,
        origin,
        inv,
        neg,
    )
}

/// An axis-aligned box given by its minimum and maximum corner.
#[derive(Clone, Copy, Debug, PartialEq, Eq, Structural)]
pub struct Bound3 {
    pub p_min: Vector3,
    pub p_max: Vector3,
}

impl View for Bound3 {
    type V = B3;

    open spec fn view(&self) -> B3 {
        B3 { lo: self.p_min@, hi: self.p_max@ }
    }
}

impl Default for Bound3 {
    /// The empty box.
    fn default() -> (r: Bound3)
        ensures
            r@ == b3_empty(),
    {
        Bound3 {
            p_min: Vector3::from_element(Fixed::max_value()),
            p_max: Vector3::from_element(Fixed::min_value()),
        }
    }
}

/// The smallest box around `b1` and `b2`.
pub fn union(b1: &Bound3, b2: &Bound3) -> (r: Bound3)
    ensures
        r@ == b3_union(b1@, b2@),
{
    Bound3 { p_min: v3min(&b1.p_min, &b2.p_min), p_max: v3max(&b1.p_max, &b2.p_max) }
}

/// The smallest box around `b1` and the point `p`.
pub fn union_point(b1: &Bound3, p: &Vector3) -> (r: Bound3)
    ensures
        r@ == b3_union_point(b1@, p@),
{
    Bound3 { p_min: v3min(&b1.p_min, p), p_max: v3max(&b1.p_max, p) }
}

impl Bound3 {
    /// The smallest box around the points `p1` and `p2`.
    pub fn new(p1: Vector3, p2: Vector3) -> (r: Bound3)
        ensures
            r@ == b3_of_points(p1@, p2@),
            b3_valid(r@),
    {
        Bound3 { p_min: v3min(&p1, &p2), p_max: v3max(&p1, &p2) }
    }

    /// The vector from the minimum to the maximum corner.
    pub fn diagonal(&self) -> (d: Vector3)
        ensures
            d@ == b3_diagonal(self@),
    {
        self.p_max.saturating_sub(self.p_min)
    }

    /// Index of the axis on which the box is longest; of several such axes
    /// the first.
    pub fn max_extent(&self) -> (axis: i32)
        ensures
            axis == max_axis(b3_diagonal(self@)),
            0 <= axis <= 2,
    {
        let d: Vector3 = self.diagonal();
        if d.x.raw >= d.y.raw && d.x.raw >= d.z.raw {
            0
        } else if d.y.raw >= d.z.raw {
            1
        } else {
            2
        }
    }

    /// Area of the six faces.
    pub fn surface_area(&self) -> (a: Fixed)
        ensures
            a@ == b3_surface_area(self@),
    {
        let d: Vector3 = self.diagonal();
        let faces: i128 = wide_mul(d.x, d.y) + wide_mul(d.x, d.z) + wide_mul(d.y, d.z);
        narrow(2 * faces)
    }

    /// The midpoint of the box.
    pub fn centroid(&self) -> (c: Vector3)
        ensures
            c@ == b3_centroid(self@),
    {
        Vector3 {
            x: midpoint(self.p_min.x, self.p_max.x),
            y: midpoint(self.p_min.y, self.p_max.y),
            z: midpoint(self.p_min.z, self.p_max.z),
        }
    }

    /// The smallest box around this box and `other`, whichever way round
    /// the corners of either are given.
    pub fn intersect(&self, other: &Bound3) -> (r: Bound3)
        ensures
            r@ == b3_of_points(v3_min(self@.lo, other@.lo), v3_max(self@.hi, other@.hi)),
    {
        Bound3::new(v3min(&self.p_min, &other.p_min), v3max(&self.p_max, &other.p_max))
    }

    /// Where `p` lies relative to the corners of the box: measured from the
    /// minimum corner, and, on the first and second axis, as a fraction of
    /// the box's extent where that extent is positive.
    pub fn offset(&self, p: &Vector3) -> (o: Vector3)
        ensures
            o@ == b3_offset(self@, p@),
    {
        let mut o: Vector3 = p.saturating_sub(self.p_min);
        if self.p_max.x.raw > self.p_min.x.raw {
            o.x = o.x.saturating_div(self.p_max.x.saturating_sub(self.p_min.x));
        }
        if self.p_max.y.raw > self.p_min.y.raw {
            o.y = o.y.saturating_div(self.p_max.y.saturating_sub(self.p_min.y));
        }
        o
    }

    /// Whether the two boxes share a point, faces included.
    pub fn overlaps(b1: &Bound3, b2: &Bound3) -> (r: bool)
        ensures
            r == b3_overlaps(b1@, b2@),
    {
        let x: bool = (b1.p_max.x.raw >= b2.p_min.x.raw) && (b1.p_min.x.raw <= b2.p_max.x.raw);
        let y: bool = (b1.p_max.y.raw >= b2.p_min.y.raw) && (b1.p_min.y.raw <= b2.p_max.y.raw);
        let z: bool = (b1.p_max.z.raw >= b2.p_min.z.raw) && (b1.p_min.z.raw <= b2.p_max.z.raw);
        x && y && z
    }

    /// Whether the point `p` lies within `b`, faces included.
    pub fn inside(p: &Vector3, b: &Bound3) -> (r: bool)
        ensures
            r == b3_inside(p@, b@),
    {
        p.x.raw >= b.p_min.x.raw && p.x.raw <= b.p_max.x.raw && p.y.raw >= b.p_min.y.raw
            && p.y.raw <= b.p_max.y.raw && p.z.raw >= b.p_min.z.raw && p.z.raw <= b.p_max.z.raw
    }

    /// Slab test of the ray against the box. `inv_dir` is the reciprocal of
    /// the ray's direction and `dir_is_neg` says, for each axis, whether the
    /// direction points down that axis: on such an axis the ray enters through
    /// the maximum face. The ray hits if and only if it leaves the box at a
    /// positive parameter that is not smaller than the one at which it enters.
    pub fn intersect_ray(&self, ray: &Ray, inv_dir: &Vector3, dir_is_neg: &[bool; 3]) -> (hit:
        bool)
        ensures
            hit == b3_hit_by(self@, ray.origin@, inv_dir@, dir_is_neg@),
    {
        let mut t_enter: Fixed = Fixed::min_value();
        let mut t_exit: Fixed = Fixed::max_value();
        let mut i: usize = 0;
        while i < 3
            invariant
                0 <= i <= 3,
                i == 0 ==> t_enter@ == RAW_MIN && t_exit@ == RAW_MAX,
                i == 1 ==> t_enter@ == slab_near(self@, ray.origin@, inv_dir@, dir_is_neg@, 0)
                    && t_exit@ == slab_far(self@, ray.origin@, inv_dir@, dir_is_neg@, 0),
                i == 2 ==> t_enter@ == fx_max(
                    slab_near(self@, ray.origin@, inv_dir@, dir_is_neg@, 0),
                    slab_near(self@, ray.origin@, inv_dir@, dir_is_neg@, 1),
                ) && t_exit@ == fx_min(
                    slab_far(self@, ray.origin@, inv_dir@, dir_is_neg@, 0),
                    slab_far(self@, ray.origin@, inv_dir@, dir_is_neg@, 1),
                ),
                i == 3 ==> t_enter@ == slab_enter(self@, ray.origin@, inv_dir@, dir_is_neg@)
                    && t_exit@ == slab_exit(self@, ray.origin@, inv_dir@, dir_is_neg@),
            decreases 3 - i,
        {
            let t1: Fixed = self.p_min.axis(i).saturating_sub(ray.origin.axis(i)).saturating_mul(
                inv_dir.axis(i),
            );
            let t2: Fixed = self.p_max.axis(i).saturating_sub(ray.origin.axis(i)).saturating_mul(
                inv_dir.axis(i),
            );
            let near: Fixed = if dir_is_neg[i] {
                t2
            } else {
                t1
            };
            let far: Fixed = if dir_is_neg[i] {
                t1
            } else {
                t2
            };
            t_enter = t_enter.max(near);
            t_exit = t_exit.min(far);
            i = i + 1;
        }
        t_exit.raw > 0 && t_enter.raw <= t_exit.raw
    }
}

/// Midpoint of two numbers, rounded toward zero.
fn midpoint(a: Fixed, b: Fixed) -> (m: Fixed)
    ensures
        m@ == trunc_div(a@ + b@, 2),
{
    let sum: i128 = a.raw as i128 + b.raw as i128;
    Fixed { raw: (sum / 2) as i64 }
}

/// The union of two boxes does not depend on their order.
pub proof fn lemma_union_commutative(a: Bound3, b: Bound3)
    ensures
        b3_union(a@, b@) == b3_union(b@, a@),
{
}

/// Uniting three boxes gives the same box however they are grouped.
pub proof fn lemma_union_associative(a: Bound3, b: Bound3, c: Bound3)
    ensures
        b3_union(b3_union(a@, b@), c@) == b3_union(a@, b3_union(b@, c@)),
{
}

/// The union of a box with itself is that box.
pub proof fn lemma_union_idempotent(a: Bound3)
    ensures
        b3_union(a@, a@) == a@,
{
}

/// The union of two boxes contains each of them.
pub proof fn lemma_union_contains(a: Bound3, b: Bound3)
    ensures
        b3_contains(b3_union(a@, b@), a@),
        b3_contains(b3_union(a@, b@), b@),
{
}

/// A union keeps the minimum corner below the maximum corner as soon as one
/// of the two boxes does; the union of any box with a point always does.
pub proof fn lemma_union_valid(a: Bound3, b: Bound3, p: Vector3)
    ensures
        b3_valid(a@) || b3_valid(b@) ==> b3_valid(b3_union(a@, b@)),
        b3_valid(b3_union_point(a@, p@)),
        b3_inside(p@, b3_union_point(a@, p@)),
        b3_contains(b3_union_point(a@, p@), a@),
{
}

} // verus!

//! Triangles and meshes of triangles.
use crate::bound::{
    b3_empty, b3_of_points, b3_union, b3_union_point, union, union_point, Bound3, B3,
};
use crate::bvh::{lemma_node_hit_source, node_hit, BVHAccel, SplitMethod};
use crate::fixed::{fx_abs, fx_add, fx_div, fx_mul, fx_sqrt, fx_sub, trunc_div, Fixed, SCALE};
use crate::global::{epsilon, EPSILON_RAW};
use crate::intersection::{no_hit, Hit, Intersection};
use crate::material::Material;
use crate::objects::{
    draw_sample, emitted, emitted_radiance, physical, sampled, shadeable,
    DegenerateGeometryError, Object, SampleDraws, D3,
};
use crate::ray::{ray_at, Ray, R3};
use crate::vector::{
    v3_add, v3_cross, v3_dot, v3_norm, v3_normalize, v3_scale, v3_sub, v3_zero, Vector3, V3,
};
use vstd::prelude::*;

verus! {

/// Area of the triangle spanned by the edges `e1` and `e2`: half the length
/// of their cross product.
pub open spec fn triangle_area(e1: V3, e2: V3) -> int {
    trunc_div(v3_norm(v3_cross(e1, e2)), 2)
}

/// The point of the triangle with barycentric weights `1 - x`, `x (1 - y)`
/// and `x y`, where `x = sqrt(u1)` and `y = u2`.
pub open spec fn triangle_point(v0: V3, v1: V3, v2: V3, u1: int, u2: int) -> V3 {
    let x = fx_sqrt(u1);
    let y = u2;
    v3_add(
        v3_add(
            v3_scale(v0, fx_sub(SCALE as int, x)),
            v3_scale(v1, fx_mul(x, fx_sub(SCALE as int, y))),
        ),
        v3_scale(v2, fx_mul(x, y)),
    )
}

/// Emission of an optional material; nothing if there is none.
pub open spec fn emission_of(m: Option<Material>) -> V3 {
    match m {
        Some(m) => m.emission@,
        None => v3_zero(),
    }
}

/// A triangle, with two of its edges, its unit normal and its area kept
/// beside its vertices.
#[derive(Clone, Copy, Debug)]
pub struct Triangle {
    pub v0: Vector3,
    pub v1: Vector3,
    pub v2: Vector3,
    /// `v1 - v0`
    pub e1: Vector3,
    /// `v2 - v0`
    pub e2: Vector3,
    /// Texture coordinates of the vertices.
    pub t0: Vector3,
    pub t1: Vector3,
    pub t2: Vector3,
    pub normal: Vector3,
    pub area: Fixed,
    pub material: Option<Material>,
}

impl Triangle {
    /// The edges, the normal and the area belong to the vertices, and the
    /// area is positive.
    pub open spec fn well_shaped(&self) -> bool {
        &&& self.e1@ == v3_sub(self.v1@, self.v0@)
        &&& self.e2@ == v3_sub(self.v2@, self.v0@)
        &&& self.normal@ == v3_normalize(v3_cross(self.e1@, self.e2@))
        &&& self.area@ == triangle_area(self.e1@, self.e2@)
        &&& self.area@ > 0
    }

    /// The triangle with the given vertices. One without area is refused.
    pub fn new(vertices: [Vector3; 3], material: Option<Material>) -> (r: Result<
        Triangle,
        DegenerateGeometryError,
    >)
        ensures
            r is Ok <==> triangle_area(
                v3_sub(vertices[1]@, vertices[0]@),
                v3_sub(vertices[2]@, vertices[0]@),
            ) > 0,
            r matches Ok(t) ==> t.well_shaped() && t.v0 == vertices[0] && t.v1 == vertices[1]
                && t.v2 == vertices[2] && t.material == material,
    {
        let v0: Vector3 = vertices[0];
        let v1: Vector3 = vertices[1];
        let v2: Vector3 = vertices[2];
        let e1: Vector3 = v1.saturating_sub(v0);
        let e2: Vector3 = v2.saturating_sub(v0);
        let cross: Vector3 = e1.cross(&e2);
        let area: Fixed = cross.norm().half();
        if area.raw <= 0 {
            return Err(DegenerateGeometryError {  });
        }
        Ok(
            Triangle {
                v0,
                v1,
                v2,
                e1,
                e2,
                t0: Vector3::zero(),
                t1: Vector3::zero(),
                t2: Vector3::zero(),
                normal: cross.normalize(),
                area,
                material,
            },
        )
    }
}

impl Object for Triangle {
    /// The triangle is well shaped and its material, if it has one, is
    /// diffuse.
    open spec fn wf(&self) -> bool {
        self.well_shaped() && shadeable(self.material)
    }

    /// The smallest box around the three vertices.
    open spec fn bounds(&self) -> B3 {
        b3_union_point(b3_of_points(self.v0@, self.v1@), self.v2@)
    }

    open spec fn area(&self) -> int {
        self.area@
    }

    open spec fn emits(&self) -> bool {
        match self.material {
            Some(m) => m.emits(),
            None => false,
        }
    }

    /// Moeller and Trumbore's test. With `p = direction x e2`,
    /// `det = e1 . p`, `s = origin - v0` and `q = s x e1`, the ray meets the
    /// plane at barycentric coordinates `u = (s . p) / det` and
    /// `v = (direction . q) / det` and at parameter `t = (e2 . q) / det`. It
    /// misses if it runs along the normal rather than against it, if `det`
    /// is within the tolerance of zero, if `u` or `v` is negative, if `u` or
    /// `u + v` exceeds one, or if `t` is negative.
    open spec fn hit(&self, ray: R3) -> Hit {
        let pvec = v3_cross(ray.direction, self.e2@);
        let det = v3_dot(self.e1@, pvec);
        let tvec = v3_sub(ray.origin, self.v0@);
        let u = fx_div(v3_dot(tvec, pvec), det);
        let qvec = v3_cross(tvec, self.e1@);
        let v = fx_div(v3_dot(ray.direction, qvec), det);
        let t = fx_div(v3_dot(self.e2@, qvec), det);
        if v3_dot(ray.direction, self.normal@) > 0 {
            no_hit()
        } else if fx_abs(det) < EPSILON_RAW {
            no_hit()
        } else if u < 0 || u > SCALE {
            no_hit()
        } else if v < 0 || fx_add(v, u) > SCALE {
            no_hit()
        } else if t < 0 {
            no_hit()
        } else {
            Hit {
                happened: true,
                coords: ray_at(ray.origin, ray.direction, t),
                tcoords: v3_zero(),
                normal: self.normal@,
                emit: emitted(self.material),
                distance: t,
                m: self.material,
            }
        }
    }

    /// The point with barycentric weights from `u1` and `u2`, with density
    /// `1 / area`.
    open spec fn sample_point(&self, draws: D3) -> (Hit, int) {
        (
            sampled(
                triangle_point(self.v0@, self.v1@, self.v2@, draws.u1, draws.u2),
                self.normal@,
                emission_of(self.material),
            ),
            fx_div(SCALE as int, self.area@),
        )
    }

    open spec fn physical(&self) -> bool {
        physical(self.material)
    }

    proof fn lemma_physical(&self, ray: R3, draws: D3) {
    }

    proof fn lemma_shadeable(&self, ray: R3, draws: D3) {
    }

    fn get_intersection(&self, ray: &Ray) -> (r: Intersection) {
        if ray.direction.dot(&self.normal).raw > 0 {
            return Intersection::default();
        }
        let pvec: Vector3 = ray.direction.cross(&self.e2);
        let det: Fixed = self.e1.dot(&pvec);
        if det.saturating_abs().raw < epsilon().raw {
            return Intersection::default();
        }
        let tvec: Vector3 = ray.origin.saturating_sub(self.v0);
        let u: Fixed = tvec.dot(&pvec).saturating_div(det);
        if u.raw < 0 || u.raw > SCALE {
            return Intersection::default();
        }
        let qvec: Vector3 = tvec.cross(&self.e1);
        let v: Fixed = ray.direction.dot(&qvec).saturating_div(det);
        if v.raw < 0 || v.saturating_add(u).raw > SCALE {
            return Intersection::default();
        }
        let t: Fixed = self.e2.dot(&qvec).saturating_div(det);
        if t.raw < 0 {
            return Intersection::default();
        }
        Intersection {
            happened: true,
            coords: ray.at(t),
            tcoords: Vector3::zero(),
            normal: self.normal,
            emit: emitted_radiance(&self.material),
            distance: t,
            m: self.material,
        }
    }

    fn get_bounds(&self) -> (b: Bound3) {
        union_point(&Bound3::new(self.v0, self.v1), &self.v2)
    }

    fn get_area(&self) -> (a: Fixed) {
        self.area
    }

    fn sample_at(&self, draws: &SampleDraws) -> (r: (Intersection, Fixed)) {
        let x: Fixed = draws.u1.sqrt();
        let y: Fixed = draws.u2;
        let one: Fixed = Fixed::one();
        let coords: Vector3 = self.v0.scale(one.saturating_sub(x)).saturating_add(
            self.v1.scale(x.saturating_mul(one.saturating_sub(y))),
        ).saturating_add(self.v2.scale(x.saturating_mul(y)));
        let emit: Vector3 = match self.material {
            Some(m) => m.emission,
            None => Vector3::zero(),
        };
        let pos: Intersection = Intersection {
            happened: false,
            coords,
            tcoords: Vector3::zero(),
            normal: self.normal,
            emit,
            distance: Fixed::max_value(),
            m: None,
        };
        (pos, one.saturating_div(self.area))
    }

    fn sample(&self, pos: &mut Intersection, pdf: &mut Fixed) {
        let draws: SampleDraws = draw_sample();
        let (point, density): (Intersection, Fixed) = self.sample_at(&draws);
        *pos = point;
        *pdf = density;
    }

    fn has_emit(&self) -> (r: bool) {
        match self.material {
            Some(m) => m.has_emission(),
            None => false,
        }
    }
}

/// The smallest box around the triangles of `triangles`.
pub open spec fn mesh_box(triangles: Seq<Triangle>) -> B3
    decreases triangles.len(),
{
    if triangles.len() == 0 {
        b3_empty()
    } else {
        b3_union(mesh_box(triangles.drop_last()), triangles.last().bounds())
    }
}

/// The sum of the areas of `triangles`.
pub open spec fn mesh_area(triangles: Seq<Triangle>) -> int
    decreases triangles.len(),
{
    if triangles.len() == 0 {
        0
    } else {
        fx_add(mesh_area(triangles.drop_last()), triangles.last().area@)
    }
}

/// The three vertices of face `f` exist and span a triangle with area.
pub open spec fn face_ok(vertices: Seq<Vector3>, indices: Seq<usize>, f: int) -> bool {
    &&& indices[3 * f] < vertices.len()
    &&& indices[3 * f + 1] < vertices.len()
    &&& indices[3 * f + 2] < vertices.len()
    &&& triangle_area(
        v3_sub(vertices[indices[3 * f + 1] as int]@, vertices[indices[3 * f] as int]@),
        v3_sub(vertices[indices[3 * f + 2] as int]@, vertices[indices[3 * f] as int]@),
    ) > 0
}

/// The index list names at least one face, three indices to a face, and
/// every face is sound.
pub open spec fn mesh_input_ok(vertices: Seq<Vector3>, indices: Seq<usize>) -> bool {
    &&& indices.len() > 0
    &&& indices.len() % 3 == 0
    &&& forall|f: int| 0 <= f < indices.len() / 3 ==> face_ok(vertices, indices, f)
}

/// The triangle `t` is face `f` of the mesh, of material `m`.
pub open spec fn is_face(
    t: Triangle,
    vertices: Seq<Vector3>,
    indices: Seq<usize>,
    f: int,
    m: Material,
) -> bool {
    &&& t.well_shaped()
    &&& t.v0 == vertices[indices[3 * f] as int]
    &&& t.v1 == vertices[indices[3 * f + 1] as int]
    &&& t.v2 == vertices[indices[3 * f + 2] as int]
    &&& t.material == Some(m)
}

/// A surface made of triangles that share one material, with its own tree
/// over them.
#[derive(Debug)]
pub struct MeshTriangle {
    pub triangles: Vec<Triangle>,
    pub bvh: BVHAccel,
    pub area: Fixed,
    pub m: Material,
    pub bounding_box: Bound3,
}

impl MeshTriangle {
    /// The faces, the tree, the box and the area belong together: there is
    /// at least one triangle; every triangle is well shaped and of the
    /// mesh's material; the tree belongs to the triangles; the box and the
    /// area are those of all triangles together.
    pub open spec fn well_shaped(&self) -> bool {
        &&& self.triangles@.len() >= 1
        &&& forall|i: int|
            0 <= i < self.triangles@.len() ==> (#[trigger] self.triangles@[i]).well_shaped()
                && self.triangles@[i].material == Some(self.m)
        &&& self.bvh.wf_for(self.triangles@)
        &&& self.bounding_box@ == mesh_box(self.triangles@)
        &&& self.area@ == mesh_area(self.triangles@)
    }

    /// The mesh whose face `f` has the vertices `indices[3 f]`,
    /// `indices[3 f + 1]` and `indices[3 f + 2]` of `vertices`. The input is
    /// refused unless it names at least one face, three indices to a face,
    /// every index names a vertex and every face has area.
    pub fn new(vertices: &Vec<Vector3>, indices: &Vec<usize>, m: Material) -> (r: Result<
        MeshTriangle,
        DegenerateGeometryError,
    >)
        ensures
            r is Ok <==> mesh_input_ok(vertices@, indices@),
            r matches Ok(mesh) ==> {
                &&& mesh.well_shaped()
                &&& mesh.m == m
                &&& mesh.triangles@.len() == indices@.len() / 3
                &&& forall|f: int|
                    0 <= f < mesh.triangles@.len() ==> is_face(
                        #[trigger] mesh.triangles@[f],
                        vertices@,
                        indices@,
                        f,
                        m,
                    )
            },
    {
        let n: usize = indices.len();
        if n == 0 || n % 3 != 0 {
            return Err(DegenerateGeometryError {  });
        }
        let faces: usize = n / 3;
        let mut triangles: Vec<Triangle> = Vec::new();
        let mut bounding_box: Bound3 = Bound3::default();
        let mut area: Fixed = Fixed::zero();
        let mut f: usize = 0;
        while f < faces
            invariant
                0 <= f <= faces,
                faces == n / 3,
                n == indices@.len(),
                n % 3 == 0,
                triangles@.len() == f,
                forall|g: int| 0 <= g < f ==> face_ok(vertices@, indices@, g),
                forall|g: int|
                    0 <= g < f ==> is_face(#[trigger] triangles@[g], vertices@, indices@, g, m),
                bounding_box@ == mesh_box(triangles@),
                area@ == mesh_area(triangles@),
            decreases faces - f,
        {
            let a: usize = indices[3 * f];
            let b: usize = indices[3 * f + 1];
            let c: usize = indices[3 * f + 2];
            if a >= vertices.len() || b >= vertices.len() || c >= vertices.len() {
                proof {
                    assert(!face_ok(vertices@, indices@, f as int));
                }
                return Err(DegenerateGeometryError {  });
            }
            match Triangle::new([vertices[a], vertices[b], vertices[c]], Some(m)) {
                Err(e) => {
                    proof {
                        assert(!face_ok(vertices@, indices@, f as int));
                    }
                    return Err(e);
                },
                Ok(t) => {
                    let ghost before = triangles@;
                    bounding_box = union(&bounding_box, &t.get_bounds());
                    area = area.saturating_add(t.area);
                    triangles.push(t);
                    proof {
                        assert(triangles@.drop_last() =~= before);
                        assert(triangles@.last() == t);
                    }
                },
            }
            f = f + 1;
        }
        let bvh: BVHAccel = BVHAccel::new(&triangles, 1, SplitMethod::NAIVE);
        Ok(MeshTriangle { triangles, bvh, area, m, bounding_box })
    }
}

impl Object for MeshTriangle {
    /// The mesh is well shaped and its material is diffuse.
    open spec fn wf(&self) -> bool {
        self.well_shaped() && self.m.is_diffuse()
    }

    open spec fn bounds(&self) -> B3 {
        self.bounding_box@
    }

    open spec fn area(&self) -> int {
        self.area@
    }

    open spec fn emits(&self) -> bool {
        self.m.emits()
    }

    /// What the ray finds of the mesh's triangles, by the mesh's own tree.
    open spec fn hit(&self, ray: R3) -> Hit {
        self.bvh.hit(self.triangles@, ray)
    }

    /// The point that the mesh's tree draws from its triangles, with the
    /// mesh's emission.
    open spec fn sample_point(&self, draws: D3) -> (Hit, int) {
        let (pos, pdf) = self.bvh.sample_point(self.triangles@, draws);
        (Hit { emit: self.m.emission@, ..pos }, pdf)
    }

    open spec fn physical(&self) -> bool {
        physical(Some(self.m))
    }

    proof fn lemma_physical(&self, ray: R3, draws: D3) {
        match self.bvh.root {
            None => {},
            Some(root) => {
                lemma_node_hit_source(root, self.triangles@, ray);
                let h = node_hit(root, self.triangles@, ray);
                if h != no_hit() {
                    let k = choose|k: int|
                        0 <= k < self.triangles@.len() && h == (#[trigger] self.triangles@[k]).hit(
                            ray,
                        );
                    assert(self.triangles@[k].well_shaped());
                }
            },
        }
    }

    proof fn lemma_shadeable(&self, ray: R3, draws: D3) {
        match self.bvh.root {
            None => {},
            Some(root) => {
                lemma_node_hit_source(root, self.triangles@, ray);
                let h = node_hit(root, self.triangles@, ray);
                if h != no_hit() {
                    let k = choose|k: int|
                        0 <= k < self.triangles@.len() && h == (#[trigger] self.triangles@[k]).hit(
                            ray,
                        );
                    assert(self.triangles@[k].well_shaped());
                }
            },
        }
    }

    fn get_intersection(&self, ray: &Ray) -> (r: Intersection) {
        self.bvh.intersect(&self.triangles, ray)
    }

    fn get_bounds(&self) -> (b: Bound3) {
        self.bounding_box
    }

    fn get_area(&self) -> (a: Fixed) {
        self.area
    }

    fn sample_at(&self, draws: &SampleDraws) -> (r: (Intersection, Fixed)) {
        let (pos, pdf): (Intersection, Fixed) = self.bvh.sample_at(&self.triangles, draws);
        (
            Intersection {
                happened: pos.happened,
                coords: pos.coords,
                tcoords: pos.tcoords,
                normal: pos.normal,
                emit: self.m.emission,
                distance: pos.distance,
                m: pos.m,
            },
            pdf,
        )
    }

    fn sample(&self, pos: &mut Intersection, pdf: &mut Fixed) {
        let draws: SampleDraws = draw_sample();
        let (point, density): (Intersection, Fixed) = self.sample_at(&draws);
        *pos = point;
        *pdf = density;
    }

    fn has_emit(&self) -> (r: bool) {
        self.m.has_emission()
    }
}

} // verus!

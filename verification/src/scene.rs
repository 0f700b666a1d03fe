//! The scene: its primitives, its lights, its camera settings and the tree
//! over its primitives.
use crate::bvh::{all_wf, lemma_node_hit_source, node_hit, BVHAccel, SplitMethod};
use crate::fixed::{fx_add, fx_div, fx_mul, fx_sub, Fixed, RAW_MAX, SCALE};
use crate::global::{get_random_float, EPSILON_RAW};
use crate::intersection::{no_hit, Hit, Intersection};
use crate::light::Light;
use crate::objects::{
    draw_sample, physical, shadeable, uniform_draws, Object, SampleDraws, Shape, D3,
};
use crate::ray::{Ray, R3};
use crate::vector::{v3_nonnegative, Vector3, V3};
use vstd::prelude::*;

verus! {

/// The scene was asked for an intersection before its tree was built.
#[derive(Clone, Copy, Debug, PartialEq, Eq, Structural)]
pub struct SceneNotBuiltError {}

/// Red part of the default background colour, as a raw value.
pub const BACKGROUND_RED: i64 = 1010562855;

/// Green part of the default background colour.
pub const BACKGROUND_GREEN: i64 = 2896998391;

/// Blue part of the default background colour.
pub const BACKGROUND_BLUE: i64 = 3621245841;

/// Raw value of the default probability with which a path goes on.
pub const RUSSIAN_ROULETTE: i64 = 3435973837;

/// Total area of the primitives of `objs` that give off light.
pub open spec fn emit_area_sum<T: Object>(objs: Seq<T>) -> int
    decreases objs.len(),
{
    if objs.len() == 0 {
        0
    } else if objs.last().emits() {
        fx_add(emit_area_sum(objs.drop_last()), objs.last().area())
    } else {
        emit_area_sum(objs.drop_last())
    }
}

/// The light that the position `p` falls on, and the position within it,
/// when the lights at or after `from` are laid side by side, each as wide
/// as its area. `None` if `p` lies beyond them.
pub open spec fn pick_light<T: Object>(objs: Seq<T>, from: int, p: int) -> Option<(int, int)>
    decreases objs.len() - from,
{
    if from < 0 || from >= objs.len() {
        None
    } else if !objs[from].emits() {
        pick_light(objs, from + 1, p)
    } else if p < objs[from].area() {
        Some((from, p))
    } else {
        pick_light(objs, from + 1, fx_sub(p, objs[from].area()))
    }
}

/// The point on a light of `objs` that `pick` and `draws` stand for, and
/// its density per unit of area over all lights: `pick` times the total
/// area of the lights chooses the light, the light draws the point, and its
/// density is scaled by the light's share of the total area. Without a
/// light there is no point and the density is zero.
pub open spec fn light_sample<T: Object>(objs: Seq<T>, draws: D3, pick: int) -> (Hit, int) {
    let total = emit_area_sum(objs);
    match pick_light(objs, 0, fx_mul(pick, total)) {
        None => (no_hit(), 0),
        Some((k, within)) => {
            let (pos, pdf) = objs[k].sample_point(
                D3 { pick: fx_div(within, objs[k].area()), u1: draws.u1, u2: draws.u2 },
            );
            (pos, fx_div(fx_mul(pdf, objs[k].area()), total))
        },
    }
}

/// A scene to render.
#[derive(Debug)]
pub struct Scene {
    pub width: usize,
    pub height: usize,
    /// Vertical field of view, in degrees.
    pub fov: Fixed,
    pub background_color: Vector3,
    /// Depth limit of the direct-lighting path. Paths of the integrator end
    /// by Russian roulette instead.
    pub max_depth: i32,
    pub epsilon: Fixed,
    /// Probability with which a path goes on after a bounce.
    pub russian_roulette: Fixed,
    pub objects: Vec<Shape>,
    pub lights: Vec<Light>,
    pub bvh: Option<BVHAccel>,
}

impl Default for Scene {
    /// An empty scene of 1280 by 960 pixels.
    fn default() -> (r: Scene)
        ensures
            r.wf(),
            r.objs().len() == 0,
            r.point_lights().len() == 0,
            !r.built(),
            r.width == 1280,
            r.height == 960,
            r.fov@ == 40 * SCALE,
            r.background_color@ == (V3 {
                x: BACKGROUND_RED as int,
                y: BACKGROUND_GREEN as int,
                z: BACKGROUND_BLUE as int,
            }),
            r.max_depth == 1,
            r.epsilon@ == EPSILON_RAW,
            r.russian_roulette@ == RUSSIAN_ROULETTE,
    {
        Scene {
            width: 1280,
            height: 960,
            fov: Fixed::from_int(40),
            background_color: Vector3 {
                x: Fixed { raw: BACKGROUND_RED },
                y: Fixed { raw: BACKGROUND_GREEN },
                z: Fixed { raw: BACKGROUND_BLUE },
            },
            max_depth: 1,
            epsilon: Fixed { raw: EPSILON_RAW },
            russian_roulette: Fixed { raw: RUSSIAN_ROULETTE },
            objects: Vec::new(),
            lights: Vec::new(),
            bvh: None,
        }
    }
}

impl Scene {
    /// The primitives of the scene, in the order in which they were added.
    pub open spec fn objs(&self) -> Seq<Shape> {
        self.objects@
    }

    /// The point lights of the scene.
    pub open spec fn point_lights(&self) -> Seq<Light> {
        self.lights@
    }

    /// The tree over the primitives, once it is built.
    pub open spec fn accel(&self) -> Option<BVHAccel> {
        self.bvh
    }

    /// Whether the tree is built.
    pub open spec fn built(&self) -> bool {
        self.accel() is Some
    }

    /// Every primitive is well formed, and the tree, if it is built, belongs
    /// to the primitives.
    pub open spec fn wf(&self) -> bool {
        &&& all_wf(self.objs())
        &&& match self.accel() {
            Some(accel) => accel.wf_for(self.objs()),
            None => true,
        }
    }

    /// What the ray finds in a scene whose tree is built.
    pub open spec fn hit(&self, ray: R3) -> Hit {
        match self.accel() {
            Some(accel) => accel.hit(self.objs(), ray),
            None => no_hit(),
        }
    }

    /// No primitive of the scene gives off light.
    pub open spec fn dark(&self) -> bool {
        forall|i: int| 0 <= i < self.objs().len() ==> !(#[trigger] self.objs()[i]).emits()
    }

    /// No primitive of the scene reflects or emits a negative amount of
    /// light.
    pub open spec fn physical(&self) -> bool {
        forall|i: int| 0 <= i < self.objs().len() ==> (#[trigger] self.objs()[i]).physical()
    }

    /// An empty scene of the given size, with the default settings.
    pub fn new(width: usize, height: usize) -> (r: Scene)
        ensures
            r.wf(),
            r.objs().len() == 0,
            r.point_lights().len() == 0,
            !r.built(),
            r.width == width,
            r.height == height,
            r.fov@ == 40 * SCALE,
            r.background_color@ == (V3 {
                x: BACKGROUND_RED as int,
                y: BACKGROUND_GREEN as int,
                z: BACKGROUND_BLUE as int,
            }),
            r.max_depth == 1,
            r.epsilon@ == EPSILON_RAW,
            r.russian_roulette@ == RUSSIAN_ROULETTE,
    {
        let mut scene: Scene = Scene::default();
        scene.width = width;
        scene.height = height;
        scene
    }

    /// Adds a primitive. The tree no longer belongs to the primitives and
    /// is dropped.
    pub fn add_obj(&mut self, obj: Shape)
        requires
            old(self).wf(),
            obj.wf(),
        ensures
            final(self).wf(),
            final(self).objs() == old(self).objs().push(obj),
            !final(self).built(),
            final(self).point_lights() == old(self).point_lights(),
            final(self).width == old(self).width,
            final(self).height == old(self).height,
            final(self).fov == old(self).fov,
            final(self).background_color == old(self).background_color,
            final(self).max_depth == old(self).max_depth,
            final(self).epsilon == old(self).epsilon,
            final(self).russian_roulette == old(self).russian_roulette,
    {
        self.objects.push(obj);
        self.bvh = None;
    }

    /// Adds a point light.
    pub fn add_light(&mut self, light: Light)
        requires
            old(self).wf(),
        ensures
            final(self).wf(),
            final(self).point_lights() == old(self).point_lights().push(light),
            final(self).objs() == old(self).objs(),
            final(self).accel() == old(self).accel(),
            final(self).width == old(self).width,
            final(self).height == old(self).height,
            final(self).fov == old(self).fov,
            final(self).background_color == old(self).background_color,
            final(self).max_depth == old(self).max_depth,
            final(self).epsilon == old(self).epsilon,
            final(self).russian_roulette == old(self).russian_roulette,
    {
        self.lights.push(light);
    }

    /// The primitives of the scene, in the order in which they were added.
    pub fn get_objs(&self) -> (r: &Vec<Shape>)
        ensures
            r@ == self.objs(),
    {
        &self.objects
    }

    /// The point lights of the scene.
    pub fn get_lights(&self) -> (r: &Vec<Light>)
        ensures
            r@ == self.point_lights(),
    {
        &self.lights
    }

    /// Builds the tree over the primitives.
    pub fn build_bvh(&mut self)
        requires
            old(self).wf(),
        ensures
            final(self).wf(),
            final(self).built(),
            final(self).objs() == old(self).objs(),
            final(self).point_lights() == old(self).point_lights(),
            final(self).width == old(self).width,
            final(self).height == old(self).height,
            final(self).fov == old(self).fov,
            final(self).background_color == old(self).background_color,
            final(self).max_depth == old(self).max_depth,
            final(self).epsilon == old(self).epsilon,
            final(self).russian_roulette == old(self).russian_roulette,
    {
        self.bvh = Some(BVHAccel::new(&self.objects, 1, SplitMethod::NAIVE));
    }

    /// Nearest intersection of the ray with the scene. It fails until the
    /// tree is built.
    pub fn intersect(&self, ray: &Ray) -> (r: Result<Intersection, SceneNotBuiltError>)
        requires
            self.wf(),
        ensures
            r is Ok <==> self.built(),
            r matches Ok(found) ==> found@ == self.hit(ray@),
    {
        match &self.bvh {
            None => Err(SceneNotBuiltError {  }),
            Some(bvh) => Ok(bvh.intersect(&self.objects, ray)),
        }
    }

    /// Total area of the primitives that give off light.
    pub fn emit_area(&self) -> (total: Fixed)
        ensures
            total@ == emit_area_sum(self.objs()),
    {
        let mut total: Fixed = Fixed::zero();
        let mut i: usize = 0;
        while i < self.objects.len()
            invariant
                0 <= i <= self.objects@.len(),
                total@ == emit_area_sum(self.objects@.subrange(0, i as int)),
            decreases self.objects@.len() - i,
        {
            proof {
                let longer = self.objects@.subrange(0, i + 1);
                assert(longer.drop_last() =~= self.objects@.subrange(0, i as int));
                assert(longer.last() == self.objects@[i as int]);
            }
            if self.objects[i].has_emit() {
                total = total.saturating_add(self.objects[i].get_area());
            }
            i = i + 1;
        }
        proof {
            assert(self.objects@.subrange(0, self.objects@.len() as int) =~= self.objects@);
        }
        total
    }

    /// The point on a light that `pick` and `draws` stand for, and its
    /// density per unit of area over all lights. Without a light the
    /// density is zero.
    pub fn sample_light_at(&self, draws: &SampleDraws, pick: Fixed) -> (r: (Intersection, Fixed))
        requires
            self.wf(),
        ensures
            (r.0@, r.1@) == light_sample(self.objs(), draws@, pick@),
    {
        let total: Fixed = self.emit_area();
        let mut p: Fixed = pick.saturating_mul(total);
        let mut i: usize = 0;
        while i < self.objects.len()
            invariant
                0 <= i <= self.objects@.len(),
                all_wf(self.objects@),
                total@ == emit_area_sum(self.objects@),
                pick_light(self.objects@, i as int, p@) == pick_light(
                    self.objects@,
                    0,
                    fx_mul(pick@, total@),
                ),
            decreases self.objects@.len() - i,
        {
            if self.objects[i].has_emit() {
                let area: Fixed = self.objects[i].get_area();
                if p.raw < area.raw {
                    let inner: SampleDraws = SampleDraws {
                        pick: p.saturating_div(area),
                        u1: draws.u1,
                        u2: draws.u2,
                    };
                    let (pos, pdf): (Intersection, Fixed) = self.objects[i].sample_at(&inner);
                    return (pos, pdf.saturating_mul(area).saturating_div(total));
                }
                p = p.saturating_sub(area);
            }
            i = i + 1;
        }
        (Intersection::default(), Fixed::zero())
    }

    /// A point drawn from the lights of the scene, uniformly by area, and
    /// its density. Without a light the density is zero.
    pub fn sample_light(&self, pos: &mut Intersection, pdf: &mut Fixed)
        requires
            self.wf(),
        ensures
            exists|draws: D3, pick: int|
                uniform_draws(draws) && 0 <= pick < SCALE && (final(pos)@, final(pdf)@)
                    == #[trigger] light_sample(self.objs(), draws, pick),
    {
        let pick: Fixed = get_random_float();
        let draws: SampleDraws = draw_sample();
        let (point, density): (Intersection, Fixed) = self.sample_light_at(&draws, pick);
        *pos = point;
        *pdf = density;
    }
}

/// What a ray finds in a scene is nothing, or a surface whose material can
/// be shaded and gives off light only if a primitive of the scene does.
pub proof fn lemma_hit_material(scene: Scene, ray: R3)
    requires
        scene.wf(),
    ensures
        shadeable(scene.hit(ray).m),
        !scene.hit(ray).happened ==> scene.hit(ray) == no_hit(),
        scene.dark() ==> (scene.hit(ray).m matches Some(m) ==> !m.emits()),
{
    match scene.accel() {
        None => {},
        Some(accel) => match accel.root {
            None => {},
            Some(root) => {
                lemma_node_hit_source(root, scene.objs(), ray);
                let h = node_hit(root, scene.objs(), ray);
                if h != no_hit() {
                    let k = choose|k: int|
                        0 <= k < scene.objs().len() && h == (#[trigger] scene.objs()[k]).hit(ray);
                    scene.objs()[k].lemma_shadeable(ray, D3 { pick: 0, u1: 0, u2: 0 });
                }
            },
        },
    }
}

/// Without a light, no position falls on a light.
pub proof fn lemma_dark_pick<T: Object>(objs: Seq<T>, from: int, p: int)
    requires
        forall|i: int| 0 <= i < objs.len() ==> !(#[trigger] objs[i]).emits(),
    ensures
        pick_light(objs, from, p) is None,
    decreases objs.len() - from,
{
    if 0 <= from < objs.len() {
        lemma_dark_pick(objs, from + 1, p);
    }
}

/// Exact sum of the areas of the lights among the first `k` primitives.
pub open spec fn light_area_before<T: Object>(objs: Seq<T>, k: int) -> int
    decreases k,
{
    if k <= 0 {
        0
    } else if objs[k - 1].emits() {
        light_area_before(objs, k - 1) + objs[k - 1].area()
    } else {
        light_area_before(objs, k - 1)
    }
}

/// No light of `objs` has a negative area.
pub open spec fn light_areas_nonnegative<T: Object>(objs: Seq<T>) -> bool {
    forall|i: int| 0 <= i < objs.len() && (#[trigger] objs[i]).emits() ==> objs[i].area() >= 0
}

/// The sums of the first lights' areas grow with the number of primitives.
pub proof fn lemma_light_area_grows<T: Object>(objs: Seq<T>, i: int, j: int)
    requires
        light_areas_nonnegative(objs),
        0 <= i <= j <= objs.len(),
    ensures
        0 <= light_area_before(objs, i) <= light_area_before(objs, j),
    decreases j,
{
    if i < j {
        lemma_light_area_grows(objs, i, j - 1);
    } else if j > 0 {
        lemma_light_area_grows(objs, i - 1, j - 1);
    }
}

/// The total area of the lights is the exact sum of their areas, where none
/// of these is negative and the sum fits the raw range.
pub proof fn lemma_emit_area_is_sum<T: Object>(objs: Seq<T>)
    requires
        light_areas_nonnegative(objs),
        light_area_before(objs, objs.len() as int) <= RAW_MAX,
    ensures
        emit_area_sum(objs) == light_area_before(objs, objs.len() as int),
    decreases objs.len(),
{
    if objs.len() > 0 {
        let front = objs.drop_last();
        assert forall|i: int|
            0 <= i < front.len() && (#[trigger] front[i]).emits() implies front[i].area() >= 0 by {
            assert(front[i] == objs[i]);
        }
        lemma_light_area_same(objs, front, front.len() as int);
        lemma_light_area_grows(objs, 0, objs.len() - 1);
        lemma_emit_area_is_sum(front);
    }
}

/// The sum of the first lights' areas is the same in every list that starts
/// with the same primitives.
proof fn lemma_light_area_same<T: Object>(a: Seq<T>, b: Seq<T>, k: int)
    requires
        0 <= k <= a.len(),
        k <= b.len(),
        forall|i: int| 0 <= i < k ==> a[i] == b[i],
    ensures
        light_area_before(a, k) == light_area_before(b, k),
    decreases k,
{
    if k > 0 {
        lemma_light_area_same(a, b, k - 1);
    }
}

/// The choice of a light from the position `p`, when the search has
/// reached the primitive `from` and `p` is what is left of the position
/// `whole` after the lights before `from`.
proof fn lemma_pick_from<T: Object>(objs: Seq<T>, from: int, whole: int)
    requires
        light_areas_nonnegative(objs),
        light_area_before(objs, objs.len() as int) <= RAW_MAX,
        0 <= from <= objs.len(),
        light_area_before(objs, from) <= whole < light_area_before(objs, objs.len() as int),
    ensures
        pick_light(objs, from, whole - light_area_before(objs, from)) matches Some((k, within))
            && {
            &&& from <= k < objs.len()
            &&& objs[k].emits()
            &&& within == whole - light_area_before(objs, k)
            &&& 0 <= within < objs[k].area()
        },
    decreases objs.len() - from,
{
    if from < objs.len() {
        lemma_light_area_grows(objs, from + 1, objs.len() as int);
        lemma_light_area_grows(objs, 0, from);
        if objs[from].emits() && whole - light_area_before(objs, from) < objs[from].area() {
        } else {
            lemma_pick_from(objs, from + 1, whole);
        }
    }
}

/// The lights are chosen in proportion to their areas. Where no light has
/// a negative area and the areas of all lights together fit the raw range, a
/// position `p` within the total area of the lights chooses the light on
/// whose stretch it falls when the lights are laid side by side in the
/// order of the scene, each as wide as its area, and the place within that
/// stretch goes with it. So of the positions from zero to the total, as
/// many choose a light as its area holds, and the shares of all lights add
/// up to one.
pub proof fn lemma_lights_by_area<T: Object>(objs: Seq<T>, p: int)
    requires
        light_areas_nonnegative(objs),
        light_area_before(objs, objs.len() as int) <= RAW_MAX,
        0 <= p < emit_area_sum(objs),
    ensures
        emit_area_sum(objs) == light_area_before(objs, objs.len() as int),
        pick_light(objs, 0, p) matches Some((k, within)) && {
            &&& 0 <= k < objs.len()
            &&& objs[k].emits()
            &&& light_area_before(objs, k) <= p < light_area_before(objs, k + 1)
            &&& within == p - light_area_before(objs, k)
        },
{
    lemma_emit_area_is_sum(objs);
    lemma_pick_from(objs, 0, p);
}

/// The light on which a position falls is one of the primitives.
pub proof fn lemma_pick_in_range<T: Object>(objs: Seq<T>, from: int, p: int)
    ensures
        pick_light(objs, from, p) matches Some((k, within)) ==> 0 <= k < objs.len(),
    decreases objs.len() - from,
{
    if 0 <= from < objs.len() {
        lemma_pick_in_range(objs, from + 1, p);
        lemma_pick_in_range(objs, from + 1, fx_sub(p, objs[from].area()));
    }
}

/// In a scene of physical materials, what a ray finds has a physical
/// material and a point drawn on a light has no negative emission.
pub proof fn lemma_physical_scene(scene: Scene, ray: R3, draws: D3, pick: int)
    requires
        scene.wf(),
        scene.physical(),
    ensures
        physical(scene.hit(ray).m),
        v3_nonnegative(light_sample(scene.objs(), draws, pick).0.emit),
{
    match scene.accel() {
        None => {},
        Some(accel) => match accel.root {
            None => {},
            Some(root) => {
                lemma_node_hit_source(root, scene.objs(), ray);
                let h = node_hit(root, scene.objs(), ray);
                if h != no_hit() {
                    let k = choose|k: int|
                        0 <= k < scene.objs().len() && h == (#[trigger] scene.objs()[k]).hit(ray);
                    scene.objs()[k].lemma_physical(ray, draws);
                }
            },
        },
    }
    let objs = scene.objs();
    let p = fx_mul(pick, emit_area_sum(objs));
    lemma_pick_in_range(objs, 0, p);
    match pick_light(objs, 0, p) {
        None => {},
        Some((k, within)) => {
            objs[k].lemma_physical(
                ray,
                D3 { pick: fx_div(within, objs[k].area()), u1: draws.u1, u2: draws.u2 },
            );
        },
    }
}

} // verus!

//! The path-tracing integrator: radiance along a ray by next-event
//! estimation and Russian roulette, and the picture of a scene.
use crate::bvh::all_wf;
use crate::fixed::{
    fx_abs, fx_add, fx_div, fx_max, fx_mul, fx_neg, fx_sqrt, fx_sub, saturate, trunc_div, Fixed,
    RAW_MAX, SCALE,
};
use crate::global::{clamp, clamp_spec, get_random_float, PI_RAW};
use crate::intersection::{Hit, Intersection};
use crate::material::{
    diffuse_eval, diffuse_pdf, hemisphere_direction, to_world_spec, Material, HALF,
};
use crate::objects::{
    draw_sample, emitted, emitted_radiance, physical, uniform_draws, Object, SampleDraws, D3,
};
use crate::ray::{v3_recip, Ray, R3};
use crate::scene::{
    emit_area_sum, lemma_dark_pick, lemma_hit_material, lemma_physical_scene, light_sample, Scene,
    SceneNotBuiltError,
};
use crate::trig::{sin_cos_of_turns, sin_cos_turns};
use crate::vector::{
    v3_add, v3_div, v3_dot, v3_hadamard, v3_nonnegative, v3_norm_squared, v3_normalize, v3_scale,
    v3_sub, v3_zero, Vector3, V3,
};
use vstd::prelude::*;

verus! {

/// Largest number of bounces of a path.
pub const MAX_BOUNCES: usize = 64;

/// Position of the eye along the first axis.
pub const EYE_X: i32 = 278;

/// Height of the eye.
pub const EYE_Y: i32 = 273;

/// Depth of the eye, before the picture plane.
pub const EYE_Z: i32 = -800;

/// The uniform numbers that one bounce of a path consumes: those that
/// choose a point on a light, the one that decides whether the path goes
/// on, and the two that choose its next direction.
#[derive(Clone, Copy, Debug, PartialEq, Eq, Structural)]
pub struct PathDraws {
    pub light_pick: Fixed,
    pub light: SampleDraws,
    pub roulette: Fixed,
    pub u1: Fixed,
    pub u2: Fixed,
}

/// The nearest primitive on a ray: the ray parameter of the hit and the
/// primitive's position in the list.
#[derive(Clone, Copy, Debug, PartialEq, Eq, Structural)]
pub struct HitPayload {
    pub t_near: Fixed,
    pub index: usize,
}

/// The ray from `origin` along `direction`.
pub open spec fn ray_from(origin: V3, direction: V3) -> R3 {
    R3 { origin, direction, inv: v3_recip(direction) }
}

/// Whether the nearest hit of the shadow ray, which reaches the light at
/// parameter one, lies at the light.
pub open spec fn unoccluded(shadow: Hit, tolerance: int) -> bool {
    shadow.happened && fx_abs(fx_sub(shadow.distance, SCALE as int)) <= tolerance
}

/// Light that reaches `p` from the point `pos` of a light, which was drawn
/// with density `pdf`: `emission * f * cos(surface) * cos(light) / distance^2
/// / pdf`, where `f` is the fraction that the surface reflects and both
/// cosines count as zero where they are negative.
pub open spec fn light_contribution(p: V3, n: V3, kd: V3, pos: Hit, pdf: int) -> V3 {
    let to_light = v3_sub(pos.coords, p);
    let ws = v3_normalize(to_light);
    let emit = v3_div(pos.emit, v3_norm_squared(to_light));
    let f = diffuse_eval(kd, ws, n);
    let cos_surface = fx_max(0, v3_dot(ws, n));
    let cos_light = fx_max(0, fx_neg(v3_dot(ws, pos.normal)));
    v3_div(v3_scale(v3_scale(v3_hadamard(emit, f), cos_surface), cos_light), pdf)
}

/// Direct light at `p`: the contribution of the point that the draws
/// choose on a light, if that point has a positive density and nothing
/// lies between it and `p`; else nothing.
pub open spec fn direct_light(scene: Scene, p: V3, n: V3, m: Material, draws: PathDraws) -> V3 {
    let (pos, pdf) = light_sample(scene.objs(), draws.light@, draws.light_pick@);
    let shadow = scene.hit(ray_from(p, v3_sub(pos.coords, p)));
    if pdf > 0 && unoccluded(shadow, scene.epsilon@) {
        light_contribution(p, n, m.kd@, pos, pdf)
    } else {
        v3_zero()
    }
}

/// The direction in which the path goes on from a surface with normal `n`.
pub open spec fn bounce_direction(n: V3, draws: PathDraws) -> V3 {
    to_world_spec(hemisphere_direction(draws.u1@, draws.u2@), n)
}

/// The radiance `deeper` that comes in along `wi`, as the surface passes it
/// on: `deeper * f * cos / pdf / rr`, where `f` is the fraction that the
/// surface reflects, `pdf` the density of `wi` and `rr` the probability
/// with which the path went on.
pub open spec fn passed_on(deeper: V3, kd: V3, wi: V3, n: V3, rr: int) -> V3 {
    let f = diffuse_eval(kd, wi, n);
    let cos = fx_max(0, v3_dot(wi, n));
    v3_div(v3_div(v3_scale(v3_hadamard(deeper, f), cos), diffuse_pdf(wi, n)), rr)
}

/// Radiance that leaves the point `p` of a surface with normal `n` and
/// material `m`, on the path that `draws` describe from bounce `depth` on:
/// what the surface emits, the direct light, and, if the roulette lets the
/// path go on and it reaches a surface that emits nothing, what comes from
/// there, passed on by the surface. Beyond the last bounce of `draws` only
/// the emission counts.
pub open spec fn shade_spec(
    scene: Scene,
    p: V3,
    n: V3,
    m: Material,
    draws: Seq<PathDraws>,
    depth: int,
) -> V3
    decreases draws.len() - depth,
{
    if depth < 0 || depth >= draws.len() {
        emitted(Some(m))
    } else {
        let d = draws[depth];
        let wi = bounce_direction(n, d);
        let next = scene.hit(ray_from(p, wi));
        let indirect = if d.roulette@ < scene.russian_roulette@ && next.happened {
            match next.m {
                Some(nm) => if nm.emits() {
                    v3_zero()
                } else {
                    passed_on(
                        shade_spec(scene, next.coords, next.normal, nm, draws, depth + 1),
                        m.kd@,
                        wi,
                        n,
                        scene.russian_roulette@,
                    )
                },
                None => v3_zero(),
            }
        } else {
            v3_zero()
        };
        v3_add(v3_add(emitted(Some(m)), direct_light(scene, p, n, m, d)), indirect)
    }
}

/// Radiance that comes in along the ray, on the path that `draws`
/// describe: the background where the ray hits nothing, nothing where it
/// hits a surface without material, and else what leaves the surface.
pub open spec fn radiance_spec(scene: Scene, ray: R3, draws: Seq<PathDraws>) -> V3 {
    let found = scene.hit(ray);
    if !found.happened {
        scene.background_color@
    } else {
        match found.m {
            Some(m) => shade_spec(scene, found.coords, found.normal, m, draws, 0),
            None => v3_zero(),
        }
    }
}

/// Each number of the draws lies between zero and one, one excluded.
pub open spec fn uniform_path(draws: Seq<PathDraws>) -> bool {
    forall|k: int|
        0 <= k < draws.len() ==> {
            &&& 0 <= (#[trigger] draws[k]).light_pick@ < SCALE
            &&& uniform_draws(draws[k].light@)
            &&& 0 <= draws[k].roulette@ < SCALE
            &&& 0 <= draws[k].u1@ < SCALE
            &&& 0 <= draws[k].u2@ < SCALE
        }
}

/// The draws are those of one path: uniform numbers for at least one and at
/// most `cap` bounces (one bounce if `cap` is zero), of which every bounce
/// but the last passes the roulette.
pub open spec fn path_draws(draws: Seq<PathDraws>, russian_roulette: int, cap: int) -> bool {
    &&& uniform_path(draws)
    &&& 1 <= draws.len()
    &&& draws.len() <= cap || draws.len() == 1
    &&& forall|k: int| 0 <= k < draws.len() - 1 ==> (#[trigger] draws[k]).roulette@ < russian_roulette
}

/// Light that reaches `p` from the point `pos` of a light.
fn contribution_of(
    p: &Vector3,
    wo: &Vector3,
    n: &Vector3,
    m: &Material,
    pos: &Intersection,
    pdf: Fixed,
) -> (r: Vector3)
    requires
        m.is_diffuse(),
    ensures
        r@ == light_contribution(p@, n@, m.kd@, pos@, pdf@),
{
    let to_light: Vector3 = pos.coords.saturating_sub(*p);
    let ws: Vector3 = to_light.normalize();
    let emit: Vector3 = pos.emit.unscale(to_light.norm_squared());
    let f: Vector3 = m.eval(wo, &ws, n);
    let cos_surface: Fixed = Fixed::zero().max(ws.dot(n));
    let cos_light: Fixed = Fixed::zero().max(ws.dot(&pos.normal).saturating_neg());
    emit.component_mul(f).scale(cos_surface).scale(cos_light).unscale(pdf)
}

/// Direct light at `p`.
fn direct_lighting(
    p: &Vector3,
    wo: &Vector3,
    n: &Vector3,
    m: &Material,
    scene: &Scene,
    draws: &PathDraws,
) -> (r: Vector3)
    requires
        scene.wf(),
        scene.built(),
        m.is_diffuse(),
    ensures
        r@ == direct_light(*scene, p@, n@, *m, *draws),
{
    let (pos, pdf): (Intersection, Fixed) = scene.sample_light_at(&draws.light, draws.light_pick);
    let shadow_ray: Ray = Ray::new(*p, pos.coords.saturating_sub(*p), Fixed::zero());
    match scene.intersect(&shadow_ray) {
        Err(_) => Vector3::zero(),
        Ok(shadow) => {
            if pdf.raw > 0 && shadow.happened && shadow.distance.saturating_sub(
                Fixed::one(),
            ).saturating_abs().raw <= scene.epsilon.raw {
                contribution_of(p, wo, n, m, &pos, pdf)
            } else {
                Vector3::zero()
            }
        },
    }
}

/// Radiance that leaves the point `p` of a surface with normal `n` and
/// material `m` against the direction `wo`, on the path that `draws`
/// describe from bounce `depth` on.
pub fn shade(
    p: &Vector3,
    wo: &Vector3,
    n: &Vector3,
    m: &Material,
    scene: &Scene,
    draws: &Vec<PathDraws>,
    depth: usize,
) -> (r: Vector3)
    requires
        scene.wf(),
        scene.built(),
        m.is_diffuse(),
    ensures
        r@ == shade_spec(*scene, p@, n@, *m, draws@, depth as int),
    decreases draws@.len() - depth,
{
    let own: Vector3 = emitted_radiance(&Some(*m));
    if depth >= draws.len() {
        return own;
    }
    let d: PathDraws = draws[depth];
    let direct: Vector3 = direct_lighting(p, wo, n, m, scene, &d);
    let indirect: Vector3 = if d.roulette.raw < scene.russian_roulette.raw {
        let wi: Vector3 = m.sample_at(wo, n, d.u1, d.u2);
        let bounce: Ray = Ray::new(*p, wi, Fixed::zero());
        proof {
            lemma_hit_material(*scene, bounce@);
        }
        match scene.intersect(&bounce) {
            Err(_) => Vector3::zero(),
            Ok(next) => match next.m {
                Some(nm) => {
                    if !next.happened || nm.has_emission() {
                        Vector3::zero()
                    } else {
                        let deeper: Vector3 = shade(
                            &next.coords,
                            &wi,
                            &next.normal,
                            &nm,
                            scene,
                            draws,
                            depth + 1,
                        );
                        let f: Vector3 = m.eval(wo, &wi, n);
                        let cos: Fixed = Fixed::zero().max(wi.dot(n));
                        deeper.component_mul(f).scale(cos).unscale(m.pdf(wo, &wi, n)).unscale(
                            scene.russian_roulette,
                        )
                    }
                },
                None => Vector3::zero(),
            },
        }
    } else {
        Vector3::zero()
    };
    own.saturating_add(direct).saturating_add(indirect)
}

/// Radiance that comes in along the ray, on the path that `draws`
/// describe. It fails until the scene's tree is built.
pub fn radiance_along(ray: &Ray, scene: &Scene, draws: &Vec<PathDraws>) -> (r: Result<
    Vector3,
    SceneNotBuiltError,
>)
    requires
        scene.wf(),
    ensures
        r is Ok <==> scene.built(),
        r matches Ok(radiance) ==> radiance@ == radiance_spec(*scene, ray@, draws@),
{
    match scene.intersect(ray) {
        Err(e) => Err(e),
        Ok(found) => {
            proof {
                lemma_hit_material(*scene, ray@);
            }
            if !found.happened {
                Ok(scene.background_color)
            } else {
                match found.m {
                    Some(m) => Ok(
                        shade(&found.coords, &ray.direction, &found.normal, &m, scene, draws, 0),
                    ),
                    None => Ok(Vector3::zero()),
                }
            }
        },
    }
}

/// The uniform numbers of one bounce.
fn draw_bounce() -> (d: PathDraws)
    ensures
        0 <= d.light_pick@ < SCALE,
        uniform_draws(d.light@),
        0 <= d.roulette@ < SCALE,
        0 <= d.u1@ < SCALE,
        0 <= d.u2@ < SCALE,
{
    let light_pick: Fixed = get_random_float();
    let light: SampleDraws = draw_sample();
    let roulette: Fixed = get_random_float();
    let u1: Fixed = get_random_float();
    let u2: Fixed = get_random_float();
    PathDraws { light_pick, light, roulette, u1, u2 }
}

/// The uniform numbers of a path: bounce after bounce, until the roulette
/// number of a bounce is not below `russian_roulette` or `cap` bounces are
/// drawn. There is always a first bounce.
pub fn draw_path(russian_roulette: Fixed, cap: usize) -> (draws: Vec<PathDraws>)
    ensures
        path_draws(draws@, russian_roulette@, cap as int),
        draws@.len() < cap ==> !(draws@.last().roulette@ < russian_roulette@),
{
    let mut draws: Vec<PathDraws> = Vec::new();
    let first: PathDraws = draw_bounce();
    let mut going: bool = first.roulette.raw < russian_roulette.raw;
    draws.push(first);
    while going && draws.len() < cap
        invariant
            1 <= draws@.len(),
            draws@.len() <= cap || draws@.len() == 1,
            uniform_path(draws@),
            forall|k: int|
                0 <= k < draws@.len() - 1 ==> (#[trigger] draws@[k]).roulette@ < russian_roulette@,
            going == (draws@.last().roulette@ < russian_roulette@),
        decreases cap - draws@.len(),
    {
        let next: PathDraws = draw_bounce();
        going = next.roulette.raw < russian_roulette.raw;
        draws.push(next);
    }
    draws
}

/// Radiance that comes in along the ray, on a path drawn at random. It
/// fails until the scene's tree is built.
pub fn cast_ray(ray: &Ray, scene: &Scene, _depth: i32) -> (r: Result<Vector3, SceneNotBuiltError>)
    requires
        scene.wf(),
    ensures
        r is Ok <==> scene.built(),
        r matches Ok(radiance) ==> exists|draws: Seq<PathDraws>|
            path_draws(draws, scene.russian_roulette@, MAX_BOUNCES as int) && radiance@
                == #[trigger] radiance_spec(*scene, ray@, draws),
        r matches Ok(radiance) ==> scene.dark() ==> radiance@ == dark_value(*scene, ray@),
        r matches Ok(radiance) ==> scene.physical() && v3_nonnegative(scene.background_color@)
            ==> v3_nonnegative(radiance@),
{
    let draws: Vec<PathDraws> = draw_path(scene.russian_roulette, MAX_BOUNCES);
    proof {
        if scene.dark() {
            lemma_dark_scene(*scene, ray@, draws@);
        }
        if scene.physical() && v3_nonnegative(scene.background_color@) {
            lemma_radiance_nonnegative(*scene, ray@, draws@);
        }
    }
    radiance_along(ray, scene, &draws)
}

/// Nothing, passed on by a surface, is nothing.
proof fn lemma_nothing_passed_on(kd: V3, wi: V3, n: V3, rr: int)
    ensures
        passed_on(v3_zero(), kd, wi, n, rr) == v3_zero(),
{
    let f = diffuse_eval(kd, wi, n);
    let cos = fx_max(0, v3_dot(wi, n));
    let pdf = diffuse_pdf(wi, n);
    assert(v3_hadamard(v3_zero(), f) == v3_zero()) by {
        lemma_zero_times(f.x);
        lemma_zero_times(f.y);
        lemma_zero_times(f.z);
    }
    assert(v3_scale(v3_zero(), cos) == v3_zero()) by {
        lemma_zero_times(cos);
    }
    assert(v3_div(v3_zero(), pdf) == v3_zero()) by {
        lemma_zero_over(pdf);
    }
    assert(v3_div(v3_zero(), rr) == v3_zero()) by {
        lemma_zero_over(rr);
    }
}

/// Zero times any number is zero.
proof fn lemma_zero_times(x: int)
    ensures
        fx_mul(0, x) == 0,
{
    assert(0 * x == 0) by (nonlinear_arith);
}

/// Zero divided by any number is zero.
proof fn lemma_zero_over(x: int)
    ensures
        fx_div(0, x) == 0,
{
    assert(0 * SCALE == 0);
    if x > 0 {
        assert(0int / x == 0) by (nonlinear_arith)
            requires
                x > 0,
        ;
    } else if x < 0 {
        assert(0int / (-x) == 0) by (nonlinear_arith)
            requires
                x < 0,
        ;
    }
}

/// In a scene without lights there is no direct light.
proof fn lemma_dark_direct(scene: Scene, p: V3, n: V3, m: Material, d: PathDraws)
    requires
        scene.dark(),
    ensures
        direct_light(scene, p, n, m, d) == v3_zero(),
{
    lemma_dark_pick(scene.objs(), 0, fx_mul(d.light_pick@, emit_area_sum(scene.objs())));
}

/// In a scene without lights, a surface emits and passes on nothing.
pub proof fn lemma_dark_shade(
    scene: Scene,
    p: V3,
    n: V3,
    m: Material,
    draws: Seq<PathDraws>,
    depth: int,
)
    requires
        scene.wf(),
        scene.dark(),
        !m.emits(),
    ensures
        shade_spec(scene, p, n, m, draws, depth) == v3_zero(),
    decreases draws.len() - depth,
{
    if 0 <= depth < draws.len() {
        let d = draws[depth];
        lemma_dark_direct(scene, p, n, m, d);
        let wi = bounce_direction(n, d);
        let next = scene.hit(ray_from(p, wi));
        lemma_hit_material(scene, ray_from(p, wi));
        match next.m {
            Some(nm) => {
                lemma_dark_shade(scene, next.coords, next.normal, nm, draws, depth + 1);
                lemma_nothing_passed_on(m.kd@, wi, n, scene.russian_roulette@);
            },
            None => {},
        }
    }
}

/// In a scene in which no primitive gives off light, a ray brings in the
/// background colour if it hits nothing, and nothing if it hits a surface:
/// there is neither direct nor indirect light. So every ray brings in
/// exactly the background colour where that colour is black or the ray hits
/// nothing.
pub proof fn lemma_dark_scene(scene: Scene, ray: R3, draws: Seq<PathDraws>)
    requires
        scene.wf(),
        scene.dark(),
    ensures
        !scene.hit(ray).happened ==> radiance_spec(scene, ray, draws) == scene.background_color@,
        scene.hit(ray).happened ==> radiance_spec(scene, ray, draws) == v3_zero(),
        !scene.hit(ray).happened || scene.background_color@ == v3_zero() ==> radiance_spec(
            scene,
            ray,
            draws,
        ) == scene.background_color@,
{
    let found = scene.hit(ray);
    lemma_hit_material(scene, ray);
    match found.m {
        Some(m) => {
            lemma_dark_shade(scene, found.coords, found.normal, m, draws, 0);
        },
        None => {},
    }
}

/// The product of two numbers that are not negative is not negative.
proof fn lemma_product_nonnegative(a: int, b: int)
    requires
        a >= 0,
        b >= 0,
    ensures
        fx_mul(a, b) >= 0,
{
    assert(a * b >= 0) by (nonlinear_arith)
        requires
            a >= 0,
            b >= 0,
    ;
    assert((a * b) / (SCALE as int) >= 0) by (nonlinear_arith)
        requires
            a * b >= 0,
            SCALE > 0,
    ;
}

/// The quotient of two numbers that are not negative is not negative.
proof fn lemma_quotient_nonnegative(a: int, b: int)
    requires
        a >= 0,
        b >= 0,
    ensures
        fx_div(a, b) >= 0,
{
    if b > 0 {
        assert(a * SCALE >= 0) by (nonlinear_arith)
            requires
                a >= 0,
                SCALE > 0,
        ;
        assert((a * SCALE) / b >= 0) by (nonlinear_arith)
            requires
                a * SCALE >= 0,
                b > 0,
        ;
    }
}

/// Scaling a vector without negative components by a number that is not
/// negative leaves no negative component; so does dividing it.
proof fn lemma_scaled_nonnegative(v: V3, s: int)
    requires
        v3_nonnegative(v),
        s >= 0,
    ensures
        v3_nonnegative(v3_scale(v, s)),
        v3_nonnegative(v3_div(v, s)),
{
    lemma_product_nonnegative(v.x, s);
    lemma_product_nonnegative(v.y, s);
    lemma_product_nonnegative(v.z, s);
    lemma_quotient_nonnegative(v.x, s);
    lemma_quotient_nonnegative(v.y, s);
    lemma_quotient_nonnegative(v.z, s);
}

/// The product by component of two vectors without negative components
/// has no negative component.
proof fn lemma_hadamard_nonnegative(a: V3, b: V3)
    requires
        v3_nonnegative(a),
        v3_nonnegative(b),
    ensures
        v3_nonnegative(v3_hadamard(a, b)),
{
    lemma_product_nonnegative(a.x, b.x);
    lemma_product_nonnegative(a.y, b.y);
    lemma_product_nonnegative(a.z, b.z);
}

/// The squared length of a vector is not negative.
proof fn lemma_norm_squared_nonnegative(v: V3)
    ensures
        v3_norm_squared(v) >= 0,
{
    assert(v.x * v.x >= 0 && v.y * v.y >= 0 && v.z * v.z >= 0) by (nonlinear_arith);
    assert((v.x * v.x) / (SCALE as int) >= 0 && (v.y * v.y) / (SCALE as int) >= 0 && (v.z * v.z) / (
    SCALE as int) >= 0) by (nonlinear_arith)
        requires
            v.x * v.x >= 0,
            v.y * v.y >= 0,
            v.z * v.z >= 0,
            SCALE > 0,
    ;
}

/// A diffuse surface of reflectance that is not negative reflects no
/// negative fraction.
proof fn lemma_eval_nonnegative(kd: V3, wo: V3, n: V3)
    requires
        v3_nonnegative(kd),
    ensures
        v3_nonnegative(diffuse_eval(kd, wo, n)),
        diffuse_pdf(wo, n) >= 0,
{
    lemma_scaled_nonnegative(kd, PI_RAW as int);
    lemma_quotient_nonnegative(HALF as int, PI_RAW as int);
}

/// Light from a point of no negative emission, drawn with a positive
/// density, makes no negative contribution.
proof fn lemma_contribution_nonnegative(p: V3, n: V3, kd: V3, pos: Hit, pdf: int)
    requires
        v3_nonnegative(kd),
        v3_nonnegative(pos.emit),
        pdf > 0,
    ensures
        v3_nonnegative(light_contribution(p, n, kd, pos, pdf)),
{
    let to_light = v3_sub(pos.coords, p);
    let ws = v3_normalize(to_light);
    lemma_norm_squared_nonnegative(to_light);
    let emit = v3_div(pos.emit, v3_norm_squared(to_light));
    lemma_scaled_nonnegative(pos.emit, v3_norm_squared(to_light));
    let f = diffuse_eval(kd, ws, n);
    lemma_eval_nonnegative(kd, ws, n);
    let cos_surface = fx_max(0, v3_dot(ws, n));
    let cos_light = fx_max(0, fx_neg(v3_dot(ws, pos.normal)));
    lemma_hadamard_nonnegative(emit, f);
    lemma_scaled_nonnegative(v3_hadamard(emit, f), cos_surface);
    lemma_scaled_nonnegative(v3_scale(v3_hadamard(emit, f), cos_surface), cos_light);
    lemma_scaled_nonnegative(
        v3_scale(v3_scale(v3_hadamard(emit, f), cos_surface), cos_light),
        pdf,
    );
}

/// Radiance that is not negative is passed on as radiance that is not
/// negative.
proof fn lemma_passed_on_nonnegative(deeper: V3, kd: V3, wi: V3, n: V3, rr: int)
    requires
        v3_nonnegative(deeper),
        v3_nonnegative(kd),
        rr >= 0,
    ensures
        v3_nonnegative(passed_on(deeper, kd, wi, n, rr)),
{
    let f = diffuse_eval(kd, wi, n);
    let cos = fx_max(0, v3_dot(wi, n));
    lemma_eval_nonnegative(kd, wi, n);
    lemma_hadamard_nonnegative(deeper, f);
    lemma_scaled_nonnegative(v3_hadamard(deeper, f), cos);
    lemma_scaled_nonnegative(v3_scale(v3_hadamard(deeper, f), cos), diffuse_pdf(wi, n));
    lemma_scaled_nonnegative(
        v3_div(v3_scale(v3_hadamard(deeper, f), cos), diffuse_pdf(wi, n)),
        rr,
    );
}

/// In a scene of physical materials no surface gives off a negative
/// radiance, whatever uniform numbers describe the path.
pub proof fn lemma_shade_nonnegative(
    scene: Scene,
    p: V3,
    n: V3,
    m: Material,
    draws: Seq<PathDraws>,
    depth: int,
)
    requires
        scene.wf(),
        scene.physical(),
        physical(Some(m)),
        uniform_path(draws),
    ensures
        v3_nonnegative(shade_spec(scene, p, n, m, draws, depth)),
    decreases draws.len() - depth,
{
    if 0 <= depth < draws.len() {
        let d = draws[depth];
        let wi = bounce_direction(n, d);
        let bounce = ray_from(p, wi);
        let next = scene.hit(bounce);
        lemma_physical_scene(scene, bounce, d.light@, d.light_pick@);
        let (pos, pdf) = light_sample(scene.objs(), d.light@, d.light_pick@);
        if pdf > 0 {
            lemma_contribution_nonnegative(p, n, m.kd@, pos, pdf);
        }
        let direct = direct_light(scene, p, n, m, d);
        assert(v3_nonnegative(direct));
        let indirect = if d.roulette@ < scene.russian_roulette@ && next.happened {
            match next.m {
                Some(nm) => if nm.emits() {
                    v3_zero()
                } else {
                    passed_on(
                        shade_spec(scene, next.coords, next.normal, nm, draws, depth + 1),
                        m.kd@,
                        wi,
                        n,
                        scene.russian_roulette@,
                    )
                },
                None => v3_zero(),
            }
        } else {
            v3_zero()
        };
        if d.roulette@ < scene.russian_roulette@ && next.happened {
            match next.m {
                Some(nm) => {
                    if !nm.emits() {
                        lemma_shade_nonnegative(
                            scene,
                            next.coords,
                            next.normal,
                            nm,
                            draws,
                            depth + 1,
                        );
                        lemma_passed_on_nonnegative(
                            shade_spec(scene, next.coords, next.normal, nm, draws, depth + 1),
                            m.kd@,
                            wi,
                            n,
                            scene.russian_roulette@,
                        );
                    }
                },
                None => {},
            }
        }
        assert(v3_nonnegative(indirect));
    }
}

/// Where no material reflects or emits a negative amount of light and the
/// background colour has no negative component, no ray brings in a negative
/// radiance, whatever uniform numbers describe its path.
pub proof fn lemma_radiance_nonnegative(scene: Scene, ray: R3, draws: Seq<PathDraws>)
    requires
        scene.wf(),
        scene.physical(),
        v3_nonnegative(scene.background_color@),
        uniform_path(draws),
    ensures
        v3_nonnegative(radiance_spec(scene, ray, draws)),
{
    let found = scene.hit(ray);
    lemma_physical_scene(scene, ray, D3 { pick: 0, u1: 0, u2: 0 }, 0);
    match found.m {
        Some(m) => {
            lemma_shade_nonnegative(scene, found.coords, found.normal, m, draws, 0);
        },
        None => {},
    }
}

/// The nearest hit among the first `n` primitives of `prims`: the position
/// of the primitive and the ray parameter. Of several primitives at the
/// same parameter the first counts.
pub open spec fn nearest_among<T: Object>(prims: Seq<T>, ray: R3, n: int) -> Option<(int, int)>
    decreases n,
{
    if n <= 0 {
        None
    } else {
        let before = nearest_among(prims, ray, n - 1);
        let found = prims[n - 1].hit(ray);
        if found.happened && (before is None || found.distance < before.unwrap().1) {
            Some((n - 1, found.distance))
        } else {
            before
        }
    }
}

/// View of an optional payload.
pub open spec fn payload_view(payload: Option<HitPayload>) -> Option<(int, int)> {
    match payload {
        Some(payload) => Some((payload.index as int, payload.t_near@)),
        None => None,
    }
}

/// The nearest primitive on the ray, found by asking every primitive in
/// turn.
pub fn trace<T: Object>(ray: &Ray, objects: &Vec<T>) -> (r: Option<HitPayload>)
    requires
        all_wf(objects@),
    ensures
        payload_view(r) == nearest_among(objects@, ray@, objects@.len() as int),
{
    let mut best: Option<HitPayload> = None;
    let mut i: usize = 0;
    while i < objects.len()
        invariant
            0 <= i <= objects@.len(),
            all_wf(objects@),
            payload_view(best) == nearest_among(objects@, ray@, i as int),
        decreases objects@.len() - i,
    {
        let found: Intersection = objects[i].get_intersection(ray);
        if found.happened {
            let nearer: bool = match best {
                None => true,
                Some(payload) => found.distance.raw < payload.t_near.raw,
            };
            if nearer {
                best = Some(HitPayload { t_near: found.distance, index: i });
            }
        }
        i = i + 1;
    }
    best
}

/// What `nearest_among` finds is a hit that no other hit undercuts; it
/// finds nothing only if no primitive is hit.
pub proof fn lemma_nearest_among<T: Object>(prims: Seq<T>, ray: R3, n: int)
    requires
        0 <= n <= prims.len(),
    ensures
        match nearest_among(prims, ray, n) {
            None => forall|i: int| 0 <= i < n ==> !(#[trigger] prims[i]).hit(ray).happened,
            Some((k, d)) => {
                &&& 0 <= k < n
                &&& prims[k].hit(ray).happened
                &&& prims[k].hit(ray).distance == d
                &&& forall|i: int|
                    0 <= i < n && (#[trigger] prims[i]).hit(ray).happened ==> d <= prims[i].hit(
                        ray,
                    ).distance
            },
        },
    decreases n,
{
    if n > 0 {
        lemma_nearest_among(prims, ray, n - 1);
    }
}

/// Twice the position of the middle of pixel `k` in a row or column of `n`
/// pixels, as a fraction of its length: `(2 k + 1) / n`.
pub open spec fn pixel_fraction(k: int, n: int) -> int {
    ((2 * k + 1) * SCALE) / n
}

/// Tangent of half the field of view, which is given in degrees.
pub open spec fn view_scale(fov: int) -> int {
    let (sin, cos) = sin_cos_of_turns(fx_div(fov, 720 * SCALE));
    fx_div(sin, cos)
}

/// Width of the picture over its height.
pub open spec fn aspect_ratio(width: int, height: int) -> int {
    saturate((width * SCALE) / height)
}

/// The ray from the eye through the middle of the pixel in column `i` and
/// row `j`. The picture plane lies at distance one down the third axis;
/// columns run against the first axis and rows against the second.
pub open spec fn primary_ray(scene: Scene, i: int, j: int) -> R3 {
    let scale = view_scale(scene.fov@);
    let x = fx_mul(
        fx_mul(fx_sub(pixel_fraction(i, scene.width as int), SCALE as int), scale),
        aspect_ratio(scene.width as int, scene.height as int),
    );
    let y = fx_mul(fx_sub(SCALE as int, pixel_fraction(j, scene.height as int)), scale);
    ray_from(
        V3 { x: EYE_X * SCALE, y: EYE_Y * SCALE, z: EYE_Z * SCALE },
        v3_normalize(V3 { x: fx_neg(x), y, z: SCALE as int }),
    )
}

/// Sum of the radiance along `ray` over the first `n` paths of `paths`.
pub open spec fn radiance_sum(scene: Scene, ray: R3, paths: Seq<Seq<PathDraws>>, n: int) -> (
    int,
    int,
    int,
)
    decreases n,
{
    if n <= 0 {
        (0, 0, 0)
    } else {
        let before = radiance_sum(scene, ray, paths, n - 1);
        let sample = radiance_spec(scene, ray, paths[n - 1]);
        (before.0 + sample.x, before.1 + sample.y, before.2 + sample.z)
    }
}

/// Mean of the radiance along `ray` over the paths of `paths`, each
/// component rounded toward zero; nothing if there is no path.
pub open spec fn radiance_mean(scene: Scene, ray: R3, paths: Seq<Seq<PathDraws>>) -> V3 {
    let n = paths.len() as int;
    let sum = radiance_sum(scene, ray, paths, n);
    if n == 0 {
        v3_zero()
    } else {
        V3 { x: trunc_div(sum.0, n), y: trunc_div(sum.1, n), z: trunc_div(sum.2, n) }
    }
}

/// `colour` is the mean radiance through the pixel over `spp` paths.
pub open spec fn is_pixel_value(scene: Scene, i: int, j: int, spp: int, colour: V3) -> bool {
    exists|paths: Seq<Seq<PathDraws>>|
        {
            &&& paths.len() == spp
            &&& forall|k: int|
                0 <= k < spp ==> path_draws(
                    #[trigger] paths[k],
                    scene.russian_roulette@,
                    MAX_BOUNCES as int,
                )
            &&& colour == #[trigger] radiance_mean(scene, primary_ray(scene, i, j), paths)
        }
}

/// What every path brings in through a pixel of a scene without lights:
/// the background colour if the pixel's ray hits nothing, else nothing.
pub open spec fn dark_value(scene: Scene, ray: R3) -> V3 {
    if scene.hit(ray).happened {
        v3_zero()
    } else {
        scene.background_color@
    }
}

/// `(2 k + 1) / n`
fn fraction(k: usize, n: usize) -> (r: Fixed)
    requires
        k < n,
    ensures
        r@ == pixel_fraction(k as int, n as int),
{
    let twice: u128 = 2 * (k as u128) + 1;
    assert(twice * 0x1_0000_0000 <= 0x2_0000_0000_0000_0000 * 0x1_0000_0000) by (nonlinear_arith)
        requires
            twice <= 0x2_0000_0000_0000_0000,
    ;
    let q: u128 = (twice * 0x1_0000_0000) / (n as u128);
    assert(q < 0x2_0000_0000) by (nonlinear_arith)
        requires
            q == (twice * 0x1_0000_0000) / (n as int),
            twice < 2 * n,
            n > 0,
    ;
    Fixed { raw: q as i64 }
}

/// Width over height.
fn aspect(width: usize, height: usize) -> (r: Fixed)
    requires
        height > 0,
    ensures
        r@ == aspect_ratio(width as int, height as int),
{
    assert(width * 0x1_0000_0000 <= 0x1_0000_0000_0000_0000 * 0x1_0000_0000) by (nonlinear_arith)
        requires
            width <= 0x1_0000_0000_0000_0000,
    ;
    let q: u128 = ((width as u128) * 0x1_0000_0000) / (height as u128);
    if q > RAW_MAX as u128 {
        Fixed { raw: RAW_MAX }
    } else {
        Fixed { raw: q as i64 }
    }
}

/// The ray from the eye through the middle of the pixel in column `i` and
/// row `j`.
pub fn pixel_ray(scene: &Scene, i: usize, j: usize) -> (ray: Ray)
    requires
        i < scene.width,
        j < scene.height,
    ensures
        ray@ == primary_ray(*scene, i as int, j as int),
        ray.wf(),
{
    let (sin, cos): (Fixed, Fixed) = sin_cos_turns(scene.fov.saturating_div(Fixed::from_int(720)));
    let scale: Fixed = sin.saturating_div(cos);
    let one: Fixed = Fixed::one();
    let x: Fixed = fraction(i, scene.width).saturating_sub(one).saturating_mul(
        scale,
    ).saturating_mul(aspect(scene.width, scene.height));
    let y: Fixed = one.saturating_sub(fraction(j, scene.height)).saturating_mul(scale);
    let direction: Vector3 = Vector3 { x: x.saturating_neg(), y, z: one }.normalize();
    Ray::new(Vector3::from_ints(EYE_X, EYE_Y, EYE_Z), direction, Fixed::zero())
}

/// The mean of `n` equal numbers is that number.
proof fn lemma_mean_of_equal(v: int, n: int)
    requires
        n > 0,
    ensures
        trunc_div(n * v, n) == v,
{
    if v >= 0 {
        assert((n * v) / n == v) by (nonlinear_arith)
            requires
                n > 0,
                v >= 0,
        ;
        assert(n * v >= 0) by (nonlinear_arith)
            requires
                n > 0,
                v >= 0,
        ;
    } else {
        assert((-(n * v)) / n == -v) by (nonlinear_arith)
            requires
                n > 0,
                v < 0,
        ;
        assert(n * v < 0) by (nonlinear_arith)
            requires
                n > 0,
                v < 0,
        ;
    }
}

/// In a scene without lights the sum of the radiance over `n` paths is `n`
/// times the value of the pixel.
proof fn lemma_dark_sum(scene: Scene, ray: R3, paths: Seq<Seq<PathDraws>>, n: int)
    requires
        scene.wf(),
        scene.dark(),
        0 <= n,
    ensures
        radiance_sum(scene, ray, paths, n) == (
            n * dark_value(scene, ray).x,
            n * dark_value(scene, ray).y,
            n * dark_value(scene, ray).z,
        ),
    decreases n,
{
    let v = dark_value(scene, ray);
    if n > 0 {
        lemma_dark_sum(scene, ray, paths, n - 1);
        lemma_dark_scene(scene, ray, paths[n - 1]);
        assert(n * v.x == (n - 1) * v.x + v.x) by (nonlinear_arith);
        assert(n * v.y == (n - 1) * v.y + v.y) by (nonlinear_arith);
        assert(n * v.z == (n - 1) * v.z + v.z) by (nonlinear_arith);
    } else {
        assert(0 * v.x == 0 && 0 * v.y == 0 && 0 * v.z == 0);
    }
}

/// In a scene in which no primitive gives off light, the mean radiance
/// through a pixel over any paths, of which there is at least one, is the
/// background colour if the pixel's ray hits nothing, and nothing if it
/// hits a surface.
pub proof fn lemma_dark_pixel(scene: Scene, ray: R3, paths: Seq<Seq<PathDraws>>)
    requires
        scene.wf(),
        scene.dark(),
        paths.len() > 0,
    ensures
        radiance_mean(scene, ray, paths) == dark_value(scene, ray),
{
    let n = paths.len() as int;
    let v = dark_value(scene, ray);
    lemma_dark_sum(scene, ray, paths, n);
    lemma_mean_of_equal(v.x, n);
    lemma_mean_of_equal(v.y, n);
    lemma_mean_of_equal(v.z, n);
}

/// The mean radiance through the pixel in column `i` and row `j` over `spp`
/// paths drawn at random; nothing if `spp` is zero. It fails until the
/// scene's tree is built.
pub fn render_pixel(scene: &Scene, i: usize, j: usize, spp: u32) -> (r: Result<
    Vector3,
    SceneNotBuiltError,
>)
    requires
        scene.wf(),
        i < scene.width,
        j < scene.height,
    ensures
        r is Ok <==> scene.built(),
        r matches Ok(colour) ==> is_pixel_value(*scene, i as int, j as int, spp as int, colour@),
        r matches Ok(colour) ==> scene.dark() && spp > 0 ==> colour@ == dark_value(
            *scene,
            primary_ray(*scene, i as int, j as int),
        ),
        r matches Ok(colour) ==> scene.physical() && v3_nonnegative(scene.background_color@)
            ==> v3_nonnegative(colour@),
{
    if scene.bvh.is_none() {
        return Err(SceneNotBuiltError {  });
    }
    let ray: Ray = pixel_ray(scene, i, j);
    let mut sum_x: i128 = 0;
    let mut sum_y: i128 = 0;
    let mut sum_z: i128 = 0;
    let ghost mut paths: Seq<Seq<PathDraws>> = Seq::empty();
    let mut k: u32 = 0;
    while k < spp
        invariant
            0 <= k <= spp,
            scene.wf(),
            scene.built(),
            ray@ == primary_ray(*scene, i as int, j as int),
            paths.len() == k,
            forall|q: int|
                0 <= q < k ==> path_draws(
                    #[trigger] paths[q],
                    scene.russian_roulette@,
                    MAX_BOUNCES as int,
                ),
            (sum_x as int, sum_y as int, sum_z as int) == radiance_sum(
                *scene,
                ray@,
                paths,
                k as int,
            ),
            -k * 0x8000_0000_0000_0000 <= sum_x <= k * 0x7fff_ffff_ffff_ffff,
            -k * 0x8000_0000_0000_0000 <= sum_y <= k * 0x7fff_ffff_ffff_ffff,
            -k * 0x8000_0000_0000_0000 <= sum_z <= k * 0x7fff_ffff_ffff_ffff,
            scene.physical() && v3_nonnegative(scene.background_color@) ==> sum_x >= 0 && sum_y
                >= 0 && sum_z >= 0,
        decreases spp - k,
    {
        let draws: Vec<PathDraws> = draw_path(scene.russian_roulette, MAX_BOUNCES);
        match radiance_along(&ray, scene, &draws) {
            Err(e) => {
                return Err(e);
            },
            Ok(sample) => {
                proof {
                    let longer = paths.push(draws@);
                    lemma_sum_extends(*scene, ray@, paths, longer, k as int);
                    paths = longer;
                    if scene.physical() && v3_nonnegative(scene.background_color@) {
                        lemma_radiance_nonnegative(*scene, ray@, draws@);
                    }
                }
                sum_x = sum_x + sample.x.raw as i128;
                sum_y = sum_y + sample.y.raw as i128;
                sum_z = sum_z + sample.z.raw as i128;
            },
        }
        k = k + 1;
    }
    if spp == 0 {
        proof {
            assert(radiance_mean(*scene, ray@, paths) == v3_zero());
        }
        return Ok(Vector3::zero());
    }
    let n: i128 = spp as i128;
    proof {
        lemma_mean_in_range(sum_x as int, n as int);
        lemma_mean_in_range(sum_y as int, n as int);
        lemma_mean_in_range(sum_z as int, n as int);
        if scene.dark() {
            lemma_dark_pixel(*scene, ray@, paths);
        }
    }
    let colour: Vector3 = Vector3 {
        x: Fixed { raw: (sum_x / n) as i64 },
        y: Fixed { raw: (sum_y / n) as i64 },
        z: Fixed { raw: (sum_z / n) as i64 },
    };
    proof {
        assert(colour@ == radiance_mean(*scene, ray@, paths));
    }
    Ok(colour)
}

/// Row `j` of the picture, from the first column to the last. It fails
/// until the scene's tree is built.
pub fn render_row(scene: &Scene, j: usize, spp: u32) -> (r: Result<
    Vec<Vector3>,
    SceneNotBuiltError,
>)
    requires
        scene.wf(),
        j < scene.height,
    ensures
        r is Ok <==> scene.built(),
        r matches Ok(row) ==> row@.len() == scene.width && forall|i: int|
            0 <= i < scene.width ==> is_pixel_value(
                *scene,
                i,
                j as int,
                spp as int,
                (#[trigger] row@[i])@,
            ),
        r matches Ok(row) ==> scene.dark() && spp > 0 ==> forall|i: int|
            0 <= i < scene.width ==> (#[trigger] row@[i])@ == dark_value(
                *scene,
                primary_ray(*scene, i, j as int),
            ),
        r matches Ok(row) ==> scene.physical() && v3_nonnegative(scene.background_color@)
            ==> forall|i: int| 0 <= i < scene.width ==> v3_nonnegative((#[trigger] row@[i])@),
{
    if scene.bvh.is_none() {
        return Err(SceneNotBuiltError {  });
    }
    let mut row: Vec<Vector3> = Vec::new();
    let mut i: usize = 0;
    while i < scene.width
        invariant
            0 <= i <= scene.width,
            j < scene.height,
            scene.wf(),
            scene.built(),
            row@.len() == i,
            forall|q: int|
                0 <= q < i ==> is_pixel_value(
                    *scene,
                    q,
                    j as int,
                    spp as int,
                    (#[trigger] row@[q])@,
                ),
            scene.dark() && spp > 0 ==> forall|q: int|
                0 <= q < i ==> (#[trigger] row@[q])@ == dark_value(
                    *scene,
                    primary_ray(*scene, q, j as int),
                ),
            scene.physical() && v3_nonnegative(scene.background_color@) ==> forall|q: int|
                0 <= q < i ==> v3_nonnegative((#[trigger] row@[q])@),
        decreases scene.width - i,
    {
        match render_pixel(scene, i, j, spp) {
            Err(e) => {
                return Err(e);
            },
            Ok(colour) => {
                row.push(colour);
            },
        }
        i = i + 1;
    }
    Ok(row)
}

/// Position of the pixel in column `i` and row `j` in a picture of the
/// given width, which is stored row by row.
pub open spec fn pixel_index(width: int, i: int, j: int) -> int {
    j * width + i
}

/// The picture of the scene: for every pixel, row by row, the mean radiance
/// over `spp` paths through its middle. It fails until the scene's tree is
/// built.
pub fn render(scene: &Scene, spp: u32) -> (r: Result<Vec<Vector3>, SceneNotBuiltError>)
    requires
        scene.wf(),
        scene.width * scene.height <= usize::MAX,
    ensures
        r is Ok <==> scene.built(),
        r matches Ok(picture) ==> picture@.len() == scene.width * scene.height && forall|
            i: int,
            j: int,
        |
            0 <= i < scene.width && 0 <= j < scene.height ==> is_pixel_value(
                *scene,
                i,
                j,
                spp as int,
                (#[trigger] picture@[pixel_index(scene.width as int, i, j)])@,
            ),
        r matches Ok(picture) ==> scene.dark() && spp > 0 ==> forall|i: int, j: int|
            0 <= i < scene.width && 0 <= j < scene.height ==> (#[trigger] picture@[pixel_index(
                scene.width as int,
                i,
                j,
            )])@ == dark_value(*scene, primary_ray(*scene, i, j)),
        r matches Ok(picture) ==> scene.physical() && v3_nonnegative(scene.background_color@)
            ==> forall|k: int|
            0 <= k < picture@.len() ==> v3_nonnegative((#[trigger] picture@[k])@),
{
    if scene.bvh.is_none() {
        return Err(SceneNotBuiltError {  });
    }
    let width: usize = scene.width;
    let mut picture: Vec<Vector3> = Vec::new();
    let mut j: usize = 0;
    while j < scene.height
        invariant
            0 <= j <= scene.height,
            width == scene.width,
            scene.wf(),
            scene.built(),
            scene.width * scene.height <= usize::MAX,
            picture@.len() == j * width,
            forall|a: int, b: int|
                0 <= a < width && 0 <= b < j ==> is_pixel_value(
                    *scene,
                    a,
                    b,
                    spp as int,
                    (#[trigger] picture@[pixel_index(width as int, a, b)])@,
                ),
            scene.dark() && spp > 0 ==> forall|a: int, b: int|
                0 <= a < width && 0 <= b < j ==> (#[trigger] picture@[pixel_index(
                    width as int,
                    a,
                    b,
                )])@ == dark_value(*scene, primary_ray(*scene, a, b)),
            scene.physical() && v3_nonnegative(scene.background_color@) ==> forall|k: int|
                0 <= k < picture@.len() ==> v3_nonnegative((#[trigger] picture@[k])@),
        decreases scene.height - j,
    {
        match render_row(scene, j, spp) {
            Err(e) => {
                return Err(e);
            },
            Ok(row) => {
                let ghost before = picture@;
                let mut row = row;
                let ghost fresh = row@;
                picture.append(&mut row);
                proof {
                    if scene.physical() && v3_nonnegative(scene.background_color@) {
                        assert forall|k: int| 0 <= k < picture@.len() implies v3_nonnegative(
                            (#[trigger] picture@[k])@,
                        ) by {
                            if k < before.len() {
                                assert(picture@[k] == before[k]);
                            } else {
                                assert(picture@[k] == fresh[k - before.len()]);
                            }
                        }
                    }
                    assert((j + 1) * width == j * width + width) by (nonlinear_arith);
                    assert((j + 1) * width <= scene.height * width) by (nonlinear_arith)
                        requires
                            j + 1 <= scene.height,
                            width >= 0,
                    ;
                    assert forall|a: int, b: int| 0 <= a < width && 0 <= b < j + 1 implies {
                        let colour = (#[trigger] picture@[pixel_index(width as int, a, b)])@;
                        &&& is_pixel_value(*scene, a, b, spp as int, colour)
                        &&& scene.dark() && spp > 0 ==> colour == dark_value(
                            *scene,
                            primary_ray(*scene, a, b),
                        )
                    } by {
                        if b < j {
                            assert(b * width + a < j * width) by (nonlinear_arith)
                                requires
                                    0 <= a < width,
                                    0 <= b < j,
                            ;
                            assert(picture@[pixel_index(width as int, a, b)] == before[pixel_index(
                                width as int,
                                a,
                                b,
                            )]);
                        } else {
                            assert(picture@[pixel_index(width as int, a, b)] == fresh[a]);
                        }
                    }
                }
            },
        }
        j = j + 1;
    }
    proof {
        assert(scene.height * width == scene.width * scene.height) by (nonlinear_arith)
            requires
                width == scene.width,
        ;
    }
    Ok(picture)
}

/// The sum over the first `n` paths does not change when more paths follow.
proof fn lemma_sum_extends(
    scene: Scene,
    ray: R3,
    paths: Seq<Seq<PathDraws>>,
    longer: Seq<Seq<PathDraws>>,
    n: int,
)
    requires
        0 <= n <= paths.len(),
        paths.len() <= longer.len(),
        forall|q: int| 0 <= q < paths.len() ==> paths[q] == longer[q],
    ensures
        radiance_sum(scene, ray, longer, n) == radiance_sum(scene, ray, paths, n),
    decreases n,
{
    if n > 0 {
        lemma_sum_extends(scene, ray, paths, longer, n - 1);
    }
}

/// The mean of `n` numbers of the raw range lies in the raw range.
proof fn lemma_mean_in_range(sum: int, n: int)
    requires
        n > 0,
        -n * 0x8000_0000_0000_0000 <= sum <= n * 0x7fff_ffff_ffff_ffff,
    ensures
        -0x8000_0000_0000_0000 <= trunc_div(sum, n) <= 0x7fff_ffff_ffff_ffff,
        sum >= 0 ==> trunc_div(sum, n) >= 0,
{
    if sum >= 0 {
        assert(0 <= sum / n <= 0x7fff_ffff_ffff_ffff) by (nonlinear_arith)
            requires
                n > 0,
                0 <= sum <= n * 0x7fff_ffff_ffff_ffff,
        ;
    } else {
        assert(0 <= (-sum) / n <= 0x8000_0000_0000_0000) by (nonlinear_arith)
            requires
                n > 0,
                0 <= -sum <= n * 0x8000_0000_0000_0000,
        ;
    }
}

/// Fraction of unpolarised light that a boundary between two media
/// reflects, by Fresnel's equations. `cos_i` is the cosine between the
/// incoming direction and the normal and `ior` the index of refraction of
/// the medium behind the boundary; the medium before it has index one.
/// Light that arrives from behind (`cos_i > 0`) passes from the denser
/// medium; beyond the critical angle all of it is reflected.
pub open spec fn fresnel_spec(cos: int, ior: int) -> int {
    let cos_i = clamp_spec(-SCALE, SCALE as int, cos);
    let eta_i = if cos_i > 0 {
        ior
    } else {
        SCALE as int
    };
    let eta_t = if cos_i > 0 {
        SCALE as int
    } else {
        ior
    };
    let sin_t = fx_mul(
        fx_div(eta_i, eta_t),
        fx_sqrt(fx_max(0, fx_sub(SCALE as int, fx_mul(cos_i, cos_i)))),
    );
    if sin_t > SCALE {
        SCALE as int
    } else {
        let cos_t = fx_sqrt(fx_max(0, fx_sub(SCALE as int, fx_mul(sin_t, sin_t))));
        let c = fx_abs(cos_i);
        let rs = fx_div(
            fx_sub(fx_mul(eta_t, c), fx_mul(eta_i, cos_t)),
            fx_add(fx_mul(eta_t, c), fx_mul(eta_i, cos_t)),
        );
        let rp = fx_div(
            fx_sub(fx_mul(eta_i, c), fx_mul(eta_t, cos_t)),
            fx_add(fx_mul(eta_i, c), fx_mul(eta_t, cos_t)),
        );
        trunc_div(fx_add(fx_mul(rs, rs), fx_mul(rp, rp)), 2)
    }
}

/// Fraction of the light along `input` that a surface with the given normal
/// and index of refraction reflects.
pub fn fresnel(input: &Vector3, normal: &Vector3, ior: &Fixed) -> (r: Fixed)
    ensures
        r@ == fresnel_spec(v3_dot(input@, normal@), ior@),
{
    let one: Fixed = Fixed::one();
    let cos_i: Fixed = clamp(one.saturating_neg(), one, input.dot(normal));
    let (eta_i, eta_t): (Fixed, Fixed) = if cos_i.raw > 0 {
        (*ior, one)
    } else {
        (one, *ior)
    };
    let sin_t: Fixed = eta_i.saturating_div(eta_t).saturating_mul(
        Fixed::zero().max(one.saturating_sub(cos_i.saturating_mul(cos_i))).sqrt(),
    );
    if sin_t.raw > SCALE {
        one
    } else {
        let cos_t: Fixed = Fixed::zero().max(
            one.saturating_sub(sin_t.saturating_mul(sin_t)),
        ).sqrt();
        let c: Fixed = cos_i.saturating_abs();
        let rs: Fixed = eta_t.saturating_mul(c).saturating_sub(
            eta_i.saturating_mul(cos_t),
        ).saturating_div(eta_t.saturating_mul(c).saturating_add(eta_i.saturating_mul(cos_t)));
        let rp: Fixed = eta_i.saturating_mul(c).saturating_sub(
            eta_t.saturating_mul(cos_t),
        ).saturating_div(eta_i.saturating_mul(c).saturating_add(eta_t.saturating_mul(cos_t)));
        rs.saturating_mul(rs).saturating_add(rp.saturating_mul(rp)).half()
    }
}

} // verus!

//! The decisions of the path tracer. A path is followed one surface at a
//! time: the caller draws the random numbers and the scattered direction,
//! and weighs and sums the radiance; which surface is met, whether a light
//! is seen from it, and whether the path goes on is decided here.

use vstd::prelude::*;
use crate::bvh::iota;
use crate::intersection::{Intersection, is_nearest_among};
use crate::ratio::Ratio;
use crate::ray::Ray;
use crate::scene::{LightSample, Scene, SCENE_LIMIT, in_scene};
use crate::triangle::{lemma_bounds_hold_vertices, lemma_hit_point_in_bounds};
use crate::vector::{Int3, Vector3, COORD_LIMIT, lemma_cross_bound};

verus! {

/// A hit on the way to a light hides the light unless it lies at or beyond
/// the fraction `SHADOW_REACH_NUM / SHADOW_REACH_DEN` of the way.
pub const SHADOW_REACH_NUM: i128 = 1023;

/// The denominator of that fraction.
pub const SHADOW_REACH_DEN: i128 = 1024;

/// Where a path stands.
#[derive(Clone, Copy, Debug, PartialEq, Eq, Structural)]
pub enum PathState {
    /// The camera ray has not been traced yet.
    Camera { ray: Ray },
    /// The path has reached a surface that emits no light.
    Surface { hit: Intersection },
    /// The path has ended.
    Finished,
}

/// What the caller draws for one surface of a path: three random numbers
/// for a point on a light, one for the roulette, and the direction that the
/// surface's material scatters into.
#[derive(Clone, Copy, Debug, PartialEq, Eq, Structural)]
pub struct Randoms {
    pub light_pick: u32,
    pub light_u: u32,
    pub light_v: u32,
    pub roulette: u32,
    pub direction: Vector3,
}

/// The radiance that a step of a path gathers.
#[derive(Clone, Copy, Debug, PartialEq, Eq, Structural)]
pub enum Gather {
    Nothing,
    /// The camera ray left the scene: the background.
    Background,
    /// The camera ray met a light: its emission.
    Emission { material: usize },
    /// The light is seen from the surface: its emission, weighted by the
    /// reflectance, the two cosines, the squared distance and the density.
    Direct { light: LightSample },
}

/// What the caller is to do after a step: gather radiance, and, where the
/// path was scattered to a new surface, weigh what follows by reflectance
/// and cosine over the density of the direction and the roulette's
/// survival probability.
#[derive(Clone, Copy, Debug, PartialEq, Eq, Structural)]
pub struct PathAction {
    pub gather: Gather,
    pub scattered: bool,
}

/// One coordinate of a point that steps off a surface.
pub open spec fn lift(p: i64, n: i64, front: bool) -> i64 {
    if (front && n > 0) || (!front && n < 0) {
        (p + 1) as i64
    } else {
        p
    }
}

/// The point next to `point` from which a ray towards `toward` leaves the
/// surface with the given normal: one step along every axis along which the
/// normal, turned to the side of `toward`, rises. A point of a surface that
/// was rounded down to the lattice is so moved to the side of `toward`:
/// see `lemma_leave_side`.
pub open spec fn spec_leave(point: Vector3, normal: Vector3, toward: Vector3) -> Vector3 {
    let front = normal@.dot(toward@) >= 0;
    Vector3 {
        x: lift(point.x, normal.x, front),
        y: lift(point.y, normal.y, front),
        z: lift(point.z, normal.z, front),
    }
}

/// The step from `from` to `to`.
pub open spec fn spec_step(from: Vector3, to: Vector3) -> Vector3 {
    Vector3 { x: (to.x - from.x) as i64, y: (to.y - from.y) as i64, z: (to.z - from.z) as i64 }
}

/// The point next to `point` from which a ray towards `toward` leaves the
/// surface with the given normal.
pub fn leave_surface(point: &Vector3, normal: &Vector3, toward: &Vector3) -> (p: Vector3)
    requires
        point@.within(SCENE_LIMIT as int),
        normal@.within(2199023255552),
        toward@.within(2 * COORD_LIMIT as int),
    ensures
        p == spec_leave(*point, *normal, *toward),
        p@.within(SCENE_LIMIT + 1),
{
    let front = normal.dot(toward) >= 0;
    Vector3 {
        x: if (front && normal.x > 0) || (!front && normal.x < 0) {
            point.x + 1
        } else {
            point.x
        },
        y: if (front && normal.y > 0) || (!front && normal.y < 0) {
            point.y + 1
        } else {
            point.y
        },
        z: if (front && normal.z > 0) || (!front && normal.z < 0) {
            point.z + 1
        } else {
            point.z
        },
    }
}

/// One coordinate of `lemma_leave_side`.
proof fn lemma_lift_term(n: i64, p: i64, den: int, a: int, front: bool)
    requires
        p < i64::MAX,
        den > 0,
        0 <= a < den,
    ensures
        front ==> n * (den * (lift(p, n, front) - p) - a) >= 0,
        !front ==> n * (den * (lift(p, n, front) - p) - a) <= 0,
{
    let step = lift(p, n, front) - p;
    let nn = n as int;
    assert(den * 1 == den && den * 0 == 0) by (nonlinear_arith);
    if front {
        if n > 0 {
            assert(step == 1);
            assert(nn * (den - a) >= 0) by (nonlinear_arith)
                requires
                    nn > 0,
                    den - a > 0,
            ;
        } else {
            assert(step == 0);
            assert(nn * (0 - a) >= 0) by (nonlinear_arith)
                requires
                    nn <= 0,
                    a >= 0,
            ;
        }
    } else {
        if n < 0 {
            assert(step == 1);
            assert(nn * (den - a) <= 0) by (nonlinear_arith)
                requires
                    nn < 0,
                    den - a > 0,
            ;
        } else {
            assert(step == 0);
            assert(nn * (0 - a) <= 0) by (nonlinear_arith)
                requires
                    nn >= 0,
                    a >= 0,
            ;
        }
    }
}

/// Stepping off a surface does not cross it. Let `point` be a point of the
/// surface rounded down, so that the point itself is `point + a / den` with
/// `0 <= a < den` in every coordinate. Then the point that `spec_leave`
/// gives lies on the side of the surface to which `toward` points, or on
/// the surface: its offset from the point of the surface, scaled by `den`,
/// has a product with the normal of the sign of the product of `toward`
/// with the normal.
pub proof fn lemma_leave_side(point: Vector3, normal: Vector3, toward: Vector3, a: Int3, den: int)
    requires
        point@.within(SCENE_LIMIT as int),
        den > 0,
        0 <= a.x < den,
        0 <= a.y < den,
        0 <= a.z < den,
    ensures
        ({
            let left = spec_leave(point, normal, toward);
            let offset = left@.minus(point@).scale(den).minus(a);
            &&& normal@.dot(toward@) >= 0 ==> normal@.dot(offset) >= 0
            &&& normal@.dot(toward@) < 0 ==> normal@.dot(offset) <= 0
        }),
{
    let front = normal@.dot(toward@) >= 0;
    lemma_lift_term(normal.x, point.x, den, a.x, front);
    lemma_lift_term(normal.y, point.y, den, a.y, front);
    lemma_lift_term(normal.z, point.z, den, a.z, front);
}

/// The normal of a surface, turned against the ray that comes in along
/// `incoming`: the normal itself where the ray meets the side that the
/// normal points to, else its opposite.
pub fn facing(normal: &Vector3, incoming: &Vector3) -> (n: Vector3)
    requires
        normal@.within(2199023255552),
        incoming@.within(2 * COORD_LIMIT as int),
    ensures
        n@ == (if normal@.dot(incoming@) > 0 {
            normal@.scale(-1)
        } else {
            normal@
        }),
{
    if normal.dot(incoming) > 0 {
        Vector3 { x: -normal.x, y: -normal.y, z: -normal.z }
    } else {
        *normal
    }
}

impl PathState {
    /// Whether the state belongs to a path through the scene.
    pub fn is_wf(&self, scene: &Scene) -> (b: bool)
        ensures
            b == self.wf(*scene),
    {
        match self {
            PathState::Camera { ray } => ray.is_wf(),
            PathState::Surface { hit } => {
                hit.prim < scene.prims.len() && hit.normal == scene.prims[hit.prim].normal
                    && hit.point.is_within(SCENE_LIMIT)
            },
            PathState::Finished => true,
        }
    }

    /// The state belongs to a path through the scene.
    pub open spec fn wf(self, scene: Scene) -> bool {
        match self {
            PathState::Camera { ray } => ray.wf(),
            PathState::Surface { hit } => {
                &&& hit.prim < scene.prims.len()
                &&& hit.normal == scene.prims[hit.prim as int].normal
                &&& hit.point@.within(SCENE_LIMIT as int)
            },
            PathState::Finished => true,
        }
    }
}

impl Scene {
    /// The light is seen from `from`: the two points differ, and the ray
    /// from `from` to the light's point meets nothing before the light,
    /// that is, nothing but the light's primitive nearer than
    /// `SHADOW_REACH` of the way.
    pub open spec fn spec_visible(self, from: Vector3, light: LightSample) -> bool {
        let ray = Ray { origin: from, direction: spec_step(from, light.point) };
        &&& !ray.direction@.is_zero()
        &&& match self.spec_intersect(ray) {
            None => true,
            Some(h) => h.prim == light.prim || !h.hit.t.spec_lt(
                Ratio { num: SHADOW_REACH_NUM, den: SHADOW_REACH_DEN },
            ),
        }
    }

    /// The state of a path that has come to the hit `h`: finished at a
    /// light, else at the surface.
    pub open spec fn spec_arrive(self, h: Intersection) -> PathState {
        if self.spec_emits(h.prim as int) {
            PathState::Finished
        } else {
            PathState::Surface { hit: h }
        }
    }

    /// What a step gathers at a surface: the light that the random numbers
    /// select, where there is one and it is seen from the surface.
    pub open spec fn spec_direct(self, hit: Intersection, ev: Randoms) -> Gather {
        match self.spec_sample_light(ev.light_pick, ev.light_u, ev.light_v) {
            None => Gather::Nothing,
            Some(light) => if self.spec_visible(
                spec_leave(hit.point, hit.normal, spec_step(hit.point, light.point)),
                light,
            ) {
                Gather::Direct { light }
            } else {
                Gather::Nothing
            },
        }
    }

    /// Where a path goes on from a surface: nowhere if the roulette ends
    /// it, if the caller's direction is none of the lattice, or if the
    /// scattered ray leaves the scene or meets a light; else to the surface
    /// that the scattered ray meets.
    pub open spec fn spec_scatter(self, hit: Intersection, ev: Randoms) -> PathState {
        let ray = Ray {
            origin: spec_leave(hit.point, hit.normal, ev.direction),
            direction: ev.direction,
        };
        if ev.roulette >= self.rr_prob || !ev.direction@.within(COORD_LIMIT as int)
            || ev.direction@.is_zero() {
            PathState::Finished
        } else {
            match self.spec_intersect(ray) {
                None => PathState::Finished,
                Some(h) => self.spec_arrive(h),
            }
        }
    }

    /// One step of a path.
    ///
    /// From the camera: the ray is traced. It leaves the scene: the path
    /// ends with the background. It meets a light: the path ends with the
    /// light's emission. It meets another surface: the path stands there,
    /// and nothing is gathered yet.
    ///
    /// At a surface: the direct light is gathered, and the path is
    /// scattered on or ends. A light that a scattered ray meets ends the
    /// path and adds nothing: lights are counted where they are sampled.
    pub open spec fn spec_advance(self, state: PathState, ev: Randoms) -> (PathState, PathAction) {
        match state {
            PathState::Camera { ray } => match self.spec_intersect(ray) {
                None => (
                    PathState::Finished,
                    PathAction { gather: Gather::Background, scattered: false },
                ),
                Some(h) => if self.spec_emits(h.prim as int) {
                    (
                        PathState::Finished,
                        PathAction {
                            gather: Gather::Emission { material: h.material },
                            scattered: false,
                        },
                    )
                } else {
                    (
                        self.spec_arrive(h),
                        PathAction { gather: Gather::Nothing, scattered: false },
                    )
                },
            },
            PathState::Surface { hit } => {
                let next = self.spec_scatter(hit, ev);
                (
                    next,
                    PathAction {
                        gather: self.spec_direct(hit, ev),
                        scattered: next is Surface,
                    },
                )
            },
            PathState::Finished => (
                PathState::Finished,
                PathAction { gather: Gather::Nothing, scattered: false },
            ),
        }
    }

    /// Whether the light is seen from `from`, a point next to a surface.
    pub fn visible(&self, from: &Vector3, light: &LightSample) -> (b: bool)
        requires
            self.wf(),
            from@.within(SCENE_LIMIT + 1),
            light.point@.within(SCENE_LIMIT as int),
        ensures
            b == self.spec_visible(*from, *light),
    {
        let direction = light.point.sub(from);
        match Ray::new(*from, direction) {
            None => false,
            Some(ray) => {
                match self.intersect(&ray) {
                    None => true,
                    Some(h) => {
                        let reach = Ratio { num: SHADOW_REACH_NUM, den: SHADOW_REACH_DEN };
                        h.prim == light.prim || !h.hit.t.lt(&reach)
                    },
                }
            },
        }
    }

    /// Whether a path survives the roulette with the random number `r`.
    pub fn survives(&self, r: u32) -> (b: bool)
        ensures
            b == (r < self.rr_prob),
    {
        r < self.rr_prob
    }

    /// The state of a path that the ray has brought to its nearest hit `h`.
    fn arrive(&self, ray: &Ray, h: &Intersection) -> (s: PathState)
        requires
            self.wf(),
            ray.wf(),
            self.spec_intersect(*ray) == Some(*h),
            is_nearest_among(self.prims@, *ray, iota(self.prims.len() as nat), Some(*h)),
        ensures
            s == self.spec_arrive(*h),
            s.wf(*self),
    {
        assert(h.prim < self.prims.len()) by {
            let s = iota(self.prims.len() as nat);
            let k = choose|k: int| 0 <= k < s.len() && s[k] == h.prim;
            assert(s[k] == k);
        }
        if self.emits(h.prim) {
            PathState::Finished
        } else {
            proof {
                let tri = self.prims[h.prim as int];
                lemma_bounds_hold_vertices(tri);
                lemma_hit_point_in_bounds(tri, *ray);
                assert(in_scene(tri));
            }
            PathState::Surface { hit: *h }
        }
    }

    /// One step of a path: see `spec_advance`.
    pub fn advance(&self, state: &PathState, ev: &Randoms) -> (r: (PathState, PathAction))
        requires
            self.wf(),
            state.wf(*self),
        ensures
            r == self.spec_advance(*state, *ev),
            r.0.wf(*self),
    {
        match state {
            PathState::Camera { ray } => match self.intersect(ray) {
                None => (
                    PathState::Finished,
                    PathAction { gather: Gather::Background, scattered: false },
                ),
                Some(h) => {
                    let next = self.arrive(ray, &h);
                    match next {
                        PathState::Finished => (
                            PathState::Finished,
                            PathAction {
                                gather: Gather::Emission { material: h.material },
                                scattered: false,
                            },
                        ),
                        _ => (next, PathAction { gather: Gather::Nothing, scattered: false }),
                    }
                },
            },
            PathState::Surface { hit } => {
                let point = &hit.point;
                proof {
                    let tri = self.prims[hit.prim as int];
                    lemma_cross_bound(tri.e1@, tri.e2@, 1048576, 1048576);
                }
                let gather = match self.sample_light(ev.light_pick, ev.light_u, ev.light_v) {
                    None => Gather::Nothing,
                    Some(light) => {
                        let toward = light.point.sub(point);
                        let from = leave_surface(point, &hit.normal, &toward);
                        if self.visible(&from, &light) {
                            Gather::Direct { light }
                        } else {
                            Gather::Nothing
                        }
                    },
                };
                let next = if !self.survives(ev.roulette) || !ev.direction.is_within(COORD_LIMIT)
                    || ev.direction.is_zero() {
                    PathState::Finished
                } else {
                    let origin = leave_surface(point, &hit.normal, &ev.direction);
                    match Ray::new(origin, ev.direction) {
                        None => PathState::Finished,
                        Some(ray) => match self.intersect(&ray) {
                            None => PathState::Finished,
                            Some(h) => self.arrive(&ray, &h),
                        },
                    }
                };
                let scattered = match next {
                    PathState::Surface { .. } => true,
                    _ => false,
                };
                (next, PathAction { gather, scattered })
            },
            PathState::Finished => (
                PathState::Finished,
                PathAction { gather: Gather::Nothing, scattered: false },
            ),
        }
    }
}

} // verus!

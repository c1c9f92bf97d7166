//! The scene: materials, primitives, lights and the hierarchy over the
//! primitives, with the queries that the integrator makes.

use vstd::prelude::*;
use crate::bvh::{BvhNode, iota, nearest_of_all, union_of, lemma_union_of_encloses};
use crate::intersection::{
    Intersection, hit_wf, is_nearest_among, lemma_nearest_same_entries, lemma_nearest_unique,
};
use crate::material::Material;
use crate::mesh::MeshTriangle;
use crate::ratio::Ratio;
use crate::ray::Ray;
use crate::sampling::{
    MAX_ITEMS, lemma_prefix_bounded, lemma_selection_unique, same_weights, select_weighted,
    selects, sum_weights, total_weight,
};
use crate::sort::all_wf;
use crate::triangle::{Triangle, lemma_area_positive, lemma_bounds_hold_vertices};
use crate::vector::Vector3;

verus! {

/// Largest absolute value of a coordinate of a primitive of a scene: a
/// little under half the lattice's, so that the step from a point next to a
/// surface to any point of the scene is the direction of a ray.
pub const SCENE_LIMIT: i64 = 262143;

/// The survival probability of the Russian roulette of a new scene, 0.8, as
/// a fraction of the range of random numbers.
pub const DEFAULT_RR: u32 = 3435973836;

/// Why an object could not be added to a scene.
#[derive(Clone, Copy, Debug, PartialEq, Eq, Structural)]
pub enum SceneError {
    /// The hierarchy has been built: the scene takes no more objects.
    AlreadyBuilt,
    /// The object's material is not in the scene's table.
    UnknownMaterial,
    /// The scene would hold more primitives than it may.
    TooManyPrimitives,
    /// A primitive reaches beyond `SCENE_LIMIT`.
    OutOfScene,
}

/// A point drawn on a light.
#[derive(Clone, Copy, Debug, PartialEq, Eq, Structural)]
pub struct LightSample {
    /// Which of the scene's lights was selected.
    pub slot: usize,
    /// Index of the primitive that is this light.
    pub prim: usize,
    /// The point drawn on it.
    pub point: Vector3,
    /// The density of the point per unit of area of all lights.
    pub pdf: Ratio,
}

/// A scene: the image it is rendered to, its materials and primitives, and
/// what is derived from them.
pub struct Scene {
    pub width: u32,
    pub height: u32,
    /// The tangent of half the vertical field of view.
    pub fov_scale: Ratio,
    /// The radiance of what lies behind the scene.
    pub background: Vector3,
    /// The survival probability of the Russian roulette, as a fraction of
    /// the range of random numbers.
    pub rr_prob: u32,
    pub materials: Vec<Material>,
    pub prims: Vec<Triangle>,
    /// The indices of the primitives that emit light, in rising order.
    pub lights: Vec<usize>,
    /// The doubled area of each light.
    pub light_areas: Vec<u64>,
    /// The hierarchy over the primitives, once it is built.
    pub bvh: Option<BvhNode>,
}

/// The indices below `n` of the primitives whose material emits light, in
/// rising order.
pub open spec fn emitters(prims: Seq<Triangle>, materials: Seq<Material>, n: int) -> Seq<usize>
    decreases n,
{
    if n <= 0 {
        Seq::empty()
    } else {
        let rest = emitters(prims, materials, n - 1);
        if materials[prims[n - 1].material as int].spec_has_emission() {
            rest.push((n - 1) as usize)
        } else {
            rest
        }
    }
}

/// The doubled areas of the primitives whose indices are in `s`.
pub open spec fn areas_at(prims: Seq<Triangle>, s: Seq<usize>) -> Seq<u64> {
    Seq::new(s.len(), |k: int| prims[s[k] as int].area2)
}

/// The vertices of the triangle lie within the scene's limit.
pub open spec fn in_scene(t: Triangle) -> bool {
    &&& t.v0@.within(SCENE_LIMIT as int)
    &&& t.v1@.within(SCENE_LIMIT as int)
    &&& t.v2@.within(SCENE_LIMIT as int)
}

/// Why `add_obj` refuses the mesh, if it does.
pub open spec fn spec_add_error(scene: Scene, mesh: MeshTriangle) -> Option<SceneError> {
    if scene.bvh.is_some() {
        Some(SceneError::AlreadyBuilt)
    } else if mesh.material >= scene.materials.len() {
        Some(SceneError::UnknownMaterial)
    } else if scene.prims.len() + mesh.triangles.len() > MAX_ITEMS {
        Some(SceneError::TooManyPrimitives)
    } else if mesh.triangles.len() > 0 && !(mesh.bounds.p_min@.within(SCENE_LIMIT as int)
        && mesh.bounds.p_max@.within(SCENE_LIMIT as int)) {
        Some(SceneError::OutOfScene)
    } else {
        None
    }
}

impl Scene {
    /// The primitives are well formed, lie within the scene's limit and
    /// refer to materials of the table; the lights are the primitives whose
    /// material emits; and the hierarchy, if built, is one over all
    /// primitives.
    pub open spec fn wf(self) -> bool {
        &&& self.fov_scale.wf()
        &&& self.prims.len() <= MAX_ITEMS
        &&& all_wf(self.prims@)
        &&& forall|i: int|
            0 <= i < self.prims.len() ==> in_scene(#[trigger] self.prims[i]) && self.prims[i].material
                < self.materials.len()
        &&& self.lights@ == emitters(self.prims@, self.materials@, self.prims.len() as int)
        &&& self.light_areas@ == areas_at(self.prims@, self.lights@)
        &&& match self.bvh {
            Some(root) => root.wf(self.prims@) && root.covers(self.prims@),
            None => true,
        }
    }

    /// The nearest hit of the ray among all primitives of the scene.
    pub open spec fn spec_intersect(self, ray: Ray) -> Option<Intersection> {
        choose|r: Option<Intersection>|
            is_nearest_among(self.prims@, ray, iota(self.prims.len() as nat), r)
    }

    /// The point that `sample_light` draws from the three random numbers.
    pub open spec fn spec_sample_light(self, r0: u32, r1: u32, r2: u32) -> Option<LightSample> {
        if self.lights.len() == 0 {
            None
        } else {
            let slot = choose|k: int| selects(self.light_areas@, r0, k);
            let prim = self.lights[slot];
            let p = self.prims[prim as int].spec_sample_point(r1, r2);
            Some(
                LightSample {
                    slot: slot as usize,
                    prim,
                    point: Vector3 { x: p.x as i64, y: p.y as i64, z: p.z as i64 },
                    pdf: Ratio { num: 2, den: total_weight(self.light_areas@) as i128 },
                },
            )
        }
    }

    /// The primitive emits light.
    pub open spec fn spec_emits(self, prim: int) -> bool {
        self.materials[self.prims[prim].material as int].spec_has_emission()
    }

    /// The box that holds all lights.
    pub open spec fn spec_light_bounds(self) -> crate::bounds3::Bounds3 {
        union_of(self.prims@, self.lights@)
    }

    /// An empty scene for an image of the given size, with a field of view
    /// of 40 degrees, the usual background and a roulette of 0.8.
    pub fn new(width: u32, height: u32) -> (s: Scene)
        ensures
            s.wf(),
            s.width == width,
            s.height == height,
            s.fov_scale == (Ratio { num: 36397, den: 100000 }),
            s.background == (Vector3 { x: 235, y: 675, z: 843 }),
            s.rr_prob == DEFAULT_RR,
            s.materials@.len() == 0,
            s.prims@.len() == 0,
            s.bvh.is_none(),
    {
        let s = Scene {
            width,
            height,
            fov_scale: Ratio { num: 36397, den: 100000 },
            background: Vector3 { x: 235, y: 675, z: 843 },
            rr_prob: DEFAULT_RR,
            materials: Vec::new(),
            prims: Vec::new(),
            lights: Vec::new(),
            light_areas: Vec::new(),
            bvh: None,
        };
        assert(s.lights@ =~= emitters(s.prims@, s.materials@, 0));
        assert(s.light_areas@ =~= areas_at(s.prims@, s.lights@));
        s
    }

    /// Whether the scene is well formed and its hierarchy not built yet.
    /// This is so after `new`, `add_material` and `add_obj`; the test is
    /// for a scene whose fields were written to.
    pub fn is_wf_unbuilt(&self) -> (b: bool)
        ensures
            b == (self.bvh.is_none() && self.wf()),
    {
        if self.bvh.is_some() || !self.fov_scale.is_wf() || self.prims.len() > MAX_ITEMS {
            return false;
        }
        let mut lights: Vec<usize> = Vec::new();
        let mut areas: Vec<u64> = Vec::new();
        let mut i: usize = 0;
        assert(areas@ =~= areas_at(self.prims@, lights@));
        while i < self.prims.len()
            invariant
                i <= self.prims.len() <= MAX_ITEMS,
                forall|j: int|
                    0 <= j < i ==> (#[trigger] self.prims[j]).wf() && in_scene(self.prims[j])
                        && self.prims[j].material < self.materials.len(),
                lights@ == emitters(self.prims@, self.materials@, i as int),
                areas@ == areas_at(self.prims@, lights@),
            decreases self.prims.len() - i,
        {
            let t = &self.prims[i];
            if !(t.is_wf() && t.v0.is_within(SCENE_LIMIT) && t.v1.is_within(SCENE_LIMIT)
                && t.v2.is_within(SCENE_LIMIT) && t.material < self.materials.len()) {
                assert(!(self.prims[i as int].wf() && in_scene(self.prims[i as int])
                    && self.prims[i as int].material < self.materials.len()));
                return false;
            }
            if self.materials[t.material].has_emission() {
                lights.push(i);
                areas.push(t.get_area());
            }
            i += 1;
            assert(areas@ =~= areas_at(self.prims@, lights@));
        }
        same_indices(&lights, &self.lights) && same_weights(&areas, &self.light_areas)
    }

    /// Whether the hierarchy has been built.
    pub fn is_built(&self) -> (b: bool)
        ensures
            b == self.bvh.is_some(),
    {
        self.bvh.is_some()
    }

    /// Adds a material to the table and returns its index. No primitive
    /// refers to it yet, so no light comes or goes.
    pub fn add_material(&mut self, m: Material) -> (index: usize)
        requires
            old(self).wf(),
        ensures
            final(self).wf(),
            index == old(self).materials.len(),
            final(self).materials@ == old(self).materials@.push(m),
            final(self).prims == old(self).prims,
            final(self).lights == old(self).lights,
            final(self).light_areas == old(self).light_areas,
            final(self).bvh == old(self).bvh,
            final(self).width == old(self).width,
            final(self).height == old(self).height,
            final(self).fov_scale == old(self).fov_scale,
            final(self).background == old(self).background,
            final(self).rr_prob == old(self).rr_prob,
    {
        let index = self.materials.len();
        self.materials.push(m);
        proof {
            lemma_emitters_table(
                self.prims@,
                old(self).materials@,
                self.materials@,
                self.prims.len() as int,
            );
        }
        index
    }

    /// Adds the triangles of a mesh to the scene's primitives, in their
    /// order. A scene whose hierarchy is built takes no more objects.
    pub fn add_obj(&mut self, mesh: &MeshTriangle) -> (r: Result<(), SceneError>)
        requires
            old(self).wf(),
            mesh.wf(),
        ensures
            match r {
                Ok(_) => {
                    &&& spec_add_error(*old(self), *mesh).is_none()
                    &&& final(self).wf()
                    &&& final(self).prims@ == old(self).prims@ + mesh.triangles@
                    &&& final(self).materials == old(self).materials
                    &&& final(self).bvh.is_none()
                    &&& final(self).width == old(self).width
                    &&& final(self).height == old(self).height
                    &&& final(self).fov_scale == old(self).fov_scale
                    &&& final(self).background == old(self).background
                    &&& final(self).rr_prob == old(self).rr_prob
                },
                Err(e) => spec_add_error(*old(self), *mesh) == Some(e) && *final(self) == *old(self),
            },
    {
        if self.bvh.is_some() {
            return Err(SceneError::AlreadyBuilt);
        }
        if mesh.material >= self.materials.len() {
            return Err(SceneError::UnknownMaterial);
        }
        if mesh.triangles.len() > MAX_ITEMS - self.prims.len() {
            return Err(SceneError::TooManyPrimitives);
        }
        if mesh.triangles.len() > 0 && !(mesh.bounds.p_min.is_within(SCENE_LIMIT)
            && mesh.bounds.p_max.is_within(SCENE_LIMIT)) {
            return Err(SceneError::OutOfScene);
        }
        let emits = self.materials[mesh.material].has_emission();
        proof {
            let s = iota(mesh.triangles.len() as nat);
            lemma_union_of_encloses(mesh.triangles@, s);
            assert forall|i: int| 0 <= i < mesh.triangles.len() implies in_scene(
                #[trigger] mesh.triangles[i],
            ) by {
                assert(s[i] == i);
                assert(mesh.bounds.encloses(mesh.triangles@[s[i] as int].spec_bounds()));
                lemma_bounds_hold_vertices(mesh.triangles[i]);
            }
        }
        let mut k: usize = 0;
        while k < mesh.triangles.len()
            invariant
                k <= mesh.triangles.len(),
                mesh.wf(),
                old(self).wf(),
                self.prims@ == old(self).prims@ + mesh.triangles@.subrange(0, k as int),
                old(self).prims.len() + mesh.triangles.len() <= MAX_ITEMS,
                self.materials == old(self).materials,
                mesh.material < self.materials.len(),
                emits == self.materials[mesh.material as int].spec_has_emission(),
                forall|i: int|
                    0 <= i < mesh.triangles.len() ==> in_scene(#[trigger] mesh.triangles[i]),
                self.bvh.is_none(),
                self.width == old(self).width,
                self.height == old(self).height,
                self.fov_scale == old(self).fov_scale,
                self.background == old(self).background,
                self.rr_prob == old(self).rr_prob,
                self.wf(),
            decreases mesh.triangles.len() - k,
        {
            let t = mesh.triangles[k];
            let ghost before = *self;
            let index = self.prims.len();
            self.prims.push(t);
            if emits {
                self.lights.push(index);
                self.light_areas.push(t.get_area());
            }
            k += 1;
            proof {
                let n = before.prims.len() as int;
                assert(self.prims@ =~= old(self).prims@ + mesh.triangles@.subrange(0, k as int));
                lemma_emitters_prefix(before.prims@, self.prims@, self.materials@, n);
                lemma_emitters_below(before.prims@, self.materials@, n);
                assert(t.material == mesh.material);
                assert(self.light_areas@ =~= areas_at(self.prims@, self.lights@));
                assert forall|i: int| 0 <= i < self.prims.len() implies in_scene(
                    #[trigger] self.prims[i],
                ) && self.prims[i].material < self.materials.len() && self.prims[i].wf() by {
                    if i < n {
                        assert(self.prims[i] == before.prims[i]);
                    }
                }
            }
        }
        assert(mesh.triangles@.subrange(0, k as int) =~= mesh.triangles@);
        Ok(())
    }

    /// Builds the hierarchy over the primitives. From then on the scene
    /// takes no more objects.
    pub fn build_bvh(&mut self)
        requires
            old(self).wf(),
        ensures
            final(self).wf(),
            final(self).bvh.is_some(),
            final(self).prims == old(self).prims,
            final(self).materials == old(self).materials,
            final(self).lights == old(self).lights,
            final(self).light_areas == old(self).light_areas,
            final(self).width == old(self).width,
            final(self).height == old(self).height,
            final(self).fov_scale == old(self).fov_scale,
            final(self).background == old(self).background,
            final(self).rr_prob == old(self).rr_prob,
    {
        let root = BvhNode::build(&self.prims);
        self.bvh = Some(root);
    }

    /// The nearest hit of the ray among all primitives of the scene: found
    /// through the hierarchy where it is built, else by testing every
    /// primitive. Both find the same.
    pub fn intersect(&self, ray: &Ray) -> (r: Option<Intersection>)
        requires
            self.wf(),
            ray.wf(),
        ensures
            is_nearest_among(self.prims@, *ray, iota(self.prims.len() as nat), r),
            r == self.spec_intersect(*ray),
            hit_wf(r),
    {
        let r = match &self.bvh {
            Some(root) => {
                let r = root.intersect(&self.prims, ray);
                proof {
                    lemma_nearest_same_entries(
                        self.prims@,
                        *ray,
                        root.indices(),
                        iota(self.prims.len() as nat),
                        r,
                    );
                }
                r
            },
            None => nearest_of_all(&self.prims, ray),
        };
        proof {
            lemma_nearest_unique(
                self.prims@,
                *ray,
                iota(self.prims.len() as nat),
                r,
                self.spec_intersect(*ray),
            );
        }
        r
    }

    /// Whether the primitive emits light.
    pub fn emits(&self, prim: usize) -> (b: bool)
        requires
            self.wf(),
            prim < self.prims.len(),
        ensures
            b == self.spec_emits(prim as int),
    {
        self.materials[self.prims[prim].material].has_emission()
    }

    /// Draws a point on the lights from three random numbers: `r0` selects
    /// a light with a probability in proportion to its area, `r1` and `r2`
    /// a point on it. The density is `1 / area` of all lights together. A
    /// scene without lights has no such point.
    pub fn sample_light(&self, r0: u32, r1: u32, r2: u32) -> (s: Option<LightSample>)
        requires
            self.wf(),
        ensures
            s == self.spec_sample_light(r0, r1, r2),
            s.is_some() == (self.lights.len() > 0),
            s.is_some() ==> {
                let l = s.unwrap();
                &&& selects(self.light_areas@, r0, l.slot as int)
                &&& l.prim == self.lights[l.slot as int]
                &&& l.prim < self.prims.len()
                &&& self.spec_emits(l.prim as int)
                &&& l.point@ == self.prims[l.prim as int].spec_sample_point(r1, r2)
                &&& l.pdf == (Ratio { num: 2, den: total_weight(self.light_areas@) as i128 })
                &&& l.pdf.wf()
                &&& l.point@.within(SCENE_LIMIT as int)
                &&& self.spec_light_bounds().contains(l.point@)
            },
    {
        proof {
            lemma_emitters_below(self.prims@, self.materials@, self.prims.len() as int);
            assert forall|i: int| 0 <= i < self.light_areas.len() implies 1
                <= #[trigger] self.light_areas@[i] <= 4398046511104 by {
                lemma_area_positive(self.prims[self.lights[i] as int]);
            }
            lemma_prefix_bounded(
                self.light_areas@,
                self.light_areas.len() as int,
                1,
                4398046511104,
            );
            assert(self.lights.len() * 4398046511104 <= 1048576 * 4398046511104) by (nonlinear_arith)
                requires
                    self.lights.len() <= 1048576,
            ;
        }
        let total = sum_weights(&self.light_areas);
        match select_weighted(&self.light_areas, r0) {
            None => None,
            Some(slot) => {
                let prim = self.lights[slot];
                let inner = self.prims[prim].sample(r1, r2);
                proof {
                    let tri = self.prims[prim as int];
                    lemma_union_of_encloses(self.prims@, self.lights@);
                    lemma_bounds_hold_vertices(tri);
                    assert(self.spec_light_bounds().encloses(
                        self.prims@[self.lights@[slot as int] as int].spec_bounds(),
                    ));
                    assert(in_scene(tri));
                    let chosen = choose|k: int| selects(self.light_areas@, r0, k);
                    lemma_selection_unique(self.light_areas@, r0, slot as int, chosen);
                }
                Some(
                    LightSample {
                        slot,
                        prim,
                        point: inner.point,
                        pdf: Ratio { num: 2, den: total as i128 },
                    },
                )
            },
        }
    }
}

/// Whether two lists of indices hold the same entries in the same order.
fn same_indices(a: &Vec<usize>, b: &Vec<usize>) -> (r: bool)
    ensures
        r == (a@ == b@),
{
    if a.len() != b.len() {
        return false;
    }
    let mut k: usize = 0;
    while k < a.len()
        invariant
            k <= a.len(),
            a.len() == b.len(),
            forall|j: int| 0 <= j < k ==> a[j] == b[j],
        decreases a.len() - k,
    {
        if a[k] != b[k] {
            return false;
        }
        k += 1;
    }
    assert(a@ =~= b@);
    true
}

/// The lights among the first `n` primitives do not depend on the
/// primitives that follow them.
pub proof fn lemma_emitters_prefix(
    short: Seq<Triangle>,
    long: Seq<Triangle>,
    materials: Seq<Material>,
    n: int,
)
    requires
        n <= short.len() <= long.len(),
        forall|i: int| 0 <= i < short.len() ==> short[i] == long[i],
    ensures
        emitters(short, materials, n) == emitters(long, materials, n),
    decreases n,
{
    if n > 0 {
        lemma_emitters_prefix(short, long, materials, n - 1);
    }
}

/// The lights do not depend on the materials that no primitive refers to.
pub proof fn lemma_emitters_table(
    prims: Seq<Triangle>,
    short: Seq<Material>,
    long: Seq<Material>,
    n: int,
)
    requires
        n <= prims.len(),
        short.len() <= long.len(),
        forall|i: int| 0 <= i < short.len() ==> short[i] == long[i],
        forall|i: int| 0 <= i < prims.len() ==> (#[trigger] prims[i]).material < short.len(),
    ensures
        emitters(prims, short, n) == emitters(prims, long, n),
    decreases n,
{
    if n > 0 {
        lemma_emitters_table(prims, short, long, n - 1);
    }
}

/// The lights among the first `n` primitives are at most `n`, each is an
/// index below `n`, and each emits.
pub proof fn lemma_emitters_below(prims: Seq<Triangle>, materials: Seq<Material>, n: int)
    requires
        0 <= n <= usize::MAX,
    ensures
        emitters(prims, materials, n).len() <= n,
        forall|k: int|
            0 <= k < emitters(prims, materials, n).len() ==> 0 <= (#[trigger] emitters(
                prims,
                materials,
                n,
            )[k]) < n,
        forall|k: int|
            0 <= k < emitters(prims, materials, n).len() ==> materials[prims[(#[trigger] emitters(
                prims,
                materials,
                n,
            )[k]) as int].material as int].spec_has_emission(),
    decreases n,
{
    if n > 0 {
        lemma_emitters_below(prims, materials, n - 1);
        let rest = emitters(prims, materials, n - 1);
        let all = emitters(prims, materials, n);
        assert forall|k: int| 0 <= k < all.len() implies 0 <= (#[trigger] all[k]) < n
            && materials[prims[all[k] as int].material as int].spec_has_emission() by {
            if k < rest.len() {
                assert(all[k] == rest[k]);
            }
        }
    }
}

} // verus!

//! Meshes: triangle soup that a loader has read, turned into primitives.

use vstd::prelude::*;
use crate::bounds3::Bounds3;
use crate::bvh::{iota, nearest_of_all, union_of};
use crate::intersection::{Intersection, hit_wf, is_nearest_among};
use crate::ratio::Ratio;
use crate::ray::Ray;
use crate::sampling::{
    MAX_ITEMS, lemma_prefix_bounded, same_weights, select_weighted, selects, sum_weights,
    total_weight,
};
use crate::sort::{all_wf, indices_valid};
use crate::triangle::{
    SurfaceSample, Triangle, collinear, lemma_area_positive, spec_triangle,
};
use crate::vector::{Vector3, COORD_LIMIT};

verus! {

/// Models are enlarged by this factor when they are loaded: a vertex of a
/// triangle is the position in the file times `MODEL_SCALE`.
pub const MODEL_SCALE: i64 = 60;

/// Why mesh data could not be turned into primitives.
#[derive(Clone, Copy, Debug, PartialEq, Eq, Structural)]
pub enum LoadError {
    /// The loader could not read the file.
    NotLoaded,
    /// The number of vertices is not a multiple of three.
    IncompleteFace,
    /// A vertex, enlarged, lies outside the lattice.
    OutOfLattice,
    /// There are more faces than a mesh may hold.
    TooManyFaces,
}

/// The position, enlarged, lies within the lattice.
pub open spec fn fits_lattice(p: Vector3) -> bool {
    p@.scale(MODEL_SCALE as int).within(COORD_LIMIT as int)
}

/// The vertex that a position of the file becomes: the position times
/// `MODEL_SCALE`.
pub open spec fn spec_scaled(p: Vector3) -> Vector3 {
    Vector3 {
        x: (MODEL_SCALE * p.x) as i64,
        y: (MODEL_SCALE * p.y) as i64,
        z: (MODEL_SCALE * p.z) as i64,
    }
}

/// Every position, enlarged, lies within the lattice.
pub open spec fn all_in_lattice(positions: Seq<Vector3>) -> bool {
    forall|i: int| 0 <= i < positions.len() ==> fits_lattice(#[trigger] positions[i])
}

/// The triangles of the first `n` faces of a vertex buffer, three vertices
/// to a face, each vertex enlarged by `MODEL_SCALE`, without the faces whose
/// vertices lie on one line.
pub open spec fn triangles_of(positions: Seq<Vector3>, material: usize, n: int) -> Seq<Triangle>
    decreases n,
{
    if n <= 0 {
        Seq::empty()
    } else {
        let rest = triangles_of(positions, material, n - 1);
        let a = spec_scaled(positions[3 * n - 3]);
        let b = spec_scaled(positions[3 * n - 2]);
        let c = spec_scaled(positions[3 * n - 1]);
        if collinear(a, b, c) {
            rest
        } else {
            rest.push(spec_triangle(a, b, c, material))
        }
    }
}

/// The error that `load_triangles` returns for the given data, if any. A
/// file that was not read is refused before its data is looked at.
pub open spec fn spec_load(loaded: bool, positions: Seq<Vector3>) -> Option<LoadError> {
    if !loaded {
        Some(LoadError::NotLoaded)
    } else if positions.len() % 3 != 0 {
        Some(LoadError::IncompleteFace)
    } else if positions.len() / 3 > MAX_ITEMS {
        Some(LoadError::TooManyFaces)
    } else if !all_in_lattice(positions) {
        Some(LoadError::OutOfLattice)
    } else {
        None
    }
}

/// The doubled areas of the triangles.
pub open spec fn areas_of(tris: Seq<Triangle>) -> Seq<u64> {
    Seq::new(tris.len(), |i: int| tris[i].area2)
}

/// Turns the vertex buffer of a loaded file into triangles of the given
/// material, every vertex enlarged by `MODEL_SCALE`, and returns them with
/// the box that holds them. A face whose vertices lie on one line has no
/// area and is left out.
///
/// `loaded` is what the loader said of reading the file, `n_meshes` the
/// number of mesh groups that it found. A file that was read holds exactly
/// one mesh group: the caller ends the construction of the scene on any
/// other number.
pub fn load_triangles(
    loaded: bool,
    n_meshes: usize,
    positions: &Vec<Vector3>,
    material: usize,
) -> (r: Result<(Bounds3, Vec<Triangle>), LoadError>)
    requires
        loaded ==> n_meshes == 1,
    ensures
        match r {
            Ok((bounds, tris)) => {
                &&& spec_load(loaded, positions@).is_none()
                &&& tris@ == triangles_of(positions@, material, positions.len() as int / 3)
                &&& all_wf(tris@)
                &&& bounds == union_of(tris@, iota(tris.len() as nat))
            },
            Err(e) => spec_load(loaded, positions@) == Some(e),
        },
{
    if !loaded {
        return Err(LoadError::NotLoaded);
    }
    if positions.len() % 3 != 0 {
        return Err(LoadError::IncompleteFace);
    }
    let faces = positions.len() / 3;
    if faces > MAX_ITEMS {
        return Err(LoadError::TooManyFaces);
    }
    let mut k: usize = 0;
    while k < positions.len()
        invariant
            k <= positions.len(),
            loaded,
            positions.len() % 3 == 0,
            positions.len() / 3 <= MAX_ITEMS,
            forall|i: int| 0 <= i < k ==> fits_lattice(#[trigger] positions@[i]),
        decreases positions.len() - k,
    {
        if !positions[k].is_within(COORD_LIMIT / MODEL_SCALE) {
            assert(!fits_lattice(positions@[k as int]));
            return Err(LoadError::OutOfLattice);
        }
        assert(fits_lattice(positions@[k as int]));
        k += 1;
    }
    let mut tris: Vec<Triangle> = Vec::new();
    let mut bounds = Bounds3::empty();
    let mut f: usize = 0;
    while f < faces
        invariant
            f <= faces,
            faces * 3 == positions.len(),
            all_in_lattice(positions@),
            tris@ == triangles_of(positions@, material, f as int),
            all_wf(tris@),
            bounds == union_of(tris@, iota(tris.len() as nat)),
        decreases faces - f,
    {
        let a = scaled(&positions[3 * f]);
        let b = scaled(&positions[3 * f + 1]);
        let c = scaled(&positions[3 * f + 2]);
        match Triangle::new(a, b, c, material) {
            Some(t) => {
                let ghost before = tris@;
                let tb = t.get_bounds();
                bounds = bounds.union(&tb);
                tris.push(t);
                proof {
                    let s = iota(tris.len() as nat);
                    assert(s.drop_last() =~= iota(before.len()));
                    lemma_union_of_prefix(before, tris@, iota(before.len()));
                }
            },
            None => {},
        }
        f += 1;
    }
    Ok((bounds, tris))
}

/// The vertex that a position of the file becomes.
fn scaled(p: &Vector3) -> (v: Vector3)
    requires
        fits_lattice(*p),
    ensures
        v == spec_scaled(*p),
        v@.within(COORD_LIMIT as int),
{
    Vector3 { x: MODEL_SCALE * p.x, y: MODEL_SCALE * p.y, z: MODEL_SCALE * p.z }
}

/// The union of the boxes of some primitives of a list is the same in a
/// longer list that starts with that list.
pub proof fn lemma_union_of_prefix(short: Seq<Triangle>, long: Seq<Triangle>, s: Seq<usize>)
    requires
        short.len() <= long.len(),
        forall|i: int| 0 <= i < short.len() ==> short[i] == long[i],
        indices_valid(s, short.len() as int),
    ensures
        union_of(short, s) == union_of(long, s),
    decreases s.len(),
{
    if s.len() > 0 {
        assert(s[s.len() - 1] < short.len());
        assert forall|k: int| 0 <= k < s.drop_last().len() implies (#[trigger] s.drop_last()[k])
            < short.len() by {
            assert(s.drop_last()[k] == s[k]);
        }
        lemma_union_of_prefix(short, long, s.drop_last());
    }
}

/// An object of the scene: the triangles of one mesh, all of one material,
/// with the box that holds them and their areas.
pub struct MeshTriangle {
    pub triangles: Vec<Triangle>,
    pub bounds: Bounds3,
    /// The doubled area of each triangle.
    pub areas: Vec<u64>,
    /// The doubled area of the mesh.
    pub area2: u128,
    pub material: usize,
}

impl MeshTriangle {
    /// The derived fields are what their comments say.
    pub open spec fn wf(self) -> bool {
        &&& self.triangles.len() <= MAX_ITEMS
        &&& all_wf(self.triangles@)
        &&& forall|i: int|
            0 <= i < self.triangles.len() ==> (#[trigger] self.triangles[i]).material
                == self.material
        &&& self.bounds == union_of(self.triangles@, iota(self.triangles.len() as nat))
        &&& self.areas@ == areas_of(self.triangles@)
        &&& self.area2 == total_weight(self.areas@)
    }

    /// The mesh of the faces of a loaded vertex buffer: see
    /// `load_triangles`.
    pub fn new(loaded: bool, n_meshes: usize, positions: &Vec<Vector3>, material: usize) -> (r:
        Result<MeshTriangle, LoadError>)
        requires
            loaded ==> n_meshes == 1,
        ensures
            match r {
                Ok(mesh) => {
                    &&& spec_load(loaded, positions@).is_none()
                    &&& mesh.triangles@ == triangles_of(
                        positions@,
                        material,
                        positions.len() as int / 3,
                    )
                    &&& mesh.material == material
                    &&& mesh.wf()
                },
                Err(e) => spec_load(loaded, positions@) == Some(e),
            },
    {
        match load_triangles(loaded, n_meshes, positions, material) {
            Err(e) => Err(e),
            Ok((bounds, triangles)) => {
                proof {
                    lemma_count_faces(positions@, material, positions.len() as int / 3);
                }
                let mut areas: Vec<u64> = Vec::new();
                let mut i: usize = 0;
                while i < triangles.len()
                    invariant
                        i <= triangles.len(),
                        areas@ == areas_of(triangles@.subrange(0, i as int)),
                    decreases triangles.len() - i,
                {
                    areas.push(triangles[i].get_area());
                    i += 1;
                    assert(areas@ =~= areas_of(triangles@.subrange(0, i as int)));
                }
                assert(triangles@.subrange(0, i as int) =~= triangles@);
                assert(areas.len() == triangles.len());
                let area2 = sum_weights(&areas);
                Ok(MeshTriangle { triangles, bounds, areas, area2, material })
            },
        }
    }

    /// Whether the mesh is well formed. It is so as `new` returns it; the
    /// test is for a mesh whose fields were written to.
    pub fn is_wf(&self) -> (b: bool)
        ensures
            b == self.wf(),
    {
        if self.triangles.len() > MAX_ITEMS {
            return false;
        }
        let mut areas: Vec<u64> = Vec::new();
        let mut bounds = Bounds3::empty();
        let mut i: usize = 0;
        assert(areas@ =~= areas_of(self.triangles@.subrange(0, 0)));
        while i < self.triangles.len()
            invariant
                i <= self.triangles.len(),
                forall|j: int|
                    0 <= j < i ==> (#[trigger] self.triangles[j]).wf() && self.triangles[j].material
                        == self.material,
                areas@ == areas_of(self.triangles@.subrange(0, i as int)),
                bounds == union_of(self.triangles@, iota(i as nat)),
            decreases self.triangles.len() - i,
        {
            let t = &self.triangles[i];
            if !(t.is_wf() && t.material == self.material) {
                assert(!(self.triangles[i as int].wf() && self.triangles[i as int].material
                    == self.material));
                return false;
            }
            areas.push(t.get_area());
            bounds = bounds.union(&t.get_bounds());
            i += 1;
            proof {
                assert(areas@ =~= areas_of(self.triangles@.subrange(0, i as int)));
                let s = iota(i as nat);
                assert(s.drop_last() =~= iota((i - 1) as nat));
            }
        }
        assert(self.triangles@.subrange(0, i as int) =~= self.triangles@);
        bounds == self.bounds && same_weights(&areas, &self.areas) && self.area2 == sum_weights(
            &self.areas,
        )
    }

    pub fn get_bounds(&self) -> (b: Bounds3)
        ensures
            b == self.bounds,
    {
        self.bounds
    }

    /// The doubled area of the mesh: the sum of those of its triangles.
    pub fn get_area(&self) -> (a: u128)
        ensures
            a == self.area2,
    {
        self.area2
    }

    /// The nearest hit of the ray among the triangles of the mesh.
    pub fn intersect(&self, ray: &Ray) -> (r: Option<Intersection>)
        requires
            self.wf(),
            ray.wf(),
        ensures
            is_nearest_among(self.triangles@, *ray, iota(self.triangles.len() as nat), r),
            hit_wf(r),
    {
        nearest_of_all(&self.triangles, ray)
    }

    /// Draws a point on the mesh from three random numbers: `r0` selects a
    /// triangle with a probability in proportion to its area, `r1` and `r2`
    /// a point on it. The density is `1 / area` of the whole mesh. A mesh
    /// without triangles has no point.
    pub fn sample(&self, r0: u32, r1: u32, r2: u32) -> (s: Option<(usize, SurfaceSample)>)
        requires
            self.wf(),
        ensures
            s.is_some() == (self.triangles.len() > 0),
            s.is_some() ==> {
                let (k, point) = s.unwrap();
                &&& selects(self.areas@, r0, k as int)
                &&& point.point@ == self.triangles[k as int].spec_sample_point(r1, r2)
                &&& self.triangles[k as int].spec_bounds().contains(point.point@)
                &&& point.pdf == (Ratio { num: 2, den: self.area2 as i128 })
                &&& point.pdf.wf()
            },
    {
        proof {
            lemma_total_area(self.triangles@);
        }
        match select_weighted(&self.areas, r0) {
            None => None,
            Some(k) => {
                let inner = self.triangles[k].sample(r1, r2);
                Some((k, SurfaceSample { point: inner.point, pdf: Ratio { num: 2, den: self.area2 as i128 } }))
            },
        }
    }
}

/// At most `n` triangles come of `n` faces, all of them of the given
/// material.
pub proof fn lemma_count_faces(positions: Seq<Vector3>, material: usize, n: int)
    ensures
        triangles_of(positions, material, n).len() <= if n <= 0 {
            0
        } else {
            n
        },
        forall|i: int|
            0 <= i < triangles_of(positions, material, n).len() ==> (#[trigger] triangles_of(
                positions,
                material,
                n,
            )[i]).material == material,
    decreases n,
{
    if n > 0 {
        lemma_count_faces(positions, material, n - 1);
    }
}

/// The doubled area of some well-formed triangles is at least their number
/// and at most their number times the largest doubled area of a triangle.
pub proof fn lemma_total_area(tris: Seq<Triangle>)
    requires
        all_wf(tris),
    ensures
        tris.len() <= total_weight(areas_of(tris)) <= tris.len() * 4398046511104,
{
    assert forall|i: int| 0 <= i < tris.len() implies 1 <= #[trigger] areas_of(tris)[i]
        <= 4398046511104 by {
        lemma_area_positive(tris[i]);
    }
    lemma_prefix_bounded(areas_of(tris), tris.len() as int, 1, 4398046511104);
}

} // verus!

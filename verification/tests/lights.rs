use pathtracer::bounds3::Bounds3;
use pathtracer::bvh::union_all;
use pathtracer::material::{reflect, Material, MaterialType, COLOR_SCALE};
use pathtracer::mesh::{load_triangles, LoadError, MeshTriangle, MODEL_SCALE};
use pathtracer::ratio::Ratio;
use pathtracer::ray::Ray;
use pathtracer::sampling::{select_weighted, sum_weights, MAX_ITEMS, RANDOM_ONE};
use pathtracer::scene::{Scene, SceneError, DEFAULT_RR};
use pathtracer::triangle::Triangle;
use pathtracer::vector::{shorten, Vector3};

fn v(x: i64, y: i64, z: i64) -> Vector3 {
    Vector3::new(x, y, z)
}

fn next(state: &mut u64) -> u32 {
    *state = state.wrapping_mul(6364136223846793005).wrapping_add(1442695040888963407);
    (*state >> 32) as u32
}

fn diffuse(kd: i64) -> Material {
    let mut m = Material::new(MaterialType::Diffuse, Vector3::zeros(), Vector3::zeros());
    m.kd = Vector3::same(kd);
    m
}

fn lamp(power: i64) -> Material {
    Material::new(MaterialType::Diffuse, Vector3::zeros(), Vector3::same(power))
}

/// The six positions of a square in a model, two faces.
fn square(x0: i64, y0: i64, x1: i64, y1: i64, z: i64) -> Vec<Vector3> {
    vec![v(x0, y0, z), v(x1, y0, z), v(x1, y1, z), v(x0, y0, z), v(x1, y1, z), v(x0, y1, z)]
}

fn mesh(positions: &Vec<Vector3>, material: usize) -> MeshTriangle {
    MeshTriangle::new(true, 1, positions, material).unwrap()
}

#[test]
fn materials_emit_and_reflect() {
    let white = diffuse(725);
    assert!(!white.has_emission());
    assert_eq!(white.get_type(), MaterialType::Diffuse);
    assert_eq!(white.kd, v(725, 725, 725));
    assert_eq!(COLOR_SCALE, 1000);
    let up = v(0, 0, 1);
    assert_eq!(white.eval(&v(1, 1, 1), &up), v(725, 725, 725));
    assert_eq!(white.eval(&v(1, 1, -1), &up), v(0, 0, 0));
    assert_eq!(white.eval(&v(1, 1, 0), &up), v(0, 0, 0));
    let light = lamp(47000);
    assert!(light.has_emission());
    assert_eq!(light.get_emission(), v(47000, 47000, 47000));
    assert_eq!(light.kd, v(0, 0, 0));
    let dim = Material::new(MaterialType::Diffuse, Vector3::zeros(), v(0, 0, 1));
    assert!(dim.has_emission());
    let mut mirror = Material::new(MaterialType::ReflectAndRefract, Vector3::zeros(), Vector3::zeros());
    mirror.kd = Vector3::same(900);
    assert_eq!(mirror.eval(&v(0, 0, 1), &up), v(0, 0, 0));
}

#[test]
fn mirrors_turn_the_part_along_the_normal() {
    assert_eq!(reflect(&v(1, 0, -1), &v(0, 0, 1)), v(1, 0, 1));
    assert_eq!(reflect(&v(1, 0, -1), &v(0, 0, -1)), v(1, 0, 1));
    assert_eq!(reflect(&v(1, 0, -1), &v(0, 0, 12)), v(144, 0, 144));
    assert_eq!(reflect(&v(3, 4, 0), &v(0, 0, 7)), v(147, 196, 0));
    assert_eq!(reflect(&v(0, 0, -5), &v(0, 0, 2)), v(0, 0, 20));
    assert_eq!(reflect(&v(1, 0, 0), &v(1, 1, 0)), v(0, -2, 0));
    assert_eq!(reflect(&v(1, 0, -1), &v(0, 0, 1 << 20)), v(524287, 0, 524287));
}

#[test]
fn long_vectors_are_shortened_to_the_lattice() {
    assert_eq!(shorten(-7, 3, 0), v(-7, 3, 0));
    assert_eq!(shorten(524287, 0, 0), v(524287, 0, 0));
    assert_eq!(shorten(524288, -524288, 1), v(262144, -262144, 0));
    assert_eq!(shorten(1048576, -1048576, 1), v(349525, -349526, 0));
    assert_eq!(shorten(0, 0, 0), v(0, 0, 0));
}

#[test]
fn weighted_selection_follows_prefix_sums() {
    let w: Vec<u64> = vec![1, 3];
    assert_eq!(sum_weights(&w), 4);
    assert_eq!(sum_weights(&vec![u64::MAX, u64::MAX, 2]), 2 * (u64::MAX as u128) + 2);
    assert_eq!(RANDOM_ONE, 1u64 << 32);
    assert_eq!(select_weighted(&w, 0), Some(0));
    assert_eq!(select_weighted(&w, (1 << 30) - 1), Some(0));
    assert_eq!(select_weighted(&w, 1 << 30), Some(1));
    assert_eq!(select_weighted(&w, u32::MAX), Some(1));
    assert_eq!(select_weighted(&vec![0, 0, 5, 0], 12345), Some(2));
    assert_eq!(select_weighted(&vec![0, 0], 7), None);
    assert_eq!(select_weighted(&Vec::new(), 7), None);
    assert_eq!(select_weighted(&vec![2, 0, 2], 1 << 31), Some(2));
    assert_eq!(select_weighted(&vec![2, 0, 2], (1 << 31) - 1), Some(0));
}

#[test]
fn loading_enlarges_a_model_sixty_times() {
    assert_eq!(MODEL_SCALE, 60);
    let positions = vec![v(0, 0, 0), v(1, 0, 0), v(0, 1, 0)];
    let (bounds, tris) = load_triangles(true, 1, &positions, 0).unwrap();
    assert_eq!(bounds.p_min, v(0, 0, 0));
    assert_eq!(bounds.p_max, v(60, 60, 0));
    assert_eq!(tris.len(), 1);
    assert_eq!((tris[0].v0, tris[0].v1, tris[0].v2), (v(0, 0, 0), v(60, 0, 0), v(0, 60, 0)));
    assert_eq!(tris[0].get_area(), 3600);
    let through = Ray::new(v(30, 20, 5), v(0, 0, -1)).unwrap();
    assert!(tris[0].intersect(&through).is_some());
    let small_only = Ray::new(v(0, 0, 5), v(1, 1, -10)).unwrap();
    assert!(tris[0].intersect(&small_only).is_some());
    let beside = Ray::new(v(40, 40, 5), v(0, 0, -1)).unwrap();
    assert!(tris[0].intersect(&beside).is_none());
}

#[test]
fn loading_rejects_bad_mesh_data() {
    let good = square(0, 0, 10, 10, 0);
    assert_eq!(load_triangles(false, 0, &good, 0).unwrap_err(), LoadError::NotLoaded);
    assert_eq!(load_triangles(false, 1, &good, 0).unwrap_err(), LoadError::NotLoaded);
    assert_eq!(load_triangles(false, 3, &Vec::new(), 0).unwrap_err(), LoadError::NotLoaded);
    let mut short = good.clone();
    short.pop();
    assert_eq!(load_triangles(true, 1, &short, 0).unwrap_err(), LoadError::IncompleteFace);
    assert_eq!(load_triangles(false, 1, &short, 0).unwrap_err(), LoadError::NotLoaded);
    let mut far = good.clone();
    far[4] = v(0, 8739, 0);
    assert_eq!(load_triangles(true, 1, &far, 0).unwrap_err(), LoadError::OutOfLattice);
    far[4] = v(0, -8738, 0);
    assert!(load_triangles(true, 1, &far, 0).is_ok());
    assert_eq!(MeshTriangle::new(false, 1, &good, 0).err(), Some(LoadError::NotLoaded));
}

#[test]
fn loading_keeps_faces_in_order_and_skips_faces_without_area() {
    let mut positions = square(0, 0, 10, 10, 0);
    positions.extend(vec![v(50, 50, 50), v(60, 60, 60), v(70, 70, 70)]);
    positions.extend(vec![v(0, 0, 5), v(-4, 0, 5), v(0, 8, 5)]);
    let (bounds, tris) = load_triangles(true, 1, &positions, 3).unwrap();
    assert_eq!(tris.len(), 3);
    assert_eq!((tris[0].v0, tris[0].v1, tris[0].v2), (v(0, 0, 0), v(600, 0, 0), v(600, 600, 0)));
    assert_eq!((tris[1].v0, tris[1].v1, tris[1].v2), (v(0, 0, 0), v(600, 600, 0), v(0, 600, 0)));
    assert_eq!((tris[2].v0, tris[2].v1, tris[2].v2), (v(0, 0, 300), v(-240, 0, 300), v(0, 480, 300)));
    assert!(tris.iter().all(|t| t.material == 3));
    assert_eq!(bounds, Bounds3::new(v(-240, 0, 0), v(600, 600, 300)));
    let (bounds, tris) = load_triangles(true, 1, &Vec::new(), 0).unwrap();
    assert!(tris.is_empty());
    assert!(bounds.is_empty_box());
}

#[test]
fn mesh_sums_areas_and_forwards_queries() {
    let mut positions = square(0, 0, 10, 10, 0);
    positions.extend(vec![v(0, 0, 5), v(4, 0, 5), v(0, 8, 5)]);
    let mesh = mesh(&positions, 2);
    assert_eq!(mesh.triangles.len(), 3);
    assert_eq!(mesh.areas, vec![360000, 360000, 115200]);
    assert_eq!(mesh.get_area(), 835200);
    assert_eq!(mesh.get_bounds(), Bounds3::new(v(0, 0, 0), v(600, 600, 300)));
    let ray = Ray::new(v(60, 120, 540), v(0, 0, -1)).unwrap();
    let hit = mesh.intersect(&ray).unwrap();
    assert_eq!(hit.prim, 2);
    assert_eq!(hit.material, 2);
    assert!(hit.hit.t.same(&Ratio { num: 240, den: 1 }));
    assert_eq!(hit.point, v(60, 120, 300));
    let (k, s) = mesh.sample(u32::MAX, 0, 0).unwrap();
    assert_eq!(k, 2);
    assert_eq!(s.point, v(0, 0, 300));
    assert_eq!(s.pdf, Ratio { num: 2, den: 835200 });
    let (k, _) = mesh.sample(0, 5, 5).unwrap();
    assert_eq!(k, 0);
    let empty = MeshTriangle::new(true, 1, &Vec::new(), 0).unwrap();
    assert!(empty.sample(1, 2, 3).is_none());
    assert_eq!(empty.get_area(), 0);
}

#[test]
fn new_scene_has_the_usual_constants() {
    let scene = Scene::new(784, 784);
    assert_eq!((scene.width, scene.height), (784, 784));
    assert_eq!(scene.fov_scale, Ratio { num: 36397, den: 100000 });
    assert_eq!(scene.background, v(235, 675, 843));
    assert_eq!(scene.rr_prob, DEFAULT_RR);
    assert_eq!(DEFAULT_RR as f64 / RANDOM_ONE as f64, 0.8 - 0.8 / RANDOM_ONE as f64);
    assert!(!scene.is_built());
    assert!(scene.prims.is_empty() && scene.lights.is_empty() && scene.materials.is_empty());
}

#[test]
fn scene_refuses_objects_it_cannot_hold() {
    let mut scene = Scene::new(8, 8);
    let floor = mesh(&square(0, 0, 10, 10, 0), 0);
    assert_eq!(scene.add_obj(&floor), Err(SceneError::UnknownMaterial));
    assert!(scene.prims.is_empty());
    assert_eq!(scene.add_material(diffuse(500)), 0);
    assert_eq!(scene.add_material(lamp(9)), 1);
    let wide = mesh(&square(0, 0, 4370, 10, 0), 0);
    assert_eq!(scene.add_obj(&wide), Err(SceneError::OutOfScene));
    let just_inside = mesh(&square(-4369, 0, 4369, 10, 0), 0);
    assert_eq!(scene.add_obj(&just_inside), Ok(()));
    assert_eq!(scene.add_obj(&floor), Ok(()));
    assert_eq!(scene.prims.len(), 4);
    scene.build_bvh();
    assert!(scene.is_built());
    assert_eq!(scene.add_obj(&floor), Err(SceneError::AlreadyBuilt));
    assert_eq!(scene.prims.len(), 4);
}

#[test]
fn scene_lists_its_lights() {
    let mut scene = Scene::new(8, 8);
    let white = scene.add_material(diffuse(500));
    let glow = scene.add_material(lamp(9));
    scene.add_obj(&mesh(&square(0, 0, 10, 10, 0), white)).unwrap();
    scene.add_obj(&mesh(&square(0, 0, 4, 4, 9), glow)).unwrap();
    scene.add_obj(&mesh(&square(0, 0, 10, 10, 20), white)).unwrap();
    scene.add_obj(&mesh(&vec![v(0, 0, 30), v(2, 0, 30), v(0, 3, 30)], glow)).unwrap();
    assert_eq!(scene.prims.len(), 7);
    assert_eq!(scene.lights, vec![2, 3, 6]);
    assert_eq!(scene.light_areas, vec![57600, 57600, 21600]);
    assert!(scene.emits(2) && scene.emits(6) && !scene.emits(0) && !scene.emits(5));
    let s = scene.sample_light(0, 0, 0).unwrap();
    assert_eq!((s.slot, s.prim), (0, 2));
    assert_eq!(s.point, v(0, 0, 540));
    assert_eq!(s.pdf, Ratio { num: 2, den: 136800 });
    let s = scene.sample_light(u32::MAX, 0, 0).unwrap();
    assert_eq!((s.slot, s.prim), (2, 6));
    assert_eq!(s.point, v(0, 0, 1800));
}

#[test]
fn scene_without_lights_has_no_light_sample() {
    let mut scene = Scene::new(8, 8);
    assert!(scene.sample_light(1, 2, 3).is_none());
    let white = scene.add_material(diffuse(500));
    scene.add_obj(&mesh(&square(0, 0, 10, 10, 0), white)).unwrap();
    assert!(scene.sample_light(1, 2, 3).is_none());
}

#[test]
fn light_points_lie_in_the_lights_box_and_follow_the_areas() {
    let mut scene = Scene::new(8, 8);
    let white = scene.add_material(diffuse(500));
    let glow = scene.add_material(lamp(9));
    scene.add_obj(&mesh(&square(-50, -50, 50, 50, 0), white)).unwrap();
    scene.add_obj(&mesh(&square(0, 0, 10, 10, 40), glow)).unwrap();
    scene.add_obj(&mesh(&square(100, 100, 130, 110, 70), glow)).unwrap();
    scene.build_bvh();
    let lights_box = union_all(&scene.prims, &scene.lights);
    assert_eq!(lights_box, Bounds3::new(v(0, 0, 2400), v(7800, 6600, 4200)));
    let mut state: u64 = 31337;
    let draws = 20000;
    let mut small_light = 0;
    for _ in 0..draws {
        let s = scene.sample_light(next(&mut state), next(&mut state), next(&mut state)).unwrap();
        assert!(scene.emits(s.prim));
        assert_eq!(s.prim, scene.lights[s.slot]);
        assert_eq!(s.pdf, Ratio { num: 2, den: 2 * (100 + 300) * 3600 });
        for axis in 0..3 {
            assert!(lights_box.p_min.axis(axis) <= s.point.axis(axis));
            assert!(s.point.axis(axis) <= lights_box.p_max.axis(axis));
        }
        let own = scene.prims[s.prim].get_bounds();
        for axis in 0..3 {
            assert!(own.p_min.axis(axis) <= s.point.axis(axis));
            assert!(s.point.axis(axis) <= own.p_max.axis(axis));
        }
        if s.prim < 4 {
            small_light += 1;
        }
    }
    let share = small_light as f64 / draws as f64;
    assert!((share - 0.25).abs() < 0.02);
}

#[test]
fn loading_rejects_more_faces_than_a_mesh_holds() {
    let positions = vec![v(0, 0, 0); 3 * (MAX_ITEMS + 1)];
    assert_eq!(load_triangles(true, 1, &positions, 0).unwrap_err(), LoadError::TooManyFaces);
    assert_eq!(load_triangles(false, 1, &positions, 0).unwrap_err(), LoadError::NotLoaded);
}

#[test]
fn scene_refuses_more_primitives_than_it_holds() {
    let mut positions = Vec::with_capacity(3 * MAX_ITEMS);
    for _ in 0..MAX_ITEMS {
        positions.extend_from_slice(&[v(0, 0, 0), v(1, 0, 0), v(0, 1, 0)]);
    }
    let full = mesh(&positions, 0);
    drop(positions);
    assert_eq!(full.triangles.len(), MAX_ITEMS);
    assert_eq!(full.get_area(), 3600 * MAX_ITEMS as u128);
    let one = mesh(&vec![v(0, 0, 0), v(1, 0, 0), v(0, 1, 0)], 0);
    let mut scene = Scene::new(4, 4);
    scene.add_material(diffuse(500));
    assert_eq!(scene.add_obj(&one), Ok(()));
    assert_eq!(scene.add_obj(&full), Err(SceneError::TooManyPrimitives));
    assert_eq!(scene.prims.len(), 1);
    let mut scene = Scene::new(4, 4);
    scene.add_material(diffuse(500));
    assert_eq!(scene.add_obj(&full), Ok(()));
    assert_eq!(scene.prims.len(), MAX_ITEMS);
    assert_eq!(scene.add_obj(&one), Err(SceneError::TooManyPrimitives));
}

#[test]
fn tampered_values_are_found_out() {
    let t = Triangle::new(v(0, 0, 0), v(3, 0, 0), v(0, 4, 0), 1).unwrap();
    assert!(t.is_wf());
    assert!(!Triangle { area2: 13, ..t }.is_wf());
    assert!(!Triangle { e1: v(3, 0, 1), ..t }.is_wf());
    assert!(!Triangle { normal: v(0, 0, -12), ..t }.is_wf());
    assert!(!Triangle { v2: v(6, 0, 0), ..t }.is_wf());
    assert!(!Triangle { v0: v(0, 0, 600000), ..t }.is_wf());
    assert!(Ratio { num: -3, den: 7 }.is_wf());
    assert!(!Ratio { num: 1, den: 0 }.is_wf());

    let mut m = mesh(&square(0, 0, 10, 10, 0), 0);
    assert!(m.is_wf());
    m.area2 += 1;
    assert!(!m.is_wf());
    m.area2 -= 1;
    m.triangles[1].material = 5;
    assert!(!m.is_wf());
    m.triangles[1].material = 0;
    assert!(m.is_wf());
    m.bounds = Bounds3::empty();
    assert!(!m.is_wf());

    let mut scene = Scene::new(8, 8);
    assert!(scene.is_wf_unbuilt());
    let white = scene.add_material(diffuse(500));
    let glow = scene.add_material(lamp(9));
    scene.add_obj(&mesh(&square(0, 0, 10, 10, 0), white)).unwrap();
    scene.add_obj(&mesh(&square(0, 0, 4, 4, 9), glow)).unwrap();
    assert!(scene.is_wf_unbuilt());
    scene.lights.pop();
    assert!(!scene.is_wf_unbuilt());
    scene.lights.push(3);
    assert!(scene.is_wf_unbuilt());
    scene.light_areas[0] = 1;
    assert!(!scene.is_wf_unbuilt());
    scene.light_areas[0] = 57600;
    scene.prims[0].material = 7;
    assert!(!scene.is_wf_unbuilt());
    scene.prims[0].material = white;
    scene.materials[white] = lamp(1);
    assert!(!scene.is_wf_unbuilt());
    scene.materials[white] = diffuse(500);
    scene.fov_scale = Ratio { num: 1, den: 0 };
    assert!(!scene.is_wf_unbuilt());
    scene.fov_scale = Ratio { num: 1, den: 2 };
    assert!(scene.is_wf_unbuilt());
    scene.build_bvh();
    assert!(!scene.is_wf_unbuilt());
}

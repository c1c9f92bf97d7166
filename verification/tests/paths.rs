use pathtracer::integrator::{facing, leave_surface, Gather, PathAction, PathState, Randoms};
use pathtracer::material::{Material, MaterialType};
use pathtracer::mesh::MeshTriangle;
use pathtracer::ratio::Ratio;
use pathtracer::ray::Ray;
use pathtracer::renderer::Framebuffer;
use pathtracer::scene::Scene;
use pathtracer::vector::Vector3;

fn v(x: i64, y: i64, z: i64) -> Vector3 {
    Vector3::new(x, y, z)
}

fn next(state: &mut u64) -> u32 {
    *state = state.wrapping_mul(6364136223846793005).wrapping_add(1442695040888963407);
    (*state >> 32) as u32
}

fn diffuse(kd: i64) -> Material {
    let mut m = Material::new(MaterialType::Diffuse, Vector3::zeros(), Vector3::zeros());
    m.kd = Vector3::same(kd);
    m
}

fn lamp(power: i64) -> Material {
    Material::new(MaterialType::Diffuse, Vector3::zeros(), Vector3::same(power))
}

fn square(x0: i64, y0: i64, x1: i64, y1: i64, z: i64) -> Vec<Vector3> {
    vec![v(x0, y0, z), v(x1, y0, z), v(x1, y1, z), v(x0, y0, z), v(x1, y1, z), v(x0, y1, z)]
}

fn quiet(direction: Vector3) -> Randoms {
    Randoms { light_pick: 0, light_u: 0, light_v: 0, roulette: u32::MAX, direction }
}

fn mesh(positions: &Vec<Vector3>, material: usize) -> MeshTriangle {
    MeshTriangle::new(true, 1, positions, material).unwrap()
}

/// A floor at z = 0 under a square light of side 200 at z = 400, in the
/// units of the model: 60 times that on the lattice.
fn room(with_blocker: bool) -> Scene {
    let mut scene = Scene::new(16, 16);
    let white = scene.add_material(diffuse(725));
    let glow = scene.add_material(lamp(17000));
    scene.add_obj(&mesh(&square(-300, -200, 300, 400, 0), white)).unwrap();
    scene.add_obj(&mesh(&square(-100, -100, 100, 100, 400), glow)).unwrap();
    if with_blocker {
        scene.add_obj(&mesh(&square(-250, -250, 250, 250, 200), white)).unwrap();
    }
    scene.build_bvh();
    scene
}

#[test]
fn empty_scene_renders_the_background_everywhere() {
    let mut scene = Scene::new(6, 4);
    scene.build_bvh();
    let eye = v(0, 0, -800);
    let mut image = Framebuffer::new(scene.width, scene.height, Vector3::zeros()).unwrap();
    for row in 0..scene.height {
        for col in 0..scene.width {
            let ray = scene.camera_ray(&eye, col, row).unwrap();
            let (next, action) =
                scene.advance(&PathState::Camera { ray }, &quiet(v(0, 0, 1)));
            assert_eq!(next, PathState::Finished);
            assert_eq!(action, PathAction { gather: Gather::Background, scattered: false });
            image.set(row, col, scene.background);
        }
    }
    assert_eq!(image.pixels.len(), 24);
    assert!(image.pixels.iter().all(|p| *p == v(235, 675, 843)));
}

#[test]
fn camera_ray_at_a_light_returns_its_emission_at_once() {
    let mut scene = Scene::new(4, 4);
    let glow = scene.add_material(lamp(17000));
    scene.add_obj(&mesh(&vec![v(-5, -5, 10), v(5, -5, 10), v(0, 5, 10)], glow)).unwrap();
    scene.build_bvh();
    let ray = Ray::new(v(0, 0, 0), v(0, 0, 1)).unwrap();
    let (next, action) = scene.advance(&PathState::Camera { ray }, &quiet(v(0, 0, 1)));
    assert_eq!(next, PathState::Finished);
    assert_eq!(action, PathAction { gather: Gather::Emission { material: glow }, scattered: false });
    assert_eq!(scene.materials[glow].get_emission(), v(17000, 17000, 17000));
    let (after, nothing) = scene.advance(&next, &quiet(v(0, 0, 1)));
    assert_eq!(after, PathState::Finished);
    assert_eq!(nothing, PathAction { gather: Gather::Nothing, scattered: false });
    let beside = Ray::new(v(5000, 0, 0), v(0, 0, 1)).unwrap();
    let (_, action) = scene.advance(&PathState::Camera { ray: beside }, &quiet(v(0, 0, 1)));
    assert_eq!(action.gather, Gather::Background);
}

#[test]
fn camera_ray_at_a_surface_stands_there() {
    let scene = room(false);
    let ray = Ray::new(v(600, -1200, 12000), v(0, 0, -2)).unwrap();
    let (state, action) = scene.advance(&PathState::Camera { ray }, &quiet(v(0, 0, 1)));
    assert_eq!(action, PathAction { gather: Gather::Nothing, scattered: false });
    match state {
        PathState::Surface { hit } => {
            assert_eq!(hit.point, v(600, -1200, 0));
            assert_eq!(hit.prim, 0);
            assert_eq!(hit.material, 0);
            assert!(hit.hit.t.same(&Ratio { num: 6000, den: 1 }));
            assert!(state.is_wf(&scene));
            assert_eq!(hit.normal, scene.prims[0].normal);
        }
        other => panic!("the path is at {:?}", other),
    }
}

#[test]
fn stepping_off_a_surface_goes_to_the_side_of_the_target() {
    let p = v(5, 5, 0);
    assert_eq!(leave_surface(&p, &v(0, 0, 9), &v(1, 1, 1)), v(5, 5, 1));
    assert_eq!(leave_surface(&p, &v(0, 0, 9), &v(1, 1, -1)), v(5, 5, 0));
    assert_eq!(leave_surface(&p, &v(0, 0, -9), &v(1, 1, -1)), v(5, 5, 0));
    assert_eq!(leave_surface(&p, &v(0, 0, -9), &v(1, 1, 1)), v(5, 5, 1));
    assert_eq!(leave_surface(&p, &v(3, -2, 0), &v(1, 0, 0)), v(6, 5, 0));
    assert_eq!(leave_surface(&p, &v(3, -2, 0), &v(-1, 0, 0)), v(5, 6, 0));
}

#[test]
fn light_is_seen_unless_something_stands_before_it() {
    let open = room(false);
    let blocked = room(true);
    let light = open.sample_light(0, 1 << 30, 1 << 31).unwrap();
    assert_eq!(light.point.z, 24000);
    assert!(open.visible(&v(0, 0, 1), &light));
    assert!(!blocked.visible(&v(0, 0, 1), &light));
    assert!(blocked.visible(&v(0, 0, 12001), &light));
    assert!(!open.visible(&light.point, &light));
    assert!(open.visible(&v(0, 0, 24001), &light));
}

#[test]
fn roulette_ends_a_path_and_a_light_ends_it_silently() {
    let scene = room(true);
    let ray = Ray::new(v(600, -1200, 6000), v(0, 0, -1)).unwrap();
    let (at_floor, _) = scene.advance(&PathState::Camera { ray }, &quiet(v(0, 0, 1)));
    let mut ev = quiet(v(0, 0, 1));
    let (next, action) = scene.advance(&at_floor, &ev);
    assert_eq!(next, PathState::Finished);
    assert_eq!(action, PathAction { gather: Gather::Nothing, scattered: false });
    ev.roulette = 0;
    let (next, action) = scene.advance(&at_floor, &ev);
    assert!(action.scattered);
    match next {
        PathState::Surface { hit } => {
            assert_eq!(hit.point, v(600, -1200, 12000));
            assert!(hit.prim >= 4);
        }
        other => panic!("the path is at {:?}", other),
    }
    ev.direction = v(0, 0, 0);
    assert_eq!(scene.advance(&at_floor, &ev).0, PathState::Finished);
    ev.direction = v(0, 0, 600000);
    assert_eq!(scene.advance(&at_floor, &ev).0, PathState::Finished);
    ev.direction = v(1, 0, 0);
    assert_eq!(scene.advance(&at_floor, &ev).0, PathState::Finished);
    ev.roulette = scene.rr_prob;
    ev.direction = v(0, 0, 1);
    assert_eq!(scene.advance(&at_floor, &ev).0, PathState::Finished);
    ev.roulette = scene.rr_prob - 1;
    assert!(scene.advance(&at_floor, &ev).1.scattered);

    let open = room(false);
    ev.roulette = 0;
    let (next, action) = open.advance(&at_floor, &ev);
    assert_eq!(next, PathState::Finished);
    assert!(!action.scattered);
    assert!(matches!(action.gather, Gather::Direct { .. }));
}

#[test]
fn roulette_weight_averages_to_one() {
    let scene = Scene::new(4, 4);
    let p = scene.rr_prob as f64 / 4294967296.0;
    let mut state: u64 = 8;
    let draws = 200000;
    let mut sum = 0.0;
    for _ in 0..draws {
        if scene.survives(next(&mut state)) {
            sum += 1.0 / p;
        }
    }
    assert!((sum / draws as f64 - 1.0).abs() < 0.01);
    assert!(scene.survives(0));
    assert!(!scene.survives(u32::MAX));
}

#[test]
fn floor_under_a_light_gathers_the_closed_form_of_direct_light() {
    let scene = room(false);
    let ray = Ray::new(v(0, 0, 100), v(0, 0, -1)).unwrap();
    let (at_floor, _) = scene.advance(&PathState::Camera { ray }, &quiet(v(0, 0, 1)));
    let p = match at_floor {
        PathState::Surface { hit } => hit.point,
        other => panic!("the path is at {:?}", other),
    };
    assert_eq!(p, v(0, 0, 0));
    let mut state: u64 = 2718;
    let draws = 40000;
    let mut sum = 0.0;
    for _ in 0..draws {
        let ev = Randoms {
            light_pick: next(&mut state),
            light_u: next(&mut state),
            light_v: next(&mut state),
            roulette: u32::MAX,
            direction: v(0, 0, 1),
        };
        let (next_state, action) = scene.advance(&at_floor, &ev);
        assert_eq!(next_state, PathState::Finished);
        match action.gather {
            Gather::Direct { light } => {
                let w = light.point.sub(&p);
                let (x, y, z) = (w.x as f64, w.y as f64, w.z as f64);
                let r2 = x * x + y * y + z * z;
                let cos_surface = z / r2.sqrt();
                let cos_light = z / r2.sqrt();
                let pdf = light.pdf.num as f64 / light.pdf.den as f64;
                sum += cos_surface * cos_light / (r2 * pdf);
            }
            other => panic!("the light was not gathered: {:?}", other),
        }
    }
    let estimate = sum / draws as f64;
    let (a, h) = (6000.0f64, 24000.0f64);
    let s = (a * a + h * h).sqrt();
    let quadrant = 2.0 * (a / s) * (a / s).atan() / (2.0 * std::f64::consts::PI);
    let exact = std::f64::consts::PI * 4.0 * quadrant;
    assert!((estimate - exact).abs() < 0.02 * exact);
}

#[test]
fn normals_are_turned_against_the_incoming_ray() {
    assert_eq!(facing(&v(0, 0, 5), &v(1, 1, -1)), v(0, 0, 5));
    assert_eq!(facing(&v(0, 0, 5), &v(0, 0, 1)), v(0, 0, -5));
    assert_eq!(facing(&v(0, 0, 5), &v(1, 0, 0)), v(0, 0, 5));
    assert_eq!(facing(&v(2, -3, 4), &v(1, 1, 1)), v(-2, 3, -4));
    assert_eq!(facing(&v(2, -3, 4), &v(-1, -1, -1)), v(2, -3, 4));
}

#[test]
fn states_can_be_tested_before_a_step() {
    let scene = room(false);
    let ray = Ray { origin: v(0, 0, 5), direction: v(0, 0, 0) };
    assert!(!ray.is_wf());
    assert!(!PathState::Camera { ray }.is_wf(&scene));
    let ray = Ray { origin: v(0, 0, 5), direction: v(0, 0, -1) };
    assert!(ray.is_wf());
    assert!(PathState::Camera { ray }.is_wf(&scene));
    assert!(PathState::Finished.is_wf(&scene));
    let (state, _) = scene.advance(&PathState::Camera { ray }, &quiet(v(0, 0, 1)));
    assert!(state.is_wf(&scene));
    if let PathState::Surface { mut hit } = state {
        hit.prim = 99;
        assert!(!PathState::Surface { hit }.is_wf(&scene));
    } else {
        panic!("the path is at {:?}", state);
    }
}

use pathtracer::ray::Ray;
use pathtracer::renderer::{encode_channel, tile_ranges, Framebuffer, Tile};
use pathtracer::scene::Scene;
use pathtracer::shader::{choose_shader_texture, ShaderKind};
use pathtracer::vector::Vector3;

fn v(x: i64, y: i64, z: i64) -> Vector3 {
    Vector3::new(x, y, z)
}

#[test]
fn rows_are_dealt_out_evenly() {
    assert_eq!(
        tile_ranges(10, 3),
        vec![Tile { start: 0, end: 4 }, Tile { start: 4, end: 7 }, Tile { start: 7, end: 10 }]
    );
    assert_eq!(tile_ranges(10, 0), Vec::<Tile>::new());
    assert_eq!(tile_ranges(7, 1), vec![Tile { start: 0, end: 7 }]);
    assert_eq!(
        tile_ranges(2, 4),
        vec![
            Tile { start: 0, end: 1 },
            Tile { start: 1, end: 2 },
            Tile { start: 2, end: 2 },
            Tile { start: 2, end: 2 }
        ]
    );
    assert_eq!(tile_ranges(0, 2), vec![Tile { start: 0, end: 0 }, Tile { start: 0, end: 0 }]);
}

#[test]
fn tiles_cover_every_row_once() {
    for height in [0u32, 1, 5, 16, 784, 1000] {
        for workers in [1u32, 2, 3, 7, 16, 33] {
            let tiles = tile_ranges(height, workers);
            assert_eq!(tiles.len(), workers as usize);
            let mut seen = vec![0u32; height as usize];
            let mut expected_start = 0;
            for t in &tiles {
                assert_eq!(t.start, expected_start);
                assert!(t.start <= t.end);
                let size = t.end - t.start;
                assert!(size == height / workers || size == height / workers + 1);
                for row in t.start..t.end {
                    seen[row as usize] += 1;
                }
                expected_start = t.end;
            }
            assert_eq!(expected_start, height);
            assert!(seen.iter().all(|&n| n == 1));
        }
    }
}

#[test]
fn framebuffer_stores_pixels_row_by_row() {
    let mut image = Framebuffer::new(3, 2, v(1, 2, 3)).unwrap();
    assert_eq!((image.width, image.height), (3, 2));
    assert_eq!(image.pixels, vec![v(1, 2, 3); 6]);
    image.set(1, 2, v(9, 9, 9));
    image.set(0, 1, v(7, 7, 7));
    assert_eq!(image.pixels[5], v(9, 9, 9));
    assert_eq!(image.pixels[1], v(7, 7, 7));
    assert_eq!(image.get(1, 2), v(9, 9, 9));
    assert_eq!(image.get(0, 1), v(7, 7, 7));
    assert_eq!(image.get(1, 1), v(1, 2, 3));
    let none = Framebuffer::new(0, 5, v(0, 0, 0)).unwrap();
    assert!(none.pixels.is_empty());
}

#[test]
fn channels_are_clamped_to_a_byte() {
    assert_eq!(encode_channel(-5), 0);
    assert_eq!(encode_channel(0), 0);
    assert_eq!(encode_channel(1), 0);
    assert_eq!(encode_channel(4), 1);
    assert_eq!(encode_channel(500), 127);
    assert_eq!(encode_channel(999), 254);
    assert_eq!(encode_channel(1000), 255);
    assert_eq!(encode_channel(2000), 255);
    assert_eq!(encode_channel(i64::MAX), 255);
    assert_eq!(encode_channel(i64::MIN), 0);
}

#[test]
fn camera_rays_pass_through_pixel_centres() {
    let scene = Scene::new(4, 2);
    let eye = v(278, 273, -800);
    let ray = scene.camera_ray(&eye, 0, 0).unwrap();
    assert_eq!(ray, Ray::new(eye, v(109191, 36397, 200000)).unwrap());
    let ray = scene.camera_ray(&eye, 3, 1).unwrap();
    assert_eq!(ray.direction, v(-109191, -36397, 200000));
    let ray = scene.camera_ray(&eye, 1, 0).unwrap();
    assert_eq!(ray.direction, v(36397, 36397, 200000));
    assert!(scene.camera_ray(&v(0, 0, 600000), 0, 0).is_none());
}

#[test]
fn camera_directions_are_shortened_to_the_lattice() {
    let scene = Scene::new(784, 784);
    let eye = v(278, 273, -800);
    let ray = scene.camera_ray(&eye, 0, 0).unwrap();
    assert_eq!(ray.direction, v(189992, 189992, 522666));
    let ray = scene.camera_ray(&eye, 783, 783).unwrap();
    assert_eq!(ray.direction, v(-189993, -189993, 522666));
    let ray = scene.camera_ray(&eye, 392, 391).unwrap();
    assert_eq!(ray.direction, v(-243, 242, 522666));
}

#[test]
fn shader_is_chosen_by_name() {
    assert_eq!(choose_shader_texture("normal", "models/"), (ShaderKind::Normal, None));
    assert_eq!(choose_shader_texture("phong", "models/"), (ShaderKind::Phong, None));
    assert_eq!(choose_shader_texture("bump", "models/"), (ShaderKind::Bump, None));
    assert_eq!(
        choose_shader_texture("displacement", "models/"),
        (ShaderKind::Displacement, None)
    );
    assert_eq!(
        choose_shader_texture("texture", "models/spot/"),
        (ShaderKind::Texture, Some(String::from("models/spot/spot_texture.png")))
    );
    assert_eq!(choose_shader_texture("", "models/"), (ShaderKind::Phong, None));
    assert_eq!(choose_shader_texture("Normal", "models/"), (ShaderKind::Phong, None));
    assert_eq!(choose_shader_texture("textures", ""), (ShaderKind::Phong, None));
}

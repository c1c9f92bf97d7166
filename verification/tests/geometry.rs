use pathtracer::bounds3::Bounds3;
use pathtracer::ratio::{floor_div, Ratio};
use pathtracer::ray::Ray;
use pathtracer::triangle::{isqrt, Triangle};
use pathtracer::vector::Vector3;

fn v(x: i64, y: i64, z: i64) -> Vector3 {
    Vector3::new(x, y, z)
}

fn tri(a: Vector3, b: Vector3, c: Vector3) -> Triangle {
    Triangle::new(a, b, c, 0).unwrap()
}

fn next(state: &mut u64) -> u32 {
    *state = state.wrapping_mul(6364136223846793005).wrapping_add(1442695040888963407);
    (*state >> 32) as u32
}

fn small(state: &mut u64, range: i64) -> i64 {
    (next(state) as i64) % (2 * range + 1) - range
}

#[test]
fn vector_products() {
    let a = v(1, 2, 3);
    let b = v(-4, 5, 6);
    assert_eq!(a.dot(&b), 24);
    assert_eq!(a.cross(&b), v(-3, -18, 13));
    assert_eq!(a.add(&b), v(-3, 7, 9));
    assert_eq!(a.sub(&b), v(5, -3, -3));
    assert_eq!(Vector3::min(&a, &b), v(-4, 2, 3));
    assert_eq!(Vector3::max(&a, &b), v(1, 5, 6));
    assert_eq!(Vector3::same(7), v(7, 7, 7));
    assert!(Vector3::zeros().is_zero());
    assert_eq!(b.axis(0), -4);
    assert_eq!(b.axis(1), 5);
    assert_eq!(b.axis(2), 6);
}

#[test]
fn ratios_compare_by_value() {
    let half = Ratio::new(1, 2).unwrap();
    let two_quarters = Ratio::new(2, 4).unwrap();
    let third = Ratio::new(1, 3).unwrap();
    let minus = Ratio::new(-5, 7).unwrap();
    assert!(half.same(&two_quarters));
    assert!(half.le(&two_quarters));
    assert!(!half.lt(&two_quarters));
    assert!(third.lt(&half));
    assert!(minus.lt(&third));
    assert_eq!(half.max(&third), half);
    assert_eq!(half.min(&third), third);
    assert_eq!(half.max(&two_quarters), half);
    assert!(Ratio::new(1, 0).is_none());
    assert!(Ratio::new(1, -3).is_none());
}

#[test]
fn floor_division_rounds_down() {
    assert_eq!(floor_div(7, 2), 3);
    assert_eq!(floor_div(-7, 2), -4);
    assert_eq!(floor_div(-8, 2), -4);
    assert_eq!(floor_div(0, 5), 0);
    assert_eq!(floor_div(-1, 5), -1);
}

#[test]
fn integer_square_roots() {
    assert_eq!(isqrt(0), 0);
    assert_eq!(isqrt(1), 1);
    assert_eq!(isqrt(15), 3);
    assert_eq!(isqrt(16), 4);
    assert_eq!(isqrt(1_000_000_000_000_000_000), 1_000_000_000);
    assert_eq!(isqrt(999_999_999_999_999_999), 999_999_999);
}

#[test]
fn ray_needs_a_direction_inside_the_lattice() {
    assert!(Ray::new(v(0, 0, 0), v(0, 0, 0)).is_none());
    assert!(Ray::new(v(524289, 0, 0), v(1, 0, 0)).is_none());
    assert!(Ray::new(v(0, 0, 0), v(0, -524289, 0)).is_none());
    let r = Ray::new(v(524288, 0, 0), v(0, 0, -524288)).unwrap();
    assert_eq!(r.origin, v(524288, 0, 0));
    assert_eq!(r.direction, v(0, 0, -524288));
}

#[test]
fn box_union_and_empty_identity() {
    let a = Bounds3::new(v(1, 2, 3), v(0, 0, 0));
    assert_eq!(a.p_min, v(0, 0, 0));
    assert_eq!(a.p_max, v(1, 2, 3));
    let b = Bounds3::new(v(-1, 5, 2), v(0, 6, 9));
    let u = a.union(&b);
    assert_eq!(u.p_min, v(-1, 0, 0));
    assert_eq!(u.p_max, v(1, 6, 9));
    assert_eq!(Bounds3::empty().union(&a), a);
    assert_eq!(a.union(&Bounds3::empty()), a);
    assert!(Bounds3::empty().is_empty_box());
    assert!(!a.is_empty_box());
    assert_eq!(a.union_point(&v(4, -1, 1)), Bounds3::new(v(0, -1, 0), v(4, 2, 3)));
}

#[test]
fn box_measures() {
    let a = Bounds3::new(v(0, 0, 0), v(1, 2, 3));
    assert_eq!(a.surface_area(), 22);
    assert_eq!(Bounds3::empty().surface_area(), 0);
    assert_eq!(a.extent(1), 2);
    assert_eq!(a.max_extent(), 2);
    assert_eq!(Bounds3::new(v(0, 0, 0), v(5, 2, 3)).max_extent(), 0);
    assert_eq!(Bounds3::new(v(0, 0, 0), v(1, 3, 3)).max_extent(), 2);
    assert_eq!(Bounds3::new(v(0, 0, 0), v(3, 3, 1)).max_extent(), 1);
    let c = Bounds3::new(v(0, 0, -3), v(1, 2, 0));
    assert_eq!(c.doubled_centroid(), v(1, 2, -3));
    assert_eq!(c.centroid(), v(0, 1, -2));
}

#[test]
fn box_slab_test_reports_entry_and_exit() {
    let b = Bounds3::new(v(0, 0, 0), v(10, 10, 10));
    let ray = Ray::new(v(-5, 5, 5), v(1, 0, 0)).unwrap();
    let (near, far) = b.intersect(&ray).unwrap();
    assert_eq!(near, Ratio { num: 5, den: 1 });
    assert_eq!(far, Ratio { num: 15, den: 1 });
    let away = Ray::new(v(-5, 5, 5), v(-1, 0, 0)).unwrap();
    assert!(b.intersect(&away).is_none());
    let inside = Ray::new(v(5, 5, 5), v(0, 2, 0)).unwrap();
    let (near, far) = b.intersect(&inside).unwrap();
    assert_eq!(near, Ratio { num: -5, den: 2 });
    assert_eq!(far, Ratio { num: 5, den: 2 });
    assert!(Bounds3::empty().intersect(&ray).is_none());
}

#[test]
fn flat_box_and_ray_along_an_axis() {
    let flat = Bounds3::new(v(0, 0, 5), v(10, 10, 5));
    let in_plane = Ray::new(v(5, 5, 5), v(1, 0, 0)).unwrap();
    let (near, far) = flat.intersect(&in_plane).unwrap();
    assert_eq!(near, Ratio { num: -5, den: 1 });
    assert_eq!(far, Ratio { num: 5, den: 1 });
    let beside = Ray::new(v(5, 5, 6), v(1, 0, 0)).unwrap();
    assert!(flat.intersect(&beside).is_none());
    let through = Ray::new(v(5, 5, 0), v(0, 0, 1)).unwrap();
    let (near, far) = flat.intersect(&through).unwrap();
    assert_eq!(near, Ratio { num: 5, den: 1 });
    assert_eq!(far, Ratio { num: 5, den: 1 });
}

#[test]
fn slab_test_agrees_with_floating_point_slabs() {
    let mut state: u64 = 12345;
    let mut hits = 0;
    for _ in 0..3000 {
        let lower = v(small(&mut state, 50), small(&mut state, 50), small(&mut state, 50));
        let upper = v(small(&mut state, 50), small(&mut state, 50), small(&mut state, 50));
        let b = Bounds3::new(lower, upper);
        let o = v(small(&mut state, 80), small(&mut state, 80), small(&mut state, 80));
        let d = v(small(&mut state, 3), small(&mut state, 3), small(&mut state, 3));
        let ray = match Ray::new(o, d) {
            Some(r) => r,
            None => continue,
        };
        let mut near = f64::NEG_INFINITY;
        let mut far = f64::INFINITY;
        let mut open = true;
        for axis in 0..3 {
            let (oo, dd) = (o.axis(axis) as f64, d.axis(axis) as f64);
            let (lo, hi) = (b.p_min.axis(axis) as f64, b.p_max.axis(axis) as f64);
            if dd == 0.0 {
                if oo < lo || oo > hi {
                    open = false;
                }
            } else {
                let (t1, t2) = ((lo - oo) / dd, (hi - oo) / dd);
                near = near.max(t1.min(t2));
                far = far.min(t1.max(t2));
            }
        }
        let expected = open && near <= far && far >= 0.0;
        let got = b.intersect(&ray);
        assert_eq!(got.is_some(), expected);
        if let Some((n, f)) = got {
            hits += 1;
            assert!((n.num as f64 / n.den as f64 - near).abs() < 1e-9);
            assert!((f.num as f64 / f.den as f64 - far).abs() < 1e-9);
        }
    }
    assert!(hits > 100);
}

#[test]
fn ray_from_above_hits_triangle_at_unit_parameter() {
    let t = tri(v(-1, -1, 0), v(1, -1, 0), v(-1, 1, 0));
    let ray = Ray::new(v(0, 0, 1), v(0, 0, -1)).unwrap();
    let hit = t.intersect(&ray).unwrap();
    assert_eq!(hit.t, Ratio { num: 4, den: 4 });
    assert_eq!(hit.u_num, 2);
    assert_eq!(hit.v_num, 2);
}

#[test]
fn ray_from_below_hits_the_back_face() {
    let t = tri(v(-1, -1, 0), v(1, -1, 0), v(-1, 1, 0));
    let ray = Ray::new(v(0, 0, -1), v(0, 0, 1)).unwrap();
    let hit = t.intersect(&ray).unwrap();
    assert_eq!(hit.t, Ratio { num: 4, den: 4 });
    assert_eq!(hit.u_num, 2);
    assert_eq!(hit.v_num, 2);
}

#[test]
fn rays_that_miss_a_triangle() {
    let t = tri(v(0, 0, 0), v(10, 0, 0), v(0, 10, 0));
    let parallel = Ray::new(v(1, 1, 1), v(1, 0, 0)).unwrap();
    assert!(t.intersect(&parallel).is_none());
    let behind = Ray::new(v(1, 1, 1), v(0, 0, 1)).unwrap();
    assert!(t.intersect(&behind).is_none());
    let outside_u = Ray::new(v(-1, 1, 1), v(0, 0, -1)).unwrap();
    assert!(t.intersect(&outside_u).is_none());
    let outside_v = Ray::new(v(1, -1, 1), v(0, 0, -1)).unwrap();
    assert!(t.intersect(&outside_v).is_none());
    let beyond = Ray::new(v(6, 6, 1), v(0, 0, -1)).unwrap();
    assert!(t.intersect(&beyond).is_none());
    let on_edge = Ray::new(v(5, 5, 1), v(0, 0, -1)).unwrap();
    assert!(t.intersect(&on_edge).is_some());
    let on_surface = Ray::new(v(1, 1, 0), v(0, 0, -1)).unwrap();
    assert!(t.intersect(&on_surface).is_none());
}

#[test]
fn hits_nearer_than_epsilon_do_not_count() {
    let t = tri(v(0, 0, 0), v(10, 0, 0), v(0, 10, 0));
    let long = Ray::new(v(1, 1, 1), v(0, 0, -65536)).unwrap();
    assert!(t.intersect(&long).is_none());
    let shorter = Ray::new(v(1, 1, 1), v(0, 0, -65535)).unwrap();
    let hit = t.intersect(&shorter).unwrap();
    assert!(hit.t.same(&Ratio { num: 1, den: 65535 }));
}

#[test]
fn triangle_needs_area_and_lattice() {
    assert!(Triangle::new(v(0, 0, 0), v(1, 1, 1), v(2, 2, 2), 0).is_none());
    assert!(Triangle::new(v(0, 0, 0), v(0, 0, 0), v(2, 3, 2), 0).is_none());
    assert!(Triangle::new(v(0, 0, 0), v(524289, 0, 0), v(0, 1, 0), 0).is_none());
    let t = Triangle::new(v(0, 0, 0), v(3, 0, 0), v(0, 4, 0), 7).unwrap();
    assert_eq!(t.e1, v(3, 0, 0));
    assert_eq!(t.e2, v(0, 4, 0));
    assert_eq!(t.normal, v(0, 0, 12));
    assert_eq!(t.get_area(), 12);
    assert_eq!(t.material, 7);
    assert_eq!(t.get_bounds(), Bounds3::new(v(0, 0, 0), v(3, 4, 0)));
    let slanted = Triangle::new(v(0, 0, 0), v(1, 0, 0), v(0, 1, 1), 0).unwrap();
    assert_eq!(slanted.normal, v(0, -1, 1));
    assert_eq!(slanted.get_area(), 1);
}

#[test]
fn ray_through_a_known_point_returns_its_barycentric_coordinates() {
    let t = tri(v(0, 0, 0), v(10, 0, 0), v(0, 10, 0));
    let origin = v(5, -1, 9);
    let target = v(2, 3, 0);
    let ray = Ray::new(origin, target.sub(&origin)).unwrap();
    let hit = t.intersect(&ray).unwrap();
    let den = hit.t.den;
    assert!(den > 0);
    assert_eq!(hit.t.num, den);
    assert!(hit.u_num >= 0 && hit.v_num >= 0 && hit.u_num + hit.v_num <= den);
    let w0 = den - hit.u_num - hit.v_num;
    assert_eq!(w0 * 0 + hit.u_num * 10 + hit.v_num * 0, den * 2);
    assert_eq!(w0 * 0 + hit.u_num * 0 + hit.v_num * 10, den * 3);
    assert_eq!(t.hit_point(&ray, &hit), target);
}

#[test]
fn hit_points_match_barycentric_points_for_many_rays() {
    let mut state: u64 = 99;
    let mut hits = 0;
    for _ in 0..4000 {
        let a = v(small(&mut state, 40), small(&mut state, 40), small(&mut state, 40));
        let b = v(small(&mut state, 40), small(&mut state, 40), small(&mut state, 40));
        let c = v(small(&mut state, 40), small(&mut state, 40), small(&mut state, 40));
        let t = match Triangle::new(a, b, c, 0) {
            Some(t) => t,
            None => continue,
        };
        let o = v(small(&mut state, 60), small(&mut state, 60), small(&mut state, 60));
        let d = v(small(&mut state, 9), small(&mut state, 9), small(&mut state, 9));
        let ray = match Ray::new(o, d) {
            Some(r) => r,
            None => continue,
        };
        if let Some(hit) = t.intersect(&ray) {
            hits += 1;
            let den = hit.t.den;
            let w0 = den - hit.u_num - hit.v_num;
            assert!(den > 0 && hit.t.num > 0 && w0 >= 0 && hit.u_num >= 0 && hit.v_num >= 0);
            for axis in 0..3 {
                let on_ray = den * o.axis(axis) as i128 + hit.t.num * d.axis(axis) as i128;
                let on_triangle = w0 * a.axis(axis) as i128 + hit.u_num * b.axis(axis) as i128
                    + hit.v_num * c.axis(axis) as i128;
                assert_eq!(on_ray, on_triangle);
            }
            let p = t.hit_point(&ray, &hit);
            let bounds = t.get_bounds();
            for axis in 0..3 {
                assert!(bounds.p_min.axis(axis) <= p.axis(axis));
                assert!(p.axis(axis) <= bounds.p_max.axis(axis));
            }
            assert!(bounds.intersect(&ray).is_some());
        }
    }
    assert!(hits > 50);
}

#[test]
fn sampled_points_follow_the_square_root_rule() {
    let t = tri(v(0, 0, 0), v(1024, 0, 0), v(0, 1024, 0));
    let s = t.sample(0, 0);
    assert_eq!(s.point, v(0, 0, 0));
    assert_eq!(s.pdf, Ratio { num: 2, den: 1024 * 1024 });
    let s = t.sample(1 << 30, 1 << 31);
    assert_eq!(s.point, v(256, 256, 0));
    let s = t.sample(1 << 30, 0);
    assert_eq!(s.point, v(512, 0, 0));
    let small_triangle = tri(v(0, 0, 0), v(3, 0, 0), v(0, 4, 0));
    let s = small_triangle.sample(u32::MAX, 0);
    assert_eq!(s.point, v(2, 0, 0));
    assert_eq!(s.pdf, Ratio { num: 2, den: 12 });
}

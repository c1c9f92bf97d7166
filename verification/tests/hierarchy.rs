use pathtracer::bounds3::Bounds3;
use pathtracer::bvh::{nearest_in_list, nearest_of_all, union_all, BvhNode};
use pathtracer::intersection::{closer, hit_of, Intersection};
use pathtracer::ratio::Ratio;
use pathtracer::ray::Ray;
use pathtracer::sort::{comes_before, key_of, sort_along};
use pathtracer::triangle::{Triangle, TriangleHit};
use pathtracer::vector::Vector3;

fn v(x: i64, y: i64, z: i64) -> Vector3 {
    Vector3::new(x, y, z)
}

fn next(state: &mut u64) -> u32 {
    *state = state.wrapping_mul(6364136223846793005).wrapping_add(1442695040888963407);
    (*state >> 32) as u32
}

fn small(state: &mut u64, range: i64) -> i64 {
    (next(state) as i64) % (2 * range + 1) - range
}

fn random_triangles(state: &mut u64, count: usize) -> Vec<Triangle> {
    let mut prims = Vec::new();
    while prims.len() < count {
        let c = v(small(state, 200), small(state, 200), small(state, 200));
        let a = c.add(&v(small(state, 20), small(state, 20), small(state, 20)));
        let b = c.add(&v(small(state, 20), small(state, 20), small(state, 20)));
        if let Some(t) = Triangle::new(a, b, c, prims.len() % 3) {
            prims.push(t);
        }
    }
    prims
}

fn leaves(node: &BvhNode, out: &mut Vec<usize>) {
    match node {
        BvhNode::Leaf { items, .. } => out.extend(items.iter().copied()),
        BvhNode::Interior { left, right, .. } => {
            leaves(left, out);
            leaves(right, out);
        }
    }
}

fn check_shape(node: &BvhNode, prims: &Vec<Triangle>) -> usize {
    match node {
        BvhNode::Leaf { bounds, items } => {
            assert!(items.len() <= 2);
            assert_eq!(*bounds, union_all(prims, items));
            items.len()
        }
        BvhNode::Interior { bounds, left, right } => {
            let l = check_shape(left, prims);
            let r = check_shape(right, prims);
            assert!(l + r > 2);
            assert_eq!(l, (l + r) / 2);
            assert_eq!(*bounds, left.bounds().union(&right.bounds()));
            let axis = bounds.max_extent();
            let (mut li, mut ri) = (Vec::new(), Vec::new());
            leaves(left, &mut li);
            leaves(right, &mut ri);
            for &i in &li {
                for &j in &ri {
                    assert!(comes_before(prims, axis, i, j));
                }
            }
            l + r
        }
    }
}

#[test]
fn sorting_orders_by_centre_then_index() {
    let prims = vec![
        Triangle::new(v(10, 0, 0), v(12, 0, 0), v(10, 2, 0), 0).unwrap(),
        Triangle::new(v(0, 0, 0), v(2, 0, 0), v(0, 2, 0), 0).unwrap(),
        Triangle::new(v(10, 5, 0), v(12, 5, 0), v(10, 7, 0), 0).unwrap(),
        Triangle::new(v(-4, 0, 0), v(-2, 0, 0), v(-4, 2, 0), 0).unwrap(),
    ];
    assert_eq!(key_of(&prims, 0, 0), 22);
    assert_eq!(key_of(&prims, 1, 2), 12);
    assert_eq!(sort_along(&prims, vec![0, 1, 2, 3], 0), vec![3, 1, 0, 2]);
    assert_eq!(sort_along(&prims, vec![2, 0, 3, 1], 0), vec![3, 1, 0, 2]);
    assert_eq!(sort_along(&prims, vec![2, 0, 3, 1], 1), vec![0, 1, 3, 2]);
    assert_eq!(sort_along(&prims, vec![], 0), Vec::<usize>::new());
    assert!(comes_before(&prims, 0, 0, 2));
    assert!(!comes_before(&prims, 0, 2, 0));
    assert!(comes_before(&prims, 0, 2, 2));
}

#[test]
fn empty_list_builds_an_empty_leaf() {
    let prims: Vec<Triangle> = Vec::new();
    let root = BvhNode::build(&prims);
    match &root {
        BvhNode::Leaf { bounds, items } => {
            assert!(items.is_empty());
            assert!(bounds.is_empty_box());
        }
        BvhNode::Interior { .. } => panic!("an interior node over no primitive"),
    }
    let ray = Ray::new(v(0, 0, 0), v(1, 2, 3)).unwrap();
    assert!(root.intersect(&prims, &ray).is_none());
}

#[test]
fn two_primitives_make_one_leaf_and_three_split_one_to_two() {
    let mut state: u64 = 5;
    let prims = random_triangles(&mut state, 2);
    match BvhNode::build(&prims) {
        BvhNode::Leaf { items, .. } => assert_eq!(items, vec![0, 1]),
        BvhNode::Interior { .. } => panic!("two primitives were split"),
    }
    let prims = random_triangles(&mut state, 3);
    match BvhNode::build(&prims) {
        BvhNode::Leaf { .. } => panic!("three primitives in one leaf"),
        BvhNode::Interior { left, right, .. } => {
            let (mut l, mut r) = (Vec::new(), Vec::new());
            leaves(&left, &mut l);
            leaves(&right, &mut r);
            assert_eq!(l.len(), 1);
            assert_eq!(r.len(), 2);
        }
    }
}

#[test]
fn root_box_is_the_union_of_all_boxes() {
    let mut state: u64 = 2024;
    for count in [1usize, 2, 3, 4, 5, 8, 17, 64, 200] {
        let prims = random_triangles(&mut state, count);
        let root = BvhNode::build(&prims);
        let mut all = Bounds3::empty();
        for t in &prims {
            all = all.union(&t.get_bounds());
        }
        assert_eq!(root.bounds(), all);
        let everything: Vec<usize> = (0..count).collect();
        assert_eq!(root.bounds(), union_all(&prims, &everything));
    }
}

#[test]
fn tree_holds_every_primitive_once_and_splits_at_the_median() {
    let mut state: u64 = 77;
    for count in [1usize, 3, 6, 7, 33, 128] {
        let prims = random_triangles(&mut state, count);
        let root = BvhNode::build(&prims);
        assert_eq!(check_shape(&root, &prims), count);
        let mut found = Vec::new();
        leaves(&root, &mut found);
        found.sort();
        assert_eq!(found, (0..count).collect::<Vec<usize>>());
    }
}

#[test]
fn hierarchy_finds_what_testing_every_primitive_finds() {
    let mut state: u64 = 4711;
    let mut hits = 0;
    for count in [1usize, 2, 5, 40, 300] {
        let prims = random_triangles(&mut state, count);
        let root = BvhNode::build(&prims);
        for _ in 0..400 {
            let o = v(small(&mut state, 250), small(&mut state, 250), small(&mut state, 250));
            let aim = prims[next(&mut state) as usize % count];
            let d = if next(&mut state) % 2 == 0 {
                v(small(&mut state, 30), small(&mut state, 30), small(&mut state, 30))
            } else {
                let jitter = v(small(&mut state, 3), small(&mut state, 3), small(&mut state, 3));
                aim.v0.add(&aim.v1).add(&aim.v2).add(&jitter).sub(&o).sub(&o).sub(&o)
            };
            let ray = match Ray::new(o, d) {
                Some(r) => r,
                None => continue,
            };
            let through_tree = root.intersect(&prims, &ray);
            let by_testing_all = nearest_of_all(&prims, &ray);
            assert_eq!(through_tree, by_testing_all);
            if let Some(h) = through_tree {
                hits += 1;
                assert_eq!(Some(h), hit_of(&prims, &ray, h.prim));
                for i in 0..count {
                    if let Some(other) = prims[i].intersect(&ray) {
                        assert!(h.hit.t.le(&other.t));
                    }
                }
            }
        }
    }
    assert!(hits > 100);
}

#[test]
fn equal_distances_go_to_the_smaller_index() {
    let a = Triangle::new(v(0, 0, 0), v(10, 0, 0), v(0, 10, 0), 0).unwrap();
    let prims = vec![a, a, a];
    let ray = Ray::new(v(1, 1, 5), v(0, 0, -1)).unwrap();
    assert_eq!(nearest_of_all(&prims, &ray).unwrap().prim, 0);
    assert_eq!(BvhNode::build(&prims).intersect(&prims, &ray).unwrap().prim, 0);
    assert_eq!(nearest_in_list(&prims, &vec![2, 1], &ray).unwrap().prim, 1);
}

#[test]
fn closer_prefers_the_smaller_parameter() {
    let record = |prim: usize, num: i128, den: i128| Intersection {
        prim,
        hit: TriangleHit { t: Ratio { num, den }, u_num: 0, v_num: 0 },
        point: v(0, 0, 0),
        normal: v(0, 0, 1),
        material: 0,
    };
    let near = Some(record(5, 1, 3));
    let far = Some(record(2, 1, 2));
    let same_as_near = Some(record(4, 2, 6));
    assert_eq!(closer(near, far), near);
    assert_eq!(closer(far, near), near);
    assert_eq!(closer(near, None), near);
    assert_eq!(closer(None, far), far);
    assert_eq!(closer(None, None), None);
    assert_eq!(closer(near, same_as_near), same_as_near);
    assert_eq!(closer(same_as_near, near), same_as_near);
}

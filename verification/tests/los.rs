use std::cell::Cell;

use cgmath::Deg;
use cgmath::Matrix4;
use cgmath::Point3;
use cgmath::Vector3;
use cgmath::Vector4;
use cgmath::perspective;

use quarfs::los::ClipFlags;
use quarfs::los::HeightMap;
use quarfs::los::Los;
use quarfs::los::RelPos;
use quarfs::los::TransformKey;
use quarfs::los::classify_corner;
use quarfs::los::reduce_corners;
use quarfs::quadtree::Patch;
use quarfs::quadtree::TestResult;

/// The floating-point half of the corner classifier: projects a
/// homogeneous point and records the comparisons the verified
/// classifier reads.
fn flags_from_clip(p: [f32; 4]) -> ClipFlags {
    let w = p[3];
    if w <= 0.0 {
        return ClipFlags {
            behind_w: true,
            depth_low: false,
            depth_high: false,
            less_x: false,
            greater_x: false,
            less_y: false,
            greater_y: false,
        };
    }
    let a = p[0] / w;
    let b = p[1] / w;
    let c = p[2] / w;
    ClipFlags {
        behind_w: false,
        depth_low: c <= 0.0,
        depth_high: c > 1.0,
        less_x: a < -1.0,
        greater_x: a > 1.0,
        less_y: b < -1.0,
        greater_y: b > 1.0,
    }
}

fn matrix_key(m: &Matrix4<f32>) -> TransformKey {
    let cols: [[f32; 4]; 4] = (*m).into();
    let mut key = [0u32; 16];
    for c in 0..4 {
        for r in 0..4 {
            key[c * 4 + r] = cols[c][r].to_bits();
        }
    }
    key
}

fn load_pvm(size_x: u32, size_z: u32) -> Matrix4<f32> {
    let view = Matrix4::look_at_rh(
        Point3::new(0.0, 75.0, -110.0),
        Point3::new(0.0, 0.0, 0.0),
        Vector3::new(0.0, 1.0, 0.0),
    );
    let proj: Matrix4<f32> = perspective(Deg(45.0), 1920.0 / 1080.0, 5.0, 1100.0);
    let model = Matrix4::from_translation(Vector3::new(
        -(size_x as f32 / 2.0),
        0.0,
        -(size_z as f32 / 2.0),
    ));
    proj * view * model
}

#[test]
fn behind_eye_wins_over_axes() {
    // w <= 0 classifies (Behind, Behind) no matter what x and y say.
    for p in [
        [1000.0, 1000.0, 0.5, 0.0],
        [-1000.0, 0.0, 0.5, -1.0],
        [0.0, 0.0, 0.0, -0.001],
    ] {
        let r = classify_corner(flags_from_clip(p));
        assert_eq!(r, (RelPos::Behind, RelPos::Behind));
    }
}

#[test]
fn depth_boundaries_are_exact() {
    // c == 0 exactly is out (c <= 0), c == 1 exactly is in (c > 1 is
    // the discarding test).
    let at_near = classify_corner(flags_from_clip([0.0, 0.0, 0.0, 1.0]));
    assert_eq!(at_near, (RelPos::Behind, RelPos::Behind));

    let at_far = classify_corner(flags_from_clip([0.0, 0.0, 1.0, 1.0]));
    assert_eq!(at_far, (RelPos::Inside, RelPos::Inside));

    let past_far = classify_corner(flags_from_clip([0.0, 0.0, 1.0000001, 1.0]));
    assert_eq!(past_far, (RelPos::Behind, RelPos::Behind));

    let before_near = classify_corner(flags_from_clip([0.0, 0.0, -0.25, 1.0]));
    assert_eq!(before_near, (RelPos::Behind, RelPos::Behind));
}

#[test]
fn window_boundaries_are_exact() {
    // a == -1 and a == 1 exactly are still inside; strict overshoot
    // classifies Less/Greater. Same for the y axis, and the two axes
    // are independent.
    let r = classify_corner(flags_from_clip([-1.0, 1.0, 0.5, 1.0]));
    assert_eq!(r, (RelPos::Inside, RelPos::Inside));

    let r = classify_corner(flags_from_clip([-1.0000002, 2.5, 0.5, 1.0]));
    assert_eq!(r, (RelPos::Less, RelPos::Greater));

    let r = classify_corner(flags_from_clip([3.0, -8.0, 0.5, 2.0]));
    assert_eq!(r, (RelPos::Greater, RelPos::Less));

    // The divide matters: x == 3, w == 4 is inside the window.
    let r = classify_corner(flags_from_clip([3.0, 0.0, 1.0, 4.0]));
    assert_eq!(r, (RelPos::Inside, RelPos::Inside));
}

#[test]
fn all_greater_first_axis_discards() {
    let g = RelPos::Greater;
    let seconds = [RelPos::Less, RelPos::Inside, RelPos::Greater, RelPos::Behind];
    for s0 in seconds {
        for s1 in seconds {
            let v = reduce_corners((g, s0), (g, s1), (g, seconds[1]), (g, seconds[3]));
            assert_eq!(v, TestResult::Discard);
        }
    }
}

#[test]
fn reduce_table_cases() {
    let bb = (RelPos::Behind, RelPos::Behind);
    let ii = (RelPos::Inside, RelPos::Inside);
    let li = (RelPos::Less, RelPos::Inside);
    let gi = (RelPos::Greater, RelPos::Inside);

    // all fully behind
    assert_eq!(reduce_corners(bb, bb, bb, bb), TestResult::Discard);
    // all on the left of the viewport
    assert_eq!(reduce_corners(li, li, li, li), TestResult::Discard);
    // mixed sides straddle the viewport: refine
    assert_eq!(reduce_corners(li, gi, li, gi), TestResult::Refine);
    // fully inside still refines: leaves are driven to uniform size
    assert_eq!(reduce_corners(ii, ii, ii, ii), TestResult::Refine);
    // one corner visible among behinds: refine
    assert_eq!(reduce_corners(bb, ii, bb, bb), TestResult::Refine);
}

#[test]
fn height_map_samples() {
    let mut data = Vec::new();
    for j in 0..3u32 {
        for i in 0..4u32 {
            data.push((10 * j + i) as u8);
        }
    }
    let hm = HeightMap::new(4, 3, data);
    assert_eq!(hm.dimensions(), (4, 3));
    assert_eq!(hm.sample(0, 0), 0);
    assert_eq!(hm.sample(3, 0), 3);
    assert_eq!(hm.sample(0, 2), 20);
    assert_eq!(hm.sample(2, 1), 12);
}

fn flat_map(n: u32) -> HeightMap {
    HeightMap::new(n, n, vec![0u8; (n * n) as usize])
}

#[test]
fn los_ctor() {
    let los = Los::new(flat_map(9));
    assert_eq!(los.dimensions(), (9, 9));
    assert_eq!(los.get_patches().len(), 0);
}

#[test]
fn everything_behind_is_discarded() {
    let mut los = Los::new(flat_map(9));
    let key = [1u32; 16];
    los.update_view(4, &key, &|_x: u32, _h: u32, _z: u32| flags_from_clip([0.0, 0.0, 0.5, -1.0]));
    assert_eq!(los.get_patches().len(), 0);
}

#[test]
fn everything_visible_gives_uniform_leaves() {
    let mut los = Los::new(flat_map(9));
    let key = [2u32; 16];
    // every corner projects inside the window: the 8x8 root is
    // refined into four 4x4 leaves.
    los.update_view(4, &key, &|_x: u32, _h: u32, _z: u32| flags_from_clip([0.0, 0.0, 0.5, 1.0]));
    assert_eq!(los.get_patches().len(), 4);
    for p in los.get_patches() {
        assert_eq!(p.v, (4, 4));
    }
}

#[test]
fn update_view_memoises() {
    let mut los = Los::new(flat_map(9));
    let key = [3u32; 16];
    let calls = Cell::new(0u32);
    let proj = |_x: u32, _h: u32, _z: u32| {
        calls.set(calls.get() + 1);
        flags_from_clip([0.0, 0.0, 0.5, 1.0])
    };

    los.update_view(4, &key, &proj);
    let first = calls.get();
    assert!(first > 0);
    let patches = los.get_patches().clone();

    // same precision, same transform bits: no recomputation at all
    los.update_view(4, &key, &proj);
    assert_eq!(calls.get(), first);
    assert_eq!(los.get_patches(), &patches);

    // one changed bit invalidates the cache
    let mut other = key;
    other[7] ^= 1;
    los.update_view(4, &other, &proj);
    assert!(calls.get() > first);

    // a changed precision invalidates it too
    let before = calls.get();
    los.update_view(2, &other, &proj);
    assert!(calls.get() > before);
}

#[test]
fn perspective_culling_scene() {
    // A camera looking at the middle of a flat 65x65 terrain: the
    // computation is deterministic, every kept patch lies on the map,
    // and rerunning with the same transform changes nothing.
    let n: u32 = 65;
    let mut data = Vec::new();
    for j in 0..n {
        for i in 0..n {
            data.push(((i + j) % 40) as u8);
        }
    }
    let hm = HeightMap::new(n, n, data);
    let pvm = load_pvm(n, n);
    let key = matrix_key(&pvm);
    let proj = move |x: u32, h: u32, z: u32| {
        let v = Vector4::new(x as f32, h as f32, z as f32, 1.0);
        let pos = pvm * v;
        flags_from_clip([pos.x, pos.y, pos.z, pos.w])
    };

    let mut los = Los::new(hm);
    los.update_view(8, &key, &proj);
    let first = los.get_patches().clone();
    for p in &first {
        assert!(p.p.0 + p.v.0 <= n - 1);
        assert!(p.p.1 + p.v.1 <= n - 1);
    }

    let mut los2 = Los::new(HeightMap::new(
        n,
        n,
        (0..n * n).map(|k| (((k % n) + (k / n)) % 40) as u8).collect(),
    ));
    los2.update_view(8, &key, &proj);
    assert_eq!(&first, los2.get_patches());
}

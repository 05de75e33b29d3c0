//! Line-of-sight visibility over a height-mapped grid.
//!
//! A corner of a patch is lifted to the 3D point `(x, h, z)` — `h` the
//! elevation sample stored for that grid cell — and pushed through the
//! composed projection–view–model transform. The floating-point part of
//! that projection lives outside this crate; what re-enters is a
//! [`ClipFlags`] record of the comparisons that matter. From those
//! flags the corner is classified per screen axis ([`RelPos`]), the
//! four corner classes of a patch are reduced to one verdict, and the
//! [`Los`] controller runs the partition test over the whole map,
//! memoising the result keyed on the exact transform bits.

use crate::quadtree;
use crate::quadtree::Patch;
use crate::quadtree::Point;
use crate::quadtree::TestResult;
use vstd::prelude::*;

verus! {

/// Where a projected corner falls along one screen axis.
///
/// `Less` and `Greater` mean outside the viewport on that side of the
/// axis, `Inside` means within `[-1, 1]`, and `Behind` means the corner
/// does not project into the view volume at all (it is behind the eye,
/// or outside the near/far depth range).
#[derive(Copy, Clone, Debug, PartialEq, Eq, Structural)]
pub enum RelPos {
    Less,
    Inside,
    Greater,
    Behind,
}

/// The outcome of projecting one corner, reduced to the comparisons the
/// classifier reads. With `p` the projected homogeneous point,
/// `a = p.x / p.w`, `b = p.y / p.w` and `c = p.z / p.w`, the flags are:
///
/// * `behind_w`: `p.w <= 0` — the corner is behind the eye;
/// * `depth_low`: `c <= 0`, `depth_high`: `c > 1` — the depth falls
///   outside the near/far range (the boundaries themselves count as
///   `c == 0` out, `c == 1` in);
/// * `less_x`: `a < -1`, `greater_x`: `a > 1`, and `less_y`/`greater_y`
///   likewise for `b`.
///
/// A genuine projection never sets `less_x` and `greater_x` (or
/// `less_y` and `greater_y`) together; when `behind_w` holds the
/// remaining flags carry no meaning and are ignored.
#[derive(Copy, Clone, Debug, PartialEq, Eq, Structural)]
pub struct ClipFlags {
    pub behind_w: bool,
    pub depth_low: bool,
    pub depth_high: bool,
    pub less_x: bool,
    pub greater_x: bool,
    pub less_y: bool,
    pub greater_y: bool,
}

/// The classification of a corner with flags `f`: the guards are
/// checked in the fixed order `behind_w`, `depth_low`, `depth_high`,
/// and only then the per-axis window tests.
pub open spec fn spec_classify(f: ClipFlags) -> (RelPos, RelPos) {
    if f.behind_w {
        (RelPos::Behind, RelPos::Behind)
    } else if f.depth_low {
        (RelPos::Behind, RelPos::Behind)
    } else if f.depth_high {
        (RelPos::Behind, RelPos::Behind)
    } else {
        (
            if f.less_x {
                RelPos::Less
            } else if f.greater_x {
                RelPos::Greater
            } else {
                RelPos::Inside
            },
            if f.less_y {
                RelPos::Less
            } else if f.greater_y {
                RelPos::Greater
            } else {
                RelPos::Inside
            },
        )
    }
}

/// Classifies one projected corner along both screen axes.
///
/// A corner behind the eye (`behind_w`) classifies as
/// `(Behind, Behind)` whatever its other flags say, and so does one
/// whose depth leaves the near/far range.
pub fn classify_corner(f: ClipFlags) -> (r: (RelPos, RelPos))
    ensures
        r == spec_classify(f),
        f.behind_w ==> r == (RelPos::Behind, RelPos::Behind),
        !f.behind_w && (f.depth_low || f.depth_high) ==> r == (RelPos::Behind, RelPos::Behind),
{
    if f.behind_w {
        return (RelPos::Behind, RelPos::Behind);
    }
    if f.depth_low {
        return (RelPos::Behind, RelPos::Behind);
    }
    if f.depth_high {
        return (RelPos::Behind, RelPos::Behind);
    }
    let i = if f.less_x {
        RelPos::Less
    } else if f.greater_x {
        RelPos::Greater
    } else {
        RelPos::Inside
    };
    let j = if f.less_y {
        RelPos::Less
    } else if f.greater_y {
        RelPos::Greater
    } else {
        RelPos::Inside
    };
    (i, j)
}

/// The verdict for a patch whose corners classified as `a`, `b`, `c`,
/// `d`: discard when all four corners are fully behind, or all behind
/// along the second axis, or all outside the viewport on one same side
/// of one same axis; otherwise refine. No rule of the table yields
/// `Take`: fully visible patches are refined down to the minimum
/// extent so that all kept leaves share one size.
pub open spec fn spec_reduce(
    a: (RelPos, RelPos),
    b: (RelPos, RelPos),
    c: (RelPos, RelPos),
    d: (RelPos, RelPos),
) -> TestResult {
    let bb = (RelPos::Behind, RelPos::Behind);
    if a == bb && b == bb && c == bb && d == bb {
        TestResult::Discard
    } else if a.1 == RelPos::Behind && b.1 == RelPos::Behind && c.1 == RelPos::Behind && d.1
        == RelPos::Behind {
        TestResult::Discard
    } else if a.0 == RelPos::Less && b.0 == RelPos::Less && c.0 == RelPos::Less && d.0
        == RelPos::Less {
        TestResult::Discard
    } else if a.0 == RelPos::Greater && b.0 == RelPos::Greater && c.0 == RelPos::Greater && d.0
        == RelPos::Greater {
        TestResult::Discard
    } else if a.1 == RelPos::Less && b.1 == RelPos::Less && c.1 == RelPos::Less && d.1
        == RelPos::Less {
        TestResult::Discard
    } else if a.1 == RelPos::Greater && b.1 == RelPos::Greater && c.1 == RelPos::Greater && d.1
        == RelPos::Greater {
        TestResult::Discard
    } else {
        TestResult::Refine
    }
}

/// Reduces the four corner classifications of a patch to one verdict,
/// by the decision table of [`spec_reduce`].
///
/// A patch whose corners all classify `Greater` along the first axis is
/// always discarded, regardless of the second axis — and symmetrically
/// for the other all-one-side cases.
pub fn reduce_corners(
    a: (RelPos, RelPos),
    b: (RelPos, RelPos),
    c: (RelPos, RelPos),
    d: (RelPos, RelPos),
) -> (v: TestResult)
    ensures
        v == spec_reduce(a, b, c, d),
        a.0 == RelPos::Greater && b.0 == RelPos::Greater && c.0 == RelPos::Greater && d.0
            == RelPos::Greater ==> v == TestResult::Discard,
        a.0 == RelPos::Less && b.0 == RelPos::Less && c.0 == RelPos::Less && d.0 == RelPos::Less
            ==> v == TestResult::Discard,
{
    let fully_behind = matches!(a, (RelPos::Behind, RelPos::Behind)) && matches!(
        b,
        (RelPos::Behind, RelPos::Behind),
    ) && matches!(c, (RelPos::Behind, RelPos::Behind)) && matches!(
        d,
        (RelPos::Behind, RelPos::Behind),
    );
    if fully_behind {
        return TestResult::Discard;
    }
    if matches!(a.1, RelPos::Behind) && matches!(b.1, RelPos::Behind) && matches!(
        c.1,
        RelPos::Behind,
    ) && matches!(d.1, RelPos::Behind) {
        return TestResult::Discard;
    }
    if matches!(a.0, RelPos::Less) && matches!(b.0, RelPos::Less) && matches!(c.0, RelPos::Less)
        && matches!(d.0, RelPos::Less) {
        return TestResult::Discard;
    }
    if matches!(a.0, RelPos::Greater) && matches!(b.0, RelPos::Greater) && matches!(
        c.0,
        RelPos::Greater,
    ) && matches!(d.0, RelPos::Greater) {
        return TestResult::Discard;
    }
    if matches!(a.1, RelPos::Less) && matches!(b.1, RelPos::Less) && matches!(c.1, RelPos::Less)
        && matches!(d.1, RelPos::Less) {
        return TestResult::Discard;
    }
    if matches!(a.1, RelPos::Greater) && matches!(b.1, RelPos::Greater) && matches!(
        c.1,
        RelPos::Greater,
    ) && matches!(d.1, RelPos::Greater) {
        return TestResult::Discard;
    }
    TestResult::Refine
}

/// An owned snapshot of the terrain's elevation grid.
///
/// Samples are stored row-major: the cell `(i, j)` — column `i`, row
/// `j` — sits at index `j * width + i`. The snapshot is taken once,
/// when the map is built, so the visibility controller never aliases a
/// live, relocatable rendering resource. Whatever scaling or
/// quantisation the height-map format calls for is applied by whoever
/// builds the snapshot; this type hands samples back as stored.
pub struct HeightMap {
    data: Vec<u8>,
    width: u32,
    height: u32,
}

impl HeightMap {
    /// A well-formed map is non-empty in both directions and carries
    /// exactly one sample per cell.
    pub closed spec fn wf(self) -> bool {
        &&& 1 <= self.width
        &&& 1 <= self.height
        &&& self.data@.len() == self.width * self.height
    }

    /// The number of columns.
    pub closed spec fn spec_width(self) -> u32 {
        self.width
    }

    /// The number of rows.
    pub closed spec fn spec_height(self) -> u32 {
        self.height
    }

    /// The sample stored for cell `(i, j)`.
    pub closed spec fn spec_sample(self, i: int, j: int) -> u8 {
        self.data@[j * self.width + i]
    }

    /// Builds the snapshot from row-major samples: `data` holds
    /// `width * height` samples, cell `(i, j)` at `j * width + i`.
    pub fn new(width: u32, height: u32, data: Vec<u8>) -> (r: HeightMap)
        requires
            1 <= width,
            1 <= height,
            data@.len() == width * height,
        ensures
            r.wf(),
            r.spec_width() == width,
            r.spec_height() == height,
            forall|i: int, j: int|
                0 <= i < width && 0 <= j < height ==> r.spec_sample(i, j) == data@[j * width + i],
    {
        HeightMap { data, width, height }
    }

    /// The dimensions of the grid, columns then rows.
    pub fn dimensions(&self) -> (r: (u32, u32))
        ensures
            r == (self.spec_width(), self.spec_height()),
    {
        (self.width, self.height)
    }

    /// Reads the sample of cell `(i, j)`.
    pub fn sample(&self, i: u32, j: u32) -> (r: u8)
        requires
            self.wf(),
            i < self.spec_width(),
            j < self.spec_height(),
        ensures
            r == self.spec_sample(i as int, j as int),
    {
        // reading the length pins it into usize range, which bounds the
        // row-major index below
        let _n = self.data.len();
        proof {
            assert(j * self.width + i < self.width * self.height) by (nonlinear_arith)
                requires
                    i < self.width,
                    j < self.height,
            ;
        }
        let idx: usize = (j as usize) * (self.width as usize) + (i as usize);
        self.data[idx]
    }
}

/// The sixteen entries of the projection–view–model transform, each as
/// an opaque bit pattern. The controller never interprets the entries:
/// it only compares keys bit for bit, which is exactly the equality the
/// memoisation is specified to use.
pub type TransformKey = [u32; 16];

/// The classification of corner `c` of the grid under the projection
/// `g`: the corner's elevation sample is looked up in `hm` and the
/// resulting flags are classified per axis.
pub open spec fn spec_corner_class(
    hm: HeightMap,
    g: spec_fn(u32, u32, u32) -> ClipFlags,
    c: Point,
) -> (RelPos, RelPos) {
    spec_classify(g(c.0, hm.spec_sample(c.0 as int, c.1 as int) as u32, c.1))
}

/// The verdict for patch `p`: classify its four corners in order and
/// reduce them by the decision table.
pub open spec fn spec_patch_verdict(
    hm: HeightMap,
    g: spec_fn(u32, u32, u32) -> ClipFlags,
    p: Patch,
) -> TestResult {
    let cs = quadtree::spec_corners(p);
    spec_reduce(
        spec_corner_class(hm, g, cs.0),
        spec_corner_class(hm, g, cs.1),
        spec_corner_class(hm, g, cs.2),
        spec_corner_class(hm, g, cs.3),
    )
}

/// The patch classifier induced by a height map and a projection.
pub open spec fn spec_map_classifier(hm: HeightMap, g: spec_fn(u32, u32, u32) -> ClipFlags) -> spec_fn(
    Patch,
) -> TestResult {
    |p: Patch| spec_patch_verdict(hm, g, p)
}

/// The root patch spanning the whole grid of `hm`: the far corner of
/// the root must itself be a valid grid cell, so the extent stops one
/// short of the dimensions.
pub open spec fn spec_root(hm: HeightMap) -> Patch {
    Patch {
        p: (0u32, 0u32),
        v: (((hm.spec_width() - 1) as u32), ((hm.spec_height() - 1) as u32)),
    }
}

/// The patches the controller computes for one view: the partition
/// test over the root patch, with the classifier induced by the height
/// map and the projection.
pub open spec fn spec_visible(
    precision: u32,
    hm: HeightMap,
    g: spec_fn(u32, u32, u32) -> ClipFlags,
) -> Seq<Patch> {
    quadtree::spec_test(precision, spec_root(hm), spec_map_classifier(hm, g))
}

/// The projector accepts every corner triple.
pub open spec fn projector_callable<G: Fn(u32, u32, u32) -> ClipFlags>(pr: G) -> bool {
    forall|x: u32, h: u32, z: u32| #[trigger] call_requires(pr, (x, h, z))
}

/// Every flag record the projector can return agrees with the
/// mathematical projection `g`.
pub open spec fn projector_pins<G: Fn(u32, u32, u32) -> ClipFlags>(
    pr: G,
    g: spec_fn(u32, u32, u32) -> ClipFlags,
) -> bool {
    forall|x: u32, h: u32, z: u32, r: ClipFlags|
        #[trigger] call_ensures(pr, (x, h, z), r) ==> r == g(x, h, z)
}

/// The four flag records `fs` are possible outputs of the projector
/// `pr` on the four corners of `q`, in corner order, with elevations
/// looked up in `hm`.
pub open spec fn corner_flags_ok<G: Fn(u32, u32, u32) -> ClipFlags>(
    pr: &G,
    hm: HeightMap,
    q: Patch,
    fs: (ClipFlags, ClipFlags, ClipFlags, ClipFlags),
) -> bool {
    let cs = quadtree::spec_corners(q);
    &&& call_ensures(*pr, (cs.0.0, hm.spec_sample(cs.0.0 as int, cs.0.1 as int) as u32, cs.0.1), fs.0)
    &&& call_ensures(*pr, (cs.1.0, hm.spec_sample(cs.1.0 as int, cs.1.1 as int) as u32, cs.1.1), fs.1)
    &&& call_ensures(*pr, (cs.2.0, hm.spec_sample(cs.2.0 as int, cs.2.1 as int) as u32, cs.2.1), fs.2)
    &&& call_ensures(*pr, (cs.3.0, hm.spec_sample(cs.3.0 as int, cs.3.1 as int) as u32, cs.3.1), fs.3)
}

fn keys_equal(a: &TransformKey, b: &TransformKey) -> (r: bool)
    ensures
        r <==> a@ == b@,
{
    let mut k: usize = 0;
    while k < 16
        invariant
            0 <= k <= 16,
            forall|t: int| 0 <= t < k ==> a@[t] == b@[t],
        decreases 16 - k,
    {
        if a[k] != b[k] {
            return false;
        }
        k += 1;
    }
    proof {
        assert(a@ =~= b@);
    }
    true
}

/// Line-of-sight tracker: owns a snapshot of the height map, remembers
/// the precision and transform of the last computation, and hands out
/// the set of patches that are, at worst, partially visible.
pub struct Los {
    patches: Vec<Patch>,
    height_map: HeightMap,
    last_matrix: TransformKey,
    last_precision: u32,
    fresh: bool,
}

impl Los {
    /// The owned height map is well formed.
    pub closed spec fn wf(self) -> bool {
        self.height_map.wf()
    }

    /// The cached patches.
    pub closed spec fn spec_patches(self) -> Seq<Patch> {
        self.patches@
    }

    /// The owned height-map snapshot.
    pub closed spec fn spec_height_map(self) -> HeightMap {
        self.height_map
    }

    /// The transform key of the last computation.
    pub closed spec fn spec_key(self) -> Seq<u32> {
        self.last_matrix@
    }

    /// The precision of the last computation.
    pub closed spec fn spec_precision(self) -> u32 {
        self.last_precision
    }

    /// Whether the cache holds a result for the stored key and
    /// precision. A fresh tracker starts stale.
    pub closed spec fn spec_fresh(self) -> bool {
        self.fresh
    }

    /// Builds a tracker over `height_map`. The tracker owns the
    /// snapshot and starts stale, with no patches cached.
    pub fn new(height_map: HeightMap) -> (r: Los)
        requires
            height_map.wf(),
        ensures
            r.wf(),
            r.spec_height_map() == height_map,
            r.spec_patches() == Seq::<Patch>::empty(),
            !r.spec_fresh(),
    {
        let r = Los {
            patches: Vec::new(),
            height_map,
            last_matrix: [0u32;16],
            last_precision: 0,
            fresh: false,
        };
        proof {
            assert(r.patches@ =~= Seq::<Patch>::empty());
        }
        r
    }

    /// The patches computed by the last [`Los::update_view`], or the
    /// empty list if none has completed yet. A pure read.
    pub fn get_patches(&self) -> (r: &Vec<Patch>)
        ensures
            r@ == self.spec_patches(),
    {
        &self.patches
    }

    /// The dimensions of the owned height map, columns then rows.
    pub fn dimensions(&self) -> (r: (u32, u32))
        ensures
            r == (self.spec_height_map().spec_width(), self.spec_height_map().spec_height()),
    {
        self.height_map.dimensions()
    }

    /// Recomputes the set of potentially visible patches, or returns at
    /// once when `precision` and `pvm` both equal the stored values bit
    /// for bit — in that case the tracker is left exactly as it was and
    /// the projector is never consulted.
    ///
    /// `pvm` carries the transform entries as opaque bit patterns.
    /// `project` is the corner projector: handed a corner's column, its
    /// elevation sample and its row, it returns the [`ClipFlags`] of
    /// the corner projected by the transform that `pvm` stands for.
    /// Whenever the projector agrees with a mathematical projection
    /// `g`, the cached patches come out as exactly
    /// [`spec_visible`]`(precision, height_map, g)`.
    pub fn update_view<G: Fn(u32, u32, u32) -> ClipFlags>(
        &mut self,
        precision: u32,
        pvm: &TransformKey,
        project: &G,
    )
        requires
            old(self).wf(),
            1 <= precision,
            projector_callable(*project),
        ensures
            final(self).wf(),
            final(self).spec_height_map() == old(self).spec_height_map(),
            (old(self).spec_fresh() && old(self).spec_precision() == precision && old(
                self,
            ).spec_key() == pvm@) ==> *final(self) == *old(self),
            !(old(self).spec_fresh() && old(self).spec_precision() == precision && old(
                self,
            ).spec_key() == pvm@) ==> {
                &&& final(self).spec_fresh()
                &&& final(self).spec_precision() == precision
                &&& final(self).spec_key() == pvm@
                &&& quadtree::all_within(
                    final(self).spec_patches(),
                    spec_root(old(self).spec_height_map()),
                )
                &&& forall|g: spec_fn(u32, u32, u32) -> ClipFlags|
                    projector_pins(*project, g) ==> final(self).spec_patches()
                        == #[trigger] spec_visible(precision, old(self).spec_height_map(), g)
            },
    {
        if self.fresh && self.last_precision == precision && keys_equal(&self.last_matrix, pvm) {
            return;
        }
        let hm0: Ghost<HeightMap> = Ghost(self.height_map);
        let dims = self.height_map.dimensions();
        let root = Patch::new((0, 0), (dims.0 - 1, dims.1 - 1));
        let hm = &self.height_map;
        proof {
            assert(root == spec_root(hm0@));
        }
        let cls = |q: Patch| -> (v: TestResult)
            requires
                quadtree::spec_within(q, spec_root(hm0@)),
            ensures
                exists|fs: (ClipFlags, ClipFlags, ClipFlags, ClipFlags)|
                    #[trigger] corner_flags_ok(project, hm0@, q, fs) && v == spec_reduce(
                        spec_classify(fs.0),
                        spec_classify(fs.1),
                        spec_classify(fs.2),
                        spec_classify(fs.3),
                    ),
            {
                let cs = q.get_corners();
                let ha = hm.sample(cs.0.0, cs.0.1);
                let hb = hm.sample(cs.1.0, cs.1.1);
                let hc = hm.sample(cs.2.0, cs.2.1);
                let hd = hm.sample(cs.3.0, cs.3.1);
                let fa = project(cs.0.0, ha as u32, cs.0.1);
                let fb = project(cs.1.0, hb as u32, cs.1.1);
                let fc = project(cs.2.0, hc as u32, cs.2.1);
                let fd = project(cs.3.0, hd as u32, cs.3.1);
                let ra = classify_corner(fa);
                let rb = classify_corner(fb);
                let rc = classify_corner(fc);
                let rd = classify_corner(fd);
                let v = reduce_corners(ra, rb, rc, rd);
                proof {
                    assert(corner_flags_ok(project, hm0@, q, (fa, fb, fc, fd)));
                    assert(v == spec_reduce(
                        spec_classify(fa),
                        spec_classify(fb),
                        spec_classify(fc),
                        spec_classify(fd),
                    ));
                }
                v
            };
        proof {
            assert forall|q: Patch| quadtree::spec_within(q, root) implies #[trigger] call_requires(
                cls,
                (q,),
            ) by {}
        }
        let result = quadtree::test(precision, root, &cls);
        let ghost s = result@;
        self.patches = result;
        self.last_matrix = *pvm;
        self.last_precision = precision;
        self.fresh = true;
        proof {
            assert(self.last_matrix@ == pvm@);
            assert forall|g: spec_fn(u32, u32, u32) -> ClipFlags|
                projector_pins(*project, g) implies self.patches@ == #[trigger] spec_visible(
                precision,
                hm0@,
                g,
            ) by {
                let m = spec_map_classifier(hm0@, g);
                assert forall|q: Patch, r: TestResult|
                    quadtree::spec_within(q, root) && #[trigger] call_ensures(
                        cls,
                        (q,),
                        r,
                    ) implies r == m(q) by {
                    let fs = choose|fs: (ClipFlags, ClipFlags, ClipFlags, ClipFlags)|
                        #[trigger] corner_flags_ok(project, hm0@, q, fs) && r == spec_reduce(
                            spec_classify(fs.0),
                            spec_classify(fs.1),
                            spec_classify(fs.2),
                            spec_classify(fs.3),
                        );
                    let cs = quadtree::spec_corners(q);
                    assert(fs.0 == g(
                        cs.0.0,
                        hm0@.spec_sample(cs.0.0 as int, cs.0.1 as int) as u32,
                        cs.0.1,
                    ));
                    assert(fs.1 == g(
                        cs.1.0,
                        hm0@.spec_sample(cs.1.0 as int, cs.1.1 as int) as u32,
                        cs.1.1,
                    ));
                    assert(fs.2 == g(
                        cs.2.0,
                        hm0@.spec_sample(cs.2.0 as int, cs.2.1 as int) as u32,
                        cs.2.1,
                    ));
                    assert(fs.3 == g(
                        cs.3.0,
                        hm0@.spec_sample(cs.3.0 as int, cs.3.1 as int) as u32,
                        cs.3.1,
                    ));
                    assert(r == spec_patch_verdict(hm0@, g, q));
                }
                assert(quadtree::classifier_pins(cls, root, m));
                assert(s == quadtree::spec_test(precision, root, m));
            }
        }
    }
}

} // verus!

//! Virtual kd-tree over a discrete grid.
//!
//! A [`Patch`] is an axis-aligned rectangle given by an origin and an
//! extent. The partition test engine ([`test`]) splits a root patch
//! alternately along its vertical and horizontal axes, asks a caller
//! supplied classifier for a verdict on each half, and collects the
//! leaf patches that survive. The tree is never stored: space is
//! repartitioned from the root on every call.

use vstd::prelude::*;

verus! {

/// A grid coordinate: column then row.
pub type Point = (u32, u32);

/// A grid extent: width then height.
pub type Vector = (u32, u32);

/// An axis-aligned rectangular region of the grid: origin `p`, extent `v`.
///
/// The corners are laid out as below; `a` is the origin and `d` is
/// `p + v`:
///
/// ```text
///   (b)                 p + v (d)
///    x-------------------x
///    |         |         |
///    |---------|---------|
///    |         |         |
///    x-------------------x
///  p  (a)                (c)
/// ```
#[derive(Copy, Clone, Debug, PartialEq, Eq)]
pub struct Patch {
    pub p: Point,
    pub v: Vector,
}

impl Patch {
    /// Builds the patch with origin `p` and extent `v`.
    pub fn new(p: Point, v: Vector) -> (r: Patch)
        ensures
            r == (Patch { p, v }),
    {
        Patch { p, v }
    }

    /// Splits the patch along its height into a lower and an upper half.
    ///
    /// The two halves partition the patch exactly: both keep the full
    /// width, their heights sum to the whole height, and the upper
    /// half starts where the lower half ends, so there is no gap and no
    /// overlap.
    pub fn split_v(&self) -> (r: (Patch, Patch))
        requires
            self.p.1 + self.v.1 <= u32::MAX,
        ensures
            r == spec_split_v(*self),
            r.0.v.0 == self.v.0 && r.1.v.0 == self.v.0,
            r.0.v.1 + r.1.v.1 == self.v.1,
            r.0.p == self.p,
            r.1.p.0 == self.p.0 && r.1.p.1 == self.p.1 + r.0.v.1,
    {
        let half = self.v.1 / 2;
        (
            Patch { p: self.p, v: (self.v.0, half) },
            Patch { p: (self.p.0, self.p.1 + half), v: (self.v.0, self.v.1 - half) },
        )
    }

    /// Splits the patch along its width into a left and a right half,
    /// the structural dual of [`Patch::split_v`].
    pub fn split_h(&self) -> (r: (Patch, Patch))
        requires
            self.p.0 + self.v.0 <= u32::MAX,
        ensures
            r == spec_split_h(*self),
            r.0.v.1 == self.v.1 && r.1.v.1 == self.v.1,
            r.0.v.0 + r.1.v.0 == self.v.0,
            r.0.p == self.p,
            r.1.p.1 == self.p.1 && r.1.p.0 == self.p.0 + r.0.v.0,
    {
        let half = self.v.0 / 2;
        (
            Patch { p: self.p, v: (half, self.v.1) },
            Patch { p: (self.p.0 + half, self.p.1), v: (self.v.0 - half, self.v.1) },
        )
    }

    /// Returns the four corners in the fixed order `(a, b, c, d)`:
    /// origin, origin shifted by the height, origin shifted by the
    /// width, and the far corner `p + v`. Downstream classification
    /// indexes corners positionally, so the order is part of the
    /// contract.
    pub fn get_corners(&self) -> (r: (Point, Point, Point, Point))
        requires
            self.p.0 + self.v.0 <= u32::MAX,
            self.p.1 + self.v.1 <= u32::MAX,
        ensures
            r == spec_corners(*self),
    {
        (
            self.p,
            (self.p.0, self.p.1 + self.v.1),
            (self.p.0 + self.v.0, self.p.1),
            (self.p.0 + self.v.0, self.p.1 + self.v.1),
        )
    }
}

/// The lower and upper halves of `x` under the canonical vertical split.
pub open spec fn spec_split_v(x: Patch) -> (Patch, Patch) {
    let half = x.v.1 / 2;
    (
        Patch { p: x.p, v: (x.v.0, half) },
        Patch { p: (x.p.0, (x.p.1 + half) as u32), v: (x.v.0, (x.v.1 - half) as u32) },
    )
}

/// The left and right halves of `x` under the canonical horizontal split.
pub open spec fn spec_split_h(x: Patch) -> (Patch, Patch) {
    let half = x.v.0 / 2;
    (
        Patch { p: x.p, v: (half, x.v.1) },
        Patch { p: ((x.p.0 + half) as u32, x.p.1), v: ((x.v.0 - half) as u32, x.v.1) },
    )
}

/// The corners of `x` in the order `(a, b, c, d)`.
pub open spec fn spec_corners(x: Patch) -> (Point, Point, Point, Point) {
    (
        x.p,
        (x.p.0, (x.p.1 + x.v.1) as u32),
        ((x.p.0 + x.v.0) as u32, x.p.1),
        ((x.p.0 + x.v.0) as u32, (x.p.1 + x.v.1) as u32),
    )
}


/// The verdict a classifier returns for one half of a split patch.
///
/// `Refine` asks the engine to keep subdividing, `Discard` prunes the
/// half entirely, and `Take` accepts it whole. The stock classifiers
/// never produce `Take` — every visible region is driven down to the
/// minimum extent so that all returned leaves share one size — but the
/// engine honours it for classifiers that opt into early acceptance.
#[derive(Copy, Clone, Debug, PartialEq, Eq)]
pub enum TestResult {
    Refine,
    Discard,
    Take,
}

/// `q` lies inside the box of `x`.
pub open spec fn spec_within(q: Patch, x: Patch) -> bool {
    &&& x.p.0 <= q.p.0
    &&& x.p.1 <= q.p.1
    &&& q.p.0 + q.v.0 <= x.p.0 + x.v.0
    &&& q.p.1 + q.v.1 <= x.p.1 + x.v.1
}

/// The classifier `f` accepts every patch inside `x`.
pub open spec fn classifier_callable<F: Fn(Patch) -> TestResult>(f: F, x: Patch) -> bool {
    forall|q: Patch| spec_within(q, x) ==> #[trigger] call_requires(f, (q,))
}

/// Inside `x`, every result the classifier `f` can return agrees with
/// the mathematical classifier `m`.
pub open spec fn classifier_pins<F: Fn(Patch) -> TestResult>(
    f: F,
    x: Patch,
    m: spec_fn(Patch) -> TestResult,
) -> bool {
    forall|q: Patch, r: TestResult|
        spec_within(q, x) && #[trigger] call_ensures(f, (q,), r) ==> r == m(q)
}

/// The patches kept by a horizontal-level step: split `x` along its
/// height, take the verdict of `m` on both halves, and combine. The
/// `bc == 0` branch never arises (the engine demands `bc >= 1`); it
/// only keeps the recursion well founded.
pub open spec fn spec_rec_h(bc: u32, x: Patch, m: spec_fn(Patch) -> TestResult) -> Seq<Patch>
    decreases x.v.0 + x.v.1, 1int,
{
    if x.v.1 <= bc {
        seq![x]
    } else if bc == 0 {
        Seq::empty()
    } else {
        let halves = spec_split_v(x);
        let down = halves.0;
        let up = halves.1;
        match (m(down), m(up)) {
            (TestResult::Take, TestResult::Take) => seq![x],
            (TestResult::Take, TestResult::Refine) => spec_rec_v(bc, up, m).push(down),
            (TestResult::Refine, TestResult::Take) => spec_rec_v(bc, down, m).push(up),
            (TestResult::Refine, TestResult::Refine) => spec_rec_v(bc, down, m) + spec_rec_v(
                bc,
                up,
                m,
            ),
            (TestResult::Refine, TestResult::Discard) => spec_rec_v(bc, down, m),
            (TestResult::Discard, TestResult::Refine) => spec_rec_v(bc, up, m),
            _ => Seq::empty(),
        }
    }
}

/// The vertical-level dual of [`spec_rec_h`]: split along the width.
pub open spec fn spec_rec_v(bc: u32, x: Patch, m: spec_fn(Patch) -> TestResult) -> Seq<Patch>
    decreases x.v.0 + x.v.1, 0int,
{
    if x.v.0 <= bc {
        seq![x]
    } else if bc == 0 {
        Seq::empty()
    } else {
        let halves = spec_split_h(x);
        let left = halves.0;
        let right = halves.1;
        match (m(left), m(right)) {
            (TestResult::Take, TestResult::Take) => seq![x],
            (TestResult::Take, TestResult::Refine) => spec_rec_h(bc, right, m).push(left),
            (TestResult::Refine, TestResult::Take) => spec_rec_h(bc, left, m).push(right),
            (TestResult::Refine, TestResult::Refine) => spec_rec_h(bc, left, m) + spec_rec_h(
                bc,
                right,
                m,
            ),
            (TestResult::Refine, TestResult::Discard) => spec_rec_h(bc, left, m),
            (TestResult::Discard, TestResult::Refine) => spec_rec_h(bc, right, m),
            _ => Seq::empty(),
        }
    }
}

/// The patches the partition test keeps for root `x`, bound `bc` and
/// mathematical classifier `m`. The first split is along the height.
pub open spec fn spec_test(bc: u32, x: Patch, m: spec_fn(Patch) -> TestResult) -> Seq<Patch> {
    spec_rec_h(bc, x, m)
}

/// Every patch of `s` lies inside the box of `x`.
pub open spec fn all_within(s: Seq<Patch>, x: Patch) -> bool {
    forall|i: int| 0 <= i < s.len() ==> spec_within(#[trigger] s[i], x)
}

proof fn lemma_classifier_callable_within<F: Fn(Patch) -> TestResult>(f: F, x: Patch, sub: Patch)
    requires
        classifier_callable(f, x),
        spec_within(sub, x),
    ensures
        classifier_callable(f, sub),
{
    assert forall|q: Patch| spec_within(q, sub) implies #[trigger] call_requires(f, (q,)) by {
        assert(spec_within(q, x));
    }
}

proof fn lemma_classifier_pins_within<F: Fn(Patch) -> TestResult>(
    f: F,
    x: Patch,
    sub: Patch,
    m: spec_fn(Patch) -> TestResult,
)
    requires
        classifier_pins(f, x, m),
        spec_within(sub, x),
    ensures
        classifier_pins(f, sub, m),
{
    assert forall|q: Patch, r: TestResult|
        spec_within(q, sub) && #[trigger] call_ensures(f, (q,), r) implies r == m(q) by {
        assert(spec_within(q, x));
    }
}

fn add_elem<T>(v: Vec<T>, elem: T) -> (res: Vec<T>)
    ensures
        res@ == v@.push(elem),
{
    let mut res = v;
    res.push(elem);
    res
}

fn union<T>(v1: Vec<T>, v2: Vec<T>) -> (res: Vec<T>)
    ensures
        res@ == v1@ + v2@,
{
    let mut res = v1;
    let mut other = v2;
    res.append(&mut other);
    res
}

/// Horizontal level of the recursion: test the two vertical halves of
/// `x` and recurse, on the opposite axis, into the halves that asked
/// for refinement. Whenever the classifier agrees with a mathematical
/// classifier `m` inside `x`, the result is exactly [`spec_rec_h`].
fn rec_h<F: Fn(Patch) -> TestResult>(bc: u32, x: Patch, f: &F) -> (res: Vec<Patch>)
    requires
        1 <= bc,
        x.p.0 + x.v.0 <= u32::MAX,
        x.p.1 + x.v.1 <= u32::MAX,
        classifier_callable(*f, x),
    ensures
        all_within(res@, x),
        forall|m: spec_fn(Patch) -> TestResult|
            classifier_pins(*f, x, m) ==> res@ == #[trigger] spec_rec_h(bc, x, m),
    decreases x.v.0 + x.v.1,
{
    if x.v.1 <= bc {
        let mut res = Vec::new();
        res.push(x);
        proof {
            assert(res@ =~= seq![x]);
        }
        return res;
    }
    let halves = x.split_v();
    let down = halves.0;
    let up = halves.1;
    proof {
        assert(spec_within(down, x));
        assert(spec_within(up, x));
    }
    let a = f(down);
    let b = f(up);
    match (a, b) {
        (TestResult::Take, TestResult::Take) => {
            let mut res = Vec::new();
            res.push(x);
            proof {
                assert(res@ =~= seq![x]);
                assert forall|m: spec_fn(Patch) -> TestResult|
                    classifier_pins(*f, x, m) implies res@ == #[trigger] spec_rec_h(
                    bc,
                    x,
                    m,
                ) by {
                    assert(a == m(down));
                    assert(b == m(up));
                }
            }
            res
        },
        (TestResult::Take, TestResult::Refine) => {
            proof {
                lemma_classifier_callable_within(*f, x, up);
            }
            let r1 = rec_v(bc, up, f);
            let ghost s1 = r1@;
            let res = add_elem(r1, down);
            proof {
                assert forall|m: spec_fn(Patch) -> TestResult|
                    classifier_pins(*f, x, m) implies res@ == #[trigger] spec_rec_h(
                    bc,
                    x,
                    m,
                ) by {
                    lemma_classifier_pins_within(*f, x, up, m);
                    assert(a == m(down));
                    assert(b == m(up));
                    assert(s1 == spec_rec_v(bc, up, m));
                }
            }
            res
        },
        (TestResult::Refine, TestResult::Take) => {
            proof {
                lemma_classifier_callable_within(*f, x, down);
            }
            let r1 = rec_v(bc, down, f);
            let ghost s1 = r1@;
            let res = add_elem(r1, up);
            proof {
                assert forall|m: spec_fn(Patch) -> TestResult|
                    classifier_pins(*f, x, m) implies res@ == #[trigger] spec_rec_h(
                    bc,
                    x,
                    m,
                ) by {
                    lemma_classifier_pins_within(*f, x, down, m);
                    assert(a == m(down));
                    assert(b == m(up));
                    assert(s1 == spec_rec_v(bc, down, m));
                }
            }
            res
        },
        (TestResult::Refine, TestResult::Refine) => {
            proof {
                lemma_classifier_callable_within(*f, x, down);
                lemma_classifier_callable_within(*f, x, up);
            }
            let r1 = rec_v(bc, down, f);
            let r2 = rec_v(bc, up, f);
            let ghost s1 = r1@;
            let ghost s2 = r2@;
            let res = union(r1, r2);
            proof {
                assert forall|i: int| 0 <= i < res@.len() implies spec_within(
                    #[trigger] res@[i],
                    x,
                ) by {
                    if i < s1.len() {
                        assert(spec_within(s1[i], down));
                    } else {
                        assert(spec_within(s2[i - s1.len()], up));
                    }
                }
                assert forall|m: spec_fn(Patch) -> TestResult|
                    classifier_pins(*f, x, m) implies res@ == #[trigger] spec_rec_h(
                    bc,
                    x,
                    m,
                ) by {
                    lemma_classifier_pins_within(*f, x, down, m);
                    lemma_classifier_pins_within(*f, x, up, m);
                    assert(a == m(down));
                    assert(b == m(up));
                    assert(s1 == spec_rec_v(bc, down, m));
                    assert(s2 == spec_rec_v(bc, up, m));
                }
            }
            res
        },
        (TestResult::Refine, TestResult::Discard) => {
            proof {
                lemma_classifier_callable_within(*f, x, down);
            }
            let res = rec_v(bc, down, f);
            proof {
                assert forall|m: spec_fn(Patch) -> TestResult|
                    classifier_pins(*f, x, m) implies res@ == #[trigger] spec_rec_h(
                    bc,
                    x,
                    m,
                ) by {
                    lemma_classifier_pins_within(*f, x, down, m);
                    assert(a == m(down));
                    assert(b == m(up));
                    assert(res@ == spec_rec_v(bc, down, m));
                }
            }
            res
        },
        (TestResult::Discard, TestResult::Refine) => {
            proof {
                lemma_classifier_callable_within(*f, x, up);
            }
            let res = rec_v(bc, up, f);
            proof {
                assert forall|m: spec_fn(Patch) -> TestResult|
                    classifier_pins(*f, x, m) implies res@ == #[trigger] spec_rec_h(
                    bc,
                    x,
                    m,
                ) by {
                    lemma_classifier_pins_within(*f, x, up, m);
                    assert(a == m(down));
                    assert(b == m(up));
                    assert(res@ == spec_rec_v(bc, up, m));
                }
            }
            res
        },
        _ => {
            let res = Vec::new();
            proof {
                assert forall|m: spec_fn(Patch) -> TestResult|
                    classifier_pins(*f, x, m) implies res@ == #[trigger] spec_rec_h(
                    bc,
                    x,
                    m,
                ) by {
                    assert(a == m(down));
                    assert(b == m(up));
                }
            }
            res
        },
    }
}

/// Vertical level of the recursion, the dual of [`rec_h`]: test the two
/// horizontal halves of `x` and recurse into the refined ones.
fn rec_v<F: Fn(Patch) -> TestResult>(bc: u32, x: Patch, f: &F) -> (res: Vec<Patch>)
    requires
        1 <= bc,
        x.p.0 + x.v.0 <= u32::MAX,
        x.p.1 + x.v.1 <= u32::MAX,
        classifier_callable(*f, x),
    ensures
        all_within(res@, x),
        forall|m: spec_fn(Patch) -> TestResult|
            classifier_pins(*f, x, m) ==> res@ == #[trigger] spec_rec_v(bc, x, m),
    decreases x.v.0 + x.v.1,
{
    if x.v.0 <= bc {
        let mut res = Vec::new();
        res.push(x);
        proof {
            assert(res@ =~= seq![x]);
        }
        return res;
    }
    let halves = x.split_h();
    let left = halves.0;
    let right = halves.1;
    proof {
        assert(spec_within(left, x));
        assert(spec_within(right, x));
    }
    let a = f(left);
    let b = f(right);
    match (a, b) {
        (TestResult::Take, TestResult::Take) => {
            let mut res = Vec::new();
            res.push(x);
            proof {
                assert(res@ =~= seq![x]);
                assert forall|m: spec_fn(Patch) -> TestResult|
                    classifier_pins(*f, x, m) implies res@ == #[trigger] spec_rec_v(
                    bc,
                    x,
                    m,
                ) by {
                    assert(a == m(left));
                    assert(b == m(right));
                }
            }
            res
        },
        (TestResult::Take, TestResult::Refine) => {
            proof {
                lemma_classifier_callable_within(*f, x, right);
            }
            let r1 = rec_h(bc, right, f);
            let ghost s1 = r1@;
            let res = add_elem(r1, left);
            proof {
                assert forall|m: spec_fn(Patch) -> TestResult|
                    classifier_pins(*f, x, m) implies res@ == #[trigger] spec_rec_v(
                    bc,
                    x,
                    m,
                ) by {
                    lemma_classifier_pins_within(*f, x, right, m);
                    assert(a == m(left));
                    assert(b == m(right));
                    assert(s1 == spec_rec_h(bc, right, m));
                }
            }
            res
        },
        (TestResult::Refine, TestResult::Take) => {
            proof {
                lemma_classifier_callable_within(*f, x, left);
            }
            let r1 = rec_h(bc, left, f);
            let ghost s1 = r1@;
            let res = add_elem(r1, right);
            proof {
                assert forall|m: spec_fn(Patch) -> TestResult|
                    classifier_pins(*f, x, m) implies res@ == #[trigger] spec_rec_v(
                    bc,
                    x,
                    m,
                ) by {
                    lemma_classifier_pins_within(*f, x, left, m);
                    assert(a == m(left));
                    assert(b == m(right));
                    assert(s1 == spec_rec_h(bc, left, m));
                }
            }
            res
        },
        (TestResult::Refine, TestResult::Refine) => {
            proof {
                lemma_classifier_callable_within(*f, x, left);
                lemma_classifier_callable_within(*f, x, right);
            }
            let r1 = rec_h(bc, left, f);
            let r2 = rec_h(bc, right, f);
            let ghost s1 = r1@;
            let ghost s2 = r2@;
            let res = union(r1, r2);
            proof {
                assert forall|i: int| 0 <= i < res@.len() implies spec_within(
                    #[trigger] res@[i],
                    x,
                ) by {
                    if i < s1.len() {
                        assert(spec_within(s1[i], left));
                    } else {
                        assert(spec_within(s2[i - s1.len()], right));
                    }
                }
                assert forall|m: spec_fn(Patch) -> TestResult|
                    classifier_pins(*f, x, m) implies res@ == #[trigger] spec_rec_v(
                    bc,
                    x,
                    m,
                ) by {
                    lemma_classifier_pins_within(*f, x, left, m);
                    lemma_classifier_pins_within(*f, x, right, m);
                    assert(a == m(left));
                    assert(b == m(right));
                    assert(s1 == spec_rec_h(bc, left, m));
                    assert(s2 == spec_rec_h(bc, right, m));
                }
            }
            res
        },
        (TestResult::Refine, TestResult::Discard) => {
            proof {
                lemma_classifier_callable_within(*f, x, left);
            }
            let res = rec_h(bc, left, f);
            proof {
                assert forall|m: spec_fn(Patch) -> TestResult|
                    classifier_pins(*f, x, m) implies res@ == #[trigger] spec_rec_v(
                    bc,
                    x,
                    m,
                ) by {
                    lemma_classifier_pins_within(*f, x, left, m);
                    assert(a == m(left));
                    assert(b == m(right));
                    assert(res@ == spec_rec_h(bc, left, m));
                }
            }
            res
        },
        (TestResult::Discard, TestResult::Refine) => {
            proof {
                lemma_classifier_callable_within(*f, x, right);
            }
            let res = rec_h(bc, right, f);
            proof {
                assert forall|m: spec_fn(Patch) -> TestResult|
                    classifier_pins(*f, x, m) implies res@ == #[trigger] spec_rec_v(
                    bc,
                    x,
                    m,
                ) by {
                    lemma_classifier_pins_within(*f, x, right, m);
                    assert(a == m(left));
                    assert(b == m(right));
                    assert(res@ == spec_rec_h(bc, right, m));
                }
            }
            res
        },
        _ => {
            let res = Vec::new();
            proof {
                assert forall|m: spec_fn(Patch) -> TestResult|
                    classifier_pins(*f, x, m) implies res@ == #[trigger] spec_rec_v(
                    bc,
                    x,
                    m,
                ) by {
                    assert(a == m(left));
                    assert(b == m(right));
                }
            }
            res
        },
    }
}

/// Runs the partition test: splits `x` alternately along its height and
/// width, down to halves whose relevant extent is at most `bc`, and
/// returns the patches the classifier `f` kept.
///
/// The patches all lie inside `x`, and whenever `f` agrees with a
/// mathematical classifier `m` on every patch inside `x`, the result is
/// exactly `spec_test(bc, x, m)` — in particular the call is then
/// deterministic.
pub fn test<F: Fn(Patch) -> TestResult>(bc: u32, x: Patch, f: &F) -> (res: Vec<Patch>)
    requires
        1 <= bc,
        x.p.0 + x.v.0 <= u32::MAX,
        x.p.1 + x.v.1 <= u32::MAX,
        classifier_callable(*f, x),
    ensures
        all_within(res@, x),
        forall|m: spec_fn(Patch) -> TestResult|
            classifier_pins(*f, x, m) ==> res@ == #[trigger] spec_test(bc, x, m),
{
    rec_h(bc, x, f)
}

/// Determinism of the partition test: the outcome is a function of the
/// bound, the root patch and the mathematical classifier alone, so two
/// runs whose classifiers are pinned to the same model return the same
/// patches in the same order.
pub proof fn lemma_test_deterministic(
    bc: u32,
    x: Patch,
    m: spec_fn(Patch) -> TestResult,
    r1: Seq<Patch>,
    r2: Seq<Patch>,
)
    requires
        r1 == spec_test(bc, x, m),
        r2 == spec_test(bc, x, m),
    ensures
        r1 == r2,
{
}

} // verus!

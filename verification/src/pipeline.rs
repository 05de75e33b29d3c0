//! A render pass scheduler: stages declare the resources they consume
//! and produce, and a runner executes them in dependency order.
//!
//! A [`Stage`] names its inputs and outputs; a [`Pipeline`] is the
//! ordered list of queued stages. A [`Runner`] walks the pipeline:
//! stages without inputs are ready at once, and committing a finished
//! stage's outputs makes every waiting stage whose inputs are all
//! available ready in turn.

use crate::indexing::clone_is_identity;
use core::marker::PhantomData;
use vstd::laws_eq::obeys_concrete_eq;
use vstd::pervasive::cloned;
use vstd::prelude::*;

verus! {

/// One schedulable unit of work: it consumes the resources named by
/// its inputs, produces the ones named by its outputs, and acts on a
/// mutable context when executed.
pub trait Stage<CTX, T> {
    /// The resources the stage needs before it can run.
    spec fn spec_inputs(&self) -> Seq<T>;

    /// The resources the stage makes available when it has run.
    spec fn spec_outputs(&self) -> Seq<T>;

    /// The stage's display name.
    spec fn spec_name(&self) -> &'static str;

    fn get_inputs(&self) -> (r: &[T])
        ensures
            r@ == self.spec_inputs(),
    ;

    fn get_outputs(&self) -> (r: &[T])
        ensures
            r@ == self.spec_outputs(),
    ;

    fn get_name(&self) -> (r: &'static str)
        ensures
            r == self.spec_name(),
    ;

    /// Runs the stage against the shared context. What a stage does to
    /// the context is its own business; the scheduler only orders the
    /// calls.
    fn execute(&self, ctx: &mut CTX);
}

fn to_vec_cloned<T: Clone>(s: &[T]) -> (r: Vec<T>)
    ensures
        r@.len() == s@.len(),
        forall|i: int| 0 <= i < s@.len() ==> cloned::<T>(s@[i], #[trigger] r@[i]),
        clone_is_identity::<T>() ==> r@ == s@,
{
    let mut r: Vec<T> = Vec::new();
    let mut k: usize = 0;
    while k < s.len()
        invariant
            k <= s@.len(),
            r@.len() == k,
            forall|i: int| 0 <= i < k ==> cloned::<T>(s@[i], #[trigger] r@[i]),
        decreases s@.len() - k,
    {
        r.push(s[k].clone());
        k += 1;
    }
    proof {
        if clone_is_identity::<T>() {
            assert(r@ =~= s@);
        }
    }
    r
}

/// A stage built from two resource lists and a function: executing it
/// replaces the context by `func(context, inputs)`.
#[verifier::reject_recursive_types(CTX)]
pub struct StageInstance<CTX, T, F> where F: Fn(&CTX, &[T]) -> CTX {
    name: &'static str,
    inputs: Vec<T>,
    outputs: Vec<T>,
    func: F,
    marker: PhantomData<CTX>,
}

impl<CTX, T, F> StageInstance<CTX, T, F> where F: Fn(&CTX, &[T]) -> CTX {
    /// The stored function accepts every context and input list, so
    /// that [`Stage::execute`] can always call it.
    #[verifier::type_invariant]
    spec fn callable(self) -> bool {
        forall|c: &CTX, s: &[T]| call_requires(self.func, (c, s))
    }

    /// Builds a stage named `name` from its input and output resource
    /// lists and the function to run.
    pub fn new(name: &'static str, inputs: &[T], outputs: &[T], f: F) -> (r: StageInstance<
        CTX,
        T,
        F,
    >) where T: Clone
        requires
            forall|c: &CTX, s: &[T]| call_requires(f, (c, s)),
        ensures
            r.spec_name() == name,
            clone_is_identity::<T>() ==> r.spec_inputs() == inputs@ && r.spec_outputs()
                == outputs@,
    {
        StageInstance {
            name,
            inputs: to_vec_cloned(inputs),
            outputs: to_vec_cloned(outputs),
            func: f,
            marker: PhantomData,
        }
    }
}

impl<CTX, T, F> Stage<CTX, T> for StageInstance<CTX, T, F> where F: Fn(&CTX, &[T]) -> CTX {
    closed spec fn spec_inputs(&self) -> Seq<T> {
        self.inputs@
    }

    closed spec fn spec_outputs(&self) -> Seq<T> {
        self.outputs@
    }

    closed spec fn spec_name(&self) -> &'static str {
        self.name
    }

    fn get_inputs(&self) -> (r: &[T]) {
        self.inputs.as_slice()
    }

    fn get_outputs(&self) -> (r: &[T]) {
        self.outputs.as_slice()
    }

    fn get_name(&self) -> (r: &'static str) {
        self.name
    }

    fn execute(&self, ctx: &mut CTX) {
        proof {
            use_type_invariant(&*self);
        }
        let next = (self.func)(&*ctx, self.inputs.as_slice());
        *ctx = next;
    }
}

impl<CTX, T, S: Stage<CTX, T>> Stage<CTX, T> for Box<S> {
    open spec fn spec_inputs(&self) -> Seq<T> {
        (**self).spec_inputs()
    }

    open spec fn spec_outputs(&self) -> Seq<T> {
        (**self).spec_outputs()
    }

    open spec fn spec_name(&self) -> &'static str {
        (**self).spec_name()
    }

    fn get_inputs(&self) -> (r: &[T]) {
        (**self).get_inputs()
    }

    fn get_outputs(&self) -> (r: &[T]) {
        (**self).get_outputs()
    }

    fn get_name(&self) -> (r: &'static str) {
        (**self).get_name()
    }

    fn execute(&self, ctx: &mut CTX) {
        (**self).execute(ctx)
    }
}

/// The ordered list of stages queued for one frame.
pub struct Pipeline<CTX, T, S> where T: Ord, S: Stage<CTX, T> {
    stages: Vec<S>,
    marker: PhantomData<(CTX, T)>,
}

impl<CTX, T, S> Pipeline<CTX, T, S> where T: Ord, S: Stage<CTX, T> {
    /// The queued stages, in queueing order.
    pub closed spec fn spec_stages(self) -> Seq<S> {
        self.stages@
    }

    /// An empty pipeline. The context only drives type inference; it
    /// is not stored.
    pub fn new(_ctx: &CTX) -> (r: Pipeline<CTX, T, S>)
        ensures
            r.spec_stages() == Seq::<S>::empty(),
    {
        let r = Pipeline { stages: Vec::new(), marker: PhantomData };
        proof {
            assert(r.spec_stages() =~= Seq::<S>::empty());
        }
        r
    }

    /// Appends a stage to the pipeline.
    pub fn queue(&mut self, stage: S)
        ensures
            final(self).spec_stages() == old(self).spec_stages().push(stage),
    {
        self.stages.push(stage);
    }

    fn get_stages(&self) -> (r: &Vec<S>)
        ensures
            r@ == self.spec_stages(),
    {
        &self.stages
    }
}

/// The indices of the stages of `q` that start ready: those with no
/// inputs, in pipeline order.
pub open spec fn spec_init_ready<CTX, T, S: Stage<CTX, T>>(q: Seq<S>) -> Seq<usize>
    decreases q.len(),
{
    if q.len() == 0 {
        Seq::empty()
    } else {
        let prev = spec_init_ready::<CTX, T, S>(q.drop_last());
        if q.last().spec_inputs().len() == 0 {
            prev.push((q.len() - 1) as usize)
        } else {
            prev
        }
    }
}

/// The indices of the stages of `q` that start waiting: those with
/// inputs, in pipeline order.
pub open spec fn spec_init_wait<CTX, T, S: Stage<CTX, T>>(q: Seq<S>) -> Seq<usize>
    decreases q.len(),
{
    if q.len() == 0 {
        Seq::empty()
    } else {
        let prev = spec_init_wait::<CTX, T, S>(q.drop_last());
        if q.last().spec_inputs().len() == 0 {
            prev
        } else {
            prev.push((q.len() - 1) as usize)
        }
    }
}

/// Every input of the stage `s` is in `avail`.
pub open spec fn inputs_covered<CTX, T, S: Stage<CTX, T>>(avail: Seq<T>, s: S) -> bool {
    forall|k: int| 0 <= k < s.spec_inputs().len() ==> avail.contains(#[trigger] s.spec_inputs()[k])
}

/// `avail` extended by the elements of `outs`, in order, skipping
/// those already present.
pub open spec fn spec_insert_all<T>(avail: Seq<T>, outs: Seq<T>) -> Seq<T>
    decreases outs.len(),
{
    if outs.len() == 0 {
        avail
    } else {
        let prev = spec_insert_all(avail, outs.drop_last());
        if prev.contains(outs.last()) {
            prev
        } else {
            prev.push(outs.last())
        }
    }
}

/// The indices of `wait` whose stages have all inputs in `avail`, in
/// order.
pub open spec fn spec_moved<CTX, T, S: Stage<CTX, T>>(
    q: Seq<S>,
    wait: Seq<usize>,
    avail: Seq<T>,
) -> Seq<usize>
    decreases wait.len(),
{
    if wait.len() == 0 {
        Seq::empty()
    } else {
        let prev = spec_moved(q, wait.drop_last(), avail);
        if inputs_covered(avail, q[wait.last() as int]) {
            prev.push(wait.last())
        } else {
            prev
        }
    }
}

/// The indices of `wait` whose stages still miss an input, in order.
pub open spec fn spec_kept<CTX, T, S: Stage<CTX, T>>(
    q: Seq<S>,
    wait: Seq<usize>,
    avail: Seq<T>,
) -> Seq<usize>
    decreases wait.len(),
{
    if wait.len() == 0 {
        Seq::empty()
    } else {
        let prev = spec_kept(q, wait.drop_last(), avail);
        if inputs_covered(avail, q[wait.last() as int]) {
            prev
        } else {
            prev.push(wait.last())
        }
    }
}

fn contains_val<T: PartialEq>(vs: &Vec<T>, x: &T) -> (r: bool)
    ensures
        obeys_concrete_eq::<T>() ==> (r <==> vs@.contains(*x)),
{
    let mut j: usize = 0;
    while j < vs.len()
        invariant
            j <= vs@.len(),
            obeys_concrete_eq::<T>() ==> forall|t: int| 0 <= t < j ==> vs@[t] != *x,
        decreases vs@.len() - j,
    {
        let hit = vs[j] == *x;
        proof {
            reveal(vstd::laws_eq::obeys_concrete_eq);
            if obeys_concrete_eq::<T>() {
                assert(hit <==> vs@[j as int] == *x);
            }
        }
        if hit {
            return true;
        }
        j += 1;
    }
    proof {
        if obeys_concrete_eq::<T>() && vs@.contains(*x) {
            let w = choose|t: int| 0 <= t < vs@.len() && vs@[t] == *x;
            assert(vs@[w] != *x);
        }
    }
    false
}

/// One traversal of a pipeline: hands out ready stages and, as their
/// outputs are committed, moves waiting stages whose inputs are all
/// available into the ready queue.
pub struct Runner<'a, CTX: 'a, T: Ord + 'a, S: Stage<CTX, T> + 'a> {
    available: Vec<T>,
    pipe: &'a Pipeline<CTX, T, S>,
    ready: Vec<usize>,
    wait: Vec<usize>,
}

impl<'a, CTX, T, S> Runner<'a, CTX, T, S> where T: Ord + Copy + 'a, S: Stage<CTX, T> + 'a {
    /// The resources committed so far.
    pub closed spec fn spec_available(self) -> Seq<T> {
        self.available@
    }

    /// The pipeline being traversed.
    pub closed spec fn spec_pipe(self) -> Pipeline<CTX, T, S> {
        *self.pipe
    }

    /// The indices of the stages ready to run, in order.
    pub closed spec fn spec_ready(self) -> Seq<usize> {
        self.ready@
    }

    /// The indices of the stages still missing an input, in order.
    pub closed spec fn spec_wait(self) -> Seq<usize> {
        self.wait@
    }

    /// Every tracked index points into the pipeline.
    pub open spec fn wf(self) -> bool {
        &&& forall|k: int|
            0 <= k < self.spec_ready().len() ==> (#[trigger] self.spec_ready()[k])
                < self.spec_pipe().spec_stages().len()
        &&& forall|k: int|
            0 <= k < self.spec_wait().len() ==> (#[trigger] self.spec_wait()[k])
                < self.spec_pipe().spec_stages().len()
    }

    /// Starts a traversal of `pipe`: stages without inputs are ready
    /// at once, the others wait; nothing is available yet.
    pub fn new(pipe: &'a Pipeline<CTX, T, S>) -> (r: Runner<'a, CTX, T, S>)
        ensures
            r.wf(),
            r.spec_pipe() == *pipe,
            r.spec_available() == Seq::<T>::empty(),
            r.spec_ready() == spec_init_ready::<CTX, T, S>(pipe.spec_stages()),
            r.spec_wait() == spec_init_wait::<CTX, T, S>(pipe.spec_stages()),
    {
        let stages = pipe.get_stages();
        let mut ready: Vec<usize> = Vec::new();
        let mut wait: Vec<usize> = Vec::new();
        let mut k: usize = 0;
        proof {
            assert(pipe.spec_stages().take(0) =~= Seq::<S>::empty());
        }
        while k < stages.len()
            invariant
                k <= stages@.len(),
                stages@ == pipe.spec_stages(),
                ready@ == spec_init_ready::<CTX, T, S>(pipe.spec_stages().take(k as int)),
                wait@ == spec_init_wait::<CTX, T, S>(pipe.spec_stages().take(k as int)),
                forall|t: int| 0 <= t < ready@.len() ==> (#[trigger] ready@[t] as int) < k,
                forall|t: int| 0 <= t < wait@.len() ==> (#[trigger] wait@[t] as int) < k,
            decreases stages@.len() - k,
        {
            let s = &stages[k];
            if s.get_inputs().len() == 0 {
                ready.push(k);
            } else {
                wait.push(k);
            }
            k += 1;
            proof {
                assert(pipe.spec_stages().take(k as int).drop_last() =~= pipe.spec_stages().take(
                    k - 1,
                ));
                assert(pipe.spec_stages().take(k as int).last() == pipe.spec_stages()[k - 1]);
            }
        }
        proof {
            assert(pipe.spec_stages().take(stages@.len() as int) =~= pipe.spec_stages());
        }
        let r = Runner { available: Vec::new(), pipe, ready, wait };
        proof {
            assert(r.spec_available() =~= Seq::<T>::empty());
        }
        r
    }

    /// Hands out the next ready stage, front of the queue first, or
    /// `None` when no stage is currently ready.
    pub fn pop(&mut self) -> (r: Option<&'a S>)
        requires
            old(self).wf(),
        ensures
            final(self).wf(),
            final(self).spec_pipe() == old(self).spec_pipe(),
            final(self).spec_available() == old(self).spec_available(),
            final(self).spec_wait() == old(self).spec_wait(),
            old(self).spec_ready().len() == 0 ==> r is None && final(self).spec_ready() == old(
                self,
            ).spec_ready(),
            old(self).spec_ready().len() > 0 ==> {
                &&& final(self).spec_ready() == old(self).spec_ready().drop_first()
                &&& r matches Some(s) && s == &old(self).spec_pipe().spec_stages()[old(
                    self,
                ).spec_ready()[0] as int]
            },
    {
        if self.ready.len() == 0 {
            return None;
        }
        proof {
            assert forall|t: int|
                0 <= t < self.ready@.len() implies (#[trigger] self.ready@[t])
                < self.pipe.spec_stages().len() by {
                assert(old(self).spec_ready()[t] < old(self).spec_pipe().spec_stages().len());
            }
        }
        let i = self.ready.remove(0);
        proof {
            assert forall|t: int|
                0 <= t < self.ready@.len() implies (#[trigger] self.ready@[t])
                < self.pipe.spec_stages().len() by {
                assert(self.ready@[t] == old(self).spec_ready()[t + 1]);
            }
        }
        proof {
            assert forall|t: int|
                0 <= t < self.wait@.len() implies (#[trigger] self.wait@[t])
                < self.pipe.spec_stages().len() by {
                assert(old(self).spec_wait()[t] < old(self).spec_pipe().spec_stages().len());
            }
        }
        let stages = self.pipe.get_stages();
        Some(&stages[i])
    }

    /// Commits the outputs of a finished stage: each becomes
    /// available (once), and every waiting stage whose inputs are now
    /// all available moves, in order, to the back of the ready queue.
    pub fn commit(&mut self, outputs: &[T])
        requires
            old(self).wf(),
        ensures
            final(self).wf(),
            final(self).spec_pipe() == old(self).spec_pipe(),
            obeys_concrete_eq::<T>() ==> {
                let avail = spec_insert_all(old(self).spec_available(), outputs@);
                let q = old(self).spec_pipe().spec_stages();
                &&& final(self).spec_available() == avail
                &&& final(self).spec_ready() == old(self).spec_ready() + spec_moved(
                    q,
                    old(self).spec_wait(),
                    avail,
                )
                &&& final(self).spec_wait() == spec_kept(q, old(self).spec_wait(), avail)
            },
    {
        let mut k: usize = 0;
        proof {
            assert(outputs@.take(0) =~= Seq::<T>::empty());
        }
        while k < outputs.len()
            invariant
                k <= outputs@.len(),
                self.pipe == old(self).pipe,
                self.ready@ == old(self).ready@,
                self.wait@ == old(self).wait@,
                obeys_concrete_eq::<T>() ==> self.available@ == spec_insert_all(
                    old(self).spec_available(),
                    outputs@.take(k as int),
                ),
            decreases outputs@.len() - k,
        {
            let o = outputs[k];
            if !contains_val(&self.available, &o) {
                self.available.push(o);
            }
            k += 1;
            proof {
                assert(outputs@.take(k as int).drop_last() =~= outputs@.take(k - 1));
                assert(outputs@.take(k as int).last() == outputs@[k - 1]);
            }
        }
        proof {
            assert(outputs@.take(outputs@.len() as int) =~= outputs@);
        }
        let stages = self.pipe.get_stages();
        proof {
            assert forall|t: int|
                0 <= t < self.wait@.len() implies (#[trigger] self.wait@[t])
                < self.pipe.spec_stages().len() by {
                assert(old(self).spec_wait()[t] < old(self).spec_pipe().spec_stages().len());
            }
            assert forall|t: int|
                0 <= t < self.ready@.len() implies (#[trigger] self.ready@[t])
                < self.pipe.spec_stages().len() by {
                assert(old(self).spec_ready()[t] < old(self).spec_pipe().spec_stages().len());
            }
        }
        let mut new_ready: Vec<usize> = Vec::new();
        let mut still_wait: Vec<usize> = Vec::new();
        let mut j: usize = 0;
        proof {
            assert(self.wait@.take(0) =~= Seq::<usize>::empty());
        }
        while j < self.wait.len()
            invariant
                j <= self.wait@.len(),
                self.pipe == old(self).pipe,
                stages@ == self.pipe.spec_stages(),
                self.ready@ == old(self).ready@,
                self.wait@ == old(self).wait@,
                forall|t: int|
                    0 <= t < self.wait@.len() ==> (#[trigger] self.wait@[t])
                        < self.pipe.spec_stages().len(),
                forall|t: int|
                    0 <= t < self.ready@.len() ==> (#[trigger] self.ready@[t])
                        < self.pipe.spec_stages().len(),
                forall|t: int|
                    0 <= t < new_ready@.len() ==> (#[trigger] new_ready@[t])
                        < self.pipe.spec_stages().len(),
                forall|t: int|
                    0 <= t < still_wait@.len() ==> (#[trigger] still_wait@[t])
                        < self.pipe.spec_stages().len(),
                obeys_concrete_eq::<T>() ==> {
                    &&& new_ready@ == spec_moved(
                        self.pipe.spec_stages(),
                        self.wait@.take(j as int),
                        self.available@,
                    )
                    &&& still_wait@ == spec_kept(
                        self.pipe.spec_stages(),
                        self.wait@.take(j as int),
                        self.available@,
                    )
                },
            decreases self.wait@.len() - j,
        {
            let idx = self.wait[j];
            let s = &stages[idx];
            let ghost stage_j = self.pipe.spec_stages()[idx as int];
            let ins = s.get_inputs();
            proof {
                assert(ins@ == stage_j.spec_inputs());
            }
            let mut covered = true;
            let mut t: usize = 0;
            while t < ins.len()
                invariant
                    t <= ins@.len(),
                    ins@ == stage_j.spec_inputs(),
                    obeys_concrete_eq::<T>() ==> (covered <==> forall|u: int|
                        0 <= u < t ==> self.available@.contains(#[trigger] ins@[u])),
                decreases ins@.len() - t,
            {
                if !contains_val(&self.available, &ins[t]) {
                    covered = false;
                }
                t += 1;
            }
            if covered {
                new_ready.push(idx);
            } else {
                still_wait.push(idx);
            }
            j += 1;
            proof {
                assert(self.wait@.take(j as int).drop_last() =~= self.wait@.take(j - 1));
                assert(self.wait@.take(j as int).last() == self.wait@[j - 1]);
                if obeys_concrete_eq::<T>() {
                    assert(covered <==> inputs_covered(self.available@, stage_j));
                }
            }
        }
        proof {
            assert(self.wait@.take(self.wait@.len() as int) =~= self.wait@);
        }
        let mut u: usize = 0;
        let ghost ready0 = self.ready@;
        let ghost avail1 = self.available@;
        let ghost moved0 = new_ready@;
        proof {
            assert(self.ready@ =~= ready0 + moved0.take(0));
        }
        while u < new_ready.len()
            invariant
                u <= new_ready@.len(),
                new_ready@ == moved0,
                self.pipe == old(self).pipe,
                self.wait@ == old(self).wait@,
                self.available@ == avail1,
                self.ready@ == ready0 + moved0.take(u as int),
                forall|t: int|
                    0 <= t < moved0.len() ==> (#[trigger] moved0[t])
                        < self.pipe.spec_stages().len(),
                forall|t: int|
                    0 <= t < ready0.len() ==> (#[trigger] ready0[t])
                        < self.pipe.spec_stages().len(),
            decreases new_ready@.len() - u,
        {
            let idx = new_ready[u];
            self.ready.push(idx);
            u += 1;
            proof {
                assert(self.ready@ =~= ready0 + moved0.take(u as int));
            }
        }
        proof {
            assert(moved0.take(moved0.len() as int) =~= moved0);
        }
        self.wait = still_wait;
    }

    /// Whether every stage with inputs has been moved to the ready
    /// queue: no stage is left waiting.
    pub fn is_done(&self) -> (r: bool)
        ensures
            r <==> self.spec_wait().len() == 0,
    {
        self.wait.len() == 0
    }
}

} // verus!

//! Cooperative tasks: identities, suspendable computations and the handles that
//! wake them.

pub mod executor;
pub mod interrupts;
pub mod keyboard;
pub mod queue;

use vstd::prelude::*;

verus! {

/// The identity of a task: a number that is used to find the task again, never to
/// order tasks.
#[derive(Debug, Clone, Copy, PartialEq, Eq, Structural, PartialOrd, Ord, Hash)]
pub struct TaskId(pub u64);

/// The value of a counter that stood at `counter` and has since been stepped
/// `calls` times; after the largest value it starts again at 0.
pub open spec fn counter_after(counter: u64, calls: nat) -> u64 {
    ((counter + calls) % 0x1_0000_0000_0000_0000) as u64
}

/// The source of task identities: a counter that hands out its value and moves on.
pub struct IdGenerator {
    next: u64,
}

impl View for IdGenerator {
    type V = u64;

    /// The number that the next identity will carry.
    closed spec fn view(&self) -> u64 {
        self.next
    }
}

impl IdGenerator {
    /// A generator whose first identity carries 0.
    pub fn new() -> (ids: IdGenerator)
        ensures
            ids@ == 0,
    {
        IdGenerator { next: 0 }
    }

    /// The identity that the call number `calls` from now will return, counting
    /// from 0.
    pub open spec fn upcoming(&self, calls: nat) -> TaskId {
        TaskId(counter_after(self@, calls))
    }

    /// An identity that no earlier call on this generator has returned, as long as
    /// fewer than 2^64 calls were made. It never waits.
    pub fn next_id(&mut self) -> (id: TaskId)
        ensures
            id == old(self).upcoming(0),
            final(self)@ == counter_after(old(self)@, 1),
            forall|calls: nat| #[trigger] final(self).upcoming(calls) == old(self).upcoming(calls + 1),
    {
        let id = TaskId(self.next);
        self.next = self.next.wrapping_add(1);
        proof {
            assert forall|calls: nat| #[trigger]
                self.upcoming(calls) == old(self).upcoming(calls + 1) by {
                lemma_upcoming_shifts(old(self)@, calls);
            }
        }
        id
    }
}

/// Identities are handed out in the order of the counter: what a generator will
/// return `calls` calls after its next call is what it would return `calls + 1`
/// calls from now.
pub proof fn lemma_upcoming_shifts(counter: u64, calls: nat)
    ensures
        counter_after(counter_after(counter, 1), calls) == counter_after(counter, calls + 1),
{
    let m: int = 0x1_0000_0000_0000_0000;
    vstd::arithmetic::div_mod::lemma_add_mod_noop((counter + 1) as int, calls as int, m);
    vstd::arithmetic::div_mod::lemma_add_mod_noop(((counter + 1) % m) as int, calls as int, m);
}

/// Uniqueness: two calls on one generator that are fewer than 2^64 calls apart
/// return different identities.
pub proof fn lemma_ids_distinct(counter: u64, first: nat, second: nat)
    requires
        first < second,
        second - first < 0x1_0000_0000_0000_0000,
    ensures
        TaskId(counter_after(counter, first)) != TaskId(counter_after(counter, second)),
{
    let m: int = 0x1_0000_0000_0000_0000;
    let a: int = counter + first;
    let b: int = counter + second;
    if a % m == b % m {
        vstd::arithmetic::div_mod::lemma_fundamental_div_mod(a, m);
        vstd::arithmetic::div_mod::lemma_fundamental_div_mod(b, m);
        let qa: int = a / m;
        let qb: int = b / m;
        assert(m * qb - m * qa == m * (qb - qa)) by (nonlinear_arith);
        assert(false) by (nonlinear_arith)
            requires
                0 < b - a < m,
                b - a == m * (qb - qa),
        ;
    }
}

/// What resuming a computation reports: it is done, or it waits to be woken.
#[derive(Debug, PartialEq, Eq)]
pub enum Poll<T> {
    Ready(T),
    Pending,
}

/// The token that makes a suspended task ready again. It names the task and is
/// cheap to copy; waking through it is the executor's `wake`.
#[derive(Debug, Clone, Copy, PartialEq, Eq, Structural)]
pub struct WakeHandle {
    pub task_id: TaskId,
}

/// What a computation is given when it is resumed: the handle by which it can
/// ask to be resumed again.
#[derive(Debug, Clone, Copy, PartialEq, Eq, Structural)]
pub struct Context {
    waker: WakeHandle,
}

impl Context {
    /// The handle that the context carries.
    pub closed spec fn spec_waker(&self) -> WakeHandle {
        self.waker
    }

    /// The context that carries the given handle.
    pub closed spec fn of(waker: WakeHandle) -> Context {
        Context { waker }
    }

    /// A context that carries the given handle.
    #[verifier::when_used_as_spec(of)]
    pub fn from_waker(waker: WakeHandle) -> (context: Context)
        ensures
            context == Context::of(waker),
            context.spec_waker() == waker,
    {
        Context { waker }
    }

    /// The handle of the task that is being resumed.
    #[verifier::when_used_as_spec(spec_waker)]
    pub fn waker(&self) -> (waker: WakeHandle)
        ensures
            waker == self.spec_waker(),
    {
        self.waker
    }
}

/// A unit of work that can pause and go on later. `E` is what the work may use
/// while it runs: the devices it reads and writes.
pub trait Computation<E> {
    /// What one resume of the work can do: whether, resumed with the given
    /// context on devices in the state `before`, it can report `progress` and
    /// leave the devices in the state `after`. An implementation that does not
    /// say what it does leaves this as it is, and so admits every outcome.
    open spec fn resumes(&self, context: &Context, before: &E, after: &E, progress: Poll<()>) -> bool {
        true
    }

    /// Advances the work until it is done or has to wait. Before it reports
    /// `Pending` it leaves the context's handle with whatever will wake it.
    fn resume(&mut self, context: &Context, env: &mut E) -> (progress: Poll<()>)
        ensures
            old(self).resumes(context, old(env), final(env), progress),
    ;
}

/// A computation of any shape, in a heap slot of its own, behind the one
/// capability to resume it.
#[verifier::reject_recursive_types(E)]
struct Resumable<E> {
    work: Box<dyn Computation<E>>,
}

impl<E> Resumable<E> {
    /// What one resume of the work can do.
    closed spec fn resumes(&self, context: &Context, before: &E, after: &E, progress: Poll<()>) -> bool {
        self.work.resumes(context, before, after, progress)
    }

    /// `Box::new`, and the conversion of the box to a box of a trait object.
    /// A trait object answers with the implementation of the value it was made
    /// from, so what one resume of the boxed work can do is what one resume of
    /// the work handed in can do. Nothing here proves this of the conversion:
    /// it is taken on trust.
    #[verifier::external_body]
    fn new<C: Computation<E> + 'static>(computation: C) -> (held: Resumable<E>)
        ensures
            forall|context: &Context, before: &E, after: &E, progress: Poll<()>|
                #[trigger] held.resumes(context, before, after, progress) == computation.resumes(
                    context,
                    before,
                    after,
                    progress,
                ),
    {
        Resumable { work: Box::new(computation) }
    }

    /// Resumes the work once.
    fn resume(&mut self, context: &Context, env: &mut E) -> (progress: Poll<()>)
        ensures
            old(self).resumes(context, old(env), final(env), progress),
    {
        self.work.resume(context, env)
    }
}

/// A computation together with its identity. The computation lives in a heap
/// slot of its own from the start to the end of the task.
#[verifier::reject_recursive_types(E)]
pub struct Task<E> {
    id: TaskId,
    computation: Resumable<E>,
}

impl<E> Task<E> {
    /// The identity of the task.
    pub closed spec fn spec_id(&self) -> TaskId {
        self.id
    }

    /// What one resume of the task's computation can do: whether, resumed with
    /// the given context on devices in the state `before`, it can report
    /// `progress` and leave the devices in the state `after`.
    pub closed spec fn resumes(&self, context: &Context, before: &E, after: &E, progress: Poll<()>) -> bool {
        self.computation.resumes(context, before, after, progress)
    }

    /// Wraps the computation and gives it the generator's next identity. What
    /// one resume of the task can do is what one resume of the computation
    /// can do.
    pub fn new<C: Computation<E> + 'static>(computation: C, ids: &mut IdGenerator) -> (task: Task<E>)
        ensures
            task.spec_id() == old(ids).upcoming(0),
            final(ids)@ == counter_after(old(ids)@, 1),
            forall|context: &Context, before: &E, after: &E, progress: Poll<()>|
                #[trigger] task.resumes(context, before, after, progress) == computation.resumes(
                    context,
                    before,
                    after,
                    progress,
                ),
    {
        let id = ids.next_id();
        Task { id, computation: Resumable::new(computation) }
    }

    /// The identity of the task.
    #[verifier::when_used_as_spec(spec_id)]
    pub fn id(&self) -> (id: TaskId)
        ensures
            id == self.spec_id(),
    {
        self.id
    }

    /// Resumes the task's computation once, with the given context on the given
    /// devices, and reports what the computation reports: that it is done, or
    /// that it waits to be woken. What happens to the devices is what the
    /// computation does to them. The task keeps its identity.
    pub fn poll(&mut self, context: &Context, env: &mut E) -> (progress: Poll<()>)
        ensures
            final(self).spec_id() == old(self).spec_id(),
            old(self).resumes(context, old(env), final(env), progress),
    {
        self.computation.resume(context, env)
    }
}

} // verus!
